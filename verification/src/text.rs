//! Character-level text utilities shared by the memory pipeline.
//!
//! All processing works on `Vec<char>` so that contracts can speak about
//! `Seq<char>` directly; `String` appears only at the public edges.

use vstd::prelude::*;

verus! {

/// Relies on str::chars: yields the characters of the string in order.
#[verifier::external_body]
pub(crate) fn chars_of(s: &str) -> (r: Vec<char>)
    ensures
        r@ == s@,
{
    s.chars().collect()
}

/// Relies on FromIterator for String: collecting chars builds the string of
/// exactly those characters.
#[verifier::external_body]
pub(crate) fn string_from(v: &Vec<char>) -> (r: String)
    ensures
        r@ == v@,
{
    v.iter().collect()
}

/// Relies on str equality comparing exactly the character contents.
#[verifier::external_body]
pub(crate) fn str_eq(a: &str, b: &str) -> (r: bool)
    ensures
        r == (a@ == b@),
{
    a == b
}

/// The pattern `pat` occurs in `s` starting at index `i`.
pub open spec fn occurs_at(s: Seq<char>, pat: Seq<char>, i: int) -> bool {
    0 <= i && i + pat.len() <= s.len() && s.subrange(i, i + pat.len()) == pat
}

/// The pattern `pat` occurs somewhere in `s`.
pub open spec fn has_sub(s: Seq<char>, pat: Seq<char>) -> bool {
    exists|i: int| occurs_at(s, pat, i)
}

/// Whether `pat` occurs at position `i` of `s`.
pub fn eq_at(s: &Vec<char>, i: usize, pat: &Vec<char>) -> (r: bool)
    requires
        i + pat@.len() <= s@.len(),
    ensures
        r == occurs_at(s@, pat@, i as int),
{
    let n = s.len();
    let p = pat.len();
    let mut j: usize = 0;
    while j < p
        invariant
            0 <= j <= p,
            n == s@.len(),
            p == pat@.len(),
            i + p <= n,
            forall|t: int| 0 <= t < j ==> s@[i + t] == pat@[t],
        decreases p - j,
    {
        if s[i + j] != pat[j] {
            assert(s@.subrange(i as int, i + pat@.len())[j as int] != pat@[j as int]);
            return false;
        }
        j += 1;
    }
    assert(s@.subrange(i as int, i + pat@.len()) =~= pat@);
    true
}

/// Index of the first occurrence of `pat` in `s`, if any.
pub fn find_sub(s: &Vec<char>, pat: &Vec<char>) -> (r: Option<usize>)
    ensures
        match r {
            Some(i) => occurs_at(s@, pat@, i as int) && forall|j: int|
                0 <= j < i ==> !occurs_at(s@, pat@, j),
            None => !has_sub(s@, pat@),
        },
{
    if pat.len() > s.len() {
        assert(forall|i: int| !occurs_at(s@, pat@, i));
        return None;
    }
    if pat.len() == 0 {
        assert(occurs_at(s@, pat@, 0)) by {
            assert(s@.subrange(0, 0) =~= pat@);
        }
        return Some(0);
    }
    let n = s.len();
    let p = pat.len();
    let mut i: usize = 0;
    while i <= n - p
        invariant
            n == s@.len(),
            p == pat@.len(),
            1 <= p <= n,
            0 <= i <= n - p + 1,
            forall|j: int| 0 <= j < i ==> !occurs_at(s@, pat@, j),
        decreases n - p - i + 1,
    {
        if eq_at(s, i, pat) {
            return Some(i);
        }
        i += 1;
    }
    assert(forall|j: int| !occurs_at(s@, pat@, j));
    None
}

/// Whether `pat` occurs anywhere in `s`.
pub fn contains_sub(s: &Vec<char>, pat: &Vec<char>) -> (r: bool)
    ensures
        r == has_sub(s@, pat@),
{
    find_sub(s, pat).is_some()
}

/// `pat` occurs at `i` and fits entirely within the first `limit` characters.
pub open spec fn occurs_within(s: Seq<char>, pat: Seq<char>, limit: int, i: int) -> bool {
    occurs_at(s, pat, i) && i + pat.len() <= limit
}

/// Index of the last occurrence of `pat` that lies entirely within the first
/// `limit` characters of `s`, or -1.
pub open spec fn rfind_within(s: Seq<char>, pat: Seq<char>, limit: int) -> int
    decreases limit,
    when limit <= s.len()
{
    if limit <= 0 {
        -1
    } else if occurs_within(s, pat, limit, limit - pat.len()) {
        limit - pat.len()
    } else {
        rfind_within(s, pat, limit - 1)
    }
}

pub proof fn lemma_rfind_within_found(s: Seq<char>, pat: Seq<char>, limit: int, i: int)
    requires
        0 <= limit <= s.len(),
        pat.len() > 0,
        occurs_within(s, pat, limit, i),
        forall|j: int| i < j ==> !occurs_within(s, pat, limit, j),
    ensures
        rfind_within(s, pat, limit) == i,
    decreases limit,
{
    if limit > 0 {
        let e = limit - pat.len();
        if occurs_within(s, pat, limit, e) {
            assert(i <= e);
            if i < e {
                assert(!occurs_within(s, pat, limit, e));
            }
            assert(i == e);
        } else {
            if i + pat.len() == limit {
                assert(occurs_within(s, pat, limit, limit - pat.len()));
            }
            let lm = limit - 1;
            assert forall|j: int| i < j implies !occurs_within(s, pat, lm, j) by {
                assert(!occurs_within(s, pat, limit, j));
            }
            lemma_rfind_within_found(s, pat, lm, i);
        }
    }
}

pub proof fn lemma_rfind_within_missing(s: Seq<char>, pat: Seq<char>, limit: int)
    requires
        0 <= limit <= s.len(),
        pat.len() > 0,
        forall|j: int| !occurs_within(s, pat, limit, j),
    ensures
        rfind_within(s, pat, limit) == -1,
    decreases limit,
{
    if limit > 0 {
        let lm = limit - 1;
        assert forall|j: int| !occurs_within(s, pat, lm, j) by {
            assert(!occurs_within(s, pat, limit, j));
        }
        lemma_rfind_within_missing(s, pat, lm);
    }
}

/// Last occurrence of `pat` lying entirely within the first `limit`
/// characters of `s`.
pub fn rfind_sub_before(s: &Vec<char>, pat: &Vec<char>, limit: usize) -> (r: Option<usize>)
    requires
        limit <= s@.len(),
        pat@.len() > 0,
    ensures
        match r {
            Some(i) => rfind_within(s@, pat@, limit as int) == i as int && occurs_within(
                s@,
                pat@,
                limit as int,
                i as int,
            ),
            None => rfind_within(s@, pat@, limit as int) == -1,
        },
{
    let mut i: usize = limit;
    while i > 0
        invariant
            limit <= s@.len(),
            pat@.len() > 0,
            0 <= i <= limit,
            forall|j: int| i <= j ==> !occurs_within(s@, pat@, limit as int, j),
        decreases i,
    {
        i -= 1;
        if pat.len() <= limit - i {
            if eq_at(s, i, pat) {
                proof {
                    lemma_rfind_within_found(s@, pat@, limit as int, i as int);
                }
                return Some(i);
            }
        }
        assert(!occurs_within(s@, pat@, limit as int, i as int));
    }
    proof {
        lemma_rfind_within_missing(s@, pat@, limit as int);
    }
    None
}

/// Index of the first occurrence of `pat` at or after `i`, or -1.
pub open spec fn find_from_spec(s: Seq<char>, pat: Seq<char>, i: int) -> int
    decreases s.len() - i,
    when 0 <= i
{
    if pat.len() == 0 {
        if i <= s.len() {
            i
        } else {
            -1
        }
    } else if i + pat.len() > s.len() {
        -1
    } else if occurs_at(s, pat, i) {
        i
    } else {
        find_from_spec(s, pat, i + 1)
    }
}

pub proof fn lemma_find_from_found(s: Seq<char>, pat: Seq<char>, from: int, i: int)
    requires
        0 <= from <= i,
        occurs_at(s, pat, i),
        forall|j: int| from <= j < i ==> !occurs_at(s, pat, j),
    ensures
        find_from_spec(s, pat, from) == i,
    decreases i - from,
{
    if pat.len() == 0 {
        if from < i {
            assert(s.subrange(from, from) =~= pat);
            assert(occurs_at(s, pat, from));
        }
    } else if from < i {
        lemma_find_from_found(s, pat, from + 1, i);
    }
}

pub proof fn lemma_find_from_missing(s: Seq<char>, pat: Seq<char>, from: int)
    requires
        0 <= from,
        forall|j: int| from <= j ==> !occurs_at(s, pat, j),
    ensures
        find_from_spec(s, pat, from) == -1,
    decreases s.len() - from,
{
    if pat.len() == 0 {
        if from <= s.len() {
            assert(s.subrange(from, from) =~= pat);
            assert(occurs_at(s, pat, from));
        }
    } else if from + pat.len() <= s.len() {
        lemma_find_from_missing(s, pat, from + 1);
    }
}

/// ASCII whitespace, the separator set this pipeline trims and splits on.
pub open spec fn is_space(c: char) -> bool {
    c == ' ' || c == '\t' || c == '\n' || c == '\r'
}

pub fn space_char(c: char) -> (r: bool)
    ensures
        r == is_space(c),
{
    c == ' ' || c == '\t' || c == '\n' || c == '\r'
}

/// `s` with leading whitespace removed.
pub open spec fn trim_front(s: Seq<char>) -> Seq<char>
    decreases s.len(),
{
    if s.len() > 0 && is_space(s[0]) {
        trim_front(s.drop_first())
    } else {
        s
    }
}

/// `s` with trailing whitespace removed.
pub open spec fn trim_back(s: Seq<char>) -> Seq<char>
    decreases s.len(),
{
    if s.len() > 0 && is_space(s[s.len() - 1]) {
        trim_back(s.drop_last())
    } else {
        s
    }
}

/// `s` with whitespace removed from both ends.
pub open spec fn trim_spec(s: Seq<char>) -> Seq<char> {
    trim_back(trim_front(s))
}

proof fn lemma_trim_front_skip(s: Seq<char>, i: int)
    requires
        0 <= i <= s.len(),
        forall|j: int| 0 <= j < i ==> is_space(s[j]),
        i < s.len() ==> !is_space(s[i]),
    ensures
        trim_front(s) == s.skip(i),
    decreases i,
{
    if i == 0 {
        assert(s.skip(0) =~= s);
    } else {
        lemma_trim_front_skip(s.drop_first(), i - 1);
        assert(s.drop_first().skip(i - 1) =~= s.skip(i));
    }
}

proof fn lemma_trim_back_take(s: Seq<char>, i: int)
    requires
        0 <= i <= s.len(),
        forall|j: int| i <= j < s.len() ==> is_space(s[j]),
        i > 0 ==> !is_space(s[i - 1]),
    ensures
        trim_back(s) == s.take(i),
    decreases s.len() - i,
{
    if i == s.len() {
        assert(s.take(i) =~= s);
    } else {
        lemma_trim_back_take(s.drop_last(), i);
        assert(s.drop_last().take(i) =~= s.take(i));
    }
}

/// Copy of `s[from..to]`.
pub fn slice_range(s: &Vec<char>, from: usize, to: usize) -> (r: Vec<char>)
    requires
        from <= to <= s@.len(),
    ensures
        r@ == s@.subrange(from as int, to as int),
{
    let mut r: Vec<char> = Vec::new();
    let mut i: usize = from;
    while i < to
        invariant
            from <= i <= to <= s@.len(),
            r@ == s@.subrange(from as int, i as int),
        decreases to - i,
    {
        r.push(s[i]);
        assert(r@ =~= s@.subrange(from as int, i + 1));
        i += 1;
    }
    r
}

/// `s` with whitespace trimmed from both ends.
pub fn trim_chars(s: &Vec<char>) -> (r: Vec<char>)
    ensures
        r@ == trim_spec(s@),
{
    let mut start: usize = 0;
    while start < s.len() && space_char(s[start])
        invariant
            0 <= start <= s@.len(),
            forall|j: int| 0 <= j < start ==> is_space(s@[j]),
        decreases s@.len() - start,
    {
        start += 1;
    }
    proof {
        lemma_trim_front_skip(s@, start as int);
    }
    let mut end: usize = s.len();
    while end > start && space_char(s[end - 1])
        invariant
            start <= end <= s@.len(),
            forall|j: int| end <= j < s@.len() ==> is_space(s@[j]),
        decreases end,
    {
        end -= 1;
    }
    if end == start {
        proof {
            assert(trim_back(trim_front(s@)) =~= Seq::<char>::empty()) by {
                lemma_trim_back_take(s@.skip(start as int), 0);
                assert(s@.skip(start as int).take(0) =~= Seq::<char>::empty());
            }
        }
        return Vec::new();
    }
    proof {
        let tf = s@.skip(start as int);
        lemma_trim_back_take(tf, end - start);
        assert(tf.take(end - start) =~= s@.subrange(start as int, end as int));
    }
    slice_range(s, start, end)
}

/// The first `n` characters of `s`, or all of `s` if it is shorter.
pub fn take_chars(s: &Vec<char>, n: usize) -> (r: Vec<char>)
    ensures
        r@ == s@.take(min_int(n as int, s@.len() as int)),
{
    let end = if n < s.len() { n } else { s.len() };
    let r = slice_range(s, 0, end);
    assert(s@.subrange(0, end as int) =~= s@.take(min_int(n as int, s@.len() as int)));
    r
}

pub open spec fn min_int(a: int, b: int) -> int {
    if a < b { a } else { b }
}

/// Append all of `src` onto `dst`.
pub fn push_all(dst: &mut Vec<char>, src: &Vec<char>)
    ensures
        final(dst)@ == old(dst)@ + src@,
{
    let mut i: usize = 0;
    while i < src.len()
        invariant
            0 <= i <= src@.len(),
            dst@ == old(dst)@ + src@.take(i as int),
        decreases src@.len() - i,
    {
        dst.push(src[i]);
        assert(old(dst)@ + src@.take(i as int) + seq![src@[i as int]] =~= old(dst)@ + src@.take(
            i + 1,
        ));
        i += 1;
    }
    assert(src@.take(src@.len() as int) =~= src@);
}

/// ASCII lower-casing of one character; other characters are unchanged.
pub open spec fn lower_char(c: char) -> char {
    if 'A' <= c && c <= 'Z' {
        (((c as u8) + 32) as char)
    } else {
        c
    }
}

pub open spec fn lower_seq(s: Seq<char>) -> Seq<char> {
    s.map_values(|c: char| lower_char(c))
}

/// ASCII upper-casing of one character; other characters are unchanged.
pub open spec fn upper_char(c: char) -> char {
    if 'a' <= c && c <= 'z' {
        (((c as u8) - 32) as char)
    } else {
        c
    }
}

pub open spec fn upper_seq(s: Seq<char>) -> Seq<char> {
    s.map_values(|c: char| upper_char(c))
}

pub fn to_lower(s: &Vec<char>) -> (r: Vec<char>)
    ensures
        r@ == lower_seq(s@),
{
    let mut r: Vec<char> = Vec::new();
    let mut i: usize = 0;
    while i < s.len()
        invariant
            0 <= i <= s@.len(),
            r@ == lower_seq(s@.take(i as int)),
        decreases s@.len() - i,
    {
        let c = s[i];
        if 'A' <= c && c <= 'Z' {
            r.push(((c as u8) + 32) as char);
        } else {
            r.push(c);
        }
        assert(r@ =~= lower_seq(s@.take(i + 1)));
        i += 1;
    }
    assert(s@.take(s@.len() as int) =~= s@);
    r
}

pub fn to_upper(s: &Vec<char>) -> (r: Vec<char>)
    ensures
        r@ == upper_seq(s@),
{
    let mut r: Vec<char> = Vec::new();
    let mut i: usize = 0;
    while i < s.len()
        invariant
            0 <= i <= s@.len(),
            r@ == upper_seq(s@.take(i as int)),
        decreases s@.len() - i,
    {
        let c = s[i];
        if 'a' <= c && c <= 'z' {
            r.push(((c as u8) - 32) as char);
        } else {
            r.push(c);
        }
        assert(r@ =~= upper_seq(s@.take(i + 1)));
        i += 1;
    }
    assert(s@.take(s@.len() as int) =~= s@);
    r
}

/// `s` with its first character ASCII-upper-cased.
pub open spec fn capitalize_spec(s: Seq<char>) -> Seq<char> {
    if s.len() == 0 {
        s
    } else {
        seq![upper_char(s[0])] + s.drop_first()
    }
}

pub fn capitalize_first(s: &Vec<char>) -> (r: Vec<char>)
    ensures
        r@ == capitalize_spec(s@),
{
    if s.len() == 0 {
        return Vec::new();
    }
    let mut r: Vec<char> = Vec::new();
    let c = s[0];
    if 'a' <= c && c <= 'z' {
        r.push(((c as u8) - 32) as char);
    } else {
        r.push(c);
    }
    let rest = slice_range(s, 1, s.len());
    push_all(&mut r, &rest);
    assert(s@.subrange(1, s@.len() as int) =~= s@.drop_first());
    assert(r@ =~= capitalize_spec(s@));
    r
}

/// Replacement of every non-overlapping occurrence of `pat` in `s` by `rep`,
/// scanning left to right; `pat` must be non-empty.
pub open spec fn replace_spec(s: Seq<char>, pat: Seq<char>, rep: Seq<char>) -> Seq<char>
    decreases s.len(),
    when pat.len() > 0
{
    if s.len() < pat.len() {
        s
    } else if s.take(pat.len() as int) == pat {
        rep + replace_spec(s.skip(pat.len() as int), pat, rep)
    } else {
        seq![s[0]] + replace_spec(s.drop_first(), pat, rep)
    }
}

proof fn lemma_replace_step_match(s: Seq<char>, pat: Seq<char>, rep: Seq<char>, i: int)
    requires
        pat.len() > 0,
        occurs_at(s, pat, i),
    ensures
        replace_spec(s.skip(i), pat, rep) == rep + replace_spec(s.skip(i + pat.len()), pat, rep),
{
    assert(s.skip(i).take(pat.len() as int) =~= s.subrange(i, i + pat.len()));
    assert(s.skip(i).skip(pat.len() as int) =~= s.skip(i + pat.len()));
}

proof fn lemma_replace_step_nomatch(s: Seq<char>, pat: Seq<char>, rep: Seq<char>, i: int)
    requires
        pat.len() > 0,
        0 <= i < s.len(),
        !occurs_at(s, pat, i),
    ensures
        replace_spec(s.skip(i), pat, rep) == seq![s[i]] + replace_spec(s.skip(i + 1), pat, rep),
{
    let t = s.skip(i);
    if t.len() >= pat.len() {
        assert(t.take(pat.len() as int) =~= s.subrange(i, i + pat.len()));
        assert(t.take(pat.len() as int) != pat);
    } else {
        assert(t.len() >= 1);
        assert(t =~= seq![s[i]] + s.skip(i + 1));
        assert(s.skip(i + 1).len() < pat.len());
    }
    assert(t.drop_first() =~= s.skip(i + 1));
    if t.len() < pat.len() {
        assert(replace_spec(t.drop_first(), pat, rep) == t.drop_first());
        assert(seq![s[i]] + t.drop_first() =~= t);
    }
}

/// `s` with every occurrence of `pat` replaced by `rep`.
pub fn replace_all(s: &Vec<char>, pat: &Vec<char>, rep: &Vec<char>) -> (r: Vec<char>)
    requires
        pat@.len() > 0,
    ensures
        r@ == replace_spec(s@, pat@, rep@),
{
    let n = s.len();
    let p = pat.len();
    let mut r: Vec<char> = Vec::new();
    let mut i: usize = 0;
    proof {
        assert(s@.skip(0) =~= s@);
        assert(r@ + replace_spec(s@, pat@, rep@) =~= replace_spec(s@, pat@, rep@));
    }
    while i < n
        invariant
            n == s@.len(),
            p == pat@.len(),
            p > 0,
            0 <= i <= n,
            replace_spec(s@, pat@, rep@) == r@ + replace_spec(s@.skip(i as int), pat@, rep@),
        decreases n - i,
    {
        if p <= n - i && eq_at(s, i, pat) {
            proof {
                lemma_replace_step_match(s@, pat@, rep@, i as int);
            }
            push_all(&mut r, rep);
            i += p;
        } else {
            proof {
                if p <= n - i {
                    lemma_replace_step_nomatch(s@, pat@, rep@, i as int);
                } else {
                    lemma_replace_step_nomatch(s@, pat@, rep@, i as int);
                }
            }
            r.push(s[i]);
            i += 1;
        }
    }
    proof {
        assert(s@.skip(n as int) =~= Seq::<char>::empty());
        assert(replace_spec(Seq::<char>::empty(), pat@, rep@) == Seq::<char>::empty());
        assert(r@ + Seq::<char>::empty() =~= r@);
    }
    r
}

/// Whether `s` starts with `pat`.
pub fn starts_with_sub(s: &Vec<char>, pat: &Vec<char>) -> (r: bool)
    ensures
        r == occurs_at(s@, pat@, 0),
{
    if pat.len() > s.len() {
        return false;
    }
    eq_at(s, 0, pat)
}

/// ASCII word character: letter, digit or underscore.
pub open spec fn is_word_char(c: char) -> bool {
    ('a' <= c && c <= 'z') || ('A' <= c && c <= 'Z') || ('0' <= c && c <= '9') || c == '_'
}

pub fn word_char(c: char) -> (r: bool)
    ensures
        r == is_word_char(c),
{
    ('a' <= c && c <= 'z') || ('A' <= c && c <= 'Z') || ('0' <= c && c <= '9') || c == '_'
}

/// `pat` occurs at `i` in `s` with word boundaries on both sides.
pub open spec fn word_occurs_at(s: Seq<char>, pat: Seq<char>, i: int) -> bool {
    &&& occurs_at(s, pat, i)
    &&& (i == 0 || !is_word_char(s[i - 1]))
    &&& (i + pat.len() == s.len() || !is_word_char(s[i + pat.len()]))
}

/// The tail of a left-to-right whole-word replacement, starting at index `i`.
pub open spec fn word_replace_from(s: Seq<char>, pat: Seq<char>, rep: Seq<char>, i: int) -> Seq<
    char,
>
    decreases s.len() - i,
    when pat.len() > 0 && 0 <= i <= s.len()
{
    if i >= s.len() {
        Seq::empty()
    } else if word_occurs_at(s, pat, i) {
        rep + word_replace_from(s, pat, rep, i + pat.len())
    } else {
        seq![s[i]] + word_replace_from(s, pat, rep, i + 1)
    }
}

/// `s` with every whole-word occurrence of `pat` replaced by `rep`.
pub open spec fn word_replace_spec(s: Seq<char>, pat: Seq<char>, rep: Seq<char>) -> Seq<char> {
    word_replace_from(s, pat, rep, 0)
}

pub fn word_replace_all(s: &Vec<char>, pat: &Vec<char>, rep: &Vec<char>) -> (r: Vec<char>)
    requires
        pat@.len() > 0,
    ensures
        r@ == word_replace_spec(s@, pat@, rep@),
{
    let n = s.len();
    let p = pat.len();
    let mut r: Vec<char> = Vec::new();
    let mut i: usize = 0;
    while i < n
        invariant
            n == s@.len(),
            p == pat@.len(),
            p > 0,
            0 <= i <= n,
            word_replace_spec(s@, pat@, rep@) == r@ + word_replace_from(s@, pat@, rep@, i as int),
        decreases n - i,
    {
        let here = p <= n - i && eq_at(s, i, pat) && (i == 0 || !word_char(s[i - 1])) && (i + p == n
            || !word_char(s[i + p]));
        if here {
            push_all(&mut r, rep);
            i += p;
        } else {
            r.push(s[i]);
            i += 1;
        }
    }
    assert(word_replace_from(s@, pat@, rep@, n as int) =~= Seq::<char>::empty());
    assert(r@ + Seq::<char>::empty() =~= r@);
    r
}

/// Index of the first occurrence of `c` in `s`, or -1 if there is none.
pub open spec fn first_index_of(s: Seq<char>, c: char) -> int
    decreases s.len(),
{
    if s.len() == 0 {
        -1
    } else if s[0] == c {
        0
    } else {
        let r = first_index_of(s.drop_first(), c);
        if r < 0 {
            -1
        } else {
            r + 1
        }
    }
}

pub proof fn lemma_first_index_found(s: Seq<char>, c: char, i: int)
    requires
        0 <= i < s.len(),
        s[i] == c,
        forall|j: int| 0 <= j < i ==> s[j] != c,
    ensures
        first_index_of(s, c) == i,
    decreases i,
{
    if i > 0 {
        lemma_first_index_found(s.drop_first(), c, i - 1);
    }
}

pub proof fn lemma_first_index_missing(s: Seq<char>, c: char)
    requires
        forall|j: int| 0 <= j < s.len() ==> s[j] != c,
    ensures
        first_index_of(s, c) == -1,
    decreases s.len(),
{
    if s.len() > 0 {
        lemma_first_index_missing(s.drop_first(), c);
    }
}

/// First occurrence of `c` at or after `from`.
pub fn find_char_from(s: &Vec<char>, c: char, from: usize) -> (r: Option<usize>)
    requires
        from <= s@.len(),
    ensures
        match r {
            Some(i) => from <= i < s@.len() && s@[i as int] == c && forall|j: int|
                from <= j < i ==> s@[j] != c,
            None => forall|j: int| from <= j < s@.len() ==> s@[j] != c,
        },
{
    let n = s.len();
    let mut i: usize = from;
    while i < n
        invariant
            n == s@.len(),
            from <= i <= n,
            forall|j: int| from <= j < i ==> s@[j] != c,
        decreases n - i,
    {
        if s[i] == c {
            return Some(i);
        }
        i += 1;
    }
    None
}

/// A line with one trailing carriage return removed.
pub open spec fn strip_cr(l: Seq<char>) -> Seq<char> {
    if l.len() > 0 && l[l.len() - 1] == '\r' {
        l.drop_last()
    } else {
        l
    }
}

/// The lines of `s`: pieces separated by newline, a trailing carriage return
/// removed from each, with no final empty piece when `s` ends in a newline.
pub open spec fn lines_spec(s: Seq<char>) -> Seq<Seq<char>>
    decreases s.len(),
{
    if s.len() == 0 {
        Seq::empty()
    } else {
        let i = first_index_of(s, '\n');
        if 0 <= i < s.len() {
            seq![strip_cr(s.take(i))] + lines_spec(s.skip(i + 1))
        } else {
            seq![strip_cr(s)]
        }
    }
}

/// The views of the elements of a vector of character vectors.
pub open spec fn seqs_of(v: Seq<Vec<char>>) -> Seq<Seq<char>> {
    v.map_values(|x: Vec<char>| x@)
}

fn strip_cr_exec(l: Vec<char>) -> (r: Vec<char>)
    ensures
        r@ == strip_cr(l@),
{
    let mut l = l;
    if l.len() > 0 && l[l.len() - 1] == '\r' {
        let _ = l.pop();
    }
    l
}

/// Split `s` into lines.
pub fn split_lines(s: &Vec<char>) -> (r: Vec<Vec<char>>)
    ensures
        seqs_of(r@) == lines_spec(s@),
{
    let n = s.len();
    let mut r: Vec<Vec<char>> = Vec::new();
    let mut cur: usize = 0;
    proof {
        assert(s@.skip(0) =~= s@);
        assert(seqs_of(r@) + lines_spec(s@) =~= lines_spec(s@));
    }
    while cur < n
        invariant
            n == s@.len(),
            0 <= cur <= n,
            lines_spec(s@) == seqs_of(r@) + lines_spec(s@.skip(cur as int)),
        decreases n - cur,
    {
        let ghost rest = s@.skip(cur as int);
        let ghost pre = seqs_of(r@);
        match find_char_from(s, '\n', cur) {
            Some(nl) => {
                proof {
                    lemma_first_index_found(rest, '\n', nl - cur);
                    assert(rest.take(nl - cur) =~= s@.subrange(cur as int, nl as int));
                    assert(rest.skip(nl - cur + 1) =~= s@.skip(nl + 1));
                }
                let piece = slice_range(s, cur, nl);
                let piece = strip_cr_exec(piece);
                let ghost pv = piece@;
                r.push(piece);
                proof {
                    assert(seqs_of(r@) =~= pre.push(pv));
                    assert(pre + (seq![strip_cr(rest.take(nl - cur))] + lines_spec(
                        s@.skip(nl + 1),
                    )) =~= pre.push(pv) + lines_spec(s@.skip(nl + 1)));
                }
                cur = nl + 1;
            },
            None => {
                proof {
                    lemma_first_index_missing(rest, '\n');
                    assert(rest =~= s@.subrange(cur as int, n as int));
                }
                let piece = slice_range(s, cur, n);
                let piece = strip_cr_exec(piece);
                let ghost pv = piece@;
                r.push(piece);
                proof {
                    assert(seqs_of(r@) =~= pre.push(pv));
                    assert(pre + seq![strip_cr(rest)] =~= pre.push(pv));
                }
                cur = n;
            },
        }
    }
    assert(lines_spec(s@.skip(n as int)) =~= Seq::<Seq<char>>::empty());
    assert(seqs_of(r@) + Seq::<Seq<char>>::empty() =~= seqs_of(r@));
    r
}

/// The pieces of `s` between occurrences of `c`: empty pieces are kept, and
/// a sole empty piece results from an empty text.
pub open spec fn split_char_spec(s: Seq<char>, c: char) -> Seq<Seq<char>>
    decreases s.len(),
{
    let i = first_index_of(s, c);
    if 0 <= i < s.len() {
        seq![s.take(i)] + split_char_spec(s.skip(i + 1), c)
    } else {
        seq![s]
    }
}

/// Split `s` at every occurrence of `c`.
pub fn split_char(s: &Vec<char>, c: char) -> (r: Vec<Vec<char>>)
    ensures
        seqs_of(r@) == split_char_spec(s@, c),
{
    let n = s.len();
    let mut r: Vec<Vec<char>> = Vec::new();
    let mut cur: usize = 0;
    proof {
        assert(s@.skip(0) =~= s@);
        assert(seqs_of(r@) + split_char_spec(s@, c) =~= split_char_spec(s@, c));
    }
    loop
        invariant
            n == s@.len(),
            0 <= cur <= n,
            split_char_spec(s@, c) == seqs_of(r@) + split_char_spec(s@.skip(cur as int), c),
        ensures
            seqs_of(r@) == split_char_spec(s@, c),
        decreases n - cur,
    {
        let ghost rest = s@.skip(cur as int);
        let ghost pre = seqs_of(r@);
        match find_char_from(s, c, cur) {
            Some(p) => {
                proof {
                    lemma_first_index_found(rest, c, p - cur);
                    assert(rest.take(p - cur) =~= s@.subrange(cur as int, p as int));
                    assert(rest.skip(p - cur + 1) =~= s@.skip(p + 1));
                }
                let piece = slice_range(s, cur, p);
                let ghost pv = piece@;
                r.push(piece);
                proof {
                    assert(seqs_of(r@) =~= pre.push(pv));
                    assert(pre + (seq![pv] + split_char_spec(s@.skip(p + 1), c)) =~= pre.push(pv)
                        + split_char_spec(s@.skip(p + 1), c));
                }
                cur = p + 1;
            },
            None => {
                proof {
                    lemma_first_index_missing(rest, c);
                    assert(rest =~= s@.subrange(cur as int, n as int));
                }
                let piece = slice_range(s, cur, n);
                let ghost pv = piece@;
                r.push(piece);
                proof {
                    assert(split_char_spec(rest, c) == seq![rest]);
                    assert(seqs_of(r@) =~= pre.push(pv));
                    assert(pre + seq![rest] =~= pre.push(pv));
                }
                return r;
            },
        }
    }
}

/// The pieces joined with `sep` between consecutive pieces.
pub open spec fn join_spec(parts: Seq<Seq<char>>, sep: Seq<char>) -> Seq<char>
    decreases parts.len(),
{
    if parts.len() == 0 {
        Seq::empty()
    } else if parts.len() == 1 {
        parts[0]
    } else {
        parts[0] + sep + join_spec(parts.drop_first(), sep)
    }
}

/// Join the pieces with `sep`.
pub fn join_with(parts: &Vec<Vec<char>>, sep: &Vec<char>) -> (r: Vec<char>)
    ensures
        r@ == join_spec(seqs_of(parts@), sep@),
{
    let mut r: Vec<char> = Vec::new();
    let n = parts.len();
    if n == 0 {
        return r;
    }
    let mut i: usize = 0;
    proof {
        assert(seqs_of(parts@).skip(0) =~= seqs_of(parts@));
        assert(r@ + join_spec(seqs_of(parts@), sep@) =~= join_spec(seqs_of(parts@), sep@));
    }
    while i < n
        invariant
            n == parts@.len(),
            0 < n,
            0 <= i <= n,
            join_spec(seqs_of(parts@), sep@) == r@ + (if i > 0 && i < n {
                sep@ + join_spec(seqs_of(parts@).skip(i as int), sep@)
            } else {
                join_spec(seqs_of(parts@).skip(i as int), sep@)
            }),
        decreases n - i,
    {
        proof {
            lemma_join_unfold(seqs_of(parts@), sep@, i as int);
        }
        if i > 0 {
            push_all(&mut r, sep);
        }
        let piece = &parts[i];
        assert(piece@ == seqs_of(parts@)[i as int]);
        push_all(&mut r, piece);
        i += 1;
    }
    assert(join_spec(seqs_of(parts@).skip(n as int), sep@) =~= Seq::<char>::empty());
    assert(r@ + Seq::<char>::empty() =~= r@);
    r
}

proof fn lemma_join_unfold(parts: Seq<Seq<char>>, sep: Seq<char>, i: int)
    requires
        0 <= i < parts.len(),
    ensures
        i + 1 == parts.len() ==> join_spec(parts.skip(i), sep) == parts[i],
        i + 1 < parts.len() ==> join_spec(parts.skip(i), sep) == parts[i] + sep + join_spec(
            parts.skip(i + 1),
            sep,
        ),
{
    let t = parts.skip(i);
    assert(t[0] == parts[i]);
    if i + 1 == parts.len() {
        assert(t.len() == 1);
    } else {
        assert(t.drop_first() =~= parts.skip(i + 1));
    }
}

/// The decimal digit character for `d`.
pub open spec fn digit_char(d: int) -> char {
    (((48 + d) as u8) as char)
}

/// The decimal digits of `n`, most significant first.
pub open spec fn dec_spec(n: int) -> Seq<char>
    decreases n,
    when n >= 0
{
    if n < 10 {
        seq![digit_char(n)]
    } else {
        dec_spec(n / 10) + seq![digit_char(n % 10)]
    }
}

pub proof fn lemma_dec_len(n: int)
    requires
        n >= 0,
    ensures
        dec_spec(n).len() >= 1,
        n >= 10 ==> dec_spec(n).len() >= 2,
    decreases n,
{
    if n >= 10 {
        lemma_dec_len(n / 10);
    }
}

/// Distinct numbers have distinct decimal renderings.
pub proof fn lemma_dec_injective(a: int, b: int)
    requires
        0 <= a,
        0 <= b,
        a != b,
    ensures
        dec_spec(a) != dec_spec(b),
    decreases a + b,
{
    lemma_dec_len(a);
    lemma_dec_len(b);
    if a < 10 && b < 10 {
        assert(((48 + a) as u8) as char != ((48 + b) as u8) as char) by {
            assert((((48 + a) as u8) as char) as u32 == 48 + a);
            assert((((48 + b) as u8) as char) as u32 == 48 + b);
        }
        assert(dec_spec(a)[0] != dec_spec(b)[0]);
    } else if a < 10 || b < 10 {
        assert(dec_spec(a).len() != dec_spec(b).len());
    } else {
        if a % 10 != b % 10 {
            assert(((48 + a % 10) as u8) as char != ((48 + b % 10) as u8) as char) by {
                assert((((48 + a % 10) as u8) as char) as u32 == 48 + a % 10);
                assert((((48 + b % 10) as u8) as char) as u32 == 48 + b % 10);
            }
            assert(dec_spec(a).last() == digit_char(a % 10));
            assert(dec_spec(b).last() == digit_char(b % 10));
        } else {
            assert(a / 10 != b / 10) by (nonlinear_arith)
                requires
                    a >= 10,
                    b >= 10,
                    a != b,
                    a % 10 == b % 10,
            ;
            lemma_dec_injective(a / 10, b / 10);
            if dec_spec(a) == dec_spec(b) {
                let la = dec_spec(a).len();
                assert(dec_spec(a).take(la - 1) =~= dec_spec(a / 10));
                assert(dec_spec(b).take(la - 1) =~= dec_spec(b / 10));
            }
        }
    }
}

/// Format `n` in decimal.
pub fn format_u64(n: u64) -> (r: Vec<char>)
    ensures
        r@ == dec_spec(n as int),
{
    let mut digits: Vec<char> = Vec::new();
    let mut m: u64 = n;
    proof {
        assert(dec_spec(n as int) + Seq::<char>::empty() =~= dec_spec(n as int));
    }
    while m >= 10
        invariant
            dec_spec(n as int) == dec_spec(m as int) + digits@,
        decreases m,
    {
        let d = (m % 10) as u8;
        let ghost pre = digits@;
        digits.insert(0, (48 + d) as char);
        proof {
            assert(digits@ =~= seq![digit_char(m as int % 10)] + pre);
            assert(dec_spec(m as int) == dec_spec(m as int / 10) + seq![digit_char(m as int % 10)]);
            assert(dec_spec(m as int / 10) + (seq![digit_char(m as int % 10)] + pre) =~= dec_spec(
                m as int,
            ) + pre);
        }
        m = m / 10;
    }
    let mut r: Vec<char> = Vec::new();
    r.push((48 + (m as u8)) as char);
    push_all(&mut r, &digits);
    assert(dec_spec(m as int) == seq![digit_char(m as int)]);
    assert(r@ =~= dec_spec(m as int) + digits@);
    r
}

/// An ASCII decimal digit.
pub open spec fn is_digit(c: char) -> bool {
    '0' <= c && c <= '9'
}

/// The value of a digit string, most significant first.
pub open spec fn digits_val(d: Seq<char>) -> int
    decreases d.len(),
{
    if d.len() == 0 {
        0
    } else {
        digits_val(d.drop_last()) * 10 + ((d[d.len() - 1] as u32) - 48)
    }
}

proof fn lemma_digits_nonneg(d: Seq<char>)
    requires
        forall|i: int| 0 <= i < d.len() ==> is_digit(#[trigger] d[i]),
    ensures
        digits_val(d) >= 0,
    decreases d.len(),
{
    if d.len() > 0 {
        lemma_digits_nonneg(d.drop_last());
    }
}

proof fn lemma_digits_mono(d: Seq<char>, i: int)
    requires
        forall|t: int| 0 <= t < d.len() ==> is_digit(#[trigger] d[t]),
        0 <= i <= d.len(),
    ensures
        digits_val(d) >= digits_val(d.take(i)),
    decreases d.len() - i,
{
    if i < d.len() {
        lemma_digits_mono(d, i + 1);
        assert(d.take(i + 1).drop_last() =~= d.take(i));
        assert(d.take(i + 1)[i] == d[i]);
        lemma_digits_nonneg(d.take(i));
    } else {
        assert(d.take(i) =~= d);
    }
}

/// The value of a digit string, when it is one and fits an unsigned 64-bit
/// value.
pub open spec fn digits_opt(d: Seq<char>) -> Option<u64> {
    if d.len() > 0 && (forall|i: int| 0 <= i < d.len() ==> is_digit(#[trigger] d[i]))
        && digits_val(d) <= u64::MAX {
        Some(digits_val(d) as u64)
    } else {
        None
    }
}

/// The value of a decimal digit string with an optional leading `+`, when it
/// is one and fits an unsigned 64-bit value.
pub open spec fn parse_u64_spec(s: Seq<char>) -> Option<u64> {
    if s.len() > 0 && s[0] == '+' {
        digits_opt(s.drop_first())
    } else {
        digits_opt(s)
    }
}

/// Parse an unsigned decimal number with an optional leading `+`.
#[verifier::loop_isolation(false)]
pub fn parse_u64(s: &Vec<char>) -> (r: Option<u64>)
    ensures
        r == parse_u64_spec(s@),
{
    let start: usize = if s.len() > 0 && s[0] == '+' {
        1
    } else {
        0
    };
    let ghost d = if s@.len() > 0 && s@[0] == '+' {
        s@.drop_first()
    } else {
        s@
    };
    proof {
        assert(d =~= s@.skip(start as int));
        assert(parse_u64_spec(s@) == digits_opt(d));
    }
    let n = s.len();
    if start == n {
        assert(d.len() == 0);
        return None;
    }
    let mut acc: u64 = 0;
    let mut i: usize = start;
    while i < n
        invariant
            start <= i <= n,
            n == s@.len(),
            start < n,
            d == s@.skip(start as int),
            forall|t: int| 0 <= t < i - start ==> is_digit(#[trigger] d[t]),
            acc == digits_val(d.take(i - start as int)),
        decreases n - i,
    {
        let c = s[i];
        if !('0' <= c && c <= '9') {
            proof {
                assert(0 <= i - start < d.len());
                assert(d[i - start as int] == c);
                assert(!(forall|t: int| 0 <= t < d.len() ==> is_digit(#[trigger] d[t]))) by {
                    assert(0 <= i - start < d.len() && !is_digit(d[i - start as int]));
                }
                assert(digits_opt(d) is None);
            }
            return None;
        }
        let dv = (c as u32 - 48) as u64;
        proof {
            assert(d.take(i - start + 1).drop_last() =~= d.take(i - start as int));
            assert(d.take(i - start + 1)[i - start as int] == d[i - start as int]);
        }
        if acc > (u64::MAX - dv) / 10 {
            proof {
                assert(digits_val(d.take(i - start + 1)) > u64::MAX);
                if forall|t: int| 0 <= t < d.len() ==> is_digit(#[trigger] d[t]) {
                    lemma_digits_mono(d, i - start + 1);
                    assert(digits_val(d) > u64::MAX);
                }
                assert(digits_opt(d) is None);
            }
            return None;
        }
        acc = acc * 10 + dv;
        i += 1;
    }
    proof {
        assert(d.take(n - start as int) =~= d);
    }
    Some(acc)
}

/// Whether the two character vectors hold the same text.
pub fn chars_eq(a: &Vec<char>, b: &Vec<char>) -> (r: bool)
    ensures
        r == (a@ == b@),
{
    if a.len() != b.len() {
        return false;
    }
    if eq_at(a, 0, b) {
        assert(a@.subrange(0, b@.len() as int) =~= a@);
        true
    } else {
        assert(a@.subrange(0, b@.len() as int) =~= a@);
        false
    }
}

} // verus!
