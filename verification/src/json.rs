//! Reading model responses as JSON.
//!
//! The model-facing paths receive free-form text that should hold a JSON
//! document. Parsing and value inspection are delegated to serde_json behind
//! trusted declarations whose results carry names (`json_of`, `member_of`,
//! `text_of`, `elements_of`, `null_of`); the walks that turn a reply into
//! plain values are verified, and their contracts fix the result exactly in
//! terms of those names.

use vstd::prelude::*;

verus! {

#[verifier::external_type_specification]
#[verifier::external_body]
pub struct ExValue(serde_json::Value);

/// The JSON document a text parses to, when it is one. serde_json's parse is
/// a function of the text alone.
pub uninterp spec fn json_of(s: Seq<char>) -> Option<serde_json::Value>;

/// The member a JSON value holds under a key, when it is an object with that
/// member.
pub uninterp spec fn member_of(v: serde_json::Value, key: Seq<char>) -> Option<serde_json::Value>;

/// The payload of a JSON string value, when the value is one.
pub uninterp spec fn text_of(v: serde_json::Value) -> Option<Seq<char>>;

/// The elements of a JSON array value, when the value is one.
pub uninterp spec fn elements_of(v: serde_json::Value) -> Option<Seq<serde_json::Value>>;

/// Whether a JSON value is null.
pub uninterp spec fn null_of(v: serde_json::Value) -> bool;

/// Relies on serde_json::from_str for serde_json::Value: parses any JSON
/// document, `None` when the text is not valid JSON, deterministically in
/// the text.
#[verifier::external_body]
pub(crate) fn parse_json(s: &str) -> (r: Option<serde_json::Value>)
    ensures
        r == json_of(s@),
{
    serde_json::from_str(s).ok()
}

/// Relies on serde_json::Value::as_str: the payload when the value is a JSON
/// string, `None` otherwise.
pub assume_specification[ serde_json::Value::as_str ](v: &serde_json::Value) -> (r: Option<&str>)
    ensures
        match r {
            Some(s) => text_of(*v) == Some(s@),
            None => text_of(*v) is None,
        },
;

/// Relies on serde_json::Value::as_array: the elements when the value is a
/// JSON array, `None` otherwise.
pub assume_specification[ serde_json::Value::as_array ](v: &serde_json::Value) -> (r: Option<
    &Vec<serde_json::Value>,
>)
    ensures
        match r {
            Some(a) => elements_of(*v) == Some(a@),
            None => elements_of(*v) is None,
        },
;

/// Relies on serde_json::Value::is_null: whether the value is JSON null.
pub assume_specification[ serde_json::Value::is_null ](v: &serde_json::Value) -> (r: bool)
    ensures
        r == null_of(*v),
;

/// Relies on serde_json::Value::get: member lookup by key; `None` when the
/// value is not an object or has no such member.
#[verifier::external_body]
pub(crate) fn get_member<'a>(v: &'a serde_json::Value, key: &str) -> (r: Option<
    &'a serde_json::Value,
>)
    ensures
        match r {
            Some(m) => member_of(*v, key@) == Some(*m),
            None => member_of(*v, key@) is None,
        },
{
    v.get(key)
}

/// The fields of a structured consolidation decision.
pub struct DecisionFields {
    pub operation: String,
    pub memory_id: Option<String>,
    pub content: Option<String>,
    pub reason: Option<String>,
}

/// The mathematical image of parsed decision fields.
pub ghost struct DecisionFieldsView {
    pub operation: Seq<char>,
    pub memory_id: Option<Seq<char>>,
    pub content: Option<Seq<char>>,
    pub reason: Option<Seq<char>>,
}

pub open spec fn decision_view(f: DecisionFields) -> DecisionFieldsView {
    DecisionFieldsView {
        operation: f.operation@,
        memory_id: crate::consolidator::opt_view(f.memory_id),
        content: crate::consolidator::opt_view(f.content),
        reason: crate::consolidator::opt_view(f.reason),
    }
}

/// How an optional string member reads: absent or null as nothing, a string
/// as its payload, any other shape as an error.
pub open spec fn opt_text_member(v: serde_json::Value, key: Seq<char>) -> Result<
    Option<Seq<char>>,
    (),
> {
    match member_of(v, key) {
        None => Ok(None),
        Some(m) => if null_of(m) {
            Ok(None)
        } else {
            match text_of(m) {
                Some(s) => Ok(Some(s)),
                None => Err(()),
            }
        },
    }
}

/// How a reply reads as a consolidation decision: a JSON object with a
/// string "operation" and optional string "memory_id", "content" and
/// "reason" members; anything else is no decision.
pub open spec fn decision_fields_spec(s: Seq<char>) -> Option<DecisionFieldsView> {
    match json_of(s) {
        None => None,
        Some(v) => match member_of(v, "operation"@) {
            None => None,
            Some(m) => match text_of(m) {
                None => None,
                Some(op) => match (
                    opt_text_member(v, "memory_id"@),
                    opt_text_member(v, "content"@),
                    opt_text_member(v, "reason"@),
                ) {
                    (Ok(mi), Ok(c), Ok(re)) => Some(
                        DecisionFieldsView { operation: op, memory_id: mi, content: c, reason: re },
                    ),
                    _ => None,
                },
            },
        },
    }
}

/// Read an optional string member: absent or null members are `Ok(None)`, a
/// string member is `Ok(Some(..))`, any other member shape is an error.
fn opt_str_member(v: &serde_json::Value, key: &str) -> (r: Result<Option<String>, ()>)
    ensures
        match r {
            Ok(Some(s)) => opt_text_member(*v, key@) == Ok::<Option<Seq<char>>, ()>(Some(s@)),
            Ok(None) => opt_text_member(*v, key@) == Ok::<Option<Seq<char>>, ()>(
                None::<Seq<char>>,
            ),
            Err(_) => opt_text_member(*v, key@) is Err,
        },
{
    match get_member(v, key) {
        None => Ok(None),
        Some(m) => {
            if m.is_null() {
                Ok(None)
            } else {
                match m.as_str() {
                    Some(s) => Ok(Some(s.to_owned())),
                    None => Err(()),
                }
            }
        },
    }
}

/// Read the fields of a consolidation decision from a model reply. `None`
/// exactly when the reply is not a JSON object of the expected shape.
pub fn decision_fields(text: &str) -> (r: Option<DecisionFields>)
    ensures
        match r {
            Some(f) => decision_fields_spec(text@) == Some(decision_view(f)),
            None => decision_fields_spec(text@) is None,
        },
{
    let v = match parse_json(text) {
        Some(v) => v,
        None => {
            return None;
        },
    };
    let operation = match get_member(&v, "operation") {
        Some(m) => match m.as_str() {
            Some(s) => s.to_owned(),
            None => {
                return None;
            },
        },
        None => {
            return None;
        },
    };
    let memory_id = match opt_str_member(&v, "memory_id") {
        Ok(x) => x,
        Err(_) => {
            return None;
        },
    };
    let content = match opt_str_member(&v, "content") {
        Ok(x) => x,
        Err(_) => {
            return None;
        },
    };
    let reason = match opt_str_member(&v, "reason") {
        Ok(x) => x,
        Err(_) => {
            return None;
        },
    };
    Some(DecisionFields { operation, memory_id, content, reason })
}

/// How one array element reads as a fact entry: a "fact" string member,
/// with an "importance" string member defaulting to "medium" when absent.
pub open spec fn entry_of(e: serde_json::Value) -> Option<(Seq<char>, Seq<char>)> {
    match member_of(e, "fact"@) {
        None => None,
        Some(m) => match text_of(m) {
            None => None,
            Some(f) => match member_of(e, "importance"@) {
                None => Some((f, "medium"@)),
                Some(m2) => match text_of(m2) {
                    None => None,
                    Some(im) => Some((f, im)),
                },
            },
        },
    }
}

/// The entries of the array elements from index `i` on; nothing when any
/// element is malformed.
pub open spec fn entries_from(es: Seq<serde_json::Value>, i: int) -> Option<
    Seq<(Seq<char>, Seq<char>)>,
>
    decreases es.len() - i,
    when 0 <= i <= es.len()
{
    if i >= es.len() {
        Some(Seq::empty())
    } else {
        match entry_of(es[i]) {
            None => None,
            Some(e) => match entries_from(es, i + 1) {
                None => None,
                Some(rest) => Some(seq![e] + rest),
            },
        }
    }
}

/// How a reply reads as a fact list: a JSON array of fact entries.
pub open spec fn fact_entries_spec(s: Seq<char>) -> Option<Seq<(Seq<char>, Seq<char>)>> {
    match json_of(s) {
        None => None,
        Some(v) => match elements_of(v) {
            None => None,
            Some(es) => entries_from(es, 0),
        },
    }
}

proof fn lemma_entries_fail(es: Seq<serde_json::Value>, k: int, j: int)
    requires
        0 <= k <= j < es.len(),
        entry_of(es[j]) is None,
    ensures
        entries_from(es, k) is None,
    decreases j - k,
{
    if k < j {
        lemma_entries_fail(es, k + 1, j);
    }
}

proof fn lemma_entries_all(
    es: Seq<serde_json::Value>,
    pairs: Seq<(Seq<char>, Seq<char>)>,
    k: int,
)
    requires
        pairs.len() == es.len(),
        0 <= k <= es.len(),
        forall|t: int| k <= t < es.len() ==> entry_of(#[trigger] es[t]) == Some(pairs[t]),
    ensures
        entries_from(es, k) == Some(pairs.skip(k)),
    decreases es.len() - k,
{
    if k == es.len() {
        assert(pairs.skip(k) =~= Seq::<(Seq<char>, Seq<char>)>::empty());
    } else {
        lemma_entries_all(es, pairs, k + 1);
        assert(seq![pairs[k]] + pairs.skip(k + 1) =~= pairs.skip(k));
    }
}

/// Read a model reply as a list of `{fact, importance}` objects; a missing
/// importance label reads as "medium". `None` exactly when the reply is not
/// an array of that shape.
#[verifier::loop_isolation(false)]
pub fn fact_entries(text: &str) -> (r: Option<Vec<(String, String)>>)
    ensures
        match r {
            Some(list) => fact_entries_spec(text@) == Some(
                crate::extractor::entry_views(list@),
            ),
            None => fact_entries_spec(text@) is None,
        },
{
    let v = match parse_json(text) {
        Some(v) => v,
        None => {
            return None;
        },
    };
    let arr = match v.as_array() {
        Some(a) => a,
        None => {
            return None;
        },
    };
    let ghost es = arr@;
    let mut out: Vec<(String, String)> = Vec::new();
    let mut i: usize = 0;
    while i < arr.len()
        invariant
            0 <= i <= es.len(),
            out@.len() == i,
            forall|t: int|
                0 <= t < i ==> entry_of(#[trigger] es[t]) == Some(
                    crate::extractor::entry_views(out@)[t],
                ),
        decreases arr.len() - i,
    {
        let e = &arr[i];
        let fact = match get_member(e, "fact") {
            Some(m) => match m.as_str() {
                Some(s) => s.to_owned(),
                None => {
                    proof {
                        lemma_entries_fail(es, 0, i as int);
                    }
                    return None;
                },
            },
            None => {
                proof {
                    lemma_entries_fail(es, 0, i as int);
                }
                return None;
            },
        };
        let importance = match get_member(e, "importance") {
            None => String::from_str("medium"),
            Some(m) => match m.as_str() {
                Some(s) => s.to_owned(),
                None => {
                    proof {
                        lemma_entries_fail(es, 0, i as int);
                    }
                    return None;
                },
            },
        };
        let ghost pre = out@;
        let ghost fv = fact@;
        let ghost iv = importance@;
        out.push((fact, importance));
        proof {
            assert(entry_of(es[i as int]) == Some((fv, iv)));
            assert(crate::extractor::entry_views(out@) =~= crate::extractor::entry_views(
                pre,
            ).push((fv, iv)));
            assert(forall|t: int|
                0 <= t < pre.len() ==> crate::extractor::entry_views(out@)[t]
                    == crate::extractor::entry_views(pre)[t]);
        }
        i += 1;
    }
    proof {
        lemma_entries_all(es, crate::extractor::entry_views(out@), 0);
        assert(crate::extractor::entry_views(out@).skip(0) =~= crate::extractor::entry_views(
            out@,
        ));
    }
    Some(out)
}

} // verus!
