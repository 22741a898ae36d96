//! Scheduled jobs: the persisted job records, the in-memory store they load
//! into, and the schedule arithmetic that decides when a job runs next.
//! Loading, saving and the waiting loop live outside; every decision here is
//! a function of plain values.

use vstd::prelude::*;

use crate::chat::InboundMessage;
use crate::text::chars_of;
use crate::text::contains_sub;
use crate::text::has_sub;
use crate::text::occurs_at;
use crate::text::push_all;
use crate::text::starts_with_sub;
use crate::text::str_eq;
use crate::text::string_from;

verus! {

/// When a job fires: at one instant, every fixed interval, or per a cron
/// expression.
pub struct CronSchedule {
    /// One of "at", "every", "cron".
    pub kind: String,
    pub at_ms: Option<i64>,
    pub every_ms: Option<i64>,
    pub expr: Option<String>,
    pub tz: Option<String>,
}

/// What a firing job injects into the assistant.
pub struct CronPayload {
    /// Currently always "agent_turn".
    pub kind: String,
    pub message: String,
    pub deliver: bool,
    pub channel: Option<String>,
    pub to: Option<String>,
    pub model: Option<String>,
}

/// Mutable run-state of a job.
pub struct CronState {
    pub next_run_at_ms: Option<i64>,
    pub last_run_at_ms: Option<i64>,
    pub last_status: Option<String>,
    pub last_error: Option<String>,
}

impl Default for CronState {
    fn default() -> (r: CronState)
        ensures
            r.next_run_at_ms is None,
            r.last_run_at_ms is None,
            r.last_status is None,
            r.last_error is None,
    {
        CronState { next_run_at_ms: None, last_run_at_ms: None, last_status: None, last_error: None }
    }
}

/// One scheduled job.
pub struct CronJob {
    pub id: String,
    pub name: String,
    pub enabled: bool,
    pub schedule: CronSchedule,
    pub payload: CronPayload,
    pub state: CronState,
    pub created_at_ms: i64,
    pub updated_at_ms: i64,
    pub delete_after_run: bool,
}

/// The persisted shape of the job list.
pub struct CronStoreData {
    pub version: i32,
    pub jobs: Vec<CronJob>,
}

/// A scheduler summary.
pub struct CronStatus {
    pub jobs: usize,
    pub enabled_jobs: usize,
    pub next_wake_at_ms: Option<i64>,
}

/// The jobs of `jobs` whose id differs from `id`, in order.
pub open spec fn keep_jobs(jobs: Seq<CronJob>, id: Seq<char>) -> Seq<CronJob>
    decreases jobs.len(),
{
    if jobs.len() == 0 {
        Seq::empty()
    } else {
        (if jobs[0].id@ == id {
            Seq::empty()
        } else {
            seq![jobs[0]]
        }) + keep_jobs(jobs.drop_first(), id)
    }
}

/// The job list and the path it persists at; loading and saving are the
/// caller's (the file format is `CronStoreData` as JSON).
pub struct CronStore {
    /// Where the job list persists.
    pub path: String,
    pub jobs: Vec<CronJob>,
}

impl CronStore {
    /// An empty store persisting at `data_dir/cron.json`.
    pub fn new(data_dir: String) -> (r: CronStore)
        ensures
            r.path@ == data_dir@ + "/cron.json"@,
            r.jobs@ == Seq::<CronJob>::empty(),
    {
        let mut p = chars_of(data_dir.as_str());
        push_all(&mut p, &chars_of("/cron.json"));
        let r = CronStore { path: string_from(&p), jobs: Vec::new() };
        assert(r.jobs@ =~= Seq::<CronJob>::empty());
        r
    }

    /// Append a job.
    pub fn add(&mut self, job: CronJob)
        ensures
            final(self).jobs@ == old(self).jobs@.push(job),
            final(self).path == old(self).path,
    {
        self.jobs.push(job);
    }

    /// Remove every job with this id; returns whether any was removed.
    #[verifier::loop_isolation(false)]
    pub fn remove(&mut self, id: &str) -> (r: bool)
        ensures
            final(self).jobs@ == keep_jobs(old(self).jobs@, id@),
            final(self).path == old(self).path,
            r == (final(self).jobs@.len() < old(self).jobs@.len()),
    {
        let ghost orig = self.jobs@;
        let len_before = self.jobs.len();
        let mut i: usize = 0;
        let ghost mut k: int = 0;
        proof {
            assert(orig.skip(0) =~= orig);
            assert(keep_jobs(orig.take(0), id@) =~= Seq::<CronJob>::empty());
            assert(self.jobs@ =~= keep_jobs(orig.take(0), id@) + orig.skip(0));
        }
        while i < self.jobs.len()
            invariant
                self.path == old(self).path,
                0 <= k <= orig.len(),
                i == keep_jobs(orig.take(k), id@).len(),
                i <= self.jobs@.len(),
                self.jobs@ == keep_jobs(orig.take(k), id@) + orig.skip(k),
            decreases orig.len() - k,
        {
            proof {
                assert(k < orig.len());
                assert(orig.skip(k)[0] == orig[k]);
                assert(orig.skip(k) =~= seq![orig[k]] + orig.skip(k + 1));
                assert(self.jobs@[i as int] == orig[k]);
                lemma_keep_jobs_snoc(orig, k, id@);
            }
            if str_eq(self.jobs[i].id.as_str(), id) {
                let ghost pre = self.jobs@;
                let _ = self.jobs.remove(i);
                proof {
                    assert(self.jobs@ =~= pre.remove(i as int));
                    assert(self.jobs@ =~= keep_jobs(orig.take(k + 1), id@) + orig.skip(k + 1));
                    k = k + 1;
                }
            } else {
                i += 1;
                proof {
                    assert(self.jobs@ =~= keep_jobs(orig.take(k + 1), id@) + orig.skip(k + 1));
                    k = k + 1;
                }
            }
        }
        proof {
            assert(k == orig.len());
            assert(orig.take(k) =~= orig);
            assert(orig.skip(k) =~= Seq::<CronJob>::empty());
            assert(keep_jobs(orig, id@) + Seq::<CronJob>::empty() =~= keep_jobs(orig, id@));
        }
        self.jobs.len() < len_before
    }
}

/// `keep_jobs` over one more element of the prefix.
proof fn lemma_keep_jobs_snoc(jobs: Seq<CronJob>, k: int, id: Seq<char>)
    requires
        0 <= k < jobs.len(),
    ensures
        keep_jobs(jobs.take(k + 1), id) == keep_jobs(jobs.take(k), id) + (if jobs[k].id@ == id {
            Seq::<CronJob>::empty()
        } else {
            seq![jobs[k]]
        }),
    decreases k,
{
    if k == 0 {
        assert(jobs.take(1) =~= seq![jobs[0]]);
        assert(jobs.take(1).drop_first() =~= Seq::<CronJob>::empty());
        assert(jobs.take(0) =~= Seq::<CronJob>::empty());
        assert(keep_jobs(jobs.take(1), id) =~= keep_jobs(jobs.take(0), id) + (if jobs[0].id@
            == id {
            Seq::<CronJob>::empty()
        } else {
            seq![jobs[0]]
        }));
    } else {
        lemma_keep_jobs_snoc(jobs.drop_first(), k - 1, id);
        assert(jobs.take(k + 1).drop_first() =~= jobs.drop_first().take(k));
        assert(jobs.take(k).drop_first() =~= jobs.drop_first().take(k - 1));
        assert(jobs.drop_first()[k - 1] == jobs[k]);
        assert(jobs.take(k + 1)[0] == jobs[0]);
        assert(jobs.take(k)[0] == jobs[0]);
    }
}

/// Latest instant (in Unix milliseconds, far beyond year 10000) the schedule
/// arithmetic accepts; it keeps the instant within the range of the calendar
/// library behind `cron_next_after`.
pub const MAX_SCHEDULE_MS: i64 = 0x1_0000_0000_0000;

/// What the next run of a cron expression is, per the calendar arithmetic of
/// the cron expression language (UTC), from a given instant.
pub uninterp spec fn cron_next_of(expr: Seq<char>, now_ms: int) -> Option<int>;

/// Relies on cron::Schedule (from_str, after) and chrono's UTC date-time:
/// the next firing instant of a cron expression is a function of the
/// expression and the starting instant alone; `None` when the expression
/// does not parse or has no next occurrence. The search starts one second
/// past the given instant, so a found instant is strictly later. The instant
/// must be within the calendar range (chrono panics outside it).
#[verifier::external_body]
fn cron_next_after(expr: &str, now_ms: i64) -> (r: Option<i64>)
    requires
        0 <= now_ms < MAX_SCHEDULE_MS,
    ensures
        match r {
            Some(v) => cron_next_of(expr@, now_ms as int) == Some(v as int) && v > now_ms,
            None => cron_next_of(expr@, now_ms as int) is None,
        },
{
    let schedule = <cron::Schedule as core::str::FromStr>::from_str(expr).ok()?;
    let dt = chrono::DateTime::<chrono::Utc>::from(
        std::time::UNIX_EPOCH + std::time::Duration::from_millis(now_ms as u64),
    );
    schedule.after(&dt).next().map(|n| n.timestamp_millis())
}

/// When `schedule` next fires after `now_ms`: a future "at" instant once, an
/// "every" interval from now, or the next occurrence of a cron expression;
/// `None` when the schedule is exhausted or malformed.
pub fn compute_next_run(schedule: &CronSchedule, now_ms: i64) -> (r: Option<i64>)
    requires
        schedule.every_ms is Some ==> i64::MIN <= now_ms + schedule.every_ms->Some_0 <= i64::MAX,
        0 <= now_ms < MAX_SCHEDULE_MS,
    ensures
        schedule.kind@ == "at"@ ==> r == (if schedule.at_ms is Some && schedule.at_ms->Some_0
            > now_ms {
            Some(schedule.at_ms->Some_0)
        } else {
            None::<i64>
        }),
        schedule.kind@ == "every"@ ==> (match schedule.every_ms {
            Some(e) => r is Some && r->Some_0 == now_ms + e,
            None => r is None,
        }),
        schedule.kind@ == "cron"@ ==> (match schedule.expr {
            Some(_) => (match r {
                Some(v) => cron_next_of(schedule.expr->Some_0@, now_ms as int) == Some(v as int)
                    && v > now_ms,
                None => cron_next_of(schedule.expr->Some_0@, now_ms as int) is None,
            }),
            None => r is None,
        }),
        schedule.kind@ != "at"@ && schedule.kind@ != "every"@ && schedule.kind@ != "cron"@ ==> r
            is None,
{
    proof {
        broadcast use vstd::string::group_string_axioms;

        reveal_strlit("at");
        reveal_strlit("every");
        reveal_strlit("cron");
        assert("at"@.len() == 2);
        assert("every"@.len() == 5);
        assert("at"@ != "every"@);
        assert("at"@ != "cron"@);
        assert("every"@ != "cron"@);
    }
    if str_eq(schedule.kind.as_str(), "at") {
        match schedule.at_ms {
            Some(at) => if at > now_ms {
                Some(at)
            } else {
                None
            },
            None => None,
        }
    } else if str_eq(schedule.kind.as_str(), "every") {
        match schedule.every_ms {
            Some(e) => Some(now_ms + e),
            None => None,
        }
    } else if str_eq(schedule.kind.as_str(), "cron") {
        match &schedule.expr {
            Some(expr) => cron_next_after(expr.as_str(), now_ms),
            None => None,
        }
    } else {
        None
    }
}

/// A job is due: enabled, scheduled, and its next run is not in the future.
pub open spec fn job_due(j: CronJob, now_ms: int) -> bool {
    j.enabled && j.state.next_run_at_ms is Some && j.state.next_run_at_ms->Some_0 <= now_ms
}

/// Whether a job is due at `now_ms`.
pub fn is_due(j: &CronJob, now_ms: i64) -> (r: bool)
    ensures
        r == job_due(*j, now_ms as int),
{
    j.enabled && match j.state.next_run_at_ms {
        Some(next) => now_ms >= next,
        None => false,
    }
}

/// The turn a firing job injects: its payload routed to the configured
/// channel and target, sent by "cron".
pub fn job_message(j: &CronJob) -> (r: InboundMessage)
    ensures
        r.channel@ == (match j.payload.channel {
            Some(c) => c@,
            None => "cron"@,
        }),
        r.chat_id@ == (match j.payload.to {
            Some(t) => t@,
            None => "direct"@,
        }),
        r.sender_id@ == "cron"@,
        r.content@ == j.payload.message@,
{
    let channel = match &j.payload.channel {
        Some(c) => c.clone(),
        None => String::from_str("cron"),
    };
    let chat_id = match &j.payload.to {
        Some(t) => t.clone(),
        None => String::from_str("direct"),
    };
    InboundMessage {
        channel,
        chat_id,
        sender_id: String::from_str("cron"),
        content: j.payload.message.clone(),
    }
}

/// The state a job advances to when it fires at `now_ms`: the run is
/// recorded, a one-shot "at" job is disabled, a recurring job is
/// rescheduled.
pub fn fire_job(j: CronJob, now_ms: i64) -> (r: CronJob)
    requires
        j.schedule.every_ms is Some ==> i64::MIN <= now_ms + j.schedule.every_ms->Some_0
            <= i64::MAX,
        0 <= now_ms < MAX_SCHEDULE_MS,
    ensures
        r.id == j.id,
        r.name == j.name,
        r.schedule == j.schedule,
        r.payload == j.payload,
        r.created_at_ms == j.created_at_ms,
        r.delete_after_run == j.delete_after_run,
        r.updated_at_ms == now_ms,
        r.state.last_run_at_ms == Some(now_ms),
        r.state.last_status is Some && r.state.last_status->Some_0@ == "ok"@,
        r.state.last_error == j.state.last_error,
        j.schedule.kind@ == "at"@ ==> !r.enabled && r.state.next_run_at_ms is None,
        j.schedule.kind@ != "at"@ ==> r.enabled == j.enabled,
        j.schedule.kind@ == "every"@ ==> r.state.next_run_at_ms == (match j.schedule.every_ms {
            Some(e) => Some((now_ms + e) as i64),
            None => None::<i64>,
        }),
        j.schedule.kind@ == "cron"@ ==> (match j.schedule.expr {
            Some(_) => (match r.state.next_run_at_ms {
                Some(v) => cron_next_of(j.schedule.expr->Some_0@, now_ms as int) == Some(v as int)
                    && v > now_ms,
                None => cron_next_of(j.schedule.expr->Some_0@, now_ms as int) is None,
            }),
            None => r.state.next_run_at_ms is None,
        }),
        j.schedule.kind@ != "at"@ && j.schedule.kind@ != "every"@ && j.schedule.kind@ != "cron"@
            ==> r.state.next_run_at_ms is None,
{
    proof {
        broadcast use vstd::string::group_string_axioms;

        reveal_strlit("at");
        reveal_strlit("every");
        reveal_strlit("cron");
        assert("at"@.len() == 2);
        assert("every"@.len() == 5);
        assert("cron"@.len() == 4);
        assert("at"@ != "every"@);
        assert("at"@ != "cron"@);
        assert("every"@ != "cron"@);
    }
    let mut j = j;
    j.state.last_run_at_ms = Some(now_ms);
    j.state.last_status = Some(String::from_str("ok"));
    j.updated_at_ms = now_ms;
    if str_eq(j.schedule.kind.as_str(), "at") {
        j.enabled = false;
        j.state.next_run_at_ms = None;
    } else {
        j.state.next_run_at_ms = compute_next_run(&j.schedule, now_ms);
    }
    j
}

/// The earliest scheduled wake among enabled jobs from index `i` on.
pub open spec fn next_wake_spec(jobs: Seq<CronJob>, i: int) -> Option<int>
    decreases jobs.len() - i,
    when 0 <= i <= jobs.len()
{
    if i >= jobs.len() {
        None
    } else {
        let rest = next_wake_spec(jobs, i + 1);
        if jobs[i].enabled && jobs[i].state.next_run_at_ms is Some {
            let v = jobs[i].state.next_run_at_ms->Some_0 as int;
            match rest {
                Some(w) => if v <= w {
                    Some(v)
                } else {
                    Some(w)
                },
                None => Some(v),
            }
        } else {
            rest
        }
    }
}

/// Number of enabled jobs among the first `n`.
pub open spec fn enabled_count_spec(jobs: Seq<CronJob>, n: int) -> int
    decreases n,
    when n >= 0
{
    if n <= 0 {
        0
    } else {
        enabled_count_spec(jobs, n - 1) + if 0 <= n - 1 < jobs.len() && jobs[n - 1].enabled {
            1int
        } else {
            0int
        }
    }
}

/// Summarize a job list: totals and the earliest wake among enabled jobs.
#[verifier::loop_isolation(false)]
pub fn status_of(jobs: &Vec<CronJob>) -> (r: CronStatus)
    ensures
        r.jobs == jobs@.len(),
        r.enabled_jobs == enabled_count_spec(jobs@, jobs@.len() as int),
        match r.next_wake_at_ms {
            Some(v) => next_wake_spec(jobs@, 0) == Some(v as int),
            None => next_wake_spec(jobs@, 0) is None,
        },
{
    let n = jobs.len();
    let mut enabled: usize = 0;
    let mut i: usize = 0;
    while i < n
        invariant
            0 <= i <= n,
            enabled <= i,
            enabled == enabled_count_spec(jobs@, i as int),
        decreases n - i,
    {
        if jobs[i].enabled {
            enabled += 1;
        }
        i += 1;
    }
    let mut wake: Option<i64> = None;
    let mut t: usize = n;
    while t > 0
        invariant
            0 <= t <= n,
            match wake {
                Some(v) => next_wake_spec(jobs@, t as int) == Some(v as int),
                None => next_wake_spec(jobs@, t as int) is None,
            },
        decreases t,
    {
        t -= 1;
        let j = &jobs[t];
        if j.enabled {
            match j.state.next_run_at_ms {
                Some(v) => {
                    wake = match wake {
                        Some(w) => if v <= w {
                            Some(v)
                        } else {
                            Some(w)
                        },
                        None => Some(v),
                    };
                },
                None => {},
            }
        }
    }
    CronStatus { jobs: n, enabled_jobs: enabled, next_wake_at_ms: wake }
}

/// A parsed tool schedule: a cron expression or a fixed interval.
pub enum ScheduleSpec {
    Cron { expr: String },
    Every { every_ms: i64 },
}

/// Parse a schedule argument: a cron expression (starting with `@` or
/// holding `" *"`), or an interval in whole seconds.
pub fn parse_schedule(schedule: String) -> (r: Result<ScheduleSpec, ()>)
    ensures
        match r {
            Ok(ScheduleSpec::Cron { expr }) => expr@ == schedule@ && (occurs_at(schedule@, "@"@, 0)
                || has_sub(schedule@, " *"@)),
            Ok(ScheduleSpec::Every { every_ms }) => {
                &&& !(occurs_at(schedule@, "@"@, 0) || has_sub(schedule@, " *"@))
                &&& crate::text::parse_u64_spec(schedule@) is Some
                &&& every_ms == crate::text::parse_u64_spec(schedule@)->Some_0 * 1000
            },
            Err(_) => !(occurs_at(schedule@, "@"@, 0) || has_sub(schedule@, " *"@)) && (
            crate::text::parse_u64_spec(schedule@) is None || crate::text::parse_u64_spec(
                schedule@,
            )->Some_0 > 0x20c4_9ba5_e353_f7u64),
        },
{
    let sc = chars_of(schedule.as_str());
    if starts_with_sub(&sc, &chars_of("@")) || contains_sub(&sc, &chars_of(" *")) {
        return Ok(ScheduleSpec::Cron { expr: schedule });
    }
    match crate::text::parse_u64(&sc) {
        Some(secs) => {
            if secs > 0x20c4_9ba5_e353_f7u64 {
                // The interval in milliseconds must fit a signed 64-bit count.
                Err(())
            } else {
                Ok(ScheduleSpec::Every { every_ms: (secs as i64) * 1000 })
            }
        },
        None => Err(()),
    }
}

} // verus!
