use femtobot::agent::{
    append_text_history, classify_failure, compose_prompt_context, session_key,
    should_retry_same_route, should_run_extraction,
};
use femtobot::chat::ChatMessage;
use femtobot::scheduler::{
    compute_next_run, fire_job, is_due, job_message, parse_schedule, status_of, CronJob,
    CronPayload, CronSchedule, CronState, CronStore, ScheduleSpec,
};
use femtobot::text::{format_u64, parse_u64};
use femtobot::tools::{
    parse_bool_input, parse_cron_args, validate_send, CronAction, CronArgs, SendMessageArgs,
};

#[test]
fn failure_classes_follow_the_keyword_table() {
    assert_eq!(classify_failure("HTTP 429 Too Many Requests"), "rate_limit");
    assert_eq!(classify_failure("Request TIMED OUT after 30s"), "timeout");
    assert_eq!(classify_failure("connection reset by peer"), "upstream");
    assert_eq!(classify_failure("503 Service Unavailable"), "upstream");
    assert_eq!(classify_failure("401 Unauthorized"), "auth");
    assert_eq!(classify_failure("invalid model name"), "request");
    assert_eq!(classify_failure("the dog ate the packet"), "unknown");
}

#[test]
fn only_transient_classes_are_retried_below_the_cap() {
    assert!(should_retry_same_route("rate_limit", 0));
    assert!(should_retry_same_route("timeout", 1));
    assert!(should_retry_same_route("upstream", 1));
    assert!(!should_retry_same_route("timeout", 2));
    assert!(!should_retry_same_route("auth", 0));
    assert!(!should_retry_same_route("unknown", 0));
}

#[test]
fn prompt_context_includes_notes_only_when_present() {
    let with_notes = compose_prompt_context("telegram", "42", "u9", "## Long-term Memory\nx", "hi");
    assert_eq!(
        with_notes,
        "[Conversation context]\nchannel: telegram\nchat_id: 42\nsender_id: u9\n\n[Notes from memory]\n## Long-term Memory\nx\n\n[User message]\nhi"
    );
    let without = compose_prompt_context("telegram", "42", "u9", "", "hi");
    assert_eq!(
        without,
        "[Conversation context]\nchannel: telegram\nchat_id: 42\nsender_id: u9\n\n[User message]\nhi"
    );
}

#[test]
fn history_appends_skip_blank_sides() {
    let mut history: Vec<ChatMessage> = Vec::new();
    append_text_history(&mut history, "hello", "world");
    assert_eq!(history.len(), 2);
    assert_eq!(history[0].role, "user");
    assert_eq!(history[0].content, "hello");
    assert_eq!(history[1].role, "assistant");
    append_text_history(&mut history, "   ", "reply");
    assert_eq!(history.len(), 3);
    assert_eq!(history[2].role, "assistant");
    append_text_history(&mut history, "question", "\n");
    assert_eq!(history.len(), 4);
    assert_eq!(history[3].role, "user");
}

#[test]
fn extraction_runs_every_nth_user_turn() {
    assert!(!should_run_extraction(0, 3));
    assert!(!should_run_extraction(2, 3));
    assert!(should_run_extraction(3, 3));
    assert!(should_run_extraction(6, 3));
    assert_eq!(session_key("telegram", "42"), "telegram:42");
}

fn job(kind: &str, every_ms: Option<i64>, at_ms: Option<i64>, next: Option<i64>) -> CronJob {
    CronJob {
        id: String::from("j1"),
        name: String::from("test job"),
        enabled: true,
        schedule: CronSchedule {
            kind: String::from(kind),
            at_ms,
            every_ms,
            expr: None,
            tz: None,
        },
        payload: CronPayload {
            kind: String::from("agent_turn"),
            message: String::from("check the mail"),
            deliver: false,
            channel: Some(String::from("telegram")),
            to: None,
            model: None,
        },
        state: CronState { next_run_at_ms: next, ..CronState::default() },
        created_at_ms: 0,
        updated_at_ms: 0,
        delete_after_run: false,
    }
}

#[test]
fn next_run_follows_the_schedule_kind() {
    let at = CronSchedule {
        kind: String::from("at"),
        at_ms: Some(5_000),
        every_ms: None,
        expr: None,
        tz: None,
    };
    assert_eq!(compute_next_run(&at, 1_000), Some(5_000));
    assert_eq!(compute_next_run(&at, 5_000), None);

    let every = CronSchedule {
        kind: String::from("every"),
        at_ms: None,
        every_ms: Some(60_000),
        expr: None,
        tz: None,
    };
    assert_eq!(compute_next_run(&every, 1_000), Some(61_000));

    let cron_expr = CronSchedule {
        kind: String::from("cron"),
        at_ms: None,
        every_ms: None,
        expr: Some(String::from("0 * * * * *")),
        tz: None,
    };
    let next = compute_next_run(&cron_expr, 1_000).expect("every minute has a next run");
    assert!(next > 1_000);
    assert_eq!(next % 60_000, 0);

    let bogus = CronSchedule {
        kind: String::from("sometimes"),
        at_ms: Some(1),
        every_ms: Some(1),
        expr: None,
        tz: None,
    };
    assert_eq!(compute_next_run(&bogus, 1_000), None);
}

#[test]
fn firing_updates_state_and_reschedules() {
    let j = job("every", Some(1_000), None, Some(4_000));
    assert!(is_due(&j, 5_000));
    assert!(!is_due(&j, 3_999));
    let m = job_message(&j);
    assert_eq!(m.channel, "telegram");
    assert_eq!(m.chat_id, "direct");
    assert_eq!(m.sender_id, "cron");
    assert_eq!(m.content, "check the mail");

    let fired = fire_job(j, 5_000);
    assert!(fired.enabled);
    assert_eq!(fired.state.next_run_at_ms, Some(6_000));
    assert_eq!(fired.state.last_run_at_ms, Some(5_000));
    assert_eq!(fired.state.last_status.as_deref(), Some("ok"));
    assert_eq!(fired.updated_at_ms, 5_000);

    let one_shot = job("at", None, Some(4_000), Some(4_000));
    let fired = fire_job(one_shot, 5_000);
    assert!(!fired.enabled);
    assert!(fired.state.next_run_at_ms.is_none());
}

#[test]
fn store_add_and_remove_round_trip() {
    let mut store = CronStore::new(String::from("/data"));
    assert_eq!(store.path.as_str(), "/data/cron.json");
    assert_eq!(store.jobs.len(), 0);
    store.add(job("every", Some(1_000), None, Some(1_000)));
    let mut other = job("every", Some(2_000), None, Some(2_000));
    other.id = String::from("j2");
    store.add(other);
    assert_eq!(store.jobs.len(), 2);
    assert!(store.remove("j1"));
    assert_eq!(store.jobs.len(), 1);
    assert_eq!(store.jobs[0].id, "j2");
    assert!(!store.remove("j1"));
}

#[test]
fn status_summarizes_jobs_and_next_wake() {
    let mut jobs = Vec::new();
    jobs.push(job("every", Some(1_000), None, Some(9_000)));
    let mut second = job("every", Some(1_000), None, Some(4_000));
    second.id = String::from("j2");
    jobs.push(second);
    let mut disabled = job("every", Some(1_000), None, Some(1_000));
    disabled.id = String::from("j3");
    disabled.enabled = false;
    jobs.push(disabled);
    let status = status_of(&jobs);
    assert_eq!(status.jobs, 3);
    assert_eq!(status.enabled_jobs, 2);
    // The disabled job's earlier wake is ignored.
    assert_eq!(status.next_wake_at_ms, Some(4_000));
}

#[test]
fn schedule_arguments_parse_by_shape() {
    match parse_schedule(String::from("14400")) {
        Ok(ScheduleSpec::Every { every_ms }) => assert_eq!(every_ms, 14_400_000),
        _ => panic!("a number is an interval in seconds"),
    }
    match parse_schedule(String::from("@hourly")) {
        Ok(ScheduleSpec::Cron { expr }) => assert_eq!(expr, "@hourly"),
        _ => panic!("@-style schedules are cron expressions"),
    }
    match parse_schedule(String::from("0 9 * * *")) {
        Ok(ScheduleSpec::Cron { expr }) => assert_eq!(expr, "0 9 * * *"),
        _ => panic!("star fields mark cron expressions"),
    }
    assert!(parse_schedule(String::from("soonish")).is_err());
}

#[test]
fn send_arguments_are_trimmed_and_required() {
    let ok = validate_send(&SendMessageArgs {
        channel: String::from("  telegram "),
        chat_id: String::from("42"),
        content: String::from(" hi there "),
    })
    .expect("all fields present");
    assert_eq!(ok.channel, "telegram");
    assert_eq!(ok.chat_id, "42");
    assert_eq!(ok.content, "hi there");

    let err = validate_send(&SendMessageArgs {
        channel: String::from("  "),
        chat_id: String::from("42"),
        content: String::from("hi"),
    })
    .expect_err("blank channel");
    assert_eq!(err.message().as_str(), "Missing required field: channel");
}

#[test]
fn cron_tool_arguments_validate_by_action() {
    let add = parse_cron_args(CronArgs {
        action: String::from("add"),
        name: Some(String::from("water plants")),
        message: Some(String::from("water the plants")),
        schedule: Some(String::from("86400")),
        channel: None,
        to: None,
        id: None,
    });
    assert!(matches!(add, Ok(CronAction::Add { .. })));

    let missing = parse_cron_args(CronArgs {
        action: String::from("add"),
        name: None,
        message: Some(String::from("x")),
        schedule: Some(String::from("60")),
        channel: None,
        to: None,
        id: None,
    });
    assert!(missing.is_err());

    assert!(matches!(
        parse_cron_args(CronArgs {
            action: String::from("list"),
            name: None,
            message: None,
            schedule: None,
            channel: None,
            to: None,
            id: None,
        }),
        Ok(CronAction::List)
    ));
    assert!(matches!(
        parse_cron_args(CronArgs {
            action: String::from("remove"),
            name: None,
            message: None,
            schedule: None,
            channel: None,
            to: None,
            id: Some(String::from("j9")),
        }),
        Ok(CronAction::Remove { .. })
    ));
    assert!(parse_cron_args(CronArgs {
        action: String::from("explode"),
        name: None,
        message: None,
        schedule: None,
        channel: None,
        to: None,
        id: None,
    })
    .is_err());
}

#[test]
fn yes_no_answers_parse_case_insensitively() {
    assert_eq!(parse_bool_input(" Yes "), Some(true));
    assert_eq!(parse_bool_input("TRUE"), Some(true));
    assert_eq!(parse_bool_input("1"), Some(true));
    assert_eq!(parse_bool_input("n"), Some(false));
    assert_eq!(parse_bool_input("No"), Some(false));
    assert_eq!(parse_bool_input("0"), Some(false));
    assert_eq!(parse_bool_input("maybe"), None);
    assert_eq!(parse_bool_input(""), None);
}

#[test]
fn numbers_format_and_parse_exactly() {
    let render = |n: u64| format_u64(n).iter().collect::<String>();
    let digits = |s: &str| parse_u64(&s.chars().collect());
    assert_eq!(render(0), "0");
    assert_eq!(render(90125), "90125");
    assert_eq!(digits("42"), Some(42));
    assert_eq!(digits("+42"), Some(42));
    assert_eq!(digits(""), None);
    assert_eq!(digits("4x2"), None);
    assert_eq!(digits("18446744073709551615"), Some(u64::MAX));
    assert_eq!(digits("18446744073709551616"), None);
}
