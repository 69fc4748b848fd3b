use agent_core::scheduling::cron_store::MarkdownFile;
use agent_core::scheduling::cron_types::{RunRecord, RunStatus};
use agent_core::scheduling::job::{ContextPolicy, JobEntry, JobUpdate, WebhookDef, WebhookFilter};
use agent_core::scheduling::job_state::SchedulerError;
use agent_core::scheduling::scheduler::{
    bare_dir_name, choose_store, log_place, prepare_loaded, prune_action, recent_records,
    session_key, LogPlace, PruneAction, Scheduler,
};
use agent_core::scheduling::silence::is_silent_ok;
use agent_core::scheduling::webhook_loader::WebhookAuth;
use agent_core::time::{format_instant, parse_instant, Stamp, UtcInstant};

fn test_scheduler() -> Scheduler {
    Scheduler::new(
        Vec::new(),
        None,
        "test".to_string(),
        "UTC".to_string(),
        None,
        None,
        None,
    )
}

fn test_entry(schedule: &str) -> JobEntry {
    JobEntry {
        id: String::new(),
        schedule: Some(schedule.to_string()),
        webhook: None,
        prompt: "p".to_string(),
        target: "last".to_string(),
        name: Some("test-job".to_string()),
        tz: None,
        active_hours: None,
        enabled: true,
        last_run_at: None,
        next_run_at: None,
        created_at: None,
        delivery: None,
        last_runs: Vec::new(),
        enabled_tools: None,
        disabled_tools: None,
        schedule_kind: None,
        retry: None,
        failure_alert: None,
        consecutive_errors: 0,
        consecutive_skipped: 0,
        max_runs: None,
        completed_runs: 0,
        successful_runs: 0,
        delete_after_run: false,
        model: None,
        provider: None,
        last_failure_alert_at: None,
        context_policy: ContextPolicy::Inject,
    }
}

fn wh_entry(name: Option<&str>, secret: &str, schedule: Option<&str>) -> JobEntry {
    JobEntry {
        webhook: Some(WebhookDef {
            auth: "hmac".to_string(),
            secret: secret.to_string(),
            events: None,
            filters: None,
            payload_off: false,
        }),
        name: name.map(|s| s.to_string()),
        schedule: schedule.map(|s| s.to_string()),
        ..test_entry("0 0 9 * * *")
    }
}

fn with_id(id: &str, schedule: &str) -> JobEntry {
    JobEntry { id: id.to_string(), ..test_entry(schedule) }
}

/// Noon, UTC, on the first of March 2026, a Sunday.
fn noon() -> Stamp {
    let at = UtcInstant { secs: 1_772_366_400, nanos: 0 };
    Stamp { text: format_instant(&at).unwrap(), at }
}

#[test]
fn trigger_now_forces_next_run_due() {
    let mut sched = test_scheduler();
    let id = sched.add_job(test_entry("0 0 10 * * 5")).unwrap();
    let before = sched.jobs().iter().find(|j| j.id == id).unwrap().next_run_at.clone();
    assert!(before.is_some());

    sched
        .update_job(&id, JobUpdate { trigger_now: true, ..Default::default() })
        .unwrap();

    let after = sched.jobs().iter().find(|j| j.id == id).unwrap().next_run_at.clone();
    let after = chrono::DateTime::parse_from_rfc3339(&after.unwrap()).unwrap();
    assert!(after <= chrono::Utc::now() + chrono::Duration::seconds(2));
}

#[test]
fn trigger_now_rejected_for_paused_job() {
    let mut sched = test_scheduler();
    let id = sched.add_job(test_entry("0 0 10 * * 5")).unwrap();
    sched.set_enabled(&id, false).unwrap();
    let r = sched.update_job(&id, JobUpdate { trigger_now: true, ..Default::default() });
    assert!(matches!(r, Err(SchedulerError::Paused { .. })));
}

#[test]
fn trigger_now_needs_a_schedule() {
    let mut sched = test_scheduler();
    let id = sched.add_job(wh_entry(Some("hook"), "s", None)).unwrap();
    let r = sched.update_job(&id, JobUpdate { trigger_now: true, ..Default::default() });
    assert!(matches!(r, Err(SchedulerError::NoSchedule { .. })));
}

#[test]
fn updates_of_unknown_jobs_do_nothing() {
    let mut sched = test_scheduler();
    assert!(!sched.update_job("nope", JobUpdate::default()).unwrap());
    assert!(!sched.set_enabled("nope", true).unwrap());
    assert!(!sched.remove_job("nope"));
}

#[test]
fn silent_marker_ok() {
    assert!(is_silent_ok("cron_ok", "cron"));
    assert!(is_silent_ok("Cron_OK", "cron"));
    assert!(is_silent_ok(" cron_ok ", "cron"));
    assert!(!is_silent_ok("I found something", "cron"));
}

#[test]
fn jobs_store_directory_load_wins_over_legacy_file() {
    let id_a = "test/job/019fe342aaaa";
    let id_legacy = "test/job/019fe342bbbb";
    let jobs = choose_store(
        vec![with_id(id_a, "0 9 * * *")],
        Some(vec![with_id(id_legacy, "0 8 * * *")]),
    );
    assert_eq!(jobs.len(), 1);
    assert_eq!(jobs[0].id, id_a);
}

#[test]
fn jobs_store_legacy_file_fallback_when_dir_empty() {
    let id_legacy = "test/job/019fe342cccc";
    let jobs = choose_store(Vec::new(), Some(vec![with_id(id_legacy, "0 8 * * *")]));
    assert_eq!(jobs.len(), 1);
    assert_eq!(jobs[0].id, id_legacy);
}

#[test]
fn jobs_store_writes_per_job_meta_and_prunes_delete() {
    let mut sched = test_scheduler();
    let id = sched.add_job(test_entry("0 9 * * *")).unwrap();
    assert_eq!(sched.jobs()[0].id, id);
    assert_eq!(sched.jobs()[0].schedule.as_deref(), Some("0 9 * * *"));
    assert_eq!(prune_action(true, true, false), PruneAction::Keep);

    assert!(sched.remove_job(&id));
    assert!(sched.jobs().is_empty());
    assert_eq!(prune_action(true, false, false), PruneAction::RemoveDirectory);
    assert_eq!(prune_action(true, false, true), PruneAction::RemoveMeta);
    assert_eq!(prune_action(false, false, false), PruneAction::Keep);
}

#[test]
fn webhook_projection_derives_route_from_name() {
    let mut sched = test_scheduler();
    sched.add_job(wh_entry(Some("gh-issues"), "s3cret", None)).unwrap();
    let jobs = sched.webhook_jobs();
    assert_eq!(jobs.len(), 1);
    assert_eq!(jobs[0].route, "gh-issues");
    assert_eq!(jobs[0].secret, "s3cret");
}

#[test]
fn webhook_projection_keeps_the_conditions() {
    let mut sched = test_scheduler();
    let mut entry = wh_entry(Some("hook"), "s", None);
    entry.prompt = "say {{x}}".to_string();
    entry.webhook = Some(WebhookDef {
        auth: "bearer".to_string(),
        secret: "s".to_string(),
        events: Some(vec!["push".to_string()]),
        filters: Some(vec![WebhookFilter {
            field: "a.b".to_string(),
            equals: Some("1".to_string()),
            matches: None,
            not: true,
        }]),
        payload_off: true,
    });
    let id = sched.add_job(entry).unwrap();
    let jobs = sched.webhook_jobs();
    assert_eq!(jobs[0].id, id);
    assert_eq!(jobs[0].auth, WebhookAuth::Bearer);
    assert_eq!(jobs[0].prompt_template, "say {{x}}");
    assert_eq!(jobs[0].events.as_ref().unwrap()[0], "push");
    assert_eq!(jobs[0].filters.as_ref().unwrap()[0].field, "a.b");
    assert!(jobs[0].filters.as_ref().unwrap()[0].not);
    assert!(jobs[0].payload_off);
}

#[test]
fn a_route_without_a_secret_is_taken() {
    let mut sched = test_scheduler();
    sched.add_job(wh_entry(Some("dup"), "", None)).unwrap();
    sched.add_job(wh_entry(Some("dup"), "s2", None)).unwrap();
    assert!(sched.webhook_jobs().is_empty());
}

#[test]
fn add_job_rejects_nameless_entry() {
    let mut sched = test_scheduler();
    let err = sched.add_job(wh_entry(None, "s", None));
    assert!(matches!(err, Err(SchedulerError::NameRequired)));
    assert_eq!(err.unwrap_err().message(), "job name is required (design §3.4)");
    assert!(matches!(
        sched.add_job(wh_entry(Some("  "), "s", None)),
        Err(SchedulerError::NameRequired)
    ));
}

#[test]
fn webhook_projection_rejects_bad_slug_secret_and_builtin_names() {
    let mut sched = test_scheduler();
    // No secret.
    sched.add_job(wh_entry(Some("no-secret"), "", None)).unwrap();
    // A name that is no slug.
    sched.add_job(wh_entry(Some("Bad Slug"), "s", None)).unwrap();
    // The name of a built-in route.
    sched.add_job(wh_entry(Some("agent"), "s", None)).unwrap();
    assert!(sched.webhook_jobs().is_empty());
}

#[test]
fn webhook_projection_duplicate_routes_keep_first() {
    let mut sched = test_scheduler();
    sched.add_job(wh_entry(Some("dup"), "s1", None)).unwrap();
    sched.add_job(wh_entry(Some("dup"), "s2", None)).unwrap();
    let jobs = sched.webhook_jobs();
    assert_eq!(jobs.len(), 1);
    assert_eq!(jobs[0].secret, "s1");
}

#[test]
fn ids_are_made_of_the_namespace_and_a_uuid() {
    let mut sched = test_scheduler();
    let id = sched.add_job(test_entry("0 0 9 * * *")).unwrap();
    assert!(id.starts_with("test/job/"));
    let bare = bare_dir_name(&id);
    assert_eq!(uuid::Uuid::parse_str(&bare).unwrap().get_version_num(), 7);
    assert_eq!(session_key(&id), format!("_job_{}", bare));
    assert_eq!(bare_dir_name("plain"), "plain");
    assert_eq!(bare_dir_name("a/b/"), "");
}

#[test]
fn markdown_files_become_jobs_once() {
    let file = |stem: Option<&str>, content: &str| MarkdownFile {
        stem: stem.map(|s| s.to_string()),
        content: content.to_string(),
    };
    let files = vec![
        file(Some("report"), "---\nschedule: \"0 0 9 * * *\"\ntarget: telegram\n---\nwrite\n"),
        file(Some("notes"), "no front matter"),
        file(Some("hollow"), "---\nschedule: \"0 0 9 * * *\"\n---\n"),
        file(Some("again"), "---\nschedule: \"0 0 9 * * *\"\n---\nwrite"),
        file(None, "---\nschedule: \"0 0 8 * * *\"\n---\nread"),
    ];
    let mut sched = test_scheduler();
    assert_eq!(sched.migrate_from_markdown(&files), 2);
    assert_eq!(sched.migrate_from_markdown(&files), 0);
    let jobs = sched.jobs();
    assert_eq!(jobs.len(), 2);
    assert_eq!(jobs[0].name.as_deref(), Some("report"));
    assert_eq!(jobs[0].target, "telegram");
    assert_eq!(jobs[0].prompt, "write");
    assert_eq!(jobs[1].target, "last");
    assert_eq!(jobs[1].prompt, "read");
    assert_ne!(jobs[0].id, jobs[1].id);
    for job in jobs {
        assert!(job.id.starts_with("test/job/"));
        assert!(job.enabled);
        let bare = bare_dir_name(&job.id);
        assert_eq!(uuid::Uuid::parse_str(&bare).unwrap().get_version_num(), 7);
    }
}

#[test]
fn a_new_job_is_due_at_its_next_time() {
    let mut sched = test_scheduler();
    let stamp = noon();
    let id = sched.add_job_at(test_entry("0 30 12 * * *"), "test/job/x".to_string(), &stamp).unwrap();
    assert_eq!(id, "test/job/x");
    assert_eq!(
        sched.jobs()[0].next_run_at.as_deref(),
        Some("2026-03-01T12:30:00+00:00")
    );
    assert_eq!(sched.jobs()[0].created_at.as_deref(), Some(stamp.text.as_str()));
    assert!(sched.due_triggers(&stamp.at).is_empty());
    let later = UtcInstant { secs: stamp.at.secs + 1800, nanos: 0 };
    let due = sched.due_triggers(&later);
    assert_eq!(due.len(), 1);
    assert_eq!(due[0].prompt, "p");
    assert_eq!(due[0].session_key, "_job_x");
}

#[test]
fn a_tick_fires_once() {
    let mut sched = test_scheduler();
    let stamp = noon();
    sched.add_job_at(test_entry("0 30 12 * * *"), "test/job/x".to_string(), &stamp).unwrap();
    let at = UtcInstant { secs: stamp.at.secs + 1800, nanos: 0 };
    let later = Stamp { text: format_instant(&at).unwrap(), at };
    assert_eq!(sched.tick(&later).len(), 1);
    assert_eq!(sched.tick(&later).len(), 0);
    assert_eq!(
        sched.jobs()[0].next_run_at.as_deref(),
        Some("2026-03-02T12:30:00+00:00")
    );
}

#[test]
fn runs_are_booked() {
    let mut sched = test_scheduler();
    let stamp = noon();
    sched.add_job_at(test_entry("0 30 12 * * *"), "test/job/x".to_string(), &stamp).unwrap();
    let record = RunRecord::at(stamp.text.clone(), RunStatus::Error).with_error("boom".to_string());
    let alert = sched.mark_run_result_at("test/job/x", record, &stamp);
    assert!(alert.is_none());
    assert_eq!(sched.jobs()[0].consecutive_errors, 1);
    assert_eq!(sched.jobs()[0].completed_runs, 1);
    assert_eq!(sched.jobs()[0].last_runs.len(), 1);
    let record = RunRecord::at(stamp.text.clone(), RunStatus::Succeeded);
    sched.mark_run_result_at("test/job/x", record, &stamp);
    assert_eq!(sched.jobs()[0].consecutive_errors, 0);
    assert_eq!(sched.jobs()[0].completed_runs, 2);
}

#[test]
fn used_up_jobs_are_drained() {
    let mut sched = test_scheduler();
    let stamp = noon();
    let entry = JobEntry {
        max_runs: Some(1),
        delete_after_run: true,
        ..test_entry("0 30 12 * * *")
    };
    sched.add_job_at(entry, "test/job/x".to_string(), &stamp).unwrap();
    assert!(sched.drain_auto_delete().is_empty());
    let record = RunRecord::at(stamp.text.clone(), RunStatus::Succeeded);
    sched.mark_run_result_at("test/job/x", record, &stamp);
    assert_eq!(sched.drain_auto_delete(), vec!["test/job/x".to_string()]);
    assert!(sched.jobs().is_empty());
}

#[test]
fn only_successful_runs_use_up_a_job() {
    let mut sched = test_scheduler();
    let stamp = noon();
    let entry = JobEntry { max_runs: Some(1), ..test_entry("0 30 12 * * *") };
    sched.add_job_at(entry, "test/job/x".to_string(), &stamp).unwrap();
    for (status, errors, skipped) in
        [(RunStatus::Error, 1, 0), (RunStatus::Timeout, 2, 0), (RunStatus::Skipped, 2, 1)]
    {
        sched.mark_run_result_at(
            "test/job/x",
            RunRecord::at(stamp.text.clone(), status),
            &stamp,
        );
        assert!(sched.jobs()[0].enabled);
        assert_eq!(sched.jobs()[0].consecutive_errors, errors);
        assert_eq!(sched.jobs()[0].consecutive_skipped, skipped);
    }
    assert_eq!(sched.jobs()[0].completed_runs, 3);
    assert_eq!(sched.jobs()[0].successful_runs, 0);
    let record = RunRecord::at(stamp.text.clone(), RunStatus::Succeeded);
    sched.mark_run_result_at("test/job/x", record, &stamp);
    assert!(!sched.jobs()[0].enabled);
    assert!(sched.jobs()[0].next_run_at.is_none());
    assert_eq!(sched.jobs()[0].completed_runs, 4);
    assert_eq!(sched.jobs()[0].successful_runs, 1);
}

#[test]
fn loaded_jobs_are_named_and_ordered() {
    let mut a = with_id("test/job/b", "0 0 9 * * *");
    a.name = None;
    let b = with_id("test/job/a", "0 0 9 * * *");
    let jobs = prepare_loaded(vec![a, b]);
    assert_eq!(jobs[0].id, "test/job/a");
    assert_eq!(jobs[1].id, "test/job/b");
    assert!(jobs[1].name.is_some());
}

#[test]
fn the_newest_records_come_first() {
    let log = vec![
        RunRecord::at("1".to_string(), RunStatus::Succeeded),
        RunRecord::at("2".to_string(), RunStatus::Skipped),
        RunRecord::at("3".to_string(), RunStatus::Timeout),
    ];
    let recent = recent_records(log, 2);
    assert_eq!(recent.len(), 2);
    assert_eq!(recent[0].run_at, "3");
    assert_eq!(recent[1].run_at, "2");
    assert_eq!(log_place(false, true), LogPlace::Shared);
    assert_eq!(log_place(true, true), LogPlace::PerJob);
    assert_eq!(log_place(false, false), LogPlace::PerJob);
}

#[test]
fn messages_of_users_are_remembered() {
    let mut sched = test_scheduler();
    assert_eq!(sched.last_channel(), None);
    sched.record_user_message("telegram:main", "42", 7);
    assert_eq!(sched.last_channel(), Some("telegram:main"));
    assert_eq!(sched.last_recipient(), Some("42"));
}

#[test]
fn a_store_that_did_not_change_is_not_read_again() {
    let mut sched = test_scheduler();
    assert!(!sched.maybe_reload(None, vec![with_id("test/job/a", "0 0 9 * * *")], None));
    assert!(sched.jobs().is_empty());
    assert!(sched.maybe_reload(Some(1), vec![with_id("test/job/a", "0 0 9 * * *")], None));
    assert_eq!(sched.job_count(), 1);
    assert!(!sched.maybe_reload(Some(1), Vec::new(), None));
    assert_eq!(sched.job_count(), 1);
}

#[test]
fn records_have_the_text_of_the_clock() {
    let record = RunRecord::now(RunStatus::Succeeded).with_duration(5).with_output_preview("out");
    let at = parse_instant(&record.run_at).unwrap();
    assert!(at.secs > 1_700_000_000);
    assert_eq!(record.duration_ms, 5);
    assert_eq!(record.output_preview, "out");
    assert!(parse_instant("yesterday").is_none());
}
