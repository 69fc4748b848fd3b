use agent_core::scheduling::cron_loader::{
    is_markdown_name, load_cron_jobs, parse_cron_file, CronFile, CronFileError,
};
use agent_core::scheduling::cron_store::{
    compute_next_run, generate_id, offset_next_at, CronStore, JobEntry, JobUpdate, JobsFile,
    MarkdownFile,
};
use agent_core::time::{format_instant, Stamp, UtcInstant};

fn entry(prompt: &str, target: &str, name: Option<&str>) -> JobEntry {
    JobEntry {
        id: String::new(),
        schedule: "0 0 9 * * *".to_string(),
        prompt: prompt.to_string(),
        target: target.to_string(),
        name: name.map(|s| s.to_string()),
        active_hours: None,
        enabled: true,
        last_run_at: None,
        next_run_at: None,
        created_at: None,
    }
}

fn no_change() -> JobUpdate {
    JobUpdate {
        name: None,
        schedule: None,
        prompt: None,
        target: None,
        active_hours: None,
        enabled: None,
    }
}

#[test]
fn test_add_and_list_jobs() {
    let mut store = CronStore::new("jobs.json".to_string(), 8);
    let id = store.add_job(entry("test prompt", "last", Some("test")));
    assert_eq!(store.jobs().len(), 1);
    assert_eq!(store.jobs()[0].id, id);
    assert_eq!(store.jobs()[0].name.as_deref(), Some("test"));
}

#[test]
fn test_update_and_remove() {
    let mut store = CronStore::new("jobs.json".to_string(), 8);
    let id = store.add_job(entry("test", "last", None));

    let ok = store.update_job(
        &id,
        JobUpdate { name: Some("updated".to_string()), ..no_change() },
    );
    assert!(ok);
    assert_eq!(store.jobs()[0].name.as_deref(), Some("updated"));

    store.update_job(&id, JobUpdate { enabled: Some(false), ..no_change() });
    assert!(!store.jobs()[0].enabled);
    assert!(store.jobs()[0].next_run_at.is_none());

    assert!(store.remove_job(&id));
    assert!(store.jobs().is_empty());
}

#[test]
fn test_persistence() {
    let mut written = CronStore::new("jobs.json".to_string(), 8);
    written.add_job(entry("persisted", "telegram", None));
    let on_disk = JobsFile {
        jobs: vec![entry(&written.jobs()[0].prompt, &written.jobs()[0].target, None)],
    };

    let mut store = CronStore::new("jobs.json".to_string(), 8);
    assert!(store.maybe_reload(true, Some(1), Some(on_disk)));
    assert_eq!(store.jobs().len(), 1);
    assert_eq!(store.jobs()[0].prompt, "persisted");
    assert_eq!(store.jobs()[0].target, "telegram");
}

#[test]
fn a_file_that_did_not_change_is_not_read_again() {
    let mut store = CronStore::new("jobs.json".to_string(), 0);
    assert_eq!(store.path(), "jobs.json");
    assert!(!store.maybe_reload(false, None, Some(JobsFile { jobs: Vec::new() })));
    assert!(store.maybe_reload(true, Some(1), Some(JobsFile { jobs: vec![entry("a", "last", None)] })));
    assert!(!store.maybe_reload(true, Some(1), Some(JobsFile { jobs: Vec::new() })));
    assert!(!store.maybe_reload(true, Some(2), None));
    assert_eq!(store.jobs().len(), 1);
}

#[test]
fn test_compute_next_run() {
    let next = compute_next_run("0 0 9 * * *", None, 8);
    assert!(next.is_some());
}

#[test]
fn next_runs_are_read_at_the_offset() {
    let now = UtcInstant { secs: 1_772_366_400, nanos: 0 };
    // Nine o'clock eight hours ahead of UTC is one o'clock UTC.
    assert_eq!(
        offset_next_at("0 0 9 * * *", None, 8, &now).as_deref(),
        Some("2026-03-02T01:00:00+00:00")
    );
    assert_eq!(
        offset_next_at("0 0 9 * * *", Some("2026-03-05T12:00:00Z"), 0, &now).as_deref(),
        Some("2026-03-06T09:00:00+00:00")
    );
    assert_eq!(offset_next_at("no cron", None, 0, &now), None);
}

#[test]
fn ids_are_the_low_bits_of_the_time() {
    assert_eq!(generate_id(&UtcInstant { secs: 0, nanos: 255 }), "0000000000ff");
    assert_eq!(generate_id(&UtcInstant { secs: 0, nanos: 0 }), "000000000000");
}

#[test]
fn due_jobs_and_their_runs() {
    let at = UtcInstant { secs: 1_772_366_400, nanos: 0 };
    let stamp = Stamp { text: format_instant(&at).unwrap(), at };
    let mut store = CronStore::new("jobs.json".to_string(), 0);
    let id = store.add_job_at(entry("p", "last", None), "one".to_string(), &stamp);
    assert_eq!(id, "one");
    assert!(store.due_jobs_at(&at).is_empty());
    let later = UtcInstant { secs: at.secs + 86_400, nanos: 0 };
    assert_eq!(store.due_jobs_at(&later).len(), 1);
    store.mark_run_at("one", &Stamp { text: format_instant(&later).unwrap(), at: later });
    assert!(store.due_jobs_at(&later).is_empty());
    assert_eq!(store.jobs()[0].last_run_at.as_deref(), Some("2026-03-02T12:00:00+00:00"));
}

#[test]
fn markdown_files_are_taken_over_once() {
    let files = vec![
        MarkdownFile {
            stem: Some("report".to_string()),
            content: "---\nschedule: \"0 0 9 * * *\"\n---\nwrite".to_string(),
        },
        MarkdownFile { stem: None, content: "no front matter".to_string() },
    ];
    let mut store = CronStore::new("jobs.json".to_string(), 0);
    assert_eq!(store.migrate_from_markdown(&files), 1);
    assert_eq!(store.migrate_from_markdown(&files), 0);
    assert_eq!(store.jobs().len(), 1);
    assert_eq!(store.jobs()[0].prompt, "write");
}

#[test]
fn a_job_of_a_markdown_file_is_named_after_it() {
    let file = MarkdownFile {
        stem: Some("report".to_string()),
        content: "---\nschedule: \"0 0 9 * * *\"\ntarget: telegram\n---\nwrite\n".to_string(),
    };
    let at = UtcInstant { secs: 1_772_452_800, nanos: 5 };
    let stamp = Stamp { text: format_instant(&at).unwrap(), at };
    let mut store = CronStore::new("jobs.json".to_string(), 0);
    assert!(store.migrate_file_at(&file, &stamp));
    assert!(!store.migrate_file_at(&file, &stamp));
    assert!(!store.migrate_file(&file));
    assert_eq!(store.jobs().len(), 1);
    let job = &store.jobs()[0];
    assert_eq!(job.id, generate_id(&stamp.at));
    assert_eq!(job.name.as_deref(), Some("report"));
    assert_eq!(job.schedule, "0 0 9 * * *");
    assert_eq!(job.target, "telegram");
    assert_eq!(job.prompt, "write");
    assert!(job.enabled);
    assert_eq!(job.created_at.as_deref(), Some(stamp.text.as_str()));
    assert_eq!(job.last_run_at, None);
    assert!(job.next_run_at.is_some());
}

#[test]
fn parse_cron_file_valid() {
    let job = parse_cron_file(
        "---\nschedule: \"0 9 * * *\"\ntarget: telegram\n---\n\n生成昨天的工作日报。\n",
    )
    .unwrap();
    assert_eq!(job.schedule, "0 9 * * *");
    assert_eq!(job.target, "telegram");
    assert_eq!(job.prompt, "生成昨天的工作日报。");
}

#[test]
fn parse_cron_file_default_target() {
    let job = parse_cron_file("---\nschedule: \"*/30 * * * *\"\n---\n\n检查待办事项。\n").unwrap();
    assert_eq!(job.target, "last");
}

#[test]
fn parse_cron_file_missing_schedule() {
    assert_eq!(
        parse_cron_file("---\ntarget: last\n---\nDo something.").unwrap_err(),
        CronFileError::MissingSchedule
    );
}

#[test]
fn parse_cron_file_empty_body() {
    assert_eq!(
        parse_cron_file("---\nschedule: \"0 9 * * *\"\n---\n").unwrap_err(),
        CronFileError::EmptyPrompt
    );
}

#[test]
fn files_that_are_no_cron_jobs_are_named() {
    assert_eq!(
        CronFileError::MissingSchedule.message("cron/a.md"),
        "missing 'schedule' in front matter of cron/a.md"
    );
    assert_eq!(CronFileError::EmptyPrompt.message("cron/a.md"), "empty prompt body in cron/a.md");
}

#[test]
fn load_cron_jobs_from_dir() {
    let file = |name: &str, content: &str| CronFile {
        name: name.to_string(),
        content: content.to_string(),
    };
    let jobs = load_cron_jobs(&vec![
        file(
            "report.md",
            "---\nschedule: \"0 9 * * *\"\ntarget: telegram\n---\n日报",
        ),
        file("check.md", "---\nschedule: \"*/30 * * * *\"\n---\n检查"),
        file("notes.txt", "not a cron job"),
    ]);
    assert_eq!(jobs.len(), 2);
    assert!(!is_markdown_name(".md"));
    assert!(!is_markdown_name("notes.markdown"));
}

#[test]
fn load_cron_jobs_missing_dir() {
    let jobs = load_cron_jobs(&Vec::new());
    assert!(jobs.is_empty());
}
