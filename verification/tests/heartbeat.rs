use agent_core::duration::Duration;
use agent_core::scheduling::heartbeat_tasks::{
    build_heartbeat_prompt, due_tasks, parse_heartbeat, parse_interval_str, parse_task_line,
    text_to_name, HeartbeatState, HeartbeatTask,
};

#[test]
fn parse_structured_tasks() {
    let content = "# HEARTBEAT\n\nGeneral instructions here.\n\n## Tasks\n\n- [check-email] 检查邮件\n- [check-cal] 检查日历\n- [paused:paused] 不执行\n";
    let (ctx, tasks) = parse_heartbeat(content);
    assert_eq!(ctx, "General instructions here.");
    assert_eq!(tasks.len(), 3);
    assert_eq!(tasks[0].name, "check-email");
    assert!(!tasks[0].is_paused);
    assert_eq!(tasks[1].name, "check-cal");
    assert!(tasks[2].is_paused);
}

#[test]
fn parse_backward_compat() {
    let content = "- Check email\n- Review PRs\n";
    let (ctx, tasks) = parse_heartbeat(content);
    assert!(ctx.is_empty());
    assert_eq!(tasks.len(), 2);
    assert_eq!(tasks[0].interval, Duration::from_secs(1800));
    assert!(!tasks[0].is_paused);
}

#[test]
fn parse_no_tasks_section() {
    let content = "# HEARTBEAT\n\nJust some instructions.\n";
    let (ctx, tasks) = parse_heartbeat(content);
    assert_eq!(ctx, "Just some instructions.");
    assert!(tasks.is_empty());
}

#[test]
fn parse_interval_str_variants() {
    assert_eq!(parse_interval_str("30m"), Some(Duration::from_secs(1800)));
    assert_eq!(parse_interval_str("1h"), Some(Duration::from_secs(3600)));
    assert_eq!(parse_interval_str("2d"), Some(Duration::from_secs(172800)));
    assert_eq!(parse_interval_str("30s"), Some(Duration::from_secs(30)));
    assert_eq!(parse_interval_str("abc"), None);
}

#[test]
fn parse_interval_str_edges() {
    assert_eq!(parse_interval_str(""), None);
    assert_eq!(parse_interval_str("5分"), None);
    assert_eq!(parse_interval_str("18446744073709551615d"), None);
}

#[test]
fn due_tasks_skips_paused_only() {
    let tasks = vec![
        HeartbeatTask {
            name: "a".into(),
            interval: Duration::from_secs(1800),
            description: "task a".into(),
            is_paused: false,
        },
        HeartbeatTask {
            name: "b".into(),
            interval: Duration::from_secs(3600),
            description: "task b".into(),
            is_paused: true,
        },
    ];
    let state = HeartbeatState::default();
    let due = due_tasks(&tasks, &state);
    assert_eq!(due.len(), 1);
    assert_eq!(due[0].name, "a");
}

#[test]
fn due_tasks_skips_paused() {
    let tasks = vec![HeartbeatTask {
        name: "x".into(),
        interval: Duration::from_secs(60),
        description: "task x".into(),
        is_paused: true,
    }];
    let state = HeartbeatState::default();
    assert!(due_tasks(&tasks, &state).is_empty());
}

#[test]
fn build_prompt_includes_context_and_tasks() {
    let tasks = vec![HeartbeatTask {
        name: "email".into(),
        interval: Duration::from_secs(1800),
        description: "Check email".into(),
        is_paused: false,
    }];
    let due: Vec<&HeartbeatTask> = tasks.iter().collect();
    let prompt = build_heartbeat_prompt("Be concise.", &due);
    assert!(prompt.contains("Be concise."));
    assert!(prompt.contains("[email] Check email"));
    assert!(prompt.contains("HEARTBEAT_OK"));
}

#[test]
fn prompt_without_context_is_exact() {
    let task = HeartbeatTask {
        name: "n".into(),
        interval: Duration::from_secs(1800),
        description: "d".into(),
        is_paused: false,
    };
    assert_eq!(
        build_heartbeat_prompt("", &[&task, &task]),
        "Execute the following heartbeat tasks:\n\n1. [n] d\n2. [n] d\n\nIf all tasks have nothing to report, reply ONLY with: HEARTBEAT_OK\nIf any task produced results, report them normally. Do NOT include HEARTBEAT_OK in that case.\nDo not infer or repeat old tasks from prior chats."
    );
}

#[test]
fn only_the_suffix_pauses_a_task() {
    let t = parse_task_line("[pause-music] Stop the music at night").unwrap();
    assert_eq!(t.name, "pause-music");
    assert!(!t.is_paused);
    assert!(parse_task_line("[a:pause] x").unwrap().is_paused);
    assert!(parse_task_line("[a: paused ] x").unwrap().is_paused);
    assert_eq!(parse_task_line("[a:2h] x").unwrap().interval, Duration::from_secs(7200));
    assert_eq!(parse_task_line("[a:soon] x").unwrap().interval, Duration::from_secs(1800));
}

#[test]
fn task_lines_without_a_name() {
    assert!(parse_task_line("[] x").is_none());
    assert!(parse_task_line("[:1h] x").is_none());
    assert!(parse_task_line("   ").is_none());
    let t = parse_task_line("[open bracket").unwrap();
    assert_eq!(t.description, "[open bracket");
    assert_eq!(t.name, text_to_name("[open bracket"));
}

#[test]
fn plain_names_are_stable_hex() {
    let a = text_to_name("Check email");
    assert_eq!(a, text_to_name("Check email"));
    assert_ne!(a, text_to_name("Review PRs"));
    assert!(a.len() >= 8);
    assert!(a.chars().all(|c| c.is_ascii_hexdigit() && !c.is_ascii_uppercase()));
}

#[test]
fn nothing_behind_the_tasks_is_context() {
    let (ctx, tasks) = parse_heartbeat("Intro.\n## Tasks\n- [a] x\n## Notes\nafter\n");
    assert_eq!(ctx, "Intro.");
    assert_eq!(tasks.len(), 1);
    assert_eq!(tasks[0].name, "a");
    assert_eq!(tasks[0].description, "x");
}

#[test]
fn sections_end_at_the_next_header() {
    let content = "intro\n## TASKS:\n- one\nloose text\n## Notes\n- not a task\n## tasks\n- two\n";
    let (ctx, tasks) = parse_heartbeat(content);
    assert_eq!(ctx, "intro");
    assert_eq!(tasks.len(), 2);
    assert_eq!(tasks[0].description, "one");
    assert_eq!(tasks[1].description, "two");
}
