use codex_tools_core::footer::{
    format_duration, format_output_lines, BackgroundSubagentActivity, CommandActivity,
    ExecCommandRunMode, UnifiedExecFooter,
};
use codex_tools_core::picker::LineStyle;

fn command(
    command: &str,
    shell_id: &str,
    run_mode: ExecCommandRunMode,
    output: &[&str],
) -> CommandActivity {
    CommandActivity {
        command: command.to_string(),
        shell_id: shell_id.to_string(),
        run_mode: Some(run_mode),
        started_at: 0,
        status: "running".to_string(),
        recent_output: output.iter().map(|line| line.to_string()).collect(),
    }
}

fn subagent(label: &str, thread_id: &str) -> BackgroundSubagentActivity {
    BackgroundSubagentActivity {
        label: label.to_string(),
        thread_id: thread_id.to_string(),
        status: "running".to_string(),
        started_at: 0,
        recent_output: Vec::new(),
    }
}

fn rendered(footer: &UnifiedExecFooter, width: u16) -> Vec<String> {
    footer.render_lines(width).into_iter().map(|line| line.text).collect()
}

#[test]
fn desired_height_empty() {
    let footer = UnifiedExecFooter::new();
    assert_eq!(footer.desired_height(40), 0);
    assert!(footer.is_empty());
}

#[test]
fn render_more_sessions() {
    let mut footer = UnifiedExecFooter::new();
    footer.set_processes(vec![command(
        "rg \"foo\" src",
        "1000",
        ExecCommandRunMode::Blocking,
        &[],
    )]);
    assert_eq!(footer.desired_height(50), 1);
    assert_eq!(
        rendered(&footer, 50),
        vec!["  1 command running · Enter details · k kill"]
    );
}

#[test]
fn render_many_sessions() {
    let mut footer = UnifiedExecFooter::new();
    footer.set_processes(
        (0..123)
            .map(|idx| {
                command(
                    &format!("cmd {idx}"),
                    &format!("{}", 1000 + idx),
                    ExecCommandRunMode::Background,
                    &[],
                )
            })
            .collect(),
    );
    assert_eq!(footer.desired_height(50), 1);
    assert_eq!(
        rendered(&footer, 50),
        vec!["  123 background commands running · Enter details "]
    );
    assert_eq!(footer.activity_count(), 123);
}

#[test]
fn render_commands_and_subagents() {
    let mut footer = UnifiedExecFooter::new();
    footer.set_processes(vec![command(
        "cargo test",
        "1000",
        ExecCommandRunMode::Blocking,
        &["running 12 tests"],
    )]);
    footer.set_subagents(vec![subagent("explorer", "agent-1"), subagent("worker", "agent-2")]);
    assert_eq!(footer.desired_height(50), 2);
    assert_eq!(
        rendered(&footer, 50),
        vec![
            "  1 command running · Enter details · k kill",
            "  2 subagents running · Enter details · k kill",
        ]
    );
    assert_eq!(footer.render_lines(50)[0].style, LineStyle::Dim);
    assert!(footer.set_focused(true));
    assert!(!footer.set_focused(true));
    let lines = footer.render_lines(50);
    assert_eq!(lines[0].style, LineStyle::Cyan);
    assert_eq!(lines[0].text, "> 1 command running · Enter details · k kill");
    assert_eq!(footer.render_lines(3), Vec::new());
}

#[test]
fn detail_lines_include_command_runtime_and_status() {
    let mut footer = UnifiedExecFooter::new();
    footer.set_processes(vec![command(
        "cargo test",
        "1000",
        ExecCommandRunMode::Background,
        &[],
    )]);

    let detail = footer.detail_lines(0, 0).join("\n");

    assert!(detail.contains("cargo test"));
    assert!(detail.contains("shell id: 1000"));
    assert!(detail.contains("status: running"));
    assert!(detail.contains("runtime:"));
    assert!(!detail.contains("output:"));
}

#[test]
fn detail_lines_include_background_command_output() {
    let mut footer = UnifiedExecFooter::new();
    footer.set_processes(vec![command(
        "npm run dev",
        "1000",
        ExecCommandRunMode::Background,
        &["ready on http://localhost:3000", "compiled successfully"],
    )]);

    let detail = footer.detail_lines(0, 0).join("\n");

    assert!(detail.contains("npm run dev"));
    assert!(detail.contains("shell id: 1000"));
    assert!(detail.contains("status: running"));
    assert!(detail.contains("output:"));
    assert!(detail.contains("ready on http://localhost:3000"));
    assert!(detail.contains("compiled successfully"));
}

#[test]
fn list_lines_include_selectable_commands_and_subagents() {
    let mut footer = UnifiedExecFooter::new();
    footer.set_processes(vec![command(
        "cargo test",
        "1000",
        ExecCommandRunMode::Background,
        &[],
    )]);
    footer.set_subagents(vec![subagent("explorer", "agent-1")]);

    assert_eq!(
        footer.list_lines(1),
        vec![
            "Background commands".to_string(),
            "    cargo test [1000](running) · Enter details · k kill".to_string(),
            String::new(),
            "Subagents".to_string(),
            "  > explorer [agent-1](running) · Enter details · k kill".to_string(),
        ]
    );
    assert_eq!(
        footer.detail_lines(1, 0),
        vec![
            "explorer".to_string(),
            "  thread id: agent-1".to_string(),
            "  status: running".to_string(),
            "  runtime: 0s".to_string(),
        ]
    );
    assert_eq!(footer.detail_lines(2, 0), Vec::<String>::new());
}

#[test]
fn commands_that_block_are_listed_first() {
    let mut footer = UnifiedExecFooter::new();
    footer.set_processes(vec![
        command("b", "2", ExecCommandRunMode::Background, &[]),
        command("a", "1", ExecCommandRunMode::Blocking, &[]),
    ]);
    assert_eq!(
        footer.list_lines(0),
        vec![
            "Commands",
            "  > a [1](running) · Enter details · k kill",
            "",
            "Background commands",
            "    b [2](running) · Enter details · k kill",
        ]
    );
    assert_eq!(footer.detail_lines(1, 0)[0], "b");
    assert_eq!(
        footer.summary_rows(),
        vec!["1 command running", "1 background command running"]
    );
}

#[test]
fn setting_the_same_activities_changes_nothing() {
    let mut footer = UnifiedExecFooter::new();
    let first = || vec![command("a", "1", ExecCommandRunMode::Blocking, &["x"])];
    assert!(footer.set_processes(first()));
    assert!(!footer.set_processes(first()));
    assert!(footer.set_processes(vec![command("a", "1", ExecCommandRunMode::Background, &["x"])]));
    assert!(footer.set_subagents(vec![subagent("e", "1")]));
    assert!(!footer.set_subagents(vec![subagent("e", "1")]));
    assert!(footer.set_subagents(vec![subagent("e", "2")]));
    assert!(footer.set_subagents(Vec::new()));
}

#[test]
fn durations_are_put_in_hours_minutes_and_seconds() {
    assert_eq!(format_duration(59), "59s");
    assert_eq!(format_duration(60), "1m 0s");
    assert_eq!(format_duration(3_599), "59m 59s");
    assert_eq!(format_duration(3_600), "1h 0m 0s");
    assert_eq!(format_duration(7_325), "2h 2m 5s");
}

#[test]
fn runtime_counts_whole_seconds() {
    let mut footer = UnifiedExecFooter::new();
    footer.set_subagents(vec![subagent("e", "1")]);
    assert_eq!(footer.detail_lines(0, 61_999_999_999)[3], "  runtime: 1m 1s");
}

#[test]
fn long_output_leaves_out_the_middle() {
    let output: Vec<String> = (1..=10).map(|n| format!("l{n}")).collect();
    assert_eq!(
        format_output_lines(&output),
        vec![
            "      l1",
            "      l2",
            "      ... +3 lines",
            "      l6",
            "      l7",
            "      l8",
            "      l9",
            "      l10",
        ]
    );
    assert_eq!(format_output_lines(&output[..7]).len(), 7);
}
