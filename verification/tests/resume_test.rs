use relay::handoff_file::DirEntryInfo;
use relay::resume::{
    build_resume_prompt, extract_section, latest_handoff, resume_report, ResumeError,
};

fn entry(name: &str, modified: Option<i128>) -> DirEntryInfo {
    DirEntryInfo { name: name.to_string(), modified }
}

const INSTRUCTIONS: &str = "\n## INSTRUCTIONS\n\nReview what the fallback agent did above.\n\
    Continue from the current state. Check if the original task is complete.\nIf not, finish it.\n";

fn head(time: &str, task: &str) -> String {
    format!(
        "══ RELAY RESUME ══════════════════════════════\n\
        You are resuming a session that was handed off at {time}.\n\
        A fallback agent continued the work. Here's what happened:\n\
        ══════════════════════════════════════════════\n\n\
        ## ORIGINAL TASK\n\n{task}\n"
    )
}

#[test]
fn latest_handoff_is_first_of_newest() {
    assert_eq!(latest_handoff(None), Err(ResumeError::NoRelayDir));
    let listing = vec![
        entry("handoff_a.md", Some(0)),
        entry("handoff_b.md", Some(4)),
        entry("handoff_c.md", Some(4)),
        entry("notes.md", Some(10)),
    ];
    assert_eq!(latest_handoff(Some(&listing)), Ok(1));
    let at_epoch = vec![entry("handoff_a.md", Some(0))];
    assert_eq!(latest_handoff(Some(&at_epoch)), Ok(0));
    let none = vec![entry("notes.md", Some(1)), entry("handoff_a.md", None)];
    assert_eq!(latest_handoff(Some(&none)), Err(ResumeError::NoHandoffFiles));
    assert_eq!(ResumeError::NoHandoffFiles.message(), "No handoff files found in .relay/");
}

#[test]
fn section_up_to_next_heading() {
    let content = "# Handoff\n## CURRENT TASK\n\n  Fix the bug\n  in ws.rs \n\n## GIT STATE\nclean\n";
    assert_eq!(
        extract_section(content, "## CURRENT TASK").as_deref(),
        Some("Fix the bug\n  in ws.rs")
    );
    assert_eq!(extract_section("## CURRENT TASK\n", "## CURRENT TASK"), None);
    assert_eq!(extract_section("## CURRENT TASK\n\n## NEXT\nx", "## CURRENT TASK"), None);
    assert_eq!(extract_section("nothing", "## CURRENT TASK"), None);
    assert_eq!(extract_section("## CURRENT TASK\nlast", "## CURRENT TASK").as_deref(), Some("last"));
}

#[test]
fn prompt_without_changes() {
    let prompt = build_resume_prompt("Fix the bug", &[], &[], "", "2026-04-05 14:13:28");
    assert_eq!(prompt, format!("{}{}", head("2026-04-05 14:13:28", "Fix the bug"), INSTRUCTIONS));
}

#[test]
fn prompt_with_changes() {
    let changed: Vec<String> = (0..25).map(|i| format!("f{i}.rs")).collect();
    let commits = vec!["abc1234 Fix".to_string()];
    let prompt = build_resume_prompt("T", &changed, &commits, "1 file changed", "now");
    let mut expected = head("now", "T");
    expected.push_str("\n## COMMITS MADE DURING HANDOFF\n\n  abc1234 Fix\n");
    expected.push_str("\n## FILES CHANGED (25)\n\n");
    for i in 0..20 {
        expected.push_str(&format!("  f{i}.rs\n"));
    }
    expected.push_str("\n## DIFF SUMMARY\n\n1 file changed\n");
    expected.push_str(INSTRUCTIONS);
    assert_eq!(prompt, expected);
    assert!(!prompt.contains("f20.rs"));
}

#[test]
fn report_from_handoff_and_git() {
    let report = resume_report(
        "/p/.relay/handoff_20260405_141328.md".to_string(),
        "handoff_20260405_141328.md",
        "## CURRENT TASK\n\nShip it\n\n## TODOS\n- a\n",
        "src/a.rs\n\nsrc/b.rs\n",
        "abc Fix\n",
        " 2 files changed \n",
    );
    assert_eq!(report.handoff_file, "/p/.relay/handoff_20260405_141328.md");
    assert_eq!(report.handoff_time, "2026-04-05 14:13:28");
    assert_eq!(report.original_task, "Ship it");
    assert_eq!(report.changes_since, vec!["src/a.rs".to_string(), "src/b.rs".to_string()]);
    assert_eq!(report.new_commits, vec!["abc Fix".to_string()]);
    assert_eq!(report.diff_stat, "2 files changed");
    assert!(report.resume_prompt.contains("## FILES CHANGED (2)\n\n  src/a.rs\n  src/b.rs\n"));
    assert!(report.resume_prompt.contains("handed off at 2026-04-05 14:13:28."));
}

#[test]
fn report_with_unknown_task_and_time() {
    let report = resume_report("f".to_string(), "handoff_x.md", "no task here", "", "", "");
    assert_eq!(report.handoff_time, "unknown");
    assert_eq!(report.original_task, "Unknown");
    assert_eq!(report.resume_prompt, format!("{}{}", head("unknown", "Unknown"), INSTRUCTIONS));
}
