use relay::handoff_file::{
    is_handoff_name_exec, parse_handoff_timestamp, parse_timestamp, stamp_of, DirEntryInfo,
};
use relay::history::{extract_field, extract_first_line_after, handoff_entry, select_handoffs};

fn entry(name: &str, modified: Option<i128>) -> DirEntryInfo {
    DirEntryInfo { name: name.to_string(), modified }
}

#[test]
fn timestamp_from_file_name() {
    assert_eq!(parse_timestamp("handoff_20260405_141328.md"), "2026-04-05 14:13:28");
    assert_eq!(parse_handoff_timestamp("handoff_20260405_141328.md"), "2026-04-05 14:13:28");
}

#[test]
fn short_stamp_fallbacks() {
    assert_eq!(parse_timestamp("handoff_abc.md"), "abc");
    assert_eq!(parse_handoff_timestamp("handoff_abc.md"), "unknown");
    assert_eq!(parse_timestamp("notes.md"), "");
    assert_eq!(parse_timestamp("handoff_20260405_141328.txt"), "");
    assert_eq!(parse_handoff_timestamp("notes.md"), "unknown");
}

#[test]
fn stamp_between_prefix_and_suffix() {
    assert_eq!(stamp_of("handoff_x.md"), "x");
    assert_eq!(stamp_of("handoff_.md"), "");
    assert_eq!(stamp_of("handoff_"), "");
    assert_eq!(stamp_of("Handoff_x.md"), "");
}

#[test]
fn handoff_names() {
    assert!(is_handoff_name_exec("handoff_20260405_180000.md"));
    assert!(!is_handoff_name_exec("handoff_20260405_180000.md.bak"));
    assert!(!is_handoff_name_exec("config.toml"));
}

#[test]
fn field_after_first_colon() {
    let content = "## CURRENT TASK\n\nFix the bug\n\n  Target agent   : codex\n";
    assert_eq!(extract_field(content, "Target agent").as_deref(), Some("codex"));
    assert_eq!(extract_field("Target agent: a:b: c \n", "Target agent").as_deref(), Some("a:b: c"));
}

#[test]
fn field_skips_empty_values_and_missing_colons() {
    let content = "Target agent\nTarget agent:   \r\nTarget agent: gemini\r\n";
    assert_eq!(extract_field(content, "Target agent").as_deref(), Some("gemini"));
    assert_eq!(extract_field("nothing here\n", "Target agent"), None);
    assert_eq!(extract_field("", "Target agent"), None);
}

#[test]
fn first_line_after_header() {
    let content = "intro\n## CURRENT TASK\n\n### details\n──────\n   Ship it   \nmore\n";
    assert_eq!(extract_first_line_after(content, "## CURRENT TASK"), "Ship it");
    assert_eq!(extract_first_line_after(content, "## MISSING"), "unknown");
    assert_eq!(extract_first_line_after("## CURRENT TASK\n# only\n", "## CURRENT TASK"), "unknown");
}

#[test]
fn entry_from_handoff_file() {
    let e = handoff_entry(
        "handoff_20260405_190000.md",
        "## CURRENT TASK\n\nDeploy the app\n\n  Target agent   : gemini\n",
    );
    assert_eq!(e.filename, "handoff_20260405_190000.md");
    assert_eq!(e.timestamp, "2026-04-05 19:00:00");
    assert!(e.timestamp.contains("19:00"));
    assert_eq!(e.agent, "gemini");
    assert_eq!(e.task, "Deploy the app");
}

#[test]
fn entry_defaults() {
    let e = handoff_entry("handoff_20260405_180001.md", "## CURRENT TASK\n\nTask 1\n");
    assert_eq!(e.agent, "unknown");
    assert_eq!(e.task, "Task 1");
    let e = handoff_entry("handoff_1.md", "no header");
    assert_eq!(e.timestamp, "1");
    assert_eq!(e.task, "unknown");
}

#[test]
fn entry_task_is_cut_to_sixty_bytes() {
    let long = "a".repeat(70);
    let e = handoff_entry("handoff_x.md", &format!("## CURRENT TASK\n\n{long}\n"));
    assert_eq!(e.task, format!("{}...", "a".repeat(57)));
    assert_eq!(e.task.len(), 60);
    let exact = "b".repeat(60);
    let e = handoff_entry("handoff_x.md", &format!("## CURRENT TASK\n{exact}\n"));
    assert_eq!(e.task, exact);
}

#[test]
fn entry_task_from_header_line_with_colon() {
    let e = handoff_entry("handoff_x.md", "## CURRENT TASK: write docs\nrest\n");
    assert_eq!(e.task, "write docs");
}

#[test]
fn history_newest_first() {
    let listing = vec![
        entry("handoff_20260405_180000.md", Some(100)),
        entry("notes.md", Some(500)),
        entry("handoff_20260405_190000.md", Some(200)),
        entry("handoff_broken.md", None),
    ];
    let shown = select_handoffs(&listing, 10);
    assert_eq!(shown, vec![2, 0]);
}

#[test]
fn history_respects_limit() {
    let listing: Vec<DirEntryInfo> = (0..5)
        .map(|i| entry(&format!("handoff_20260405_18000{i}.md"), Some(10 + i as i128)))
        .collect();
    let shown = select_handoffs(&listing, 3);
    assert_eq!(shown, vec![4, 3, 2]);
    assert!(select_handoffs(&listing, 0).is_empty());
}

#[test]
fn history_ties_keep_listing_order() {
    let listing = vec![
        entry("handoff_b.md", Some(7)),
        entry("handoff_a.md", Some(9)),
        entry("handoff_c.md", Some(7)),
        entry("handoff_d.md", Some(-3)),
    ];
    assert_eq!(select_handoffs(&listing, 10), vec![1, 0, 2, 3]);
}

#[test]
fn history_empty_listing() {
    assert!(select_handoffs(&Vec::new(), 10).is_empty());
}
