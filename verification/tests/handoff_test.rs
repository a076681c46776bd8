use relay::handoff::templates::{build_minimal, build_raw, truncate, Template};
use relay::snapshot::{ConversationTurn, GitState, SessionSnapshot, TodoItem};

fn make_snapshot() -> SessionSnapshot {
    SessionSnapshot {
        current_task: "Fix the WebSocket handler".into(),
        todos: vec![
            TodoItem { content: "Database schema".into(), status: "completed".into() },
            TodoItem { content: "WebSocket handler".into(), status: "in_progress".into() },
            TodoItem { content: "Frontend charts".into(), status: "pending".into() },
        ],
        decisions: vec!["Using Socket.io".into(), "Redis pub/sub".into()],
        last_error: Some("error[E0499]: cannot borrow as mutable".into()),
        last_output: Some("cargo check failed".into()),
        git_state: Some(GitState {
            branch: "feature/websocket".into(),
            status_summary: "3 uncommitted changes".into(),
            recent_commits: vec!["abc1234 Add ws skeleton".into()],
            diff_summary: "3 files changed".into(),
            uncommitted_files: vec!["M src/ws.rs".into(), "M Cargo.toml".into()],
        }),
        project_dir: "/tmp/test-project".into(),
        recent_files: vec!["M src/ws.rs".into()],
        timestamp: "2026-04-05 18:20:00".into(),
        deadline: Some("7:00 PM".into()),
        conversation: vec![
            ConversationTurn { role: "user".into(), content: "fix the websocket".into() },
            ConversationTurn { role: "assistant".into(), content: "I'll wrap state in Arc".into() },
            ConversationTurn { role: "assistant_tool".into(), content: "[Edit] src/ws.rs".into() },
            ConversationTurn { role: "tool_result".into(), content: "File updated".into() },
        ],
    }
}

#[test]
fn raw_template_is_conversation_only() {
    let snapshot = make_snapshot();
    let raw = build_raw(&snapshot);
    assert!(raw.contains("[USER]"));
    assert!(raw.contains("[ASSISTANT]"));
    assert!(!raw.contains("## GIT STATE"));
}

#[test]
fn raw_template_exact_text() {
    let snapshot = make_snapshot();
    assert_eq!(
        build_raw(&snapshot),
        "[USER] fix the websocket\n\n[ASSISTANT] I'll wrap state in Arc\n\n\
         [TOOL_CALL] [Edit] src/ws.rs\n\n[TOOL_OUTPUT] File updated\n\n"
    );
}

#[test]
fn raw_template_keeps_unknown_roles() {
    let mut snapshot = make_snapshot();
    snapshot.conversation = vec![ConversationTurn { role: "system".into(), content: "hi".into() }];
    assert_eq!(build_raw(&snapshot), "[system] hi\n\n");
}

#[test]
fn raw_template_without_conversation() {
    let mut snapshot = make_snapshot();
    snapshot.conversation.clear();
    assert_eq!(build_raw(&snapshot), "(no conversation captured)\n");
}

#[test]
fn minimal_template_contains_task() {
    let snapshot = make_snapshot();
    let minimal = build_minimal(&snapshot, "codex");
    assert!(minimal.contains("Fix the WebSocket"));
}

#[test]
fn minimal_template_exact_text() {
    let snapshot = make_snapshot();
    let expected = "══ RELAY HANDOFF (minimal) ═════════════════\n\
        Agent: codex | Project: /tmp/test-project\n\
        ═══════════════════════════════════════════\n\n\
        Task: Fix the WebSocket handler\n\n\
        Error: error[E0499]: cannot borrow as mutable\n\n\
        Branch: feature/websocket | 3 uncommitted changes\n\
        Last commit: abc1234 Add ws skeleton\n\
        \nContext restored. What would you like me to do?\n";
    assert_eq!(build_minimal(&snapshot, "codex"), expected);
}

#[test]
fn minimal_template_without_error_or_git() {
    let mut snapshot = make_snapshot();
    snapshot.last_error = None;
    snapshot.git_state = None;
    let minimal = build_minimal(&snapshot, "gemini");
    assert_eq!(
        minimal,
        "══ RELAY HANDOFF (minimal) ═════════════════\nAgent: gemini | Project: /tmp/test-project\n\
         ═══════════════════════════════════════════\n\nTask: Fix the WebSocket handler\n\n\
         \nContext restored. What would you like me to do?\n"
    );
}

#[test]
fn minimal_template_git_without_commits() {
    let mut snapshot = make_snapshot();
    snapshot.last_error = None;
    if let Some(git) = snapshot.git_state.as_mut() {
        git.recent_commits.clear();
    }
    let minimal = build_minimal(&snapshot, "codex");
    assert!(minimal.contains("Branch: feature/websocket | 3 uncommitted changes\n\nContext"));
    assert!(!minimal.contains("Last commit"));
}

#[test]
fn minimal_template_cuts_long_errors() {
    let mut snapshot = make_snapshot();
    snapshot.last_error = Some("x".repeat(400));
    let minimal = build_minimal(&snapshot, "codex");
    let expected = format!("Error: {}...\n\n", "x".repeat(300));
    assert!(minimal.contains(&expected));
    assert!(!minimal.contains(&"x".repeat(301)));
}

#[test]
fn truncate_keeps_short_text() {
    assert_eq!(truncate("hello", 5), "hello");
    assert_eq!(truncate("", 0), "");
}

#[test]
fn truncate_cuts_long_text() {
    assert_eq!(truncate("hello world", 5), "hello...");
    assert_eq!(truncate("abc", 0), "...");
}

#[test]
fn truncate_never_splits_a_character() {
    // "é" takes two bytes: a cut at byte 2 would fall inside it.
    assert_eq!(truncate("aéb", 2), "a...");
    assert_eq!(truncate("aéb", 3), "aé...");
    let cut = truncate("ééééé", 5);
    assert_eq!(cut, "éé...");
    assert!(cut.len() <= 5 + 3);
}

#[test]
fn template_names() {
    assert_eq!(Template::parse("minimal"), Template::Minimal);
    assert_eq!(Template::parse("MIN"), Template::Minimal);
    assert_eq!(Template::parse("Raw"), Template::Raw);
    assert_eq!(Template::parse("conversation"), Template::Raw);
    assert_eq!(Template::parse("full"), Template::Full);
    assert_eq!(Template::parse("anything"), Template::Full);
    assert_eq!(Template::parse(""), Template::Full);
}

#[test]
fn template_from_lowercase_is_case_sensitive() {
    assert_eq!(Template::from_lowercase("min"), Template::Minimal);
    assert_eq!(Template::from_lowercase("MIN"), Template::Full);
    assert_eq!(Template::from_lowercase("raw"), Template::Raw);
}
