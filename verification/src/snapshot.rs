//! The captured session that a handoff is built from.

use vstd::prelude::*;

verus! {

/// One entry of the agent's todo list.
#[derive(Debug)]
pub struct TodoItem {
    pub content: String,
    pub status: String,
}

/// The state of the project's git repository.
#[derive(Debug)]
pub struct GitState {
    pub branch: String,
    pub status_summary: String,
    pub recent_commits: Vec<String>,
    pub diff_summary: String,
    pub uncommitted_files: Vec<String>,
}

/// One turn of the captured conversation (`user`, `assistant`,
/// `assistant_tool`, `tool_result`, or another role).
#[derive(Debug)]
pub struct ConversationTurn {
    pub role: String,
    pub content: String,
}

/// Everything captured from a session at handoff time.
#[derive(Debug)]
pub struct SessionSnapshot {
    pub current_task: String,
    pub todos: Vec<TodoItem>,
    pub decisions: Vec<String>,
    pub last_error: Option<String>,
    pub last_output: Option<String>,
    pub git_state: Option<GitState>,
    pub project_dir: String,
    pub recent_files: Vec<String>,
    pub timestamp: String,
    pub deadline: Option<String>,
    pub conversation: Vec<ConversationTurn>,
}

} // verus!
