//! Handoff templates: how much of the session a handoff carries.

use vstd::prelude::*;

use crate::snapshot::{ConversationTurn, SessionSnapshot};
use crate::text::{
    byte_len, byte_slice, contains, is_boundary, lemma_contains_middle, lemma_occurs_contains, lemma_byte_slice_len, lemma_encode_concat,
    lemma_start_is_boundary, slice_bytes, text_eq,
};
use vstd::utf8::is_ascii_chars_encode_utf8;

verus! {

/// The available handoff templates.
#[derive(Debug, Clone, Copy, PartialEq, Eq, Structural)]
pub enum Template {
    /// Everything: conversation, git, todos, errors, decisions.
    Full,
    /// Just the task, the last error and the git status.
    Minimal,
    /// Only the conversation turns, without formatting.
    Raw,
}

/// What `str::to_lowercase` returns for a text (Unicode lowercase mapping).
pub uninterp spec fn lowercase(s: Seq<char>) -> Seq<char>;

/// Calls `str::to_lowercase`; claims only that the result is the lowercase
/// mapping of the argument, named `lowercase`. The Unicode mapping itself is
/// not written out.
#[verifier::external_body]
fn to_lowercase(s: &str) -> (r: String)
    ensures
        r@ == lowercase(s@),
{
    s.to_lowercase()
}

/// The template that a lowercased template name selects.
pub open spec fn template_named(lower: Seq<char>) -> Template {
    if lower == "minimal"@ || lower == "min"@ {
        Template::Minimal
    } else if lower == "raw"@ || lower == "conversation"@ {
        Template::Raw
    } else {
        Template::Full
    }
}

impl Template {
    /// The template for a name that is already lowercase: `minimal` or `min`
    /// is `Minimal`, `raw` or `conversation` is `Raw`, anything else `Full`.
    pub fn from_lowercase(lower: &str) -> (t: Template)
        ensures
            t == template_named(lower@),
    {
        if text_eq(lower, "minimal") || text_eq(lower, "min") {
            Template::Minimal
        } else if text_eq(lower, "raw") || text_eq(lower, "conversation") {
            Template::Raw
        } else {
            Template::Full
        }
    }

    /// The template a user asked for, by name in any case.
    pub fn parse(s: &str) -> (t: Template)
        ensures
            t == template_named(lowercase(s@)),
    {
        let lower = to_lowercase(s);
        Template::from_lowercase(lower.as_str())
    }
}

/// The largest character boundary of `s` at or below byte offset `i`.
pub open spec fn floor_boundary(s: Seq<char>, i: int) -> int
    decreases i,
{
    if i <= 0 {
        0
    } else if is_boundary(s, i) {
        i
    } else {
        floor_boundary(s, i - 1)
    }
}

/// `s` when it has at most `max` bytes; otherwise its longest prefix of at
/// most `max` bytes that ends on a character boundary, followed by `...`.
pub open spec fn truncated(s: Seq<char>, max: int) -> Seq<char> {
    if byte_len(s) <= max {
        s
    } else {
        byte_slice(s, 0, floor_boundary(s, max)) + "..."@
    }
}

/// Shorten `s` to at most `max` bytes (plus `...`), never splitting a character.
pub fn truncate(s: &str, max: usize) -> (r: String)
    ensures
        r@ == truncated(s@, max as int),
        byte_len(r@) <= max + 3,
{
    if s.as_bytes().len() <= max {
        return String::from_str(s);
    }
    let mut end = max;
    while end > 0 && !s.is_char_boundary(end)
        invariant
            end <= max,
            floor_boundary(s@, max as int) == floor_boundary(s@, end as int),
        decreases end,
    {
        end = end - 1;
    }
    proof {
        lemma_start_is_boundary(s@);
        lemma_byte_slice_len(s@, 0, end as int);
        lemma_encode_concat(byte_slice(s@, 0, end as int), "..."@);
        reveal_strlit("...");
        is_ascii_chars_encode_utf8("..."@);
    }
    let mut out = String::from_str(slice_bytes(s, 0, end));
    out.append("...");
    out
}

/// The minimal handoff: header, task, last error (cut to 300 bytes) and git summary.
pub open spec fn minimal_text(snapshot: SessionSnapshot, target: Seq<char>) -> Seq<char> {
    "══ RELAY HANDOFF (minimal) ═════════════════\nAgent: "@ + target + " | Project: "@
        + snapshot.project_dir@ + "\n═══════════════════════════════════════════\n\n"@
        + "Task: "@ + snapshot.current_task@ + "\n\n"@ + match snapshot.last_error {
        Some(err) => "Error: "@ + truncated(err@, 300) + "\n\n"@,
        None => seq![],
    } + match snapshot.git_state {
        Some(git) => "Branch: "@ + git.branch@ + " | "@ + git.status_summary@ + "\n"@ + if git.recent_commits@.len()
            > 0 {
            "Last commit: "@ + git.recent_commits@[0]@ + "\n"@
        } else {
            seq![]
        },
        None => seq![],
    } + "\nContext restored. What would you like me to do?\n"@
}

/// The minimal handoff always carries the task.
pub proof fn lemma_minimal_names_task(snapshot: SessionSnapshot, target: Seq<char>)
    ensures
        contains(minimal_text(snapshot, target), snapshot.current_task@),
{
    let task = snapshot.current_task@;
    let pre = "══ RELAY HANDOFF (minimal) ═════════════════\nAgent: "@ + target + " | Project: "@
        + snapshot.project_dir@ + "\n═══════════════════════════════════════════\n\n"@
        + "Task: "@;
    assert(minimal_text(snapshot, target).subrange(
        pre.len() as int,
        (pre.len() + task.len()) as int,
    )
        =~= task);
    lemma_occurs_contains(minimal_text(snapshot, target), task, pre.len() as int);
}

/// When the git state has recent commits, the minimal handoff names the
/// first of them (the newest, as `git log` lists them) as the last commit.
pub proof fn lemma_minimal_names_newest_commit(snapshot: SessionSnapshot, target: Seq<char>)
    requires
        snapshot.git_state is Some,
        snapshot.git_state->0.recent_commits@.len() > 0,
    ensures
        contains(
            minimal_text(snapshot, target),
            "Last commit: "@ + snapshot.git_state->0.recent_commits@[0]@ + "\n"@,
        ),
{
    let git = snapshot.git_state->0;
    let piece = "Last commit: "@ + git.recent_commits@[0]@ + "\n"@;
    let err_part = match snapshot.last_error {
        Some(err) => "Error: "@ + truncated(err@, 300) + "\n\n"@,
        None => seq![],
    };
    let pre = "══ RELAY HANDOFF (minimal) ═════════════════\nAgent: "@ + target + " | Project: "@
        + snapshot.project_dir@ + "\n═══════════════════════════════════════════\n\n"@
        + "Task: "@ + snapshot.current_task@ + "\n\n"@ + err_part + ("Branch: "@ + git.branch@
        + " | "@ + git.status_summary@ + "\n"@);
    let post = "\nContext restored. What would you like me to do?\n"@;
    assert(minimal_text(snapshot, target) =~= pre + piece + post);
    lemma_contains_middle(pre, piece, post);
}

/// Build the handoff with the minimal template: task, error and git only.
pub fn build_minimal(snapshot: &SessionSnapshot, target: &str) -> (r: String)
    ensures
        r@ == minimal_text(*snapshot, target@),
        snapshot.git_state is Some && snapshot.git_state->0.recent_commits@.len() > 0 ==> contains(
            r@,
            "Last commit: "@ + snapshot.git_state->0.recent_commits@[0]@ + "\n"@,
        ),
{
    let out = minimal_handoff_text(snapshot, target);
    proof {
        if snapshot.git_state is Some && snapshot.git_state->0.recent_commits@.len() > 0 {
            lemma_minimal_names_newest_commit(*snapshot, target@);
        }
    }
    out
}

fn minimal_handoff_text(snapshot: &SessionSnapshot, target: &str) -> (r: String)
    ensures
        r@ == minimal_text(*snapshot, target@),
{
    let mut out = String::from_str("══ RELAY HANDOFF (minimal) ═════════════════\nAgent: ");
    out.append(target);
    out.append(" | Project: ");
    out.append(snapshot.project_dir.as_str());
    out.append("\n═══════════════════════════════════════════\n\n");
    out.append("Task: ");
    out.append(snapshot.current_task.as_str());
    out.append("\n\n");
    let ghost head = out@;
    match &snapshot.last_error {
        Some(err) => {
            out.append("Error: ");
            let cut = truncate(err.as_str(), 300);
            out.append(cut.as_str());
            out.append("\n\n");
        },
        None => {},
    }
    let ghost with_error = out@;
    match &snapshot.git_state {
        Some(git) => {
            out.append("Branch: ");
            out.append(git.branch.as_str());
            out.append(" | ");
            out.append(git.status_summary.as_str());
            out.append("\n");
            if git.recent_commits.len() > 0 {
                out.append("Last commit: ");
                out.append(git.recent_commits[0].as_str());
                out.append("\n");
            }
        },
        None => {},
    }
    out.append("\nContext restored. What would you like me to do?\n");
    out
}

/// The label a raw handoff shows for a conversation role.
pub open spec fn role_label(role: Seq<char>) -> Seq<char> {
    if role == "user"@ {
        "USER"@
    } else if role == "assistant"@ {
        "ASSISTANT"@
    } else if role == "assistant_tool"@ {
        "TOOL_CALL"@
    } else if role == "tool_result"@ {
        "TOOL_OUTPUT"@
    } else {
        role
    }
}

/// One conversation turn as the raw template writes it: `[LABEL] content`.
pub open spec fn turn_text(turn: ConversationTurn) -> Seq<char> {
    "["@ + role_label(turn.role@) + "] "@ + turn.content@ + "\n\n"@
}

/// The turns, one after another.
pub open spec fn turns_text(turns: Seq<ConversationTurn>) -> Seq<char>
    decreases turns.len(),
{
    if turns.len() == 0 {
        seq![]
    } else {
        turns_text(turns.drop_last()) + turn_text(turns.last())
    }
}

/// The turns of two conversations, one after the other, read as the turns
/// of the first followed by those of the second.
pub proof fn lemma_turns_text_concat(a: Seq<ConversationTurn>, b: Seq<ConversationTurn>)
    ensures
        turns_text(a + b) == turns_text(a) + turns_text(b),
    decreases b.len(),
{
    if b.len() == 0 {
        assert(a + b =~= a);
        assert(turns_text(a) + turns_text(b) =~= turns_text(a));
    } else {
        lemma_turns_text_concat(a, b.drop_last());
        assert((a + b).drop_last() =~= a + b.drop_last());
        assert((a + b).last() == b.last());
        assert(turns_text(a + b) =~= turns_text(a) + turns_text(b));
    }
}

/// The raw handoff: the turns, or a note that none were captured.
pub open spec fn raw_text(turns: Seq<ConversationTurn>) -> Seq<char> {
    if turns.len() == 0 {
        "(no conversation captured)\n"@
    } else {
        turns_text(turns)
    }
}

/// The raw handoff of a conversation is the raw handoff of its first part
/// followed by that of the rest: every turn is written, in order.
pub proof fn lemma_raw_concat(a: Seq<ConversationTurn>, b: Seq<ConversationTurn>)
    requires
        a.len() > 0,
        b.len() > 0,
    ensures
        raw_text(a + b) == raw_text(a) + raw_text(b),
{
    lemma_turns_text_concat(a, b);
}

/// Every turn of a conversation appears in its raw handoff as
/// `[LABEL] content` followed by a blank line.
pub proof fn lemma_raw_has_every_turn(turns: Seq<ConversationTurn>, k: int)
    requires
        0 <= k < turns.len(),
    ensures
        contains(
            raw_text(turns),
            "["@ + role_label(turns[k].role@) + "] "@ + turns[k].content@ + "\n\n"@,
        ),
{
    let before = turns.take(k);
    let one = seq![turns[k]];
    let after = turns.skip(k + 1);
    assert(turns =~= before + one + after);
    lemma_turns_text_concat(before + one, after);
    lemma_turns_text_concat(before, one);
    assert(one.drop_last() =~= Seq::<ConversationTurn>::empty());
    assert(turns_text(one.drop_last()) =~= Seq::<char>::empty());
    assert(one.last() == turns[k]);
    assert(turns_text(one) =~= turn_text(turns[k]));
    lemma_contains_middle(turns_text(before), turn_text(turns[k]), turns_text(after));
}

fn role_label_exec(role: &str) -> (r: &str)
    ensures
        r@ == role_label(role@),
{
    if text_eq(role, "user") {
        "USER"
    } else if text_eq(role, "assistant") {
        "ASSISTANT"
    } else if text_eq(role, "assistant_tool") {
        "TOOL_CALL"
    } else if text_eq(role, "tool_result") {
        "TOOL_OUTPUT"
    } else {
        role
    }
}

/// Build the handoff with the raw template: just the conversation turns.
pub fn build_raw(snapshot: &SessionSnapshot) -> (r: String)
    ensures
        r@ == raw_text(snapshot.conversation@),
        r@.len() > 0,
        forall|k: int|
            0 <= k < snapshot.conversation@.len() ==> contains(
                r@,
                "["@ + role_label((#[trigger] snapshot.conversation@[k]).role@) + "] "@
                    + snapshot.conversation@[k].content@ + "\n\n"@,
            ),
{
    proof {
        assert forall|k: int| 0 <= k < snapshot.conversation@.len() implies contains(
            raw_text(snapshot.conversation@),
            "["@ + role_label((#[trigger] snapshot.conversation@[k]).role@) + "] "@
                + snapshot.conversation@[k].content@ + "\n\n"@,
        ) by {
            lemma_raw_has_every_turn(snapshot.conversation@, k);
        }
    }
    let turns = &snapshot.conversation;
    if turns.len() == 0 {
        proof {
            reveal_strlit("(no conversation captured)\n");
        }
        return String::from_str("(no conversation captured)\n");
    }
    let mut out = String::new();
    let mut i: usize = 0;
    while i < turns.len()
        invariant
            i <= turns.len(),
            out@ == turns_text(turns@.take(i as int)),
        decreases turns.len() - i,
    {
        let turn = &turns[i];
        out.append("[");
        out.append(role_label_exec(turn.role.as_str()));
        out.append("] ");
        out.append(turn.content.as_str());
        out.append("\n\n");
        assert(turns@.take(i + 1).drop_last() =~= turns@.take(i as int));
        i = i + 1;
    }
    assert(turns@.take(turns.len() as int) =~= turns@);
    proof {
        reveal_strlit("[");
        assert(turn_text(turns@.last()).len() > 0);
    }
    out
}

} // verus!
