//! `relay resume`: when the first agent comes back, tell it what happened
//! during the handoff — the original task, the commits and files changed
//! since, and a prompt to pick the work up again.

use vstd::prelude::*;

use crate::handoff_file::{
    handoff_stamp, handoff_time_of, is_handoff_name_exec, parse_handoff_timestamp,
    stamp_sliceable, DirEntryInfo,
};
use crate::diff::{after_epoch, latest_after_epoch};
use crate::history::{dated_handoff, history_order, mtime, shown_before};
use crate::text::{
    chars_of, contains, decimal, lemma_contains_middle, lemma_contains_within, decimal_string, find, find_window, lemma_find_some, lines, nonempty,
    nonempty_lines, opt_view, text_window, trim, trim_string, trim_window, views,
};

verus! {

/// What `relay resume` reports.
#[derive(Debug)]
pub struct ResumeReport {
    pub handoff_file: String,
    pub handoff_time: String,
    pub original_task: String,
    pub changes_since: Vec<String>,
    pub new_commits: Vec<String>,
    pub diff_stat: String,
    pub resume_prompt: String,
}

/// Why `relay resume` has no handoff to resume from.
#[derive(Debug, Clone, Copy, PartialEq, Eq, Structural)]
pub enum ResumeError {
    /// The project has no `.relay/` directory.
    NoRelayDir,
    /// `.relay/` holds no handoff file with a known modification time.
    NoHandoffFiles,
}

impl ResumeError {
    /// The message shown for the error.
    pub fn message(&self) -> (r: &'static str)
        ensures
            *self == ResumeError::NoRelayDir ==> r@
                == "No .relay/ directory found. Run 'relay handoff' first."@,
            *self == ResumeError::NoHandoffFiles ==> r@ == "No handoff files found in .relay/"@,
    {
        match self {
            ResumeError::NoRelayDir => "No .relay/ directory found. Run 'relay handoff' first.",
            ResumeError::NoHandoffFiles => "No handoff files found in .relay/",
        }
    }
}

/// Entry `i` is the latest handoff file: the first one whose modification
/// time no other handoff file exceeds.
pub open spec fn latest_handoff_at(es: Seq<DirEntryInfo>, i: int) -> bool {
    &&& dated_handoff(es, i)
    &&& forall|j: int| dated_handoff(es, j) ==> mtime(es, j) <= mtime(es, i)
    &&& forall|j: int| 0 <= j < i && dated_handoff(es, j) ==> mtime(es, j) < mtime(es, i)
}

/// The handoff `relay diff` compares against is the one `relay resume`
/// picks up, whenever a handoff file was modified after the epoch.
pub proof fn lemma_diff_and_resume_agree(es: Seq<DirEntryInfo>, i: int)
    requires
        latest_after_epoch(es, i),
    ensures
        latest_handoff_at(es, i),
{
    assert forall|j: int| dated_handoff(es, j) implies mtime(es, j) <= mtime(es, i) by {
        if mtime(es, j) > 0 {
            assert(after_epoch(es, j));
        }
    }
    assert forall|j: int| 0 <= j < i && dated_handoff(es, j) implies mtime(es, j) < mtime(
        es,
        i,
    ) by {
        if mtime(es, j) > 0 {
            assert(after_epoch(es, j));
        }
    }
}

/// The newest handoff that `relay history` lists first is the one
/// `relay resume` picks up.
pub proof fn lemma_history_starts_with_resumed(
    es: Seq<DirEntryInfo>,
    limit: usize,
    shown: Seq<usize>,
    i: int,
)
    requires
        es.len() <= usize::MAX,
        history_order(es, limit, shown),
        limit >= 1,
        latest_handoff_at(es, i),
    ensures
        shown.len() > 0,
        shown[0] == i,
{
    if !shown.contains(i as usize) {
        assert(shown.len() == limit);
        assert(shown_before(es, shown[0] as int, i));
        assert(dated_handoff(es, shown[0] as int));
    } else {
        let k = choose|k: int| 0 <= k < shown.len() && shown[k] == i as usize;
        if k > 0 {
            assert(shown_before(es, shown[0] as int, shown[k] as int));
            assert(dated_handoff(es, shown[0] as int));
        }
    }
}

/// The position of the latest handoff file in a `.relay/` listing (`None`:
/// there is no `.relay/` directory).
pub fn latest_handoff(listing: Option<&Vec<DirEntryInfo>>) -> (r: Result<usize, ResumeError>)
    ensures
        listing is None ==> r == Err::<usize, ResumeError>(ResumeError::NoRelayDir),
        listing matches Some(l) ==> match r {
            Ok(i) => latest_handoff_at(l@, i as int),
            Err(e) => e == ResumeError::NoHandoffFiles && forall|j: int|
                !dated_handoff(l@, j),
        },
{
    let l = match listing {
        None => {
            return Err(ResumeError::NoRelayDir);
        },
        Some(l) => l,
    };
    let ghost es = l@;
    let mut best: Option<(usize, i128)> = None;
    let mut i: usize = 0;
    while i < l.len()
        invariant
            es == l@,
            i <= l.len(),
            best is None ==> forall|j: int| 0 <= j < i ==> !dated_handoff(es, j),
            best matches Some(b) ==> {
                &&& b.0 < i
                &&& dated_handoff(es, b.0 as int)
                &&& b.1 == mtime(es, b.0 as int)
                &&& forall|j: int| 0 <= j < i && dated_handoff(es, j) ==> mtime(es, j) <= b.1
                &&& forall|j: int| 0 <= j < b.0 && dated_handoff(es, j) ==> mtime(es, j) < b.1
            },
        decreases l.len() - i,
    {
        if is_handoff_name_exec(l[i].name.as_str()) {
            if let Some(m) = l[i].modified {
                let newer = match best {
                    None => true,
                    Some(b) => m > b.1,
                };
                if newer {
                    best = Some((i, m));
                }
            }
        }
        i = i + 1;
    }
    match best {
        None => Err(ResumeError::NoHandoffFiles),
        Some(b) => Ok(b.0),
    }
}

/// The section under the first occurrence of `header`: the text after it up
/// to the next line that starts with `## ` (or the end), trimmed; `None`
/// when `header` is absent or the section is empty.
pub open spec fn section_after(content: Seq<char>, header: Seq<char>) -> Option<Seq<char>> {
    match find(content, header) {
        Some(start) => {
            let after = content.subrange(start + header.len(), content.len() as int);
            let end = match find(after, "\n## "@) {
                Some(e) => e,
                None => after.len() as int,
            };
            let section = trim(after.subrange(0, end));
            if section.len() == 0 {
                None
            } else {
                Some(section)
            }
        },
        None => None,
    }
}

/// The section of `content` under `header`, trimmed, up to the next `## `
/// heading; `None` when there is no such section or it is empty.
pub fn extract_section(content: &str, header: &str) -> (r: Option<String>)
    ensures
        opt_view(r) == section_after(content@, header@),
{
    let c = chars_of(content);
    let h = chars_of(header);
    assert(c@.subrange(0, c@.len() as int) =~= c@);
    let start = match find_window(&c, 0, c.len(), &h) {
        Some(s) => s,
        None => {
            return None;
        },
    };
    proof {
        lemma_find_some(content@, header@);
    }
    let from = start + h.len();
    let ghost after = content@.subrange(from as int, content@.len() as int);
    let marker = chars_of("\n## ");
    let end = match find_window(&c, from, c.len(), &marker) {
        Some(e) => {
            proof {
                lemma_find_some(after, "\n## "@);
            }
            e
        },
        None => c.len(),
    };
    let (a, b) = trim_window(&c, from, end);
    assert(after.subrange(0, end - from) =~= c@.subrange(from as int, end as int));
    if a < b {
        Some(text_window(content, a, b))
    } else {
        None
    }
}

/// Each item on a line of its own, indented by two spaces.
pub open spec fn bullet_list(items: Seq<Seq<char>>) -> Seq<char>
    decreases items.len(),
{
    if items.len() == 0 {
        seq![]
    } else {
        bullet_list(items.drop_last()) + "  "@ + items.last() + "\n"@
    }
}

/// Every item stands in a bullet list as a line of its own.
pub proof fn lemma_bullets_list_every_item(items: Seq<Seq<char>>, k: int)
    requires
        0 <= k < items.len(),
    ensures
        contains(bullet_list(items), "  "@ + items[k] + "\n"@),
    decreases items.len(),
{
    let rest = bullet_list(items.drop_last());
    if k == items.len() - 1 {
        assert(bullet_list(items) =~= rest + ("  "@ + items[k] + "\n"@) + Seq::<char>::empty());
        lemma_contains_middle(rest, "  "@ + items[k] + "\n"@, Seq::<char>::empty());
    } else {
        lemma_bullets_list_every_item(items.drop_last(), k);
        assert(items.drop_last()[k] == items[k]);
        let tail = "  "@ + items.last() + "\n"@;
        assert(bullet_list(items) =~= Seq::<char>::empty() + rest + tail);
        lemma_contains_within(Seq::<char>::empty(), rest, tail, "  "@ + items[k] + "\n"@);
    }
}

/// The prompt that hands the session back: original task, commits made
/// during the handoff, the changed files (their number, and at most twenty
/// of them), the diff summary, and instructions.
pub open spec fn resume_prompt(
    task: Seq<char>,
    changed: Seq<Seq<char>>,
    commits: Seq<Seq<char>>,
    diff_stat: Seq<char>,
    handoff_time: Seq<char>,
) -> Seq<char> {
    "══ RELAY RESUME ══════════════════════════════\nYou are resuming a session that was handed off at "@
        + handoff_time
        + ".\nA fallback agent continued the work. Here's what happened:\n══════════════════════════════════════════════\n\n## ORIGINAL TASK\n\n"@
        + task + "\n"@ + (if commits.len() > 0 {
        "\n## COMMITS MADE DURING HANDOFF\n\n"@ + bullet_list(commits)
    } else {
        seq![]
    }) + (if changed.len() > 0 {
        "\n## FILES CHANGED ("@ + decimal(changed.len()) + ")\n\n"@ + bullet_list(
            changed.take(if changed.len() < 20 {
                changed.len() as int
            } else {
                20
            }),
        )
    } else {
        seq![]
    }) + (if diff_stat.len() > 0 {
        "\n## DIFF SUMMARY\n\n"@ + diff_stat + "\n"@
    } else {
        seq![]
    })
        + "\n## INSTRUCTIONS\n\nReview what the fallback agent did above.\nContinue from the current state. Check if the original task is complete.\nIf not, finish it.\n"@
}

/// Every commit made during the handoff is listed in the resume prompt, as a
/// line of its own indented by two spaces.
pub proof fn lemma_prompt_lists_every_commit(
    task: Seq<char>,
    changed: Seq<Seq<char>>,
    commits: Seq<Seq<char>>,
    diff_stat: Seq<char>,
    handoff_time: Seq<char>,
    k: int,
)
    requires
        0 <= k < commits.len(),
    ensures
        contains(
            resume_prompt(task, changed, commits, diff_stat, handoff_time),
            "  "@ + commits[k] + "\n"@,
        ),
{
    let p = resume_prompt(task, changed, commits, diff_stat, handoff_time);
    let head = "══ RELAY RESUME ══════════════════════════════\nYou are resuming a session that was handed off at "@
        + handoff_time
        + ".\nA fallback agent continued the work. Here's what happened:\n══════════════════════════════════════════════\n\n## ORIGINAL TASK\n\n"@
        + task + "\n"@ + "\n## COMMITS MADE DURING HANDOFF\n\n"@;
    let tail = p.subrange((head.len() + bullet_list(commits).len()) as int, p.len() as int);
    assert(p =~= head + bullet_list(commits) + tail);
    lemma_bullets_list_every_item(commits, k);
    lemma_contains_within(head, bullet_list(commits), tail, "  "@ + commits[k] + "\n"@);
}

/// Each of the first twenty changed files is listed in the resume prompt, as
/// a line of its own indented by two spaces.
pub proof fn lemma_prompt_lists_changed_files(
    task: Seq<char>,
    changed: Seq<Seq<char>>,
    commits: Seq<Seq<char>>,
    diff_stat: Seq<char>,
    handoff_time: Seq<char>,
    k: int,
)
    requires
        0 <= k < changed.len(),
        k < 20,
    ensures
        contains(
            resume_prompt(task, changed, commits, diff_stat, handoff_time),
            "  "@ + changed[k] + "\n"@,
        ),
{
    let p = resume_prompt(task, changed, commits, diff_stat, handoff_time);
    let shown = changed.take(
        if changed.len() < 20 {
            changed.len() as int
        } else {
            20
        },
    );
    let head = "══ RELAY RESUME ══════════════════════════════\nYou are resuming a session that was handed off at "@
        + handoff_time
        + ".\nA fallback agent continued the work. Here's what happened:\n══════════════════════════════════════════════\n\n## ORIGINAL TASK\n\n"@
        + task + "\n"@ + (if commits.len() > 0 {
        "\n## COMMITS MADE DURING HANDOFF\n\n"@ + bullet_list(commits)
    } else {
        seq![]
    }) + "\n## FILES CHANGED ("@ + decimal(changed.len()) + ")\n\n"@;
    let tail = p.subrange((head.len() + bullet_list(shown).len()) as int, p.len() as int);
    assert(p =~= head + bullet_list(shown) + tail);
    assert(shown[k] == changed[k]);
    lemma_bullets_list_every_item(shown, k);
    lemma_contains_within(head, bullet_list(shown), tail, "  "@ + changed[k] + "\n"@);
}

/// Append `items[..n]` to `out`, one indented line each.
fn append_bullets(out: &mut String, items: &[String], n: usize)
    requires
        n <= items@.len(),
    ensures
        final(out)@ == old(out)@ + bullet_list(views(items@).take(n as int)),
{
    let ghost start = out@;
    let mut i: usize = 0;
    while i < n
        invariant
            n <= items@.len(),
            i <= n,
            out@ == start + bullet_list(views(items@).take(i as int)),
        decreases n - i,
    {
        out.append("  ");
        out.append(items[i].as_str());
        out.append("\n");
        assert(views(items@).take(i + 1).drop_last() =~= views(items@).take(i as int));
        assert(views(items@).take(i + 1).last() == items@[i as int]@);
        i = i + 1;
    }
}

/// Build the prompt that hands the session back to the agent that left it.
pub fn build_resume_prompt(
    task: &str,
    changed: &[String],
    commits: &[String],
    diff_stat: &str,
    handoff_time: &str,
) -> (r: String)
    ensures
        r@ == resume_prompt(task@, views(changed@), views(commits@), diff_stat@, handoff_time@),
        forall|k: int|
            0 <= k < commits@.len() ==> contains(r@, "  "@ + (#[trigger] commits@[k])@ + "\n"@),
        forall|k: int|
            0 <= k < changed@.len() && k < 20 ==> contains(
                r@,
                "  "@ + (#[trigger] changed@[k])@ + "\n"@,
            ),
{
    let r = resume_prompt_text(task, changed, commits, diff_stat, handoff_time);
    proof {
        assert forall|k: int| 0 <= k < commits@.len() implies contains(
            r@,
            "  "@ + (#[trigger] commits@[k])@ + "\n"@,
        ) by {
            lemma_prompt_lists_every_commit(
                task@,
                views(changed@),
                views(commits@),
                diff_stat@,
                handoff_time@,
                k,
            );
        }
        assert forall|k: int| 0 <= k < changed@.len() && k < 20 implies contains(
            r@,
            "  "@ + (#[trigger] changed@[k])@ + "\n"@,
        ) by {
            lemma_prompt_lists_changed_files(
                task@,
                views(changed@),
                views(commits@),
                diff_stat@,
                handoff_time@,
                k,
            );
        }
    }
    r
}

fn resume_prompt_text(
    task: &str,
    changed: &[String],
    commits: &[String],
    diff_stat: &str,
    handoff_time: &str,
) -> (r: String)
    ensures
        r@ == resume_prompt(task@, views(changed@), views(commits@), diff_stat@, handoff_time@),
{
    let mut prompt = String::from_str(
        "══ RELAY RESUME ══════════════════════════════\nYou are resuming a session that was handed off at ",
    );
    prompt.append(handoff_time);
    prompt.append(
        ".\nA fallback agent continued the work. Here's what happened:\n══════════════════════════════════════════════\n\n## ORIGINAL TASK\n\n",
    );
    prompt.append(task);
    prompt.append("\n");
    let ghost head = prompt@;
    if commits.len() > 0 {
        prompt.append("\n## COMMITS MADE DURING HANDOFF\n\n");
        append_bullets(&mut prompt, commits, commits.len());
        assert(views(commits@).take(commits@.len() as int) =~= views(commits@));
    }
    let ghost with_commits = prompt@;
    if changed.len() > 0 {
        prompt.append("\n## FILES CHANGED (");
        prompt.append(decimal_string(changed.len() as u64).as_str());
        prompt.append(")\n\n");
        let n = if changed.len() < 20 {
            changed.len()
        } else {
            20
        };
        append_bullets(&mut prompt, changed, n);
    }
    let ghost with_changed = prompt@;
    if !diff_stat.is_empty() {
        prompt.append("\n## DIFF SUMMARY\n\n");
        prompt.append(diff_stat);
        prompt.append("\n");
    }
    prompt.append(
        "\n## INSTRUCTIONS\n\nReview what the fallback agent did above.\nContinue from the current state. Check if the original task is complete.\nIf not, finish it.\n",
    );
    prompt
}

/// The report for `relay resume`, from the latest handoff file (its path,
/// its name and its content) and the output of `git diff --name-only HEAD`,
/// `git log --oneline -10 --since <handoff time>` and `git diff --stat HEAD`
/// (each empty when the command failed).
pub fn resume_report(
    handoff_file: String,
    filename: &str,
    content: &str,
    changed_output: &str,
    log_output: &str,
    diff_output: &str,
) -> (r: ResumeReport)
    requires
        stamp_sliceable(handoff_stamp(filename@)),
    ensures
        r.handoff_file@ == handoff_file@,
        r.handoff_time@ == handoff_time_of(filename@),
        r.original_task@ == match section_after(content@, "## CURRENT TASK"@) {
            Some(task) => task,
            None => "Unknown"@,
        },
        views(r.changes_since@) == nonempty(lines(changed_output@)),
        views(r.new_commits@) == nonempty(lines(log_output@)),
        r.diff_stat@ == trim(diff_output@),
        r.resume_prompt@ == resume_prompt(
            r.original_task@,
            views(r.changes_since@),
            views(r.new_commits@),
            r.diff_stat@,
            r.handoff_time@,
        ),
{
    let handoff_time = parse_handoff_timestamp(filename);
    let original_task = match extract_section(content, "## CURRENT TASK") {
        Some(task) => task,
        None => String::from_str("Unknown"),
    };
    let changes_since = nonempty_lines(changed_output);
    let new_commits = nonempty_lines(log_output);
    let diff_stat = trim_string(diff_output);
    let resume_prompt = build_resume_prompt(
        original_task.as_str(),
        changes_since.as_slice(),
        new_commits.as_slice(),
        diff_stat.as_str(),
        handoff_time.as_str(),
    );
    ResumeReport {
        handoff_file,
        handoff_time,
        original_task,
        changes_since,
        new_commits,
        diff_stat,
        resume_prompt,
    }
}

} // verus!
