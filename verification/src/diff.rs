//! `relay diff`: what changed in the project since the last handoff.

use vstd::prelude::*;

use crate::handoff_file::{
    handoff_stamp, is_handoff_name_exec, parse_timestamp, stamp_sliceable, timestamp_of,
    DirEntryInfo,
};
use crate::history::{dated_handoff, mtime};
use crate::text::{
    chars_of, lines, nonempty, nonempty_lines, trim, trim_string, trim_window, views,
};

verus! {

/// What changed since the last handoff.
#[derive(Debug)]
pub struct DiffReport {
    pub handoff_time: String,
    pub changed_files: Vec<String>,
    pub new_commits: Vec<String>,
    pub diff_stat: String,
    pub files_added: usize,
    pub files_modified: usize,
    pub files_deleted: usize,
}

/// Why `relay diff` has nothing to compare against.
#[derive(Debug, Clone, Copy, PartialEq, Eq, Structural)]
pub enum DiffError {
    /// The project has no `.relay/` directory.
    NoRelayDir,
    /// `.relay/` holds no handoff file with a usable time.
    NoHandoffFiles,
}

impl DiffError {
    /// The message shown for the error.
    pub fn message(&self) -> (r: &'static str)
        ensures
            *self == DiffError::NoRelayDir ==> r@
                == "No .relay/ directory found. Run 'relay handoff' first."@,
            *self == DiffError::NoHandoffFiles ==> r@ == "No handoff files found."@,
    {
        match self {
            DiffError::NoRelayDir => "No .relay/ directory found. Run 'relay handoff' first.",
            DiffError::NoHandoffFiles => "No handoff files found.",
        }
    }
}

/// A handoff file modified after the Unix epoch.
pub open spec fn after_epoch(es: Seq<DirEntryInfo>, i: int) -> bool {
    dated_handoff(es, i) && mtime(es, i) > 0
}

/// Entry `i` was modified later than every earlier handoff file after the
/// epoch: it is the latest one seen so far when the listing is read in order.
pub open spec fn newest_so_far(es: Seq<DirEntryInfo>, i: int) -> bool {
    after_epoch(es, i) && forall|j: int| 0 <= j < i && after_epoch(es, j) ==> mtime(es, j) < mtime(
        es,
        i,
    )
}

/// Entry `i` is the latest handoff: the first handoff file after the epoch
/// whose modification time no other one exceeds.
pub open spec fn latest_after_epoch(es: Seq<DirEntryInfo>, i: int) -> bool {
    newest_so_far(es, i) && forall|j: int| after_epoch(es, j) ==> mtime(es, j) <= mtime(es, i)
}

/// The time of the latest handoff in a `.relay/` listing (`None`: there is
/// no `.relay/` directory), as `relay diff` compares against it.
pub fn latest_handoff_time(listing: Option<&Vec<DirEntryInfo>>) -> (r: Result<String, DiffError>)
    requires
        listing matches Some(l) ==> forall|i: int|
            newest_so_far(l@, i) ==> stamp_sliceable(handoff_stamp(#[trigger] l@[i].name@)),
    ensures
        listing is None ==> r == Err::<String, DiffError>(DiffError::NoRelayDir),
        listing matches Some(l) ==> {
            &&& r is Ok <==> exists|i: int|
                latest_after_epoch(l@, i) && timestamp_of(#[trigger] l@[i].name@).len() > 0
            &&& r is Err ==> r == Err::<String, DiffError>(DiffError::NoHandoffFiles)
            &&& forall|i: int|
                latest_after_epoch(l@, i) ==> (r matches Ok(t) ==> t@ == timestamp_of(
                    #[trigger] l@[i].name@,
                ))
        },
{
    let l = match listing {
        None => {
            return Err(DiffError::NoRelayDir);
        },
        Some(l) => l,
    };
    let ghost es = l@;
    let mut best: Option<usize> = None;
    let mut best_m: i128 = 0;
    let mut i: usize = 0;
    while i < l.len()
        invariant
            es == l@,
            i <= l.len(),
            best is None ==> best_m == 0 && forall|j: int| 0 <= j < i ==> !after_epoch(es, j),
            best matches Some(b) ==> {
                &&& b < i
                &&& newest_so_far(es, b as int)
                &&& best_m == mtime(es, b as int)
                &&& forall|j: int| 0 <= j < i && after_epoch(es, j) ==> mtime(es, j) <= best_m
            },
        decreases l.len() - i,
    {
        if is_handoff_name_exec(l[i].name.as_str()) {
            if let Some(m) = l[i].modified {
                if m > best_m {
                    best = Some(i);
                    best_m = m;
                }
            }
        }
        i = i + 1;
    }
    match best {
        None => Err(DiffError::NoHandoffFiles),
        Some(b) => {
            proof {
                assert(latest_after_epoch(es, b as int));
                assert forall|k: int| latest_after_epoch(es, k) implies k == b by {
                    if k < b {
                        assert(mtime(es, k) < mtime(es, b as int));
                    } else if k > b {
                        assert(mtime(es, b as int) < mtime(es, k));
                    }
                }
            }
            let t = parse_timestamp(l[b].name.as_str());
            if t.as_str().is_empty() {
                Err(DiffError::NoHandoffFiles)
            } else {
                Ok(t)
            }
        },
    }
}

/// The first character of a trimmed `git status --short` line, or a space.
pub open spec fn status_letter(line: Seq<char>) -> char {
    let t = trim(line);
    if t.len() > 0 {
        t[0]
    } else {
        ' '
    }
}

/// A status line counts as an added file (`A`, or `?` for untracked).
pub open spec fn is_added(line: Seq<char>) -> bool {
    status_letter(line) == 'A' || status_letter(line) == '?'
}

/// A status line counts as a deleted file (`D`).
pub open spec fn is_deleted(line: Seq<char>) -> bool {
    status_letter(line) == 'D'
}

/// A status line counts as a modified file: `M` and every other letter.
pub open spec fn is_modified(line: Seq<char>) -> bool {
    !is_added(line) && !is_deleted(line)
}

/// A `git status --short` line is classified by the first character of the
/// trimmed line alone: `A` or `?` is an added file, `D` a deleted one, and
/// every other character (or a blank line) a modified one.
pub proof fn lemma_status_classes(line: Seq<char>)
    ensures
        trim(line).len() > 0 ==> {
            &&& is_added(line) <==> (trim(line)[0] == 'A' || trim(line)[0] == '?')
            &&& is_deleted(line) <==> trim(line)[0] == 'D'
            &&& is_modified(line) <==> (trim(line)[0] != 'A' && trim(line)[0] != '?'
                && trim(line)[0] != 'D')
        },
        trim(line).len() == 0 ==> is_modified(line) && !is_added(line) && !is_deleted(line),
{
}

/// Counting a single status line: it adds one to exactly one of the three
/// counts, the one its first non-blank character selects.
pub proof fn lemma_count_single_line(line: Seq<char>)
    ensures
        count_lines(seq![line], |l: Seq<char>| is_added(l)) == (if trim(line).len() > 0 && (trim(
            line,
        )[0] == 'A' || trim(line)[0] == '?') {
            1nat
        } else {
            0nat
        }),
        count_lines(seq![line], |l: Seq<char>| is_deleted(l)) == (if trim(line).len() > 0
            && trim(line)[0] == 'D' {
            1nat
        } else {
            0nat
        }),
        count_lines(seq![line], |l: Seq<char>| is_added(l)) + count_lines(
            seq![line],
            |l: Seq<char>| is_modified(l),
        ) + count_lines(seq![line], |l: Seq<char>| is_deleted(l)) == 1,
{
    let one = seq![line];
    assert(one.drop_last() =~= Seq::<Seq<char>>::empty());
    assert(one.last() == line);
    lemma_status_classes(line);
    let added = |l: Seq<char>| is_added(l);
    let modified = |l: Seq<char>| is_modified(l);
    let deleted = |l: Seq<char>| is_deleted(l);
    assert(count_lines(one.drop_last(), added) == 0);
    assert(count_lines(one.drop_last(), modified) == 0);
    assert(count_lines(one.drop_last(), deleted) == 0);
    assert(count_lines(one, added) == if added(line) { 1nat } else { 0nat });
    assert(count_lines(one, modified) == if modified(line) { 1nat } else { 0nat });
    assert(count_lines(one, deleted) == if deleted(line) { 1nat } else { 0nat });
}

/// How many of the lines satisfy `pred`.
pub open spec fn count_lines(ls: Seq<Seq<char>>, pred: spec_fn(Seq<char>) -> bool) -> nat
    decreases ls.len(),
{
    if ls.len() == 0 {
        0
    } else {
        count_lines(ls.drop_last(), pred) + if pred(ls.last()) {
            1nat
        } else {
            0nat
        }
    }
}

/// Count the added, modified and deleted files among `git status --short` lines.
pub fn count_changes(changed: &Vec<String>) -> (r: (usize, usize, usize))
    ensures
        r.0 == count_lines(views(changed@), |l: Seq<char>| is_added(l)),
        r.1 == count_lines(views(changed@), |l: Seq<char>| is_modified(l)),
        r.2 == count_lines(views(changed@), |l: Seq<char>| is_deleted(l)),
        r.0 + r.1 + r.2 == changed.len(),
{
    let ghost ls = views(changed@);
    let mut added: usize = 0;
    let mut modified: usize = 0;
    let mut deleted: usize = 0;
    let mut i: usize = 0;
    while i < changed.len()
        invariant
            ls == views(changed@),
            i <= changed.len(),
            added + modified + deleted == i,
            added == count_lines(ls.take(i as int), |l: Seq<char>| is_added(l)),
            modified == count_lines(ls.take(i as int), |l: Seq<char>| is_modified(l)),
            deleted == count_lines(ls.take(i as int), |l: Seq<char>| is_deleted(l)),
        decreases changed.len() - i,
    {
        let v = chars_of(changed[i].as_str());
        assert(v@.subrange(0, v@.len() as int) =~= v@);
        let (a, b) = trim_window(&v, 0, v.len());
        let letter = if a < b {
            v[a]
        } else {
            ' '
        };
        assert(ls.take(i + 1).drop_last() =~= ls.take(i as int));
        assert(ls.take(i + 1).last() == changed@[i as int]@);
        if letter == 'A' || letter == '?' {
            added = added + 1;
        } else if letter == 'D' {
            deleted = deleted + 1;
        } else {
            modified = modified + 1;
        }
        i = i + 1;
    }
    assert(ls.take(changed.len() as int) =~= ls);
    (added, modified, deleted)
}

/// The report for `relay diff`, from the handoff time and the output of
/// `git status --short`, `git log --oneline -10 --since <time>` and
/// `git diff --stat` (each empty when the command failed).
pub fn diff_report(
    handoff_time: String,
    status_output: &str,
    log_output: &str,
    diff_output: &str,
) -> (r: DiffReport)
    ensures
        r.handoff_time@ == handoff_time@,
        views(r.changed_files@) == nonempty(lines(status_output@)),
        views(r.new_commits@) == nonempty(lines(log_output@)),
        r.diff_stat@ == trim(diff_output@),
        r.files_added == count_lines(views(r.changed_files@), |l: Seq<char>| is_added(l)),
        r.files_modified == count_lines(views(r.changed_files@), |l: Seq<char>| is_modified(l)),
        r.files_deleted == count_lines(views(r.changed_files@), |l: Seq<char>| is_deleted(l)),
        r.files_added + r.files_modified + r.files_deleted == r.changed_files.len(),
{
    let changed_files = nonempty_lines(status_output);
    let (files_added, files_modified, files_deleted) = count_changes(&changed_files);
    let new_commits = nonempty_lines(log_output);
    DiffReport {
        handoff_time,
        changed_files,
        new_commits,
        diff_stat: trim_string(diff_output),
        files_added,
        files_modified,
        files_deleted,
    }
}

} // verus!
