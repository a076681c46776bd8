//! `relay history`: the past handoffs, newest first, with the agent and task
//! that each one names.

use vstd::prelude::*;

use crate::handoff_file::{
    handoff_stamp, is_handoff_name, is_handoff_name_exec, parse_timestamp, stamp_sliceable,
    timestamp_of, DirEntryInfo,
};
use crate::text::{
    byte_len, byte_slice, chars_of, contains, find, find_window, is_boundary, lemma_byte_slice_len,
    lemma_find_some, lemma_start_is_boundary, line_at, line_end, lines, lines_from,
    newline_index, opt_view, slice_bytes, starts_with, starts_with_window, text_window, trim,
    trim_window,
};

verus! {

/// One past handoff as `relay history` lists it.
#[derive(Debug)]
pub struct HandoffEntry {
    pub filename: String,
    pub timestamp: String,
    pub agent: String,
    pub task: String,
}

/// The value of `field` on a line: the trimmed text after the line's first
/// `:`, when the line mentions `field`, has a `:`, and that text is not empty.
pub open spec fn field_value(line: Seq<char>, field: Seq<char>) -> Option<Seq<char>> {
    match find(line, ":"@) {
        Some(k) => {
            let value = trim(line.subrange(k + 1, line.len() as int));
            if contains(line, field) && value.len() > 0 {
                Some(value)
            } else {
                None
            }
        },
        None => None,
    }
}

/// The value of `field` on the first line that gives one.
pub open spec fn field_in_lines(ls: Seq<Seq<char>>, field: Seq<char>) -> Option<Seq<char>>
    decreases ls.len(),
{
    if ls.len() == 0 {
        None
    } else {
        match field_value(ls[0], field) {
            Some(value) => Some(value),
            None => field_in_lines(ls.drop_first(), field),
        }
    }
}

/// A field's value is never empty.
pub proof fn lemma_field_value_nonempty(ls: Seq<Seq<char>>, field: Seq<char>)
    ensures
        field_in_lines(ls, field) matches Some(v) ==> v.len() > 0,
    decreases ls.len(),
{
    if ls.len() > 0 {
        lemma_field_value_nonempty(ls.drop_first(), field);
    }
}

/// The first trimmed line that is neither empty, nor a `#` heading, nor a
/// `──` rule.
pub open spec fn first_plain_line(ls: Seq<Seq<char>>) -> Option<Seq<char>>
    decreases ls.len(),
{
    if ls.len() == 0 {
        None
    } else {
        let t = trim(ls[0]);
        if t.len() > 0 && !starts_with(t, "#"@) && !starts_with(t, "──"@) {
            Some(t)
        } else {
            first_plain_line(ls.drop_first())
        }
    }
}

/// The first plain line after the first occurrence of `header`, or `unknown`.
pub open spec fn first_line_after(content: Seq<char>, header: Seq<char>) -> Seq<char> {
    match find(content, header) {
        Some(p) => match first_plain_line(
            lines(content.subrange(p + header.len(), content.len() as int)),
        ) {
            Some(t) => t,
            None => "unknown"@,
        },
        None => "unknown"@,
    }
}

/// The first plain line is the trimmed `k`-th line when every line before it
/// is blank, a heading or a rule and the `k`-th is none of these: only lines
/// that start with `#` or `──` are skipped, whatever else they contain.
pub proof fn lemma_first_plain_line_is_first_unskipped(ls: Seq<Seq<char>>, k: int)
    requires
        0 <= k < ls.len(),
        forall|j: int|
            0 <= j < k ==> {
                let t = trim(#[trigger] ls[j]);
                t.len() == 0 || t[0] == '#' || (t.len() >= 2 && t[0] == '─' && t[1] == '─')
            },
        ({
            let t = trim(ls[k]);
            t.len() > 0 && t[0] != '#' && !(t.len() >= 2 && t[0] == '─' && t[1] == '─')
        }),
    ensures
        first_plain_line(ls) == Some(trim(ls[k])),
    decreases k,
{
    reveal_strlit("#");
    reveal_strlit("──");
    let t0 = trim(ls[0]);
    if t0.len() > 0 {
        assert(starts_with(t0, "#"@) <==> t0[0] == '#') by {
            reveal_strlit("#");
            assert(t0.subrange(0, 1)[0] == t0[0]);
            if t0[0] == '#' {
                assert(t0.subrange(0, 1) =~= "#"@);
            }
        }
        assert(starts_with(t0, "──"@) <==> (t0.len() >= 2 && t0[0] == '─' && t0[1] == '─')) by {
            reveal_strlit("──");
            if t0.len() >= 2 {
                assert(t0.subrange(0, 2)[0] == t0[0]);
                assert(t0.subrange(0, 2)[1] == t0[1]);
            }
            if t0.len() >= 2 && t0[0] == '─' && t0[1] == '─' {
                assert(t0.subrange(0, 2) =~= "──"@);
            }
        }
    }
    if k > 0 {
        assert forall|j: int| 0 <= j < k - 1 implies {
            let t = trim(#[trigger] ls.drop_first()[j]);
            t.len() == 0 || t[0] == '#' || (t.len() >= 2 && t[0] == '─' && t[1] == '─')
        } by {
            assert(ls.drop_first()[j] == ls[j + 1]);
        }
        lemma_first_plain_line_is_first_unskipped(ls.drop_first(), k - 1);
        assert(ls.drop_first()[k - 1] == ls[k]);
    }
}

/// After a header, the task line is the first line that is not blank and
/// does not start with `#` or `──`.
pub proof fn lemma_first_line_after_header(content: Seq<char>, header: Seq<char>, k: int)
    requires
        find(content, header) is Some,
        0 <= k < lines(
            content.subrange(find(content, header)->0 + header.len(), content.len() as int),
        ).len(),
        forall|j: int|
            0 <= j < k ==> {
                let t = trim(
                    #[trigger] lines(
                        content.subrange(
                            find(content, header)->0 + header.len(),
                            content.len() as int,
                        ),
                    )[j],
                );
                t.len() == 0 || t[0] == '#' || (t.len() >= 2 && t[0] == '─' && t[1] == '─')
            },
        ({
            let t = trim(
                lines(
                    content.subrange(find(content, header)->0 + header.len(), content.len() as int),
                )[k],
            );
            t.len() > 0 && t[0] != '#' && !(t.len() >= 2 && t[0] == '─' && t[1] == '─')
        }),
    ensures
        first_line_after(content, header) == trim(
            lines(
                content.subrange(find(content, header)->0 + header.len(), content.len() as int),
            )[k],
        ),
{
    let ls = lines(content.subrange(find(content, header)->0 + header.len(), content.len() as int));
    lemma_first_plain_line_is_first_unskipped(ls, k);
}

/// The agent a handoff file names, or `unknown`.
pub open spec fn entry_agent(content: Seq<char>) -> Seq<char> {
    match field_in_lines(lines(content), "Target agent"@) {
        Some(agent) => agent,
        None => "unknown"@,
    }
}

/// The task a handoff file names.
pub open spec fn entry_task(content: Seq<char>) -> Seq<char> {
    match field_in_lines(lines(content), "## CURRENT TASK"@) {
        Some(task) => task,
        None => first_line_after(content, "## CURRENT TASK"@),
    }
}

/// A task of more than 60 bytes is cut to its first 57 bytes and `...`.
pub open spec fn shortened_task(task: Seq<char>) -> Seq<char> {
    if byte_len(task) > 60 {
        byte_slice(task, 0, 57) + "..."@
    } else {
        task
    }
}

/// Cutting a long task at byte 57 does not split a character.
pub open spec fn task_sliceable(task: Seq<char>) -> bool {
    byte_len(task) > 60 ==> is_boundary(task, 57)
}

/// The value of `field` on the first line of `content` that gives one: the
/// trimmed text after the first `:` of a line that mentions `field`.
pub fn extract_field(content: &str, field: &str) -> (r: Option<String>)
    ensures
        opt_view(r) == field_in_lines(lines(content@), field@),
        r matches Some(v) ==> v@.len() > 0,
{
    proof {
        lemma_field_value_nonempty(lines(content@), field@);
    }
    let v = chars_of(content);
    let f = chars_of(field);
    let colon = chars_of(":");
    proof {
        reveal_strlit(":");
    }
    let mut i: usize = 0;
    while i < v.len()
        invariant
            v@ == content@,
            f@ == field@,
            colon@ == ":"@,
            i <= v.len(),
            field_in_lines(lines(v@), f@) == field_in_lines(lines_from(v@, i as int), f@),
        decreases v.len() - i,
    {
        let e = newline_index(&v, i);
        let le = line_end(&v, i, e);
        let ghost line = line_at(v@, i as int, e as int);
        let ghost rest = lines_from(v@, e + 1);
        assert(lines_from(v@, i as int) == seq![line] + rest);
        assert((seq![line] + rest).drop_first() =~= rest);
        assert((seq![line] + rest)[0] == line);
        assert(v@.subrange(i as int, le as int) == line);
        if let Some(k) = find_window(&v, i, le, &colon) {
            proof {
                reveal_strlit(":");
                lemma_find_some(line, ":"@);
            }
            let (a, b) = trim_window(&v, k + 1, le);
            assert(line.subrange(k - i + 1, line.len() as int) =~= v@.subrange(k + 1, le as int));
            if find_window(&v, i, le, &f).is_some() && a < b {
                return Some(text_window(content, a, b));
            }
        }
        i = if e < v.len() {
            e + 1
        } else {
            v.len()
        };
    }
    None
}

/// The first line after `header` that is not empty, a `#` heading or a `──`
/// rule, trimmed; `unknown` when `header` is absent or no such line follows.
pub fn extract_first_line_after(content: &str, header: &str) -> (r: String)
    ensures
        r@ == first_line_after(content@, header@),
{
    let c = chars_of(content);
    let h = chars_of(header);
    assert(c@.subrange(0, c@.len() as int) =~= c@);
    let pos = match find_window(&c, 0, c.len(), &h) {
        Some(p) => p,
        None => {
            return String::from_str("unknown");
        },
    };
    proof {
        lemma_find_some(content@, header@);
    }
    let after = content.substring_char(pos + h.len(), c.len());
    let v = chars_of(after);
    let hash = chars_of("#");
    let rule = chars_of("──");
    proof {
        assert(after@ == content@.subrange(pos + header@.len(), content@.len() as int));
    }
    let mut i: usize = 0;
    while i < v.len()
        invariant
            first_line_after(content@, header@) == match first_plain_line(lines(v@)) {
                Some(t) => t,
                None => "unknown"@,
            },
            v@ == after@,
            hash@ == "#"@,
            rule@ == "──"@,
            i <= v.len(),
            first_plain_line(lines(v@)) == first_plain_line(lines_from(v@, i as int)),
        decreases v.len() - i,
    {
        let e = newline_index(&v, i);
        let le = line_end(&v, i, e);
        let ghost line = line_at(v@, i as int, e as int);
        let ghost rest = lines_from(v@, e + 1);
        assert(lines_from(v@, i as int) == seq![line] + rest);
        assert((seq![line] + rest).drop_first() =~= rest);
        assert((seq![line] + rest)[0] == line);
        let (a, b) = trim_window(&v, i, le);
        if a < b && !starts_with_window(&v, a, b, &hash) && !starts_with_window(&v, a, b, &rule) {
            return text_window(after, a, b);
        }
        i = if e < v.len() {
            e + 1
        } else {
            v.len()
        };
    }
    String::from_str("unknown")
}

/// `task`, cut to 57 bytes and `...` when it is longer than 60 bytes.
fn shorten_task(task: String) -> (r: String)
    requires
        task_sliceable(task@),
    ensures
        r@ == shortened_task(task@),
        byte_len(r@) <= 60,
{
    if task.as_str().as_bytes().len() > 60 {
        proof {
            lemma_start_is_boundary(task@);
            lemma_byte_slice_len(task@, 0, 57);
            crate::text::lemma_encode_concat(byte_slice(task@, 0, 57), "..."@);
            reveal_strlit("...");
            vstd::utf8::is_ascii_chars_encode_utf8("..."@);
        }
        let mut out = String::from_str(slice_bytes(task.as_str(), 0, 57));
        out.append("...");
        out
    } else {
        task
    }
}

/// The history entry for a handoff file, from its name and its content:
/// time stamp from the name, agent from `Target agent: ...`, task from
/// `## CURRENT TASK` (cut to at most 60 bytes).
pub fn handoff_entry(filename: &str, content: &str) -> (r: HandoffEntry)
    requires
        stamp_sliceable(handoff_stamp(filename@)),
        task_sliceable(entry_task(content@)),
    ensures
        r.filename@ == filename@,
        r.timestamp@ == timestamp_of(filename@),
        r.agent@ == entry_agent(content@),
        r.task@ == shortened_task(entry_task(content@)),
        byte_len(r.task@) <= 60,
{
    let timestamp = parse_timestamp(filename);
    let agent = match extract_field(content, "Target agent") {
        Some(a) => a,
        None => String::from_str("unknown"),
    };
    let task = match extract_field(content, "## CURRENT TASK") {
        Some(t) => t,
        None => extract_first_line_after(content, "## CURRENT TASK"),
    };
    HandoffEntry {
        filename: String::from_str(filename),
        timestamp,
        agent,
        task: shorten_task(task),
    }
}

/// Entry `i` of the listing is a handoff file whose modification time is known.
pub open spec fn dated_handoff(es: Seq<DirEntryInfo>, i: int) -> bool {
    0 <= i < es.len() && is_handoff_name(es[i].name@) && es[i].modified is Some
}

/// The modification time of entry `i`.
pub open spec fn mtime(es: Seq<DirEntryInfo>, i: int) -> i128 {
    es[i].modified->0
}

/// Newest first: `i` is listed before `j` when it was modified later, or at
/// the same time and came earlier in the directory listing.
pub open spec fn shown_before(es: Seq<DirEntryInfo>, i: int, j: int) -> bool {
    mtime(es, i) > mtime(es, j) || (mtime(es, i) == mtime(es, j) && i < j)
}

/// `shown` is the start of the listing's handoff files in newest-first
/// order: at most `limit` of them, each a dated handoff file, in order, and
/// every file left out comes after all shown ones (and only when `limit`
/// files are shown).
pub open spec fn history_order(es: Seq<DirEntryInfo>, limit: usize, shown: Seq<usize>) -> bool {
    &&& shown.len() <= limit
    &&& forall|k: int| 0 <= k < shown.len() ==> dated_handoff(es, #[trigger] shown[k] as int)
    &&& forall|a: int, b: int|
        0 <= a < b < shown.len() ==> shown_before(es, shown[a] as int, shown[b] as int)
    &&& forall|j: int|
        dated_handoff(es, j) && !shown.contains(j as usize) ==> shown.len() == limit && forall|
            k: int,
        |
            0 <= k < shown.len() ==> shown_before(es, #[trigger] shown[k] as int, j)
}

/// The handoff files of a listing, newest first (a stable sort by modification
/// time), cut to the first `limit`: the positions in `listing` of the files
/// that `relay history` shows.
pub fn select_handoffs(listing: &Vec<DirEntryInfo>, limit: usize) -> (r: Vec<usize>)
    ensures
        history_order(listing@, limit, r@),
{
    let ghost es = listing@;
    let mut sorted: Vec<(usize, i128)> = Vec::new();
    let mut i: usize = 0;
    while i < listing.len()
        invariant
            es == listing@,
            i <= listing.len(),
            forall|k: int|
                0 <= k < sorted.len() ==> {
                    &&& (#[trigger] sorted@[k]).0 < i
                    &&& dated_handoff(es, sorted@[k].0 as int)
                    &&& sorted@[k].1 == mtime(es, sorted@[k].0 as int)
                },
            forall|a: int, b: int|
                0 <= a < b < sorted.len() ==> shown_before(
                    es,
                    (#[trigger] sorted@[a]).0 as int,
                    (#[trigger] sorted@[b]).0 as int,
                ),
            forall|j: int|
                0 <= j < i && dated_handoff(es, j) ==> exists|k: int|
                    0 <= k < sorted.len() && (#[trigger] sorted@[k]).0 == j,
        decreases listing.len() - i,
    {
        let entry = &listing[i];
        if is_handoff_name_exec(entry.name.as_str()) {
            if let Some(m) = entry.modified {
                let mut p: usize = 0;
                while p < sorted.len() && sorted[p].1 >= m
                    invariant
                        p <= sorted.len(),
                        forall|q: int| 0 <= q < p ==> (#[trigger] sorted@[q]).1 >= m,
                    decreases sorted.len() - p,
                {
                    p = p + 1;
                }
                let ghost old_sorted = sorted@;
                sorted.insert(p, (i, m));
                proof {
                    assert(dated_handoff(es, i as int));
                    assert(mtime(es, i as int) == m);
                    assert forall|k: int| 0 <= k < sorted.len() implies {
                        &&& (#[trigger] sorted@[k]).0 < i + 1
                        &&& dated_handoff(es, sorted@[k].0 as int)
                        &&& sorted@[k].1 == mtime(es, sorted@[k].0 as int)
                    } by {
                        if k < p {
                            assert(sorted@[k] == old_sorted[k]);
                        } else if k > p {
                            assert(sorted@[k] == old_sorted[k - 1]);
                        }
                    }
                    assert forall|a: int, b: int| 0 <= a < b < sorted.len() implies shown_before(
                        es,
                        (#[trigger] sorted@[a]).0 as int,
                        (#[trigger] sorted@[b]).0 as int,
                    ) by {
                        if b < p {
                            assert(sorted@[a] == old_sorted[a]);
                            assert(sorted@[b] == old_sorted[b]);
                        } else if b == p {
                            assert(sorted@[a] == old_sorted[a]);
                        } else if a < p {
                            assert(sorted@[a] == old_sorted[a]);
                            assert(sorted@[b] == old_sorted[b - 1]);
                        } else if a == p {
                            assert(sorted@[b] == old_sorted[b - 1]);
                            assert(old_sorted[p as int].1 < m);
                            if b - 1 > p {
                                assert(shown_before(
                                    es,
                                    old_sorted[p as int].0 as int,
                                    old_sorted[b - 1].0 as int,
                                ));
                            }
                        } else {
                            assert(sorted@[a] == old_sorted[a - 1]);
                            assert(sorted@[b] == old_sorted[b - 1]);
                        }
                    }
                    assert forall|j: int| 0 <= j < i + 1 && dated_handoff(es, j) implies exists|
                        k: int,
                    | 0 <= k < sorted.len() && (#[trigger] sorted@[k]).0 == j by {
                        if j == i {
                            assert(sorted@[p as int].0 == j);
                        } else {
                            let k0 = choose|k: int|
                                0 <= k < old_sorted.len() && (#[trigger] old_sorted[k]).0 == j;
                            if k0 < p {
                                assert(sorted@[k0].0 == j);
                            } else {
                                assert(sorted@[k0 + 1].0 == j);
                            }
                        }
                    }
                }
            }
        }
        i = i + 1;
    }
    let n = if sorted.len() < limit {
        sorted.len()
    } else {
        limit
    };
    let mut r: Vec<usize> = Vec::new();
    let mut k: usize = 0;
    while k < n
        invariant
            n <= sorted.len(),
            n <= limit,
            k <= n,
            r.len() == k,
            forall|q: int| 0 <= q < k ==> r@[q] == (#[trigger] sorted@[q]).0,
        decreases n - k,
    {
        r.push(sorted[k].0);
        k = k + 1;
    }
    proof {
        assert forall|k: int| 0 <= k < r.len() implies dated_handoff(
            listing@,
            #[trigger] r@[k] as int,
        ) by {
            assert(r@[k] == sorted@[k].0);
        }
        assert forall|a: int, b: int| 0 <= a < b < r.len() implies shown_before(
            listing@,
            r@[a] as int,
            r@[b] as int,
        ) by {
            assert(r@[a] == sorted@[a].0);
            assert(r@[b] == sorted@[b].0);
        }
        assert forall|j: int| dated_handoff(listing@, j) && !r@.contains(j as usize) implies r.len()
            == limit && forall|k: int|
            0 <= k < r.len() ==> shown_before(listing@, #[trigger] r@[k] as int, j) by {
            let k0 = choose|k: int| 0 <= k < sorted.len() && (#[trigger] sorted@[k]).0 == j;
            if k0 < n {
                assert(r@[k0] == j as usize);
            }
            assert forall|k: int| 0 <= k < r.len() implies shown_before(
                listing@,
                #[trigger] r@[k] as int,
                j,
            ) by {
                assert(r@[k] == sorted@[k].0);
            }
        }
    }
    r
}

} // verus!
