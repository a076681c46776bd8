//! Handoff files in `.relay/`: which directory entries are handoffs, and the
//! time stamp that their name `handoff_YYYYMMDD_HHMMSS.md` carries.

use vstd::prelude::*;

use crate::text::{
    byte_len, byte_slice, chars_of, ends_with, ends_with_window, is_boundary,
    lemma_start_is_boundary, slice_bytes, starts_with, starts_with_window,
};

verus! {

/// One entry of a directory listing: its file name and, where the file
/// system reported it, its modification time in nanoseconds since the Unix
/// epoch (negative before it).
#[derive(Debug, Clone)]
pub struct DirEntryInfo {
    pub name: String,
    pub modified: Option<i128>,
}

/// The name of a file that `relay handoff` writes: `handoff_*.md`.
pub open spec fn is_handoff_name(name: Seq<char>) -> bool {
    starts_with(name, "handoff_"@) && ends_with(name, ".md"@)
}

/// `name.strip_prefix("handoff_").unwrap_or("").strip_suffix(".md").unwrap_or("")`.
pub open spec fn handoff_stamp(name: Seq<char>) -> Seq<char> {
    let rest = name.subrange("handoff_"@.len() as int, name.len() as int);
    if starts_with(name, "handoff_"@) && ends_with(rest, ".md"@) {
        rest.subrange(0, rest.len() - ".md"@.len())
    } else {
        seq![]
    }
}

/// The byte offsets at which a stamp of at least fifteen bytes is cut all
/// fall on character boundaries.
pub open spec fn stamp_sliceable(ts: Seq<char>) -> bool {
    byte_len(ts) >= 15 ==> {
        &&& is_boundary(ts, 4)
        &&& is_boundary(ts, 6)
        &&& is_boundary(ts, 8)
        &&& is_boundary(ts, 9)
        &&& is_boundary(ts, 11)
        &&& is_boundary(ts, 13)
        &&& is_boundary(ts, 15)
    }
}

/// `YYYYMMDD_HHMMSS` read as `YYYY-MM-DD HH:MM:SS`, by byte offsets.
pub open spec fn stamp_date_time(ts: Seq<char>) -> Seq<char> {
    byte_slice(ts, 0, 4) + "-"@ + byte_slice(ts, 4, 6) + "-"@ + byte_slice(ts, 6, 8) + " "@
        + byte_slice(ts, 9, 11) + ":"@ + byte_slice(ts, 11, 13) + ":"@ + byte_slice(ts, 13, 15)
}

/// The time shown for a handoff in `relay history` and `relay diff`: the
/// formatted stamp, or the raw stamp when it is shorter than fifteen bytes.
pub open spec fn timestamp_of(name: Seq<char>) -> Seq<char> {
    let ts = handoff_stamp(name);
    if byte_len(ts) >= 15 {
        stamp_date_time(ts)
    } else {
        ts
    }
}

/// The time shown for a handoff in `relay resume`: the formatted stamp, or
/// `unknown` when the stamp is shorter than fifteen bytes.
pub open spec fn handoff_time_of(name: Seq<char>) -> Seq<char> {
    let ts = handoff_stamp(name);
    if byte_len(ts) >= 15 {
        stamp_date_time(ts)
    } else {
        "unknown"@
    }
}

/// `relay history` and `relay diff` show the same time for a handoff as
/// `relay resume` does whenever the stamp has at least fifteen bytes; for a
/// shorter stamp the first show the stamp itself and the last `unknown`.
pub proof fn lemma_times_agree(name: Seq<char>)
    ensures
        byte_len(handoff_stamp(name)) >= 15 ==> timestamp_of(name) == handoff_time_of(name),
        byte_len(handoff_stamp(name)) < 15 ==> timestamp_of(name) == handoff_stamp(name)
            && handoff_time_of(name) == "unknown"@,
{
}

/// Whether `name` is `handoff_*.md`.
pub fn is_handoff_name_exec(name: &str) -> (r: bool)
    ensures
        r == is_handoff_name(name@),
{
    let v = chars_of(name);
    let prefix = chars_of("handoff_");
    let suffix = chars_of(".md");
    assert(v@.subrange(0, v@.len() as int) =~= v@);
    starts_with_window(&v, 0, v.len(), &prefix) && ends_with_window(&v, 0, v.len(), &suffix)
}

/// The stamp between `handoff_` and `.md`, or the empty text.
pub fn stamp_of(name: &str) -> (r: &str)
    ensures
        r@ == handoff_stamp(name@),
{
    let v = chars_of(name);
    let prefix = chars_of("handoff_");
    let suffix = chars_of(".md");
    assert(v@.subrange(0, v@.len() as int) =~= v@);
    if !starts_with_window(&v, 0, v.len(), &prefix) {
        proof {
            reveal_strlit("");
        }
        return "";
    }
    if !ends_with_window(&v, prefix.len(), v.len(), &suffix) {
        proof {
            reveal_strlit("");
        }
        return "";
    }
    let r = name.substring_char(prefix.len(), v.len() - suffix.len());
    assert(r@ =~= handoff_stamp(name@));
    r
}

/// `YYYY-MM-DD HH:MM:SS` from a stamp of at least fifteen bytes.
fn date_time(ts: &str) -> (r: String)
    requires
        byte_len(ts@) >= 15,
        stamp_sliceable(ts@),
    ensures
        r@ == stamp_date_time(ts@),
{
    proof {
        lemma_start_is_boundary(ts@);
    }
    let mut out = String::from_str(slice_bytes(ts, 0, 4));
    out.append("-");
    out.append(slice_bytes(ts, 4, 6));
    out.append("-");
    out.append(slice_bytes(ts, 6, 8));
    out.append(" ");
    out.append(slice_bytes(ts, 9, 11));
    out.append(":");
    out.append(slice_bytes(ts, 11, 13));
    out.append(":");
    out.append(slice_bytes(ts, 13, 15));
    out
}

/// The time stamp of a handoff file name, as `relay history` and
/// `relay diff` show it: `handoff_20260405_141328.md` gives
/// `2026-04-05 14:13:28`; a stamp shorter than fifteen bytes is returned as
/// it is.
pub fn parse_timestamp(filename: &str) -> (r: String)
    requires
        stamp_sliceable(handoff_stamp(filename@)),
    ensures
        r@ == timestamp_of(filename@),
{
    let ts = stamp_of(filename);
    if ts.as_bytes().len() >= 15 {
        date_time(ts)
    } else {
        String::from_str(ts)
    }
}

/// The time stamp of a handoff file name, as `relay resume` shows it:
/// `handoff_20260405_141328.md` gives `2026-04-05 14:13:28`; a stamp
/// shorter than fifteen bytes gives `unknown`.
pub fn parse_handoff_timestamp(filename: &str) -> (r: String)
    requires
        stamp_sliceable(handoff_stamp(filename@)),
    ensures
        r@ == handoff_time_of(filename@),
{
    let ts = stamp_of(filename);
    if ts.as_bytes().len() >= 15 {
        date_time(ts)
    } else {
        String::from_str("unknown")
    }
}

} // verus!
