//! Character-level text model shared by the handoff readers and writers:
//! Unicode whitespace, trimming, substring search, line splitting and
//! decimal rendering, each with an executable form over a `Vec<char>` window.

use vstd::prelude::*;
use vstd::utf8::*;

verus! {

/// Number of bytes in the UTF-8 encoding of `s` (`str::len`).
pub open spec fn byte_len(s: Seq<char>) -> nat {
    encode_utf8(s).len()
}

/// Byte offset `i` of the UTF-8 encoding of `s` starts a character or ends the text.
pub open spec fn is_boundary(s: Seq<char>, i: int) -> bool {
    is_char_boundary(encode_utf8(s), i)
}

/// The characters of the byte range `from..to` of `s` (`&s[from..to]`).
pub open spec fn byte_slice(s: Seq<char>, from: int, to: int) -> Seq<char> {
    decode_utf8(encode_utf8(s).subrange(from, to))
}

/// Cutting a valid encoding at a boundary `k` keeps the boundaries before `k`.
proof fn lemma_prefix_boundary(b: Seq<u8>, k: int, j: int)
    requires
        valid_utf8(b),
        is_char_boundary(b, k),
        0 <= j <= k,
    ensures
        k <= b.len(),
        valid_utf8(b.subrange(0, k)),
        is_char_boundary(b.subrange(0, k), j) == is_char_boundary(b, j),
{
    if k > b.len() {
        assert(!is_char_boundary(b, k));
    }
    valid_utf8_split(b, k);
    let p = b.subrange(0, k);
    if j == k {
        is_char_boundary_start_end_of_seq(p);
    } else {
        is_char_boundary_iff_not_is_continuation_byte(p, j);
        is_char_boundary_iff_not_is_continuation_byte(b, j);
    }
}

/// The encoding of a concatenation is the concatenation of the encodings.
pub proof fn lemma_encode_concat(a: Seq<char>, b: Seq<char>)
    ensures
        encode_utf8(a + b) == encode_utf8(a) + encode_utf8(b),
    decreases a.len(),
{
    if a.len() == 0 {
        assert(a + b =~= b);
        assert(encode_utf8(a) + encode_utf8(b) =~= encode_utf8(b));
    } else {
        lemma_encode_concat(a.drop_first(), b);
        assert((a + b).drop_first() =~= a.drop_first() + b);
        assert((a + b)[0] == a[0]);
        assert(encode_utf8(a + b) =~= encode_utf8(a) + encode_utf8(b));
    }
}

/// A byte slice between two boundaries has exactly `to - from` bytes.
pub proof fn lemma_byte_slice_len(s: Seq<char>, from: int, to: int)
    requires
        0 <= from <= to,
        is_boundary(s, from),
        is_boundary(s, to),
    ensures
        byte_len(byte_slice(s, from, to)) == to - from,
        encode_utf8(byte_slice(s, from, to)) == encode_utf8(s).subrange(from, to),
{
    let b = encode_utf8(s);
    encode_utf8_valid_utf8(s);
    lemma_prefix_boundary(b, to, from);
    let p = b.subrange(0, to);
    valid_utf8_split(p, from);
    assert(p.subrange(from, to) =~= b.subrange(from, to));
    decode_utf8_encode_utf8(b.subrange(from, to));
}

/// The start of a text is a boundary.
pub proof fn lemma_start_is_boundary(s: Seq<char>)
    ensures
        is_boundary(s, 0),
{
    encode_utf8_valid_utf8(s);
    is_char_boundary_start_end_of_seq(encode_utf8(s));
}

/// `&s[from..to]`, where both offsets are character boundaries.
pub fn slice_bytes<'a>(s: &'a str, from: usize, to: usize) -> (r: &'a str)
    requires
        from <= to,
        is_boundary(s@, from as int),
        is_boundary(s@, to as int),
    ensures
        r@ == byte_slice(s@, from as int, to as int),
        to <= byte_len(s@),
{
    let ghost b = encode_utf8(s@);
    proof {
        encode_utf8_valid_utf8(s@);
        lemma_prefix_boundary(b, to as int, from as int);
    }
    let (p, _) = s.split_at(to);
    proof {
        assert(encode_utf8(p@) =~= b.subrange(0, to as int));
    }
    let (_, r) = p.split_at(from);
    proof {
        encode_utf8_decode_utf8(r@);
        assert(encode_utf8(r@) =~= b.subrange(from as int, to as int));
    }
    r
}

/// `char::is_whitespace`: the Unicode `White_Space` property.
pub open spec fn is_whitespace(c: char) -> bool {
    ||| '\u{9}' <= c <= '\u{d}'
    ||| c == ' '
    ||| c == '\u{85}'
    ||| c == '\u{a0}'
    ||| c == '\u{1680}'
    ||| '\u{2000}' <= c <= '\u{200a}'
    ||| c == '\u{2028}'
    ||| c == '\u{2029}'
    ||| c == '\u{202f}'
    ||| c == '\u{205f}'
    ||| c == '\u{3000}'
}

/// `str::trim_start`: drop leading whitespace.
pub open spec fn trim_start(s: Seq<char>) -> Seq<char>
    decreases s.len(),
{
    if s.len() > 0 && is_whitespace(s[0]) {
        trim_start(s.drop_first())
    } else {
        s
    }
}

/// `str::trim_end`: drop trailing whitespace.
pub open spec fn trim_end(s: Seq<char>) -> Seq<char>
    decreases s.len(),
{
    if s.len() > 0 && is_whitespace(s.last()) {
        trim_end(s.drop_last())
    } else {
        s
    }
}

/// `str::trim`: drop leading and trailing whitespace.
pub open spec fn trim(s: Seq<char>) -> Seq<char> {
    trim_end(trim_start(s))
}

/// `p` occurs in `s` starting at index `i`.
pub open spec fn occurs_at(s: Seq<char>, p: Seq<char>, i: int) -> bool {
    0 <= i && i + p.len() <= s.len() && s.subrange(i, i + p.len()) == p
}

/// First occurrence of `p` in `s` at an index `>= i`.
pub open spec fn find_from(s: Seq<char>, p: Seq<char>, i: int) -> Option<int>
    decreases s.len() + 1 - i,
{
    if i < 0 || i + p.len() > s.len() {
        None
    } else if s.subrange(i, i + p.len()) == p {
        Some(i)
    } else {
        find_from(s, p, i + 1)
    }
}

/// `str::find` with a string pattern: the first index at which `p` occurs in `s`.
pub open spec fn find(s: Seq<char>, p: Seq<char>) -> Option<int> {
    find_from(s, p, 0)
}

/// `str::contains`.
pub open spec fn contains(s: Seq<char>, p: Seq<char>) -> bool {
    find(s, p) is Some
}

/// `str::starts_with`.
pub open spec fn starts_with(s: Seq<char>, p: Seq<char>) -> bool {
    p.len() <= s.len() && s.subrange(0, p.len() as int) == p
}

/// `str::ends_with`.
pub open spec fn ends_with(s: Seq<char>, p: Seq<char>) -> bool {
    p.len() <= s.len() && s.subrange(s.len() - p.len(), s.len() as int) == p
}

/// Index of the first `'\n'` at or after `i`, or `s.len()` when there is none.
pub open spec fn newline_from(s: Seq<char>, i: int) -> int
    decreases s.len() - i,
{
    if i >= s.len() {
        s.len() as int
    } else if s[i] == '\n' {
        i
    } else {
        newline_from(s, i + 1)
    }
}

/// The line that starts at `i` and whose terminating `'\n'` (or the end of
/// the text) is at `e`; a `'\r'` just before a `'\n'` is not part of the line.
pub open spec fn line_at(s: Seq<char>, i: int, e: int) -> Seq<char> {
    if e < s.len() && i < e && s[e - 1] == '\r' {
        s.subrange(i, e - 1)
    } else {
        s.subrange(i, e)
    }
}

/// A search from `j` finds something when `p` occurs at some `i >= j`.
pub proof fn lemma_find_from_reaches(s: Seq<char>, p: Seq<char>, j: int, i: int)
    requires
        0 <= j <= i,
        occurs_at(s, p, i),
    ensures
        find_from(s, p, j) is Some,
        find_from(s, p, j)->0 <= i,
    decreases i - j,
{
    if s.subrange(j, j + p.len()) != p {
        lemma_find_from_reaches(s, p, j + 1, i);
    }
}

/// `s` contains `p` wherever `p` occurs.
pub proof fn lemma_occurs_contains(s: Seq<char>, p: Seq<char>, i: int)
    requires
        occurs_at(s, p, i),
    ensures
        contains(s, p),
{
    lemma_find_from_reaches(s, p, 0, i);
}

/// A text contains whatever stands between a prefix and a suffix.
pub proof fn lemma_contains_middle(pre: Seq<char>, p: Seq<char>, post: Seq<char>)
    ensures
        contains(pre + p + post, p),
{
    let s = pre + p + post;
    assert(s.subrange(pre.len() as int, (pre.len() + p.len()) as int) =~= p);
    lemma_occurs_contains(s, p, pre.len() as int);
}

/// What a text contains, any text around it contains too.
pub proof fn lemma_contains_within(pre: Seq<char>, x: Seq<char>, post: Seq<char>, p: Seq<char>)
    requires
        contains(x, p),
    ensures
        contains(pre + x + post, p),
{
    lemma_find_some(x, p);
    let i = find(x, p)->0;
    let s = pre + x + post;
    assert(s.subrange(pre.len() + i, pre.len() + i + p.len()) =~= x.subrange(i, i + p.len()));
    lemma_occurs_contains(s, p, pre.len() + i);
}

/// What a found occurrence guarantees.
pub proof fn lemma_find_from_some(s: Seq<char>, p: Seq<char>, i: int)
    requires
        find_from(s, p, i) is Some,
    ensures
        i <= find_from(s, p, i)->0,
        occurs_at(s, p, find_from(s, p, i)->0),
    decreases s.len() + 1 - i,
{
    if !(i < 0 || i + p.len() > s.len()) && s.subrange(i, i + p.len()) != p {
        lemma_find_from_some(s, p, i + 1);
    }
}

/// What a found occurrence guarantees, from the start.
pub proof fn lemma_find_some(s: Seq<char>, p: Seq<char>)
    requires
        find(s, p) is Some,
    ensures
        occurs_at(s, p, find(s, p)->0),
{
    lemma_find_from_some(s, p, 0);
}

pub proof fn lemma_newline_from_bounds(s: Seq<char>, i: int)
    requires
        0 <= i,
    ensures
        i <= s.len() ==> i <= newline_from(s, i) <= s.len(),
        i < newline_from(s, i) < s.len() || newline_from(s, i) == s.len() || (i <= s.len()
            && newline_from(s, i) == i),
        newline_from(s, i) < s.len() ==> s[newline_from(s, i)] == '\n',
        forall|k: int| i <= k < newline_from(s, i) ==> s[k] != '\n',
    decreases s.len() - i,
{
    if i < s.len() && s[i] != '\n' {
        lemma_newline_from_bounds(s, i + 1);
    }
}

/// The lines of `s` from index `i` on.
pub open spec fn lines_from(s: Seq<char>, i: int) -> Seq<Seq<char>>
    decreases s.len() + 1 - i,
    via lines_from_decreases
{
    if i < 0 || i >= s.len() {
        seq![]
    } else {
        seq![line_at(s, i, newline_from(s, i))] + lines_from(s, newline_from(s, i) + 1)
    }
}

#[via_fn]
proof fn lines_from_decreases(s: Seq<char>, i: int) {
    if 0 <= i < s.len() {
        lemma_newline_from_bounds(s, i);
    }
}

/// `str::lines`: split at `'\n'`, dropping a `'\r'` before each `'\n'`;
/// a final line terminator does not start an empty line.
pub open spec fn lines(s: Seq<char>) -> Seq<Seq<char>> {
    lines_from(s, 0)
}

/// The non-empty members of a list of lines, in order.
pub open spec fn nonempty(ls: Seq<Seq<char>>) -> Seq<Seq<char>>
    decreases ls.len(),
{
    if ls.len() == 0 {
        seq![]
    } else if ls[0].len() == 0 {
        nonempty(ls.drop_first())
    } else {
        seq![ls[0]] + nonempty(ls.drop_first())
    }
}

/// The views of a list of strings.
pub open spec fn views(v: Seq<String>) -> Seq<Seq<char>> {
    v.map_values(|x: String| x@)
}

/// The view of an optional string.
pub open spec fn opt_view(o: Option<String>) -> Option<Seq<char>> {
    match o {
        Some(x) => Some(x@),
        None => None,
    }
}

/// The digit character for `d < 10`.
pub open spec fn digit_char(d: nat) -> char {
    if d == 0 {
        '0'
    } else if d == 1 {
        '1'
    } else if d == 2 {
        '2'
    } else if d == 3 {
        '3'
    } else if d == 4 {
        '4'
    } else if d == 5 {
        '5'
    } else if d == 6 {
        '6'
    } else if d == 7 {
        '7'
    } else if d == 8 {
        '8'
    } else {
        '9'
    }
}

/// The decimal numeral of `n`, without leading zeros (`n.to_string()`).
pub open spec fn decimal(n: nat) -> Seq<char>
    decreases n,
{
    if n < 10 {
        seq![digit_char(n)]
    } else {
        decimal(n / 10) + seq![digit_char(n % 10)]
    }
}

/// The decimal numeral of an integer, with a leading `-` when it is negative.
pub open spec fn signed_decimal(n: int) -> Seq<char> {
    if n < 0 {
        "-"@ + decimal((-n) as nat)
    } else {
        decimal(n as nat)
    }
}

fn digit_text(d: u64) -> (r: &'static str)
    requires
        d < 10,
    ensures
        r@ == seq![digit_char(d as nat)],
{
    proof {
        reveal_strlit("0");
        reveal_strlit("1");
        reveal_strlit("2");
        reveal_strlit("3");
        reveal_strlit("4");
        reveal_strlit("5");
        reveal_strlit("6");
        reveal_strlit("7");
        reveal_strlit("8");
        reveal_strlit("9");
    }
    if d == 0 {
        "0"
    } else if d == 1 {
        "1"
    } else if d == 2 {
        "2"
    } else if d == 3 {
        "3"
    } else if d == 4 {
        "4"
    } else if d == 5 {
        "5"
    } else if d == 6 {
        "6"
    } else if d == 7 {
        "7"
    } else if d == 8 {
        "8"
    } else {
        "9"
    }
}

/// `n.to_string()`.
pub fn decimal_string(n: u64) -> (r: String)
    ensures
        r@ == decimal(n as nat),
    decreases n,
{
    if n < 10 {
        String::from_str(digit_text(n))
    } else {
        let mut s = decimal_string(n / 10);
        s.append(digit_text(n % 10));
        s
    }
}

/// `n.to_string()` for a signed integer.
pub fn signed_decimal_string(n: i64) -> (r: String)
    ensures
        r@ == signed_decimal(n as int),
{
    if n < 0 {
        let magnitude: u64 = if n == i64::MIN {
            9223372036854775808u64
        } else {
            (-n) as u64
        };
        let mut s = String::from_str("-");
        s.append(decimal_string(magnitude).as_str());
        s
    } else {
        decimal_string(n as u64)
    }
}

/// The characters of a string slice, in order.
pub fn chars_of(s: &str) -> (v: Vec<char>)
    ensures
        v@ == s@,
{
    let mut v: Vec<char> = Vec::new();
    for c in it: s.chars()
        invariant
            v@ == it.seq().take(it.index() as int),
    {
        v.push(c);
    }
    v
}

/// `char::is_whitespace`.
pub fn is_whitespace_char(c: char) -> (r: bool)
    ensures
        r == is_whitespace(c),
{
    ('\u{9}' <= c && c <= '\u{d}') || c == ' ' || c == '\u{85}' || c == '\u{a0}' || c
        == '\u{1680}' || ('\u{2000}' <= c && c <= '\u{200a}') || c == '\u{2028}' || c
        == '\u{2029}' || c == '\u{202f}' || c == '\u{205f}' || c == '\u{3000}'
}

/// The bounds `(a, b)` of the trimmed window `v[lo..hi]`.
pub fn trim_window(v: &Vec<char>, lo: usize, hi: usize) -> (r: (usize, usize))
    requires
        lo <= hi <= v.len(),
    ensures
        lo <= r.0 <= r.1 <= hi,
        v@.subrange(r.0 as int, r.1 as int) == trim(v@.subrange(lo as int, hi as int)),
{
    let mut a = lo;
    while a < hi && is_whitespace_char(v[a])
        invariant
            lo <= a <= hi <= v.len(),
            trim_start(v@.subrange(lo as int, hi as int)) == trim_start(
                v@.subrange(a as int, hi as int),
            ),
        decreases hi - a,
    {
        assert(v@.subrange(a as int, hi as int).drop_first() =~= v@.subrange(
            a + 1,
            hi as int,
        ));
        a = a + 1;
    }
    assert(trim_start(v@.subrange(a as int, hi as int)) == v@.subrange(a as int, hi as int));
    let mut b = hi;
    while b > a && is_whitespace_char(v[b - 1])
        invariant
            lo <= a <= b <= hi <= v.len(),
            trim(v@.subrange(lo as int, hi as int)) == trim_end(v@.subrange(a as int, b as int)),
        decreases b - a,
    {
        assert(v@.subrange(a as int, b as int).drop_last() =~= v@.subrange(
            a as int,
            b - 1,
        ));
        b = b - 1;
    }
    (a, b)
}

/// Whether `p` occurs in `v` at index `i`.
pub fn occurs_at_exec(v: &Vec<char>, i: usize, p: &Vec<char>) -> (r: bool)
    requires
        i <= v.len(),
    ensures
        r == (i + p.len() <= v.len() && v@.subrange(i as int, i + p.len()) == p@),
{
    if p.len() > v.len() - i {
        return false;
    }
    let mut j: usize = 0;
    while j < p.len()
        invariant
            i + p.len() <= v.len(),
            j <= p.len(),
            forall|k: int| 0 <= k < j ==> v@[i + k] == p@[k],
        decreases p.len() - j,
    {
        if v[i + j] != p[j] {
            assert(v@.subrange(i as int, i + p.len())[j as int] != p@[j as int]);
            return false;
        }
        j = j + 1;
    }
    assert(v@.subrange(i as int, i + p.len()) =~= p@);
    true
}

/// First occurrence of `p` in the window `v[lo..hi]`, as an index into `v`.
pub fn find_window(v: &Vec<char>, lo: usize, hi: usize, p: &Vec<char>) -> (r: Option<usize>)
    requires
        lo <= hi <= v.len(),
    ensures
        match find(v@.subrange(lo as int, hi as int), p@) {
            Some(k) => r == Some((lo + k) as usize),
            None => r is None,
        },
{
    let ghost w = v@.subrange(lo as int, hi as int);
    let mut i = lo;
    while i <= hi
        invariant
            lo <= i <= hi + 1,
            hi <= v.len(),
            w == v@.subrange(lo as int, hi as int),
            find(w, p@) == find_from(w, p@, i - lo),
        decreases hi + 1 - i,
    {
        if p.len() > hi - i {
            return None;
        }
        assert(w.subrange(i - lo, i - lo + p.len()) =~= v@.subrange(i as int, i + p.len()));
        if occurs_at_exec(v, i, p) {
            return Some(i);
        }
        assert(p.len() > 0) by {
            if p.len() == 0 {
                assert(v@.subrange(i as int, i as int) =~= p@);
            }
        }
        i = i + 1;
    }
    None
}

/// Whether the window `v[lo..hi]` ends with `p`.
pub fn ends_with_window(v: &Vec<char>, lo: usize, hi: usize, p: &Vec<char>) -> (r: bool)
    requires
        lo <= hi <= v.len(),
    ensures
        r == ends_with(v@.subrange(lo as int, hi as int), p@),
{
    if p.len() > hi - lo {
        return false;
    }
    let r = occurs_at_exec(v, hi - p.len(), p);
    assert(v@.subrange(lo as int, hi as int).subrange(hi - lo - p.len(), hi - lo) =~= v@.subrange(
        hi - p.len(),
        hi as int,
    ));
    r
}

/// Whether the window `v[lo..hi]` starts with `p`.
pub fn starts_with_window(v: &Vec<char>, lo: usize, hi: usize, p: &Vec<char>) -> (r: bool)
    requires
        lo <= hi <= v.len(),
    ensures
        r == starts_with(v@.subrange(lo as int, hi as int), p@),
{
    if p.len() > hi - lo {
        return false;
    }
    let r = occurs_at_exec(v, lo, p);
    assert(v@.subrange(lo as int, hi as int).subrange(0, p.len() as int) =~= v@.subrange(
        lo as int,
        lo + p.len(),
    ));
    r
}

/// Index of the first `'\n'` in `v` at or after `i`, or `v.len()`.
pub fn newline_index(v: &Vec<char>, i: usize) -> (e: usize)
    requires
        i <= v.len(),
    ensures
        e == newline_from(v@, i as int),
        i <= e <= v.len(),
{
    let mut e = i;
    while e < v.len() && v[e] != '\n'
        invariant
            i <= e <= v.len(),
            newline_from(v@, i as int) == newline_from(v@, e as int),
        decreases v.len() - e,
    {
        e = e + 1;
    }
    e
}

/// End of the line that starts at `i` and is terminated at `e`.
pub fn line_end(v: &Vec<char>, i: usize, e: usize) -> (le: usize)
    requires
        i <= e <= v.len(),
    ensures
        i <= le <= e,
        v@.subrange(i as int, le as int) == line_at(v@, i as int, e as int),
{
    if e < v.len() && i < e && v[e - 1] == '\r' {
        e - 1
    } else {
        e
    }
}

/// The characters `s[lo..hi]` (character indices) as an owned string.
pub fn text_window(s: &str, lo: usize, hi: usize) -> (r: String)
    requires
        lo <= hi <= s@.len(),
    ensures
        r@ == s@.subrange(lo as int, hi as int),
{
    String::from_str(s.substring_char(lo, hi))
}

/// `text.lines().filter(|l| !l.is_empty())`, each line owned.
pub fn nonempty_lines(text: &str) -> (r: Vec<String>)
    ensures
        views(r@) == nonempty(lines(text@)),
{
    let v = chars_of(text);
    let mut r: Vec<String> = Vec::new();
    let mut i: usize = 0;
    while i < v.len()
        invariant
            v@ == text@,
            i <= v.len(),
            views(r@) + nonempty(lines_from(v@, i as int)) == nonempty(lines(v@)),
        decreases v.len() - i,
    {
        let e = newline_index(&v, i);
        let le = line_end(&v, i, e);
        let ghost line = line_at(v@, i as int, e as int);
        let ghost rest = lines_from(v@, e + 1);
        assert(lines_from(v@, i as int) == seq![line] + rest);
        assert((seq![line] + rest).drop_first() =~= rest);
        if le > i {
            let ghost before = views(r@);
            r.push(text_window(text, i, le));
            assert(views(r@) =~= before + seq![line]);
            assert(views(r@) + nonempty(rest) =~= before + nonempty(seq![line] + rest));
        }
        i = if e < v.len() {
            e + 1
        } else {
            v.len()
        };
    }
    assert(views(r@) =~= views(r@) + nonempty(lines_from(v@, i as int)));
    r
}

/// Whether two texts are equal.
pub fn text_eq(a: &str, b: &str) -> (r: bool)
    ensures
        r == (a@ == b@),
{
    String::from_str(a) == String::from_str(b)
}

/// `s.trim().to_string()`.
pub fn trim_string(s: &str) -> (r: String)
    ensures
        r@ == trim(s@),
{
    let v = chars_of(s);
    let (a, b) = trim_window(&v, 0, v.len());
    assert(v@.subrange(0, v@.len() as int) =~= v@);
    text_window(s, a, b)
}

} // verus!
