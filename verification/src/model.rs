use vstd::prelude::*;
use crate::error::Error;

verus! {

// ---------------------------------------------------------------------------
// The mathematical model of a parsed document.
//
// Every piece of text a scan reports is a half-open index range into the
// input buffer, so the model of a block is a pair of ranges plus a content
// model, and the model of a document is a sequence of block models.
// ---------------------------------------------------------------------------

/// A half-open index range `[start, end)` into the input buffer.
pub struct SpanModel {
    pub start: int,
    pub end: int,
}

/// The model of one parsed block: its name, its structure name, and its
/// content, all as ranges into the input buffer.
pub struct LineModel {
    pub name: SpanModel,
    pub structure: SpanModel,
    pub content: ContentModel,
}

/// The model of a block's content: either a raw text range or a sequence of
/// nested block models.
pub enum ContentModel {
    Text(SpanModel),
    Nested(Seq<LineModel>),
}

// ---------------------------------------------------------------------------
// Scanning primitives.
// ---------------------------------------------------------------------------

/// ASCII whitespace, the characters trimmed between and around tokens.
pub open spec fn is_ws(c: u8) -> bool {
    c == 0x09 || c == 0x0a || c == 0x0b || c == 0x0c || c == 0x0d || c == 0x20
}

/// The first position at or after `i` holding a non-whitespace byte
/// (the input length if only whitespace remains).
pub open spec fn trim_from(s: Seq<u8>, i: int) -> int
    recommends
        0 <= i <= s.len(),
    decreases s.len() - i,
{
    if 0 <= i < s.len() && is_ws(s[i]) {
        trim_from(s, i + 1)
    } else {
        i
    }
}

/// The first position in `[lo, hi)` holding a non-whitespace byte (`hi` if
/// there is none).
pub open spec fn trim_start_in(s: Seq<u8>, lo: int, hi: int) -> int
    recommends
        0 <= lo <= hi <= s.len(),
    decreases hi - lo,
{
    if lo < hi && 0 <= lo < s.len() && is_ws(s[lo]) {
        trim_start_in(s, lo + 1, hi)
    } else {
        lo
    }
}

/// One past the last position in `[lo, hi)` holding a non-whitespace byte
/// (`lo` if there is none).
pub open spec fn trim_end_in(s: Seq<u8>, lo: int, hi: int) -> int
    recommends
        0 <= lo <= hi <= s.len(),
    decreases hi - lo,
{
    if lo < hi && 0 <= hi - 1 < s.len() && is_ws(s[hi - 1]) {
        trim_end_in(s, lo, hi - 1)
    } else {
        hi
    }
}

/// The range `[lo, hi)` with whitespace trimmed off both ends.
pub open spec fn trim_span(s: Seq<u8>, lo: int, hi: int) -> SpanModel
    recommends
        0 <= lo <= hi <= s.len(),
{
    let a = trim_start_in(s, lo, hi);
    SpanModel { start: a, end: trim_end_in(s, a, hi) }
}

/// The length of the maximal run of the byte `c` starting exactly at `i`
/// (zero if the byte there differs or `i` is out of range).
pub open spec fn run_len_from(s: Seq<u8>, i: int, c: u8) -> nat
    decreases s.len() - i,
{
    if 0 <= i < s.len() && s[i] == c {
        (1 + run_len_from(s, i + 1, c)) as nat
    } else {
        0
    }
}

/// Whether a contiguous run of `n` bytes `c` stands at position `j`.
pub open spec fn has_run(s: Seq<u8>, j: int, c: u8, n: nat) -> bool {
    0 <= j && j + n <= s.len() && forall|k: int| j <= k < j + n ==> s[k] == c
}

/// The earliest position at or after `i` where a run of at least `n` bytes
/// `c` begins: the leftmost match, not a maximal-run match.  `None` if no
/// such run exists before the input ends.
pub open spec fn find_run_from(s: Seq<u8>, i: int, c: u8, n: nat) -> Option<int>
    recommends
        0 <= i,
        1 <= n,
    decreases s.len() - i,
{
    if i < 0 || i + n > s.len() {
        None
    } else if run_len_from(s, i, c) >= n {
        Some(i)
    } else {
        find_run_from(s, i + 1, c, n)
    }
}

/// The earliest position at or after `i` holding the byte `c` (`None` if it
/// does not occur before the input ends).
pub open spec fn find_byte_from(s: Seq<u8>, i: int, c: u8) -> Option<int>
    recommends
        0 <= i,
    decreases s.len() - i,
{
    if i < 0 || i >= s.len() {
        None
    } else if s[i] == c {
        Some(i)
    } else {
        find_byte_from(s, i + 1, c)
    }
}

/// The earliest position at or after `i` holding `{` or `[`, the characters
/// that open a content fence.
pub open spec fn find_open_from(s: Seq<u8>, i: int) -> Option<int>
    recommends
        0 <= i,
    decreases s.len() - i,
{
    if i < 0 || i >= s.len() {
        None
    } else if s[i] == 0x7b || s[i] == 0x5b {
        Some(i)
    } else {
        find_open_from(s, i + 1)
    }
}

/// The name phase of a block, starting just past an opening `!` run of
/// length `n`.  Two counters track consecutive `:` and consecutive `;`;
/// any other byte resets both.  The phase ends at the first position where
/// either counter reaches `n`; the result is the position just past that
/// run and whether the run was of `;` (a comment block).
pub open spec fn scan_name_from(s: Seq<u8>, i: int, n: nat, colons: nat, semis: nat) -> Option<
    (int, bool),
>
    recommends
        0 <= i,
        colons < n,
        semis < n,
    decreases s.len() - i,
{
    if i < 0 || i >= s.len() {
        None
    } else {
        let colons2: nat = if s[i] == 0x3a {
            (colons + 1) as nat
        } else {
            0
        };
        let semis2: nat = if s[i] == 0x3b {
            (semis + 1) as nat
        } else {
            0
        };
        if colons2 == n {
            Some((i + 1, false))
        } else if semis2 == n {
            Some((i + 1, true))
        } else {
            scan_name_from(s, i + 1, n, colons2, semis2)
        }
    }
}

// ---------------------------------------------------------------------------
// The scanner itself, one spec function per component.
//
// The scan only ever moves forward, and each of the range checks written as
// an explicit `if` below always passes; they are spelled out so that the
// termination of these mutually recursive definitions is evident from the
// text alone.
// ---------------------------------------------------------------------------

/// One block at position `i`: an opening `!` run of length N, a name ended
/// by a run of N `:` (normal) or N `;` (comment), a structure name ended by
/// the next `{` or `[`, then content.  On success the result carries the
/// parsed block (`None` for a comment block, which is consumed but elided)
/// and the position just past it.
pub open spec fn scan_line_at(s: Seq<u8>, i: int) -> Result<(Option<LineModel>, int), Error>
    recommends
        0 <= i <= s.len(),
    decreases s.len() - i, 1int,
{
    if i < 0 || i >= s.len() {
        Err(Error::UnexpectedEoF)
    } else if s[i] != 0x21 {
        Err(Error::InvalidLeyLine)
    } else {
        let n = run_len_from(s, i, 0x21);
        if i + n >= s.len() {
            // the opening run reaches the end of the input
            Err(Error::UnexpectedEoF)
        } else {
            let after = i + n;
            match scan_name_from(s, after, n, 0, 0) {
                None => Err(Error::UnexpectedEoF),
                Some((p1, comment)) => match find_open_from(s, p1) {
                    None => Err(Error::UnexpectedEoF),
                    Some(ob) => if !(i < ob && ob < s.len()) {
                        Err(Error::InvalidLeyLine)
                    } else {
                        let name = SpanModel { start: after, end: p1 - n };
                        let structure = trim_span(s, p1, ob);
                        match scan_content_at(s, ob) {
                            Err(e) => Err(e),
                            Ok((c, p2)) => Ok(
                                (
                                    if comment {
                                        None
                                    } else {
                                        Some(LineModel { name, structure, content: c })
                                    },
                                    p2,
                                ),
                            ),
                        }
                    },
                },
            }
        }
    }
}

/// Content at position `i`, dispatching on the byte there: `{` opens nested
/// content closed by an equally long run of `}`; `[` opens raw text closed
/// by the leftmost equally long run of `]`.
pub open spec fn scan_content_at(s: Seq<u8>, i: int) -> Result<(ContentModel, int), Error>
    recommends
        0 <= i <= s.len(),
    decreases s.len() - i, 0int,
{
    if i < 0 || i >= s.len() {
        Err(Error::UnexpectedEoF)
    } else if s[i] == 0x7b {
        let n = run_len_from(s, i, 0x7b);
        if n == 0 {
            // cannot happen with a `{` at `i`; checked defensively
            Err(Error::InvalidLeyLine)
        } else if i + n >= s.len() {
            Err(Error::UnexpectedEoF)
        } else {
            match scan_lines_at(s, i + n) {
                Err(e) => Err(e),
                Ok((lines, p)) => if s.len() - p < n {
                    Err(Error::UnexpectedEoF)
                } else if !(forall|k: int| p <= k < p + n ==> s[k] == 0x7d) {
                    Err(Error::InvalidLeyLine)
                } else {
                    Ok((ContentModel::Nested(lines), p + n))
                },
            }
        }
    } else if s[i] == 0x5b {
        let n = run_len_from(s, i, 0x5b);
        if n == 0 {
            // cannot happen with a `[` at `i`; checked defensively
            Err(Error::InvalidLeyLine)
        } else if i + n >= s.len() {
            Err(Error::UnexpectedEoF)
        } else {
            match find_run_from(s, i + n, 0x5d, n) {
                None => Err(Error::UnexpectedEoF),
                Some(j) => Ok((ContentModel::Text(SpanModel { start: i + n, end: j }), j + n)),
            }
        }
    } else {
        // the callers dispatch here only on `{` or `[`
        Err(Error::InvalidLeyLine)
    }
}

/// The body of a nested-content fence: repeatedly trim whitespace and scan
/// one block while the next byte is `!`, collecting the non-comment blocks
/// in order.  The result carries the position where the loop stopped, with
/// leading whitespace already trimmed.
pub open spec fn scan_lines_at(s: Seq<u8>, i: int) -> Result<(Seq<LineModel>, int), Error>
    recommends
        0 <= i <= s.len(),
    decreases s.len() - i, 2int,
{
    let t = trim_from(s, i);
    if !(i <= t <= s.len()) {
        Err(Error::InvalidLeyLine)
    } else if t < s.len() && s[t] == 0x21 {
        match scan_line_at(s, t) {
            Err(e) => Err(e),
            Ok((opt, p)) => if !(t < p <= s.len()) {
                Err(Error::InvalidLeyLine)
            } else {
                match scan_lines_at(s, p) {
                    Err(e) => Err(e),
                    Ok((rest, q)) => match opt {
                        Some(l) => Ok((seq![l] + rest, q)),
                        None => Ok((rest, q)),
                    },
                }
            },
        }
    } else {
        Ok((Seq::empty(), t))
    }
}

/// A whole document from position `i`: trim whitespace, stop at the end of
/// the input, otherwise scan one block and continue, collecting the
/// non-comment blocks in order.
pub open spec fn scan_document_at(s: Seq<u8>, i: int) -> Result<Seq<LineModel>, Error>
    recommends
        0 <= i <= s.len(),
    decreases s.len() - i, 3int,
{
    let t = trim_from(s, i);
    if !(i <= t <= s.len()) {
        Err(Error::InvalidLeyLine)
    } else if t >= s.len() {
        Ok(Seq::empty())
    } else {
        match scan_line_at(s, t) {
            Err(e) => Err(e),
            Ok((opt, p)) => if !(t < p <= s.len()) {
                Err(Error::InvalidLeyLine)
            } else {
                match scan_document_at(s, p) {
                    Err(e) => Err(e),
                    Ok(rest) => match opt {
                        Some(l) => Ok(seq![l] + rest),
                        None => Ok(rest),
                    },
                }
            },
        }
    }
}

/// The model of parsing a whole input buffer.
pub open spec fn scan_document(s: Seq<u8>) -> Result<Seq<LineModel>, Error> {
    scan_document_at(s, 0)
}

} // verus!
