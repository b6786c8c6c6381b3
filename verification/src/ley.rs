use vstd::prelude::*;
use crate::error::Error;
use crate::model::{
    is_ws, trim_from, trim_start_in, trim_end_in, trim_span, run_len_from, find_run_from,
    find_open_from, scan_name_from, scan_line_at, scan_content_at, scan_lines_at,
    scan_document_at, scan_document, SpanModel, LineModel, ContentModel,
};

verus! {

// ---------------------------------------------------------------------------
// The parse result: spans, blocks, content and documents.
// ---------------------------------------------------------------------------

/// A half-open byte range `[start, end)` into the input buffer.  Parsed
/// names, structure names and raw text are all reported this way, so the
/// scan never copies any part of the input.
#[derive(Debug, Clone, Copy, PartialEq, Eq, Structural)]
pub struct Span {
    pub start: usize,
    pub end: usize,
}

impl View for Span {
    type V = SpanModel;

    open spec fn view(&self) -> SpanModel {
        SpanModel { start: self.start as int, end: self.end as int }
    }
}

/// A block's content: either a raw text span (unparsed bytes between `[`
/// and `]` fences) or the ordered blocks nested between `{` and `}` fences.
#[derive(Debug, PartialEq, Eq)]
pub enum Content {
    Text(Span),
    Nested(Vec<LeyLine>),
}

/// One parsed block: a name, a structure name naming how external code
/// should interpret the content, and the content itself.
#[derive(Debug, PartialEq, Eq)]
pub struct LeyLine {
    pub name: Span,
    pub structure: Span,
    pub content: Content,
}

/// A handler for one kind of structure: the external collaborator that
/// interprets a block's content once the scan has produced it.  The scanner
/// itself never calls into a handler; a registry of them travels with the
/// parsed document for whoever consumes it.
pub trait Structure {
}

/// A parsed document: its top-level non-comment blocks in source order,
/// together with a registry of structure handlers for downstream
/// consumers.
pub struct Ley {
    /// Handlers by structure name; the scan itself registers none.
    pub structures: Vec<(Vec<u8>, Box<dyn Structure>)>,
    /// The top-level blocks, in source order, comments elided.
    pub lines: Vec<LeyLine>,
}

// ---------------------------------------------------------------------------
// The models of the executable types.
// ---------------------------------------------------------------------------

/// The model of a content value: the same shape over index ranges.
pub open spec fn content_model(c: Content) -> ContentModel
    decreases c,
    via content_model_decreases
{
    match c {
        Content::Text(sp) => ContentModel::Text(sp@),
        Content::Nested(v) => ContentModel::Nested(lines_model(v@)),
    }
}

#[via_fn]
proof fn content_model_decreases(c: Content) {
    match c {
        Content::Nested(v) => {
            assert(decreases_to!(c => v));
            assert(decreases_to!(v => v@));
        },
        _ => {},
    }
}

/// The models of a sequence of blocks, element by element, in order.
pub open spec fn lines_model(v: Seq<LeyLine>) -> Seq<LineModel>
    decreases v,
    via lines_model_decreases
{
    if v.len() == 0 {
        Seq::empty()
    } else {
        seq![line_model(v[0])] + lines_model(v.drop_first())
    }
}

#[via_fn]
proof fn lines_model_decreases(v: Seq<LeyLine>) {
    if v.len() != 0 {
        assert(decreases_to!(v => v[0]));
        assert(v.drop_first() == v.subrange(1, v.len() as int));
        assert(decreases_to!(v => v.subrange(1, v.len() as int)));
    }
}

/// The model of a parsed block.
pub open spec fn line_model(l: LeyLine) -> LineModel
    decreases l,
{
    LineModel { name: l.name@, structure: l.structure@, content: content_model(l.content) }
}

impl View for Content {
    type V = ContentModel;

    open spec fn view(&self) -> ContentModel {
        content_model(*self)
    }
}

impl View for LeyLine {
    type V = LineModel;

    open spec fn view(&self) -> LineModel {
        line_model(*self)
    }
}

impl View for Ley {
    type V = Seq<LineModel>;

    open spec fn view(&self) -> Seq<LineModel> {
        lines_model(self.lines@)
    }
}

/// `lines_model` maps the sequence element by element.
pub proof fn lemma_lines_model_index(v: Seq<LeyLine>, i: int)
    requires
        0 <= i < v.len(),
    ensures
        lines_model(v).len() == v.len(),
        lines_model(v)[i] == line_model(v[i]),
    decreases v.len(),
{
    lemma_lines_model_len(v);
    if i > 0 {
        lemma_lines_model_index(v.drop_first(), i - 1);
    }
}

/// `lines_model` keeps the length of the sequence.
pub proof fn lemma_lines_model_len(v: Seq<LeyLine>)
    ensures
        lines_model(v).len() == v.len(),
    decreases v.len(),
{
    if v.len() != 0 {
        lemma_lines_model_len(v.drop_first());
    }
}

/// Appending a block on the executable side appends its model.
pub proof fn lemma_lines_model_push(v: Seq<LeyLine>, l: LeyLine)
    ensures
        lines_model(v.push(l)) == lines_model(v).push(line_model(l)),
    decreases v.len(),
{
    reveal_with_fuel(lines_model, 2);
    if v.len() == 0 {
        assert(v.push(l).drop_first() =~= Seq::<LeyLine>::empty());
        assert(lines_model(v.push(l)) =~= lines_model(v).push(line_model(l)));
    } else {
        let a = line_model(v[0]);
        let m = line_model(l);
        lemma_lines_model_push(v.drop_first(), l);
        assert(v.push(l).drop_first() =~= v.drop_first().push(l));
        assert(v.push(l)[0] == v[0]);
        assert(lines_model(v.push(l)) == seq![a] + lines_model(v.drop_first()).push(m));
        assert(seq![a] + lines_model(v.drop_first()).push(m) =~= (seq![a] + lines_model(
            v.drop_first(),
        )).push(m));
    }
}

// ---------------------------------------------------------------------------
// Executable scanning primitives, each proved against its model.
// ---------------------------------------------------------------------------

/// Whether `c` is ASCII whitespace; the executable twin of `is_ws`.
fn is_whitespace(c: u8) -> (r: bool)
    ensures
        r == is_ws(c),
{
    c == 0x09 || c == 0x0a || c == 0x0b || c == 0x0c || c == 0x0d || c == 0x20
}

/// The first position at or after `i` holding a non-whitespace byte.
pub(crate) fn trim_pos(input: &Vec<u8>, i: usize) -> (r: usize)
    requires
        i <= input@.len(),
    ensures
        r as int == trim_from(input@, i as int),
        i <= r <= input@.len(),
        trim_from(input@, r as int) == r as int,
        r < input@.len() ==> !is_ws(input@[r as int]),
{
    let mut j = i;
    while j < input.len() && is_whitespace(input[j])
        invariant
            i <= j <= input@.len(),
            trim_from(input@, i as int) == trim_from(input@, j as int),
        decreases input@.len() - j,
    {
        j += 1;
    }
    j
}

/// The length of the maximal run of `c` starting exactly at `i`.
pub(crate) fn run_len(input: &Vec<u8>, i: usize, c: u8) -> (r: usize)
    requires
        i <= input@.len(),
    ensures
        r == run_len_from(input@, i as int, c),
        i + r <= input@.len(),
{
    let mut j = i;
    while j < input.len() && input[j] == c
        invariant
            i <= j <= input@.len(),
            run_len_from(input@, i as int, c) == j - i + run_len_from(input@, j as int, c),
        decreases input@.len() - j,
    {
        j += 1;
    }
    j - i
}

/// The earliest position at or after `i` holding `{` or `[`.
fn find_open(input: &Vec<u8>, i: usize) -> (r: Option<usize>)
    requires
        i <= input@.len(),
    ensures
        match r {
            Some(j) => find_open_from(input@, i as int) == Some(j as int) && i <= j
                && j < input@.len() && (input@[j as int] == 0x7b || input@[j as int] == 0x5b),
            None => find_open_from(input@, i as int) is None,
        },
{
    let mut j = i;
    while j < input.len()
        invariant
            i <= j <= input@.len(),
            find_open_from(input@, i as int) == find_open_from(input@, j as int),
        decreases input@.len() - j,
    {
        let b = input[j];
        if b == 0x7b || b == 0x5b {
            return Some(j);
        }
        j += 1;
    }
    None
}

/// The earliest position at or after `i` where a run of at least `n` bytes
/// `c` begins; the leftmost match, not a maximal one.
pub(crate) fn find_run(input: &Vec<u8>, i: usize, c: u8, n: usize) -> (r: Option<usize>)
    requires
        i <= input@.len(),
        1 <= n,
    ensures
        match r {
            Some(j) => find_run_from(input@, i as int, c, n as nat) == Some(j as int) && i <= j
                && j + n <= input@.len(),
            None => find_run_from(input@, i as int, c, n as nat) is None,
        },
{
    let mut j = i;
    loop
        invariant
            i <= j <= input@.len(),
            1 <= n,
            find_run_from(input@, i as int, c, n as nat) == find_run_from(
                input@,
                j as int,
                c,
                n as nat,
            ),
        decreases input@.len() - j,
    {
        if n > input.len() - j {
            return None;
        }
        let rl = run_len(input, j, c);
        if rl >= n {
            return Some(j);
        }
        j += 1;
    }
}

/// The name phase: from `i`, just past an opening `!` run of length `n`,
/// scan to the first run of `n` consecutive `:` or `n` consecutive `;`.
fn scan_name(input: &Vec<u8>, i: usize, n: usize) -> (r: Option<(usize, bool)>)
    requires
        i <= input@.len(),
        1 <= n,
    ensures
        match r {
            Some(pc) => scan_name_from(input@, i as int, n as nat, 0, 0) == Some(
                (pc.0 as int, pc.1),
            ) && i + n <= pc.0 && pc.0 <= input@.len(),
            None => scan_name_from(input@, i as int, n as nat, 0, 0) is None,
        },
{
    let mut j = i;
    let mut colons: usize = 0;
    let mut semis: usize = 0;
    while j < input.len()
        invariant
            i <= j <= input@.len(),
            1 <= n,
            colons < n,
            semis < n,
            colons <= j - i,
            semis <= j - i,
            scan_name_from(input@, i as int, n as nat, 0, 0) == scan_name_from(
                input@,
                j as int,
                n as nat,
                colons as nat,
                semis as nat,
            ),
        decreases input@.len() - j,
    {
        let b = input[j];
        let colons2: usize = if b == 0x3a {
            colons + 1
        } else {
            0
        };
        let semis2: usize = if b == 0x3b {
            semis + 1
        } else {
            0
        };
        if colons2 == n {
            return Some((j + 1, false));
        }
        if semis2 == n {
            return Some((j + 1, true));
        }
        colons = colons2;
        semis = semis2;
        j += 1;
    }
    None
}

/// The range `[lo, hi)` with whitespace trimmed off both ends.
fn trim_span_exec(input: &Vec<u8>, lo: usize, hi: usize) -> (r: Span)
    requires
        lo <= hi <= input@.len(),
    ensures
        r@ == trim_span(input@, lo as int, hi as int),
        lo <= r.start <= r.end <= hi,
{
    let mut a = lo;
    while a < hi && is_whitespace(input[a])
        invariant
            lo <= a <= hi <= input@.len(),
            trim_start_in(input@, lo as int, hi as int) == trim_start_in(
                input@,
                a as int,
                hi as int,
            ),
        decreases hi - a,
    {
        a += 1;
    }
    let mut b = hi;
    while b > a && is_whitespace(input[b - 1])
        invariant
            a <= b <= hi <= input@.len(),
            trim_end_in(input@, a as int, hi as int) == trim_end_in(input@, a as int, b as int),
        decreases b,
    {
        b -= 1;
    }
    Span { start: a, end: b }
}

// ---------------------------------------------------------------------------
// The block and content scanners.
// ---------------------------------------------------------------------------

/// What the executable block scanner must return at position `i`: exactly
/// what the model says, with the parsed block (if any) carrying the model's
/// spans and content.
pub open spec fn line_result_matches(
    s: Seq<u8>,
    i: int,
    r: Result<(Option<LeyLine>, usize), Error>,
) -> bool {
    match scan_line_at(s, i) {
        Ok(mp) => match r {
            Ok(lq) => lq.1 as int == mp.1 && match (lq.0, mp.0) {
                (Some(l), Some(m)) => line_model(l) == m,
                (None, None) => true,
                _ => false,
            },
            Err(_) => false,
        },
        Err(e) => r == Err::<(Option<LeyLine>, usize), Error>(e),
    }
}

/// What the executable content scanner must return at position `i`.
pub open spec fn content_result_matches(
    s: Seq<u8>,
    i: int,
    r: Result<(Content, usize), Error>,
) -> bool {
    match scan_content_at(s, i) {
        Ok(mp) => match r {
            Ok(cq) => cq.1 as int == mp.1 && content_model(cq.0) == mp.0,
            Err(_) => false,
        },
        Err(e) => r == Err::<(Content, usize), Error>(e),
    }
}

/// The loop invariant of the nested-lines loop: the blocks collected so far,
/// prepended to whatever the loop still produces from `p`, are what the
/// whole loop produces from `from`.
pub open spec fn lines_rel(s: Seq<u8>, from: int, p: int, ls: Seq<LeyLine>) -> bool {
    scan_lines_at(s, from) == (match scan_lines_at(s, p) {
        Ok(rq) => Ok::<(Seq<LineModel>, int), Error>((lines_model(ls) + rq.0, rq.1)),
        Err(e) => Err(e),
    })
}

/// One block at position `i`; `Ok` carries the block (`None` for a comment
/// block) and the position just past it.
fn scan_line(input: &Vec<u8>, i: usize) -> (r: Result<(Option<LeyLine>, usize), Error>)
    requires
        i <= input@.len(),
    ensures
        line_result_matches(input@, i as int, r),
        match r {
            Ok(lq) => i < lq.1 <= input@.len(),
            Err(_) => true,
        },
    decreases input@.len() - i, 1int,
{
    if i >= input.len() {
        return Err(Error::UnexpectedEoF);
    }
    if input[i] != 0x21 {
        return Err(Error::InvalidLeyLine);
    }
    let n = run_len(input, i, 0x21);
    assert(n >= 1);
    if i + n >= input.len() {
        return Err(Error::UnexpectedEoF);
    }
    let after = i + n;
    match scan_name(input, after, n) {
        None => Err(Error::UnexpectedEoF),
        Some((p1, comment)) => match find_open(input, p1) {
            None => Err(Error::UnexpectedEoF),
            Some(ob) => {
                let name = Span { start: after, end: p1 - n };
                let structure = trim_span_exec(input, p1, ob);
                match scan_content(input, ob) {
                    Err(e) => Err(e),
                    Ok((c, p2)) => if comment {
                        Ok((None, p2))
                    } else {
                        Ok((Some(LeyLine { name, structure, content: c }), p2))
                    },
                }
            },
        },
    }
}

/// Content at position `i`, dispatching on the byte there: `{` opens nested
/// content, `[` opens raw text.
#[verifier::loop_isolation(false)]
fn scan_content(input: &Vec<u8>, i: usize) -> (r: Result<(Content, usize), Error>)
    requires
        i <= input@.len(),
    ensures
        content_result_matches(input@, i as int, r),
        match r {
            Ok(cq) => i < cq.1 <= input@.len(),
            Err(_) => true,
        },
    decreases input@.len() - i, 0int,
{
    if i >= input.len() {
        return Err(Error::UnexpectedEoF);
    }
    let b = input[i];
    if b == 0x7b {
        let n = run_len(input, i, 0x7b);
        assert(n >= 1);
        if i + n >= input.len() {
            return Err(Error::UnexpectedEoF);
        }
        let mut lines: Vec<LeyLine> = Vec::new();
        let mut p = trim_pos(input, i + n);
        proof {
            assert(lines_model(lines@) =~= Seq::<LineModel>::empty());
            assert(scan_lines_at(input@, (i + n) as int) == scan_lines_at(input@, p as int));
            match scan_lines_at(input@, p as int) {
                Ok(rq) => {
                    assert(lines_model(lines@) + rq.0 =~= rq.0);
                },
                Err(_) => {},
            }
        }
        while p < input.len() && input[p] == 0x21
            invariant
                i < p <= input@.len(),
                trim_from(input@, p as int) == p as int,
                lines_rel(input@, (i + n) as int, p as int, lines@),
            decreases input@.len() - p,
        {
            match scan_line(input, p) {
                Err(e) => {
                    return Err(e);
                },
                Ok((opt, q)) => {
                    let ghost t_ = p as int;
                    let ghost old_lines = lines@;
                    match opt {
                        Some(l) => {
                            proof {
                                lemma_lines_model_push(lines@, l);
                            }
                            lines.push(l);
                        },
                        None => {},
                    }
                    proof {
                        let s = input@;
                        let q_ = q as int;
                        match scan_lines_at(s, q_) {
                            Err(e) => {
                                assert(scan_lines_at(s, t_) == Err::<(Seq<LineModel>, int), Error>(
                                    e,
                                ));
                            },
                            Ok(rq) => {
                                let rest = rq.0;
                                match scan_line_at(s, t_) {
                                    Ok(mp) => {
                                        match mp.0 {
                                            Some(m) => {
                                                assert(scan_lines_at(s, t_) == Ok::<
                                                    (Seq<LineModel>, int),
                                                    Error,
                                                >((seq![m] + rest, rq.1)));
                                                assert(lines_model(old_lines) + (seq![m] + rest)
                                                    =~= lines_model(lines@) + rest);
                                            },
                                            None => {
                                                assert(scan_lines_at(s, t_) == Ok::<
                                                    (Seq<LineModel>, int),
                                                    Error,
                                                >((rest, rq.1)));
                                            },
                                        }
                                    },
                                    Err(_) => {
                                        assert(false);
                                    },
                                }
                            },
                        }
                    }
                    p = trim_pos(input, q);
                    proof {
                        assert(scan_lines_at(input@, q as int) == scan_lines_at(
                            input@,
                            p as int,
                        ));
                    }
                },
            }
        }
        if input.len() - p < n {
            return Err(Error::UnexpectedEoF);
        }
        let mut k: usize = 0;
        while k < n
            invariant
                0 <= k <= n,
                p + n <= input@.len(),
                forall|k2: int| p <= k2 < p + k ==> input@[k2] == 0x7d,
            decreases n - k,
        {
            if input[p + k] != 0x7d {
                return Err(Error::InvalidLeyLine);
            }
            k += 1;
        }
        Ok((Content::Nested(lines), p + n))
    } else if b == 0x5b {
        let n = run_len(input, i, 0x5b);
        assert(n >= 1);
        if i + n >= input.len() {
            return Err(Error::UnexpectedEoF);
        }
        match find_run(input, i + n, 0x5d, n) {
            None => Err(Error::UnexpectedEoF),
            Some(j) => Ok((Content::Text(Span { start: i + n, end: j }), j + n)),
        }
    } else {
        Err(Error::InvalidLeyLine)
    }
}

// ---------------------------------------------------------------------------
// The document scanner and the public interface.
// ---------------------------------------------------------------------------

/// The loop invariant of the document loop: the blocks collected so far,
/// prepended to whatever remains to be scanned from `p`, are the whole
/// document from `from`.
pub open spec fn document_rel(s: Seq<u8>, from: int, p: int, ls: Seq<LeyLine>) -> bool {
    scan_document_at(s, from) == (match scan_document_at(s, p) {
        Ok(rest) => Ok::<Seq<LineModel>, Error>(lines_model(ls) + rest),
        Err(e) => Err(e),
    })
}

/// What parsing a whole buffer must return: the model's document on
/// success, the model's error on failure, with no handler registered.
pub open spec fn document_result_matches(s: Seq<u8>, r: Result<Ley, Error>) -> bool {
    match scan_document(s) {
        Ok(doc) => match r {
            Ok(ley) => ley@ == doc && ley.structures@.len() == 0,
            Err(_) => false,
        },
        Err(e) => match r {
            Ok(_) => false,
            Err(e2) => e2 == e,
        },
    }
}

/// Whether two byte buffers hold the same bytes.
fn bytes_eq(a: &Vec<u8>, b: &Vec<u8>) -> (r: bool)
    ensures
        r == (a@ == b@),
{
    if a.len() != b.len() {
        return false;
    }
    let mut k: usize = 0;
    while k < a.len()
        invariant
            k <= a@.len(),
            a@.len() == b@.len(),
            forall|k2: int| 0 <= k2 < k ==> a@[k2] == b@[k2],
        decreases a@.len() - k,
    {
        if a[k] != b[k] {
            return false;
        }
        k += 1;
    }
    proof {
        assert(a@ =~= b@);
    }
    true
}

/// The document scan from `start`: repeatedly trim whitespace and scan one
/// block until the input is exhausted, collecting the non-comment blocks
/// in source order.  Both [`Ley::parse`] and [`crate::Parser::parse`] are
/// this scan.
#[verifier::loop_isolation(false)]
pub(crate) fn scan_document_pos(input: &Vec<u8>, start: usize) -> (r: Result<Vec<LeyLine>, Error>)
    requires
        start <= input@.len(),
    ensures
        match scan_document_at(input@, start as int) {
            Ok(doc) => match r {
                Ok(v) => lines_model(v@) == doc,
                Err(_) => false,
            },
            Err(e) => match r {
                Ok(_) => false,
                Err(e2) => e2 == e,
            },
        },
{
    let mut lines: Vec<LeyLine> = Vec::new();
    let mut p = trim_pos(input, start);
    proof {
        assert(lines_model(lines@) =~= Seq::<LineModel>::empty());
        assert(scan_document_at(input@, start as int) == scan_document_at(input@, p as int));
        match scan_document_at(input@, p as int) {
            Ok(rest) => {
                assert(lines_model(lines@) + rest =~= rest);
            },
            Err(_) => {},
        }
    }
    while p < input.len()
        invariant
            p <= input@.len(),
            trim_from(input@, p as int) == p as int,
            document_rel(input@, start as int, p as int, lines@),
        decreases input@.len() - p,
    {
        match scan_line(input, p) {
            Err(e) => {
                return Err(e);
            },
            Ok((opt, q)) => {
                let ghost t_ = p as int;
                let ghost old_lines = lines@;
                match opt {
                    Some(l) => {
                        proof {
                            lemma_lines_model_push(lines@, l);
                        }
                        lines.push(l);
                    },
                    None => {},
                }
                proof {
                    let s = input@;
                    match scan_document_at(s, q as int) {
                        Err(e) => {
                            assert(scan_document_at(s, t_) == Err::<Seq<LineModel>, Error>(e));
                        },
                        Ok(rest) => {
                            match scan_line_at(s, t_) {
                                Ok(mp) => {
                                    match mp.0 {
                                        Some(m) => {
                                            assert(scan_document_at(s, t_) == Ok::<
                                                Seq<LineModel>,
                                                Error,
                                            >(seq![m] + rest));
                                            assert(lines_model(old_lines) + (seq![m] + rest)
                                                =~= lines_model(lines@) + rest);
                                        },
                                        None => {
                                            assert(scan_document_at(s, t_) == Ok::<
                                                Seq<LineModel>,
                                                Error,
                                            >(rest));
                                        },
                                    }
                                },
                                Err(_) => {
                                    assert(false);
                                },
                            }
                        },
                    }
                }
                p = trim_pos(input, q);
                proof {
                    assert(scan_document_at(input@, q as int) == scan_document_at(
                        input@,
                        p as int,
                    ));
                }
            },
        }
    }
    proof {
        assert(lines_model(lines@) + Seq::<LineModel>::empty() =~= lines_model(lines@));
    }
    Ok(lines)
}

impl Ley {
    /// Parse a whole input buffer: the document scan from its start.
    /// Empty (or all-whitespace) input yields an empty document, not an
    /// error.  No structure handler is registered by parsing.
    pub fn parse(input: &Vec<u8>) -> (r: Result<Ley, Error>)
        ensures
            document_result_matches(input@, r),
    {
        match scan_document_pos(input, 0) {
            Ok(lines) => Ok(Ley { structures: Vec::new(), lines }),
            Err(e) => Err(e),
        }
    }

    /// Look up the handler registered for a structure name; `None` when no
    /// handler of that name is registered (parsing alone registers none).
    pub fn lookup(&self, structure: &Vec<u8>) -> (r: Option<&Box<dyn Structure>>)
        ensures
            match r {
                Some(h) => exists|k: int|
                    0 <= k < self.structures@.len() && #[trigger] self.structures@[k].0@
                        == structure@ && *h == self.structures@[k].1 && (forall|k2: int|
                        0 <= k2 < k ==> #[trigger] self.structures@[k2].0@ != structure@),
                None => forall|k: int|
                    0 <= k < self.structures@.len() ==> #[trigger] self.structures@[k].0@
                        != structure@,
            },
    {
        let mut idx: usize = 0;
        while idx < self.structures.len()
            invariant
                idx <= self.structures@.len(),
                forall|k: int| 0 <= k < idx ==> self.structures@[k].0@ != structure@,
            decreases self.structures@.len() - idx,
        {
            if bytes_eq(&self.structures[idx].0, structure) {
                let h = &self.structures[idx].1;
                proof {
                    let k = idx as int;
                    assert(0 <= k < self.structures@.len() && self.structures@[k].0@ == structure@
                        && *h == self.structures@[k].1 && (forall|k2: int|
                        0 <= k2 < k ==> #[trigger] self.structures@[k2].0@ != structure@));
                }
                return Some(h);
            }
            idx += 1;
        }
        None
    }
}

impl LeyLine {
    /// Scan one block at `*pos` and advance `*pos` past it.  A comment
    /// block is consumed all the same but reported as `Ok(None)`.  On an
    /// error the cursor is left where it was: a failed parse exposes no
    /// partial progress.
    pub fn parse(input: &Vec<u8>, pos: &mut usize) -> (r: Result<Option<LeyLine>, Error>)
        requires
            *old(pos) <= input@.len(),
        ensures
            *final(pos) <= input@.len(),
            match scan_line_at(input@, *old(pos) as int) {
                Ok(mp) => *final(pos) as int == mp.1 && match (r, mp.0) {
                    (Ok(Some(l)), Some(m)) => line_model(l) == m,
                    (Ok(None), None) => true,
                    _ => false,
                },
                Err(e) => r == Err::<Option<LeyLine>, Error>(e) && *final(pos) == *old(pos),
            },
    {
        match scan_line(input, *pos) {
            Ok((opt, q)) => {
                *pos = q;
                Ok(opt)
            },
            Err(e) => Err(e),
        }
    }
}

impl Content {
    /// Scan one content region at `*pos` and advance `*pos` past it.  An
    /// exhausted input fails with the end-of-input error; otherwise the
    /// byte at the cursor must be `{` or `[`, as the block scanner
    /// guarantees when it delegates here.  On an error the cursor is left
    /// where it was.
    pub fn parse(input: &Vec<u8>, pos: &mut usize) -> (r: Result<Content, Error>)
        requires
            *old(pos) <= input@.len(),
            *old(pos) < input@.len() ==> input@[*old(pos) as int] == 0x7b || input@[*old(
                pos,
            ) as int] == 0x5b,
        ensures
            *final(pos) <= input@.len(),
            match scan_content_at(input@, *old(pos) as int) {
                Ok(mp) => *final(pos) as int == mp.1 && match r {
                    Ok(c) => content_model(c) == mp.0,
                    Err(_) => false,
                },
                Err(e) => r == Err::<Content, Error>(e) && *final(pos) == *old(pos),
            },
    {
        match scan_content(input, *pos) {
            Ok((c, q)) => {
                *pos = q;
                Ok(c)
            },
            Err(e) => Err(e),
        }
    }
}

} // verus!
