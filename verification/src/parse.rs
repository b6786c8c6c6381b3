use vstd::prelude::*;
use crate::error::Error;
use crate::ley::{find_run, run_len, scan_document_pos, Ley, Span};
use crate::model::{find_byte_from, find_run_from, run_len_from, scan_document_at, SpanModel};

verus! {

// ---------------------------------------------------------------------------
// A low-level cursor over the input, exposing the counted-fence primitives
// one by one.  Its `parse` reads the remaining input as a whole document,
// the same scan `Ley::parse` runs from the start of a buffer.
// ---------------------------------------------------------------------------

/// What `expect` asks of the input: the pattern's bytes stand at `i`.
pub open spec fn matches_at(s: Seq<u8>, i: int, p: Seq<u8>) -> bool {
    0 <= i && i + p.len() <= s.len() && s.subrange(i, i + p.len()) == p
}

/// The model of `content_between` at position `i`: measure the opening run
/// of `l`, then find the leftmost equally long run of `r`; the result is
/// the text strictly between the two runs and the position just past the
/// closing run.
pub open spec fn content_between_at(s: Seq<u8>, i: int, l: u8, r: u8) -> Result<
    (SpanModel, int),
    Error,
> {
    let n = run_len_from(s, i, l);
    if i >= s.len() {
        Err(Error::UnexpectedEoF)
    } else if n == 0 {
        Err(Error::InvalidLeyLine)
    } else if i + n >= s.len() {
        // the opening run reaches the end of the input
        Err(Error::UnexpectedEoF)
    } else {
        match find_run_from(s, i + n, r, n) {
            None => Err(Error::UnexpectedEoF),
            Some(j) => Ok((SpanModel { start: i + n, end: j }, j + n)),
        }
    }
}

/// The model of `until` at position `i`: the text strictly before the first
/// occurrence of `c`, with the cursor left at that occurrence.
pub open spec fn until_at(s: Seq<u8>, i: int, c: u8) -> Result<(SpanModel, int), Error> {
    match find_byte_from(s, i, c) {
        None => Err(Error::UnexpectedEoF),
        Some(j) => Ok((SpanModel { start: i, end: j }, j)),
    }
}

/// The earliest position at or after `i` holding the byte `c`.
fn find_byte(input: &Vec<u8>, i: usize, c: u8) -> (r: Option<usize>)
    requires
        i <= input@.len(),
    ensures
        match r {
            Some(j) => find_byte_from(input@, i as int, c) == Some(j as int) && i <= j
                && j < input@.len(),
            None => find_byte_from(input@, i as int, c) is None,
        },
{
    let mut j = i;
    while j < input.len()
        invariant
            i <= j <= input@.len(),
            find_byte_from(input@, i as int, c) == find_byte_from(input@, j as int, c),
        decreases input@.len() - j,
    {
        if input[j] == c {
            return Some(j);
        }
        j += 1;
    }
    None
}

/// A cursor over a borrowed input buffer: the remaining input is the
/// buffer's suffix from `position` on.
pub struct Parser<'a> {
    stream: &'a Vec<u8>,
    position: usize,
}

impl<'a> Parser<'a> {
    /// The whole input buffer being scanned.
    pub closed spec fn src(&self) -> Seq<u8> {
        self.stream@
    }

    /// The number of bytes consumed so far.
    pub closed spec fn pos(&self) -> int {
        self.position as int
    }

    /// The cursor never runs past the end of the input.
    pub open spec fn wf(&self) -> bool {
        0 <= self.pos() <= self.src().len()
    }

    /// A cursor at the start of `stream`.
    pub fn new(stream: &'a Vec<u8>) -> (r: Parser<'a>)
        ensures
            r.src() == stream@,
            r.pos() == 0,
            r.wf(),
    {
        Parser { stream, position: 0 }
    }

    /// Consume exactly `pattern` at the cursor, or fail without moving.
    pub fn expect(&mut self, pattern: &Vec<u8>) -> (r: Result<(), Error>)
        requires
            old(self).wf(),
        ensures
            final(self).wf(),
            final(self).src() == old(self).src(),
            if matches_at(old(self).src(), old(self).pos(), pattern@) {
                r is Ok && final(self).pos() == old(self).pos() + pattern@.len()
            } else {
                r == Err::<(), Error>(Error::InvalidLeyLine) && final(self).pos() == old(
                    self,
                ).pos()
            },
    {
        if pattern.len() > self.stream.len() - self.position {
            return Err(Error::InvalidLeyLine);
        }
        let mut k: usize = 0;
        while k < pattern.len()
            invariant
                k <= pattern@.len(),
                self == old(self),
                self.position + pattern@.len() <= self.stream@.len(),
                self.stream@.len() <= usize::MAX,
                forall|k2: int|
                    0 <= k2 < k ==> self.stream@[self.position + k2] == pattern@[k2],
            decreases pattern@.len() - k,
        {
            if self.stream[self.position + k] != pattern[k] {
                proof {
                    let s = self.stream@;
                    let i = self.position as int;
                    if matches_at(s, i, pattern@) {
                        assert(s.subrange(i, i + pattern@.len())[k as int] == pattern@[k as int]);
                    }
                }
                return Err(Error::InvalidLeyLine);
            }
            k += 1;
        }
        proof {
            let s = self.stream@;
            let i = self.position as int;
            assert(s.subrange(i, i + pattern@.len()) =~= pattern@);
        }
        self.position = self.position + pattern.len();
        Ok(())
    }

    /// Consume the maximal run of `character` at the cursor and return its
    /// length.  Fails without moving when the run is empty, or when it
    /// reaches the end of the input so that no content can follow it.
    pub fn expect_many(&mut self, character: u8) -> (r: Result<usize, Error>)
        requires
            old(self).wf(),
        ensures
            final(self).wf(),
            final(self).src() == old(self).src(),
            ({
                let s = old(self).src();
                let i = old(self).pos();
                let n = run_len_from(s, i, character);
                if i >= s.len() {
                    r == Err::<usize, Error>(Error::UnexpectedEoF) && final(self).pos() == i
                } else if n == 0 {
                    r == Err::<usize, Error>(Error::InvalidLeyLine) && final(self).pos() == i
                } else if i + n >= s.len() {
                    r == Err::<usize, Error>(Error::UnexpectedEoF) && final(self).pos() == i
                } else {
                    r == Ok::<usize, Error>(n as usize) && final(self).pos() == i + n
                }
            }),
    {
        if self.position >= self.stream.len() {
            return Err(Error::UnexpectedEoF);
        }
        let n = run_len(self.stream, self.position, character);
        if n == 0 {
            return Err(Error::InvalidLeyLine);
        }
        if self.position + n >= self.stream.len() {
            return Err(Error::UnexpectedEoF);
        }
        self.position = self.position + n;
        Ok(n)
    }

    /// The text strictly before the first occurrence of `character`, with
    /// the cursor left at that occurrence; fails without moving when the
    /// byte never occurs.
    pub fn until(&mut self, character: u8) -> (r: Result<Span, Error>)
        requires
            old(self).wf(),
        ensures
            final(self).wf(),
            final(self).src() == old(self).src(),
            match until_at(old(self).src(), old(self).pos(), character) {
                Ok(mp) => match r {
                    Ok(sp) => sp@ == mp.0 && final(self).pos() == mp.1,
                    Err(_) => false,
                },
                Err(e) => r == Err::<Span, Error>(e) && final(self).pos() == old(self).pos(),
            },
            r is Ok ==> old(self).pos() <= final(self).pos(),
    {
        match find_byte(self.stream, self.position, character) {
            None => Err(Error::UnexpectedEoF),
            Some(j) => {
                let sp = Span { start: self.position, end: j };
                self.position = j;
                Ok(sp)
            },
        }
    }

    /// The text between an opening run of `l` and the leftmost equally long
    /// run of `r`: for `l = a` and `r = b`, the cursor `aa text bb` yields
    /// ` text `.  A longer closing run is not rejected; only the first `n`
    /// of its bytes are consumed.  Fails without moving when the opening
    /// run is empty, reaches the end, or is never closed.
    pub fn content_between(&mut self, l: u8, r: u8) -> (res: Result<Span, Error>)
        requires
            old(self).wf(),
        ensures
            final(self).wf(),
            final(self).src() == old(self).src(),
            match content_between_at(old(self).src(), old(self).pos(), l, r) {
                Ok(mp) => match res {
                    Ok(sp) => sp@ == mp.0 && final(self).pos() == mp.1,
                    Err(_) => false,
                },
                Err(e) => res == Err::<Span, Error>(e) && final(self).pos() == old(self).pos(),
            },
            res is Ok ==> old(self).pos() < final(self).pos(),
    {
        if self.position >= self.stream.len() {
            return Err(Error::UnexpectedEoF);
        }
        let n = run_len(self.stream, self.position, l);
        if n == 0 {
            return Err(Error::InvalidLeyLine);
        }
        if self.position + n >= self.stream.len() {
            return Err(Error::UnexpectedEoF);
        }
        match find_run(self.stream, self.position + n, r, n) {
            None => Err(Error::UnexpectedEoF),
            Some(j) => {
                let sp = Span { start: self.position + n, end: j };
                self.position = j + n;
                Ok(sp)
            },
        }
    }

    /// Read the remaining input as a whole document, exactly as
    /// [`Ley::parse`] does from the start of a buffer: trim whitespace,
    /// scan one block at a time — `{..}` nesting further blocks, `[..]`
    /// fencing raw text — and collect the non-comment blocks in source
    /// order.
    pub fn parse(self) -> (r: Result<Ley, Error>)
        requires
            self.wf(),
        ensures
            match scan_document_at(self.src(), self.pos()) {
                Ok(doc) => match r {
                    Ok(ley) => ley@ == doc && ley.structures@.len() == 0,
                    Err(_) => false,
                },
                Err(e) => match r {
                    Ok(_) => false,
                    Err(e2) => e2 == e,
                },
            },
    {
        match scan_document_pos(self.stream, self.position) {
            Ok(lines) => Ok(Ley { structures: Vec::new(), lines }),
            Err(e) => Err(e),
        }
    }
}

} // verus!
