//! A cursor over the bytes of a graph description.

use vstd::prelude::*;
use vstd::slice::slice_subrange;
use vstd::string::StringSliceAdditionalSpecFns;

verus! {

/// The space character.
pub const SPACE: u8 = 32;

/// The horizontal tab.
pub const TAB: u8 = 9;

/// The line feed.
pub const LINE_FEED: u8 = 10;

/// The carriage return.
pub const CARRIAGE_RETURN: u8 = 13;

/// `,` joins the filters of one chain.
pub const COMMA: u8 = 44;

/// `:` joins the options of one filter.
pub const COLON: u8 = 58;

/// `;` ends a chain, and the leading directive.
pub const SEMICOLON: u8 = 59;

/// `=` stands between a filter's name and its arguments.
pub const EQUALS: u8 = 61;

/// `@` stands between a filter's name and the name of an instance.
pub const AT_SIGN: u8 = 64;

/// `[` opens a link label.
pub const OPEN_BRACKET: u8 = 91;

/// `]` closes a link label.
pub const CLOSE_BRACKET: u8 = 93;

/// Whether `b` is one of the blanks that separate the tokens of a graph
/// description: space, tab, line feed or carriage return.
pub open spec fn is_blank(b: u8) -> bool {
    b == SPACE || b == TAB || b == LINE_FEED || b == CARRIAGE_RETURN
}

/// The position after the run of blanks that starts at `pos`.
pub open spec fn blanks_end(text: Seq<u8>, pos: int) -> int
    decreases text.len() - pos,
{
    if 0 <= pos < text.len() && is_blank(text[pos]) {
        blanks_end(text, pos + 1)
    } else {
        pos
    }
}

/// The first position from `pos` on at which `text` holds a byte that
/// `stop` accepts; the length of `text` if there is none.
pub open spec fn scan_to(text: Seq<u8>, pos: int, stop: spec_fn(u8) -> bool) -> int
    decreases text.len() - pos,
{
    if 0 <= pos < text.len() && !stop(text[pos]) {
        scan_to(text, pos + 1, stop)
    } else {
        pos
    }
}

/// The test that accepts the byte `c` and no other.
pub open spec fn is_byte(c: u8) -> spec_fn(u8) -> bool {
    |b: u8| b == c
}

/// `scan_to` is the one position `end` such that `stop` accepts no byte
/// from `pos` up to `end` and accepts the byte at `end`, if there is one.
pub proof fn lemma_scan_to(text: Seq<u8>, pos: int, end: int, stop: spec_fn(u8) -> bool)
    requires
        0 <= pos <= end <= text.len(),
        forall|i: int| pos <= i < end ==> !stop(#[trigger] text[i]),
        end < text.len() ==> stop(text[end]),
    ensures
        scan_to(text, pos, stop) == end,
    decreases end - pos,
{
    if pos < end {
        lemma_scan_to(text, pos + 1, end, stop);
    }
}

/// `scan_to` stays between its start and the end of the text, and `stop`
/// accepts none of the bytes it passes.
pub proof fn lemma_scan_to_bounds(text: Seq<u8>, pos: int, stop: spec_fn(u8) -> bool)
    requires
        0 <= pos <= text.len(),
    ensures
        pos <= scan_to(text, pos, stop) <= text.len(),
        forall|i: int| pos <= i < scan_to(text, pos, stop) ==> !stop(#[trigger] text[i]),
        scan_to(text, pos, stop) < text.len() ==> stop(text[scan_to(text, pos, stop)]),
    decreases text.len() - pos,
{
    if pos < text.len() && !stop(text[pos]) {
        lemma_scan_to_bounds(text, pos + 1, stop);
    }
}

/// The run of blanks that starts at `pos` ends inside the text.
pub proof fn lemma_blanks_end_bounds(text: Seq<u8>, pos: int)
    requires
        0 <= pos <= text.len(),
    ensures
        pos <= blanks_end(text, pos) <= text.len(),
    decreases text.len() - pos,
{
    if pos < text.len() && is_blank(text[pos]) {
        lemma_blanks_end_bounds(text, pos + 1);
    }
}

/// A read position in a borrowed buffer.  The buffer is never copied: every
/// slice handed out borrows from it.
pub struct GraphParser<'buffer> {
    buf: &'buffer [u8],
    pos: usize,
}

impl<'buffer> GraphParser<'buffer> {
    /// What holds of every parser: the cursor is inside the buffer or at
    /// its end.
    #[verifier::type_invariant]
    pub closed spec fn in_bounds(&self) -> bool {
        self.pos <= self.buf@.len()
    }

    /// The whole buffer.
    pub closed spec fn text(&self) -> Seq<u8> {
        self.buf@
    }

    /// How many bytes of the buffer lie before the cursor.
    pub closed spec fn cursor(&self) -> int {
        self.pos as int
    }

    /// The bytes from the cursor to the end of the buffer.
    pub open spec fn rest(&self) -> Seq<u8> {
        self.text().subrange(self.cursor(), self.text().len() as int)
    }

    /// The cursor never leaves the buffer, and the buffer's length is one
    /// that the machine can hold.
    pub proof fn lemma_cursor_in_bounds(&self)
        requires
            self.in_bounds(),
        ensures
            0 <= self.cursor() <= self.text().len() <= usize::MAX,
    {
        broadcast use vstd::slice::group_slice_axioms;

        assert(vstd::slice::spec_slice_len(self.buf) == self.buf@.len());
    }

    /// A parser at the start of the bytes of `bytes`.
    pub fn new(bytes: &'buffer str) -> (p: Self)
        ensures
            p.text() == bytes.spec_bytes(),
            p.cursor() == 0,
    {
        GraphParser { buf: bytes.as_bytes(), pos: 0 }
    }

    /// Takes the next byte, if there is one.
    pub fn get(&mut self) -> (b: Option<u8>)
        ensures
            final(self).text() == old(self).text(),
            old(self).cursor() < old(self).text().len() ==> b == Some(
                old(self).text()[old(self).cursor()],
            ) && final(self).cursor() == old(self).cursor() + 1,
            old(self).cursor() >= old(self).text().len() ==> b.is_none() && final(self).cursor()
                == old(self).cursor(),
    {
        proof {
            use_type_invariant(&*self);
        }
        if self.pos < self.buf.len() {
            let x = self.buf[self.pos];
            self.pos = self.pos + 1;
            Some(x)
        } else {
            None
        }
    }

    /// The next byte, if there is one; the cursor stays.
    pub fn peek(&self) -> (b: Option<u8>)
        ensures
            self.cursor() < self.text().len() ==> b == Some(self.text()[self.cursor()]),
            self.cursor() >= self.text().len() ==> b.is_none(),
    {
        proof {
            use_type_invariant(self);
        }
        if self.pos < self.buf.len() {
            Some(self.buf[self.pos])
        } else {
            None
        }
    }

    /// The next `len` bytes, if that many are left; the cursor stays.
    pub fn peek_len(&self, len: usize) -> (window: Option<&'buffer [u8]>)
        ensures
            self.cursor() + len <= self.text().len() ==> window.is_some() && window.unwrap()@
                == self.text().subrange(self.cursor(), self.cursor() + len),
            self.cursor() + len > self.text().len() ==> window.is_none(),
    {
        proof {
            use_type_invariant(self);
        }
        if self.buf.len() - self.pos >= len {
            Some(slice_subrange(self.buf, self.pos, self.pos + len))
        } else {
            None
        }
    }

    /// The bytes from the cursor up to the first byte that `f` accepts, if
    /// `f` accepts any byte that is left; the cursor stays.
    pub fn peek_until<F>(&self, f: F) -> (found: Option<&'buffer [u8]>) where F: Fn(u8) -> bool
        requires
            forall|b: u8| f.requires((b,)),
        ensures
            match found {
                Some(s) => {
                    &&& self.cursor() + s@.len() < self.text().len()
                    &&& s@ == self.text().subrange(self.cursor(), self.cursor() + s@.len())
                    &&& forall|i: int|
                        self.cursor() <= i < self.cursor() + s@.len() ==> f.ensures(
                            (#[trigger] self.text()[i],),
                            false,
                        )
                    &&& f.ensures((self.text()[self.cursor() + s@.len()],), true)
                },
                None => forall|i: int|
                    self.cursor() <= i < self.text().len() ==> f.ensures(
                        (#[trigger] self.text()[i],),
                        false,
                    ),
            },
    {
        proof {
            use_type_invariant(self);
        }
        let mut it: usize = self.pos;
        while it < self.buf.len()
            invariant
                self.pos <= it <= self.buf@.len(),
                forall|b: u8| f.requires((b,)),
                forall|i: int| self.pos <= i < it ==> f.ensures((#[trigger] self.buf@[i],), false),
            decreases self.buf@.len() - it,
        {
            if f(self.buf[it]) {
                return Some(slice_subrange(self.buf, self.pos, it));
            }
            it = it + 1;
        }
        None
    }

    /// The bytes from the cursor up to the first byte that `f` accepts, or
    /// to the end of the buffer if `f` accepts none; the cursor stays.
    pub fn peek_until_end<F>(&self, f: F) -> (s: &'buffer [u8]) where F: Fn(u8) -> bool
        requires
            forall|b: u8| f.requires((b,)),
        ensures
            self.cursor() + s@.len() <= self.text().len(),
            s@ == self.text().subrange(self.cursor(), self.cursor() + s@.len()),
            forall|i: int|
                self.cursor() <= i < self.cursor() + s@.len() ==> f.ensures(
                    (#[trigger] self.text()[i],),
                    false,
                ),
            self.cursor() + s@.len() < self.text().len() ==> f.ensures(
                (self.text()[self.cursor() + s@.len()],),
                true,
            ),
    {
        proof {
            use_type_invariant(self);
        }
        let mut it: usize = self.pos;
        while it < self.buf.len()
            invariant
                self.pos <= it <= self.buf@.len(),
                forall|b: u8| f.requires((b,)),
                forall|i: int| self.pos <= i < it ==> f.ensures((#[trigger] self.buf@[i],), false),
            decreases self.buf@.len() - it,
        {
            if f(self.buf[it]) {
                return slice_subrange(self.buf, self.pos, it);
            }
            it = it + 1;
        }
        slice_subrange(self.buf, self.pos, it)
    }

    /// Everything from the cursor to the end of the buffer; the cursor stays.
    pub fn remaining(&self) -> (s: &'buffer [u8])
        ensures
            s@ == self.rest(),
    {
        proof {
            use_type_invariant(self);
        }
        slice_subrange(self.buf, self.pos, self.buf.len())
    }

    /// Moves the cursor past the blanks in front of it.
    pub fn skip_ws(&mut self)
        ensures
            final(self).text() == old(self).text(),
            final(self).cursor() == blanks_end(old(self).text(), old(self).cursor()),
    {
        proof {
            use_type_invariant(&*self);
        }
        let mut it: usize = self.pos;
        while it < self.buf.len() && (self.buf[it] == SPACE || self.buf[it] == LINE_FEED
            || self.buf[it] == CARRIAGE_RETURN || self.buf[it] == TAB)
            invariant
                self.pos <= it <= self.buf@.len(),
                blanks_end(self.buf@, self.pos as int) == blanks_end(self.buf@, it as int),
            decreases self.buf@.len() - it,
        {
            it = it + 1;
        }
        self.pos = it;
    }

    /// Moves the cursor `i` bytes on, or to the end of the buffer if fewer
    /// than `i` bytes are left.
    pub fn skip(&mut self, i: usize)
        ensures
            final(self).text() == old(self).text(),
            final(self).cursor() == if old(self).cursor() + i <= old(self).text().len() {
                old(self).cursor() + i
            } else {
                old(self).text().len() as int
            },
    {
        proof {
            use_type_invariant(&*self);
        }
        if i <= self.buf.len() - self.pos {
            self.pos = self.pos + i;
        } else {
            self.pos = self.buf.len();
        }
    }
}

} // verus!
