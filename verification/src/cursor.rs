use vstd::prelude::*;
use vstd::string::StrSliceExecFns;

verus! {

/// Sequential, one-pass access to the input's characters with
/// single-character lookahead. The position only ever moves forward, and
/// exhaustion is not an error: it is the normal way input ends.
pub struct Cursor<'a> {
    input: &'a str,
    len: usize,
    pos: usize,
}

impl<'a> Cursor<'a> {
    /// The cached length is the input's character count and the position
    /// stays inside the input.
    pub closed spec fn wf(self) -> bool {
        self.len == self.input@.len() && self.pos <= self.len
    }

    /// The full character sequence the cursor walks over.
    pub closed spec fn text(self) -> Seq<char> {
        self.input@
    }

    /// How many characters have been consumed so far.
    pub closed spec fn spec_position(self) -> int {
        self.pos as int
    }

    /// The characters not yet consumed.
    pub closed spec fn remaining(self) -> Seq<char> {
        self.input@.skip(self.pos as int)
    }

    /// What the cursor still holds is exactly its text from the current
    /// position on.
    pub proof fn lemma_view(self)
        requires
            self.wf(),
        ensures
            0 <= self.spec_position() <= self.text().len(),
            self.remaining() == self.text().skip(self.spec_position()),
    {
    }

    /// Makes a cursor standing at the start of `input`.
    pub fn new(input: &'a str) -> (c: Cursor<'a>)
        ensures
            c.wf(),
            c.text() == input@,
            c.spec_position() == 0,
            c.remaining() == input@,
    {
        let len = input.unicode_len();
        let c = Cursor { input, len, pos: 0 };
        proof {
            assert(c.remaining() =~= input@);
        }
        c
    }

    /// Returns the current position.
    pub fn position(&self) -> (p: usize)
        ensures
            p == self.spec_position(),
    {
        self.pos
    }

    /// Returns the next character without consuming it, or `None` at
    /// exhaustion. Repeated calls return the same character.
    pub fn peek(&self) -> (r: Option<char>)
        requires
            self.wf(),
        ensures
            self.remaining().len() == 0 ==> r is None,
            self.remaining().len() > 0 ==> r == Some(self.remaining()[0]),
    {
        if self.pos < self.len {
            proof {
                assert(self.remaining()[0] == self.input@[self.pos as int]);
            }
            Some(self.input.get_char(self.pos))
        } else {
            None
        }
    }

    /// Returns the next character and moves the position forward past it,
    /// or `None` at exhaustion, which leaves the cursor unchanged.
    pub fn advance(&mut self) -> (r: Option<char>)
        requires
            old(self).wf(),
        ensures
            final(self).wf(),
            final(self).text() == old(self).text(),
            old(self).remaining().len() == 0 ==> r is None && *final(self) == *old(self),
            old(self).remaining().len() > 0 ==> {
                &&& r == Some(old(self).remaining()[0])
                &&& final(self).spec_position() == old(self).spec_position() + 1
                &&& final(self).remaining() == old(self).remaining().skip(1)
            },
    {
        if self.pos < self.len {
            let c = self.input.get_char(self.pos);
            self.pos = self.pos + 1;
            proof {
                assert(old(self).remaining()[0] == self.input@[old(self).pos as int]);
                assert(self.remaining() =~= old(self).remaining().skip(1));
            }
            Some(c)
        } else {
            None
        }
    }

    /// Copies the characters between two already-visited positions out as an
    /// owned string.
    pub(crate) fn slice_to_string(&self, from: usize, to: usize) -> (s: String)
        requires
            self.wf(),
            from <= to,
            to as int <= self.text().len(),
        ensures
            s@ == self.text().subrange(from as int, to as int),
    {
        let piece = self.input.substring_char(from, to);
        piece.to_owned()
    }
}

} // verus!
