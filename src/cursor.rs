//! A read position over the characters of the input.
use vstd::prelude::*;
use crate::grammar::char_at;

verus! {

/// The input's characters and the offset of the next one to read.
pub struct Cursor {
    chars: Vec<char>,
    pos: usize,
}

impl Cursor {
    /// The whole input.
    pub closed spec fn text(&self) -> Seq<char> {
        self.chars@
    }

    /// The offset of the next character to read.
    pub closed spec fn pos(&self) -> int {
        self.pos as int
    }

    #[verifier::type_invariant]
    closed spec fn in_bounds(&self) -> bool {
        self.pos <= self.chars.len()
    }

    pub fn new(input: &str) -> (c: Cursor)
        ensures
            c.text() == input@,
            c.pos() == 0,
    {
        let mut chars: Vec<char> = Vec::new();
        for ch in it: input.chars()
            invariant
                chars@ == it.seq().take(it.index() as int),
                it.seq() == input@,
        {
            chars.push(ch);
        }
        Cursor { chars, pos: 0 }
    }

    /// The next character, without consuming it; `None` at the end.
    pub fn peek(&self) -> (r: Option<char>)
        ensures
            r == char_at(self.text(), self.pos()),
            0 <= self.pos() <= self.text().len(),
    {
        proof { use_type_invariant(self); }
        if self.pos < self.chars.len() {
            Some(self.chars[self.pos])
        } else {
            None
        }
    }

    /// Consumes and returns the next character; `None`, and no move, at the end.
    pub fn advance(&mut self) -> (r: Option<char>)
        ensures
            r == char_at(old(self).text(), old(self).pos()),
            final(self).text() == old(self).text(),
            final(self).pos() == if old(self).pos() < old(self).text().len() {
                old(self).pos() + 1
            } else {
                old(self).pos()
            },
            0 <= final(self).pos() <= final(self).text().len(),
            0 <= old(self).pos() <= old(self).text().len(),
    {
        proof { use_type_invariant(&*self); }
        if self.pos < self.chars.len() {
            let ch = self.chars[self.pos];
            self.pos = self.pos + 1;
            Some(ch)
        } else {
            None
        }
    }

    /// The offset of the next character to read.
    /// It never passes the end of the input.
    pub fn position(&self) -> (r: usize)
        ensures
            r == self.pos(),
            0 <= self.pos() <= self.text().len(),
    {
        proof { use_type_invariant(self); }
        self.pos
    }
}

} // verus!
