//! The cursor that parsers read from.
use vstd::prelude::*;

verus! {

/// A cursor into a text: the whole text and an index into it. Moving on gives
/// a new cursor and leaves the old one as it was, so a parser that failed has
/// consumed nothing that its caller could miss. A cursor is two machine words
/// and is copied wherever it goes.
#[derive(Clone, Copy, Debug, PartialEq, Eq)]
pub struct Input<'a> {
    pub text: &'a Vec<char>,
    pub pos: usize,
}

/// What a parser answers: the value it read with the cursor behind it, or no
/// match.
pub type Res<'a, T> = Option<(T, Input<'a>)>;

impl<'a> Input<'a> {
    /// How many characters are still ahead of the cursor.
    pub open spec fn remaining(self) -> nat {
        if self.pos <= self.text@.len() {
            (self.text@.len() - self.pos) as nat
        } else {
            0
        }
    }

    /// The character under the cursor; meaningful while `remaining() > 0`.
    pub open spec fn head(self) -> char
        recommends
            self.remaining() > 0,
    {
        self.text@[self.pos as int]
    }

    /// The cursor over the same text at index `pos`.
    pub open spec fn at(self, pos: int) -> Input<'a> {
        Input { text: self.text, pos: pos as usize }
    }

    /// The cursor one character further.
    pub open spec fn tail(self) -> Input<'a>
        recommends
            self.remaining() > 0,
    {
        self.at(self.pos + 1)
    }

    /// A text is never longer than an index can tell, so the cursor behind a
    /// character of the text is one index further.
    pub proof fn lemma_tail(self)
        ensures
            self.text@.len() <= usize::MAX,
            self.remaining() > 0 ==> self.tail().pos == self.pos + 1 && self.tail().remaining()
                == self.remaining() - 1,
    {
        vstd::std_specs::vec::axiom_spec_len(self.text);
    }

    /// The cursor at the start of `text`.
    pub fn new(text: &'a Vec<char>) -> (s: Self)
        ensures
            s.text == text,
            s.pos == 0,
    {
        Input { text, pos: 0 }
    }
}

} // verus!
