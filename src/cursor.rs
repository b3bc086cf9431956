use vstd::prelude::*;

verus! {

/// A source of characters with one character of lookahead: the scanners'
/// only view of their input. Its model is the sequence of characters that
/// have not been consumed yet.
pub trait CharSource {
    /// The characters that are still to be consumed, in order.
    spec fn remaining(&self) -> Seq<char>;

    /// The next character, without consuming it; `None` at end of input.
    fn peek(&self) -> (next: Option<char>)
        ensures
            next == (if self.remaining().len() > 0 {
                Some(self.remaining()[0])
            } else {
                None::<char>
            }),
    ;

    /// Consumes the next character.
    fn advance(&mut self)
        requires
            old(self).remaining().len() > 0,
        ensures
            final(self).remaining() == old(self).remaining().drop_first(),
    ;
}

/// A cursor over characters held in memory.
pub struct Cursor {
    chars: Vec<char>,
    pos: usize,
}

impl Cursor {
    /// All the characters the cursor runs over, consumed or not.
    pub closed spec fn text(&self) -> Seq<char> {
        self.chars@
    }

    /// How many characters have been consumed.
    pub closed spec fn pos(&self) -> nat {
        self.pos as nat
    }

    #[verifier::type_invariant]
    closed spec fn within_text(&self) -> bool {
        self.pos <= self.chars.len()
    }

    /// A cursor at the first character of `s`.
    pub fn new(s: &str) -> (c: Cursor)
        ensures
            c.text() == s@,
            c.pos() == 0,
            c.remaining() == s@,
    {
        let mut chars: Vec<char> = Vec::new();
        for ch in it: s.chars()
            invariant
                chars@ == it.seq().take(it.index() as int),
        {
            chars.push(ch);
        }
        assert(chars@ =~= s@);
        let c = Cursor { chars, pos: 0 };
        assert(c.remaining() =~= s@);
        c
    }

    /// How many characters have been consumed.
    pub fn position(&self) -> (n: usize)
        ensures
            n == self.pos(),
    {
        self.pos
    }
}

impl CharSource for Cursor {
    closed spec fn remaining(&self) -> Seq<char> {
        self.text().skip(self.pos() as int)
    }

    fn peek(&self) -> (next: Option<char>) {
        proof {
            use_type_invariant(self);
        }
        if self.pos < self.chars.len() {
            Some(self.chars[self.pos])
        } else {
            None
        }
    }

    fn advance(&mut self) {
        proof {
            use_type_invariant(&*self);
        }
        self.pos = self.pos + 1;
        assert(self.remaining() =~= old(self).remaining().drop_first());
    }
}

} // verus!
