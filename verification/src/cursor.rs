use vstd::prelude::*;

verus! {

/// A shared, stateful position marker over the token sequence. Whichever
/// descriptor consumes trailing value tokens advances the same cursor, so
/// tokens are never read twice.
pub struct TokenCursor {
    pub tokens: Vec<String>,
    pub pos: usize,
}

impl TokenCursor {
    /// The next token, if one remains.
    pub open spec fn peek_spec(&self) -> Option<Seq<char>> {
        if self.pos < self.tokens@.len() {
            Some(self.tokens@[self.pos as int]@)
        } else {
            None
        }
    }

    /// The cursor after one token has been consumed (unchanged when exhausted).
    pub open spec fn advanced(&self) -> TokenCursor {
        if self.pos < self.tokens@.len() {
            TokenCursor { tokens: self.tokens, pos: (self.pos + 1) as usize }
        } else {
            *self
        }
    }

    /// Wrap a token sequence, positioned at its first token.
    pub fn new(tokens: Vec<String>) -> (c: TokenCursor)
        ensures
            c.tokens@ == tokens@,
            c.pos == 0,
    {
        TokenCursor { tokens, pos: 0 }
    }

    /// Consume and return the next token, or report exhaustion.
    pub fn next(&mut self) -> (r: Option<String>)
        ensures
            *final(self) == old(self).advanced(),
            match r {
                Some(t) => old(self).peek_spec() == Some(t@),
                None => old(self).peek_spec() is None,
            },
    {
        if self.pos < self.tokens.len() {
            let t = self.tokens[self.pos].clone();
            self.pos = self.pos + 1;
            Some(t)
        } else {
            None
        }
    }
}

} // verus!
