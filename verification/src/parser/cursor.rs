//! A position in a token stream.
use vstd::prelude::*;
use crate::lexer::{Token, TokenKind};
use crate::text::{char_to_string, str_eq};

verus! {

/// The token is the punctuation `c`.
pub open spec fn is_punct_tok(t: Token, c: char) -> bool {
    t.kind == TokenKind::Punct && t.text@ == seq![c]
}

/// The token is the identifier (or keyword) `s`.
pub open spec fn is_ident_tok(t: Token, s: Seq<char>) -> bool {
    t.kind == TokenKind::Ident && t.text@ == s
}

/// Where a `skip_balanced` that started at `i` ends: one past the closer
/// that brings the nesting `depth` back to zero, or the end.
pub open spec fn balanced_end(toks: Seq<Token>, i: int, depth: nat, open: char, close: char) -> int
    decreases toks.len() - i,
{
    if i < 0 || i >= toks.len() {
        toks.len() as int
    } else if is_punct_tok(toks[i], open) {
        balanced_end(toks, i + 1, depth + 1, open, close)
    } else if is_punct_tok(toks[i], close) && depth <= 1 {
        i + 1
    } else if is_punct_tok(toks[i], close) {
        balanced_end(toks, i + 1, (depth - 1) as nat, open, close)
    } else {
        balanced_end(toks, i + 1, depth, open, close)
    }
}

pub proof fn lemma_balanced_end(toks: Seq<Token>, i: int, depth: nat, open: char, close: char)
    requires
        0 <= i,
    ensures
        i < toks.len() ==> i < balanced_end(toks, i, depth, open, close) <= toks.len(),
        i >= toks.len() ==> balanced_end(toks, i, depth, open, close) == toks.len(),
    decreases toks.len() - i,
{
    if i < toks.len() {
        if is_punct_tok(toks[i], open) {
            lemma_balanced_end(toks, i + 1, depth + 1, open, close);
        } else if is_punct_tok(toks[i], close) && depth <= 1 {
        } else if is_punct_tok(toks[i], close) {
            lemma_balanced_end(toks, i + 1, (depth - 1) as nat, open, close);
        } else {
            lemma_balanced_end(toks, i + 1, depth, open, close);
        }
    }
}

pub struct Cursor<'a> {
    pub tokens: &'a [Token],
    pub pos: usize,
}

impl<'a> Cursor<'a> {
    pub open spec fn wf(&self) -> bool {
        self.pos <= self.tokens@.len()
    }

    /// Tokens left.
    pub open spec fn rest(&self) -> int {
        self.tokens@.len() - self.pos
    }

    /// The token under the cursor, if any.
    pub open spec fn cur(&self) -> Option<Token> {
        if self.pos < self.tokens@.len() {
            Some(self.tokens@[self.pos as int])
        } else {
            None
        }
    }

    pub open spec fn at_ident_spec(&self, s: Seq<char>) -> bool {
        self.pos < self.tokens@.len() && is_ident_tok(self.tokens@[self.pos as int], s)
    }

    pub open spec fn at_punct_spec(&self, c: char) -> bool {
        self.pos < self.tokens@.len() && is_punct_tok(self.tokens@[self.pos as int], c)
    }

    pub fn new(tokens: &'a [Token]) -> (r: Cursor<'a>)
        ensures
            r.tokens == tokens,
            r.pos == 0,
    {
        Cursor { tokens, pos: 0 }
    }

    pub fn peek(&self) -> (r: Option<&'a Token>)
        requires
            self.wf(),
        ensures
            r is Some <==> self.pos < self.tokens@.len(),
            r matches Some(t) ==> *t == self.tokens@[self.pos as int],
    {
        if self.pos < self.tokens.len() {
            Some(&self.tokens[self.pos])
        } else {
            None
        }
    }

    /// The token `offset` places after the cursor, if any.
    pub fn peek_at(&self, offset: usize) -> (r: Option<&'a Token>)
        requires
            self.wf(),
        ensures
            self.pos + offset < self.tokens@.len() ==> (r matches Some(t) && *t
                == self.tokens@[self.pos + offset]),
            self.pos + offset >= self.tokens@.len() ==> r is None,
    {
        if offset < self.tokens.len() - self.pos {
            Some(&self.tokens[self.pos + offset])
        } else {
            None
        }
    }

    /// Moves past the current token, if any, and returns it.
    pub fn advance(&mut self) -> (r: Option<&'a Token>)
        requires
            old(self).wf(),
        ensures
            final(self).tokens == old(self).tokens,
            r is Some <==> old(self).pos < old(self).tokens@.len(),
            r matches Some(t) ==> *t == old(self).tokens@[old(self).pos as int],
            final(self).pos == if old(self).pos < old(self).tokens@.len() {
                old(self).pos + 1
            } else {
                old(self).pos as int
            },
    {
        if self.pos < self.tokens.len() {
            let t = &self.tokens[self.pos];
            self.pos = self.pos + 1;
            Some(t)
        } else {
            None
        }
    }

    pub fn at_ident(&self, text: &str) -> (r: bool)
        requires
            self.wf(),
        ensures
            r == self.at_ident_spec(text@),
    {
        if self.pos < self.tokens.len() {
            let t = &self.tokens[self.pos];
            t.kind == TokenKind::Ident && str_eq(t.text.as_str(), text)
        } else {
            false
        }
    }

    pub fn at_punct(&self, c: char) -> (r: bool)
        requires
            self.wf(),
        ensures
            r == self.at_punct_spec(c),
    {
        let needle = char_to_string(c);
        if self.pos < self.tokens.len() {
            let t = &self.tokens[self.pos];
            t.kind == TokenKind::Punct && str_eq(t.text.as_str(), needle.as_str())
        } else {
            false
        }
    }

    /// Moves past the identifier `text` if it is under the cursor.
    pub fn eat_ident(&mut self, text: &str) -> (r: bool)
        requires
            old(self).wf(),
        ensures
            final(self).tokens == old(self).tokens,
            r == old(self).at_ident_spec(text@),
            final(self).pos == old(self).pos + if r {
                1int
            } else {
                0
            },
    {
        if self.at_ident(text) {
            self.advance();
            true
        } else {
            false
        }
    }

    /// Moves past the punctuation `c` if it is under the cursor.
    pub fn eat_punct(&mut self, c: char) -> (r: bool)
        requires
            old(self).wf(),
        ensures
            final(self).tokens == old(self).tokens,
            r == old(self).at_punct_spec(c),
            final(self).pos == old(self).pos + if r {
                1int
            } else {
                0
            },
    {
        if self.at_punct(c) {
            self.advance();
            true
        } else {
            false
        }
    }

    /// At an `open`, moves one past the `close` that balances it (or to
    /// the end); elsewhere, stays.
    pub fn skip_balanced(&mut self, open: char, close: char)
        requires
            old(self).wf(),
        ensures
            final(self).tokens == old(self).tokens,
            final(self).pos == if old(self).at_punct_spec(open) {
                balanced_end(old(self).tokens@, old(self).pos as int, 0, open, close)
            } else {
                old(self).pos as int
            },
    {
        if !self.at_punct(open) {
            return;
        }
        let ghost start = self.pos as int;
        let ghost toks = self.tokens@;
        let ghost t0 = self.tokens;
        let n = self.tokens.len();
        let open_s = char_to_string(open);
        let close_s = char_to_string(close);
        let mut depth: usize = 0;
        while self.pos < self.tokens.len()
            invariant
                self.tokens == t0,
                t0 == old(self).tokens,
                start == old(self).pos,
                old(self).at_punct_spec(open),
                t0@ == toks,
                n == toks.len(),
                start < toks.len(),
                start <= self.pos <= toks.len(),
                toks.len() <= usize::MAX,
                depth <= self.pos - start,
                self.pos == start ==> depth == 0 && is_punct_tok(toks[start], open),
                open_s@ == seq![open],
                close_s@ == seq![close],
                self.pos > start ==> depth >= 1,
                balanced_end(toks, self.pos as int, depth as nat, open, close) == balanced_end(
                    toks,
                    start,
                    0,
                    open,
                    close,
                ),
            decreases toks.len() - self.pos,
        {
            let t = &self.tokens[self.pos];
            if t.kind == TokenKind::Punct {
                if str_eq(t.text.as_str(), open_s.as_str()) {
                    assert(depth < n);
                    depth = depth + 1;
                } else if str_eq(t.text.as_str(), close_s.as_str()) {
                    if depth <= 1 {
                        self.pos = self.pos + 1;
                        return;
                    }
                    depth = depth - 1;
                }
            }
            self.pos = self.pos + 1;
        }
    }
}

} // verus!
