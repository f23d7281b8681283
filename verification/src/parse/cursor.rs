use vstd::prelude::*;
use crate::error::{Error, ErrorKind};
use crate::token::{debug_text, kind_tag, Token, TokenKind};

verus! {

/// A token stream ends with `Eof`.
pub open spec fn ends_with_eof(toks: Seq<Token>) -> bool {
    toks.len() > 0 && toks.last().kind is Eof
}

/// A position in a token stream that ends with `Eof`; the position never
/// moves past the `Eof`.
pub struct Cursor<'a> {
    toks: &'a [Token],
    pos: usize,
}

/// Whether two kinds are the same variant, payloads aside.
pub open spec fn same_variant(a: TokenKind, b: TokenKind) -> bool {
    kind_tag(a) == kind_tag(b)
}

/// The diagnostic for an unexpected token `t`.
pub open spec fn unexpected_at(e: Error, t: Token, expected: Seq<char>) -> bool {
    &&& e.span == t.span
    &&& match e.kind {
        ErrorKind::Unexpected { found, expected: x } => found@ == debug_text(t.kind@) && x@
            == expected,
        _ => false,
    }
}

/// `b` is `a` moved forward over the same tokens, perhaps by nothing.
pub open spec fn advanced(a: Cursor, b: Cursor) -> bool {
    b.tokens() == a.tokens() && a.position() <= b.position() && b.position() < b.tokens().len()
}

/// `b` is `a` moved forward over the same tokens by at least one token.
pub open spec fn progressed(a: Cursor, b: Cursor) -> bool {
    b.tokens() == a.tokens() && a.position() < b.position() && b.position() < b.tokens().len()
}

impl<'a> Cursor<'a> {
    #[verifier::type_invariant]
    spec fn inv(&self) -> bool {
        ends_with_eof(self.toks@) && self.pos < self.toks@.len()
    }

    pub closed spec fn tokens(&self) -> Seq<Token> {
        self.toks@
    }

    pub closed spec fn position(&self) -> int {
        self.pos as int
    }

    /// The tokens not consumed yet, the current one included.
    pub open spec fn remaining(&self) -> nat {
        (self.tokens().len() - self.position()) as nat
    }

    /// The current token.
    pub open spec fn cur(&self) -> Token {
        self.tokens()[self.position()]
    }

    /// The token `n` places ahead, if the stream reaches that far.
    pub open spec fn ahead(&self, n: int) -> Option<TokenKind> {
        if self.position() + n < self.tokens().len() {
            Some(self.tokens()[self.position() + n].kind)
        } else {
            None
        }
    }

    /// The stream ends with `Eof` and the position is inside it.
    pub fn in_bounds(&self)
        ensures
            ends_with_eof(self.tokens()),
            0 <= self.position() < self.tokens().len() <= usize::MAX,
    {
        proof { use_type_invariant(self); }
        let _n = self.toks.len();
    }

    pub fn new(toks: &'a [Token]) -> (c: Self)
        requires
            ends_with_eof(toks@),
        ensures
            c.tokens() == toks@,
            c.position() == 0,
    {
        Cursor { toks, pos: 0 }
    }

    pub fn peek(&self) -> (t: &Token)
        ensures
            *t == self.cur(),
    {
        proof { use_type_invariant(self); }
        &self.toks[self.pos]
    }

    pub fn peek_kind(&self) -> (k: &TokenKind)
        ensures
            *k == self.cur().kind,
    {
        proof { use_type_invariant(self); }
        &self.toks[self.pos].kind
    }

    /// The kind of the token `n` places ahead, if the stream reaches that far.
    pub fn peek_n(&self, n: usize) -> (k: Option<&TokenKind>)
        ensures
            match k {
                Some(t) => self.ahead(n as int) == Some(*t),
                None => self.ahead(n as int) is None,
            },
    {
        proof { use_type_invariant(self); }
        if n < self.toks.len() - self.pos {
            Some(&self.toks[self.pos + n].kind)
        } else {
            None
        }
    }

    pub fn at_end(&self) -> (r: bool)
        ensures
            r == (self.cur().kind is Eof),
    {
        match self.peek_kind() {
            TokenKind::Eof => true,
            _ => false,
        }
    }

    /// Consumes the current token, unless it is the final `Eof`.
    pub fn bump(&mut self) -> (t: Token)
        ensures
            t == old(self).cur(),
            advanced(*old(self), *final(self)),
            old(self).position() < old(self).tokens().len(),
            final(self).tokens() == old(self).tokens(),
            final(self).position() == if old(self).cur().kind is Eof {
                old(self).position()
            } else {
                old(self).position() + 1
            },
    {
        proof { use_type_invariant(&*self); }
        let t = self.toks[self.pos].clone_token();
        if !self.at_end() {
            self.pos = self.pos + 1;
        }
        proof { use_type_invariant(&*self); }
        t
    }

    /// Whether the current token is of the same variant as `k`.
    pub fn check(&self, k: &TokenKind) -> (r: bool)
        ensures
            r == same_variant(*k, self.cur().kind),
    {
        k.tag() == self.peek_kind().tag()
    }

    /// Consumes the current token if it is of the variant of `k`.
    pub fn eat(&mut self, k: &TokenKind) -> (r: bool)
        ensures
            r == same_variant(*k, old(self).cur().kind),
            advanced(*old(self), *final(self)),
            final(self).tokens() == old(self).tokens(),
            final(self).position() == if r && !(old(self).cur().kind is Eof) {
                old(self).position() + 1
            } else {
                old(self).position()
            },
    {
        self.in_bounds();
        if self.check(k) {
            self.bump();
            true
        } else {
            false
        }
    }

    /// Consumes the current token if it is of the variant of `k`, else
    /// reports what was found instead of `expected`.
    pub fn expect(&mut self, k: TokenKind, expected: &'static str) -> (r: Result<Token, Error>)
        ensures
            advanced(*old(self), *final(self)),
            match r {
                Ok(t) => same_variant(k, old(self).cur().kind) && t == old(self).cur()
                    && final(self).position() == if old(self).cur().kind is Eof {
                    old(self).position()
                } else {
                    old(self).position() + 1
                },
                Err(e) => !same_variant(k, old(self).cur().kind) && final(self).position()
                    == old(self).position() && unexpected_at(e, old(self).cur(), expected@),
            },
    {
        self.in_bounds();
        if self.check(&k) {
            Ok(self.bump())
        } else {
            Err(self.unexpected(expected))
        }
    }

    /// The diagnostic for the current token where `expected` was wanted.
    pub fn unexpected(&self, expected: &'static str) -> (e: Error)
        ensures
            unexpected_at(e, self.cur(), expected@),
    {
        let t = self.peek();
        Error {
            span: t.span,
            kind: ErrorKind::Unexpected { found: t.kind.debug_string(), expected },
        }
    }
}

} // verus!
