use vstd::prelude::*;
use crate::token::{SKind, TokenKind};

verus! {

/// Tracks what decides whether a `\n` becomes a `Newline` token, is
/// suppressed (line continuation), or is swallowed (inside brackets).
#[derive(Debug)]
pub struct Layout {
    pub paren_depth: u32,
    pub last_significant: Option<TokenKind>,
    /// Column widths of the open indented blocks, starting with 0.
    pub indent_stack: Vec<u32>,
}

/// A kind after which an expression continues on the next line.
pub open spec fn continues(k: SKind) -> bool {
    match k {
        SKind::Plain(t) => t is Plus || t is Minus || t is Star || t is Slash || t is Caret
            || t is EqEq || t is SlashEq || t is Lt || t is LtEq || t is Gt || t is GtEq
            || t is PlusPlus || t is Comma,
        _ => false,
    }
}

/// Whether a `\n` is swallowed, given the bracket depth and the last
/// significant token.
pub open spec fn suppresses(depth: nat, last: Option<SKind>) -> bool {
    depth > 0 || (last matches Some(k) && continues(k))
}

pub open spec fn is_layout_kind(k: SKind) -> bool {
    match k {
        SKind::Plain(t) => t is Newline || t is Indent || t is Dedent,
        _ => false,
    }
}

/// The bracket depth after a token of kind `k`.
pub open spec fn depth_after(depth: nat, k: SKind) -> nat {
    match k {
        SKind::Plain(t) => if t is LParen || t is LBracket {
            depth + 1
        } else if t is RParen || t is RBracket {
            if depth > 0 {
                (depth - 1) as nat
            } else {
                0
            }
        } else {
            depth
        },
        _ => depth,
    }
}

/// The last significant token after a token of kind `k`.
pub open spec fn last_after(last: Option<SKind>, k: SKind) -> Option<SKind> {
    if is_layout_kind(k) {
        last
    } else {
        Some(k)
    }
}

/// An indent stack starts at column 0 and grows strictly.
pub open spec fn stack_wf(s: Seq<u32>) -> bool {
    &&& s.len() > 0
    &&& s[0] == 0
    &&& forall|i: int, j: int| 0 <= i < j < s.len() ==> s[i] < s[j]
}

impl Layout {
    pub open spec fn last_view(&self) -> Option<SKind> {
        match self.last_significant {
            Some(k) => Some(k@),
            None => None,
        }
    }

    pub fn new() -> (l: Self)
        ensures
            l.paren_depth == 0,
            l.last_view() == None::<SKind>,
            l.indent_stack@ == seq![0u32],
    {
        Layout { paren_depth: 0, last_significant: None, indent_stack: vec![0] }
    }

    /// The column of the innermost open block.
    pub fn top(&self) -> (c: u32)
        requires
            self.indent_stack@.len() > 0,
        ensures
            c == self.indent_stack@.last(),
    {
        self.indent_stack[self.indent_stack.len() - 1]
    }

    /// Updates the bookkeeping after a token of kind `k` was emitted.
    pub fn note_emitted(&mut self, k: &TokenKind)
        requires
            old(self).paren_depth < u32::MAX,
        ensures
            final(self).paren_depth == depth_after(old(self).paren_depth as nat, k@),
            final(self).last_view() == last_after(old(self).last_view(), k@),
            final(self).indent_stack@ == old(self).indent_stack@,
    {
        match k {
            TokenKind::LParen | TokenKind::LBracket => self.paren_depth = self.paren_depth + 1,
            TokenKind::RParen | TokenKind::RBracket => {
                self.paren_depth = if self.paren_depth > 0 {
                    self.paren_depth - 1
                } else {
                    0
                };
            },
            _ => {},
        }
        if !k.is_layout() {
            self.last_significant = Some(k.copy());
        }
    }

    /// True when the next `\n` should be consumed without a `Newline` token.
    pub fn suppresses_newline(&self) -> (r: bool)
        ensures
            r == suppresses(self.paren_depth as nat, self.last_view()),
    {
        if self.paren_depth > 0 {
            return true;
        }
        match &self.last_significant {
            Some(k) => match k {
                TokenKind::Plus | TokenKind::Minus | TokenKind::Star | TokenKind::Slash
                | TokenKind::Caret | TokenKind::EqEq | TokenKind::SlashEq | TokenKind::Lt
                | TokenKind::LtEq | TokenKind::Gt | TokenKind::GtEq | TokenKind::PlusPlus
                | TokenKind::Comma => true,
                _ => false,
            },
            None => false,
        }
    }
}

} // verus!
