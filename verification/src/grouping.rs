//! The source printer keeps grouping visible: parentheses and brackets.
use vstd::prelude::*;
use crate::ast::{BinOp, Expr, ExprKind};
use crate::pretty::pexpr;
use crate::span::Span;

verus! {

/// The expression `x` in parentheses.
pub open spec fn parened(x: Expr, span: Span) -> Expr {
    Expr { span, node: ExprKind::Paren(Box::new(x)) }
}

/// The operator `op` applied to `a` and `b`.
pub open spec fn applied(op: BinOp, a: Expr, b: Expr, span: Span) -> Expr {
    Expr { span, node: ExprKind::BinOp { op, lhs: Box::new(a), rhs: Box::new(b) } }
}

/// A parenthesised expression prints as its inner expression between a
/// `(` and a `)`: two characters longer than the inner print, which stands
/// between them.
pub proof fn parentheses_are_printed(x: Expr, span: Span, n: nat)
    ensures
        ({
            let s = pexpr(parened(x, span), n);
            &&& s.len() == pexpr(x, n).len() + 2
            &&& s[0] == '('
            &&& s[s.len() - 1] == ')'
            &&& s.subrange(1, s.len() - 1) == pexpr(x, n)
        }),
{
    let s = pexpr(parened(x, span), n);
    assert(s.subrange(1, s.len() - 1) =~= pexpr(x, n));
}

/// Grouping is visible in the printed source: an operator with a
/// parenthesised operand prints differently from the same operator on the
/// bare operand, on either side, so `(1 + 2) * 3` and `1 + 2 * 3` print
/// apart.
pub proof fn grouping_is_visible(op: BinOp, a: Expr, b: Expr, span: Span, inner: Span, n: nat)
    ensures
        pexpr(applied(op, parened(a, inner), b, span), n) != pexpr(applied(op, a, b, span), n),
        pexpr(applied(op, a, parened(b, inner), span), n) != pexpr(applied(op, a, b, span), n),
{
    parentheses_are_printed(a, inner, n);
    parentheses_are_printed(b, inner, n);
    assert(pexpr(applied(op, parened(a, inner), b, span), n).len() == pexpr(applied(op, a, b, span), n).len() + 2);
    assert(pexpr(applied(op, a, parened(b, inner), span), n).len() == pexpr(applied(op, a, b, span), n).len() + 2);
}

/// A list literal prints between a `[` and a `]`.
pub proof fn lists_are_bracketed(e: Expr, n: nat)
    requires
        e.node is List,
    ensures
        pexpr(e, n).len() >= 2,
        pexpr(e, n)[0] == '[',
        pexpr(e, n)[pexpr(e, n).len() - 1] == ']',
{
}

} // verus!
