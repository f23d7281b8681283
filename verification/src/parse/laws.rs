//! How operators group.
use vstd::prelude::*;
use crate::ast::model::SExpr;
use crate::parse::expr::infix;
use crate::parse::grammar::{bp_loop_at, within, PErr};
use crate::token::{Token, TokenKind};

verus! {

/// The operators that group to the left.
pub open spec fn groups_left(k: TokenKind) -> bool {
    k is Plus || k is Minus || k is Star || k is Slash || k is KwAnd || k is KwOr
}

/// A left-grouping operator binds its right operand more tightly than its
/// left one: its right binding power is above its left.
pub proof fn left_operators_bind_right_tighter(k: TokenKind)
    requires
        groups_left(k),
    ensures
        infix(k) matches Some((_, l, r)) && l < r,
{
}

/// `a op b op c` groups as `(a op b) op c` for a left-grouping operator:
/// the right operand of `op`, parsed at `op`'s right binding power, stops
/// before the next `op`, whatever follows it.
pub proof fn left_operators_group_left(t: Seq<Token>, p: int, lhs: SExpr)
    requires
        within(t, p),
        groups_left(t[p].kind),
    ensures
        bp_loop_at(t, p, infix(t[p].kind).unwrap().2, lhs) == Ok::<(SExpr, int), PErr>((lhs, p)),
{
}

/// How tightly an operator binds, loosest first: `or`, `and`, the
/// comparisons, `++`, `+` and `-`, `*` and `/`, `^`.
pub open spec fn level(k: TokenKind) -> int {
    match k {
        TokenKind::KwOr => 0,
        TokenKind::KwAnd => 1,
        TokenKind::EqEq | TokenKind::SlashEq | TokenKind::Lt | TokenKind::LtEq | TokenKind::Gt | TokenKind::GtEq => 2,
        TokenKind::PlusPlus => 3,
        TokenKind::Plus | TokenKind::Minus => 4,
        TokenKind::Star | TokenKind::Slash => 5,
        TokenKind::Caret => 6,
        _ => -1,
    }
}

/// Every operator token has a binding level, and only those.
pub proof fn operators_have_levels(k: TokenKind)
    ensures
        infix(k) is Some <==> level(k) >= 0,
{
}

/// A tighter operator is taken whole into the right operand of a looser
/// one: the looser one's right binding power is at most the tighter one's
/// left binding power, so `a + b * c` groups as `a + (b * c)`.
pub proof fn tighter_operators_group_first(k1: TokenKind, k2: TokenKind)
    requires
        0 <= level(k1) < level(k2),
    ensures
        infix(k1).unwrap().2 <= infix(k2).unwrap().1,
{
}

/// A looser operator ends the right operand of a tighter one: the tighter
/// one's right binding power is above the looser one's left binding power,
/// so `a * b + c` groups as `(a * b) + c`.
pub proof fn looser_operators_group_after(t: Seq<Token>, p: int, k1: TokenKind, lhs: SExpr)
    requires
        within(t, p),
        0 <= level(t[p].kind) < level(k1),
    ensures
        bp_loop_at(t, p, infix(k1).unwrap().2, lhs) == Ok::<(SExpr, int), PErr>((lhs, p)),
{
}

/// Different operator tokens denote different operators.
pub proof fn operators_are_distinct(k1: TokenKind, k2: TokenKind)
    requires
        infix(k1) is Some,
        infix(k2) is Some,
        infix(k1).unwrap().0 == infix(k2).unwrap().0,
    ensures
        k1 == k2,
{
}

} // verus!
