//! The grammar as functions from a token stream and a position to the tree
//! read there and the position after it, or the diagnostic. The parser's
//! functions are proved to compute exactly these.
use vstd::prelude::*;
use crate::ast::{Expose, LitPat, UnaryOp};
use crate::ast::model::{
    SArm, SBlockItem, SDecl, SDeclKind, SExpr, SExprKind, SFile, SHeader, SKwArg, SMember,
    STypeBody, SUseKind, SVariantBody, SEffectRow, SFieldPat, SPattern, SPatternKind, SType, STypeKind};
use crate::error::Error;
use crate::parse::cursor::{ends_with_eof, same_variant, unexpected_at, Cursor};
use crate::parse::expr::{infix, is_comparison_op, lambda_head};
use crate::parse::postfix::starts_arg;
use crate::span::Span;
use crate::token::{Token, TokenKind};

verus! {

/// Why a parse fails.
pub enum PErr {
    /// The token `at` stands where `expected` was wanted.
    Unexpected { at: Token, expected: Seq<char> },
    /// A comparison follows a comparison; the second one's token is at the span.
    Chained(Span),
    /// An item consumed nothing. Never happens: every item consumes a token.
    /// It keeps the definitions total over arbitrary positions.
    Stuck,
}

/// `e` is the diagnostic the failure `pe` stands for.
pub open spec fn perr_is(e: Error, pe: PErr) -> bool {
    match pe {
        PErr::Unexpected { at, expected } => unexpected_at(e, at, expected),
        PErr::Chained(s) => e.span == s && e.kind is ChainedComparison,
        PErr::Stuck => false,
    }
}

/// The parser returned `r` and stands at `c`, as the grammar's outcome `s`
/// says.
pub open spec fn parsed<T: View>(r: Result<T, Error>, s: Result<(T::V, int), PErr>, c: Cursor) -> bool {
    match s {
        Ok((v, q)) => r matches Ok(x) && x@ == v && c.position() == q,
        Err(pe) => r matches Err(e) && perr_is(e, pe),
    }
}

/// A position inside a stream that ends with `Eof`.
pub open spec fn within(t: Seq<Token>, p: int) -> bool {
    ends_with_eof(t) && 0 <= p < t.len()
}

/// The position after consuming the token at `p`; `Eof` is never consumed.
pub open spec fn step(t: Seq<Token>, p: int) -> int {
    if t[p].kind is Eof {
        p
    } else {
        p + 1
    }
}

/// `q` lies after `p` and inside the stream.
pub open spec fn moved(t: Seq<Token>, p: int, q: int) -> bool {
    p < q < t.len()
}

pub open spec fn unexpected(t: Seq<Token>, p: int, expected: Seq<char>) -> PErr {
    PErr::Unexpected { at: t[p], expected }
}

/// Consumes a token of the variant of `k`, or fails.
pub open spec fn expect_at(t: Seq<Token>, p: int, k: TokenKind, expected: Seq<char>) -> Result<int, PErr> {
    if same_variant(k, t[p].kind) {
        Ok(step(t, p))
    } else {
        Err(unexpected(t, p, expected))
    }
}

/// Consumes a token of the variant of `k` if one is there.
pub open spec fn eat_at(t: Seq<Token>, p: int, k: TokenKind) -> int {
    if same_variant(k, t[p].kind) {
        step(t, p)
    } else {
        p
    }
}

/// After the `(` at `i` come a lowercase name and `=`: keyword arguments or
/// record fields.
pub open spec fn kwargs_after(t: Seq<Token>, i: int) -> bool {
    i + 2 < t.len() && t[i + 1].kind is LowerIdent && t[i + 2].kind is Equals
}

/// A token that can start a pattern.
pub open spec fn starts_pat(k: TokenKind) -> bool {
    k is Underscore || k is LowerIdent || k is UpperIdent || k is IntLit || k is FloatLit
        || k is StringLit || k is LParen || k is LBracket
}

// ---------------------------------------------------------------------------
// Patterns

/// A pattern: an atom, or a constructor applied to comma-separated atoms.
pub open spec fn pattern_at(t: Seq<Token>, p: int) -> Result<(SPattern, int), PErr>
    decreases t.len() - p, 2nat
    when within(t, p)
{
    match pattern_atom_at(t, p) {
        Err(e) => Err(e),
        Ok((a, q)) => match a.node {
            SPatternKind::Ctor { name, .. } => if starts_pat(t[q].kind) {
                if moved(t, p, q) {
                    pattern_args_at(t, q, a.span, name, seq![])
                } else {
                    Err(PErr::Stuck)
                }
            } else {
                Ok((a, q))
            },
            _ => Ok((a, q)),
        },
    }
}

/// The argument atoms of a constructor pattern from `p`, after `args`.
pub open spec fn pattern_args_at(
    t: Seq<Token>,
    p: int,
    start: Span,
    name: String,
    args: Seq<SPattern>,
) -> Result<(SPattern, int), PErr>
    decreases t.len() - p, 3nat
    when within(t, p)
{
    match pattern_atom_at(t, p) {
        Err(e) => Err(e),
        Ok((a, q)) => if !(t[q].kind is Comma) {
            Ok(
                (
                    SPattern {
                        span: start.spec_merge(a.span),
                        node: SPatternKind::Ctor { name, args: args.push(a) },
                    },
                    q,
                ),
            )
        } else if moved(t, p, q) {
            pattern_args_at(t, q + 1, start, name, args.push(a))
        } else {
            Err(PErr::Stuck)
        },
    }
}

/// A wildcard, a variable, a literal, a constructor or record pattern, a
/// tuple or a list.
pub open spec fn pattern_atom_at(t: Seq<Token>, p: int) -> Result<(SPattern, int), PErr>
    decreases t.len() - p, 1nat
    when within(t, p)
{
    let start = t[p].span;
    match t[p].kind {
        TokenKind::Underscore => Ok((SPattern { span: start, node: SPatternKind::Wildcard }, p + 1)),
        TokenKind::LowerIdent(n) => Ok((SPattern { span: start, node: SPatternKind::Var(n) }, p + 1)),
        TokenKind::IntLit(n) => Ok(
            (SPattern { span: start, node: SPatternKind::Lit(LitPat::Int(n)) }, p + 1),
        ),
        TokenKind::FloatLit(f) => Ok(
            (SPattern { span: start, node: SPatternKind::Lit(LitPat::Float(f)) }, p + 1),
        ),
        TokenKind::StringLit(s) => Ok(
            (SPattern { span: start, node: SPatternKind::Lit(LitPat::Str(s)) }, p + 1),
        ),
        TokenKind::UpperIdent(name) => if t[p + 1].kind is LParen && kwargs_after(t, p + 1) {
            match field_pats_at(t, p + 2, seq![]) {
                Err(e) => Err(e),
                Ok((fields, q)) => match expect_at(t, q, TokenKind::RParen, "`)`"@) {
                    Err(e) => Err(e),
                    Ok(q1) => Ok(
                        (
                            SPattern {
                                span: start.spec_merge(t[q].span),
                                node: SPatternKind::Record { ty_name: name, fields },
                            },
                            q1,
                        ),
                    ),
                },
            }
        } else {
            Ok((SPattern { span: start, node: SPatternKind::Ctor { name, args: seq![] } }, p + 1))
        },
        TokenKind::LParen => match pattern_seq_at(t, p + 1, seq![]) {
            Err(e) => Err(e),
            Ok((items, q)) => match expect_at(t, q, TokenKind::RParen, "`)`"@) {
                Err(e) => Err(e),
                Ok(q1) => Ok(
                    (SPattern { span: start.spec_merge(t[q].span), node: SPatternKind::Tuple(items) }, q1),
                ),
            },
        },
        TokenKind::LBracket => {
            let inner = if t[p + 1].kind is RBracket {
                Ok((seq![], p + 1))
            } else {
                pattern_seq_at(t, p + 1, seq![])
            };
            match inner {
                Err(e) => Err(e),
                Ok((items, q)) => match expect_at(t, q, TokenKind::RBracket, "`]`"@) {
                    Err(e) => Err(e),
                    Ok(q1) => Ok(
                        (SPattern { span: start.spec_merge(t[q].span), node: SPatternKind::List(items) }, q1),
                    ),
                },
            }
        },
        _ => Err(unexpected(t, p, "pattern"@)),
    }
}

/// Comma-separated patterns from `p`, after `items`.
pub open spec fn pattern_seq_at(t: Seq<Token>, p: int, items: Seq<SPattern>) -> Result<(Seq<SPattern>, int), PErr>
    decreases t.len() - p, 3nat
    when within(t, p)
{
    match pattern_at(t, p) {
        Err(e) => Err(e),
        Ok((x, q)) => if !(t[q].kind is Comma) {
            Ok((items.push(x), q))
        } else if moved(t, p, q) {
            pattern_seq_at(t, q + 1, items.push(x))
        } else {
            Err(PErr::Stuck)
        },
    }
}

/// `field = pattern` items separated by commas, from `p`, after `acc`.
pub open spec fn field_pats_at(t: Seq<Token>, p: int, acc: Seq<SFieldPat>) -> Result<(Seq<SFieldPat>, int), PErr>
    decreases t.len() - p, 0nat
    when within(t, p)
{
    match t[p].kind {
        TokenKind::LowerIdent(field) => match expect_at(t, p + 1, TokenKind::Equals, "`=`"@) {
            Err(e) => Err(e),
            Ok(q1) => match pattern_at(t, q1) {
                Err(e) => Err(e),
                Ok((pat, q)) => {
                    let acc2 = acc.push(SFieldPat { field, pattern: pat });
                    if !(t[q].kind is Comma) {
                        Ok((acc2, q))
                    } else if moved(t, p, q) {
                        field_pats_at(t, q + 1, acc2)
                    } else {
                        Err(PErr::Stuck)
                    }
                },
            },
        },
        _ => Err(unexpected(t, p, "field name"@)),
    }
}

// ---------------------------------------------------------------------------
// Types

/// A token that can start a type atom.
pub open spec fn starts_type(k: TokenKind) -> bool {
    k is LowerIdent || k is UpperIdent || k is LParen
}

/// From `i`, one or more uppercase names separated by commas, then an arrow.
pub open spec fn effect_names_then_arrow(t: Seq<Token>, i: int) -> bool
    decreases t.len() - i,
{
    if i < 0 || i + 1 >= t.len() {
        false
    } else if !(t[i].kind is UpperIdent) {
        false
    } else if t[i + 1].kind is Comma {
        effect_names_then_arrow(t, i + 2)
    } else {
        t[i + 1].kind is Arrow
    }
}

/// After the `!` at `p` comes an effect row (`()` or names) and `->`.
pub open spec fn pre_arrow_effect(t: Seq<Token>, p: int) -> bool {
    if p + 1 < t.len() && t[p + 1].kind is LParen {
        p + 3 < t.len() && t[p + 2].kind is RParen && t[p + 3].kind is Arrow
    } else {
        effect_names_then_arrow(t, p + 1)
    }
}

/// An effect row: `()`, or effect names separated by commas.
pub open spec fn effect_row_at(t: Seq<Token>, p: int) -> Result<(SEffectRow, int), PErr> {
    if t[p].kind is LParen {
        match expect_at(t, p + 1, TokenKind::RParen, "`)`"@) {
            Err(e) => Err(e),
            Ok(q) => Ok((SEffectRow::Empty, q)),
        }
    } else {
        effect_names_at(t, p, seq![])
    }
}

/// Effect names separated by commas from `p`, after `names`.
pub open spec fn effect_names_at(t: Seq<Token>, p: int, names: Seq<String>) -> Result<(SEffectRow, int), PErr>
    decreases t.len() - p
    when within(t, p)
{
    match t[p].kind {
        TokenKind::UpperIdent(n) => if t[p + 1].kind is Comma {
            effect_names_at(t, p + 2, names.push(n))
        } else {
            Ok((SEffectRow::Named(names.push(n)), p + 1))
        },
        _ => Err(unexpected(t, p, "effect name or `(`"@)),
    }
}

/// A type: comma-separated atoms with arguments, then perhaps an effect row
/// and an arrow with the result type (a function type); else the single
/// atom, or a tuple of the atoms.
pub open spec fn type_at(t: Seq<Token>, p: int) -> Result<(SType, int), PErr>
    decreases t.len() - p, 3nat
    when within(t, p)
{
    match type_list_at(t, p, seq![]) {
        Err(e) => Err(e),
        Ok((atoms, q)) => if moved(t, p, q) {
            type_tail_at(t, q, t[p].span, atoms)
        } else {
            Err(PErr::Stuck)
        },
    }
}

/// Atoms with arguments separated by commas, from `p`, after `atoms`.
pub open spec fn type_list_at(t: Seq<Token>, p: int, atoms: Seq<SType>) -> Result<(Seq<SType>, int), PErr>
    decreases t.len() - p, 2nat
    when within(t, p)
{
    match type_args_atom_at(t, p) {
        Err(e) => Err(e),
        Ok((a, q)) => if !(t[q].kind is Comma) {
            Ok((atoms.push(a), q))
        } else if moved(t, p, q) {
            type_list_at(t, q + 1, atoms.push(a))
        } else {
            Err(PErr::Stuck)
        },
    }
}

/// The effect row written before the arrow, if one is.
pub open spec fn pre_effect_at(t: Seq<Token>, p: int) -> Result<(Option<SEffectRow>, int), PErr> {
    if t[p].kind is Bang && pre_arrow_effect(t, p) {
        match effect_row_at(t, p + 1) {
            Err(e) => Err(e),
            Ok((row, q)) => Ok((Some(row), q)),
        }
    } else {
        Ok((None, p))
    }
}

/// What follows the atoms of a type, which start at `start`.
pub open spec fn type_tail_at(t: Seq<Token>, p: int, start: Span, atoms: Seq<SType>) -> Result<(SType, int), PErr>
    decreases t.len() - p, 0nat
    when within(t, p)
{
    match pre_effect_at(t, p) {
        Err(e) => Err(e),
        Ok((pre, q)) => if t[q].kind is Arrow {
            if p <= q < t.len() {
                match type_at(t, q + 1) {
                    Err(e) => Err(e),
                    Ok((result, q2)) => {
                        let span = start.spec_merge(result.span);
                        if pre is None && t[q2].kind is Bang {
                            match effect_row_at(t, q2 + 1) {
                                Err(e) => Err(e),
                                Ok((row, q3)) => Ok(
                                    (
                                        SType {
                                            span,
                                            node: STypeKind::Function {
                                                params: atoms,
                                                effect: Some(row),
                                                result: Box::new(result),
                                            },
                                        },
                                        q3,
                                    ),
                                ),
                            }
                        } else {
                            Ok(
                                (
                                    SType {
                                        span,
                                        node: STypeKind::Function {
                                            params: atoms,
                                            effect: pre,
                                            result: Box::new(result),
                                        },
                                    },
                                    q2,
                                ),
                            )
                        }
                    },
                }
            } else {
                Err(PErr::Stuck)
            }
        } else if pre is Some {
            Err(unexpected(t, q, "`->` after effect row"@))
        } else if atoms.len() == 1 {
            Ok((atoms[0], q))
        } else {
            Ok((SType { span: start.spec_merge(atoms.last().span), node: STypeKind::Tuple(atoms) }, q))
        },
    }
}

/// A type variable, a named type with its argument atoms, or a
/// parenthesised type.
pub open spec fn type_args_atom_at(t: Seq<Token>, p: int) -> Result<(SType, int), PErr>
    decreases t.len() - p, 1nat
    when within(t, p)
{
    match t[p].kind {
        TokenKind::LowerIdent(n) => Ok((SType { span: t[p].span, node: STypeKind::Var(n) }, p + 1)),
        TokenKind::UpperIdent(n) => type_args_at(t, p + 1, t[p].span, n, seq![], t[p].span),
        TokenKind::LParen => paren_type_at(t, p),
        _ => Err(unexpected(t, p, "a type"@)),
    }
}

/// The argument atoms of the named type `name` from `p`, after `args`; the
/// last one read ends at `end`.
pub open spec fn type_args_at(
    t: Seq<Token>,
    p: int,
    start: Span,
    name: String,
    args: Seq<SType>,
    end: Span,
) -> Result<(SType, int), PErr>
    decreases t.len() - p, 2nat
    when within(t, p)
{
    if !starts_type(t[p].kind) {
        Ok((SType { span: start.spec_merge(end), node: STypeKind::Named { name, args } }, p))
    } else {
        match type_atom_at(t, p) {
            Err(e) => Err(e),
            Ok((a, q)) => if moved(t, p, q) {
                type_args_at(t, q, start, name, args.push(a), a.span)
            } else {
                Err(PErr::Stuck)
            },
        }
    }
}

/// A type variable, a name without arguments, or a parenthesised type.
pub open spec fn type_atom_at(t: Seq<Token>, p: int) -> Result<(SType, int), PErr>
    decreases t.len() - p, 1nat
    when within(t, p)
{
    match t[p].kind {
        TokenKind::LowerIdent(n) => Ok((SType { span: t[p].span, node: STypeKind::Var(n) }, p + 1)),
        TokenKind::UpperIdent(n) => Ok(
            (SType { span: t[p].span, node: STypeKind::Named { name: n, args: seq![] } }, p + 1),
        ),
        TokenKind::LParen => paren_type_at(t, p),
        _ => Err(unexpected(t, p, "a type"@)),
    }
}

/// `( type )`: the parentheses only widen the span.
pub open spec fn paren_type_at(t: Seq<Token>, p: int) -> Result<(SType, int), PErr>
    decreases t.len() - p, 0nat
    when within(t, p)
{
    match type_at(t, p + 1) {
        Err(e) => Err(e),
        Ok((inner, q)) => match expect_at(t, q, TokenKind::RParen, "`)`"@) {
            Err(e) => Err(e),
            Ok(q1) => Ok((SType { span: t[p].span.spec_merge(t[q].span), node: inner.node }, q1)),
        },
    }
}

// ---------------------------------------------------------------------------
// Expressions

/// An expression: a lambda where names and `->` start it, else an operator
/// expression.
pub open spec fn expr_at(t: Seq<Token>, p: int) -> Result<(SExpr, int), PErr>
    decreases t.len() - p, 5nat
    when within(t, p)
{
    if lambda_head(t, p, 0) {
        lambda_at(t, p, t[p].span, seq![])
    } else {
        bp_at(t, p, 0)
    }
}

/// The parameters of a lambda from `p`, after `params`, then `->` and the
/// body.
pub open spec fn lambda_at(t: Seq<Token>, p: int, start: Span, params: Seq<SPattern>) -> Result<(SExpr, int), PErr>
    decreases t.len() - p, 4nat
    when within(t, p)
{
    if t[p].kind is Arrow {
        let body_r = if t[p + 1].kind is Newline {
            match expect_at(t, p + 2, TokenKind::Indent, "indented block body"@) {
                Err(e) => Err(e),
                Ok(q) => block_at(t, q),
            }
        } else {
            bp_at(t, p + 1, 0)
        };
        match body_r {
            Err(e) => Err(e),
            Ok((body, q)) => Ok(
                (
                    SExpr {
                        span: start.spec_merge(body.span),
                        node: SExprKind::Lambda { params, body: Box::new(body) },
                    },
                    q,
                ),
            ),
        }
    } else {
        match pattern_at(t, p) {
            Err(e) => Err(e),
            Ok((x, q)) => if moved(t, p, q) {
                lambda_at(t, q, start, params.push(x))
            } else {
                Err(PErr::Stuck)
            },
        }
    }
}

/// An operator expression whose operators bind at least as tightly as
/// `min_bp`: a prefix `-` or `not`, else a call, then infix operators.
pub open spec fn bp_at(t: Seq<Token>, p: int, min_bp: u8) -> Result<(SExpr, int), PErr>
    decreases t.len() - p, 3nat
    when within(t, p)
{
    let start = t[p].span;
    let lhs = if t[p].kind is Minus {
        match bp_at(t, p + 1, 100) {
            Err(e) => Err(e),
            Ok((r, q)) => Ok(
                (
                    SExpr {
                        span: start.spec_merge(r.span),
                        node: SExprKind::UnaryOp { op: UnaryOp::Neg, expr: Box::new(r) },
                    },
                    q,
                ),
            ),
        }
    } else if t[p].kind is KwNot {
        match bp_at(t, p + 1, 40) {
            Err(e) => Err(e),
            Ok((r, q)) => Ok(
                (
                    SExpr {
                        span: start.spec_merge(r.span),
                        node: SExprKind::UnaryOp { op: UnaryOp::Not, expr: Box::new(r) },
                    },
                    q,
                ),
            ),
        }
    } else {
        call_at(t, p)
    };
    match lhs {
        Err(e) => Err(e),
        Ok((l, q)) => if moved(t, p, q) {
            bp_loop_at(t, q, min_bp, l)
        } else {
            Err(PErr::Stuck)
        },
    }
}

/// The infix operators from `p` that bind at least as tightly as `min_bp`,
/// applied left to right to `lhs`; a comparison may not follow a comparison.
pub open spec fn bp_loop_at(t: Seq<Token>, p: int, min_bp: u8, lhs: SExpr) -> Result<(SExpr, int), PErr>
    decreases t.len() - p, 3nat
    when within(t, p)
{
    match infix(t[p].kind) {
        None => Ok((lhs, p)),
        Some((op, lbp, rbp)) => if lbp < min_bp {
            Ok((lhs, p))
        } else {
            match bp_at(t, p + 1, rbp) {
                Err(e) => Err(e),
                Ok((rhs, q)) => if is_comparison_op(op) && match infix(t[q].kind) {
                    Some((next, _, _)) => is_comparison_op(next),
                    None => false,
                } {
                    Err(PErr::Chained(t[q].span))
                } else if moved(t, p, q) {
                    bp_loop_at(
                        t,
                        q,
                        min_bp,
                        SExpr {
                            span: lhs.span.spec_merge(rhs.span),
                            node: SExprKind::BinOp { op, lhs: Box::new(lhs), rhs: Box::new(rhs) },
                        },
                    )
                } else {
                    Err(PErr::Stuck)
                },
            }
        },
    }
}

/// A postfix expression and, when an argument follows, the call with its
/// comma-separated arguments.
pub open spec fn call_at(t: Seq<Token>, p: int) -> Result<(SExpr, int), PErr>
    decreases t.len() - p, 2nat
    when within(t, p)
{
    match postfix_at(t, p) {
        Err(e) => Err(e),
        Ok((f, q)) => if !starts_arg(t[q].kind) {
            Ok((f, q))
        } else if moved(t, p, q) {
            call_args_at(t, q, f, seq![])
        } else {
            Err(PErr::Stuck)
        },
    }
}

/// The arguments of a call of `func` from `p`, after `args`.
pub open spec fn call_args_at(t: Seq<Token>, p: int, func: SExpr, args: Seq<SExpr>) -> Result<(SExpr, int), PErr>
    decreases t.len() - p, 6nat
    when within(t, p)
{
    match expr_at(t, p) {
        Err(e) => Err(e),
        Ok((a, q)) => if !(t[q].kind is Comma) {
            Ok(
                (
                    SExpr {
                        span: func.span.spec_merge(a.span),
                        node: SExprKind::Call { func: Box::new(func), args: args.push(a) },
                    },
                    q,
                ),
            )
        } else if moved(t, p, q) {
            call_args_at(t, q + 1, func, args.push(a))
        } else {
            Err(PErr::Stuck)
        },
    }
}

/// An atom followed by its postfix operations.
pub open spec fn postfix_at(t: Seq<Token>, p: int) -> Result<(SExpr, int), PErr>
    decreases t.len() - p, 1nat
    when within(t, p)
{
    match atom_at(t, p) {
        Err(e) => Err(e),
        Ok((e, q)) => if moved(t, p, q) {
            postfix_loop_at(t, q, e)
        } else {
            Err(PErr::Stuck)
        },
    }
}

/// The postfix operations from `p` applied to `e`: keyword arguments (a
/// construction after a constructor, else an update), a field access, `!`,
/// `?`, or a `match` with its indented arms.
pub open spec fn postfix_loop_at(t: Seq<Token>, p: int, e: SExpr) -> Result<(SExpr, int), PErr>
    decreases t.len() - p, 1nat
    when within(t, p)
{
    if t[p].kind is LParen && kwargs_after(t, p) {
        match kwargs_at(t, p + 1, seq![]) {
            Err(x) => Err(x),
            Ok((fields, q)) => match expect_at(t, q, TokenKind::RParen, "`)`"@) {
                Err(x) => Err(x),
                Ok(q1) => {
                    let span = e.span.spec_merge(t[q].span);
                    let e2 = match e.node {
                        SExprKind::Ctor(name) => SExpr {
                            span,
                            node: SExprKind::Construct { ty_name: name, fields },
                        },
                        _ => SExpr { span, node: SExprKind::Update { value: Box::new(e), fields } },
                    };
                    if moved(t, p, q1) {
                        postfix_loop_at(t, q1, e2)
                    } else {
                        Err(PErr::Stuck)
                    }
                },
            },
        }
    } else if t[p].kind is Dot {
        match t[p + 1].kind {
            TokenKind::LowerIdent(n) => postfix_loop_at(
                t,
                p + 2,
                SExpr {
                    span: e.span.spec_merge(t[p + 1].span),
                    node: SExprKind::FieldAccess { receiver: Box::new(e), field: n },
                },
            ),
            TokenKind::UpperIdent(n) => postfix_loop_at(
                t,
                p + 2,
                SExpr {
                    span: e.span.spec_merge(t[p + 1].span),
                    node: SExprKind::FieldAccess { receiver: Box::new(e), field: n },
                },
            ),
            _ => Err(unexpected(t, p + 1, "field name after `.`"@)),
        }
    } else if t[p].kind is Bang {
        postfix_loop_at(
            t,
            p + 1,
            SExpr { span: e.span.spec_merge(t[p].span), node: SExprKind::Bang(Box::new(e)) },
        )
    } else if t[p].kind is Question {
        postfix_loop_at(
            t,
            p + 1,
            SExpr { span: e.span.spec_merge(t[p].span), node: SExprKind::Question(Box::new(e)) },
        )
    } else if t[p].kind is KwMatch {
        match expect_at(t, p + 1, TokenKind::Newline, "newline before match arms"@) {
            Err(x) => Err(x),
            Ok(q1) => match expect_at(t, q1, TokenKind::Indent, "indented match arms"@) {
                Err(x) => Err(x),
                Ok(q2) => if moved(t, p, q2) {
                    match arms_at(t, q2, seq![]) {
                        Err(x) => Err(x),
                        Ok((arms, q3)) => match expect_at(t, q3, TokenKind::Dedent, "dedent"@) {
                            Err(x) => Err(x),
                            Ok(q4) => if moved(t, p, q4) {
                                postfix_loop_at(
                                    t,
                                    q4,
                                    SExpr {
                                        span: e.span.spec_merge(t[q3].span),
                                        node: SExprKind::Match { scrutinee: Box::new(e), arms },
                                    },
                                )
                            } else {
                                Err(PErr::Stuck)
                            },
                        },
                    }
                } else {
                    Err(PErr::Stuck)
                },
            },
        }
    } else {
        Ok((e, p))
    }
}

/// The arms of a `match` from `p` up to the `Dedent` that closes them.
pub open spec fn arms_at(t: Seq<Token>, p: int, arms: Seq<SArm>) -> Result<(Seq<SArm>, int), PErr>
    decreases t.len() - p, 1nat
    when within(t, p)
{
    if t[p].kind is Dedent {
        Ok((arms, p))
    } else {
        match pattern_at(t, p) {
            Err(e) => Err(e),
            Ok((pat, q)) => match expect_at(t, q, TokenKind::Arrow, "`->`"@) {
                Err(e) => Err(e),
                Ok(q1) => if moved(t, p, q1) {
                    match bp_at(t, q1, 0) {
                        Err(e) => Err(e),
                        Ok((body, q2)) => {
                            let q3 = eat_at(t, q2, TokenKind::Newline);
                            if moved(t, p, q3) {
                                arms_at(t, q3, arms.push(SArm { pattern: pat, body }))
                            } else {
                                Err(PErr::Stuck)
                            }
                        },
                    }
                } else {
                    Err(PErr::Stuck)
                },
            },
        }
    }
}

/// `name = value` items separated by commas, from `p`, after `acc`.
pub open spec fn kwargs_at(t: Seq<Token>, p: int, acc: Seq<SKwArg>) -> Result<(Seq<SKwArg>, int), PErr>
    decreases t.len() - p, 0nat
    when within(t, p)
{
    match t[p].kind {
        TokenKind::LowerIdent(name) => match expect_at(t, p + 1, TokenKind::Equals, "`=`"@) {
            Err(e) => Err(e),
            Ok(q1) => match bp_at(t, q1, 0) {
                Err(e) => Err(e),
                Ok((v, q)) => {
                    let acc2 = acc.push(SKwArg { name, value: v });
                    if !(t[q].kind is Comma) {
                        Ok((acc2, q))
                    } else if moved(t, p, q) {
                        kwargs_at(t, q + 1, acc2)
                    } else {
                        Err(PErr::Stuck)
                    }
                },
            },
        },
        _ => Err(unexpected(t, p, "field name"@)),
    }
}

/// A literal, a name, a parenthesised expression or a list.
pub open spec fn atom_at(t: Seq<Token>, p: int) -> Result<(SExpr, int), PErr>
    decreases t.len() - p, 0nat
    when within(t, p)
{
    let start = t[p].span;
    match t[p].kind {
        TokenKind::IntLit(n) => Ok((SExpr { span: start, node: SExprKind::IntLit(n) }, p + 1)),
        TokenKind::FloatLit(f) => Ok((SExpr { span: start, node: SExprKind::FloatLit(f) }, p + 1)),
        TokenKind::StringLit(s) => Ok((SExpr { span: start, node: SExprKind::StringLit(s) }, p + 1)),
        TokenKind::LowerIdent(s) => Ok((SExpr { span: start, node: SExprKind::Var(s) }, p + 1)),
        TokenKind::UpperIdent(s) => Ok((SExpr { span: start, node: SExprKind::Ctor(s) }, p + 1)),
        TokenKind::LParen => match expr_at(t, p + 1) {
            Err(e) => Err(e),
            Ok((e, q)) => match expect_at(t, q, TokenKind::RParen, "`)`"@) {
                Err(x) => Err(x),
                Ok(q1) => Ok(
                    (SExpr { span: start.spec_merge(t[q].span), node: SExprKind::Paren(Box::new(e)) }, q1),
                ),
            },
        },
        TokenKind::LBracket => {
            let inner = if t[p + 1].kind is RBracket {
                Ok((seq![], p + 1))
            } else {
                list_items_at(t, p + 1, seq![])
            };
            match inner {
                Err(e) => Err(e),
                Ok((items, q)) => match expect_at(t, q, TokenKind::RBracket, "`]`"@) {
                    Err(e) => Err(e),
                    Ok(q1) => Ok(
                        (SExpr { span: start.spec_merge(t[q].span), node: SExprKind::List(items) }, q1),
                    ),
                },
            }
        },
        _ => Err(unexpected(t, p, "an expression"@)),
    }
}

/// Comma-separated expressions from `p`, after `items`.
pub open spec fn list_items_at(t: Seq<Token>, p: int, items: Seq<SExpr>) -> Result<(Seq<SExpr>, int), PErr>
    decreases t.len() - p, 6nat
    when within(t, p)
{
    match expr_at(t, p) {
        Err(e) => Err(e),
        Ok((x, q)) => if !(t[q].kind is Comma) {
            Ok((items.push(x), q))
        } else if moved(t, p, q) {
            list_items_at(t, q + 1, items.push(x))
        } else {
            Err(PErr::Stuck)
        },
    }
}

// ---------------------------------------------------------------------------
// Bindings and blocks

/// A lowercase name followed by `:` or `=` starts a binding.
pub open spec fn binding_ahead(t: Seq<Token>, p: int) -> bool {
    t[p].kind is LowerIdent && p + 1 < t.len() && (t[p + 1].kind is Colon || t[p + 1].kind
        is Equals)
}

/// The annotation `: type` of a binding, if one is there.
pub open spec fn binding_type_at(t: Seq<Token>, p: int) -> Result<(Option<SType>, int), PErr> {
    if t[p].kind is Colon {
        match type_at(t, p + 1) {
            Err(e) => Err(e),
            Ok((ty, q)) => Ok((Some(ty), q)),
        }
    } else {
        Ok((None, p))
    }
}

/// `name [: type] [= value]` and the newline after it; a value that starts
/// on the next line is an indented block.
pub open spec fn binding_at(t: Seq<Token>, p: int) -> Result<(SDecl, int), PErr>
    decreases t.len() - p, 0nat
    when within(t, p)
{
    match t[p].kind {
        TokenKind::LowerIdent(name) => match binding_type_at(t, p + 1) {
            Err(e) => Err(e),
            Ok((ty, q)) => if moved(t, p, q) {
                match binding_value_at(t, q) {
                    Err(e) => Err(e),
                    Ok((value, q2)) => {
                        let start = t[p].span;
                        let end = match value {
                            Some(v) => v.span,
                            None => match ty {
                                Some(x) => x.span,
                                None => start,
                            },
                        };
                        Ok(
                            (
                                SDecl {
                                    span: start.spec_merge(end),
                                    node: SDeclKind::Binding { name, ty, value },
                                },
                                eat_at(t, q2, TokenKind::Newline),
                            ),
                        )
                    },
                }
            } else {
                Err(PErr::Stuck)
            },
        },
        _ => Err(unexpected(t, p, "binding name"@)),
    }
}

/// The value `= expr`, or `=` and an indented block, of a binding, if one
/// is there.
pub open spec fn binding_value_at(t: Seq<Token>, p: int) -> Result<(Option<SExpr>, int), PErr>
    decreases t.len() - p, 0nat
    when within(t, p)
{
    if t[p].kind is Equals {
        if t[p + 1].kind is Newline {
            match expect_at(t, p + 2, TokenKind::Indent, "indented block body"@) {
                Err(e) => Err(e),
                Ok(q) => match block_at(t, q) {
                    Err(e) => Err(e),
                    Ok((b, q2)) => Ok((Some(b), q2)),
                },
            }
        } else {
            match expr_at(t, p + 1) {
                Err(e) => Err(e),
                Ok((v, q)) => Ok((Some(v), q)),
            }
        }
    } else {
        Ok((None, p))
    }
}

/// The lines of an indented block from `p` (its `Indent` consumed) through
/// the `Dedent` that closes it.
pub open spec fn block_at(t: Seq<Token>, p: int) -> Result<(SExpr, int), PErr>
    decreases t.len() - p, 8nat
    when within(t, p)
{
    block_items_at(t, p, t[p].span, seq![])
}

/// The lines of a block that starts at `start`, from `p`, after `items`.
pub open spec fn block_items_at(t: Seq<Token>, p: int, start: Span, items: Seq<SBlockItem>) -> Result<(SExpr, int), PErr>
    decreases t.len() - p, 7nat
    when within(t, p)
{
    if t[p].kind is Dedent {
        Ok((SExpr { span: start.spec_merge(t[p].span), node: SExprKind::Block(items) }, p + 1))
    } else if binding_ahead(t, p) {
        match binding_at(t, p) {
            Err(e) => Err(e),
            Ok((d, q)) => if moved(t, p, q) {
                block_items_at(t, q, start, items.push(SBlockItem::Binding(d)))
            } else {
                Err(PErr::Stuck)
            },
        }
    } else {
        match expr_at(t, p) {
            Err(e) => Err(e),
            Ok((e, q)) => {
                let q1 = eat_at(t, q, TokenKind::Newline);
                if moved(t, p, q1) {
                    block_items_at(t, q1, start, items.push(SBlockItem::Expr(e)))
                } else {
                    Err(PErr::Stuck)
                }
            },
        }
    }
}

// ---------------------------------------------------------------------------
// Names

pub open spec fn upper_at(t: Seq<Token>, p: int) -> Result<(String, int), PErr> {
    match t[p].kind {
        TokenKind::UpperIdent(n) => Ok((n, p + 1)),
        _ => Err(unexpected(t, p, "uppercase identifier"@)),
    }
}

pub open spec fn lower_at(t: Seq<Token>, p: int) -> Result<(String, int), PErr> {
    match t[p].kind {
        TokenKind::LowerIdent(n) => Ok((n, p + 1)),
        _ => Err(unexpected(t, p, "lowercase identifier"@)),
    }
}

pub open spec fn ident_at(t: Seq<Token>, p: int) -> Result<(String, int), PErr> {
    match t[p].kind {
        TokenKind::LowerIdent(n) => Ok((n, p + 1)),
        TokenKind::UpperIdent(n) => Ok((n, p + 1)),
        _ => Err(unexpected(t, p, "identifier (lower- or uppercase)"@)),
    }
}

/// Uppercase names separated by dots, from `p`, after `acc`.
pub open spec fn dotted_at(t: Seq<Token>, p: int, acc: Seq<String>) -> Result<(Seq<String>, int), PErr>
    decreases t.len() - p
    when within(t, p)
{
    match upper_at(t, p) {
        Err(e) => Err(e),
        Ok((n, q)) => if t[q].kind is Dot {
            dotted_at(t, q + 1, acc.push(n))
        } else {
            Ok((acc.push(n), q))
        },
    }
}

/// Lowercase names separated by commas, from `p`, after `acc`.
pub open spec fn lowers_at(t: Seq<Token>, p: int, acc: Seq<String>) -> Result<(Seq<String>, int), PErr>
    decreases t.len() - p
    when within(t, p)
{
    match lower_at(t, p) {
        Err(e) => Err(e),
        Ok((n, q)) => if t[q].kind is Comma {
            lowers_at(t, q + 1, acc.push(n))
        } else {
            Ok((acc.push(n), q))
        },
    }
}

/// Names of either case separated by commas, from `p`, after `acc`.
pub open spec fn idents_at(t: Seq<Token>, p: int, acc: Seq<String>) -> Result<(Seq<String>, int), PErr>
    decreases t.len() - p
    when within(t, p)
{
    match ident_at(t, p) {
        Err(e) => Err(e),
        Ok((n, q)) => if t[q].kind is Comma {
            idents_at(t, q + 1, acc.push(n))
        } else {
            Ok((acc.push(n), q))
        },
    }
}

// ---------------------------------------------------------------------------
// Type declarations

/// `type Name params = type`, or `type Name params` and an indented block
/// of members; the `type` keyword is at `p`.
pub open spec fn type_decl_at(t: Seq<Token>, p: int) -> Result<(SDecl, int), PErr> {
    let start = t[p].span;
    match upper_at(t, p + 1) {
        Err(e) => Err(e),
        Ok((name, q1)) => {
            let params = if t[q1].kind is LowerIdent {
                lowers_at(t, q1, seq![])
            } else {
                Ok((seq![], q1))
            };
            match params {
                Err(e) => Err(e),
                Ok((params, q2)) => if t[q2].kind is Equals {
                    match type_at(t, q2 + 1) {
                        Err(e) => Err(e),
                        Ok((ty, q3)) => Ok(
                            (
                                SDecl {
                                    span: start.spec_merge(ty.span),
                                    node: SDeclKind::TypeDecl {
                                        name,
                                        params,
                                        body: STypeBody::Newtype(ty),
                                    },
                                },
                                eat_at(t, q3, TokenKind::Newline),
                            ),
                        ),
                    }
                } else {
                    match expect_at(t, q2, TokenKind::Newline, "newline before type block"@) {
                        Err(e) => Err(e),
                        Ok(q3) => match expect_at(t, q3, TokenKind::Indent, "indented type block"@) {
                            Err(e) => Err(e),
                            Ok(q4) => match members_at(t, q4, seq![]) {
                                Err(e) => Err(e),
                                Ok((ms, q5)) => match expect_at(
                                    t,
                                    q5,
                                    TokenKind::Dedent,
                                    "dedent at type block end"@,
                                ) {
                                    Err(e) => Err(e),
                                    Ok(q6) => Ok(
                                        (
                                            SDecl {
                                                span: start.spec_merge(t[q5].span),
                                                node: SDeclKind::TypeDecl {
                                                    name,
                                                    params,
                                                    body: STypeBody::Block(ms),
                                                },
                                            },
                                            eat_at(t, q6, TokenKind::Newline),
                                        ),
                                    ),
                                },
                            },
                        },
                    }
                },
            }
        },
    }
}

/// Members from `p`, after `acc`, up to the `Dedent` that closes their
/// block.
pub open spec fn members_at(t: Seq<Token>, p: int, acc: Seq<SMember>) -> Result<(Seq<SMember>, int), PErr>
    decreases t.len() - p, 1nat
    when within(t, p)
{
    if t[p].kind is Dedent {
        Ok((acc, p))
    } else {
        match member_at(t, p) {
            Err(e) => Err(e),
            Ok((m, q)) => if moved(t, p, q) {
                members_at(t, q, acc.push(m))
            } else {
                Err(PErr::Stuck)
            },
        }
    }
}

/// A field `name: type`, a method `name = value`, or a variant `Name`,
/// `Name: type` or `Name` with an indented block of members.
pub open spec fn member_at(t: Seq<Token>, p: int) -> Result<(SMember, int), PErr>
    decreases t.len() - p, 0nat
    when within(t, p)
{
    let start = t[p].span;
    match t[p].kind {
        TokenKind::LowerIdent(n) => if t[p + 1].kind is Colon {
            match type_at(t, p + 2) {
                Err(e) => Err(e),
                Ok((ty, q)) => Ok((SMember::Field { name: n, ty }, eat_at(t, q, TokenKind::Newline))),
            }
        } else if t[p + 1].kind is Equals {
            let value = if t[p + 2].kind is Newline {
                match expect_at(t, p + 3, TokenKind::Indent, "indented method body"@) {
                    Err(e) => Err(e),
                    Ok(q) => block_at(t, q),
                }
            } else {
                expr_at(t, p + 2)
            };
            match value {
                Err(e) => Err(e),
                Ok((v, q)) => Ok(
                    (
                        SMember::Method(
                            SDecl {
                                span: start.spec_merge(v.span),
                                node: SDeclKind::Binding { name: n, ty: None, value: Some(v) },
                            },
                        ),
                        eat_at(t, q, TokenKind::Newline),
                    ),
                ),
            }
        } else {
            Err(unexpected(t, p + 1, "`:` or `=` after member name"@))
        },
        TokenKind::UpperIdent(n) => {
            let body = if t[p + 1].kind is Colon {
                match type_at(t, p + 2) {
                    Err(e) => Err(e),
                    Ok((ty, q)) => Ok((SVariantBody::Single(ty), eat_at(t, q, TokenKind::Newline))),
                }
            } else if t[p + 1].kind is Newline && p + 2 < t.len() && t[p + 2].kind is Indent {
                match members_at(t, p + 3, seq![]) {
                    Err(e) => Err(e),
                    Ok((fields, q)) => match expect_at(
                        t,
                        q,
                        TokenKind::Dedent,
                        "dedent at variant block end"@,
                    ) {
                        Err(e) => Err(e),
                        Ok(q1) => Ok((SVariantBody::Fields(fields), eat_at(t, q1, TokenKind::Newline))),
                    },
                }
            } else {
                Ok((SVariantBody::Bare, eat_at(t, p + 1, TokenKind::Newline)))
            };
            match body {
                Err(e) => Err(e),
                Ok((b, q)) => Ok((SMember::Variant { name: n, body: b }, q)),
            }
        },
        _ => Err(unexpected(t, p, "type member (field, method, or variant)"@)),
    }
}

// ---------------------------------------------------------------------------
// Declarations and files

/// The bindings of a trait or impl block from `p`, after `acc`, up to its
/// `Dedent`.
pub open spec fn methods_at(t: Seq<Token>, p: int, acc: Seq<SDecl>) -> Result<(Seq<SDecl>, int), PErr>
    decreases t.len() - p
    when within(t, p)
{
    if t[p].kind is Dedent {
        Ok((acc, p))
    } else {
        match binding_at(t, p) {
            Err(e) => Err(e),
            Ok((d, q)) => if moved(t, p, q) {
                methods_at(t, q, acc.push(d))
            } else {
                Err(PErr::Stuck)
            },
        }
    }
}

/// `trait Name a` and its indented block of methods; `trait` is at `p`.
pub open spec fn trait_at(t: Seq<Token>, p: int) -> Result<(SDecl, int), PErr> {
    match upper_at(t, p + 1) {
        Err(e) => Err(e),
        Ok((name, q1)) => match lower_at(t, q1) {
            Err(e) => Err(e),
            Ok((type_var, q2)) => match expect_at(t, q2, TokenKind::Newline, "newline before trait block"@) {
                Err(e) => Err(e),
                Ok(q3) => match expect_at(t, q3, TokenKind::Indent, "indented trait block"@) {
                    Err(e) => Err(e),
                    Ok(q4) => match methods_at(t, q4, seq![]) {
                        Err(e) => Err(e),
                        Ok((methods, q5)) => match expect_at(t, q5, TokenKind::Dedent, "dedent at trait end"@) {
                            Err(e) => Err(e),
                            Ok(q6) => Ok(
                                (
                                    SDecl {
                                        span: t[p].span.spec_merge(t[q5].span),
                                        node: SDeclKind::TraitDecl { name, type_var, methods },
                                    },
                                    eat_at(t, q6, TokenKind::Newline),
                                ),
                            ),
                        },
                    },
                },
            },
        },
    }
}

/// `impl Trait Type` and its indented block of methods; `impl` is at `p`.
pub open spec fn impl_at(t: Seq<Token>, p: int) -> Result<(SDecl, int), PErr> {
    match upper_at(t, p + 1) {
        Err(e) => Err(e),
        Ok((trait_name, q1)) => match type_at(t, q1) {
            Err(e) => Err(e),
            Ok((target, q2)) => match expect_at(t, q2, TokenKind::Newline, "newline before impl block"@) {
                Err(e) => Err(e),
                Ok(q3) => match expect_at(t, q3, TokenKind::Indent, "indented impl block"@) {
                    Err(e) => Err(e),
                    Ok(q4) => match methods_at(t, q4, seq![]) {
                        Err(e) => Err(e),
                        Ok((methods, q5)) => match expect_at(t, q5, TokenKind::Dedent, "dedent at impl end"@) {
                            Err(e) => Err(e),
                            Ok(q6) => Ok(
                                (
                                    SDecl {
                                        span: t[p].span.spec_merge(t[q5].span),
                                        node: SDeclKind::ImplDecl { trait_name, target, methods },
                                    },
                                    eat_at(t, q6, TokenKind::Newline),
                                ),
                            ),
                        },
                    },
                },
            },
        },
    }
}

/// What follows the path of a `use`: `as Name`, `(names)`, or nothing.
pub open spec fn use_kind_at(t: Seq<Token>, q: int) -> Result<(SUseKind, int), PErr> {
    if t[q].kind is KwAs {
        match upper_at(t, q + 1) {
            Err(e) => Err(e),
            Ok((a, q2)) => Ok((SUseKind::Alias(a), q2)),
        }
    } else if t[q].kind is LParen {
        match idents_at(t, q + 1, seq![]) {
            Err(e) => Err(e),
            Ok((names, q2)) => match expect_at(t, q2, TokenKind::RParen, "`)`"@) {
                Err(e) => Err(e),
                Ok(q3) => Ok((SUseKind::Cherry(names), q3)),
            },
        }
    } else {
        Ok((SUseKind::Whole, q))
    }
}

/// `use A.B`, `use A.B as C` or `use A.B (x, Y)`; `use` is at `p`. The
/// span runs to the token after it.
pub open spec fn use_at(t: Seq<Token>, p: int) -> Result<(SDecl, int), PErr> {
    match dotted_at(t, p + 1, seq![]) {
        Err(e) => Err(e),
        Ok((path, q)) => match use_kind_at(t, q) {
            Err(e) => Err(e),
            Ok((kind, q2)) => Ok(
                (
                    SDecl { span: t[p].span.spec_merge(t[q2].span), node: SDeclKind::Use { path, kind } },
                    eat_at(t, q2, TokenKind::Newline),
                ),
            ),
        },
    }
}

/// One declaration, chosen by its first keyword; a binding otherwise.
pub open spec fn decl_at(t: Seq<Token>, p: int) -> Result<(SDecl, int), PErr> {
    match t[p].kind {
        TokenKind::KwType => type_decl_at(t, p),
        TokenKind::KwTrait => trait_at(t, p),
        TokenKind::KwImpl => impl_at(t, p),
        TokenKind::KwUse => use_at(t, p),
        _ => binding_at(t, p),
    }
}

/// An exposed value name, or a type name with `(..)` when its constructors
/// are exposed too.
pub open spec fn expose_at(t: Seq<Token>, p: int) -> Result<(Expose, int), PErr> {
    match t[p].kind {
        TokenKind::LowerIdent(n) => Ok((Expose::Value(n), p + 1)),
        TokenKind::UpperIdent(n) => {
            let with = t[p + 1].kind is LParen && p + 2 < t.len() && t[p + 2].kind is DotDot && p
                + 3 < t.len() && t[p + 3].kind is RParen;
            Ok(
                (
                    Expose::Type { name: n, with_constructors: with },
                    if with {
                        p + 4
                    } else {
                        p + 1
                    },
                ),
            )
        },
        _ => Err(unexpected(t, p, "exposed item (lowercase value or uppercase type)"@)),
    }
}

/// Exposed items separated by commas, from `p`, after `acc`.
pub open spec fn exposes_at(t: Seq<Token>, p: int, acc: Seq<Expose>) -> Result<(Seq<Expose>, int), PErr>
    decreases t.len() - p
    when within(t, p)
{
    match expose_at(t, p) {
        Err(e) => Err(e),
        Ok((x, q)) => if !(t[q].kind is Comma) {
            Ok((acc.push(x), q))
        } else if moved(t, p, q) {
            exposes_at(t, q + 1, acc.push(x))
        } else {
            Err(PErr::Stuck)
        },
    }
}

/// `module A.B` and its indented `expose` list; `module` is at `p`.
pub open spec fn header_at(t: Seq<Token>, p: int) -> Result<(SHeader, int), PErr> {
    match dotted_at(t, p + 1, seq![]) {
        Err(e) => Err(e),
        Ok((name, q)) => match expect_at(t, q, TokenKind::Newline, "newline after module name"@) {
            Err(e) => Err(e),
            Ok(q1) => match expect_at(t, q1, TokenKind::Indent, "indented expose clause"@) {
                Err(e) => Err(e),
                Ok(q2) => match expect_at(t, q2, TokenKind::KwExpose, "`expose`"@) {
                    Err(e) => Err(e),
                    Ok(q3) => match exposes_at(t, q3, seq![]) {
                        Err(e) => Err(e),
                        Ok((exposes, q4)) => match expect_at(
                            t,
                            eat_at(t, q4, TokenKind::Newline),
                            TokenKind::Dedent,
                            "dedent at module header end"@,
                        ) {
                            Err(e) => Err(e),
                            Ok(q6) => Ok((SHeader { name, exposes }, q6)),
                        },
                    },
                },
            },
        },
    }
}

/// Declarations from `p`, after `acc`, up to `Eof`, with blank lines
/// between them.
pub open spec fn decls_at(t: Seq<Token>, p: int, acc: Seq<SDecl>) -> Result<(Seq<SDecl>, int), PErr>
    decreases t.len() - p
    when within(t, p)
{
    if t[p].kind is Eof {
        Ok((acc, p))
    } else if t[p].kind is Newline {
        decls_at(t, p + 1, acc)
    } else {
        match decl_at(t, p) {
            Err(e) => Err(e),
            Ok((d, q)) => if moved(t, p, q) {
                decls_at(t, q, acc.push(d))
            } else {
                Err(PErr::Stuck)
            },
        }
    }
}

/// A whole file: an optional module header, then declarations up to `Eof`.
pub open spec fn file_at(t: Seq<Token>, p: int) -> Result<(SFile, int), PErr> {
    let p1 = eat_at(t, p, TokenKind::Newline);
    let module = if t[p1].kind is KwModule {
        match header_at(t, p1) {
            Err(e) => Err(e),
            Ok((h, q)) => Ok((Some(h), q)),
        }
    } else {
        Ok((None, p1))
    };
    match module {
        Err(e) => Err(e),
        Ok((module, q)) => match decls_at(t, q, seq![]) {
            Err(e) => Err(e),
            Ok((decls, q2)) => Ok((SFile { module, decls }, q2)),
        },
    }
}

} // verus!
