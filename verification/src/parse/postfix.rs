use vstd::prelude::*;
use crate::ast::{Expr, ExprKind, KwArg, MatchArm};
use crate::ast::model::{arms_m, exprs_m, kwargs_m, SArm, SExpr, SExprKind, SKwArg};
use crate::error::Error;
use crate::parse::cursor::{advanced, progressed, Cursor};
use crate::parse::expr::{parse_atom, parse_expr, parse_expr_bp};
use crate::parse::grammar::{
    arms_at, call_args_at, call_at, kwargs_after, kwargs_at, parsed, perr_is, postfix_at,
    postfix_loop_at, PErr,
};
use crate::parse::pat::parse_pattern;
use crate::token::{Token, TokenKind};

verus! {

broadcast use crate::ast::model::group_model_push;

/// What follows the argument that ended at `q`: more after a comma, else the
/// call of `func` with the arguments `args`.
pub open spec fn args_rest(t: Seq<Token>, q: int, func: SExpr, args: Seq<SExpr>) -> Result<(SExpr, int), PErr> {
    if t[q].kind is Comma {
        call_args_at(t, q + 1, func, args)
    } else {
        Ok(
            (
                SExpr {
                    span: func.span.spec_merge(args.last().span),
                    node: SExprKind::Call { func: Box::new(func), args },
                },
                q,
            ),
        )
    }
}

/// Parses a postfix expression and, when an argument follows, a call with
/// comma-separated arguments.
pub fn parse_call(cur: &mut Cursor) -> (r: Result<Expr, Error>)
    ensures
        advanced(*old(cur), *final(cur)),
        r is Ok ==> progressed(*old(cur), *final(cur)),
        parsed(r, call_at(old(cur).tokens(), old(cur).position()), *final(cur)),
    decreases old(cur).remaining(), 2nat,
{
    cur.in_bounds();
    let ghost t = cur.tokens();
    let ghost p0 = cur.position();
    let func = parse_postfix(cur)?;
    cur.in_bounds();
    if !starts_call_arg(cur.peek_kind()) {
        return Ok(func);
    }
    let ghost fv = func@;
    let ghost q0 = cur.position();
    assert(call_at(t, p0) == call_args_at(t, q0, fv, seq![]));
    let mut args: Vec<Expr> = Vec::new();
    let a = parse_expr(cur)?;
    args.push(a);
    assert(Seq::<Expr>::empty().push(a) == args@);
    let ghost c0 = *old(cur);
    loop
        invariant
            progressed(c0, *cur),
            c0 == *old(cur),
            cur.tokens() == t,
            t == old(cur).tokens(),
            p0 == old(cur).position(),
            0 <= p0 < t.len(),
            fv == func@,
            args@.len() > 0,
            exprs_m(args@).last() == args@.last()@,
            call_at(t, p0) == args_rest(t, cur.position(), fv, exprs_m(args@)),
        ensures
            call_at(t, p0) == Ok::<_, PErr>(
                (
                    SExpr {
                        span: fv.span.spec_merge(exprs_m(args@).last().span),
                        node: SExprKind::Call { func: Box::new(fv), args: exprs_m(args@) },
                    },
                    cur.position(),
                ),
            ),
        decreases cur.remaining(),
    {
        cur.in_bounds();
        if !cur.eat(&TokenKind::Comma) {
            break;
        }
        let a = parse_expr(cur)?;
        args.push(a);
    }
    let span = func.span.merge(args[args.len() - 1].span);
    Ok(Expr { span, node: ExprKind::Call { func: Box::new(func), args } })
}

/// A token that can start a call argument.
pub open spec fn starts_arg(k: TokenKind) -> bool {
    k is IntLit || k is FloatLit || k is StringLit || k is LowerIdent || k is UpperIdent
        || k is LParen || k is LBracket
}

pub fn starts_call_arg(k: &TokenKind) -> (r: bool)
    ensures
        r == starts_arg(*k),
{
    match k {
        TokenKind::IntLit(_) | TokenKind::FloatLit(_) | TokenKind::StringLit(_)
        | TokenKind::LowerIdent(_) | TokenKind::UpperIdent(_) | TokenKind::LParen
        | TokenKind::LBracket => true,
        _ => false,
    }
}

/// `( name =` follows: keyword arguments rather than a parenthesised argument.
pub fn looks_like_kwargs(cur: &Cursor) -> (r: bool)
    ensures
        r == kwargs_after(cur.tokens(), cur.position()),
{
    cur.in_bounds();
    let a = match cur.peek_n(1) {
        Some(TokenKind::LowerIdent(_)) => true,
        _ => false,
    };
    let b = match cur.peek_n(2) {
        Some(TokenKind::Equals) => true,
        _ => false,
    };
    a && b
}

/// Parses an atom followed by keyword arguments, field accesses, `!`, `?`
/// and `match` blocks.
pub fn parse_postfix(cur: &mut Cursor) -> (r: Result<Expr, Error>)
    ensures
        advanced(*old(cur), *final(cur)),
        r is Ok ==> progressed(*old(cur), *final(cur)),
        parsed(r, postfix_at(old(cur).tokens(), old(cur).position()), *final(cur)),
    decreases old(cur).remaining(), 1nat,
{
    cur.in_bounds();
    let ghost t = cur.tokens();
    let ghost p0 = cur.position();
    let mut e = parse_atom(cur)?;
    let ghost c0 = *old(cur);
    loop
        invariant
            progressed(c0, *cur),
            c0 == *old(cur),
            cur.tokens() == t,
            t == old(cur).tokens(),
            p0 == old(cur).position(),
            0 <= p0 < t.len(),
            postfix_at(t, p0) == postfix_loop_at(t, cur.position(), e@),
        ensures
            postfix_at(t, p0) == Ok::<_, PErr>((e@, cur.position())),
        decreases cur.remaining(),
    {
        cur.in_bounds();
        let ghost it = *cur;
        let ghost p = cur.position();
        let is_kw = cur.check(&TokenKind::LParen) && looks_like_kwargs(cur);
        if is_kw {
            cur.bump();
            let fields = parse_kwargs(cur)?;
            let close = cur.expect(TokenKind::RParen, "`)`")?.span;
            let span = e.span.merge(close);
            e = match &e.node {
                ExprKind::Ctor(name) => Expr {
                    span,
                    node: ExprKind::Construct { ty_name: name.clone(), fields },
                },
                _ => Expr { span, node: ExprKind::Update { value: Box::new(e), fields } },
            };
        } else if cur.check(&TokenKind::Dot) {
            cur.bump();
            cur.in_bounds();
            let next_span = cur.peek().span;
            let name = match cur.peek_kind() {
                TokenKind::LowerIdent(n) => n.clone(),
                TokenKind::UpperIdent(n) => n.clone(),
                _ => {
                    return Err(cur.unexpected("field name after `.`"));
                },
            };
            cur.bump();
            let span = e.span.merge(next_span);
            e = Expr { span, node: ExprKind::FieldAccess { receiver: Box::new(e), field: name } };
        } else if cur.check(&TokenKind::Bang) {
            let span = e.span.merge(cur.peek().span);
            cur.bump();
            e = Expr { span, node: ExprKind::Bang(Box::new(e)) };
        } else if cur.check(&TokenKind::Question) {
            let span = e.span.merge(cur.peek().span);
            cur.bump();
            e = Expr { span, node: ExprKind::Question(Box::new(e)) };
        } else if cur.check(&TokenKind::KwMatch) {
            cur.bump();
            cur.expect(TokenKind::Newline, "newline before match arms")?;
            cur.expect(TokenKind::Indent, "indented match arms")?;
            let arms = parse_arms(cur)?;
            let close = cur.expect(TokenKind::Dedent, "dedent")?.span;
            let span = e.span.merge(close);
            e = Expr { span, node: ExprKind::Match { scrutinee: Box::new(e), arms } };
        } else {
            break;
        }
    }
    Ok(e)
}

/// Parses `pattern -> body` arms up to the `Dedent` that closes them.
fn parse_arms(cur: &mut Cursor) -> (r: Result<Vec<MatchArm>, Error>)
    ensures
        advanced(*old(cur), *final(cur)),
        match arms_at(old(cur).tokens(), old(cur).position(), seq![]) {
            Ok((v, q)) => r matches Ok(x) && arms_m(x@) == v && final(cur).position() == q,
            Err(pe) => r matches Err(e) && perr_is(e, pe),
        },
    decreases old(cur).remaining(), 0nat,
{
    cur.in_bounds();
    let ghost t = cur.tokens();
    let ghost p0 = cur.position();
    let mut arms: Vec<MatchArm> = Vec::new();
    let ghost c0 = *old(cur);
    while !cur.check(&TokenKind::Dedent)
        invariant
            advanced(c0, *cur),
            c0 == *old(cur),
            cur.tokens() == t,
            t == old(cur).tokens(),
            p0 == old(cur).position(),
            0 <= p0 < t.len(),
            arms_at(t, p0, seq![]) == arms_at(t, cur.position(), arms_m(arms@)),
        decreases cur.remaining(),
    {
        cur.in_bounds();
        let pattern = parse_pattern(cur)?;
        cur.expect(TokenKind::Arrow, "`->`")?;
        let body = parse_expr_bp(cur, 0)?;
        cur.eat(&TokenKind::Newline);
        arms.push(MatchArm { pattern, body });
    }
    Ok(arms)
}

/// Parses `name = value, ..`, at least one.
fn parse_kwargs(cur: &mut Cursor) -> (r: Result<Vec<KwArg>, Error>)
    ensures
        advanced(*old(cur), *final(cur)),
        r is Ok ==> progressed(*old(cur), *final(cur)),
        match kwargs_at(old(cur).tokens(), old(cur).position(), seq![]) {
            Ok((v, q)) => r matches Ok(x) && kwargs_m(x@) == v && final(cur).position() == q,
            Err(pe) => r matches Err(e) && perr_is(e, pe),
        },
    decreases old(cur).remaining(), 0nat,
{
    let mut kwargs: Vec<KwArg> = Vec::new();
    let ghost c0 = *old(cur);
    cur.in_bounds();
    let ghost t = cur.tokens();
    let ghost p0 = cur.position();
    loop
        invariant_except_break
            kwargs_at(t, p0, seq![]) == kwargs_at(t, cur.position(), kwargs_m(kwargs@)),
        invariant
            advanced(c0, *cur),
            c0 == *old(cur),
            cur.tokens() == t,
            t == old(cur).tokens(),
            p0 == old(cur).position(),
            0 <= p0 < t.len(),
            kwargs@.len() > 0 ==> progressed(c0, *cur),
        ensures
            progressed(c0, *cur),
            kwargs_at(t, p0, seq![]) == Ok::<_, PErr>((kwargs_m(kwargs@), cur.position())),
        decreases cur.remaining(),
    {
        cur.in_bounds();
        let name = match cur.peek_kind() {
            TokenKind::LowerIdent(n) => n.clone(),
            _ => {
                return Err(cur.unexpected("field name"));
            },
        };
        cur.bump();
        cur.expect(TokenKind::Equals, "`=`")?;
        let value = parse_expr_bp(cur, 0)?;
        kwargs.push(KwArg { name, value });
        if !cur.eat(&TokenKind::Comma) {
            break;
        }
    }
    Ok(kwargs)
}

} // verus!
