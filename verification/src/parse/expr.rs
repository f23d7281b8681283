use vstd::prelude::*;
use crate::ast::{BinOp, Expr, ExprKind, Pattern, UnaryOp};
use crate::ast::model::{exprs_m, patterns_m, SExpr};
use crate::error::{Error, ErrorKind};
use crate::parse::cursor::{advanced, progressed, Cursor};
use crate::parse::grammar::{
    atom_at, bp_at, bp_loop_at, expr_at, lambda_at, list_items_at, parsed, perr_is, PErr,
};
use crate::parse::pat::parse_pattern;
use crate::parse::postfix::parse_call;
use crate::span::Span;
use crate::token::{Token, TokenKind};

verus! {

broadcast use crate::ast::model::group_model_push;

/// The stream from `i` starts with one or more lowercase names and then
/// an arrow: the head of a lambda.
pub open spec fn lambda_head(toks: Seq<Token>, i: int, count: nat) -> bool
    decreases toks.len() - i,
{
    if i < 0 || i >= toks.len() {
        false
    } else {
        match toks[i].kind {
            TokenKind::LowerIdent(_) => lambda_head(toks, i + 1, count + 1),
            TokenKind::Arrow => count > 0,
            _ => false,
        }
    }
}

/// Parses an expression, a lambda included.
pub fn parse_expr(cur: &mut Cursor) -> (r: Result<Expr, Error>)
    ensures
        advanced(*old(cur), *final(cur)),
        r is Ok ==> progressed(*old(cur), *final(cur)),
        parsed(r, expr_at(old(cur).tokens(), old(cur).position()), *final(cur)),
    decreases old(cur).remaining(), 5nat,
{
    cur.in_bounds();
    if looks_like_lambda(cur) {
        return parse_lambda(cur);
    }
    parse_expr_bp(cur, 0)
}

/// Whether a lambda starts here: names, then `->`.
pub fn looks_like_lambda(cur: &Cursor) -> (r: bool)
    ensures
        r == lambda_head(cur.tokens(), cur.position(), 0),
{
    cur.in_bounds();
    let mut i: usize = 0;
    loop
        invariant
            0 <= cur.position() < cur.tokens().len() <= usize::MAX,
            i <= cur.tokens().len() - cur.position(),
            lambda_head(cur.tokens(), cur.position() + i, i as nat) == lambda_head(
                cur.tokens(),
                cur.position(),
                0,
            ),
        decreases cur.tokens().len() - cur.position() - i,
    {
        match cur.peek_n(i) {
            Some(TokenKind::LowerIdent(_)) => {
                i = i + 1;
            },
            Some(TokenKind::Arrow) => {
                return i > 0;
            },
            _ => {
                return false;
            },
        }
    }
}

/// Parses `p1 p2 .. -> body`; the cursor is at the first parameter.
fn parse_lambda(cur: &mut Cursor) -> (r: Result<Expr, Error>)
    requires
        lambda_head(old(cur).tokens(), old(cur).position(), 0),
    ensures
        advanced(*old(cur), *final(cur)),
        r is Ok ==> progressed(*old(cur), *final(cur)),
        parsed(
            r,
            lambda_at(old(cur).tokens(), old(cur).position(), old(cur).cur().span, seq![]),
            *final(cur),
        ),
    decreases old(cur).remaining(), 4nat,
{
    cur.in_bounds();
    let ghost t = cur.tokens();
    let ghost p0 = cur.position();
    let start = cur.peek().span;
    let mut params: Vec<Pattern> = Vec::new();
    let ghost c0 = *cur;
    while !cur.check(&TokenKind::Arrow)
        invariant
            advanced(c0, *cur),
            c0.tokens() == old(cur).tokens(),
            c0.position() == old(cur).position(),
            cur.tokens() == t,
            t == old(cur).tokens(),
            p0 == old(cur).position(),
            0 <= p0 < t.len(),
            start == t[p0].span,
            lambda_at(t, p0, start, seq![]) == lambda_at(t, cur.position(), start, patterns_m(params@)),
        decreases cur.remaining(),
    {
        cur.in_bounds();
        let ghost before = *cur;
        match parse_pattern(cur) {
            Ok(p) => params.push(p),
            Err(e) => return Err(e),
        }
        cur.in_bounds();
        assert(before.position() < cur.position());
    }
    cur.in_bounds();
    cur.bump();
    cur.in_bounds();
    let body = if cur.check(&TokenKind::Newline) {
        cur.bump();
        cur.expect(TokenKind::Indent, "indented block body")?;
        crate::parse::binding::parse_block(cur)?
    } else {
        parse_expr_bp(cur, 0)?
    };
    let span = start.merge(body.span);
    Ok(Expr { span, node: ExprKind::Lambda { params, body: Box::new(body) } })
}

pub open spec fn is_comparison_op(op: BinOp) -> bool {
    op is Eq || op is Ne || op is Lt || op is Le || op is Gt || op is Ge
}

pub fn is_comparison(op: &BinOp) -> (r: bool)
    ensures
        r == is_comparison_op(*op),
{
    match op {
        BinOp::Eq | BinOp::Ne | BinOp::Lt | BinOp::Le | BinOp::Gt | BinOp::Ge => true,
        _ => false,
    }
}

/// The binary operator a token stands for, with its left and right
/// binding powers.
pub open spec fn infix(k: TokenKind) -> Option<(BinOp, u8, u8)> {
    match k {
        TokenKind::KwOr => Some((BinOp::Or, 20u8, 21u8)),
        TokenKind::KwAnd => Some((BinOp::And, 30u8, 31u8)),
        TokenKind::EqEq => Some((BinOp::Eq, 50u8, 51u8)),
        TokenKind::SlashEq => Some((BinOp::Ne, 50u8, 51u8)),
        TokenKind::Lt => Some((BinOp::Lt, 50u8, 51u8)),
        TokenKind::LtEq => Some((BinOp::Le, 50u8, 51u8)),
        TokenKind::Gt => Some((BinOp::Gt, 50u8, 51u8)),
        TokenKind::GtEq => Some((BinOp::Ge, 50u8, 51u8)),
        TokenKind::PlusPlus => Some((BinOp::Concat, 60u8, 60u8)),
        TokenKind::Plus => Some((BinOp::Add, 70u8, 71u8)),
        TokenKind::Minus => Some((BinOp::Sub, 70u8, 71u8)),
        TokenKind::Star => Some((BinOp::Mul, 80u8, 81u8)),
        TokenKind::Slash => Some((BinOp::Div, 80u8, 81u8)),
        TokenKind::Caret => Some((BinOp::Pow, 90u8, 90u8)),
        _ => None,
    }
}

pub fn infix_for(k: &TokenKind) -> (r: Option<(BinOp, u8, u8)>)
    ensures
        r == infix(*k),
{
    match k {
        TokenKind::KwOr => Some((BinOp::Or, 20, 21)),
        TokenKind::KwAnd => Some((BinOp::And, 30, 31)),
        TokenKind::EqEq => Some((BinOp::Eq, 50, 51)),
        TokenKind::SlashEq => Some((BinOp::Ne, 50, 51)),
        TokenKind::Lt => Some((BinOp::Lt, 50, 51)),
        TokenKind::LtEq => Some((BinOp::Le, 50, 51)),
        TokenKind::Gt => Some((BinOp::Gt, 50, 51)),
        TokenKind::GtEq => Some((BinOp::Ge, 50, 51)),
        TokenKind::PlusPlus => Some((BinOp::Concat, 60, 60)),
        TokenKind::Plus => Some((BinOp::Add, 70, 71)),
        TokenKind::Minus => Some((BinOp::Sub, 70, 71)),
        TokenKind::Star => Some((BinOp::Mul, 80, 81)),
        TokenKind::Slash => Some((BinOp::Div, 80, 81)),
        TokenKind::Caret => Some((BinOp::Pow, 90, 90)),
        _ => None,
    }
}

/// Parses an operator expression whose operators bind at least as tightly
/// as `min_bp` (precedence climbing). A comparison may not be followed by
/// another comparison.
pub fn parse_expr_bp(cur: &mut Cursor, min_bp: u8) -> (r: Result<Expr, Error>)
    ensures
        advanced(*old(cur), *final(cur)),
        r is Ok ==> progressed(*old(cur), *final(cur)),
        parsed(r, bp_at(old(cur).tokens(), old(cur).position(), min_bp), *final(cur)),
    decreases old(cur).remaining(), 3nat,
{
    cur.in_bounds();
    let ghost t = cur.tokens();
    let ghost p0 = cur.position();
    let mut lhs = if cur.check(&TokenKind::Minus) {
        let start = cur.peek().span;
        cur.bump();
        let rhs = parse_expr_bp(cur, 100)?;
        let span = start.merge(rhs.span);
        Expr { span, node: ExprKind::UnaryOp { op: UnaryOp::Neg, expr: Box::new(rhs) } }
    } else if cur.check(&TokenKind::KwNot) {
        let start = cur.peek().span;
        cur.bump();
        let rhs = parse_expr_bp(cur, 40)?;
        let span = start.merge(rhs.span);
        Expr { span, node: ExprKind::UnaryOp { op: UnaryOp::Not, expr: Box::new(rhs) } }
    } else {
        parse_call(cur)?
    };
    let ghost c0 = *old(cur);
    assert(bp_at(t, p0, min_bp) == bp_loop_at(t, cur.position(), min_bp, lhs@));
    loop
        invariant
            progressed(c0, *cur),
            c0 == *old(cur),
            cur.tokens() == t,
            t == old(cur).tokens(),
            p0 == old(cur).position(),
            0 <= p0 < t.len(),
            bp_at(t, p0, min_bp) == bp_loop_at(t, cur.position(), min_bp, lhs@),
        ensures
            bp_at(t, p0, min_bp) == Ok::<_, PErr>((lhs@, cur.position())),
        decreases cur.remaining(),
    {
        cur.in_bounds();
        let (op, lbp, rbp) = match infix_for(cur.peek_kind()) {
            Some(x) => x,
            None => {
                break;
            },
        };
        if lbp < min_bp {
            break;
        }
        cur.bump();
        let rhs = parse_expr_bp(cur, rbp)?;
        let span = lhs.span.merge(rhs.span);
        if is_comparison(&op) {
            cur.in_bounds();
            match infix_for(cur.peek_kind()) {
                Some((next_op, _, _)) => {
                    if is_comparison(&next_op) {
                        return Err(
                            Error { span: cur.peek().span, kind: ErrorKind::ChainedComparison },
                        );
                    }
                },
                None => {},
            }
        }
        lhs = Expr { span, node: ExprKind::BinOp { op, lhs: Box::new(lhs), rhs: Box::new(rhs) } };
    }
    Ok(lhs)
}

/// Parses a literal, a name, a parenthesised expression or a list.
pub fn parse_atom(cur: &mut Cursor) -> (r: Result<Expr, Error>)
    ensures
        advanced(*old(cur), *final(cur)),
        r is Ok ==> progressed(*old(cur), *final(cur)),
        parsed(r, atom_at(old(cur).tokens(), old(cur).position()), *final(cur)),
    decreases old(cur).remaining(), 0nat,
{
    cur.in_bounds();
    let start = cur.peek().span;
    match cur.peek_kind() {
        TokenKind::IntLit(n) => {
            let n = *n;
            cur.bump();
            Ok(Expr { span: start, node: ExprKind::IntLit(n) })
        },
        TokenKind::FloatLit(f) => {
            let f = f.clone();
            cur.bump();
            Ok(Expr { span: start, node: ExprKind::FloatLit(f) })
        },
        TokenKind::StringLit(s) => {
            let s = s.clone();
            cur.bump();
            Ok(Expr { span: start, node: ExprKind::StringLit(s) })
        },
        TokenKind::LowerIdent(s) => {
            let s = s.clone();
            cur.bump();
            Ok(Expr { span: start, node: ExprKind::Var(s) })
        },
        TokenKind::UpperIdent(s) => {
            let s = s.clone();
            cur.bump();
            Ok(Expr { span: start, node: ExprKind::Ctor(s) })
        },
        TokenKind::LParen => {
            cur.bump();
            let e = parse_expr(cur)?;
            let close = cur.expect(TokenKind::RParen, "`)`")?.span;
            Ok(Expr { span: start.merge(close), node: ExprKind::Paren(Box::new(e)) })
        },
        TokenKind::LBracket => {
            cur.bump();
            cur.in_bounds();
            let items = if !cur.check(&TokenKind::RBracket) {
                parse_expr_list(cur)?
            } else {
                let v: Vec<Expr> = Vec::new();
                assert(exprs_m(v@) == Seq::<SExpr>::empty());
                v
            };
            let close = cur.expect(TokenKind::RBracket, "`]`")?.span;
            Ok(Expr { span: start.merge(close), node: ExprKind::List(items) })
        },
        _ => Err(cur.unexpected("an expression")),
    }
}

/// What follows the expression that ended at `q`: more after a comma, else
/// the expressions `items`.
pub open spec fn items_rest(t: Seq<Token>, q: int, items: Seq<SExpr>) -> Result<(Seq<SExpr>, int), PErr> {
    if t[q].kind is Comma {
        list_items_at(t, q + 1, items)
    } else {
        Ok((items, q))
    }
}

/// Parses comma-separated expressions, at least one.
fn parse_expr_list(cur: &mut Cursor) -> (r: Result<Vec<Expr>, Error>)
    ensures
        advanced(*old(cur), *final(cur)),
        r is Ok ==> progressed(*old(cur), *final(cur)),
        match list_items_at(old(cur).tokens(), old(cur).position(), seq![]) {
            Ok((v, q)) => r matches Ok(x) && exprs_m(x@) == v && final(cur).position() == q,
            Err(pe) => r matches Err(e) && perr_is(e, pe),
        },
    decreases old(cur).remaining(), 6nat,
{
    cur.in_bounds();
    let ghost t = cur.tokens();
    let ghost p0 = cur.position();
    let mut items: Vec<Expr> = Vec::new();
    let x = parse_expr(cur)?;
    items.push(x);
    assert(Seq::<Expr>::empty().push(x) == items@);
    let ghost c0 = *old(cur);
    loop
        invariant
            progressed(c0, *cur),
            c0 == *old(cur),
            cur.tokens() == t,
            t == old(cur).tokens(),
            p0 == old(cur).position(),
            0 <= p0 < t.len(),
            list_items_at(t, p0, seq![]) == items_rest(t, cur.position(), exprs_m(items@)),
        ensures
            list_items_at(t, p0, seq![]) == Ok::<_, PErr>((exprs_m(items@), cur.position())),
        decreases cur.remaining(),
    {
        cur.in_bounds();
        if !cur.eat(&TokenKind::Comma) {
            break;
        }
        let x = parse_expr(cur)?;
        items.push(x);
    }
    Ok(items)
}

} // verus!
