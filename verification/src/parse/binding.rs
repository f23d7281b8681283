use vstd::prelude::*;
use crate::ast::{BlockItem, Decl, DeclKind, Expr, ExprKind};
use crate::ast::model::items_m;
use crate::error::Error;
use crate::parse::cursor::{advanced, progressed, Cursor};
use crate::parse::grammar::{
    binding_ahead, binding_at, binding_type_at, binding_value_at, block_at, block_items_at,
    parsed, PErr,
};
use crate::parse::{expr, typ};
use crate::token::TokenKind;

verus! {

broadcast use crate::ast::model::group_model_push;

/// Parses `name [: type] [= value]` and the newline after it; a value that
/// starts on the next line is an indented block.
pub fn parse_binding(cur: &mut Cursor) -> (r: Result<Decl, Error>)
    ensures
        advanced(*old(cur), *final(cur)),
        r is Ok ==> progressed(*old(cur), *final(cur)),
        parsed(r, binding_at(old(cur).tokens(), old(cur).position()), *final(cur)),
    decreases old(cur).remaining(), 6nat,
{
    cur.in_bounds();
    let ghost t = cur.tokens();
    let ghost p0 = cur.position();
    let start = cur.peek().span;
    let name = match cur.peek_kind() {
        TokenKind::LowerIdent(n) => n.clone(),
        _ => {
            return Err(cur.unexpected("binding name"));
        },
    };
    cur.bump();
    let ty = if cur.eat(&TokenKind::Colon) {
        Some(typ::parse_type(cur)?)
    } else {
        None
    };
    cur.in_bounds();
    let ghost q = cur.position();
    assert(binding_type_at(t, p0 + 1) matches Ok((sty, q1)) && q1 == q && sty == match ty {
        Some(x) => Some(x@),
        None => None,
    });
    let value = if cur.eat(&TokenKind::Equals) {
        cur.in_bounds();
        if cur.check(&TokenKind::Newline) {
            cur.bump();
            cur.expect(TokenKind::Indent, "indented block body")?;
            Some(parse_block(cur)?)
        } else {
            Some(expr::parse_expr(cur)?)
        }
    } else {
        None
    };
    assert(binding_value_at(t, q) matches Ok((sv, q2)) && q2 == cur.position() && sv == match value {
        Some(x) => Some(x@),
        None => None,
    });
    cur.eat(&TokenKind::Newline);
    let end_span = match (&ty, &value) {
        (_, Some(v)) => v.span,
        (Some(t), None) => t.span,
        (None, None) => start,
    };
    Ok(Decl { span: start.merge(end_span), node: DeclKind::Binding { name, ty, value } })
}

/// Parses the lines of an indented block up to its `Dedent`; the `Indent`
/// is already consumed.
pub fn parse_block(cur: &mut Cursor) -> (r: Result<Expr, Error>)
    ensures
        advanced(*old(cur), *final(cur)),
        r is Ok ==> progressed(*old(cur), *final(cur)),
        parsed(r, block_at(old(cur).tokens(), old(cur).position()), *final(cur)),
    decreases old(cur).remaining(), 7nat,
{
    cur.in_bounds();
    let ghost t = cur.tokens();
    let ghost p0 = cur.position();
    let start = cur.peek().span;
    let mut items: Vec<BlockItem> = Vec::new();
    let ghost c0 = *old(cur);
    while !cur.check(&TokenKind::Dedent)
        invariant
            advanced(c0, *cur),
            c0 == *old(cur),
            cur.tokens() == t,
            t == old(cur).tokens(),
            p0 == old(cur).position(),
            0 <= p0 < t.len(),
            start == t[p0].span,
            block_at(t, p0) == block_items_at(t, cur.position(), start, items_m(items@)),
        decreases cur.remaining(),
    {
        cur.in_bounds();
        if looks_like_binding(cur) {
            items.push(BlockItem::Binding(parse_binding(cur)?));
        } else {
            let e = expr::parse_expr(cur)?;
            cur.eat(&TokenKind::Newline);
            items.push(BlockItem::Expr(e));
        }
    }
    let close = cur.expect(TokenKind::Dedent, "dedent at block end")?.span;
    Ok(Expr { span: start.merge(close), node: ExprKind::Block(items) })
}

fn looks_like_binding(cur: &Cursor) -> (r: bool)
    ensures
        r == binding_ahead(cur.tokens(), cur.position()),
{
    cur.in_bounds();
    let a = match cur.peek_kind() {
        TokenKind::LowerIdent(_) => true,
        _ => false,
    };
    let b = match cur.peek_n(1) {
        Some(TokenKind::Colon) | Some(TokenKind::Equals) => true,
        _ => false,
    };
    a && b
}

} // verus!
