use vstd::prelude::*;
use crate::ast::{Decl, DeclKind, TypeBody, TypeMember, VariantBody};
use crate::ast::model::members_m;
use crate::error::Error;
use crate::parse::binding::parse_block;
use crate::parse::cursor::{advanced, progressed, Cursor};
use crate::parse::decl::{expect_lower, expect_upper};
use crate::parse::grammar::{lowers_at, member_at, members_at, parsed, perr_is, type_decl_at, PErr};
use crate::parse::{expr, typ};
use crate::token::TokenKind;

verus! {

broadcast use crate::ast::model::group_model_push;

/// Parses lowercase names separated by commas, at least one.
pub fn parse_lowers(cur: &mut Cursor) -> (r: Result<Vec<String>, Error>)
    ensures
        advanced(*old(cur), *final(cur)),
        r is Ok ==> progressed(*old(cur), *final(cur)),
        match lowers_at(old(cur).tokens(), old(cur).position(), seq![]) {
            Ok((v, q)) => r matches Ok(x) && x@ == v && final(cur).position() == q,
            Err(pe) => r matches Err(e) && perr_is(e, pe),
        },
{
    cur.in_bounds();
    let ghost t = cur.tokens();
    let ghost p0 = cur.position();
    let mut names: Vec<String> = Vec::new();
    let ghost c0 = *old(cur);
    loop
        invariant_except_break
            lowers_at(t, p0, seq![]) == lowers_at(t, cur.position(), names@),
        invariant
            advanced(c0, *cur),
            c0 == *old(cur),
            cur.tokens() == t,
            t == old(cur).tokens(),
            p0 == old(cur).position(),
            0 <= p0 < t.len(),
            names@.len() > 0 ==> progressed(c0, *cur),
        ensures
            progressed(c0, *cur),
            lowers_at(t, p0, seq![]) == Ok::<_, PErr>((names@, cur.position())),
        decreases cur.remaining(),
    {
        cur.in_bounds();
        names.push(expect_lower(cur)?);
        if !cur.eat(&TokenKind::Comma) {
            break;
        }
    }
    Ok(names)
}

/// Parses `type Name params = type` or `type Name params` with an
/// indented block of fields, methods and variants.
pub fn parse_type_decl(cur: &mut Cursor) -> (r: Result<Decl, Error>)
    requires
        old(cur).cur().kind is KwType,
    ensures
        advanced(*old(cur), *final(cur)),
        r is Ok ==> progressed(*old(cur), *final(cur)),
        parsed(r, type_decl_at(old(cur).tokens(), old(cur).position()), *final(cur)),
{
    cur.in_bounds();
    let ghost t = cur.tokens();
    let ghost p0 = cur.position();
    let start = cur.peek().span;
    cur.bump();
    let name = expect_upper(cur)?;
    cur.in_bounds();
    let ghost q1 = cur.position();
    let lower = match cur.peek_kind() {
        TokenKind::LowerIdent(_) => true,
        _ => false,
    };
    let params = if lower {
        parse_lowers(cur)?
    } else {
        Vec::new()
    };
    cur.in_bounds();
    assert((if t[q1].kind is LowerIdent {
        lowers_at(t, q1, seq![])
    } else {
        Ok((seq![], q1))
    }) == Ok::<_, PErr>((params@, cur.position())));
    if cur.eat(&TokenKind::Equals) {
        let t = typ::parse_type(cur)?;
        let span = start.merge(t.span);
        cur.eat(&TokenKind::Newline);
        return Ok(
            Decl { span, node: DeclKind::TypeDecl { name, params, body: TypeBody::Newtype(t) } },
        );
    }
    cur.expect(TokenKind::Newline, "newline before type block")?;
    cur.expect(TokenKind::Indent, "indented type block")?;
    let members = parse_type_members(cur)?;
    let end = cur.expect(TokenKind::Dedent, "dedent at type block end")?.span;
    cur.eat(&TokenKind::Newline);
    Ok(
        Decl {
            span: start.merge(end),
            node: DeclKind::TypeDecl { name, params, body: TypeBody::Block(members) },
        },
    )
}

/// Parses members up to the `Dedent` that closes their block.
fn parse_type_members(cur: &mut Cursor) -> (r: Result<Vec<TypeMember>, Error>)
    ensures
        advanced(*old(cur), *final(cur)),
        match members_at(old(cur).tokens(), old(cur).position(), seq![]) {
            Ok((v, q)) => r matches Ok(x) && members_m(x@) == v && final(cur).position() == q,
            Err(pe) => r matches Err(e) && perr_is(e, pe),
        },
    decreases old(cur).remaining(), 1nat,
{
    cur.in_bounds();
    let ghost t = cur.tokens();
    let ghost p0 = cur.position();
    let mut members: Vec<TypeMember> = Vec::new();
    let ghost c0 = *old(cur);
    while !cur.check(&TokenKind::Dedent)
        invariant
            advanced(c0, *cur),
            c0 == *old(cur),
            cur.tokens() == t,
            t == old(cur).tokens(),
            p0 == old(cur).position(),
            0 <= p0 < t.len(),
            members_at(t, p0, seq![]) == members_at(t, cur.position(), members_m(members@)),
        decreases cur.remaining(),
    {
        cur.in_bounds();
        members.push(parse_type_member(cur)?);
    }
    Ok(members)
}

/// Parses a field `name: type`, a method `name = value`, or a variant
/// `Name`, `Name: type` or `Name` with an indented block of members.
fn parse_type_member(cur: &mut Cursor) -> (r: Result<TypeMember, Error>)
    ensures
        advanced(*old(cur), *final(cur)),
        r is Ok ==> progressed(*old(cur), *final(cur)),
        parsed(r, member_at(old(cur).tokens(), old(cur).position()), *final(cur)),
    decreases old(cur).remaining(), 0nat,
{
    cur.in_bounds();
    let start = cur.peek().span;
    match cur.peek_kind() {
        TokenKind::LowerIdent(n) => {
            let n = n.clone();
            cur.bump();
            if cur.eat(&TokenKind::Colon) {
                let t = typ::parse_type(cur)?;
                cur.eat(&TokenKind::Newline);
                Ok(TypeMember::Field { name: n, ty: t })
            } else if cur.eat(&TokenKind::Equals) {
                cur.in_bounds();
                let value = if cur.check(&TokenKind::Newline) {
                    cur.bump();
                    cur.expect(TokenKind::Indent, "indented method body")?;
                    parse_block(cur)?
                } else {
                    expr::parse_expr(cur)?
                };
                cur.eat(&TokenKind::Newline);
                let span = start.merge(value.span);
                Ok(
                    TypeMember::Method(
                        Decl {
                            span,
                            node: DeclKind::Binding { name: n, ty: None, value: Some(value) },
                        },
                    ),
                )
            } else {
                Err(cur.unexpected("`:` or `=` after member name"))
            }
        },
        TokenKind::UpperIdent(n) => {
            let n = n.clone();
            cur.bump();
            cur.in_bounds();
            let body = if cur.eat(&TokenKind::Colon) {
                let t = typ::parse_type(cur)?;
                cur.eat(&TokenKind::Newline);
                VariantBody::Single(t)
            } else if cur.check(&TokenKind::Newline) && match cur.peek_n(1) {
                Some(TokenKind::Indent) => true,
                _ => false,
            } {
                cur.bump();
                cur.bump();
                let fields = parse_type_members(cur)?;
                cur.expect(TokenKind::Dedent, "dedent at variant block end")?;
                cur.eat(&TokenKind::Newline);
                VariantBody::Fields(fields)
            } else {
                cur.eat(&TokenKind::Newline);
                VariantBody::Bare
            };
            Ok(TypeMember::Variant { name: n, body })
        },
        _ => Err(cur.unexpected("type member (field, method, or variant)")),
    }
}

} // verus!
