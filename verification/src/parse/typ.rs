use vstd::prelude::*;
use crate::ast::{EffectRow, Type, TypeKind};
use crate::ast::model::{types_m, SType};
use crate::error::Error;
use crate::parse::cursor::{advanced, progressed, Cursor};
use crate::parse::grammar::{
    effect_names_at, effect_names_then_arrow, effect_row_at, paren_type_at, parsed, perr_is,
    pre_arrow_effect, starts_type, type_args_at, type_args_atom_at, type_at, type_atom_at,
    type_list_at, type_tail_at, PErr,
};
use crate::span::Span;
use crate::token::{Token, TokenKind};

verus! {

broadcast use crate::ast::model::group_model_push;

/// What follows the atom that ended at `q`: more atoms after a comma, else
/// the atoms `atoms`.
pub open spec fn atoms_rest(t: Seq<Token>, q: int, atoms: Seq<SType>) -> Result<(Seq<SType>, int), PErr> {
    if t[q].kind is Comma {
        type_list_at(t, q + 1, atoms)
    } else {
        Ok((atoms, q))
    }
}

/// Parses a type: comma-separated atoms, optionally an effect row and an
/// arrow with a result type (a function type), else a single atom or a
/// tuple of them.
pub fn parse_type(cur: &mut Cursor) -> (r: Result<Type, Error>)
    ensures
        advanced(*old(cur), *final(cur)),
        r is Ok ==> progressed(*old(cur), *final(cur)),
        parsed(r, type_at(old(cur).tokens(), old(cur).position()), *final(cur)),
    decreases old(cur).remaining(), 3nat,
{
    cur.in_bounds();
    let ghost t = cur.tokens();
    let ghost p0 = cur.position();
    let start = cur.peek().span;
    let first = parse_type_atom_with_args(cur)?;
    let mut atoms: Vec<Type> = Vec::new();
    atoms.push(first);
    assert(Seq::<Type>::empty().push(first) == atoms@);
    let ghost c0 = *old(cur);
    loop
        invariant
            progressed(c0, *cur),
            c0 == *old(cur),
            cur.tokens() == t,
            t == old(cur).tokens(),
            p0 == old(cur).position(),
            start == t[p0].span,
            0 <= p0 < t.len(),
            atoms@.len() > 0,
            types_m(atoms@).len() == atoms@.len(),
            type_list_at(t, p0, seq![]) == atoms_rest(t, cur.position(), types_m(atoms@)),
        ensures
            type_list_at(t, p0, seq![]) == Ok::<_, PErr>((types_m(atoms@), cur.position())),
        decreases cur.remaining(),
    {
        cur.in_bounds();
        if !cur.eat(&TokenKind::Comma) {
            break;
        }
        atoms.push(parse_type_atom_with_args(cur)?);
    }
    cur.in_bounds();
    let ghost q = cur.position();
    assert(type_at(t, p0) == type_tail_at(t, q, start, types_m(atoms@)));
    let pre_eff = if cur.check(&TokenKind::Bang) && is_pre_arrow_effect(cur) {
        cur.bump();
        Some(parse_effect_row(cur)?)
    } else {
        None
    };
    if cur.eat(&TokenKind::Arrow) {
        let result = parse_type(cur)?;
        let result_end = result.span;
        cur.in_bounds();
        let effect = if pre_eff.is_none() && cur.check(&TokenKind::Bang) {
            cur.bump();
            Some(parse_effect_row(cur)?)
        } else {
            pre_eff
        };
        return Ok(
            Type {
                span: start.merge(result_end),
                node: TypeKind::Function { params: atoms, effect, result: Box::new(result) },
            },
        );
    }
    if pre_eff.is_some() {
        return Err(cur.unexpected("`->` after effect row"));
    }
    if atoms.len() == 1 {
        let only = atoms.pop().unwrap();
        assert(types_m(atoms@.push(only))[0] == only@);
        Ok(only)
    } else {
        let last = atoms[atoms.len() - 1].span;
        assert(types_m(atoms@.drop_last().push(atoms@.last())) == types_m(atoms@.drop_last()).push(atoms@.last()@));
        assert(atoms@.drop_last().push(atoms@.last()) == atoms@);
        Ok(Type { span: start.merge(last), node: TypeKind::Tuple(atoms) })
    }
}

/// Parses a type variable, a named type with its argument atoms, or a
/// parenthesised type.
fn parse_type_atom_with_args(cur: &mut Cursor) -> (r: Result<Type, Error>)
    ensures
        advanced(*old(cur), *final(cur)),
        r is Ok ==> progressed(*old(cur), *final(cur)),
        parsed(r, type_args_atom_at(old(cur).tokens(), old(cur).position()), *final(cur)),
    decreases old(cur).remaining(), 1nat,
{
    cur.in_bounds();
    let ghost t = cur.tokens();
    let ghost p0 = cur.position();
    let start = cur.peek().span;
    match cur.peek_kind() {
        TokenKind::LowerIdent(n) => {
            let n = n.clone();
            cur.bump();
            Ok(Type { span: start, node: TypeKind::Var(n) })
        },
        TokenKind::UpperIdent(n) => {
            let n = n.clone();
            cur.bump();
            let mut args: Vec<Type> = Vec::new();
            let mut end_span = start;
            let ghost c0 = *old(cur);
            loop
                invariant
                    progressed(c0, *cur),
                    c0 == *old(cur),
                    cur.tokens() == t,
                    t == old(cur).tokens(),
                    p0 == old(cur).position(),
                    old(cur).cur().kind is UpperIdent,
                    type_args_atom_at(t, p0) == type_args_at(
                        t,
                        cur.position(),
                        start,
                        n,
                        types_m(args@),
                        end_span,
                    ),
                ensures
                    type_args_atom_at(t, p0) == Ok::<_, PErr>(
                        (
                            SType {
                                span: start.spec_merge(end_span),
                                node: crate::ast::model::STypeKind::Named { name: n, args: types_m(args@) },
                            },
                            cur.position(),
                        ),
                    ),
                decreases cur.remaining(),
            {
                cur.in_bounds();
                if !starts_type_atom(cur.peek_kind()) {
                    break;
                }
                let a = parse_type_atom(cur)?;
                end_span = a.span;
                args.push(a);
            }
            Ok(Type { span: start.merge(end_span), node: TypeKind::Named { name: n, args } })
        },
        TokenKind::LParen => parse_paren(cur),
        _ => Err(cur.unexpected("a type")),
    }
}

/// Parses a type variable, a name without arguments, or a parenthesised type.
fn parse_type_atom(cur: &mut Cursor) -> (r: Result<Type, Error>)
    ensures
        advanced(*old(cur), *final(cur)),
        r is Ok ==> progressed(*old(cur), *final(cur)),
        parsed(r, type_atom_at(old(cur).tokens(), old(cur).position()), *final(cur)),
    decreases old(cur).remaining(), 1nat,
{
    cur.in_bounds();
    let start = cur.peek().span;
    match cur.peek_kind() {
        TokenKind::LowerIdent(n) => {
            let n = n.clone();
            cur.bump();
            Ok(Type { span: start, node: TypeKind::Var(n) })
        },
        TokenKind::UpperIdent(n) => {
            let n = n.clone();
            cur.bump();
            let args: Vec<Type> = Vec::new();
            assert(types_m(args@) == Seq::<SType>::empty());
            Ok(Type { span: start, node: TypeKind::Named { name: n, args } })
        },
        TokenKind::LParen => parse_paren(cur),
        _ => Err(cur.unexpected("a type")),
    }
}

/// Parses `( type )`; the parentheses only widen the span.
fn parse_paren(cur: &mut Cursor) -> (r: Result<Type, Error>)
    requires
        old(cur).cur().kind is LParen,
    ensures
        advanced(*old(cur), *final(cur)),
        r is Ok ==> progressed(*old(cur), *final(cur)),
        parsed(r, paren_type_at(old(cur).tokens(), old(cur).position()), *final(cur)),
    decreases old(cur).remaining(), 0nat,
{
    cur.in_bounds();
    let start = cur.peek().span;
    cur.bump();
    let inner = parse_type(cur)?;
    let close = cur.expect(TokenKind::RParen, "`)`")?.span;
    Ok(Type { span: start.merge(close), node: inner.node })
}

fn starts_type_atom(k: &TokenKind) -> (r: bool)
    ensures
        r == starts_type(*k),
{
    match k {
        TokenKind::LowerIdent(_) | TokenKind::UpperIdent(_) | TokenKind::LParen => true,
        _ => false,
    }
}

fn is_pre_arrow_effect(cur: &Cursor) -> (r: bool)
    ensures
        r == pre_arrow_effect(cur.tokens(), cur.position()),
{

    cur.in_bounds();
    match cur.peek_n(1) {
        Some(TokenKind::LParen) => {
            let close = match cur.peek_n(2) {
                Some(TokenKind::RParen) => true,
                _ => false,
            };
            if !close {
                return false;
            }
            match cur.peek_n(3) {
                Some(TokenKind::Arrow) => true,
                _ => false,
            }
        },
        _ => {
            let mut i: usize = 1;
            loop
                invariant
                    1 <= i,
                    cur.position() + i <= cur.tokens().len() <= usize::MAX,
                    0 <= cur.position() < cur.tokens().len(),
                    effect_names_then_arrow(cur.tokens(), cur.position() + i)
                        == effect_names_then_arrow(cur.tokens(), cur.position() + 1),
                    !(cur.position() + 1 < cur.tokens().len() && cur.tokens()[cur.position()
                        + 1].kind is LParen),
                decreases cur.tokens().len() - cur.position() - i,
            {
                match cur.peek_n(i) {
                    Some(TokenKind::UpperIdent(_)) => {},
                    _ => {
                        return false;
                    },
                }
                match cur.peek_n(i + 1) {
                    Some(TokenKind::Comma) => {
                        assert(effect_names_then_arrow(cur.tokens(), cur.position() + i)
                            == effect_names_then_arrow(cur.tokens(), cur.position() + i + 2));
                        i = i + 2;
                        if cur.peek_n(i).is_none() {
                            assert(!effect_names_then_arrow(cur.tokens(), cur.position() + i));
                            return false;
                        }
                    },
                    Some(TokenKind::Arrow) => {
                        return true;
                    },
                    _ => {
                        return false;
                    },
                }
            }
        },
    }
}

/// Parses an effect row after `!`: `()` or comma-separated effect names.
fn parse_effect_row(cur: &mut Cursor) -> (r: Result<EffectRow, Error>)
    ensures
        advanced(*old(cur), *final(cur)),
        r is Ok ==> progressed(*old(cur), *final(cur)),
        parsed(r, effect_row_at(old(cur).tokens(), old(cur).position()), *final(cur)),
{
    cur.in_bounds();
    let ghost t = cur.tokens();
    let ghost p0 = cur.position();
    if cur.eat(&TokenKind::LParen) {
        cur.expect(TokenKind::RParen, "`)`")?;
        return Ok(EffectRow::Empty);
    }
    let mut names: Vec<String> = Vec::new();
    let ghost c0 = *old(cur);
    loop
        invariant_except_break
            effect_row_at(t, p0) == effect_names_at(t, cur.position(), names@),
        invariant
            advanced(c0, *cur),
            c0 == *old(cur),
            cur.tokens() == t,
            t == old(cur).tokens(),
            p0 == old(cur).position(),
            !(t[p0].kind is LParen),
            names@.len() > 0 ==> progressed(c0, *cur),
        ensures
            progressed(c0, *cur),
            effect_row_at(t, p0) == Ok::<_, PErr>(
                (crate::ast::model::SEffectRow::Named(names@), cur.position()),
            ),
        decreases cur.remaining(),
    {
        cur.in_bounds();
        match cur.peek_kind() {
            TokenKind::UpperIdent(n) => {
                let n = n.clone();
                cur.bump();
                names.push(n);
            },
            _ => {
                return Err(cur.unexpected("effect name or `(`"));
            },
        }
        if !cur.eat(&TokenKind::Comma) {
            break;
        }
    }
    Ok(EffectRow::Named(names))
}

} // verus!
