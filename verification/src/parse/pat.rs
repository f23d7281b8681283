use vstd::prelude::*;
use crate::ast::{FieldPat, LitPat, Pattern, PatternKind};
use crate::ast::model::{field_pats_m, pattern_m, patterns_m, SPattern, SPatternKind};
use crate::error::Error;
use crate::parse::cursor::{advanced, progressed, Cursor};
use crate::parse::grammar::{
    field_pats_at, parsed, pattern_args_at, pattern_at, pattern_atom_at, pattern_seq_at, perr_is,
    starts_pat,
};
use crate::parse::postfix::looks_like_kwargs;
use crate::span::Span;
use crate::token::TokenKind;

verus! {

broadcast use crate::ast::model::group_model_push;

/// What follows the argument atom that ended at `q`: more atoms after a
/// comma, else the constructor pattern with the arguments `args`.
pub open spec fn args_rest(
    t: Seq<crate::token::Token>,
    q: int,
    start: Span,
    name: String,
    args: Seq<SPattern>,
) -> Result<(SPattern, int), crate::parse::grammar::PErr> {
    if t[q].kind is Comma {
        pattern_args_at(t, q + 1, start, name, args)
    } else {
        Ok(
            (
                SPattern {
                    span: start.spec_merge(args.last().span),
                    node: SPatternKind::Ctor { name, args },
                },
                q,
            ),
        )
    }
}

/// What follows the pattern that ended at `q`: more patterns after a comma,
/// else the sequence `items`.
pub open spec fn seq_rest(t: Seq<crate::token::Token>, q: int, items: Seq<SPattern>) -> Result<(Seq<SPattern>, int), crate::parse::grammar::PErr> {
    if t[q].kind is Comma {
        pattern_seq_at(t, q + 1, items)
    } else {
        Ok((items, q))
    }
}

/// Parses a pattern: an atom, or a constructor applied to comma-separated
/// argument atoms.
pub fn parse_pattern(cur: &mut Cursor) -> (r: Result<Pattern, Error>)
    ensures
        advanced(*old(cur), *final(cur)),
        r is Ok ==> progressed(*old(cur), *final(cur)),
        parsed(r, pattern_at(old(cur).tokens(), old(cur).position()), *final(cur)),
    decreases old(cur).remaining(), 2nat,
{
    cur.in_bounds();
    let ghost t = cur.tokens();
    let ghost p0 = cur.position();
    let atom = parse_pattern_atom(cur)?;
    cur.in_bounds();
    if !starts_pattern(cur.peek_kind()) {
        return Ok(atom);
    }
    let atom_span = atom.span;
    match atom.node {
        PatternKind::Ctor { name, args: _ } => {
            let ghost q0 = cur.position();
            assert(pattern_at(t, p0) == pattern_args_at(t, q0, atom_span, name, seq![]));
            let mut args: Vec<Pattern> = Vec::new();
            let a = parse_pattern_atom(cur)?;
            args.push(a);
            assert(Seq::<Pattern>::empty().push(a) == args@);
            let ghost c0 = *old(cur);
            loop
                invariant
                    progressed(c0, *cur),
                    c0 == *old(cur),
                    cur.tokens() == t,
                    t == old(cur).tokens(),
                    p0 == old(cur).position(),
                    args@.len() > 0,
                    patterns_m(args@).last() == pattern_m(args@.last()),
                    pattern_at(t, p0) == args_rest(t, cur.position(), atom_span, name, patterns_m(args@)),
                ensures
                    pattern_at(t, p0) == Ok::<_, crate::parse::grammar::PErr>(
                        (
                            SPattern {
                                span: atom_span.spec_merge(patterns_m(args@).last().span),
                                node: SPatternKind::Ctor { name, args: patterns_m(args@) },
                            },
                            cur.position(),
                        ),
                    ),
                decreases cur.remaining(),
            {
                cur.in_bounds();
                let ghost q = cur.position();
                if !cur.eat(&TokenKind::Comma) {
                    break;
                }
                let a = parse_pattern_atom(cur)?;
                args.push(a);
            }
            let end_span = args[args.len() - 1].span;
            Ok(Pattern { span: atom_span.merge(end_span), node: PatternKind::Ctor { name, args } })
        },
        other => Ok(Pattern { span: atom_span, node: other }),
    }
}

/// Parses a wildcard, a variable, a literal, a constructor (or a record
/// pattern `Name(field = p, ..)`), a tuple or a list pattern.
pub fn parse_pattern_atom(cur: &mut Cursor) -> (r: Result<Pattern, Error>)
    ensures
        advanced(*old(cur), *final(cur)),
        r is Ok ==> progressed(*old(cur), *final(cur)),
        parsed(r, pattern_atom_at(old(cur).tokens(), old(cur).position()), *final(cur)),
    decreases old(cur).remaining(), 1nat,
{
    cur.in_bounds();
    let ghost t = cur.tokens();
    let ghost p0 = cur.position();
    let start = cur.peek().span;
    match cur.peek_kind() {
        TokenKind::Underscore => {
            cur.bump();
            Ok(Pattern { span: start, node: PatternKind::Wildcard })
        },
        TokenKind::LowerIdent(n) => {
            let n = n.clone();
            cur.bump();
            Ok(Pattern { span: start, node: PatternKind::Var(n) })
        },
        TokenKind::IntLit(n) => {
            let n = *n;
            cur.bump();
            Ok(Pattern { span: start, node: PatternKind::Lit(LitPat::Int(n)) })
        },
        TokenKind::FloatLit(f) => {
            let f = f.clone();
            cur.bump();
            Ok(Pattern { span: start, node: PatternKind::Lit(LitPat::Float(f)) })
        },
        TokenKind::StringLit(s) => {
            let s = s.clone();
            cur.bump();
            Ok(Pattern { span: start, node: PatternKind::Lit(LitPat::Str(s)) })
        },
        TokenKind::UpperIdent(name) => {
            let name = name.clone();
            cur.bump();
            cur.in_bounds();
            if cur.check(&TokenKind::LParen) && looks_like_kwargs(cur) {
                cur.bump();
                let fields = parse_field_patterns(cur)?;
                let close = cur.expect(TokenKind::RParen, "`)`")?.span;
                Ok(
                    Pattern {
                        span: start.merge(close),
                        node: PatternKind::Record { ty_name: name, fields },
                    },
                )
            } else {
                Ok(Pattern { span: start, node: PatternKind::Ctor { name, args: Vec::new() } })
            }
        },
        TokenKind::LParen => {
            cur.bump();
            let items = parse_pattern_list(cur)?;
            let close = cur.expect(TokenKind::RParen, "`)`")?.span;
            Ok(Pattern { span: start.merge(close), node: PatternKind::Tuple(items) })
        },
        TokenKind::LBracket => {
            cur.bump();
            cur.in_bounds();
            let items = if !cur.check(&TokenKind::RBracket) {
                parse_pattern_list(cur)?
            } else {
                Vec::new()
            };
            let close = cur.expect(TokenKind::RBracket, "`]`")?.span;
            Ok(Pattern { span: start.merge(close), node: PatternKind::List(items) })
        },
        _ => Err(cur.unexpected("pattern")),
    }
}

/// Parses comma-separated patterns, at least one.
fn parse_pattern_list(cur: &mut Cursor) -> (r: Result<Vec<Pattern>, Error>)
    ensures
        advanced(*old(cur), *final(cur)),
        r is Ok ==> progressed(*old(cur), *final(cur)),
        match pattern_seq_at(old(cur).tokens(), old(cur).position(), seq![]) {
            Ok((v, q)) => r matches Ok(x) && patterns_m(x@) == v && final(cur).position() == q,
            Err(pe) => r matches Err(e) && perr_is(e, pe),
        },
    decreases old(cur).remaining(), 3nat,
{
    cur.in_bounds();
    let ghost t = cur.tokens();
    let ghost p0 = cur.position();
    let mut items: Vec<Pattern> = Vec::new();
    let x = parse_pattern(cur)?;
    items.push(x);
    assert(Seq::<Pattern>::empty().push(x) == items@);
    let ghost c0 = *old(cur);
    loop
        invariant
            progressed(c0, *cur),
            c0 == *old(cur),
            cur.tokens() == t,
            t == old(cur).tokens(),
            p0 == old(cur).position(),
            pattern_seq_at(t, p0, seq![]) == seq_rest(t, cur.position(), patterns_m(items@)),
        ensures
            pattern_seq_at(t, p0, seq![]) == Ok::<_, crate::parse::grammar::PErr>(
                (patterns_m(items@), cur.position()),
            ),
        decreases cur.remaining(),
    {
        cur.in_bounds();
        let ghost q = cur.position();
        if !cur.eat(&TokenKind::Comma) {
            break;
        }
        let x = parse_pattern(cur)?;
        items.push(x);
    }
    Ok(items)
}

/// Parses `field = pattern, ..`, at least one.
fn parse_field_patterns(cur: &mut Cursor) -> (r: Result<Vec<FieldPat>, Error>)
    ensures
        advanced(*old(cur), *final(cur)),
        r is Ok ==> progressed(*old(cur), *final(cur)),
        match field_pats_at(old(cur).tokens(), old(cur).position(), seq![]) {
            Ok((v, q)) => r matches Ok(x) && field_pats_m(x@) == v && final(cur).position() == q,
            Err(pe) => r matches Err(e) && perr_is(e, pe),
        },
    decreases old(cur).remaining(), 0nat,
{
    let mut fields: Vec<FieldPat> = Vec::new();
    let ghost c0 = *old(cur);
    cur.in_bounds();
    let ghost t = cur.tokens();
    let ghost p0 = cur.position();
    loop
        invariant_except_break
            field_pats_at(t, p0, seq![]) == field_pats_at(t, cur.position(), field_pats_m(fields@)),
        invariant
            advanced(c0, *cur),
            c0 == *old(cur),
            cur.tokens() == t,
            t == old(cur).tokens(),
            p0 == old(cur).position(),
            fields@.len() > 0 ==> progressed(c0, *cur),
        ensures
            progressed(c0, *cur),
            field_pats_at(t, p0, seq![]) == Ok::<_, crate::parse::grammar::PErr>(
                (field_pats_m(fields@), cur.position()),
            ),
        decreases cur.remaining(),
    {
        cur.in_bounds();
        let ghost p = cur.position();
        let field = match cur.peek_kind() {
            TokenKind::LowerIdent(n) => n.clone(),
            _ => {
                return Err(cur.unexpected("field name"));
            },
        };
        cur.bump();
        cur.expect(TokenKind::Equals, "`=`")?;
        let pattern = parse_pattern(cur)?;
        fields.push(FieldPat { field, pattern });
        if !cur.eat(&TokenKind::Comma) {
            break;
        }
    }
    Ok(fields)
}

pub fn starts_pattern(k: &TokenKind) -> (r: bool)
    ensures
        r == starts_pat(*k),
{
    match k {
        TokenKind::Underscore | TokenKind::LowerIdent(_) | TokenKind::UpperIdent(_)
        | TokenKind::IntLit(_) | TokenKind::FloatLit(_) | TokenKind::StringLit(_)
        | TokenKind::LParen | TokenKind::LBracket => true,
        _ => false,
    }
}

} // verus!
