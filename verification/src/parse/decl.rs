use vstd::prelude::*;
use crate::ast::{Decl, DeclKind, Expose, File, ModuleHeader, UseKind};
use crate::ast::model::{decls_m, SFile};
use crate::error::Error;
use crate::parse::binding::parse_binding;
use crate::parse::cursor::{advanced, progressed, Cursor};
use crate::parse::grammar::{
    decl_at, decls_at, dotted_at, expose_at, exposes_at, file_at, header_at, ident_at, idents_at,
    impl_at, lower_at, methods_at, parsed, perr_is, trait_at, upper_at, use_at, use_kind_at,
    PErr,
};
use crate::parse::typ;
use crate::parse::typedecl::parse_type_decl;
use crate::token::TokenKind;

verus! {

broadcast use crate::ast::model::group_model_push;

/// Parses a whole file: an optional module header, then declarations up
/// to `Eof`, with blank lines between them.
pub fn parse_file(cur: &mut Cursor) -> (r: Result<File, Error>)
    ensures
        advanced(*old(cur), *final(cur)),
        r is Ok ==> final(cur).cur().kind is Eof,
        parsed(r, file_at(old(cur).tokens(), old(cur).position()), *final(cur)),
{
    cur.in_bounds();
    let ghost t = cur.tokens();
    let ghost p0 = cur.position();
    cur.eat(&TokenKind::Newline);
    cur.in_bounds();
    let ghost p1 = cur.position();
    let module = if cur.check(&TokenKind::KwModule) {
        Some(parse_module_header(cur)?)
    } else {
        None
    };
    cur.in_bounds();
    let ghost q = cur.position();
    let ghost mv = match &module {
        Some(h) => Some(h@),
        None => None,
    };
    assert(file_at(t, p0) == match decls_at(t, q, seq![]) {
        Err(e) => Err(e),
        Ok((ds, q2)) => Ok((SFile { module: mv, decls: ds }, q2)),
    });
    let mut decls: Vec<Decl> = Vec::new();
    let ghost c0 = *old(cur);
    while !cur.at_end()
        invariant
            advanced(c0, *cur),
            c0 == *old(cur),
            cur.tokens() == t,
            t == old(cur).tokens(),
            p0 == old(cur).position(),
            0 <= p0 < t.len(),
            decls_at(t, q, seq![]) == decls_at(t, cur.position(), decls_m(decls@)),
            file_at(t, p0) == match decls_at(t, q, seq![]) {
                Err(e) => Err(e),
                Ok((ds, q2)) => Ok((SFile { module: mv, decls: ds }, q2)),
            },
        decreases cur.remaining(),
    {
        cur.in_bounds();
        if cur.eat(&TokenKind::Newline) {
            continue;
        }
        decls.push(parse_decl(cur)?);
    }
    Ok(File { module, decls })
}

/// Parses one declaration, chosen by its first keyword; a binding otherwise.
fn parse_decl(cur: &mut Cursor) -> (r: Result<Decl, Error>)
    ensures
        advanced(*old(cur), *final(cur)),
        r is Ok ==> progressed(*old(cur), *final(cur)),
        parsed(r, decl_at(old(cur).tokens(), old(cur).position()), *final(cur)),
{
    cur.in_bounds();
    match cur.peek_kind() {
        TokenKind::KwType => parse_type_decl(cur),
        TokenKind::KwTrait => parse_trait_decl(cur),
        TokenKind::KwImpl => parse_impl_decl(cur),
        TokenKind::KwUse => parse_use_decl(cur),
        _ => parse_binding(cur),
    }
}

/// Parses uppercase names separated by dots, at least one.
fn parse_dotted(cur: &mut Cursor) -> (r: Result<Vec<String>, Error>)
    ensures
        advanced(*old(cur), *final(cur)),
        r is Ok ==> progressed(*old(cur), *final(cur)),
        match dotted_at(old(cur).tokens(), old(cur).position(), seq![]) {
            Ok((v, q)) => r matches Ok(x) && x@ == v && final(cur).position() == q,
            Err(pe) => r matches Err(e) && perr_is(e, pe),
        },
{
    cur.in_bounds();
    let ghost t = cur.tokens();
    let ghost p0 = cur.position();
    let mut names: Vec<String> = Vec::new();
    let ghost c0 = *old(cur);
    loop
        invariant_except_break
            dotted_at(t, p0, seq![]) == dotted_at(t, cur.position(), names@),
        invariant
            advanced(c0, *cur),
            c0 == *old(cur),
            cur.tokens() == t,
            t == old(cur).tokens(),
            p0 == old(cur).position(),
            0 <= p0 < t.len(),
            names@.len() > 0 ==> progressed(c0, *cur),
        ensures
            progressed(c0, *cur),
            dotted_at(t, p0, seq![]) == Ok::<_, PErr>((names@, cur.position())),
        decreases cur.remaining(),
    {
        cur.in_bounds();
        names.push(expect_upper(cur)?);
        if !cur.eat(&TokenKind::Dot) {
            break;
        }
    }
    Ok(names)
}

/// Parses names of either case separated by commas, at least one.
fn parse_idents(cur: &mut Cursor) -> (r: Result<Vec<String>, Error>)
    ensures
        advanced(*old(cur), *final(cur)),
        r is Ok ==> progressed(*old(cur), *final(cur)),
        match idents_at(old(cur).tokens(), old(cur).position(), seq![]) {
            Ok((v, q)) => r matches Ok(x) && x@ == v && final(cur).position() == q,
            Err(pe) => r matches Err(e) && perr_is(e, pe),
        },
{
    cur.in_bounds();
    let ghost t = cur.tokens();
    let ghost p0 = cur.position();
    let mut names: Vec<String> = Vec::new();
    let ghost c0 = *old(cur);
    loop
        invariant_except_break
            idents_at(t, p0, seq![]) == idents_at(t, cur.position(), names@),
        invariant
            advanced(c0, *cur),
            c0 == *old(cur),
            cur.tokens() == t,
            t == old(cur).tokens(),
            p0 == old(cur).position(),
            0 <= p0 < t.len(),
            names@.len() > 0 ==> progressed(c0, *cur),
        ensures
            progressed(c0, *cur),
            idents_at(t, p0, seq![]) == Ok::<_, PErr>((names@, cur.position())),
        decreases cur.remaining(),
    {
        cur.in_bounds();
        names.push(expect_ident(cur)?);
        if !cur.eat(&TokenKind::Comma) {
            break;
        }
    }
    Ok(names)
}

/// Parses `module A.B` and its indented `expose` list.
fn parse_module_header(cur: &mut Cursor) -> (r: Result<ModuleHeader, Error>)
    requires
        old(cur).cur().kind is KwModule,
    ensures
        advanced(*old(cur), *final(cur)),
        r is Ok ==> progressed(*old(cur), *final(cur)),
        parsed(r, header_at(old(cur).tokens(), old(cur).position()), *final(cur)),
{
    cur.in_bounds();
    cur.bump();
    let name = parse_dotted(cur)?;
    cur.expect(TokenKind::Newline, "newline after module name")?;
    cur.expect(TokenKind::Indent, "indented expose clause")?;
    cur.expect(TokenKind::KwExpose, "`expose`")?;
    let exposes = parse_expose_list(cur)?;
    cur.eat(&TokenKind::Newline);
    cur.expect(TokenKind::Dedent, "dedent at module header end")?;
    Ok(ModuleHeader { name, exposes })
}

fn parse_expose_list(cur: &mut Cursor) -> (r: Result<Vec<Expose>, Error>)
    ensures
        advanced(*old(cur), *final(cur)),
        r is Ok ==> progressed(*old(cur), *final(cur)),
        match exposes_at(old(cur).tokens(), old(cur).position(), seq![]) {
            Ok((v, q)) => r matches Ok(x) && x@ == v && final(cur).position() == q,
            Err(pe) => r matches Err(e) && perr_is(e, pe),
        },
{
    cur.in_bounds();
    let ghost t = cur.tokens();
    let ghost p0 = cur.position();
    let mut out: Vec<Expose> = Vec::new();
    let ghost c0 = *old(cur);
    loop
        invariant_except_break
            exposes_at(t, p0, seq![]) == exposes_at(t, cur.position(), out@),
        invariant
            advanced(c0, *cur),
            c0 == *old(cur),
            cur.tokens() == t,
            t == old(cur).tokens(),
            p0 == old(cur).position(),
            0 <= p0 < t.len(),
            out@.len() > 0 ==> progressed(c0, *cur),
        ensures
            progressed(c0, *cur),
            exposes_at(t, p0, seq![]) == Ok::<_, PErr>((out@, cur.position())),
        decreases cur.remaining(),
    {
        cur.in_bounds();
        out.push(parse_expose(cur)?);
        if !cur.eat(&TokenKind::Comma) {
            break;
        }
    }
    Ok(out)
}

/// Parses an exposed value name, or a type name with `(..)` when its
/// constructors are exposed too.
fn parse_expose(cur: &mut Cursor) -> (r: Result<Expose, Error>)
    ensures
        advanced(*old(cur), *final(cur)),
        r is Ok ==> progressed(*old(cur), *final(cur)),
        match expose_at(old(cur).tokens(), old(cur).position()) {
            Ok((x, q)) => r == Ok::<Expose, Error>(x) && final(cur).position() == q,
            Err(pe) => r matches Err(e) && perr_is(e, pe),
        },
{
    cur.in_bounds();
    match cur.peek_kind() {
        TokenKind::LowerIdent(n) => {
            let n = n.clone();
            cur.bump();
            Ok(Expose::Value(n))
        },
        TokenKind::UpperIdent(n) => {
            let n = n.clone();
            cur.bump();
            cur.in_bounds();
            let a = cur.check(&TokenKind::LParen);
            let b = match cur.peek_n(1) {
                Some(TokenKind::DotDot) => true,
                _ => false,
            };
            let c = match cur.peek_n(2) {
                Some(TokenKind::RParen) => true,
                _ => false,
            };
            let with_constructors = a && b && c;
            if with_constructors {
                cur.bump();
                cur.bump();
                cur.bump();
            }
            Ok(Expose::Type { name: n, with_constructors })
        },
        _ => Err(cur.unexpected("exposed item (lowercase value or uppercase type)")),
    }
}

/// Parses `use A.B`, `use A.B as C` or `use A.B (x, Y)`.
fn parse_use_decl(cur: &mut Cursor) -> (r: Result<Decl, Error>)
    requires
        old(cur).cur().kind is KwUse,
    ensures
        advanced(*old(cur), *final(cur)),
        r is Ok ==> progressed(*old(cur), *final(cur)),
        parsed(r, use_at(old(cur).tokens(), old(cur).position()), *final(cur)),
{
    cur.in_bounds();
    let ghost t = cur.tokens();
    let start = cur.peek().span;
    cur.bump();
    let path = parse_dotted(cur)?;
    cur.in_bounds();
    let ghost q = cur.position();
    let kind = if cur.eat(&TokenKind::KwAs) {
        UseKind::Alias(expect_upper(cur)?)
    } else if cur.eat(&TokenKind::LParen) {
        let names = parse_idents(cur)?;
        cur.expect(TokenKind::RParen, "`)`")?;
        UseKind::Cherry(names)
    } else {
        UseKind::Whole
    };
    cur.in_bounds();
    assert(use_kind_at(t, q) matches Ok((k, q2)) && q2 == cur.position() && k == match kind {
        UseKind::Whole => crate::ast::model::SUseKind::Whole,
        UseKind::Cherry(v) => crate::ast::model::SUseKind::Cherry(v@),
        UseKind::Alias(a) => crate::ast::model::SUseKind::Alias(a),
    });
    let end = cur.peek().span;
    cur.eat(&TokenKind::Newline);
    Ok(Decl { span: start.merge(end), node: DeclKind::Use { path, kind } })
}

/// Parses the bindings of a trait or impl block up to its `Dedent`.
fn parse_methods(cur: &mut Cursor) -> (r: Result<Vec<Decl>, Error>)
    ensures
        advanced(*old(cur), *final(cur)),
        r is Ok ==> final(cur).cur().kind is Dedent,
        match methods_at(old(cur).tokens(), old(cur).position(), seq![]) {
            Ok((v, q)) => r matches Ok(x) && decls_m(x@) == v && final(cur).position() == q,
            Err(pe) => r matches Err(e) && perr_is(e, pe),
        },
{
    cur.in_bounds();
    let ghost t = cur.tokens();
    let ghost p0 = cur.position();
    let mut methods: Vec<Decl> = Vec::new();
    let ghost c0 = *old(cur);
    while !cur.check(&TokenKind::Dedent)
        invariant
            advanced(c0, *cur),
            c0 == *old(cur),
            cur.tokens() == t,
            t == old(cur).tokens(),
            p0 == old(cur).position(),
            0 <= p0 < t.len(),
            methods_at(t, p0, seq![]) == methods_at(t, cur.position(), decls_m(methods@)),
        decreases cur.remaining(),
    {
        cur.in_bounds();
        methods.push(parse_binding(cur)?);
    }
    Ok(methods)
}

/// Parses `trait Name a` and its indented block of method signatures.
fn parse_trait_decl(cur: &mut Cursor) -> (r: Result<Decl, Error>)
    requires
        old(cur).cur().kind is KwTrait,
    ensures
        advanced(*old(cur), *final(cur)),
        r is Ok ==> progressed(*old(cur), *final(cur)),
        parsed(r, trait_at(old(cur).tokens(), old(cur).position()), *final(cur)),
{
    cur.in_bounds();
    let start = cur.peek().span;
    cur.bump();
    let name = expect_upper(cur)?;
    let type_var = expect_lower(cur)?;
    cur.expect(TokenKind::Newline, "newline before trait block")?;
    cur.expect(TokenKind::Indent, "indented trait block")?;
    let methods = parse_methods(cur)?;
    let end = cur.expect(TokenKind::Dedent, "dedent at trait end")?.span;
    cur.eat(&TokenKind::Newline);
    Ok(Decl { span: start.merge(end), node: DeclKind::TraitDecl { name, type_var, methods } })
}

/// Parses `impl Trait Type` and its indented block of methods.
fn parse_impl_decl(cur: &mut Cursor) -> (r: Result<Decl, Error>)
    requires
        old(cur).cur().kind is KwImpl,
    ensures
        advanced(*old(cur), *final(cur)),
        r is Ok ==> progressed(*old(cur), *final(cur)),
        parsed(r, impl_at(old(cur).tokens(), old(cur).position()), *final(cur)),
{
    cur.in_bounds();
    let start = cur.peek().span;
    cur.bump();
    let trait_name = expect_upper(cur)?;
    let target = typ::parse_type(cur)?;
    cur.expect(TokenKind::Newline, "newline before impl block")?;
    cur.expect(TokenKind::Indent, "indented impl block")?;
    let methods = parse_methods(cur)?;
    let end = cur.expect(TokenKind::Dedent, "dedent at impl end")?.span;
    cur.eat(&TokenKind::Newline);
    Ok(Decl { span: start.merge(end), node: DeclKind::ImplDecl { trait_name, target, methods } })
}

/// Consumes an uppercase name.
pub fn expect_upper(cur: &mut Cursor) -> (r: Result<String, Error>)
    ensures
        advanced(*old(cur), *final(cur)),
        match upper_at(old(cur).tokens(), old(cur).position()) {
            Ok((n, q)) => r == Ok::<String, Error>(n) && final(cur).position() == q,
            Err(pe) => r matches Err(e) && perr_is(e, pe),
        },
{
    cur.in_bounds();
    match cur.peek_kind() {
        TokenKind::UpperIdent(n) => {
            let n = n.clone();
            cur.bump();
            Ok(n)
        },
        _ => Err(cur.unexpected("uppercase identifier")),
    }
}

/// Consumes a lowercase or uppercase name.
fn expect_ident(cur: &mut Cursor) -> (r: Result<String, Error>)
    ensures
        advanced(*old(cur), *final(cur)),
        match ident_at(old(cur).tokens(), old(cur).position()) {
            Ok((n, q)) => r == Ok::<String, Error>(n) && final(cur).position() == q,
            Err(pe) => r matches Err(e) && perr_is(e, pe),
        },
{
    cur.in_bounds();
    match cur.peek_kind() {
        TokenKind::LowerIdent(n) => {
            let n = n.clone();
            cur.bump();
            Ok(n)
        },
        TokenKind::UpperIdent(n) => {
            let n = n.clone();
            cur.bump();
            Ok(n)
        },
        _ => Err(cur.unexpected("identifier (lower- or uppercase)")),
    }
}

/// Consumes a lowercase name.
pub fn expect_lower(cur: &mut Cursor) -> (r: Result<String, Error>)
    ensures
        advanced(*old(cur), *final(cur)),
        match lower_at(old(cur).tokens(), old(cur).position()) {
            Ok((n, q)) => r == Ok::<String, Error>(n) && final(cur).position() == q,
            Err(pe) => r matches Err(e) && perr_is(e, pe),
        },
{
    cur.in_bounds();
    match cur.peek_kind() {
        TokenKind::LowerIdent(n) => {
            let n = n.clone();
            cur.bump();
            Ok(n)
        },
        _ => Err(cur.unexpected("lowercase identifier")),
    }
}

} // verus!
