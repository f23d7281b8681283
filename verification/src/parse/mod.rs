pub mod binding;
pub mod cursor;
pub mod decl;
pub mod expr;
pub mod grammar;
pub mod laws;
pub mod pat;
pub mod postfix;
pub mod typ;
pub mod typedecl;

use vstd::prelude::*;
use crate::ast::{Expr, File, Pattern, Type};
use crate::error::Error;
use crate::token::Token;
use cursor::{ends_with_eof, Cursor};

verus! {

/// Parses the tokens of a source file, which end with `Eof`.
pub fn parse(toks: &[Token]) -> (r: Result<File, Error>)
    requires
        ends_with_eof(toks@),
    ensures
        match grammar::file_at(toks@, 0) {
            Ok((f, _)) => r matches Ok(x) && x@ == f,
            Err(pe) => r matches Err(e) && grammar::perr_is(e, pe),
        },
{
    let mut cur = Cursor::new(toks);
    decl::parse_file(&mut cur)
}

/// Parses one expression from the tokens, which end with `Eof`.
pub fn parse_expr_for_test(toks: &[Token]) -> (r: Result<Expr, Error>)
    requires
        ends_with_eof(toks@),
    ensures
        match grammar::expr_at(toks@, 0) {
            Ok((e, _)) => r matches Ok(x) && x@ == e,
            Err(pe) => r matches Err(e) && grammar::perr_is(e, pe),
        },
{
    let mut cur = Cursor::new(toks);
    expr::parse_expr(&mut cur)
}

/// Parses one pattern from the tokens, which end with `Eof`.
pub fn parse_pattern_for_test(toks: &[Token]) -> (r: Result<Pattern, Error>)
    requires
        ends_with_eof(toks@),
    ensures
        match grammar::pattern_at(toks@, 0) {
            Ok((p, _)) => r matches Ok(x) && x@ == p,
            Err(pe) => r matches Err(e) && grammar::perr_is(e, pe),
        },
{
    let mut cur = Cursor::new(toks);
    pat::parse_pattern(&mut cur)
}

/// Parses one type from the tokens, which end with `Eof`.
pub fn parse_type_for_test(toks: &[Token]) -> (r: Result<Type, Error>)
    requires
        ends_with_eof(toks@),
    ensures
        match grammar::type_at(toks@, 0) {
            Ok((t, _)) => r matches Ok(x) && x@ == t,
            Err(pe) => r matches Err(e) && grammar::perr_is(e, pe),
        },
{
    let mut cur = Cursor::new(toks);
    typ::parse_type(&mut cur)
}

} // verus!
