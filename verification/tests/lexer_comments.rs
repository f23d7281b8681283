use i_lang::lex::lex;
use i_lang::token::TokenKind::{IntLit, LowerIdent, Equals, Newline, Eof};

fn kinds(src: &str) -> Vec<i_lang::token::TokenKind> {
    lex(src).unwrap().into_iter().map(|t| t.kind).collect()
}

#[test]
fn line_comment_consumed() {
    assert_eq!(kinds("# this is a comment"), vec![Eof]);
}

#[test]
fn trailing_comment() {
    // No line break follows, so no Newline token comes.
    assert_eq!(
        kinds("x = 1 # comment"),
        vec![LowerIdent("x".into()), Equals, IntLit(1), Eof]
    );
}

#[test]
fn comment_does_not_eat_next_line() {
    let src = "# c1\nx";
    assert_eq!(kinds(src), vec![LowerIdent("x".into()), Eof]);
}

#[test]
fn comment_then_token() {
    let src = "# c1\n# c2\ny";
    assert_eq!(kinds(src), vec![LowerIdent("y".into()), Eof]);
}
