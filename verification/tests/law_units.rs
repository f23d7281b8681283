use i_lang::check::traits::TraitId;
use i_lang::check::types::{EffectRow, PrimTy, Subst, Ty, TyVarId};
use i_lang::check::unify::{apply_subst, unify, UnifyError};
use i_lang::lex::lex;
use i_lang::token::TokenKind;

fn var(n: u32) -> Ty {
    Ty::Var(TyVarId(n))
}

#[test]
fn lexed_layout_balances_and_ends_with_eof() {
    let src = "f =\n    g =\n        1\n\n\n    h\nx = 2\n";
    let toks: Vec<TokenKind> = lex(src).unwrap().into_iter().map(|t| t.kind).collect();
    assert_eq!(toks.last(), Some(&TokenKind::Eof));
    assert_eq!(toks.iter().filter(|k| **k == TokenKind::Eof).count(), 1);
    assert_ne!(toks[0], TokenKind::Newline);
    let mut depth: i64 = 0;
    for (i, k) in toks.iter().enumerate() {
        match k {
            TokenKind::Indent => depth += 1,
            TokenKind::Dedent => depth -= 1,
            TokenKind::Newline => assert_ne!(toks.get(i + 1), Some(&TokenKind::Newline)),
            _ => {}
        }
        assert!(depth >= 0);
    }
    assert_eq!(depth, 0);
}

#[test]
fn lexed_layout_closes_blocks_at_end_of_input() {
    let toks: Vec<TokenKind> = lex("a =\n    b =\n        c").unwrap().into_iter().map(|t| t.kind).collect();
    let n = toks.len();
    assert_eq!(&toks[n - 3..], &[TokenKind::Dedent, TokenKind::Dedent, TokenKind::Eof]);
}

#[test]
fn apply_subst_twice_is_once() {
    let mut s = Subst::new();
    unify(&mut s, &var(0), &Ty::Fun(vec![var(1)], EffectRow::pure(), Box::new(var(2)))).unwrap();
    unify(&mut s, &var(1), &Ty::Prim(PrimTy::Int)).unwrap();
    let once = apply_subst(&var(0), &s);
    assert_eq!(once, Ty::Fun(vec![Ty::Prim(PrimTy::Int)], EffectRow::pure(), Box::new(var(2))));
    assert_eq!(apply_subst(&once, &s), once);
}

#[test]
fn later_unify_keeps_earlier_equalities() {
    let mut s = Subst::new();
    unify(&mut s, &var(0), &var(1)).unwrap();
    assert_eq!(apply_subst(&var(0), &s), apply_subst(&var(1), &s));
    unify(&mut s, &var(1), &Ty::Prim(PrimTy::Bool)).unwrap();
    assert_eq!(apply_subst(&var(0), &s), Ty::Prim(PrimTy::Bool));
    assert_eq!(apply_subst(&var(0), &s), apply_subst(&var(1), &s));
}

#[test]
fn trait_found_again_by_its_name() {
    let all = [
        TraitId::Add,
        TraitId::Sub,
        TraitId::Mul,
        TraitId::Div,
        TraitId::Pow,
        TraitId::Neg,
        TraitId::Eq,
        TraitId::Ord,
        TraitId::Concat,
    ];
    for t in all {
        assert_eq!(TraitId::from_name(t.name()), Some(t));
    }
    assert_eq!(TraitId::from_name("Show"), None);
}

#[test]
fn labels_quote_string_payloads() {
    let k = TokenKind::StringLit("a\"b".to_string());
    assert_eq!(k.quoted_payload(), "\"a\\\"b\"");
    assert_eq!(k.label(), "StringLit \"a\\\"b\"");
    assert_eq!(k.debug_string(), "StringLit(\"a\\\"b\")");
    assert_eq!(TokenKind::LowerIdent("x".to_string()).label_quoted("<x>"), "LowerIdent <x>");
    assert_eq!(TokenKind::UpperIdent("X".to_string()).debug_string_quoted("<X>"), "UpperIdent(<X>)");
    assert_eq!(TokenKind::IntLit(-3).quoted_payload(), "");
    assert_eq!(TokenKind::IntLit(-3).label(), "IntLit -3");
}

#[test]
fn unifying_a_type_with_itself_binds_nothing() {
    let mut s = Subst::new();
    unify(&mut s, &var(0), &Ty::Prim(PrimTy::Int)).unwrap();
    let t = Ty::Fun(vec![var(0), var(1)], EffectRow::pure(), Box::new(var(2)));
    assert_eq!(s.tys.len(), 1);
    assert_eq!(unify(&mut s, &t, &t), Ok(()));
    assert_eq!(s.tys.len(), 1);
    assert_eq!(unify(&mut s, &var(7), &var(7)), Ok(()));
    assert_eq!(s.tys.len(), 1);
}

#[test]
fn a_variable_never_unifies_with_a_type_around_it() {
    let mut s = Subst::new();
    let t = Ty::Fun(vec![Ty::Prim(PrimTy::Int)], EffectRow::pure(), Box::new(var(3)));
    assert_eq!(unify(&mut s, &var(3), &t), Err(UnifyError::Occurs(TyVarId(3))));
    assert_eq!(s.tys.len(), 0);
}

#[test]
fn an_empty_substitution_changes_nothing() {
    let s = Subst::new();
    let t = Ty::Fun(vec![var(0), Ty::Prim(PrimTy::Int)], EffectRow::pure(), Box::new(var(1)));
    assert_eq!(apply_subst(&t, &s), t);
}

#[test]
fn token_spans_are_ordered_and_inside_the_input() {
    let src = "f =\n    g = [1, 2] ++ \"s\"\n    g\nx = 2 # note\n";
    let toks = lex(src).unwrap();
    for (i, t) in toks.iter().enumerate() {
        assert!(t.span.start <= t.span.end);
        assert!(t.span.end as usize <= src.len());
        if i + 1 < toks.len() {
            assert!(t.span.end <= toks[i + 1].span.start);
        }
    }
}

#[test]
fn operators_and_commas_continue_their_line() {
    let kinds = |s: &str| -> Vec<TokenKind> { lex(s).unwrap().into_iter().map(|t| t.kind).collect() };
    assert_eq!(
        kinds("a +\nb"),
        vec![TokenKind::LowerIdent("a".into()), TokenKind::Plus, TokenKind::LowerIdent("b".into()), TokenKind::Eof]
    );
    assert_eq!(
        kinds("main =\nx"),
        vec![
            TokenKind::LowerIdent("main".into()),
            TokenKind::Equals,
            TokenKind::Newline,
            TokenKind::LowerIdent("x".into()),
            TokenKind::Eof
        ]
    );
}

#[test]
fn no_layout_inside_open_brackets() {
    let src = "f =\n    g (1,\n  2,\n        3)\nh = [1,\n2]\n";
    let toks: Vec<TokenKind> = lex(src).unwrap().into_iter().map(|t| t.kind).collect();
    let mut open: i64 = 0;
    for k in toks.iter() {
        match k {
            TokenKind::LParen | TokenKind::LBracket => open += 1,
            TokenKind::RParen | TokenKind::RBracket => open -= 1,
            TokenKind::Newline | TokenKind::Indent | TokenKind::Dedent => assert_eq!(open, 0),
            _ => {}
        }
    }
    assert_eq!(open, 0);
}

#[test]
fn substitution_keeps_nested_nodes() {
    let mut s = Subst::new();
    unify(&mut s, &var(0), &Ty::Prim(PrimTy::Int)).unwrap();
    let t = Ty::Fun(
        vec![Ty::Con(i_lang::resolve::types::DefId(3), vec![var(0), var(1)])],
        EffectRow::pure(),
        Box::new(var(0)),
    );
    let r = apply_subst(&t, &s);
    assert_eq!(
        r,
        Ty::Fun(
            vec![Ty::Con(i_lang::resolve::types::DefId(3), vec![Ty::Prim(PrimTy::Int), var(1)])],
            EffectRow::pure(),
            Box::new(Ty::Prim(PrimTy::Int)),
        )
    );
}
