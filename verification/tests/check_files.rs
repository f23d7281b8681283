use i_lang::ast::{Expr, ExprKind};
use i_lang::check::check_file;
use i_lang::check::infer::Infer;
use i_lang::check::types::{EffectRow, Scheme};
use i_lang::check::unify::apply_subst;
use i_lang::resolve::types::{DefId, Resolution, ResolvedName};
use i_lang::span::Span;
use i_lang::check::exhaust::{check_arms, Coverage};
use i_lang::check::types::{PrimTy, Ty};
use i_lang::error::ErrorKind;
use i_lang::lex::lex;
use i_lang::parse::parse;
use i_lang::resolve::resolve_file;

#[test]
fn literal_bindings_get_primitive_schemes() {
    let file = parse(&lex("x = 1\ny = 1.5\nz = \"s\"\n").unwrap()).unwrap();
    let res = resolve_file(&file).unwrap();
    let typing = check_file(&file, &res).unwrap();
    assert_eq!(typing.schemes.get(&res.defs[0].id).unwrap().ty, Ty::Prim(PrimTy::Int));
    assert_eq!(typing.schemes.get(&res.defs[1].id).unwrap().ty, Ty::Prim(PrimTy::Float));
    assert_eq!(typing.schemes.get(&res.defs[2].id).unwrap().ty, Ty::Prim(PrimTy::String));
    assert!(typing.schemes.get(&res.defs[0].id).unwrap().vars.is_empty());
}

#[test]
fn identity_lambda_has_function_type() {
    let file = parse(&lex("id = x -> x\n").unwrap()).unwrap();
    let res = resolve_file(&file).unwrap();
    let typing = check_file(&file, &res).unwrap();
    match &typing.schemes.get(&res.defs[0].id).unwrap().ty {
        Ty::Fun(ps, _, r) => {
            assert_eq!(ps.len(), 1);
            assert!(matches!(**r, Ty::Var(_)));
        }
        other => panic!("expected a function type, got {:?}", other),
    }
}

fn call_of(args: usize) -> Expr {
    let func = Expr { span: Span::new(0, 1), node: ExprKind::Var("f".to_string()) };
    let mut xs = Vec::new();
    for i in 0..args {
        xs.push(Expr { span: Span::new(2 + i as u32, 3 + i as u32), node: ExprKind::IntLit(1) });
    }
    Expr { span: Span::new(0, 9), node: ExprKind::Call { func: Box::new(func), args: xs } }
}

#[test]
fn calling_a_non_function_is_a_type_mismatch() {
    let mut res = Resolution::default();
    res.refs.insert(Span::new(0, 1), ResolvedName::TopLevel(DefId(0)));
    let mut infer = Infer::new(&res);
    infer.schemes.insert(DefId(0), Scheme { vars: vec![], constraints: vec![], ty: Ty::Prim(PrimTy::Int) });
    let ty = infer.infer_expr(&call_of(1));
    assert!(matches!(ty, Ty::Var(_)));
    assert!(matches!(infer.errors[0].kind, ErrorKind::TypeMismatch { .. }));
}

#[test]
fn arity_mismatch_in_call_reports_error() {
    let mut res = Resolution::default();
    res.refs.insert(Span::new(0, 1), ResolvedName::TopLevel(DefId(0)));
    let mut infer = Infer::new(&res);
    let a = infer.fresh();
    infer.schemes.insert(
        DefId(0),
        Scheme {
            vars: vec![a],
            constraints: vec![],
            ty: Ty::Fun(vec![Ty::Var(a)], EffectRow::pure(), Box::new(Ty::Var(a))),
        },
    );
    infer.infer_expr(&call_of(2));
    assert!(matches!(infer.errors[0].kind, ErrorKind::ArityMismatch { expected: 1, found: 2 }));
}

#[test]
fn call_of_instantiated_identity_has_argument_type() {
    let mut res = Resolution::default();
    res.refs.insert(Span::new(0, 1), ResolvedName::TopLevel(DefId(0)));
    let mut infer = Infer::new(&res);
    let a = infer.fresh();
    infer.schemes.insert(
        DefId(0),
        Scheme {
            vars: vec![a],
            constraints: vec![],
            ty: Ty::Fun(vec![Ty::Var(a)], EffectRow::pure(), Box::new(Ty::Var(a))),
        },
    );
    let ty = infer.infer_expr(&call_of(1));
    assert!(infer.errors.is_empty());
    assert_eq!(apply_subst(&ty, &infer.subst), Ty::Prim(PrimTy::Int));
}

#[test]
fn wildcard_arm_covers_everything() {
    let file = parse(&lex("f = m match\n  _ -> 0\n").unwrap()).unwrap();
    let arms = match &file.decls[0].node {
        i_lang::ast::DeclKind::Binding { value: Some(v), .. } => match &v.node {
            i_lang::ast::ExprKind::Match { arms, .. } => arms,
            _ => panic!("expected a match"),
        },
        _ => panic!("expected a binding"),
    };
    let registry = i_lang::check::registry::TypeRegistry::default();
    assert_eq!(check_arms(&Ty::Prim(PrimTy::Int), arms, &registry), Coverage::Exhaustive);
}
