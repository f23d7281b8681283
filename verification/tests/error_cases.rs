use i_lang::ast::{EffectRow as AstEffectRow, Expr, ExprKind, KwArg, Type, TypeKind};
use i_lang::check::check_file;
use i_lang::check::infer::{unify_error_to_error, Infer};
use i_lang::check::registry::{FieldInfo, TypeDeclBody, TypeDeclInfo, TypeRegistry, VariantInfo, PayloadShape};
use i_lang::check::types::{PrimTy, Ty, TyVarId};
use i_lang::check::unify::UnifyError;
use i_lang::error::ErrorKind;
use i_lang::lex::lex;
use i_lang::parse::parse;
use i_lang::resolve::resolve_file;
use i_lang::resolve::types::{DefId, LocalId, ResolvedName, Resolution};
use i_lang::span::Span;

fn sp(a: u32, b: u32) -> Span {
    Span::new(a, b)
}

fn int_lit(a: u32, n: i64) -> Expr {
    Expr { span: sp(a, a + 1), node: ExprKind::IntLit(n) }
}

fn point_registry(id: DefId) -> TypeRegistry {
    let mut registry = TypeRegistry::default();
    registry.types.insert(
        id,
        TypeDeclInfo {
            def_id: id,
            name: "Point".to_string(),
            params: vec![],
            body: TypeDeclBody::Record(vec![
                FieldInfo { name: "x".to_string(), ty: Ty::Prim(PrimTy::Int) },
                FieldInfo { name: "y".to_string(), ty: Ty::Prim(PrimTy::Int) },
            ]),
            methods: vec![],
        },
    );
    registry
}

#[test]
fn lexer_reports_unexpected_char() {
    let e = lex("x = $").unwrap_err();
    assert_eq!(e.kind, ErrorKind::UnexpectedChar('$'));
    assert_eq!(e.span, sp(4, 5));
}

#[test]
fn lexer_reports_integer_overflow_as_invalid_number() {
    let e = lex("99999999999999999999").unwrap_err();
    assert_eq!(e.kind, ErrorKind::InvalidNumber("99999999999999999999".to_string()));
}

#[test]
fn occurs_error_shows_the_variable() {
    let e = unify_error_to_error(sp(1, 2), UnifyError::Occurs(TyVarId(0)));
    assert_eq!(e.span, sp(1, 2));
    assert_eq!(e.kind, ErrorKind::OccursCheck { var: Ty::Var(TyVarId(0)).to_string() });
}

#[test]
fn self_application_fails_the_occurs_check() {
    let file = parse(&lex("f = x -> x x\n").unwrap()).unwrap();
    let mut res = resolve_file(&file).unwrap();
    // The resolver leaves lambda parameters alone; link them by hand.
    res.refs.insert(sp(4, 5), ResolvedName::Local(LocalId(0)));
    res.refs.insert(sp(9, 10), ResolvedName::Local(LocalId(0)));
    res.refs.insert(sp(11, 12), ResolvedName::Local(LocalId(0)));
    let errs = check_file(&file, &res).unwrap_err();
    assert_eq!(errs.len(), 1);
    assert!(matches!(errs[0].kind, ErrorKind::OccursCheck { .. }));
}

#[test]
fn named_effect_rows_and_tuples_are_not_supported_yet() {
    let res = Resolution::default();
    let mut infer = Infer::new(&res);
    let int = Type { span: sp(0, 3), node: TypeKind::Named { name: "Int".to_string(), args: vec![] } };
    let f = Type {
        span: sp(0, 20),
        node: TypeKind::Function {
            params: vec![int],
            effect: Some(AstEffectRow::Named(vec!["Io".to_string()])),
            result: Box::new(Type { span: sp(10, 13), node: TypeKind::Named { name: "Int".to_string(), args: vec![] } }),
        },
    };
    let t = infer.lower_type(&f);
    assert_eq!(t, Ty::Fun(vec![Ty::Prim(PrimTy::Int)], i_lang::check::types::EffectRow::pure(), Box::new(Ty::Prim(PrimTy::Int))));
    let tuple = Type { span: sp(30, 40), node: TypeKind::Tuple(vec![]) };
    let t2 = infer.lower_type(&tuple);
    assert!(matches!(t2, Ty::Var(_)));
    assert_eq!(infer.errors.len(), 2);
    assert_eq!(infer.errors[0].kind, ErrorKind::EffectsNotYetImplemented);
    assert_eq!(infer.errors[0].span, sp(0, 20));
    assert_eq!(infer.errors[1].kind, ErrorKind::TuplesNotYetImplemented);
    assert_eq!(infer.errors[1].span, sp(30, 40));
}

#[test]
fn construction_reports_missing_and_unknown_fields_once() {
    let id = DefId(7);
    let e = Expr {
        span: sp(0, 30),
        node: ExprKind::Construct {
            ty_name: "Point".to_string(),
            fields: vec![
                KwArg { name: "x".to_string(), value: int_lit(8, 1) },
                KwArg { name: "z".to_string(), value: int_lit(12, 2) },
                KwArg { name: "z".to_string(), value: int_lit(16, 3) },
            ],
        },
    };
    let mut res = Resolution::default();
    res.refs.insert(e.span, ResolvedName::TopLevel(id));
    let mut infer = Infer::new(&res);
    infer.registry = point_registry(id);
    let t = infer.infer_expr(&e);
    assert_eq!(t, Ty::Con(id, vec![]));
    assert_eq!(infer.errors.len(), 2);
    assert_eq!(
        infer.errors[0].kind,
        ErrorKind::MissingField { ty_name: "Point".to_string(), field: "y".to_string() }
    );
    assert_eq!(
        infer.errors[1].kind,
        ErrorKind::UnknownField { ty_name: "Point".to_string(), field: "z".to_string() }
    );
}

#[test]
fn construction_of_a_sum_type_is_an_unknown_type() {
    let id = DefId(8);
    let e = Expr { span: sp(0, 10), node: ExprKind::Construct { ty_name: "Shape".to_string(), fields: vec![] } };
    let mut res = Resolution::default();
    res.refs.insert(e.span, ResolvedName::TopLevel(id));
    let mut infer = Infer::new(&res);
    let mut registry = TypeRegistry::default();
    registry.types.insert(
        id,
        TypeDeclInfo {
            def_id: id,
            name: "Shape".to_string(),
            params: vec![],
            body: TypeDeclBody::Sum(vec![VariantInfo {
                name: "Dot".to_string(),
                ctor_def_id: DefId(9),
                payload: PayloadShape::Bare,
                parent: id,
            }]),
            methods: vec![],
        },
    );
    infer.registry = registry;
    let t = infer.infer_expr(&e);
    assert!(matches!(t, Ty::Var(_)));
    assert_eq!(infer.errors.len(), 1);
    assert_eq!(infer.errors[0].kind, ErrorKind::UnknownType { name: "Shape".to_string() });
}

#[test]
fn field_access_on_a_primitive_cannot_access_member() {
    let recv = int_lit(0, 5);
    let e = Expr {
        span: sp(0, 4),
        node: ExprKind::FieldAccess { receiver: Box::new(recv), field: "x".to_string() },
    };
    let res = Resolution::default();
    let mut infer = Infer::new(&res);
    let t = infer.infer_expr(&e);
    assert!(matches!(t, Ty::Var(_)));
    assert_eq!(infer.errors.len(), 1);
    assert_eq!(infer.errors[0].span, sp(0, 1));
    assert_eq!(
        infer.errors[0].kind,
        ErrorKind::CannotAccessMember { ty: "Int".to_string(), member: "x".to_string() }
    );
}

#[test]
fn field_access_reads_the_declared_field_type() {
    let id = DefId(7);
    let recv = Expr { span: sp(0, 5), node: ExprKind::Construct {
        ty_name: "Point".to_string(),
        fields: vec![
            KwArg { name: "x".to_string(), value: int_lit(8, 1) },
            KwArg { name: "y".to_string(), value: int_lit(12, 2) },
        ],
    } };
    let good = Expr {
        span: sp(0, 20),
        node: ExprKind::FieldAccess { receiver: Box::new(recv), field: "y".to_string() },
    };
    let mut res = Resolution::default();
    res.refs.insert(sp(0, 5), ResolvedName::TopLevel(id));
    let mut infer = Infer::new(&res);
    infer.registry = point_registry(id);
    assert_eq!(infer.infer_expr(&good), Ty::Prim(PrimTy::Int));
    assert_eq!(infer.errors.len(), 0);
    let recv2 = Expr { span: sp(0, 5), node: ExprKind::Construct {
        ty_name: "Point".to_string(),
        fields: vec![
            KwArg { name: "x".to_string(), value: int_lit(8, 1) },
            KwArg { name: "y".to_string(), value: int_lit(12, 2) },
        ],
    } };
    let bad = Expr {
        span: sp(0, 21),
        node: ExprKind::FieldAccess { receiver: Box::new(recv2), field: "w".to_string() },
    };
    let t = infer.infer_expr(&bad);
    assert!(matches!(t, Ty::Var(_)));
    assert_eq!(
        infer.errors[0].kind,
        ErrorKind::UnknownField { ty_name: "Point".to_string(), field: "w".to_string() }
    );
    assert_eq!(infer.errors[0].span, sp(0, 21));
}

fn check_errors(src: &str) -> Vec<ErrorKind> {
    let file = parse(&lex(src).unwrap()).unwrap();
    let res = resolve_file(&file).unwrap();
    match check_file(&file, &res) {
        Ok(_) => vec![],
        Err(es) => es.into_iter().map(|e| e.kind).collect(),
    }
}

#[test]
fn operators_without_a_builtin_impl_are_reported() {
    let errs = check_errors("b = \"a\" - \"b\"\n");
    assert_eq!(errs, vec![ErrorKind::MissingImpl { trait_name: "Sub".to_string(), ty: "String".to_string() }]);
    let errs = check_errors("n = -\"x\"\n");
    assert_eq!(errs, vec![ErrorKind::MissingImpl { trait_name: "Neg".to_string(), ty: "String".to_string() }]);
    assert_eq!(check_errors("s = \"a\" ++ \"b\"\nc = 1.5 < 2.5\nn = -3\n"), vec![]);
}

#[test]
fn not_takes_a_bool() {
    let errs = check_errors("b = not 1\n");
    assert_eq!(errs.len(), 1);
    assert!(matches!(errs[0], ErrorKind::TypeMismatch { .. }));
    assert_eq!(check_errors("b = not (1 < 2)\n"), vec![]);
}

fn file_errors(src: &str) -> Vec<ErrorKind> {
    let file = parse(&lex(src).unwrap()).unwrap();
    let res = resolve_file(&file).unwrap();
    match check_file(&file, &res) {
        Ok(_) => vec![],
        Err(es) => es.into_iter().map(|e| e.kind).collect(),
    }
}

#[test]
fn second_impl_for_a_builtin_is_a_duplicate() {
    let errs = file_errors("impl Eq Int\n    eq = a b -> a\n    ne = a b -> a\n");
    assert_eq!(
        errs,
        vec![ErrorKind::DuplicateImpl { trait_name: "Eq".to_string(), ty: "Int".to_string() }]
    );
}

#[test]
fn impl_reports_missing_then_unknown_methods() {
    let errs = file_errors("type P\n    x : Int\nimpl Ord P\n    lt = a b -> a\n    zz = a b -> a\n");
    assert_eq!(
        errs,
        vec![
            ErrorKind::MissingMethod { trait_name: "Ord".to_string(), method: "le".to_string() },
            ErrorKind::MissingMethod { trait_name: "Ord".to_string(), method: "gt".to_string() },
            ErrorKind::MissingMethod { trait_name: "Ord".to_string(), method: "ge".to_string() },
            ErrorKind::UnknownMethod { trait_name: "Ord".to_string(), method: "zz".to_string() },
        ]
    );
}

#[test]
fn declared_impl_satisfies_the_operator() {
    let src = "type P\n    x : Int\nimpl Eq P\n    eq = a b -> a\n    ne = a b -> a\np : P\np = P(x = 1)\nb = p == p\n";
    assert!(!file_errors(src).iter().any(|k| matches!(k, ErrorKind::MissingImpl { .. })));
}

#[test]
fn value_may_use_a_later_binding() {
    let file = parse(&lex("a = b + 1\nb = 2\n").unwrap()).unwrap();
    let res = resolve_file(&file).unwrap();
    let typing = check_file(&file, &res).unwrap();
    let a = res.defs.iter().find(|d| d.name == "a").unwrap();
    assert_eq!(typing.schemes.get(&a.id).unwrap().ty, Ty::Prim(PrimTy::Int));
}

#[test]
fn coverage_lists_missing_variants_in_order() {
    let src = "type C\n    R\n    G\n    B\n\nf : C -> Int\nf = c -> c match\n    G -> 1\n";
    let errs = file_errors(src);
    assert_eq!(
        errs,
        vec![ErrorKind::NonExhaustiveMatch { missing: vec!["R".to_string(), "B".to_string()] }]
    );
}

#[test]
fn constructor_schemes_follow_payloads() {
    let src = "type Maybe a\n    None\n    Some : a\n";
    let file = parse(&lex(src).unwrap()).unwrap();
    let res = resolve_file(&file).unwrap();
    let typing = check_file(&file, &res).unwrap();
    let maybe = res.defs.iter().find(|d| d.name == "Maybe").unwrap().id;
    let some = res.defs.iter().find(|d| d.name == "Some").unwrap().id;
    let none = res.defs.iter().find(|d| d.name == "None").unwrap().id;
    let s = typing.schemes.get(&some).unwrap();
    assert_eq!(s.vars.len(), 1);
    let a = s.vars[0];
    assert_eq!(
        s.ty,
        Ty::Fun(
            vec![Ty::Var(a)],
            i_lang::check::types::EffectRow::pure(),
            Box::new(Ty::Con(maybe, vec![Ty::Var(a)])),
        )
    );
    let n = typing.schemes.get(&none).unwrap();
    assert_eq!(n.ty, Ty::Con(maybe, vec![Ty::Var(n.vars[0])]));
}

#[test]
fn unresolved_obligation_is_ambiguous() {
    let errs = file_errors("main =\n    f = x -> x == x\n    0\n");
    assert_eq!(errs, vec![ErrorKind::AmbiguousConstraint { trait_name: "Eq".to_string() }]);
}

#[test]
fn generalised_binding_is_used_at_two_types() {
    let file = parse(&lex("idf = x -> x\na = idf 1\nb = idf \"s\"\n").unwrap()).unwrap();
    let res = resolve_file(&file).unwrap();
    let typing = check_file(&file, &res).unwrap();
    let a = res.defs.iter().find(|d| d.name == "a").unwrap();
    let b = res.defs.iter().find(|d| d.name == "b").unwrap();
    assert_eq!(typing.schemes.get(&a.id).unwrap().ty, Ty::Prim(PrimTy::Int));
    assert_eq!(typing.schemes.get(&b.id).unwrap().ty, Ty::Prim(PrimTy::String));
}

#[test]
fn method_type_comes_from_its_value() {
    let src = "type P\n    x : Int\n    getx = self.x\nv : P\nv = P(x = 1)\nn = v.getx\n";
    let file = parse(&lex(src).unwrap()).unwrap();
    let res = resolve_file(&file).unwrap();
    let typing = check_file(&file, &res).unwrap();
    let n = res.defs.iter().find(|d| d.name == "n").unwrap();
    assert_eq!(typing.schemes.get(&n.id).unwrap().ty, Ty::Prim(PrimTy::Int));
}
