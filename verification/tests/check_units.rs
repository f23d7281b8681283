use i_lang::check::display::{scheme_to_string, ty_to_string};
use i_lang::check::infer::Infer;
use i_lang::check::registry::{
    head_of, FieldInfo, ImplInfo, TypeDeclBody, TypeDeclInfo, TypeHead, TypeRegistry,
};
use i_lang::check::traits::{seed_builtin_impls, TraitId};
use i_lang::check::types::{
    Constraint, Effect, EffectRow, EffectSet, EffectVarId, PrimTy, Scheme, Subst, Ty, TyVarId,
};
use i_lang::check::unify::{apply_subst, occurs, unify, UnifyError};
use i_lang::ast::{BinOp, FieldPat, LitPat, Pattern, PatternKind};
use i_lang::resolve::types::{DefId, DefInfo, DefKind, LocalId, Resolution, ResolvedName};
use i_lang::span::Span;

fn int_ty() -> Ty {
    Ty::Prim(PrimTy::Int)
}

// ---- types ----

#[test]
fn display_primitive() {
    assert_eq!(Ty::Prim(PrimTy::Int).to_string(), "Int");
    assert_eq!(Ty::Prim(PrimTy::Float).to_string(), "Float");
}

#[test]
fn display_function() {
    let ty = Ty::Fun(vec![int_ty(), int_ty()], EffectRow::pure(), Box::new(Ty::Prim(PrimTy::Bool)));
    assert_eq!(ty.to_string(), "Int, Int -> Bool");
}

#[test]
fn display_var_uses_letter_alphabet() {
    let s = Ty::Var(TyVarId(0)).to_string();
    assert!(!s.contains("TyVarId"));
}

#[test]
fn scheme_carries_constraints() {
    let s = Scheme {
        vars: vec![TyVarId(0)],
        constraints: vec![Constraint { trait_: TraitId::Eq, ty: Ty::Var(TyVarId(0)) }],
        ty: Ty::Fun(vec![Ty::Var(TyVarId(0))], EffectRow::pure(), Box::new(Ty::Prim(PrimTy::Bool))),
    };
    assert_eq!(s.constraints.len(), 1);
    assert_eq!(s.constraints[0].trait_, TraitId::Eq);
}

fn def(i: u32, name: &str) -> DefInfo {
    DefInfo { id: DefId(i), name: name.to_string(), kind: DefKind::Type, span: Span::new(0, 0) }
}

#[test]
fn ty_to_string_uses_resolved_name_for_con() {
    let mut res = Resolution::default();
    res.defs.push(def(0, "Maybe"));
    let ty = Ty::Con(DefId(0), vec![int_ty()]);
    assert_eq!(ty_to_string(&ty, &res), "Maybe Int");
}

#[test]
fn ty_to_string_parenthesises_compound_args() {
    let mut res = Resolution::default();
    res.defs.push(def(0, "List"));
    res.defs.push(def(1, "Maybe"));
    let nested = Ty::Con(DefId(0), vec![Ty::Con(DefId(1), vec![int_ty()])]);
    assert_eq!(ty_to_string(&nested, &res), "List (Maybe Int)");
    let with_fun = Ty::Con(
        DefId(0),
        vec![Ty::Fun(vec![int_ty()], EffectRow::pure(), Box::new(Ty::Prim(PrimTy::Bool)))],
    );
    assert_eq!(ty_to_string(&with_fun, &res), "List (Int -> Bool)");
}

#[test]
fn scheme_to_string_includes_constraints() {
    let res = Resolution::default();
    let s = Scheme {
        vars: vec![TyVarId(0)],
        constraints: vec![Constraint { trait_: TraitId::Eq, ty: Ty::Var(TyVarId(0)) }],
        ty: Ty::Fun(vec![Ty::Var(TyVarId(0))], EffectRow::pure(), Box::new(Ty::Prim(PrimTy::Bool))),
    };
    assert_eq!(scheme_to_string(&s, &res), "forall t0 . Eq t0 => t0 -> Bool");
}

#[test]
fn display_scheme_includes_forall_when_quantified() {
    let scheme = Scheme {
        vars: vec![TyVarId(0)],
        constraints: Vec::new(),
        ty: Ty::Fun(vec![Ty::Var(TyVarId(0))], EffectRow::pure(), Box::new(Ty::Var(TyVarId(0)))),
    };
    let s = scheme.to_string();
    assert!(s.starts_with("forall"));
}

// ---- unify ----

#[test]
fn apply_subst_replaces_bound_var() {
    let mut s = Subst::new();
    s.tys.insert(TyVarId(0), int_ty());
    let ty = Ty::Fun(vec![Ty::Var(TyVarId(0))], EffectRow::pure(), Box::new(Ty::Var(TyVarId(1))));
    let out = apply_subst(&ty, &s);
    assert_eq!(out, Ty::Fun(vec![int_ty()], EffectRow::pure(), Box::new(Ty::Var(TyVarId(1)))));
}

#[test]
fn occurs_finds_var_inside_fun() {
    let ty = Ty::Fun(vec![Ty::Var(TyVarId(0))], EffectRow::pure(), Box::new(int_ty()));
    assert!(occurs(TyVarId(0), &ty, &Subst::new()));
    assert!(!occurs(TyVarId(1), &ty, &Subst::new()));
}

#[test]
fn unify_primitive_succeeds_when_equal() {
    let mut s = Subst::new();
    unify(&mut s, &int_ty(), &int_ty()).unwrap();
    assert!(s.tys.is_empty());
}

#[test]
fn unify_primitive_fails_when_distinct() {
    let mut s = Subst::new();
    let r = unify(&mut s, &int_ty(), &Ty::Prim(PrimTy::Float));
    assert!(matches!(r, Err(UnifyError::Mismatch { .. })));
}

#[test]
fn unify_var_binds_when_unbound() {
    let mut s = Subst::new();
    unify(&mut s, &Ty::Var(TyVarId(0)), &int_ty()).unwrap();
    assert_eq!(s.tys.get(&TyVarId(0)), Some(&int_ty()));
}

#[test]
fn unify_var_with_self_containing_term_is_occurs_check() {
    let mut s = Subst::new();
    let lhs = Ty::Var(TyVarId(0));
    let rhs = Ty::Fun(vec![Ty::Var(TyVarId(0))], EffectRow::pure(), Box::new(int_ty()));
    let r = unify(&mut s, &lhs, &rhs);
    assert!(matches!(r, Err(UnifyError::Occurs(_))));
}

#[test]
fn apply_subst_resolves_effect_tail_in_fun_row() {
    let mut s = Subst::default();
    s.effs.insert(EffectVarId(0), EffectRow::concrete(EffectSet::single(Effect::Io)));
    let f = Ty::Fun(
        vec![],
        EffectRow::open(EffectSet::empty(), EffectVarId(0)),
        Box::new(Ty::Prim(PrimTy::Unit)),
    );
    let out = apply_subst(&f, &s);
    match out {
        Ty::Fun(_, row, _) => {
            assert!(row.labels.contains(Effect::Io));
            assert!(row.tail.is_none());
        }
        _ => panic!("expected Fun"),
    }
}

#[test]
fn unify_fun_compares_arities() {
    let mut s = Subst::new();
    let one = Ty::Fun(vec![int_ty()], EffectRow::pure(), Box::new(int_ty()));
    let two = Ty::Fun(vec![int_ty(), int_ty()], EffectRow::pure(), Box::new(int_ty()));
    assert!(matches!(unify(&mut s, &one, &two), Err(UnifyError::Arity { .. })));
}

// ---- traits ----

#[test]
fn binop_maps_to_trait() {
    assert_eq!(TraitId::of_binop(&BinOp::Add), Some(TraitId::Add));
    assert_eq!(TraitId::of_binop(&BinOp::Lt), Some(TraitId::Ord));
    assert_eq!(TraitId::of_binop(&BinOp::Eq), Some(TraitId::Eq));
    assert_eq!(TraitId::of_binop(&BinOp::Concat), Some(TraitId::Concat));
    assert_eq!(TraitId::of_binop(&BinOp::And), None);
}

#[test]
fn result_is_bool_for_comparisons_else_operand() {
    assert!(TraitId::Eq.result_is_bool());
    assert!(TraitId::Ord.result_is_bool());
    assert!(!TraitId::Add.result_is_bool());
}

#[test]
fn name_and_methods_are_known() {
    assert_eq!(TraitId::Eq.name(), "Eq");
    assert_eq!(TraitId::Eq.method_names(), vec!["eq", "ne"]);
    assert_eq!(TraitId::Add.method_names(), vec!["add"]);
}

#[test]
fn trait_id_parses_from_name() {
    assert_eq!(TraitId::from_name("Ord"), Some(TraitId::Ord));
    assert_eq!(TraitId::from_name("Nope"), None);
}

#[test]
fn builtin_impls_cover_primitive_arithmetic_and_eq() {
    let mut reg = TypeRegistry::default();
    seed_builtin_impls(&mut reg);
    assert!(reg.impls.contains_key(&(TraitId::Add, TypeHead::Prim(PrimTy::Int))));
    assert!(reg.impls.contains_key(&(TraitId::Add, TypeHead::Prim(PrimTy::Float))));
    assert!(reg.impls.contains_key(&(TraitId::Eq, TypeHead::Prim(PrimTy::Int))));
    assert!(reg.impls.contains_key(&(TraitId::Ord, TypeHead::Prim(PrimTy::Float))));
    assert!(reg.impls.contains_key(&(TraitId::Concat, TypeHead::Prim(PrimTy::String))));
    assert!(!reg.impls.contains_key(&(TraitId::Add, TypeHead::Prim(PrimTy::String))));
}

// ---- registry ----

#[test]
fn head_of_classifies_types() {
    assert_eq!(head_of(&int_ty()), Some(TypeHead::Prim(PrimTy::Int)));
    assert_eq!(head_of(&Ty::Con(DefId(3), vec![])), Some(TypeHead::Con(DefId(3))));
    assert_eq!(head_of(&Ty::Var(TyVarId(0))), None);
}

#[test]
fn impl_table_keys_on_trait_and_head() {
    let mut reg = TypeRegistry::default();
    reg.impls.insert(
        (TraitId::Eq, TypeHead::Con(DefId(3))),
        ImplInfo { trait_: TraitId::Eq, head: TypeHead::Con(DefId(3)) },
    );
    assert!(reg.impls.contains_key(&(TraitId::Eq, TypeHead::Con(DefId(3)))));
    assert!(!reg.impls.contains_key(&(TraitId::Eq, TypeHead::Prim(PrimTy::Int))));
}

// ---- infer ----

#[test]
fn fresh_returns_distinct_ids() {
    let res = Resolution::default();
    let mut infer = Infer::new(&res);
    let a = infer.fresh();
    let b = infer.fresh();
    assert_ne!(a, b);
}

#[test]
fn record_expr_type_stores_and_applies_subst() {
    let res = Resolution::default();
    let mut infer = Infer::new(&res);
    let v = infer.fresh();
    infer.subst.tys.insert(v, int_ty());
    let s = Span::new(0, 1);
    infer.record_expr_type(s, Ty::Var(v));
    let typing = infer.into_typing();
    assert_eq!(typing.expr_types.get(&s), Some(&int_ty()));
}

fn pat(kind: PatternKind) -> Pattern {
    Pattern { span: Span::new(0, 1), node: kind }
}

fn pat_at(start: u32, kind: PatternKind) -> Pattern {
    Pattern { span: Span::new(start, start + 1), node: kind }
}

#[test]
fn wildcard_pattern_has_fresh_type_var_and_no_bindings() {
    let res = Resolution::default();
    let mut infer = Infer::new(&res);
    let pr = infer.infer_pattern(&pat(PatternKind::Wildcard));
    assert!(matches!(pr.ty, Ty::Var(_)));
    assert!(pr.bindings.is_empty());
}

#[test]
fn int_literal_pattern_is_int_typed() {
    let res = Resolution::default();
    let mut infer = Infer::new(&res);
    let pr = infer.infer_pattern(&pat(PatternKind::Lit(LitPat::Int(0))));
    assert_eq!(pr.ty, int_ty());
    assert!(pr.bindings.is_empty());
}

#[test]
fn float_literal_pattern_is_float_typed() {
    let res = Resolution::default();
    let mut infer = Infer::new(&res);
    let pr = infer.infer_pattern(&pat(PatternKind::Lit(LitPat::Float("1.5".to_string()))));
    assert_eq!(pr.ty, Ty::Prim(PrimTy::Float));
}

#[test]
fn string_literal_pattern_is_string_typed() {
    let res = Resolution::default();
    let mut infer = Infer::new(&res);
    let pr = infer.infer_pattern(&pat(PatternKind::Lit(LitPat::Str("a".to_string()))));
    assert_eq!(pr.ty, Ty::Prim(PrimTy::String));
}

#[test]
fn bare_ctor_pattern_returns_parent_type() {
    let ctor_id = DefId(10);
    let parent_id = DefId(11);
    let p = pat_at(0, PatternKind::Ctor { name: "None".to_string(), args: vec![] });
    let mut res = Resolution::default();
    res.refs.insert(p.span, ResolvedName::Ctor(ctor_id));
    let mut infer = Infer::new(&res);
    let a = infer.fresh();
    infer.schemes.insert(
        ctor_id,
        Scheme { vars: vec![a], constraints: vec![], ty: Ty::Con(parent_id, vec![Ty::Var(a)]) },
    );
    let pr = infer.infer_pattern(&p);
    match pr.ty {
        Ty::Con(id, args) => {
            assert_eq!(id, parent_id);
            assert_eq!(args.len(), 1);
        }
        other => panic!("expected Con(parent, _), got {other:?}"),
    }
    assert!(pr.bindings.is_empty());
}

#[test]
fn single_payload_ctor_pattern_binds_inner_var_to_payload_type() {
    let ctor_id = DefId(10);
    let parent_id = DefId(11);
    let local_id = LocalId(20);
    let inner = pat_at(2, PatternKind::Var("n".to_string()));
    let inner_span = inner.span;
    let outer = pat_at(0, PatternKind::Ctor { name: "Some".to_string(), args: vec![inner] });
    let mut res = Resolution::default();
    res.refs.insert(outer.span, ResolvedName::Ctor(ctor_id));
    res.refs.insert(inner_span, ResolvedName::Local(local_id));
    let mut infer = Infer::new(&res);
    let a = infer.fresh();
    infer.schemes.insert(
        ctor_id,
        Scheme {
            vars: vec![a],
            constraints: vec![],
            ty: Ty::Fun(
                vec![Ty::Var(a)],
                EffectRow::pure(),
                Box::new(Ty::Con(parent_id, vec![Ty::Var(a)])),
            ),
        },
    );
    let pr = infer.infer_pattern(&outer);
    match &pr.ty {
        Ty::Con(id, args) => {
            assert_eq!(*id, parent_id);
            assert_eq!(args.len(), 1);
        }
        other => panic!("expected Con(parent, _), got {other:?}"),
    }
    assert_eq!(pr.bindings, vec![local_id]);
    let bound = infer.locals.get(&local_id).cloned().unwrap();
    let bound = apply_subst(&bound, &infer.subst);
    let parent_arg = match &pr.ty {
        Ty::Con(_, args) => apply_subst(&args[0], &infer.subst),
        other => panic!("unexpected ty: {other:?}"),
    };
    assert_eq!(bound, parent_arg);
}

#[test]
fn record_pattern_unifies_field_subpattern_types() {
    let type_id = DefId(30);
    let local_id = LocalId(40);
    let inner = pat_at(4, PatternKind::Var("xv".to_string()));
    let inner_span = inner.span;
    let outer = pat_at(
        0,
        PatternKind::Record {
            ty_name: "Point".to_string(),
            fields: vec![FieldPat { field: "x".to_string(), pattern: inner }],
        },
    );
    let mut res = Resolution::default();
    res.refs.insert(outer.span, ResolvedName::TopLevel(type_id));
    res.refs.insert(inner_span, ResolvedName::Local(local_id));
    let mut infer = Infer::new(&res);
    let mut registry = TypeRegistry::default();
    registry.types.insert(
        type_id,
        TypeDeclInfo {
            def_id: type_id,
            name: "Point".to_string(),
            params: vec![],
            body: TypeDeclBody::Record(vec![FieldInfo { name: "x".to_string(), ty: int_ty() }]),
            methods: vec![],
        },
    );
    infer.registry = registry;
    let pr = infer.infer_pattern(&outer);
    assert_eq!(pr.ty, Ty::Con(type_id, vec![]));
    assert_eq!(pr.bindings, vec![local_id]);
    let bound = infer.locals.get(&local_id).unwrap().clone();
    assert_eq!(apply_subst(&bound, &infer.subst), int_ty());
}
