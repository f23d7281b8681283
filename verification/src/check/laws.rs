//! What substitutions and unification keep across calls.
use vstd::prelude::*;
use crate::check::types::{EffectRow, STy};
use crate::check::unify::{
    app_from, app_row_from, apply, apps_from, eqm, extends, fv, lemma_app_id, lemma_apps_from, lemma_app_resolved, lemma_compose, lemma_eqm_app,
    problem_size, problem_vars, size, smaller, tys_wf, effs_wf, unify_list_spec, unify_spec,
    SUnifyError,
};

use crate::ast::{Decl, DeclKind};
use crate::check::{impls_after, target_head, trait_named};
use crate::resolve::types::Resolution;
use crate::ast::{BinOp, UnaryOp};
use crate::check::model::{binop_m, builtin_heads, unop_m, IEnv, IState};
use crate::check::registry::TypeHead;
use crate::check::traits::TraitId;
use crate::check::types::PrimTy;
use crate::span::Span;

verus! {

/// Applying a well-formed substitution twice gives what applying it once
/// gave: its result holds no bound variable.
pub proof fn apply_idempotent(t: STy, s: Seq<(u32, STy)>, e: Seq<(u32, EffectRow)>)
    requires
        tys_wf(s),
        effs_wf(e),
    ensures
        apply(apply(t, s, e), s, e) == apply(t, s, e),
{
    lemma_app_resolved(t, s, e, 0);
    lemma_app_id(apply(t, s, e), s, e, 0);
}

/// Applying a substitution and then one that extends it is the same as
/// applying the extension alone.
pub proof fn apply_extension(t: STy, s0: Seq<(u32, STy)>, s1: Seq<(u32, STy)>, e: Seq<(u32, EffectRow)>)
    requires
        tys_wf(s0),
        tys_wf(s1),
        effs_wf(e),
        extends(s0, s1),
    ensures
        apply(apply(t, s0, e), s1, e) == apply(t, s1, e),
{
    lemma_compose(t, s0, s1, e, 0);
}

/// Two types that a substitution made equal (up to effect rows) stay equal
/// under every extension of it: what `unify` solved stays solved by every
/// later `unify` on the same substitution.
pub proof fn extension_keeps_equalities(
    a: STy,
    b: STy,
    s0: Seq<(u32, STy)>,
    s1: Seq<(u32, STy)>,
    e: Seq<(u32, EffectRow)>,
)
    requires
        tys_wf(s0),
        tys_wf(s1),
        effs_wf(e),
        extends(s0, s1),
        eqm(apply(a, s0, e), apply(b, s0, e)),
    ensures
        eqm(apply(a, s1, e), apply(b, s1, e)),
{
    lemma_eqm_app(apply(a, s0, e), apply(b, s0, e), s1, e);
    lemma_compose(a, s0, s1, e, 0);
    lemma_compose(b, s0, s1, e, 0);
}

/// Unifying a type with itself succeeds and binds nothing.
pub proof fn unify_reflexive(s: Seq<(u32, STy)>, e: Seq<(u32, EffectRow)>, a: STy)
    ensures
        unify_spec(s, e, a, a) == (s, Ok::<(), SUnifyError>(())),
    decreases problem_vars(s, e, a, a).len(), problem_size(s, e, a, a), 1nat, 0int,
{
    let a1 = apply(a, s, e);
    match a1 {
        STy::Con(_, xs) => {
            lemma_unify_list_reflexive(s, e, xs, 0, a1);
        },
        STy::Fun(ps, _, r) => {
            lemma_unify_list_reflexive(s, e, ps, 0, a1);
            if smaller(s, e, *r, *r, a1, a1) {
                unify_reflexive(s, e, *r);
            }
        },
        _ => {},
    }
}

proof fn lemma_unify_list_reflexive(
    s: Seq<(u32, STy)>,
    e: Seq<(u32, EffectRow)>,
    xs: Seq<STy>,
    j: int,
    pa: STy,
)
    ensures
        unify_list_spec(s, e, xs, xs, j, pa, pa) == (s, Ok::<(), SUnifyError>(())),
    decreases fv(pa).union(fv(pa)).len(), size(pa) + size(pa), 0nat, xs.len() - j,
{
    if 0 <= j < xs.len() && smaller(s, e, xs[j], xs[j], pa, pa) {
        unify_reflexive(s, e, xs[j]);
        lemma_unify_list_reflexive(s, e, xs, j + 1, pa);
    }
}

/// Unifying an unbound variable with another type in which it occurs fails
/// with the occurs check and binds nothing.
pub proof fn unify_occurs_fails(s: Seq<(u32, STy)>, e: Seq<(u32, EffectRow)>, v: u32, t: STy)
    requires
        apply(STy::Var(v), s, e) == STy::Var(v),
        apply(t, s, e) != STy::Var(v),
        fv(apply(t, s, e)).contains(v),
    ensures
        unify_spec(s, e, STy::Var(v), t) == (s, Err::<(), SUnifyError>(SUnifyError::Occurs(v))),
{
}

/// With no bindings at all, applying a substitution changes nothing.
pub proof fn apply_empty(t: STy)
    ensures
        apply(t, seq![], seq![]) == t,
{
    lemma_app_empty(t);
}

proof fn lemma_app_empty(t: STy)
    ensures
        app_from(t, seq![], seq![], 0) == t,
    decreases t, 0nat,
{
    match t {
        STy::Con(id, args) => {
            lemma_apps_empty(args);
        },
        STy::Fun(ps, row, r) => {
            lemma_apps_empty(ps);
            lemma_app_empty(*r);
            assert(app_row_from(row, seq![], 0) == row);
        },
        _ => {},
    }
}

proof fn lemma_apps_empty(ts: Seq<STy>)
    ensures
        apps_from(ts, seq![], seq![], 0) == ts,
    decreases ts, 1nat,
{
    lemma_apps_from(ts, seq![], seq![], 0);
    assert forall|m: int| 0 <= m < ts.len() implies #[trigger] apps_from(ts, seq![], seq![], 0)[m] == ts[m] by {
        lemma_app_empty(ts[m]);
    }
    assert(apps_from(ts, seq![], seq![], 0) =~= ts);
}

/// Applying a substitution keeps every node that is not a variable: a
/// primitive stays itself, a constructor keeps its definition and its
/// number of arguments, a function type its number of parameters.
pub proof fn apply_keeps_shape(t: STy, s: Seq<(u32, STy)>, e: Seq<(u32, EffectRow)>)
    ensures
        t matches STy::Prim(p) ==> apply(t, s, e) == STy::Prim(p),
        t matches STy::Con(id, xs) ==> (apply(t, s, e) matches STy::Con(id2, ys) && id2 == id
            && ys.len() == xs.len()),
        t matches STy::Fun(ps, _, _) ==> (apply(t, s, e) matches STy::Fun(qs, _, _) && qs.len()
            == ps.len()),
{
    match t {
        STy::Con(_, xs) => {
            lemma_apps_from(xs, s, e, 0);
        },
        STy::Fun(ps, _, _) => {
            lemma_apps_from(ps, s, e, 0);
        },
        _ => {},
    }
}


/// `r` is `t` with each of its variables replaced by some type: every node
/// of `t` that is not a variable is kept in `r`, with its constructor, its
/// definition and its number of children.
pub open spec fn refines(t: STy, r: STy) -> bool
    decreases t, 0nat,
{
    match t {
        STy::Var(_) => true,
        STy::Prim(p) => r == STy::Prim(p),
        STy::Con(id, xs) => match r {
            STy::Con(id2, ys) => id2 == id && refines_all(xs, ys),
            _ => false,
        },
        STy::Fun(ps, _, res) => match r {
            STy::Fun(qs, _, rr) => refines_all(ps, qs) && refines(*res, *rr),
            _ => false,
        },
    }
}

pub open spec fn refines_all(xs: Seq<STy>, ys: Seq<STy>) -> bool
    decreases xs, 1nat,
{
    &&& xs.len() == ys.len()
    &&& (xs.len() == 0 || (refines_all(xs.drop_last(), ys.drop_last()) && refines(xs.last(), ys.last())))
}

/// Applying a substitution keeps every node of a type that is not a
/// variable, at every depth.
pub proof fn apply_refines(t: STy, s: Seq<(u32, STy)>, e: Seq<(u32, EffectRow)>)
    ensures
        refines(t, apply(t, s, e)),
{
    lemma_app_refines(t, s, e, 0);
}

proof fn lemma_app_refines(t: STy, s: Seq<(u32, STy)>, e: Seq<(u32, EffectRow)>, k: int)
    ensures
        refines(t, app_from(t, s, e, k)),
    decreases s.len() - k, t, 0nat,
{
    match t {
        STy::Con(_, xs) => {
            lemma_apps_refines(xs, s, e, k);
        },
        STy::Fun(ps, _, r) => {
            lemma_apps_refines(ps, s, e, k);
            lemma_app_refines(*r, s, e, k);
        },
        _ => {},
    }
}

proof fn lemma_apps_refines(ts: Seq<STy>, s: Seq<(u32, STy)>, e: Seq<(u32, EffectRow)>, k: int)
    ensures
        refines_all(ts, apps_from(ts, s, e, k)),
    decreases s.len() - k, ts, 1nat,
{
    if ts.len() > 0 {
        lemma_apps_refines(ts.drop_last(), s, e, k);
        lemma_app_refines(ts.last(), s, e, k);
        let r = apps_from(ts, s, e, k);
        assert(r.drop_last() =~= apps_from(ts.drop_last(), s, e, k));
        assert(r.last() == app_from(ts.last(), s, e, k));
    }
}

/// Registration keeps what it knew: the impls known after the first `n`
/// declarations are among those known after the first `n2`, for `n <= n2`,
/// and the built-in impls are known throughout.
pub proof fn registration_keeps_impls(res: Resolution, decls: Seq<Decl>, n: int, n2: int)
    requires
        0 <= n <= n2 <= decls.len(),
    ensures
        crate::check::model::builtin_heads().subset_of(impls_after(res, decls, n).0),
        impls_after(res, decls, n).0.subset_of(impls_after(res, decls, n2).0),
    decreases n2,
{
    if n2 > 0 {
        if n < n2 {
            registration_keeps_impls(res, decls, n, n2 - 1);
        } else {
            registration_keeps_impls(res, decls, n - 1, n - 1);
        }
    }
}

/// An impl that the file declares, of a trait that exists for a type its
/// target names, is known once the declarations after it are registered.
pub proof fn declared_impl_is_known(res: Resolution, decls: Seq<Decl>, j: int, n: int)
    requires
        0 <= j < n <= decls.len(),
        decls[j].node matches DeclKind::ImplDecl { trait_name, target, .. } && trait_named(trait_name@)
            is Some && target_head(res.defs@, target) is Some,
    ensures
        ({
            let (tr, h) = match decls[j].node {
                DeclKind::ImplDecl { trait_name, target, .. } => (
                    trait_named(trait_name@).unwrap(),
                    target_head(res.defs@, target).unwrap(),
                ),
                _ => arbitrary(),
            };
            impls_after(res, decls, n).0.contains((tr, h))
        }),
{
    registration_keeps_impls(res, decls, j + 1, n);
}


/// Arithmetic on two numbers of one numeric type is well typed wherever the
/// built-in impls are known: `+`, `-`, `*`, `/` and `^` on two `Int`s or
/// two `Float`s report nothing and give that same type.
pub proof fn arithmetic_on_numbers(
    g: IEnv,
    m: IState,
    span: Span,
    op: BinOp,
    lhs_span: Span,
    rhs_span: Span,
    p: PrimTy,
)
    requires
        op is Add || op is Sub || op is Mul || op is Div || op is Pow,
        p is Int || p is Float,
        builtin_heads().subset_of(g.impls),
    ensures
        binop_m(g, m, span, op, lhs_span, rhs_span, STy::Prim(p), STy::Prim(p)) == (m, STy::Prim(p)),
{
    let tr = match op {
        BinOp::Add => TraitId::Add,
        BinOp::Sub => TraitId::Sub,
        BinOp::Mul => TraitId::Mul,
        BinOp::Div => TraitId::Div,
        _ => TraitId::Pow,
    };
    assert(builtin_heads().contains((tr, TypeHead::Prim(p))));
    assert(apply(STy::Prim(p), m.tys, g.effs) == STy::Prim(p));
}

/// Negating a number is well typed wherever the built-in impls are known:
/// it reports nothing and gives the number's type.
pub proof fn negation_on_numbers(g: IEnv, m: IState, span: Span, operand_span: Span, p: PrimTy)
    requires
        p is Int || p is Float,
        builtin_heads().subset_of(g.impls),
    ensures
        unop_m(g, m, span, UnaryOp::Neg, operand_span, STy::Prim(p)) == (m, STy::Prim(p)),
{
    assert(builtin_heads().contains((TraitId::Neg, TypeHead::Prim(p))));
    assert(apply(STy::Prim(p), m.tys, g.effs) == STy::Prim(p));
}

/// Every file is checked with the built-in impls known, whatever it
/// declares.
pub proof fn built_in_impls_always_known(res: Resolution, decls: Seq<Decl>)
    ensures
        builtin_heads().subset_of(impls_after(res, decls, decls.len() as int).0),
{
    registration_keeps_impls(res, decls, decls.len() as int, decls.len() as int);
}


/// A match with an arm that is a variable or `_` covers every value: its
/// coverage reports nothing, whatever the scrutinee's type.
pub proof fn catch_all_arm_covers(g: IEnv, m: IState, span: Span, st: STy, arms: Seq<crate::ast::MatchArm>, i: int)
    requires
        0 <= i < arms.len(),
        arms[i].pattern.node is Var || arms[i].pattern.node is Wildcard,
    ensures
        crate::check::model::coverage_m(g, m, span, st, arms) == m,
{
    assert(crate::check::exhaust::catch_all(arms[i]));
}


/// Comparing two values of one primitive type is well typed wherever the
/// built-in impls are known: it reports nothing and gives `Bool`.
pub proof fn comparison_on_primitives(
    g: IEnv,
    m: IState,
    span: Span,
    op: BinOp,
    lhs_span: Span,
    rhs_span: Span,
    p: PrimTy,
)
    requires
        op is Eq || op is Ne || op is Lt || op is Le || op is Gt || op is Ge,
        builtin_heads().subset_of(g.impls),
    ensures
        binop_m(g, m, span, op, lhs_span, rhs_span, STy::Prim(p), STy::Prim(p)) == (m, STy::Prim(PrimTy::Bool)),
{
    let tr = if op is Eq || op is Ne {
        TraitId::Eq
    } else {
        TraitId::Ord
    };
    assert(builtin_heads().contains((tr, TypeHead::Prim(p))));
    assert(apply(STy::Prim(p), m.tys, g.effs) == STy::Prim(p));
}

/// Concatenating two strings is well typed wherever the built-in impls are
/// known: it reports nothing and gives `String`.
pub proof fn concatenation_on_strings(g: IEnv, m: IState, span: Span, lhs_span: Span, rhs_span: Span)
    requires
        builtin_heads().subset_of(g.impls),
    ensures
        binop_m(g, m, span, BinOp::Concat, lhs_span, rhs_span, STy::Prim(PrimTy::String), STy::Prim(PrimTy::String))
            == (m, STy::Prim(PrimTy::String)),
{
    assert(builtin_heads().contains((TraitId::Concat, TypeHead::Prim(PrimTy::String))));
    assert(apply(STy::Prim(PrimTy::String), m.tys, g.effs) == STy::Prim(PrimTy::String));
}

/// With only the built-in impls, arithmetic on a type that is not a number
/// reports exactly one missing impl, of the operator's trait for that type.
pub proof fn arithmetic_off_numbers(
    g: IEnv,
    m: IState,
    span: Span,
    op: BinOp,
    lhs_span: Span,
    rhs_span: Span,
    p: PrimTy,
)
    requires
        op is Add || op is Sub || op is Mul || op is Div || op is Pow,
        !(p is Int || p is Float),
        g.impls == builtin_heads(),
    ensures
        ({
            let (m2, t) = binop_m(g, m, span, op, lhs_span, rhs_span, STy::Prim(p), STy::Prim(p));
            &&& t == STy::Prim(p)
            &&& m2.diags.len() == m.diags.len() + 1
            &&& m2.diags.last() matches crate::check::model::IErr::MissingImpl { span: sp, trait_, ty }
                && sp == span && Some(trait_) == crate::check::traits::binop_trait(op) && ty == STy::Prim(p)
        }),
{
    assert(apply(STy::Prim(p), m.tys, g.effs) == STy::Prim(p));
}


/// Some arm of `arms` is the constructor pattern named `name`.
pub open spec fn arm_names(arms: Seq<crate::ast::MatchArm>, name: Seq<char>) -> bool {
    exists|k: int| 0 <= k < arms.len() && ((#[trigger] arms[k]).pattern.node matches crate::ast::PatternKind::Ctor {
        name: n,
        ..
    } && n@ == name)
}

/// The variants a match misses are exactly the declared variants that no
/// arm names by a constructor pattern.
pub proof fn missing_are_unnamed(vs: Seq<crate::check::registry::VariantInfo>, arms: Seq<crate::ast::MatchArm>, name: Seq<char>)
    ensures
        crate::check::exhaust::missing_variants(vs, arms).contains(name) <==> (exists|i: int|
            0 <= i < vs.len() && (#[trigger] vs[i]).name@ == name) && !arm_names(arms, name),
    decreases vs.len(),
{
    if vs.len() > 0 {
        missing_are_unnamed(vs.drop_last(), arms, name);
        let prev = crate::check::exhaust::missing_variants(vs.drop_last(), arms);
        let cur = crate::check::exhaust::missing_variants(vs, arms);
        assert(crate::check::exhaust::covers(arms, vs.last().name@) == arm_names(arms, vs.last().name@));
        if exists|i: int| 0 <= i < vs.len() && (#[trigger] vs[i]).name@ == name {
            let i = choose|i: int| 0 <= i < vs.len() && (#[trigger] vs[i]).name@ == name;
            if i < vs.len() - 1 {
                assert(vs.drop_last()[i] == vs[i]);
            }
        }
        if exists|i: int| 0 <= i < vs.len() - 1 && (#[trigger] vs.drop_last()[i]).name@ == name {
            let i = choose|i: int| 0 <= i < vs.len() - 1 && (#[trigger] vs.drop_last()[i]).name@ == name;
            assert(vs[i] == vs.drop_last()[i]);
        }
        if cur != prev {
            assert(cur == prev.push(vs.last().name@));
            if cur.contains(name) && !prev.contains(name) {
                let j = choose|j: int| 0 <= j < cur.len() && cur[j] == name;
                assert(j == prev.len());
            }
            if prev.contains(name) {
                let j = choose|j: int| 0 <= j < prev.len() && prev[j] == name;
                assert(cur[j] == name);
            }
            assert(cur[prev.len() as int] == vs.last().name@);
        }
    }
}

} // verus!
