//! Generalisation: once a top-level binding is checked, its type is
//! quantified over the variables that no other binding's type holds, and
//! the obligations met so far are settled against that.
use vstd::prelude::*;
use crate::ast::{Decl, DeclKind};
use crate::check::infer::{def_named, find_def_named, lemma_def_named, pend_v};
use crate::check::model::{lacks_impl, report_m, IEnv, IErr, IState};
use crate::check::registry::{TypeHead, TypeRegistry};
use crate::check::traits::TraitId;
use crate::check::types::{copy_ty, stys, STy, Scheme, Subst, Ty};
use crate::check::unify::{apply, apply_subst};
use crate::resolve::types::{DefId, Resolution};
use crate::span::Span;
use crate::error::{Error, ErrorKind};
use crate::check::infer::{grows, lemma_grows_refl, lemma_grows_trans, Infer};
use crate::check::model::cons_v;
use crate::check::types::Constraint;

verus! {

/// The variables of a type, in order of appearance, with repeats.
pub open spec fn ty_vars(t: STy) -> Seq<u32>
    decreases t, 0nat,
{
    match t {
        STy::Var(v) => seq![v],
        STy::Prim(_) => seq![],
        STy::Con(_, args) => tys_vars(args),
        STy::Fun(ps, _, r) => tys_vars(ps) + ty_vars(*r),
    }
}

pub open spec fn tys_vars(ts: Seq<STy>) -> Seq<u32>
    decreases ts, 1nat,
{
    if ts.len() == 0 {
        seq![]
    } else {
        tys_vars(ts.drop_last()) + ty_vars(ts.last())
    }
}

/// The variables among `vs` that `bound` does not hold, in order.
pub open spec fn unbound(vs: Seq<u32>, bound: Seq<u32>) -> Seq<u32>
    decreases vs.len(),
{
    if vs.len() == 0 {
        seq![]
    } else if bound.contains(vs.last()) {
        unbound(vs.drop_last(), bound)
    } else {
        unbound(vs.drop_last(), bound).push(vs.last())
    }
}

/// The variables that the scheme `sc` leaves free, the bindings `tys`
/// applied to its type.
pub open spec fn free_of(sc: (Seq<u32>, STy), tys: Seq<(u32, STy)>) -> Seq<u32> {
    unbound(ty_vars(apply(sc.1, tys, seq![])), sc.0)
}

/// The variables that the types of the other bindings with values among the
/// first `n` declarations leave free: those that generalising `id` keeps.
pub open spec fn held_seq(
    res: Resolution,
    decls: Seq<Decl>,
    sch: Map<DefId, (Seq<u32>, STy)>,
    id: DefId,
    tys: Seq<(u32, STy)>,
    n: int,
) -> Seq<u32>
    decreases n,
{
    if n <= 0 || n > decls.len() {
        seq![]
    } else {
        let h = held_seq(res, decls, sch, id, tys, n - 1);
        match decls[n - 1].node {
            DeclKind::Binding { name, value: Some(_), .. } => {
                let k = def_named(res.defs@, name@);
                if k >= 0 && res.defs@[k].id != id && sch.contains_key(res.defs@[k].id) {
                    h + free_of(sch[res.defs@[k].id], tys)
                } else {
                    h
                }
            },
            _ => h,
        }
    }
}

/// The variables among `vs` that `held` does not hold, each once, in order
/// of first appearance.
pub open spec fn gen_of(vs: Seq<u32>, held: Seq<u32>) -> Seq<u32>
    decreases vs.len(),
{
    if vs.len() == 0 {
        seq![]
    } else {
        let g = gen_of(vs.drop_last(), held);
        if held.contains(vs.last()) || g.contains(vs.last()) {
            g
        } else {
            g.push(vs.last())
        }
    }
}

/// Settling the obligations `ps`, the bindings of `m` applied: one on a
/// variable that is generalised becomes a constraint of the scheme; one on
/// a variable that another binding holds waits; one on any other variable
/// is ambiguous; one on a known type is met by an impl or reported missing.
/// The diagnostics, the scheme's constraints and the obligations that wait.
pub open spec fn settle(
    g: IEnv,
    m: IState,
    gen: Seq<u32>,
    held: Seq<u32>,
    ps: Seq<(TraitId, STy, Span)>,
) -> (IState, Seq<(TraitId, STy)>, Seq<(TraitId, STy, Span)>)
    decreases ps.len(),
{
    if ps.len() == 0 {
        (m, seq![], seq![])
    } else {
        let (m1, cs, kept) = settle(g, m, gen, held, ps.drop_last());
        let (tr, t, span) = ps.last();
        let r = apply(t, m.tys, g.effs);
        match r {
            STy::Var(v) => if gen.contains(v) {
                (m1, cs.push((tr, r)), kept)
            } else if held.contains(v) {
                (m1, cs, kept.push((tr, t, span)))
            } else {
                (report_m(m1, IErr::Ambiguous { span, trait_: tr }), cs, kept)
            },
            _ => if lacks_impl(g.impls, tr, r) {
                (report_m(m1, IErr::MissingImpl { span, trait_: tr, ty: r }), cs, kept)
            } else {
                (m1, cs, kept)
            },
        }
    }
}

/// The obligations left when the file is checked, each reported ambiguous.
pub open spec fn ambiguous(ps: Seq<(TraitId, STy, Span)>) -> Seq<IErr> {
    ps.map_values(|p: (TraitId, STy, Span)| IErr::Ambiguous { span: p.2, trait_: p.0 })
}

fn collect_vars(t: &Ty, out: &mut Vec<u32>)
    ensures
        final(out)@ == old(out)@ + ty_vars(t@),
    decreases t, 0nat,
{
    match t {
        Ty::Var(v) => {
            out.push(v.0);
        },
        Ty::Prim(_) => {
            assert(old(out)@ + ty_vars(t@) =~= old(out)@);
        },
        Ty::Con(_, args) => collect_vars_all(args, out),
        Ty::Fun(ps, _, r) => {
            collect_vars_all(ps, out);
            collect_vars(r, out);
            assert(old(out)@ + ty_vars(t@) =~= old(out)@ + tys_vars(stys(ps@)) + ty_vars(r@));
        },
    }
}

fn collect_vars_all(ts: &Vec<Ty>, out: &mut Vec<u32>)
    ensures
        final(out)@ == old(out)@ + tys_vars(stys(ts@)),
    decreases ts, 1nat,
{
    let ghost o0 = out@;
    let mut i: usize = 0;
    while i < ts.len()
        invariant
            i <= ts@.len(),
            out@ == o0 + tys_vars(stys(ts@.take(i as int))),
        decreases ts@.len() - i,
    {
        collect_vars(&ts[i], out);
        proof {
            assert(ts@.take(i + 1).drop_last() =~= ts@.take(i as int));
            assert(stys(ts@.take(i + 1)) == stys(ts@.take(i as int)).push(ts@[i as int]@));
            assert(stys(ts@.take(i + 1)).drop_last() =~= stys(ts@.take(i as int)));
            assert(out@ =~= o0 + tys_vars(stys(ts@.take(i + 1))));
        }
        i = i + 1;
    }
    assert(ts@.take(ts@.len() as int) =~= ts@);
}

fn has_var(vs: &Vec<u32>, v: u32) -> (r: bool)
    ensures
        r == vs@.contains(v),
{
    let mut i: usize = 0;
    while i < vs.len()
        invariant
            i <= vs@.len(),
            forall|j: int| 0 <= j < i ==> vs@[j] != v,
        decreases vs@.len() - i,
    {
        if vs[i] == v {
            return true;
        }
        i = i + 1;
    }
    false
}

fn has_id(vs: &Vec<crate::check::types::TyVarId>, v: u32) -> (r: bool)
    ensures
        r == crate::check::infer::ids(vs@).contains(v),
{
    let mut i: usize = 0;
    while i < vs.len()
        invariant
            i <= vs@.len(),
            forall|j: int| 0 <= j < i ==> vs@[j].0 != v,
        decreases vs@.len() - i,
    {
        if vs[i].0 == v {
            assert(crate::check::infer::ids(vs@)[i as int] == v);
            return true;
        }
        i = i + 1;
    }
    false
}

/// The variables of `vs` that `bound` does not hold, appended to `out`.
fn push_unbound(vs: &Vec<u32>, bound: &Vec<crate::check::types::TyVarId>, out: &mut Vec<u32>)
    ensures
        final(out)@ == old(out)@ + unbound(vs@, crate::check::infer::ids(bound@)),
{
    let ghost o0 = out@;
    let mut i: usize = 0;
    while i < vs.len()
        invariant
            i <= vs@.len(),
            out@ == o0 + unbound(vs@.take(i as int), crate::check::infer::ids(bound@)),
        decreases vs@.len() - i,
    {
        proof { assert(vs@.take(i + 1).drop_last() =~= vs@.take(i as int)); }
        if !has_id(bound, vs[i]) {
            out.push(vs[i]);
        }
        proof { assert(out@ =~= o0 + unbound(vs@.take(i + 1), crate::check::infer::ids(bound@))); }
        i = i + 1;
    }
    assert(vs@.take(vs@.len() as int) =~= vs@);
}

/// The variables that the other bindings' schemes leave free.
pub(crate) fn held_vars(
    res: &Resolution,
    decls: &Vec<Decl>,
    schemes: &crate::assoc::AssocMap<DefId, Scheme>,
    id: DefId,
    subst: &Subst,
) -> (r: Vec<u32>)
    requires
        subst.wf(),
        subst.effs@.len() == 0,
    ensures
        r@ == held_seq(
            *res,
            decls@,
            crate::check::model::schemes_v(schemes@),
            id,
            subst.tys@,
            decls@.len() as int,
        ),
{
    let ghost sch = crate::check::model::schemes_v(schemes@);
    proof { assert(subst.effs@ =~= Seq::<(u32, crate::check::types::EffectRow)>::empty()); }
    let mut out: Vec<u32> = Vec::new();
    let mut i: usize = 0;
    while i < decls.len()
        invariant
            i <= decls@.len(),
            subst.wf(),
            subst.effs@ == Seq::<(u32, crate::check::types::EffectRow)>::empty(),
            sch == crate::check::model::schemes_v(schemes@),
            out@ == held_seq(*res, decls@, sch, id, subst.tys@, i as int),
        decreases decls@.len() - i,
    {
        match &decls[i].node {
            DeclKind::Binding { name, value: Some(_), .. } => {
                proof { lemma_def_named(res.defs@, name@); }
                match find_def_named(&res.defs, name.as_str()) {
                    Some(k) => {
                        let kid = res.defs[k].id;
                        if kid != id {
                            match schemes.get(&kid) {
                                Some(sc) => {
                                    let st = apply_subst(&sc.ty, subst);
                                    let mut vs: Vec<u32> = Vec::new();
                                    collect_vars(&st, &mut vs);
                                    proof {
                                        assert(vs@ =~= ty_vars(st@));
                                        assert(sch[kid] == crate::check::model::scheme_v(schemes@[kid]));
                                    }
                                    push_unbound(&vs, &sc.vars, &mut out);
                                },
                                None => {},
                            }
                        }
                    },
                    None => {},
                }
            },
            _ => {},
        }
        i = i + 1;
    }
    out
}

/// The variables among `vs` that `held` does not hold, each once.
pub(crate) fn gen_vars(vs: &Vec<u32>, held: &Vec<u32>) -> (r: Vec<u32>)
    ensures
        r@ == gen_of(vs@, held@),
{
    let mut out: Vec<u32> = Vec::new();
    let mut i: usize = 0;
    while i < vs.len()
        invariant
            i <= vs@.len(),
            out@ == gen_of(vs@.take(i as int), held@),
        decreases vs@.len() - i,
    {
        proof { assert(vs@.take(i + 1).drop_last() =~= vs@.take(i as int)); }
        if !has_var(held, vs[i]) && !has_var(&out, vs[i]) {
            out.push(vs[i]);
        }
        i = i + 1;
    }
    assert(vs@.take(vs@.len() as int) =~= vs@);
    out
}

/// The variables of `t`, in order of appearance.
pub(crate) fn vars_of(t: &Ty) -> (r: Vec<u32>)
    ensures
        r@ == ty_vars(t@),
{
    let mut out: Vec<u32> = Vec::new();
    collect_vars(t, &mut out);
    assert(out@ =~= ty_vars(t@));
    out
}

/// Whether the impls of `reg` lack one of `tr` for the type `r`.
pub(crate) fn lacks(reg: &TypeRegistry, tr: TraitId, r: &Ty) -> (b: bool)
    ensures
        b == lacks_impl(reg.impls@.dom(), tr, r@),
{
    match r {
        Ty::Prim(p) => !reg.impls.contains_key(&(tr, TypeHead::Prim(*p))),
        Ty::Con(id, _) => !reg.impls.contains_key(&(tr, TypeHead::Con(*id))),
        _ => false,
    }
}


/// Settles the pending obligations against the generalised variables
/// `gen` and the held ones `held`: gives the constraints of the scheme and
/// leaves pending the obligations that wait.
pub(crate) fn settle_pending(infer: &mut Infer, gen: &Vec<u32>, held: &Vec<u32>) -> (r: Vec<Constraint>)
    requires
        old(infer).subst.wf(),
    ensures
        grows(*old(infer), *final(infer)),
        final(infer).res == old(infer).res,
        final(infer).subst == old(infer).subst,
        final(infer).schemes == old(infer).schemes,
        final(infer).registry == old(infer).registry,
        final(infer).locals == old(infer).locals,
        final(infer).expr_types_view() == old(infer).expr_types_view(),
        final(infer).pattern_types_view() == old(infer).pattern_types_view(),
        ({
            let (m4, cs, kept) = settle(
                old(infer).env(),
                IState { pending: seq![], ..old(infer).state() },
                gen@,
                held@,
                old(infer).state().pending,
            );
            &&& final(infer).state() == (IState { pending: kept, ..m4 })
            &&& cons_v(r@) == cs
        }),
{
    let ghost s0 = *infer;
    let ghost g = s0.env();
    let ghost ps = s0.state().pending;
    let mut pend: Vec<(TraitId, Ty, Span)> = Vec::new();
    std::mem::swap(&mut pend, &mut infer.pending);
    let ghost s1 = *infer;
    proof {
        lemma_grows_refl(s0);
        assert(grows(s0, s1));
        assert(pend_v(s1.pending@) =~= Seq::<(TraitId, STy, Span)>::empty());
        assert(s1.state() == (IState { pending: seq![], ..s0.state() }));
    }
    let mut cs: Vec<Constraint> = Vec::new();
    let mut kept: Vec<(TraitId, Ty, Span)> = Vec::new();
    let mut j: usize = 0;
    while j < pend.len()
        invariant
            j <= pend@.len(),
            pend_v(pend@) == ps,
            g == s0.env(),
            infer.subst.wf(),
            grows(s0, *infer),
            infer.res == s0.res,
            infer.subst == s0.subst,
            infer.schemes == s0.schemes,
            infer.registry == s0.registry,
            infer.locals == s0.locals,
            infer.expr_types_view() == s0.expr_types_view(),
            infer.pattern_types_view() == s0.pattern_types_view(),
            pend_v(infer.pending@) == Seq::<(TraitId, STy, Span)>::empty(),
            ({
                let (m, c, k) = settle(g, IState { pending: seq![], ..s0.state() }, gen@, held@, ps.take(j as int));
                &&& infer.state() == m
                &&& cons_v(cs@) == c
                &&& pend_v(kept@) == k
            }),
        decreases pend@.len() - j,
    {
        let tr = pend[j].0;
        let span = pend[j].2;
        let r = apply_subst(&pend[j].1, &infer.subst);
        let ghost s2 = *infer;
        let ghost c0 = cs@;
        let ghost k0 = kept@;
        proof {
            assert(ps.take(j + 1).drop_last() =~= ps.take(j as int));
            assert(ps.take(j + 1).last() == ps[j as int]);
            assert(ps[j as int] == (tr, pend@[j as int].1@, span));
        }
        let is_var = match &r {
            Ty::Var(_) => true,
            _ => false,
        };
        if is_var {
            let v = match &r {
                Ty::Var(v) => v.0,
                _ => 0,
            };
            if has_var(gen, v) {
                cs.push(Constraint { trait_: tr, ty: r });
                proof { assert(cons_v(cs@) =~= cons_v(c0).push((tr, STy::Var(v)))); }
            } else if has_var(held, v) {
                kept.push((tr, copy_ty(&pend[j].1), span));
                proof { assert(pend_v(kept@) =~= pend_v(k0).push((tr, pend@[j as int].1@, span))); }
            } else {
                let mut name = String::new();
                crate::text::push_str(&mut name, tr.name());
                proof { assert(name@ =~= crate::check::traits::trait_name(tr)); }
                infer.report(
                    Error { span, kind: ErrorKind::AmbiguousConstraint { trait_name: name } },
                    Ghost(IErr::Ambiguous { span, trait_: tr }),
                );
                proof { lemma_grows_trans(s0, s2, *infer); }
            }
        } else if lacks(&infer.registry, tr, &r) {
            let mut name = String::new();
            crate::text::push_str(&mut name, tr.name());
            proof { assert(name@ =~= crate::check::traits::trait_name(tr)); }
            let ghost d = IErr::MissingImpl { span, trait_: tr, ty: r@ };
            let e = Error { span, kind: ErrorKind::MissingImpl { trait_name: name, ty: r.to_string() } };
            infer.report(e, Ghost(d));
            proof { lemma_grows_trans(s0, s2, *infer); }
        }
        j = j + 1;
    }
    proof { assert(ps.take(pend@.len() as int) =~= ps); }
    let ghost s3 = *infer;
    infer.pending = kept;
    proof {
        lemma_grows_refl(s3);
        assert(grows(s3, *infer));
        lemma_grows_trans(s0, s3, *infer);
    }
    cs
}


/// Reports each obligation still pending as ambiguous, and drops them.
pub(crate) fn report_leftover(infer: &mut Infer)
    requires
        old(infer).subst.wf(),
    ensures
        grows(*old(infer), *final(infer)),
        final(infer).res == old(infer).res,
        final(infer).subst == old(infer).subst,
        final(infer).schemes == old(infer).schemes,
        final(infer).registry == old(infer).registry,
        final(infer).expr_types_view() == old(infer).expr_types_view(),
        final(infer).pattern_types_view() == old(infer).pattern_types_view(),
        final(infer).state() == (IState {
            diags: old(infer).state().diags + ambiguous(old(infer).state().pending),
            pending: seq![],
            ..old(infer).state()
        }),
{
    let ghost s0 = *infer;
    let ghost ps = s0.state().pending;
    let mut pend: Vec<(TraitId, Ty, Span)> = Vec::new();
    std::mem::swap(&mut pend, &mut infer.pending);
    let ghost s1 = *infer;
    proof {
        lemma_grows_refl(s0);
        assert(grows(s0, s1));
        assert(pend_v(s1.pending@) =~= Seq::<(TraitId, STy, Span)>::empty());
        assert(s0.state().diags + ambiguous(ps.take(0)) =~= s0.state().diags);
    }
    let mut j: usize = 0;
    while j < pend.len()
        invariant
            j <= pend@.len(),
            pend_v(pend@) == ps,
            infer.subst.wf(),
            grows(s0, *infer),
            infer.res == s0.res,
            infer.subst == s0.subst,
            infer.schemes == s0.schemes,
            infer.registry == s0.registry,
            infer.expr_types_view() == s0.expr_types_view(),
            infer.pattern_types_view() == s0.pattern_types_view(),
            infer.state() == (IState {
                diags: s0.state().diags + ambiguous(ps.take(j as int)),
                pending: seq![],
                ..s0.state()
            }),
        decreases pend@.len() - j,
    {
        let tr = pend[j].0;
        let span = pend[j].2;
        let ghost s2 = *infer;
        let mut name = String::new();
        crate::text::push_str(&mut name, tr.name());
        proof { assert(name@ =~= crate::check::traits::trait_name(tr)); }
        infer.report(
            Error { span, kind: ErrorKind::AmbiguousConstraint { trait_name: name } },
            Ghost(IErr::Ambiguous { span, trait_: tr }),
        );
        proof {
            lemma_grows_trans(s0, s2, *infer);
            assert(ps[j as int].0 == tr && ps[j as int].2 == span);
            assert(ambiguous(ps.take(j + 1)) =~= ambiguous(ps.take(j as int)).push(IErr::Ambiguous { span, trait_: tr }));
            assert(s0.state().diags + ambiguous(ps.take(j + 1)) =~= (s0.state().diags + ambiguous(ps.take(j as int))).push(
                IErr::Ambiguous { span, trait_: tr },
            ));
        }
        j = j + 1;
    }
    proof { assert(ps.take(pend@.len() as int) =~= ps); }
}

/// The variables `vs`, as type variables.
pub(crate) fn to_ids(vs: &Vec<u32>) -> (r: Vec<crate::check::types::TyVarId>)
    ensures
        crate::check::infer::ids(r@) == vs@,
{
    let mut r: Vec<crate::check::types::TyVarId> = Vec::new();
    let mut i: usize = 0;
    while i < vs.len()
        invariant
            i <= vs@.len(),
            crate::check::infer::ids(r@) == vs@.take(i as int),
        decreases vs@.len() - i,
    {
        let ghost r0 = r@;
        r.push(crate::check::types::TyVarId(vs[i]));
        proof {
            assert(crate::check::infer::ids(r@) =~= crate::check::infer::ids(r0).push(vs@[i as int]));
            assert(vs@.take(i + 1) =~= vs@.take(i as int).push(vs@[i as int]));
        }
        i = i + 1;
    }
    proof { assert(vs@.take(vs@.len() as int) =~= vs@); }
    r
}

} // verus!
