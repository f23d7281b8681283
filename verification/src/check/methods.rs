//! Methods of declared types: each method's value is checked with `self`
//! of the type that declares it, and the method is registered with a
//! scheme over the type's parameters.
use vstd::prelude::*;
use crate::ast::{Decl, DeclKind, TypeBody, TypeMember};
use crate::check::declare::{copy_body, methods_view, type_view, types_match, var_tys, TypeView};
use crate::check::infer::{
    def_named, find_def_named, grows, ids, lemma_def_named, lemma_grows_refl, lemma_grows_trans, lemma_steps_refl,
    lemma_steps_trans, lemma_tmap_insert, steps, tmap, Infer,
};
use crate::check::model::{expr_infer, scheme_v, IEnv, IState};
use crate::check::registry::{MethodInfo, TypeDeclInfo};
use crate::check::types::{copy_ty, pure_row, stys, EffectRow, STy, Scheme, Ty, TyVarId};
use crate::check::unify::lemma_stys;
use crate::resolve::types::{DefId, ResolvedName};

verus! {

/// A method's entry: its name and its scheme.
pub type MethodEntry = (Seq<char>, (Seq<u32>, STy));

/// The methods among the first `n` members `ms` of a type whose type is
/// `self_ty` and whose parameters are `params`: `self`, bound at the
/// method's span, has type `self_ty`, and the method's scheme is over
/// `params`, a function from `self_ty` to the type of its value.
pub open spec fn member_methods_m(
    g: IEnv,
    m: IState,
    ms: Seq<TypeMember>,
    n: int,
    params: Seq<u32>,
    self_ty: STy,
) -> (IState, Seq<MethodEntry>)
    decreases n,
{
    if n <= 0 || n > ms.len() {
        (m, seq![])
    } else {
        let (m1, out) = member_methods_m(g, m, ms, n - 1, params, self_ty);
        match ms[n - 1] {
            TypeMember::Method(d) => match d.node {
                DeclKind::Binding { name, value: Some(v), .. } => {
                    let m2 = match g.refs.get(d.span) {
                        Some(ResolvedName::Local(lid)) => IState { locals: m1.locals.insert(lid, self_ty), ..m1 },
                        _ => m1,
                    };
                    let (m3, t) = expr_infer(g, m2, v);
                    (m3, out.push((name@, (params, STy::Fun(seq![self_ty], pure_row(), Box::new(t))))))
                },
                _ => (m1, out),
            },
            _ => (m1, out),
        }
    }
}

/// The type declared by a type declaration with a block of members, if the
/// resolution defines its name and it is registered in `g`.
pub open spec fn block_type(g: IEnv, d: Decl) -> Option<DefId> {
    match d.node {
        DeclKind::TypeDecl { name, body: TypeBody::Block(_), .. } => {
            let k = def_named(g.defs, name@);
            if k >= 0 && g.types.contains_key(g.defs[k].id) {
                Some(g.defs[k].id)
            } else {
                None
            }
        },
        _ => None,
    }
}

/// The members of a type declaration with a block.
pub open spec fn block_members(d: Decl) -> Seq<TypeMember> {
    match d.node {
        DeclKind::TypeDecl { body: TypeBody::Block(ms), .. } => ms@,
        _ => seq![],
    }
}

/// The methods of the first `n` declarations, checked in order: for each
/// registered type with a block, its methods.
pub open spec fn methods_m(g: IEnv, m: IState, decls: Seq<Decl>, n: int) -> (Seq<(DefId, Seq<MethodEntry>)>, IState)
    decreases n,
{
    if n <= 0 || n > decls.len() {
        (seq![], m)
    } else {
        let (found, m1) = methods_m(g, m, decls, n - 1);
        match block_type(g, decls[n - 1]) {
            Some(tid) => {
                let params = ids(g.types[tid].params@);
                let self_ty = STy::Con(tid.0, var_tys(params));
                let ms = block_members(decls[n - 1]);
                let (m2, out) = member_methods_m(g, m1, ms, ms.len() as int, params, self_ty);
                (found.push((tid, out)), m2)
            },
            None => (found, m1),
        }
    }
}

/// The types `ts` with the methods `found` registered, later entries for a
/// type replacing earlier ones.
pub open spec fn with_methods(ts: Map<DefId, TypeView>, found: Seq<(DefId, Seq<MethodEntry>)>) -> Map<DefId, TypeView>
    decreases found.len(),
{
    if found.len() == 0 {
        ts
    } else {
        let t = with_methods(ts, found.drop_last());
        let (tid, ms) = found.last();
        if t.contains_key(tid) {
            t.insert(tid, TypeView { methods: ms, ..t[tid] })
        } else {
            t
        }
    }
}

/// Checks the methods among `ms`, the members of the type `tid`.
fn check_member_methods(infer: &mut Infer, ms: &Vec<TypeMember>, params: &Vec<TyVarId>, tid: DefId) -> (r: Vec<MethodInfo>)
    requires
        old(infer).subst.wf(),
    ensures
        steps(*old(infer), *final(infer)),
        ({
            let self_ty = STy::Con(tid.0, var_tys(ids(params@)));
            (final(infer).state(), methods_view(r@)) == member_methods_m(
                old(infer).env(),
                old(infer).state(),
                ms@,
                ms@.len() as int,
                ids(params@),
                self_ty,
            )
        }),
{
    let ghost s0 = *infer;
    let ghost self_v = STy::Con(tid.0, var_tys(ids(params@)));
    proof { lemma_steps_refl(*infer); }
    let res = infer.res;
    let mut r: Vec<MethodInfo> = Vec::new();
    let mut i: usize = 0;
    while i < ms.len()
        invariant
            i <= ms@.len(),
            infer.subst.wf(),
            steps(s0, *infer),
            res == s0.res,
            infer.env() == s0.env(),
            self_v == STy::Con(tid.0, var_tys(ids(params@))),
            (infer.state(), methods_view(r@)) == member_methods_m(s0.env(), s0.state(), ms@, i as int, ids(params@), self_v),
        decreases ms@.len() - i,
    {
        match &ms[i] {
            TypeMember::Method(d) => match &d.node {
                DeclKind::Binding { name, value: Some(v), .. } => {
                    let ghost s1 = *infer;
                    let ghost r0 = r@;
                    let args = var_types_of(params);
                    let ghost args_v = args@;
                    let self_ty = Ty::Con(tid, args);
                    assert(self_ty@ == STy::Con(tid.0, stys(args_v)));
                    assert(self_ty@ == self_v);
                    match res.refs.get(&d.span) {
                        Some(ResolvedName::Local(lid)) => {
                            let ghost l0 = infer.locals@;
                            infer.locals.insert(*lid, copy_ty(&self_ty));
                            proof { lemma_tmap_insert(l0, *lid, self_ty); }
                        },
                        _ => {},
                    }
                    let ghost s2 = *infer;
                    proof {
                        lemma_grows_refl(s1);
                        assert(grows(s1, s2));
                        assert(steps(s1, s2));
                        lemma_steps_trans(s0, s1, s2);
                    }
                    let t = infer.infer_expr(v);
                    proof { lemma_steps_trans(s0, s2, *infer); }
                    let ps = vec![copy_ty(&self_ty)];
                    proof { lemma_stys(ps@); assert(stys(ps@) =~= seq![self_v]); }
                    let ghost t_v = t@;
                    let sc = Scheme { vars: copy_ids(params), constraints: Vec::new(), ty: Ty::Fun(ps, EffectRow::pure(), Box::new(t)) };
                    let mi = MethodInfo { name: name.clone(), scheme: sc };
                    proof {
                        assert(scheme_v(sc) == (ids(params@), STy::Fun(seq![self_v], pure_row(), Box::new(t_v))));
                    }
                    r.push(mi);
                    proof {
                        assert(ms@[i as int] == TypeMember::Method(*d));
                        assert(s1.env().refs == res.refs@);
                        assert(tmap(s2.locals@) == match res.refs@.get(d.span) {
                            Some(ResolvedName::Local(lid)) => tmap(s1.locals@).insert(lid, self_v),
                            _ => tmap(s1.locals@),
                        });
                        assert(s2.state() == match s0.env().refs.get(d.span) {
                            Some(ResolvedName::Local(lid)) => IState { locals: s1.state().locals.insert(lid, self_v), ..s1.state() },
                            _ => s1.state(),
                        });
                        assert(methods_view(r@) =~= methods_view(r0).push((name@, (ids(params@), STy::Fun(seq![self_v], pure_row(), Box::new(t_v))))));
                    }
                },
                _ => {},
            },
            _ => {},
        }
        i = i + 1;
    }
    r
}

fn copy_ids(v: &Vec<TyVarId>) -> (r: Vec<TyVarId>)
    ensures
        r@ == v@,
{
    let mut r: Vec<TyVarId> = Vec::new();
    let mut i: usize = 0;
    while i < v.len()
        invariant
            i <= v@.len(),
            r@ == v@.take(i as int),
        decreases v@.len() - i,
    {
        r.push(v[i]);
        assert(v@.take(i + 1) =~= v@.take(i as int).push(v@[i as int]));
        i = i + 1;
    }
    assert(v@.take(v@.len() as int) =~= v@);
    r
}

fn var_types_of(vs: &Vec<TyVarId>) -> (r: Vec<Ty>)
    ensures
        stys(r@) == var_tys(ids(vs@)),
{
    let mut r: Vec<Ty> = Vec::new();
    let mut i: usize = 0;
    while i < vs.len()
        invariant
            i <= vs@.len(),
            stys(r@) == var_tys(ids(vs@.take(i as int))),
        decreases vs@.len() - i,
    {
        let ghost r0 = r@;
        r.push(Ty::Var(vs[i]));
        proof {
            assert(r@.drop_last() =~= r0);
            assert(r@.last() == Ty::Var(vs@[i as int]));
            assert(crate::check::types::sty(r@.last()) == STy::Var(vs@[i as int].0));
            assert(stys(r@) == stys(r@.drop_last()).push(crate::check::types::sty(r@.last())));
            assert(var_tys(ids(vs@.take(i + 1))) =~= var_tys(ids(vs@.take(i as int))).push(STy::Var(vs@[i as int].0)));
        }
        i = i + 1;
    }
    proof { assert(vs@.take(vs@.len() as int) =~= vs@); }
    r
}


pub open spec fn found_view(l: Seq<(DefId, Vec<MethodInfo>)>) -> Seq<(DefId, Seq<MethodEntry>)> {
    l.map_values(|p: (DefId, Vec<MethodInfo>)| (p.0, methods_view(p.1@)))
}

/// Checks the methods of the declared types of `decls` and registers them
/// with their types.
pub(crate) fn check_methods(infer: &mut Infer, decls: &Vec<Decl>)
    requires
        old(infer).subst.wf(),
    ensures
        grows(*old(infer), *final(infer)),
        final(infer).res == old(infer).res,
        final(infer).schemes == old(infer).schemes,
        final(infer).registry.impls == old(infer).registry.impls,
        final(infer).registry.ctor_to_type == old(infer).registry.ctor_to_type,
        ({
            let (found, m) = methods_m(old(infer).env(), old(infer).state(), decls@, decls@.len() as int);
            &&& final(infer).state() == m
            &&& forall|ts: Map<DefId, TypeView>| types_match(old(infer).registry.types@, ts) ==> types_match(
                final(infer).registry.types@,
                with_methods(ts, found),
            )
        }),
{
    let ghost s0 = *infer;
    proof { lemma_steps_refl(*infer); }
    let res = infer.res;
    let mut found: Vec<(DefId, Vec<MethodInfo>)> = Vec::new();
    let mut i: usize = 0;
    while i < decls.len()
        invariant
            i <= decls@.len(),
            infer.subst.wf(),
            steps(s0, *infer),
            res == s0.res,
            infer.env() == s0.env(),
            (found_view(found@), infer.state()) == methods_m(s0.env(), s0.state(), decls@, i as int),
        decreases decls@.len() - i,
    {
        match &decls[i].node {
            DeclKind::TypeDecl { name, body: TypeBody::Block(ms), .. } => {
                proof { lemma_def_named(res.defs@, name@); }
                match find_def_named(&res.defs, name.as_str()) {
                    Some(k) => {
                        let tid = res.defs[k].id;
                        let params = match infer.registry.types.get(&tid) {
                            Some(info) => Some(copy_ids(&info.params)),
                            None => None,
                        };
                        match params {
                            Some(ps) => {
                                let ghost s1 = *infer;
                                let ghost f0 = found@;
                                let out = check_member_methods(infer, ms, &ps, tid);
                                proof { lemma_steps_trans(s0, s1, *infer); }
                                found.push((tid, out));
                                proof {
                                    assert(block_type(s0.env(), decls@[i as int]) == Some(tid));
                                    assert(block_members(decls@[i as int]) == ms@);
                                    assert(found_view(found@) =~= found_view(f0).push((tid, methods_view(out@))));
                                }
                            },
                            None => {
                                proof { assert(block_type(s0.env(), decls@[i as int]) is None); }
                            },
                        }
                    },
                    None => {},
                }
            },
            _ => {
                proof { assert(block_type(s0.env(), decls@[i as int]) is None); }
            },
        }
        i = i + 1;
    }
    let ghost fv = found_view(found@);
    let ghost s2 = *infer;
    let ghost t0 = infer.registry.types@;
    let mut j: usize = 0;
    let total = found.len();
    let ghost n = total as nat;
    proof { lemma_grows_refl(s2); }
    while found.len() > 0
        invariant
            n <= usize::MAX,
            found_view(found@) == fv.subrange(j as int, n as int),
            j + found@.len() == n,
            n == fv.len(),
            infer.subst.wf(),
            grows(s2, *infer),
            *infer == (Infer { registry: crate::check::registry::TypeRegistry { types: infer.registry.types, ..s2.registry }, ..s2 }),
            forall|ts: Map<DefId, TypeView>| types_match(t0, ts) ==> types_match(
                infer.registry.types@,
                with_methods(ts, fv.take(j as int)),
            ),
        decreases found@.len(),
    {
        let ghost fl = found@;
        let (tid, ms) = found.remove(0);
        proof {
            assert(found@ =~= fl.subrange(1, fl.len() as int));
            assert(found_view(fl)[0] == (tid, methods_view(ms@)));
            assert(fv.subrange(j as int, n as int)[0] == fv[j as int]);
            assert(fv[j as int] == (tid, methods_view(ms@)));
            assert(found_view(found@) =~= found_view(fl).subrange(1, fl.len() as int));
            assert(found_view(found@) =~= fv.subrange(j + 1, n as int));
            assert(fv.take(j + 1).drop_last() =~= fv.take(j as int));
        }
        let ghost s3 = *infer;
        let fresh = match infer.registry.types.get(&tid) {
            Some(info) => Some(TypeDeclInfo {
                def_id: info.def_id,
                name: info.name.clone(),
                params: copy_ids(&info.params),
                body: copy_body(&info.body),
                methods: ms,
            }),
            None => None,
        };
        match fresh {
            Some(ni) => {
                let ghost old_info = s3.registry.types@[tid];
                proof {
                    assert(type_view(ni) == TypeView { methods: methods_view(ni.methods@), ..type_view(old_info) });
                }
                infer.registry.types.insert(tid, ni);
                proof {
                    assert forall|ts: Map<DefId, TypeView>| types_match(t0, ts) implies types_match(
                        infer.registry.types@,
                        with_methods(ts, fv.take(j + 1)),
                    ) by {
                        let w = with_methods(ts, fv.take(j as int));
                        assert(types_match(s3.registry.types@, w));
                        assert(with_methods(ts, fv.take(j + 1)) == w.insert(tid, TypeView { methods: methods_view(ms@), ..w[tid] }));
                        assert(infer.registry.types@.dom() =~= w.insert(tid, TypeView { methods: methods_view(ms@), ..w[tid] }).dom());
                    }
                }
            },
            None => {
                proof {
                    assert forall|ts: Map<DefId, TypeView>| types_match(t0, ts) implies types_match(
                        infer.registry.types@,
                        with_methods(ts, fv.take(j + 1)),
                    ) by {
                        let w = with_methods(ts, fv.take(j as int));
                        assert(types_match(s3.registry.types@, w));
                        assert(!w.contains_key(tid));
                    }
                }
            },
        }
        proof {
            lemma_grows_refl(s2);
            assert(grows(s2, *infer));
        }
        j = j + 1;
    }
    proof {
        assert(fv.take(n as int) =~= fv);
        lemma_grows_trans(s0, s2, *infer);
    }
}

} // verus!
