pub mod types;
pub mod unify;
pub mod traits;
pub mod registry;
pub mod display;
pub mod exhaust;
pub mod infer;
pub mod laws;
pub mod model;
pub mod declare;
pub mod general;
pub mod methods;

use vstd::prelude::*;
use crate::ast::{Decl, DeclKind, File, Type, TypeKind};
use crate::error::Error;
use crate::resolve::types::{DefId, DefInfo, Resolution};
use crate::span::Span;
use infer::{def_named, steps, tmap, Infer};
use model::{diags_match, expr_infer, schemes_v, IEnv, IState};
pub use types::{
    Constraint, Effect, EffectRow, EffectSet, EffectVarId, PrimTy, Scheme, Subst, Ty, TyVarId, Typing,
};
use types::{copy_ty, STy};
use unify::apply;

verus! {

/// Declaration `j` of the file binds a value to a name that the resolution
/// defines as `id`.
pub open spec fn binds_value(file: File, res: Resolution, j: int, id: DefId) -> bool {
    match file.decls@[j].node {
        DeclKind::Binding { name, value: Some(_), .. } => {
            let k = def_named(res.defs@, name@);
            k >= 0 && res.defs@[k].id == id
        },
        _ => false,
    }
}

/// The state every inference starts from.
pub open spec fn initial_state() -> IState {
    IState {
        counter: 0,
        tys: seq![],
        diags: seq![],
        locals: Map::empty(),
        exprs: Map::empty(),
        pats: Map::empty(),
        pending: seq![],
    }
}

/// The type annotation of the binding named `name`: that of the first
/// binding of that name among `decls` that carries a type.
pub open spec fn annotation_of(decls: Seq<Decl>, name: Seq<char>) -> Option<crate::ast::Type>
    decreases decls.len(),
{
    if decls.len() == 0 {
        None
    } else {
        let before = annotation_of(decls.drop_last(), name);
        if before is Some {
            before
        } else {
            match decls.last().node {
                DeclKind::Binding { name: n, ty: Some(t), .. } => if n@ == name {
                    Some(t)
                } else {
                    None
                },
                _ => None,
            }
        }
    }
}

proof fn lemma_annotation_prefix(decls: Seq<Decl>, name: Seq<char>, k: int)
    requires
        0 <= k <= decls.len(),
        annotation_of(decls.take(k), name) is Some,
    ensures
        annotation_of(decls, name) == annotation_of(decls.take(k), name),
    decreases decls.len(),
{
    if k < decls.len() {
        assert(decls.drop_last().take(k) =~= decls.take(k));
        lemma_annotation_prefix(decls.drop_last(), name, k);
    } else {
        assert(decls.take(k) =~= decls);
    }
}

/// The type an annotation gives, unified with the value's type `t`; a
/// mismatch is reported at `span`.
pub open spec fn annotated_m(g: IEnv, m: IState, ann: Option<crate::ast::Type>, span: Span, t: STy) -> IState {
    match ann {
        None => m,
        Some(a) => {
            let (m1, at) = model::lower_m(g, m, a, seq![]);
            model::unify_m(g, m1, span, at, t)
        },
    }
}

/// The first binding of `name` among `decls` that carries a type, if any.
fn find_annotation<'b>(decls: &'b Vec<Decl>, name: &str) -> (r: Option<&'b crate::ast::Type>)
    ensures
        r matches Some(t) ==> annotation_of(decls@, name@) == Some(*t),
        r is None ==> annotation_of(decls@, name@) is None,
{
    let mut i: usize = 0;
    while i < decls.len()
        invariant
            i <= decls@.len(),
            annotation_of(decls@.take(i as int), name@) is None,
        decreases decls@.len() - i,
    {
        proof { assert(decls@.take(i + 1).drop_last() =~= decls@.take(i as int)); }
        match &decls[i].node {
            DeclKind::Binding { name: n, ty: Some(t), .. } => {
                if crate::text::str_eq(n.as_str(), name) {
                    proof { lemma_annotation_prefix(decls@, name@, i + 1); }
                    return Some(t);
                }
            },
            _ => {},
        }
        i = i + 1;
    }
    proof { assert(decls@.take(decls@.len() as int) =~= decls@); }
    None
}

/// The name a method declaration binds.
pub open spec fn method_name(d: Decl) -> Option<Seq<char>> {
    match d.node {
        DeclKind::Binding { name, .. } => Some(name@),
        _ => None,
    }
}

/// Some declaration of `methods` binds `m`.
pub open spec fn defines(methods: Seq<Decl>, m: Seq<char>) -> bool {
    exists|j: int| 0 <= j < methods.len() && #[trigger] method_name(methods[j]) == Some(m)
}

/// The methods among `req` that `methods` leave out, in order, each
/// reported at `span`.
pub open spec fn missing_methods(span: Span, tr: traits::TraitId, req: Seq<Seq<char>>, methods: Seq<Decl>) -> Seq<model::IErr>
    decreases req.len(),
{
    if req.len() == 0 {
        seq![]
    } else {
        let ds = missing_methods(span, tr, req.drop_last(), methods);
        if defines(methods, req.last()) {
            ds
        } else {
            ds.push(model::IErr::MissingMethod { span, trait_: tr, method: req.last() })
        }
    }
}

/// The methods of `methods` that trait `tr` does not have, in order, each
/// reported at its own span.
pub open spec fn unknown_methods(tr: traits::TraitId, methods: Seq<Decl>) -> Seq<model::IErr>
    decreases methods.len(),
{
    if methods.len() == 0 {
        seq![]
    } else {
        let ds = unknown_methods(tr, methods.drop_last());
        match method_name(methods.last()) {
            Some(n) => if traits::trait_methods(tr).contains(n) {
                ds
            } else {
                ds.push(model::IErr::UnknownMethod { span: methods.last().span, trait_: tr, method: n })
            },
            None => ds,
        }
    }
}

fn defines_method(methods: &Vec<Decl>, m: &str) -> (r: bool)
    ensures
        r == defines(methods@, m@),
{
    let mut j: usize = 0;
    while j < methods.len()
        invariant
            j <= methods@.len(),
            forall|q: int| 0 <= q < j ==> #[trigger] method_name(methods@[q]) != Some(m@),
        decreases methods@.len() - j,
    {
        match &methods[j].node {
            DeclKind::Binding { name, .. } => {
                if crate::text::str_eq(name.as_str(), m) {
                    assert(method_name(methods@[j as int]) == Some(m@));
                    return true;
                }
            },
            _ => {},
        }
        j = j + 1;
    }
    false
}

fn is_trait_method(tr: traits::TraitId, n: &str) -> (r: bool)
    ensures
        r == traits::trait_methods(tr).contains(n@),
{
    let names = tr.method_names();
    let mut j: usize = 0;
    while j < names.len()
        invariant
            j <= names@.len(),
            names@.len() == traits::trait_methods(tr).len(),
            forall|q: int| 0 <= q < names@.len() ==> #[trigger] names@[q]@ == traits::trait_methods(tr)[q],
            forall|q: int| 0 <= q < j ==> traits::trait_methods(tr)[q] != n@,
        decreases names@.len() - j,
    {
        if crate::text::str_eq(names[j], n) {
            assert(traits::trait_methods(tr)[j as int] == n@);
            return true;
        }
        j = j + 1;
    }
    false
}

/// Reports the methods of `tr` that `methods` leave out, at `span`, and then
/// the methods that `tr` does not have.
fn check_impl_methods(infer: &mut Infer, span: Span, tr: traits::TraitId, methods: &Vec<Decl>)
    requires
        old(infer).subst.wf(),
    ensures
        steps(*old(infer), *final(infer)),
        final(infer).state() == (IState {
            diags: old(infer).state().diags + missing_methods(span, tr, traits::trait_methods(tr), methods@)
                + unknown_methods(tr, methods@),
            ..old(infer).state()
        }),
{
    let ghost s0 = *infer;
    proof { infer::lemma_steps_refl(*infer); }
    let names = tr.method_names();
    let mut i: usize = 0;
    while i < names.len()
        invariant
            i <= names@.len(),
            names@.len() == traits::trait_methods(tr).len(),
            forall|q: int| 0 <= q < names@.len() ==> #[trigger] names@[q]@ == traits::trait_methods(tr)[q],
            infer.subst.wf(),
            steps(s0, *infer),
            infer.state() == (IState {
                diags: s0.state().diags + missing_methods(span, tr, traits::trait_methods(tr).take(i as int), methods@),
                ..s0.state()
            }),
        decreases names@.len() - i,
    {
        let ghost req = traits::trait_methods(tr).take(i + 1);
        proof { assert(req.drop_last() =~= traits::trait_methods(tr).take(i as int)); }
        let ghost s1 = *infer;
        if !defines_method(methods, names[i]) {
            let mut tn = String::new();
            crate::text::push_str(&mut tn, tr.name());
            let mut mn = String::new();
            crate::text::push_str(&mut mn, names[i]);
            proof {
                assert(tn@ =~= traits::trait_name(tr));
            }
            let ghost d = model::IErr::MissingMethod { span, trait_: tr, method: names@[i as int]@ };
            infer.report(Error { span, kind: crate::error::ErrorKind::MissingMethod { trait_name: tn, method: mn } }, Ghost(d));
            proof {
                infer::lemma_steps_trans(s0, s1, *infer);
                assert(s0.state().diags + missing_methods(span, tr, req, methods@) =~= (s0.state().diags
                    + missing_methods(span, tr, req.drop_last(), methods@)).push(d));
            }
        }
        i = i + 1;
    }
    proof { assert(traits::trait_methods(tr).take(names@.len() as int) =~= traits::trait_methods(tr)); }
    let ghost s2 = *infer;
    let mut k: usize = 0;
    while k < methods.len()
        invariant
            k <= methods@.len(),
            infer.subst.wf(),
            steps(s0, *infer),
            infer.state() == (IState {
                diags: s2.state().diags + unknown_methods(tr, methods@.take(k as int)),
                ..s2.state()
            }),
            s2.state() == (IState {
                diags: s0.state().diags + missing_methods(span, tr, traits::trait_methods(tr), methods@),
                ..s0.state()
            }),
        decreases methods@.len() - k,
    {
        let ghost ms = methods@.take(k + 1);
        proof { assert(ms.drop_last() =~= methods@.take(k as int)); }
        let ghost s1 = *infer;
        match &methods[k].node {
            DeclKind::Binding { name, .. } => {
                if !is_trait_method(tr, name.as_str()) {
                    let mut tn = String::new();
                    crate::text::push_str(&mut tn, tr.name());
                    let mut mn = String::new();
                    crate::text::push_str(&mut mn, name.as_str());
                    let mspan = methods[k].span;
                    let ghost d = model::IErr::UnknownMethod { span: mspan, trait_: tr, method: name@ };
                    infer.report(Error { span: mspan, kind: crate::error::ErrorKind::UnknownMethod { trait_name: tn, method: mn } }, Ghost(d));
                    proof {
                        infer::lemma_steps_trans(s0, s1, *infer);
                        assert(s2.state().diags + unknown_methods(tr, ms) =~= (s2.state().diags
                            + unknown_methods(tr, ms.drop_last())).push(d));
                    }
                }
            },
            _ => {},
        }
        k = k + 1;
    }
    proof {
        assert(methods@.take(methods@.len() as int) =~= methods@);
        assert(s0.state().diags + missing_methods(span, tr, traits::trait_methods(tr), methods@) + unknown_methods(tr, methods@)
            =~= s2.state().diags + unknown_methods(tr, methods@));
    }
}

/// The trait a name denotes, if any.
pub open spec fn trait_named(n: Seq<char>) -> Option<traits::TraitId> {
    if exists|t: traits::TraitId| traits::trait_name(t) == n {
        Some(choose|t: traits::TraitId| traits::trait_name(t) == n)
    } else {
        None
    }
}

/// The head that an impl's target names: a primitive type, or the first
/// definition of that name.
pub open spec fn target_head(defs: Seq<DefInfo>, t: Type) -> Option<registry::TypeHead> {
    match t.node {
        TypeKind::Named { name, .. } => match infer::prim_named(name@) {
            Some(p) => Some(registry::TypeHead::Prim(p)),
            None => if def_named(defs, name@) >= 0 {
                Some(registry::TypeHead::Con(defs[def_named(defs, name@)].id))
            } else {
                None
            },
        },
        _ => None,
    }
}

/// The name an impl's target is written with.
pub open spec fn target_name(t: Type) -> Seq<char> {
    match t.node {
        TypeKind::Named { name, .. } => name@,
        _ => seq![],
    }
}

/// Registering the impl declarations among the first `n` declarations, after
/// the built-in ones: the impls known and the diagnostics. An impl of a name
/// that no trait has is reported, and so is a second impl of one trait for
/// one type head; an impl whose target names nothing is passed over, since
/// resolution reports that name.
pub open spec fn impls_after(res: Resolution, decls: Seq<Decl>, n: int) -> (Set<(traits::TraitId, registry::TypeHead)>, Seq<model::IErr>)
    decreases n,
{
    if n <= 0 || n > decls.len() {
        (model::builtin_heads(), seq![])
    } else {
        let (known, ds) = impls_after(res, decls, n - 1);
        match decls[n - 1].node {
            DeclKind::ImplDecl { trait_name, target, methods } => match trait_named(trait_name@) {
                None => (known, ds.push(model::IErr::UnknownTrait { span: decls[n - 1].span, name: trait_name@ })),
                Some(tr) => {
                    let (k2, d2) = match target_head(res.defs@, target) {
                        None => (known, ds),
                        Some(h) => if known.contains((tr, h)) {
                            (known, ds.push(model::IErr::DuplicateImpl { span: decls[n - 1].span, trait_: tr, ty: target_name(target) }))
                        } else {
                            (known.insert((tr, h)), ds)
                        },
                    };
                    (k2, d2 + missing_methods(decls[n - 1].span, tr, traits::trait_methods(tr), methods@)
                        + unknown_methods(tr, methods@))
                },
            },
            _ => (known, ds),
        }
    }
}

/// The types that `decls` declare, once the impls are registered: each
/// declared type with its lowered body, each constructor linked to its type
/// and given its scheme.
pub open spec fn declared(res: Resolution, decls: Seq<Decl>) -> declare::Declared {
    declare::declare_m(
        declare::decl_env(res.defs@),
        IState { diags: impls_after(res, decls, decls.len() as int).1, ..initial_state() },
        decls,
        decls.len() as int,
    )
}

/// Before any value is checked, each binding with a value whose name the
/// resolution defines gets a fresh type variable as its monomorphic scheme,
/// so that a value may use a binding declared after it. Here the first `n`
/// declarations have been seen.
pub open spec fn seed_decls(res: Resolution, decls: Seq<Decl>, n: int) -> (Map<DefId, (Seq<u32>, STy)>, IState)
    decreases n,
{
    if n <= 0 || n > decls.len() {
        (declared(res, decls).schemes, declared(res, decls).state)
    } else {
        let (sch, m) = seed_decls(res, decls, n - 1);
        match decls[n - 1].node {
            DeclKind::Binding { name, value: Some(_), .. } => {
                let k = def_named(res.defs@, name@);
                if k >= 0 && !sch.contains_key(res.defs@[k].id) {
                    let (m1, t) = model::fresh_m(m);
                    (sch.insert(res.defs@[k].id, (seq![], t)), m1)
                } else {
                    (sch, m)
                }
            },
            _ => (sch, m),
        }
    }
}

/// The schemes found so far, their constraints, and the state of inference.
pub struct Checked {
    pub sch: Map<DefId, (Seq<u32>, STy)>,
    pub cons: Map<DefId, Seq<(traits::TraitId, STy)>>,
    pub m: IState,
}

/// No constraints on any of the schemes `sch`.
pub open spec fn no_cons(sch: Map<DefId, (Seq<u32>, STy)>) -> Map<DefId, Seq<(traits::TraitId, STy)>> {
    sch.map_values(|x: (Seq<u32>, STy)| Seq::<(traits::TraitId, STy)>::empty())
}

/// The environment in which methods are checked: the seeded schemes and
/// the declared types `types0`, before their methods are registered.
pub open spec fn methods_env(res: Resolution, decls: Seq<Decl>, types0: Map<DefId, registry::TypeDeclInfo>) -> IEnv {
    let (sch, _) = seed_decls(res, decls, decls.len() as int);
    IEnv {
        refs: res.refs@,
        defs: res.defs@,
        schemes: sch,
        types: types0,
        ctor_to_type: declared(res, decls).ctors,
        impls: impls_after(res, decls, decls.len() as int).0,
        effs: seq![],
        cons: no_cons(sch),
    }
}

/// The methods of the declared types, checked after seeding, and the state
/// after them.
pub open spec fn checked_methods(res: Resolution, decls: Seq<Decl>, types0: Map<DefId, registry::TypeDeclInfo>) -> (
    Seq<(DefId, Seq<methods::MethodEntry>)>,
    IState,
) {
    methods::methods_m(methods_env(res, decls, types0), seed_decls(res, decls, decls.len() as int).1, decls, decls.len() as int)
}

/// Generalising the binding `id` once its value is checked (state `m3`):
/// its type is quantified over the variables that no other binding's type
/// holds, and the pending obligations are settled against that.
pub open spec fn generalize(res: Resolution, decls: Seq<Decl>, g: IEnv, c: Checked, id: DefId, m3: IState) -> Checked {
    let t = apply(c.sch[id].1, m3.tys, seq![]);
    let held = general::held_seq(res, decls, c.sch, id, m3.tys, decls.len() as int);
    let gen = general::gen_of(general::ty_vars(t), held);
    let (m4, cs, kept) = general::settle(g, IState { pending: seq![], ..m3 }, gen, held, m3.pending);
    Checked { sch: c.sch.insert(id, (gen, t)), cons: c.cons.insert(id, cs), m: IState { pending: kept, ..m4 } }
}

/// Checking the first `n` declarations after seeding, the declared types
/// registered as `types`. Each binding's value is inferred, unified with
/// its annotation if it has one and with the variable of its scheme, and
/// the binding is then generalised.
pub open spec fn check_decls(
    res: Resolution,
    decls: Seq<Decl>,
    types0: Map<DefId, registry::TypeDeclInfo>,
    types: Map<DefId, registry::TypeDeclInfo>,
    n: int,
) -> Checked
    decreases n,
{
    if n <= 0 || n > decls.len() {
        let (sch, _) = seed_decls(res, decls, decls.len() as int);
        Checked { sch, cons: no_cons(sch), m: checked_methods(res, decls, types0).1 }
    } else {
        let c = check_decls(res, decls, types0, types, n - 1);
        match decls[n - 1].node {
            DeclKind::Binding { name, value: Some(v), .. } => {
                let k = def_named(res.defs@, name@);
                if k >= 0 {
                    let id = res.defs@[k].id;
                    let g = IEnv {
                        refs: res.refs@,
                        defs: res.defs@,
                        schemes: c.sch,
                        types,
                        ctor_to_type: declared(res, decls).ctors,
                        impls: impls_after(res, decls, decls.len() as int).0,
                        effs: seq![],
                        cons: c.cons,
                    };
                    let m0 = annotated_m(g, c.m, annotation_of(decls, name@), v.span, c.sch[id].1);
                    let (m1, t) = model::value_m(g, m0, v, apply(c.sch[id].1, m0.tys, seq![]));
                    let m3 = model::unify_m(g, m1, v.span, c.sch[id].1, t);
                    generalize(res, decls, g, c, id, m3)
                } else {
                    c
                }
            },
            _ => c,
        }
    }
}

/// The end of checking: each obligation still pending is ambiguous.
pub open spec fn finish(c: Checked) -> Checked {
    Checked {
        m: IState { diags: c.m.diags + general::ambiguous(c.m.pending), pending: seq![], ..c.m },
        ..c
    }
}

/// What checking the declarations `decls` gives, the declared types
/// registered as `types0` before their methods and as `types` after:
/// success exactly when no diagnostic is recorded, the errors those
/// diagnostics describe, and otherwise each scheme, with its variables and
/// constraints, and each recorded type with the final substitution applied.
pub open spec fn checked(
    res: Resolution,
    decls: Seq<Decl>,
    types0: Map<DefId, registry::TypeDeclInfo>,
    types: Map<DefId, registry::TypeDeclInfo>,
    r: Result<Typing, Vec<Error>>,
) -> bool {
    let c = finish(check_decls(res, decls, types0, types, decls.len() as int));
    let (sch, m) = (c.sch, c.m);
    &&& r is Ok <==> m.diags.len() == 0
    &&& r matches Err(errs) ==> diags_match(errs@, m.diags)
    &&& r matches Ok(t) ==> forall|id: DefId| #[trigger] t.schemes@.contains_key(id) <==> sch.contains_key(id)
    &&& r matches Ok(t) ==> forall|id: DefId| sch.contains_key(id) ==> (#[trigger] t.schemes@[id]).ty@ == apply(
        sch[id].1,
        m.tys,
        seq![],
    ) && infer::ids(t.schemes@[id].vars@) == sch[id].0
    &&& r matches Ok(t) ==> forall|id: DefId| sch.contains_key(id) ==> (#[trigger] t.schemes@[id]).constraints@.len()
        == c.cons[id].len() && forall|k: int| 0 <= k < c.cons[id].len() ==> (#[trigger] t.schemes@[id].constraints@[k]).trait_
        == c.cons[id][k].0 && t.schemes@[id].constraints@[k].ty@ == apply(c.cons[id][k].1, m.tys, seq![])
    &&& r matches Ok(t) ==> forall|s: Span| #[trigger] t.expr_types@.contains_key(s) <==> m.exprs.contains_key(s)
    &&& r matches Ok(t) ==> forall|s: Span| m.exprs.contains_key(s) ==> (#[trigger] t.expr_types@[s])@ == apply(
        m.exprs[s],
        m.tys,
        seq![],
    )
    &&& r matches Ok(t) ==> forall|s: Span| #[trigger] t.pattern_types@.contains_key(s) <==> m.pats.contains_key(s)
    &&& r matches Ok(t) ==> forall|s: Span| m.pats.contains_key(s) ==> (#[trigger] t.pattern_types@[s])@ == apply(
        m.pats[s],
        m.tys,
        seq![],
    )
}

/// Checks a file: registers its impls and its types, gives each
/// constructor its scheme, checks the methods of its types, then infers and
/// generalises a scheme for every top-level binding with a value, in order;
/// obligations never settled are ambiguous. Fails with the errors met, if
/// any.
pub fn check_file(file: &File, res: &Resolution) -> (r: Result<Typing, Vec<Error>>)
    ensures
        r matches Err(errs) ==> errs@.len() > 0,
        exists|types0: Map<DefId, registry::TypeDeclInfo>, types: Map<DefId, registry::TypeDeclInfo>|
            declare::types_match(types0, declared(*res, file.decls@).types) && declare::types_match(
                types,
                methods::with_methods(declared(*res, file.decls@).types, checked_methods(*res, file.decls@, types0).0),
            ) && #[trigger] checked(*res, file.decls@, types0, types, r),
{
    let mut infer = Infer::new(res);
    traits::seed_builtin_impls(&mut infer.registry);
    proof {
        assert forall|k: (traits::TraitId, registry::TypeHead)|
            infer.registry.impls@.dom().contains(k) <==> model::builtin_heads().contains(k) by {
            assert(infer.registry.impls@.contains_key((k.0, k.1)) == (k.1 matches registry::TypeHead::Prim(p)
                && traits::builtin_impl(k.0, p)));
        }
        assert(infer.registry.impls@.dom() =~= model::builtin_heads());
        assert(tmap(infer.locals@) =~= Map::<crate::resolve::types::LocalId, STy>::empty());
        assert(tmap(infer.expr_types@) =~= Map::<Span, STy>::empty());
        assert(tmap(infer.pattern_types@) =~= Map::<Span, STy>::empty());
        assert(infer.subst.tys@ =~= Seq::<(u32, STy)>::empty());
        assert(infer.diags@ =~= Seq::<model::IErr>::empty());
        assert(infer::pend_v(infer.pending@) =~= Seq::<(traits::TraitId, STy, Span)>::empty());
        assert(schemes_v(infer.schemes@) =~= Map::<DefId, (Seq<u32>, STy)>::empty());
    }
    let mut i: usize = 0;
    while i < file.decls.len()
        invariant
            i <= file.decls@.len(),
            infer.subst.wf(),
            infer.res == res,
            infer.subst.effs@.len() == 0,
            infer.registry.types@ == Map::<DefId, registry::TypeDeclInfo>::empty(),
            infer.registry.impls@.dom() == impls_after(*res, file.decls@, i as int).0,
            infer.registry.ctor_to_type@ == Map::<DefId, DefId>::empty(),
            diags_match(infer.errors@, infer.diags@),
            infer.state() == (IState { diags: impls_after(*res, file.decls@, i as int).1, ..initial_state() }),
            schemes_v(infer.schemes@) == Map::<DefId, (Seq<u32>, STy)>::empty(),
            infer.schemes@ == Map::<DefId, Scheme>::empty(),
        decreases file.decls@.len() - i,
    {
        match &file.decls[i].node {
            DeclKind::ImplDecl { trait_name, target, methods } => {
                let span = file.decls[i].span;
                match traits::TraitId::from_name(trait_name.as_str()) {
                    None => {
                        let mut n = String::new();
                        crate::text::push_str(&mut n, trait_name.as_str());
                        proof { assert(n@ =~= trait_name@); }
                        let ghost d = model::IErr::UnknownTrait { span, name: trait_name@ };
                        infer.report(Error { span, kind: crate::error::ErrorKind::UnknownTrait { name: n } }, Ghost(d));
                    },
                    Some(tr) => {
                        proof { assert(trait_named(trait_name@) == Some(tr)); }
                        let head = match &target.node {
                            TypeKind::Named { name, .. } => match infer::prim_of_name(name.as_str()) {
                                Some(p) => Some(registry::TypeHead::Prim(p)),
                                None => {
                                    proof { infer::lemma_def_named(res.defs@, name@); }
                                    match infer::find_def_named(&res.defs, name.as_str()) {
                                        Some(k) => Some(registry::TypeHead::Con(res.defs[k].id)),
                                        None => None,
                                    }
                                },
                            },
                            _ => None,
                        };
                        proof { infer::lemma_def_named(res.defs@, target_name(*target)); }
                        assert(head == target_head(res.defs@, *target));
                        match head {
                            Some(h) => {
                                if infer.registry.impls.contains_key(&(tr, h)) {
                                    let mut tn = String::new();
                                    crate::text::push_str(&mut tn, tr.name());
                                    let mut ty = String::new();
                                    match &target.node {
                                        TypeKind::Named { name, .. } => crate::text::push_str(&mut ty, name.as_str()),
                                        _ => {},
                                    }
                                    proof {
                                        assert(tn@ =~= traits::trait_name(tr));
                                        assert(ty@ =~= target_name(*target));
                                    }
                                    let ghost d = model::IErr::DuplicateImpl { span, trait_: tr, ty: target_name(*target) };
                                    infer.report(Error { span, kind: crate::error::ErrorKind::DuplicateImpl { trait_name: tn, ty } }, Ghost(d));
                                } else {
                                    infer.registry.impls.insert((tr, h), registry::ImplInfo { trait_: tr, head: h });
                                    proof {
                                        assert(infer.registry.impls@.dom() =~= impls_after(*res, file.decls@, i as int).0.insert((tr, h)));
                                    }
                                }
                            },
                            None => {},
                        }
                        check_impl_methods(&mut infer, span, tr, methods);
                    },
                }
            },
            _ => {},
        }
        i = i + 1;
    }
    proof {
        assert(infer.state() == (IState { diags: impls_after(*res, file.decls@, file.decls@.len() as int).1, ..initial_state() }));
        assert(schemes_v(infer.schemes@) =~= Map::<DefId, (Seq<u32>, STy)>::empty());
    }
    let ghost s_imp = infer;
    declare::declare_types(&mut infer, &file.decls);
    let ghost types = infer.registry.types;
    proof {
        assert(infer.subst.effs@ =~= Seq::<(u32, crate::check::types::EffectRow)>::empty());
    }
    let mut i: usize = 0;
    while i < file.decls.len()
        invariant
            i <= file.decls@.len(),
            infer.subst.wf(),
            infer.res == res,
            infer.subst.effs@.len() == 0,
            infer.registry.types == types,
            declare::types_match(types@, declared(*res, file.decls@).types),
            infer.registry.impls@.dom() == impls_after(*res, file.decls@, file.decls@.len() as int).0,
            infer.registry.ctor_to_type@ == declared(*res, file.decls@).ctors,
            diags_match(infer.errors@, infer.diags@),
            (schemes_v(infer.schemes@), infer.state()) == seed_decls(*res, file.decls@, i as int),
            declare::unconstrained(infer.schemes@),
            forall|id: DefId| (exists|j: int| 0 <= j < i && binds_value(*file, *res, j, id))
                ==> #[trigger] infer.schemes@.contains_key(id),
        decreases file.decls@.len() - i,
    {
        let decl = &file.decls[i];
        match &decl.node {
            DeclKind::Binding { name, value: Some(_), .. } => {
                proof { infer::lemma_def_named(res.defs@, name@); }
                match infer::find_def_named(&res.defs, name.as_str()) {
                    Some(k) => {
                        let id = res.defs[k].id;
                        proof { assert(binds_value(*file, *res, i as int, id)); }
                        if infer.schemes.get(&id).is_none() {
                            let ghost sch0 = infer.schemes@;
                            let v = infer.fresh();
                            let sc = Scheme { vars: Vec::new(), constraints: Vec::new(), ty: Ty::Var(v) };
                            proof {
                                assert(model::scheme_v(sc) == (Seq::<u32>::empty(), STy::Var(v.0))) by {
                                    assert(infer::ids(sc.vars@) =~= Seq::<u32>::empty());
                                }
                            }
                            infer.schemes.insert(id, sc);
                            proof {
                                assert(schemes_v(infer.schemes@) =~= schemes_v(sch0).insert(id, (Seq::<u32>::empty(), STy::Var(v.0))));
                                assert(declare::unconstrained(infer.schemes@));
                            }
                        }
                        proof {
                            assert forall|d: DefId| (exists|j: int| 0 <= j < i + 1 && binds_value(*file, *res, j, d))
                                implies #[trigger] infer.schemes@.contains_key(d) by {
                                let j = choose|j: int| 0 <= j < i + 1 && binds_value(*file, *res, j, d);
                                if j < i {
                                    assert(exists|j: int| 0 <= j < i && binds_value(*file, *res, j, d));
                                }
                            }
                        }
                    },
                    None => {
                        proof {
                            assert forall|d: DefId| !binds_value(*file, *res, i as int, d) by {}
                        }
                    },
                }
            },
            _ => {
                proof {
                    assert forall|d: DefId| !binds_value(*file, *res, i as int, d) by {}
                }
            },
        }
        i = i + 1;
    }
    proof {
        assert(model::cons_map(infer.schemes@) =~= no_cons(schemes_v(infer.schemes@))) by {
            assert forall|k: DefId| infer.schemes@.contains_key(k) implies model::cons_v(infer.schemes@[k].constraints@)
                =~= Seq::<(traits::TraitId, STy)>::empty() by {}
        }
        assert(infer.subst.effs@ =~= Seq::<(u32, crate::check::types::EffectRow)>::empty());
        assert(infer.env().schemes == methods_env(*res, file.decls@, types@).schemes);
        assert(infer.env().cons == methods_env(*res, file.decls@, types@).cons);
        assert(infer.env().types == methods_env(*res, file.decls@, types@).types);
        assert(infer.env().impls == methods_env(*res, file.decls@, types@).impls);
        assert(infer.env().ctor_to_type == methods_env(*res, file.decls@, types@).ctor_to_type);
        assert(infer.env() == methods_env(*res, file.decls@, types@));
    }
    methods::check_methods(&mut infer, &file.decls);
    let ghost types1 = infer.registry.types;
    proof {
        assert(infer.subst.effs@ =~= Seq::<(u32, crate::check::types::EffectRow)>::empty());
    }
    let mut i: usize = 0;
    while i < file.decls.len()
        invariant
            i <= file.decls@.len(),
            infer.subst.wf(),
            infer.res == res,
            infer.subst.effs@.len() == 0,
            infer.registry.types == types1,
            declare::types_match(types@, declared(*res, file.decls@).types),
            declare::types_match(
                types1@,
                methods::with_methods(declared(*res, file.decls@).types, checked_methods(*res, file.decls@, types@).0),
            ),
            infer.registry.impls@.dom() == impls_after(*res, file.decls@, file.decls@.len() as int).0,
            infer.registry.ctor_to_type@ == declared(*res, file.decls@).ctors,
            diags_match(infer.errors@, infer.diags@),
            ({
                let c = check_decls(*res, file.decls@, types@, types1@, i as int);
                &&& schemes_v(infer.schemes@) == c.sch
                &&& model::cons_map(infer.schemes@) == c.cons
                &&& infer.state() == c.m
            }),
            forall|id: DefId| (exists|j: int| 0 <= j < file.decls@.len() && binds_value(*file, *res, j, id))
                ==> #[trigger] infer.schemes@.contains_key(id),
        decreases file.decls@.len() - i,
    {
        let decl = &file.decls[i];
        match &decl.node {
            DeclKind::Binding { name, value: Some(value), .. } => {
                proof { infer::lemma_def_named(res.defs@, name@); }
                match infer::find_def_named(&res.defs, name.as_str()) {
                    Some(k) => {
                        let id = res.defs[k].id;
                        proof { assert(binds_value(*file, *res, i as int, id)); }
                        let own = match infer.schemes.get(&id) {
                            Some(sc) => copy_ty(&sc.ty),
                            None => Ty::Var(TyVarId(0)),
                        };
                        let ghost s0 = infer;
                        proof { infer::lemma_steps_refl(infer); }
                        match find_annotation(&file.decls, name.as_str()) {
                            Some(a) => {
                                let at = infer.lower_type(a);
                                let ghost s2 = infer;
                                infer.unify_or_report(value.span, &at, &own);
                                proof {
                                    infer::lemma_steps_trans(s0, s2, infer);
                                }
                            },
                            None => {},
                        }
                        let ghost s1 = infer;
                        proof {
                            assert(infer.subst.effs@ =~= Seq::<(u32, crate::check::types::EffectRow)>::empty());
                        }
                        let expected = unify::apply_subst(&own, &infer.subst);
                        let ty = infer.infer_value(value, &expected);
                        proof { infer::lemma_steps_trans(s0, s1, infer); }
                        let ghost s3 = infer;
                        infer.unify_or_report(value.span, &own, &ty);
                        proof {
                            infer::lemma_steps_trans(s0, s3, infer);
                            assert(schemes_v(infer.schemes@)[id] == model::scheme_v(infer.schemes@[id]));
                            assert(infer.subst.effs@ =~= Seq::<(u32, crate::check::types::EffectRow)>::empty());
                        }
                        let ghost s4 = infer;
                        let t = unify::apply_subst(&own, &infer.subst);
                        let held = general::held_vars(res, &file.decls, &infer.schemes, id, &infer.subst);
                        let tv = general::vars_of(&t);
                        let gen = general::gen_vars(&tv, &held);
                        proof {
                            assert(infer.env().effs =~= Seq::<(u32, crate::check::types::EffectRow)>::empty());
                        }
                        let cs = general::settle_pending(&mut infer, &gen, &held);
                        let ghost sch1 = infer.schemes@;
                        let ghost t_v = t@;
                        let ghost cs_v = cs@;
                        let sc = Scheme { vars: general::to_ids(&gen), constraints: cs, ty: t };
                        proof {
                            assert(model::scheme_v(sc) == (gen@, t_v));
                        }
                        infer.schemes.insert(id, sc);
                        proof {
                            infer::lemma_grows_trans(s0, s4, infer);
                            assert(schemes_v(infer.schemes@) =~= schemes_v(sch1).insert(id, (gen@, t_v)));
                            assert(model::cons_map(infer.schemes@) =~= model::cons_map(sch1).insert(id, model::cons_v(cs_v)));
                        }
                    },
                    None => {},
                }
            },
            _ => {},
        }
        i = i + 1;
    }
    general::report_leftover(&mut infer);
    proof {
        assert(infer.subst.effs@ =~= Seq::<(u32, crate::check::types::EffectRow)>::empty());
        let m = infer.state();
        assert forall|s: Span| #[trigger] m.exprs.contains_key(s) implies m.exprs[s] == infer.expr_types@[s]@ by {}
        assert forall|s: Span| #[trigger] m.pats.contains_key(s) implies m.pats[s] == infer.pattern_types@[s]@ by {}
        assert(m.diags.len() == infer.errors@.len());
    }
    let ghost reg_types = infer.registry.types@;
    let r = if infer.errors.len() == 0 {
        let ghost sc0 = infer.schemes@;
        let ghost tys = infer.subst.tys@;
        let t = infer.into_typing();
        proof {
            assert forall|id: DefId| sc0.contains_key(id) implies (#[trigger] t.schemes@[id]).ty@ == apply(
                sc0[id].ty@,
                tys,
                seq![],
            ) && infer::ids(t.schemes@[id].vars@) == infer::ids(sc0[id].vars@) by {
                assert(schemes_v(sc0)[id] == model::scheme_v(sc0[id]));
            }
            assert forall|id: DefId| sc0.contains_key(id) implies (#[trigger] t.schemes@[id]).constraints@.len()
                == model::cons_v(sc0[id].constraints@).len() && forall|k: int|
                0 <= k < model::cons_v(sc0[id].constraints@).len() ==> (#[trigger] t.schemes@[id].constraints@[k]).trait_
                == model::cons_v(sc0[id].constraints@)[k].0 && t.schemes@[id].constraints@[k].ty@ == apply(
                model::cons_v(sc0[id].constraints@)[k].1,
                tys,
                seq![],
            ) by {
                assert(model::cons_map(sc0)[id] == model::cons_v(sc0[id].constraints@));
            }
        }
        Ok(t)
    } else {
        let mut errs: Vec<Error> = Vec::new();
        std::mem::swap(&mut errs, &mut infer.errors);
        Err(errs)
    };
    proof {
        assert(checked(*res, file.decls@, types@, reg_types, r));
    }
    r
}

} // verus!
