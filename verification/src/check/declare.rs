//! Declared types: each type declaration is registered with its parameters
//! and its lowered body, and each variant's constructor gets a scheme built
//! from its payload.
use vstd::prelude::*;
use crate::ast::{Decl, DeclKind, TypeBody, TypeMember, VariantBody};
use crate::check::infer::{
    def_named, find_def_named, grows, ids, lemma_def_named, lemma_grows_refl, lemma_grows_trans, steps,
    Infer,
};
use crate::check::model::{field_views, fresh_m, lower_m, lowers_m, scheme_v, schemes_v, IEnv, IState};
use crate::check::registry::{FieldInfo, MethodInfo, PayloadShape, TypeDeclBody, TypeDeclInfo, VariantInfo};
use crate::check::types::{copy_ty, pure_row, sty, stys, EffectRow, STy, Scheme, Ty, TyVarId};
use crate::check::unify::lemma_stys;
use crate::resolve::types::{DefId, DefInfo};
use crate::text::str_eq;

verus! {

/// What a variant carries, as values.
pub enum PayloadView {
    Bare,
    Single(STy),
    Record(Seq<(Seq<char>, STy)>),
}

/// A variant, as values: its name, its constructor, its payload and the
/// type it builds.
pub struct VariantView {
    pub name: Seq<char>,
    pub ctor: DefId,
    pub payload: PayloadView,
    pub parent: DefId,
}

/// The body of a declared type, as values.
pub enum BodyView {
    Newtype(STy),
    Record(Seq<(Seq<char>, STy)>),
    Sum(Seq<VariantView>),
}

/// A declared type, as values, with the schemes of its methods.
pub struct TypeView {
    pub def_id: DefId,
    pub name: Seq<char>,
    pub params: Seq<u32>,
    pub body: BodyView,
    pub methods: Seq<(Seq<char>, (Seq<u32>, STy))>,
}

pub open spec fn methods_view(ms: Seq<MethodInfo>) -> Seq<(Seq<char>, (Seq<u32>, STy))> {
    ms.map_values(|mi: MethodInfo| (mi.name@, scheme_v(mi.scheme)))
}

pub open spec fn payload_view(p: PayloadShape) -> PayloadView {
    match p {
        PayloadShape::Bare => PayloadView::Bare,
        PayloadShape::Single(t) => PayloadView::Single(t@),
        PayloadShape::Record(fs) => PayloadView::Record(field_views(fs@)),
    }
}

pub open spec fn variant_view(v: VariantInfo) -> VariantView {
    VariantView { name: v.name@, ctor: v.ctor_def_id, payload: payload_view(v.payload), parent: v.parent }
}

pub open spec fn variant_views(vs: Seq<VariantInfo>) -> Seq<VariantView> {
    vs.map_values(|v: VariantInfo| variant_view(v))
}

pub open spec fn body_view(b: TypeDeclBody) -> BodyView {
    match b {
        TypeDeclBody::Newtype(t) => BodyView::Newtype(t@),
        TypeDeclBody::Record(fs) => BodyView::Record(field_views(fs@)),
        TypeDeclBody::Sum(vs) => BodyView::Sum(variant_views(vs@)),
    }
}

pub open spec fn type_view(i: TypeDeclInfo) -> TypeView {
    TypeView {
        def_id: i.def_id,
        name: i.name@,
        params: ids(i.params@),
        body: body_view(i.body),
        methods: methods_view(i.methods@),
    }
}

/// The registered types `types` are those that `ts` describe.
pub open spec fn types_match(types: Map<DefId, TypeDeclInfo>, ts: Map<DefId, TypeView>) -> bool {
    &&& types.dom() == ts.dom()
    &&& forall|k: DefId| #[trigger] types.contains_key(k) ==> type_view(types[k]) == ts[k]
}

/// The index of the first constructor definition named `n`, or -1.
pub open spec fn ctor_named(defs: Seq<DefInfo>, n: Seq<char>) -> int
    decreases defs.len(),
{
    if defs.len() == 0 {
        -1
    } else if ctor_named(defs.drop_last(), n) >= 0 {
        ctor_named(defs.drop_last(), n)
    } else if defs.last().name@ == n && defs.last().kind is Ctor {
        defs.len() - 1
    } else {
        -1
    }
}

proof fn lemma_ctor_named(defs: Seq<DefInfo>, n: Seq<char>)
    ensures
        -1 <= ctor_named(defs, n) < defs.len(),
        ctor_named(defs, n) >= 0 ==> defs[ctor_named(defs, n)].name@ == n && defs[ctor_named(defs, n)].kind is Ctor,
        forall|i: int|
            0 <= i < defs.len() && (ctor_named(defs, n) == -1 || i < ctor_named(defs, n))
                ==> !((#[trigger] defs[i]).name@ == n && defs[i].kind is Ctor),
    decreases defs.len(),
{
    if defs.len() > 0 {
        let d = defs.drop_last();
        lemma_ctor_named(d, n);
        assert forall|i: int|
            0 <= i < defs.len() && (ctor_named(defs, n) == -1 || i < ctor_named(defs, n))
                implies !((#[trigger] defs[i]).name@ == n && defs[i].kind is Ctor) by {
            if i < defs.len() - 1 {
                assert(defs[i] == d[i]);
            }
        }
    }
}

fn find_ctor_named(defs: &Vec<DefInfo>, n: &str) -> (r: Option<usize>)
    ensures
        r matches Some(i) ==> i as int == ctor_named(defs@, n@),
        r is None ==> ctor_named(defs@, n@) == -1,
{
    proof { lemma_ctor_named(defs@, n@); }
    let mut i: usize = 0;
    while i < defs.len()
        invariant
            i <= defs@.len(),
            forall|m: int| 0 <= m < i ==> !((#[trigger] defs@[m]).name@ == n@ && defs@[m].kind is Ctor),
            -1 <= ctor_named(defs@, n@) < defs@.len(),
            ctor_named(defs@, n@) >= 0 ==> defs@[ctor_named(defs@, n@)].name@ == n@
                && defs@[ctor_named(defs@, n@)].kind is Ctor,
            forall|m: int|
                0 <= m < defs@.len() && (ctor_named(defs@, n@) == -1 || m < ctor_named(defs@, n@))
                    ==> !((#[trigger] defs@[m]).name@ == n@ && defs@[m].kind is Ctor),
        decreases defs@.len() - i,
    {
        let is_ctor = match defs[i].kind {
            crate::resolve::types::DefKind::Ctor { .. } => true,
            _ => false,
        };
        if is_ctor && str_eq(defs[i].name.as_str(), n) {
            return Some(i);
        }
        i = i + 1;
    }
    None
}

/// The environment that lowering declared types reads: the definitions.
pub open spec fn decl_env(defs: Seq<DefInfo>) -> IEnv {
    IEnv {
        refs: Map::empty(),
        defs,
        schemes: Map::empty(),
        types: Map::empty(),
        ctor_to_type: Map::empty(),
        impls: Set::empty(),
        effs: seq![],
        cons: Map::empty(),
    }
}

/// Lowering reads only the definitions of its environment.
pub proof fn lemma_lower_defs(g1: IEnv, g2: IEnv, m: IState, t: crate::ast::Type, ctx: Seq<(String, TyVarId)>)
    requires
        g1.defs == g2.defs,
    ensures
        lower_m(g1, m, t, ctx) == lower_m(g2, m, t, ctx),
    decreases t, 0nat,
{
    match t.node {
        crate::ast::TypeKind::Named { args, .. } => {
            lemma_lowers_defs(g1, g2, m, args@, ctx);
        },
        crate::ast::TypeKind::Function { params, effect, result } => {
            let m0 = match effect {
                Some(crate::ast::EffectRow::Named(_)) => crate::check::model::report_m(
                    m,
                    crate::check::model::IErr::EffectsNotYet(t.span),
                ),
                _ => m,
            };
            lemma_lowers_defs(g1, g2, m0, params@, ctx);
            let (m1, _) = lowers_m(g1, m0, params@, ctx);
            lemma_lower_defs(g1, g2, m1, *result, ctx);
        },
        _ => {},
    }
}

pub proof fn lemma_lowers_defs(g1: IEnv, g2: IEnv, m: IState, ts: Seq<crate::ast::Type>, ctx: Seq<(String, TyVarId)>)
    requires
        g1.defs == g2.defs,
    ensures
        lowers_m(g1, m, ts, ctx) == lowers_m(g2, m, ts, ctx),
    decreases ts, 1nat,
{
    if ts.len() > 0 {
        lemma_lowers_defs(g1, g2, m, ts.drop_last(), ctx);
        let (m1, _) = lowers_m(g1, m, ts.drop_last(), ctx);
        lemma_lower_defs(g1, g2, m1, ts.last(), ctx);
    }
}

/// The field members among the first `n` of `ms`, their types lowered in
/// the scope `ctx` of the type's parameters.
pub open spec fn fields_m(g: IEnv, m: IState, ms: Seq<TypeMember>, n: int, ctx: Seq<(String, TyVarId)>) -> (IState, Seq<(Seq<char>, STy)>)
    decreases n,
{
    if n <= 0 || n > ms.len() {
        (m, seq![])
    } else {
        let (m1, fs) = fields_m(g, m, ms, n - 1, ctx);
        match ms[n - 1] {
            TypeMember::Field { name, ty } => {
                let (m2, t) = lower_m(g, m1, ty, ctx);
                (m2, fs.push((name@, t)))
            },
            _ => (m1, fs),
        }
    }
}

/// A variant's payload, lowered.
pub open spec fn payload_m(g: IEnv, m: IState, b: VariantBody, ctx: Seq<(String, TyVarId)>) -> (IState, PayloadView) {
    match b {
        VariantBody::Bare => (m, PayloadView::Bare),
        VariantBody::Single(t) => {
            let (m1, x) = lower_m(g, m, t, ctx);
            (m1, PayloadView::Single(x))
        },
        VariantBody::Fields(fs) => {
            let (m1, v) = fields_m(g, m, fs@, fs@.len() as int, ctx);
            (m1, PayloadView::Record(v))
        },
    }
}

/// The variants among the first `n` members of the type `tid`: those whose
/// name a constructor definition has.
pub open spec fn variants_m(
    g: IEnv,
    m: IState,
    ms: Seq<TypeMember>,
    n: int,
    ctx: Seq<(String, TyVarId)>,
    tid: DefId,
) -> (IState, Seq<VariantView>)
    decreases n,
{
    if n <= 0 || n > ms.len() {
        (m, seq![])
    } else {
        let (m1, vs) = variants_m(g, m, ms, n - 1, ctx, tid);
        match ms[n - 1] {
            TypeMember::Variant { name, body } => {
                let c = ctor_named(g.defs, name@);
                if c >= 0 {
                    let (m2, p) = payload_m(g, m1, body, ctx);
                    (m2, vs.push(VariantView { name: name@, ctor: g.defs[c].id, payload: p, parent: tid }))
                } else {
                    (m1, vs)
                }
            },
            _ => (m1, vs),
        }
    }
}

/// A fresh variable for each of the first `n` parameters, bound to its name.
pub open spec fn params_ctx_m(m: IState, ps: Seq<String>, n: int) -> (IState, Seq<(String, TyVarId)>)
    decreases n,
{
    if n <= 0 || n > ps.len() {
        (m, seq![])
    } else {
        let (m1, ctx) = params_ctx_m(m, ps, n - 1);
        let (m2, _) = fresh_m(m1);
        (m2, ctx.push((ps[n - 1], TyVarId(m1.counter))))
    }
}

pub open spec fn ctx_vars(ctx: Seq<(String, TyVarId)>) -> Seq<u32> {
    ctx.map_values(|p: (String, TyVarId)| p.1.0)
}

pub open spec fn var_tys(vs: Seq<u32>) -> Seq<STy> {
    vs.map_values(|v: u32| STy::Var(v))
}

/// The type of a constructor whose payload is `p` and which builds `result`.
pub open spec fn ctor_type(p: PayloadView, result: STy) -> STy {
    match p {
        PayloadView::Bare => result,
        PayloadView::Single(t) => STy::Fun(seq![t], pure_row(), Box::new(result)),
        PayloadView::Record(fs) => STy::Fun(
            fs.map_values(|f: (Seq<char>, STy)| f.1),
            pure_row(),
            Box::new(result),
        ),
    }
}

/// Each variant's constructor linked to the type it builds.
pub open spec fn ctor_links(cs: Map<DefId, DefId>, vs: Seq<VariantView>) -> Map<DefId, DefId>
    decreases vs.len(),
{
    if vs.len() == 0 {
        cs
    } else {
        ctor_links(cs, vs.drop_last()).insert(vs.last().ctor, vs.last().parent)
    }
}

/// Each variant's constructor given its scheme over the type's parameters.
pub open spec fn ctor_schemes(
    sch: Map<DefId, (Seq<u32>, STy)>,
    vs: Seq<VariantView>,
    params: Seq<u32>,
    result: STy,
) -> Map<DefId, (Seq<u32>, STy)>
    decreases vs.len(),
{
    if vs.len() == 0 {
        sch
    } else {
        ctor_schemes(sch, vs.drop_last(), params, result).insert(
            vs.last().ctor,
            (params, ctor_type(vs.last().payload, result)),
        )
    }
}

/// A block of members declares a sum type when it has a variant.
pub open spec fn has_variant(ms: Seq<TypeMember>) -> bool {
    exists|j: int| 0 <= j < ms.len() && #[trigger] ms[j] is Variant
}

/// What declaring types has produced: the types, the constructor links, the
/// constructor schemes and the state of inference.
pub struct Declared {
    pub types: Map<DefId, TypeView>,
    pub ctors: Map<DefId, DefId>,
    pub schemes: Map<DefId, (Seq<u32>, STy)>,
    pub state: IState,
}

/// Declaring one declaration: a type declaration whose name the resolution
/// defines is registered with a fresh variable per parameter; a block with
/// variants is a sum, one without a record of its fields.
pub open spec fn declare_decl(g: IEnv, d: Declared, decl: Decl) -> Declared {
    match decl.node {
        DeclKind::TypeDecl { name, params, body } => {
            let k = def_named(g.defs, name@);
            if k < 0 {
                d
            } else {
                let tid = g.defs[k].id;
                let (m1, ctx) = params_ctx_m(d.state, params@, params@.len() as int);
                let pv = ctx_vars(ctx);
                let self_ty = STy::Con(tid.0, var_tys(pv));
                match body {
                    TypeBody::Newtype(t) => {
                        let (m2, x) = lower_m(g, m1, t, ctx);
                        Declared {
                            types: d.types.insert(
                                tid,
                                TypeView { def_id: tid, name: name@, params: pv, body: BodyView::Newtype(x), methods: seq![] },
                            ),
                            state: m2,
                            ..d
                        }
                    },
                    TypeBody::Block(ms) => if has_variant(ms@) {
                        let (m2, vs) = variants_m(g, m1, ms@, ms@.len() as int, ctx, tid);
                        Declared {
                            types: d.types.insert(
                                tid,
                                TypeView { def_id: tid, name: name@, params: pv, body: BodyView::Sum(vs), methods: seq![] },
                            ),
                            ctors: ctor_links(d.ctors, vs),
                            schemes: ctor_schemes(d.schemes, vs, pv, self_ty),
                            state: m2,
                        }
                    } else {
                        let (m2, fs) = fields_m(g, m1, ms@, ms@.len() as int, ctx);
                        Declared {
                            types: d.types.insert(
                                tid,
                                TypeView { def_id: tid, name: name@, params: pv, body: BodyView::Record(fs), methods: seq![] },
                            ),
                            state: m2,
                            ..d
                        }
                    },
                }
            }
        },
        _ => d,
    }
}

/// Declaring the first `n` declarations, from the state `m0`.
pub open spec fn declare_m(g: IEnv, m0: IState, decls: Seq<Decl>, n: int) -> Declared
    decreases n,
{
    if n <= 0 || n > decls.len() {
        Declared { types: Map::empty(), ctors: Map::empty(), schemes: Map::empty(), state: m0 }
    } else {
        declare_decl(g, declare_m(g, m0, decls, n - 1), decls[n - 1])
    }
}


/// Lowers the types of the field members of `ms`.
fn lower_fields(infer: &mut Infer, ms: &Vec<TypeMember>, ctx: &Vec<(String, TyVarId)>) -> (r: Vec<FieldInfo>)
    requires
        old(infer).subst.wf(),
    ensures
        steps(*old(infer), *final(infer)),
        final(infer).locals == old(infer).locals,
        final(infer).expr_types_view() == old(infer).expr_types_view(),
        final(infer).pattern_types_view() == old(infer).pattern_types_view(),
        (final(infer).state(), field_views(r@)) == fields_m(
            decl_env(old(infer).res.defs@),
            old(infer).state(),
            ms@,
            ms@.len() as int,
            ctx@,
        ),
{
    let ghost s0 = *infer;
    let ghost g = decl_env(s0.res.defs@);
    proof { crate::check::infer::lemma_steps_refl(*infer); }
    let mut r: Vec<FieldInfo> = Vec::new();
    let mut i: usize = 0;
    while i < ms.len()
        invariant
            i <= ms@.len(),
            infer.subst.wf(),
            steps(s0, *infer),
            g == decl_env(s0.res.defs@),
            infer.locals == s0.locals,
            infer.expr_types_view() == s0.expr_types_view(),
            infer.pattern_types_view() == s0.pattern_types_view(),
            (infer.state(), field_views(r@)) == fields_m(g, s0.state(), ms@, i as int, ctx@),
        decreases ms@.len() - i,
    {
        match &ms[i] {
            TypeMember::Field { name, ty } => {
                let ghost s1 = *infer;
                let ghost r0 = r@;
                let t = infer.lower_type_in_scope(ty, ctx);
                proof {
                    lemma_lower_defs(s1.env(), g, s1.state(), *ty, ctx@);
                    crate::check::infer::lemma_steps_trans(s0, s1, *infer);
                }
                r.push(FieldInfo { name: name.clone(), ty: t });
                proof {
                    assert(field_views(r@) =~= field_views(r0).push((name@, t@)));
                }
            },
            _ => {},
        }
        i = i + 1;
    }
    r
}

/// Lowers a variant's payload.
fn lower_payload(infer: &mut Infer, b: &VariantBody, ctx: &Vec<(String, TyVarId)>) -> (r: PayloadShape)
    requires
        old(infer).subst.wf(),
    ensures
        steps(*old(infer), *final(infer)),
        final(infer).locals == old(infer).locals,
        final(infer).expr_types_view() == old(infer).expr_types_view(),
        final(infer).pattern_types_view() == old(infer).pattern_types_view(),
        (final(infer).state(), payload_view(r)) == payload_m(decl_env(old(infer).res.defs@), old(infer).state(), *b, ctx@),
{
    let ghost s0 = *infer;
    match b {
        VariantBody::Bare => {
            proof { crate::check::infer::lemma_steps_refl(*infer); }
            PayloadShape::Bare
        },
        VariantBody::Single(t) => {
            let x = infer.lower_type_in_scope(t, ctx);
            proof { lemma_lower_defs(s0.env(), decl_env(s0.res.defs@), s0.state(), *t, ctx@); }
            PayloadShape::Single(x)
        },
        VariantBody::Fields(fs) => PayloadShape::Record(lower_fields(infer, fs, ctx)),
    }
}

/// The field types of `fs`, in order.
fn field_types(fs: &Vec<FieldInfo>) -> (r: Vec<Ty>)
    ensures
        stys(r@) == field_views(fs@).map_values(|f: (Seq<char>, STy)| f.1),
{
    let mut r: Vec<Ty> = Vec::new();
    let mut i: usize = 0;
    while i < fs.len()
        invariant
            i <= fs@.len(),
            stys(r@) == field_views(fs@.take(i as int)).map_values(|f: (Seq<char>, STy)| f.1),
        decreases fs@.len() - i,
    {
        let ghost r0 = r@;
        r.push(copy_ty(&fs[i].ty));
        proof {
            assert(r@.drop_last() =~= r0);
            assert(field_views(fs@.take(i + 1)).map_values(|f: (Seq<char>, STy)| f.1) =~= field_views(
                fs@.take(i as int),
            ).map_values(|f: (Seq<char>, STy)| f.1).push(fs@[i as int].ty@));
        }
        i = i + 1;
    }
    proof { assert(fs@.take(fs@.len() as int) =~= fs@); }
    r
}

/// The type of a constructor with payload `p` that builds `result`.
fn ctor_ty(p: &PayloadShape, result: &Ty) -> (r: Ty)
    ensures
        r@ == ctor_type(payload_view(*p), result@),
{
    let rt = copy_ty(result);
    match p {
        PayloadShape::Bare => rt,
        PayloadShape::Single(t) => {
            let ps = vec![copy_ty(t)];
            proof { lemma_stys(ps@); assert(stys(ps@) =~= seq![t@]); }
            Ty::Fun(ps, EffectRow::pure(), Box::new(rt))
        },
        PayloadShape::Record(fs) => Ty::Fun(field_types(fs), EffectRow::pure(), Box::new(rt)),
    }
}

fn copy_vars(vs: &Vec<TyVarId>) -> (r: Vec<TyVarId>)
    ensures
        r@ == vs@,
{
    let mut r: Vec<TyVarId> = Vec::new();
    let mut i: usize = 0;
    while i < vs.len()
        invariant
            i <= vs@.len(),
            r@ == vs@.take(i as int),
        decreases vs@.len() - i,
    {
        r.push(vs[i]);
        proof { assert(r@ =~= vs@.take(i + 1)); }
        i = i + 1;
    }
    proof { assert(vs@.take(vs@.len() as int) =~= vs@); }
    r
}


/// No scheme of `m` has constraints.
pub open spec fn unconstrained(m: Map<DefId, Scheme>) -> bool {
    forall|k: DefId| m.contains_key(k) ==> #[trigger] m[k].constraints@.len() == 0
}

/// The frame that declaring keeps: everything but the counter, the
/// substitution's growth, the diagnostics, the schemes and the registry's
/// types and constructor links.
pub open spec fn keeps(a: Infer, b: Infer) -> bool {
    &&& grows(a, b)
    &&& b.res == a.res
    &&& b.registry.impls == a.registry.impls
    &&& b.locals == a.locals
    &&& b.expr_types_view() == a.expr_types_view()
    &&& b.pattern_types_view() == a.pattern_types_view()
}

/// Declares the variants among `ms`, the members of the type `tid` whose
/// parameters are `pvars`, bound by name in `ctx`; `self_ty` is the type
/// they build.
fn declare_variants(
    infer: &mut Infer,
    ms: &Vec<TypeMember>,
    ctx: &Vec<(String, TyVarId)>,
    tid: DefId,
    pvars: &Vec<TyVarId>,
    self_ty: &Ty,
) -> (r: Vec<VariantInfo>)
    requires
        old(infer).subst.wf(),
        unconstrained(old(infer).schemes@),
    ensures
        keeps(*old(infer), *final(infer)),
        unconstrained(final(infer).schemes@),
        final(infer).registry.types == old(infer).registry.types,
        (final(infer).state(), variant_views(r@)) == variants_m(
            decl_env(old(infer).res.defs@),
            old(infer).state(),
            ms@,
            ms@.len() as int,
            ctx@,
            tid,
        ),
        final(infer).registry.ctor_to_type@ == ctor_links(old(infer).registry.ctor_to_type@, variant_views(r@)),
        schemes_v(final(infer).schemes@) == ctor_schemes(
            schemes_v(old(infer).schemes@),
            variant_views(r@),
            ids(pvars@),
            self_ty@,
        ),
{
    let ghost s0 = *infer;
    let ghost g = decl_env(s0.res.defs@);
    proof { lemma_grows_refl(*infer); }
    let res = infer.res;
    let mut r: Vec<VariantInfo> = Vec::new();
    let mut i: usize = 0;
    while i < ms.len()
        invariant
            i <= ms@.len(),
            infer.subst.wf(),
            keeps(s0, *infer),
            res == s0.res,
            g == decl_env(s0.res.defs@),
            infer.registry.types == s0.registry.types,
            unconstrained(infer.schemes@),
            (infer.state(), variant_views(r@)) == variants_m(g, s0.state(), ms@, i as int, ctx@, tid),
            infer.registry.ctor_to_type@ == ctor_links(s0.registry.ctor_to_type@, variant_views(r@)),
            schemes_v(infer.schemes@) == ctor_schemes(schemes_v(s0.schemes@), variant_views(r@), ids(pvars@), self_ty@),
        decreases ms@.len() - i,
    {
        match &ms[i] {
            TypeMember::Variant { name, body } => {
                match find_ctor_named(&res.defs, name.as_str()) {
                    Some(c) => {
                        proof { lemma_ctor_named(res.defs@, name@); }
                        let cid = res.defs[c].id;
                        let ghost s1 = *infer;
                        let ghost r0 = r@;
                        let payload = lower_payload(infer, body, ctx);
                        let ghost s2 = *infer;
                        let ty = ctor_ty(&payload, self_ty);
                        let ghost sch0 = infer.schemes@;
                        let sc = Scheme { vars: copy_vars(pvars), constraints: Vec::new(), ty };
                        infer.registry.ctor_to_type.insert(cid, tid);
                        infer.schemes.insert(cid, sc);
                        let v = VariantInfo { name: name.clone(), ctor_def_id: cid, payload, parent: tid };
                        let ghost vv = variant_view(v);
                        r.push(v);
                        proof {
                            lemma_grows_refl(s2);
                            lemma_grows_trans(s0, s1, s2);
                            assert(grows(s2, *infer));
                            lemma_grows_trans(s0, s2, *infer);
                            assert(variant_views(r@) =~= variant_views(r0).push(vv));
                            assert(variant_views(r@).drop_last() =~= variant_views(r0));
                            assert(schemes_v(infer.schemes@) =~= schemes_v(sch0).insert(cid, scheme_v(sc)));
                        }
                    },
                    None => {},
                }
            },
            _ => {},
        }
        i = i + 1;
    }
    r
}

/// A fresh variable for each parameter, bound by name.
fn param_vars(infer: &mut Infer, ps: &Vec<String>) -> (r: (Vec<(String, TyVarId)>, Vec<TyVarId>))
    requires
        old(infer).subst.wf(),
    ensures
        steps(*old(infer), *final(infer)),
        final(infer).locals == old(infer).locals,
        final(infer).expr_types_view() == old(infer).expr_types_view(),
        final(infer).pattern_types_view() == old(infer).pattern_types_view(),
        (final(infer).state(), r.0@) == params_ctx_m(old(infer).state(), ps@, ps@.len() as int),
        ids(r.1@) == ctx_vars(r.0@),
{
    let ghost s0 = *infer;
    proof { crate::check::infer::lemma_steps_refl(*infer); }
    let mut ctx: Vec<(String, TyVarId)> = Vec::new();
    let mut vs: Vec<TyVarId> = Vec::new();
    let mut i: usize = 0;
    while i < ps.len()
        invariant
            i <= ps@.len(),
            infer.subst.wf(),
            steps(s0, *infer),
            infer.locals == s0.locals,
            infer.expr_types_view() == s0.expr_types_view(),
            infer.pattern_types_view() == s0.pattern_types_view(),
            (infer.state(), ctx@) == params_ctx_m(s0.state(), ps@, i as int),
            ids(vs@) == ctx_vars(ctx@),
        decreases ps@.len() - i,
    {
        let ghost s1 = *infer;
        let v = infer.fresh();
        proof {
            lemma_grows_refl(s1);
            assert(grows(s1, *infer));
            crate::check::infer::lemma_steps_trans(s0, s1, *infer);
        }
        let ghost c0 = ctx@;
        let ghost v0 = vs@;
        ctx.push((ps[i].clone(), v));
        vs.push(v);
        proof {
            assert(ids(vs@) =~= ids(v0).push(v.0));
            assert(ctx_vars(ctx@) =~= ctx_vars(c0).push(v.0));
        }
        i = i + 1;
    }
    (ctx, vs)
}

/// The variables `vs` as types.
fn var_types(vs: &Vec<TyVarId>) -> (r: Vec<Ty>)
    ensures
        stys(r@) == var_tys(ids(vs@)),
{
    let mut r: Vec<Ty> = Vec::new();
    let mut i: usize = 0;
    while i < vs.len()
        invariant
            i <= vs@.len(),
            stys(r@) == var_tys(ids(vs@.take(i as int))),
        decreases vs@.len() - i,
    {
        let ghost r0 = r@;
        r.push(Ty::Var(vs[i]));
        proof {
            assert(r@.drop_last() =~= r0);
            assert(r@.last() == Ty::Var(vs@[i as int]));
            assert(sty(r@.last()) == STy::Var(vs@[i as int].0));
            assert(stys(r@) == stys(r@.drop_last()).push(sty(r@.last())));
            assert(stys(r@) == stys(r0).push(STy::Var(vs@[i as int].0)));
            assert(var_tys(ids(vs@.take(i + 1))) =~= var_tys(ids(vs@.take(i as int))).push(STy::Var(vs@[i as int].0)));
        }
        i = i + 1;
    }
    proof { assert(vs@.take(vs@.len() as int) =~= vs@); }
    r
}

fn block_has_variant(ms: &Vec<TypeMember>) -> (r: bool)
    ensures
        r == has_variant(ms@),
{
    let mut i: usize = 0;
    while i < ms.len()
        invariant
            i <= ms@.len(),
            forall|j: int| 0 <= j < i ==> !(#[trigger] ms@[j] is Variant),
        decreases ms@.len() - i,
    {
        match &ms[i] {
            TypeMember::Variant { .. } => {
                assert(ms@[i as int] is Variant);
                return true;
            },
            _ => {},
        }
        i = i + 1;
    }
    false
}


/// Declares one declaration, `d` describing what was declared before it.
fn declare_type(infer: &mut Infer, decl: &Decl, Ghost(d): Ghost<Declared>)
    requires
        old(infer).subst.wf(),
        unconstrained(old(infer).schemes@),
        types_match(old(infer).registry.types@, d.types),
        old(infer).registry.ctor_to_type@ == d.ctors,
        schemes_v(old(infer).schemes@) == d.schemes,
        old(infer).state() == d.state,
    ensures
        keeps(*old(infer), *final(infer)),
        unconstrained(final(infer).schemes@),
        ({
            let d2 = declare_decl(decl_env(old(infer).res.defs@), d, *decl);
            &&& types_match(final(infer).registry.types@, d2.types)
            &&& final(infer).registry.ctor_to_type@ == d2.ctors
            &&& schemes_v(final(infer).schemes@) == d2.schemes
            &&& final(infer).state() == d2.state
        }),
{
    let ghost s0 = *infer;
    let ghost g = decl_env(s0.res.defs@);
    proof { lemma_grows_refl(*infer); }
    let res = infer.res;
    match &decl.node {
        DeclKind::TypeDecl { name, params, body } => {
            proof { lemma_def_named(res.defs@, name@); }
            match find_def_named(&res.defs, name.as_str()) {
                None => {},
                Some(k) => {
                    let tid = res.defs[k].id;
                    let (ctx, pvars) = param_vars(infer, params);
                    let ghost s1 = *infer;
                    let self_ty = Ty::Con(tid, var_types(&pvars));
                    let ghost pv = ids(pvars@);
                    let ghost types0 = infer.registry.types@;
                    let tbody = match body {
                        TypeBody::Newtype(t) => {
                            let x = infer.lower_type_in_scope(t, &ctx);
                            proof { lemma_lower_defs(s1.env(), g, s1.state(), *t, ctx@); }
                            TypeDeclBody::Newtype(x)
                        },
                        TypeBody::Block(ms) => {
                            if block_has_variant(ms) {
                                TypeDeclBody::Sum(declare_variants(infer, ms, &ctx, tid, &pvars, &self_ty))
                            } else {
                                TypeDeclBody::Record(lower_fields(infer, ms, &ctx))
                            }
                        },
                    };
                    let ghost s2 = *infer;
                    let info = TypeDeclInfo {
                        def_id: tid,
                        name: name.clone(),
                        params: pvars,
                        body: tbody,
                        methods: Vec::new(),
                    };
                    let ghost view = type_view(info);
                    proof { assert(methods_view(info.methods@) =~= Seq::<(Seq<char>, (Seq<u32>, STy))>::empty()); }
                    infer.registry.types.insert(tid, info);
                    proof {
                        lemma_grows_trans(s0, s1, s2);
                        lemma_grows_refl(s2);
                        assert(grows(s2, *infer));
                        lemma_grows_trans(s0, s2, *infer);
                        let d2 = declare_decl(g, d, *decl);
                        assert(view == d2.types[tid]);
                        assert(infer.registry.types@.dom() =~= d2.types.dom());
                    }
                },
            }
        },
        _ => {},
    }
}

/// Declares the types of `decls`, in order, on an empty registry.
pub(crate) fn declare_types(infer: &mut Infer, decls: &Vec<Decl>)
    requires
        old(infer).subst.wf(),
        old(infer).registry.types@ == Map::<DefId, TypeDeclInfo>::empty(),
        old(infer).registry.ctor_to_type@ == Map::<DefId, DefId>::empty(),
        old(infer).schemes@ == Map::<DefId, Scheme>::empty(),
    ensures
        keeps(*old(infer), *final(infer)),
        unconstrained(final(infer).schemes@),
        ({
            let d = declare_m(decl_env(old(infer).res.defs@), old(infer).state(), decls@, decls@.len() as int);
            &&& types_match(final(infer).registry.types@, d.types)
            &&& final(infer).registry.ctor_to_type@ == d.ctors
            &&& schemes_v(final(infer).schemes@) == d.schemes
            &&& final(infer).state() == d.state
        }),
{
    let ghost s0 = *infer;
    let ghost g = decl_env(s0.res.defs@);
    proof {
        lemma_grows_refl(*infer);
        assert(schemes_v(infer.schemes@) =~= Map::<DefId, (Seq<u32>, STy)>::empty());
        assert(infer.registry.types@.dom() =~= Map::<DefId, TypeView>::empty().dom());
    }
    let mut i: usize = 0;
    while i < decls.len()
        invariant
            i <= decls@.len(),
            infer.subst.wf(),
            keeps(s0, *infer),
            unconstrained(infer.schemes@),
            g == decl_env(s0.res.defs@),
            ({
                let d = declare_m(g, s0.state(), decls@, i as int);
                &&& types_match(infer.registry.types@, d.types)
                &&& infer.registry.ctor_to_type@ == d.ctors
                &&& schemes_v(infer.schemes@) == d.schemes
                &&& infer.state() == d.state
            }),
        decreases decls@.len() - i,
    {
        let ghost s1 = *infer;
        declare_type(infer, &decls[i], Ghost(declare_m(g, s0.state(), decls@, i as int)));
        proof { lemma_grows_trans(s0, s1, *infer); }
        i = i + 1;
    }
}


fn copy_fields(fs: &Vec<FieldInfo>) -> (r: Vec<FieldInfo>)
    ensures
        field_views(r@) == field_views(fs@),
{
    let mut r: Vec<FieldInfo> = Vec::new();
    let mut i: usize = 0;
    while i < fs.len()
        invariant
            i <= fs@.len(),
            field_views(r@) == field_views(fs@.take(i as int)),
        decreases fs@.len() - i,
    {
        let ghost r0 = r@;
        r.push(FieldInfo { name: fs[i].name.clone(), ty: copy_ty(&fs[i].ty) });
        proof {
            assert(field_views(r@) =~= field_views(r0).push((fs@[i as int].name@, fs@[i as int].ty@)));
            assert(field_views(fs@.take(i + 1)) =~= field_views(fs@.take(i as int)).push(
                (fs@[i as int].name@, fs@[i as int].ty@),
            ));
        }
        i = i + 1;
    }
    proof { assert(fs@.take(fs@.len() as int) =~= fs@); }
    r
}

fn copy_payload(p: &PayloadShape) -> (r: PayloadShape)
    ensures
        payload_view(r) == payload_view(*p),
{
    match p {
        PayloadShape::Bare => PayloadShape::Bare,
        PayloadShape::Single(t) => PayloadShape::Single(copy_ty(t)),
        PayloadShape::Record(fs) => PayloadShape::Record(copy_fields(fs)),
    }
}

fn copy_variants(vs: &Vec<VariantInfo>) -> (r: Vec<VariantInfo>)
    ensures
        variant_views(r@) == variant_views(vs@),
{
    let mut r: Vec<VariantInfo> = Vec::new();
    let mut i: usize = 0;
    while i < vs.len()
        invariant
            i <= vs@.len(),
            variant_views(r@) == variant_views(vs@.take(i as int)),
        decreases vs@.len() - i,
    {
        let ghost r0 = r@;
        let v = &vs[i];
        let c = VariantInfo { name: v.name.clone(), ctor_def_id: v.ctor_def_id, payload: copy_payload(&v.payload), parent: v.parent };
        proof { assert(variant_view(c) == variant_view(*v)); }
        r.push(c);
        proof {
            assert(variant_views(r@) =~= variant_views(r0).push(variant_view(vs@[i as int])));
            assert(variant_views(vs@.take(i + 1)) =~= variant_views(vs@.take(i as int)).push(variant_view(vs@[i as int])));
        }
        i = i + 1;
    }
    proof { assert(vs@.take(vs@.len() as int) =~= vs@); }
    r
}

/// A copy of a type's body with the same view.
pub(crate) fn copy_body(b: &TypeDeclBody) -> (r: TypeDeclBody)
    ensures
        body_view(r) == body_view(*b),
{
    match b {
        TypeDeclBody::Newtype(t) => TypeDeclBody::Newtype(copy_ty(t)),
        TypeDeclBody::Record(fs) => TypeDeclBody::Record(copy_fields(fs)),
        TypeDeclBody::Sum(vs) => TypeDeclBody::Sum(copy_variants(vs)),
    }
}

} // verus!
