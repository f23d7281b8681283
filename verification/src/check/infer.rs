use vstd::prelude::*;
use crate::assoc::AssocMap;
use crate::ast::{BinOp, Expr, ExprKind, MatchArm, FieldPat, KwArg, LitPat, Pattern, PatternKind, TypeKind, UnaryOp};
use crate::check::traits::TraitId;
use crate::check::registry::{FieldInfo, TypeDeclBody, TypeHead, TypeRegistry};
use crate::check::types::{
    copy_ty, copy_tys, Constraint, EffectRow, PrimTy, STy, Scheme, Subst, Ty, TyVarId, Typing, sty, stys,
};
use crate::check::unify::{
    apply, apply_subst, extends, lemma_extends_refl, lemma_extends_trans, lemma_stys, unify,
    unify_error_m, uerr_v, UnifyError,
};
use crate::check::model::{
    arm_infer, arms_infer, binop_m, block_item_m, block_m, construct_m, list_of_m, obligation_m,
    unify_all_m, unop_m, diags_match, expr_infer, exprs_infer, field_access_m,
    field_index, field_index_in, field_views, fresh_m, fresh_seq_m, ierr_is, instantiate_m,
    kw_has, kwarg_infer, kwargs_infer, lower_m, lowers_m, method_index, method_vars_m,
    missing_reports, params_m, report_m, unify_m, unknown_reports, update_m, update_reports,
    IEnv, IErr, IState,
};
use crate::error::{Error, ErrorKind};
use crate::resolve::types::{DefId, DefInfo, DefKind, LocalId, Resolution, ResolvedName};
use crate::span::Span;
use crate::text::{push_str, str_eq};

verus! {

// ---------------------------------------------------------------------------
// Parallel substitution of type parameters

/// The ids of a list of type variables.
pub open spec fn ids(vs: Seq<TyVarId>) -> Seq<u32> {
    vs.map_values(|v: TyVarId| v.0)
}

/// The position of the last `v` among the first `n` parameters, or -1.
pub open spec fn param_index(ps: Seq<u32>, n: int, v: u32) -> int
    decreases n,
{
    if n <= 0 {
        -1
    } else if ps[n - 1] == v {
        n - 1
    } else {
        param_index(ps, n - 1, v)
    }
}

proof fn lemma_param_index(ps: Seq<u32>, n: int, v: u32)
    requires
        0 <= n <= ps.len(),
    ensures
        -1 <= param_index(ps, n, v) < n,
        param_index(ps, n, v) >= 0 ==> ps[param_index(ps, n, v)] == v,
        forall|i: int| param_index(ps, n, v) < i < n ==> ps[i] != v,
    decreases n,
{
    if n > 0 {
        lemma_param_index(ps, n - 1, v);
    }
}

pub open spec fn pairs(ps: Seq<u32>, args: Seq<STy>) -> int {
    if ps.len() <= args.len() {
        ps.len() as int
    } else {
        args.len() as int
    }
}

/// Replaces, in one pass, each parameter `ps[i]` by `args[i]` (pairing
/// parameters and arguments up to the shorter list; of a repeated
/// parameter, the last pairing counts).
pub open spec fn psub(t: STy, ps: Seq<u32>, args: Seq<STy>) -> STy
    decreases t, 0nat,
{
    match t {
        STy::Var(v) => {
            let i = param_index(ps, pairs(ps, args), v);
            if i >= 0 {
                args[i]
            } else {
                t
            }
        },
        STy::Prim(p) => STy::Prim(p),
        STy::Con(id, xs) => STy::Con(id, psubs(xs, ps, args)),
        STy::Fun(xs, row, r) => STy::Fun(psubs(xs, ps, args), row, Box::new(psub(*r, ps, args))),
    }
}

pub open spec fn psubs(ts: Seq<STy>, ps: Seq<u32>, args: Seq<STy>) -> Seq<STy>
    decreases ts, 1nat,
{
    if ts.len() == 0 {
        Seq::empty()
    } else {
        psubs(ts.drop_last(), ps, args).push(psub(ts.last(), ps, args))
    }
}

fn param_position(params: &Vec<TyVarId>, n: usize, v: TyVarId) -> (r: Option<usize>)
    requires
        n <= params@.len(),
    ensures
        r matches Some(i) ==> i < n && i as int == param_index(ids(params@), n as int, v.0),
        r is None ==> param_index(ids(params@), n as int, v.0) == -1,
{
    proof { lemma_param_index(ids(params@), n as int, v.0); }
    let mut i: usize = n;
    while i > 0
        invariant
            i <= n <= params@.len(),
            forall|m: int| i <= m < n ==> ids(params@)[m] != v.0,
            -1 <= param_index(ids(params@), n as int, v.0) < n,
            param_index(ids(params@), n as int, v.0) >= 0 ==> ids(params@)[param_index(
                ids(params@),
                n as int,
                v.0,
            )] == v.0,
            forall|m: int| param_index(ids(params@), n as int, v.0) < m < n ==> ids(params@)[m] != v.0,
        decreases i,
    {
        assert(ids(params@)[i - 1] == params@[i - 1].0);
        if params[i - 1].0 == v.0 {
            return Some(i - 1);
        }
        i = i - 1;
    }
    None
}

/// Replaces each parameter by the argument at its position, in one pass.
pub fn subst_params(ty: &Ty, params: &Vec<TyVarId>, args: &Vec<Ty>) -> (r: Ty)
    ensures
        r@ == psub(ty@, ids(params@), stys(args@)),
    decreases ty, 0nat,
{
    proof { lemma_stys(args@); }
    match ty {
        Ty::Var(v) => {
            let n = if params.len() <= args.len() {
                params.len()
            } else {
                args.len()
            };
            match param_position(params, n, *v) {
                Some(i) => copy_ty(&args[i]),
                None => Ty::Var(*v),
            }
        },
        Ty::Prim(p) => Ty::Prim(*p),
        Ty::Con(id, xs) => Ty::Con(*id, subst_params_all(xs, params, args)),
        Ty::Fun(xs, row, r) => Ty::Fun(
            subst_params_all(xs, params, args),
            *row,
            Box::new(subst_params(r, params, args)),
        ),
    }
}

fn subst_params_all(ts: &Vec<Ty>, params: &Vec<TyVarId>, args: &Vec<Ty>) -> (r: Vec<Ty>)
    ensures
        stys(r@) == psubs(stys(ts@), ids(params@), stys(args@)),
    decreases ts, 1nat,
{
    let mut out: Vec<Ty> = Vec::new();
    let mut i: usize = 0;
    proof {
        lemma_stys(ts@);
    }
    while i < ts.len()
        invariant
            i <= ts@.len(),
            stys(ts@).len() == ts@.len(),
            forall|m: int| 0 <= m < ts@.len() ==> #[trigger] stys(ts@)[m] == ts@[m]@,
            stys(out@) == psubs(stys(ts@).take(i as int), ids(params@), stys(args@)),
        decreases ts@.len() - i,
    {
        proof {
            assert(decreases_to!(ts => ts@[i as int]));
        }
        let c = subst_params(&ts[i], params, args);
        let ghost prev = out@;
        out.push(c);
        proof {
            assert(out@.drop_last() =~= prev);
            assert(stys(ts@).take(i + 1).drop_last() =~= stys(ts@).take(i as int));
            assert(stys(ts@).take(i + 1).last() == ts@[i as int]@);
        }
        i = i + 1;
    }
    assert(stys(ts@).take(ts@.len() as int) =~= stys(ts@));
    out
}

// ---------------------------------------------------------------------------
// The inference state

/// The type a pattern has and the locals it binds, in order.
#[derive(Debug)]
pub struct PatternResult {
    pub ty: Ty,
    pub bindings: Vec<LocalId>,
}

/// The state of type inference over one file.
pub struct Infer<'a> {
    pub res: &'a Resolution,
    pub subst: Subst,
    pub locals: AssocMap<LocalId, Ty>,
    pub schemes: AssocMap<DefId, Scheme>,
    pub registry: TypeRegistry,
    pub errors: Vec<Error>,
    pub next_var: u32,
    pub expr_types: AssocMap<Span, Ty>,
    pub pattern_types: AssocMap<Span, Ty>,
    /// What the diagnostics in `errors` say, as values.
    pub diags: Ghost<Seq<IErr>>,
    /// Trait obligations on types not yet known, each with its span.
    pub pending: Vec<(TraitId, Ty, Span)>,
}

/// Pending obligations, as values.
pub open spec fn pend_v(p: Seq<(TraitId, Ty, Span)>) -> Seq<(TraitId, STy, Span)> {
    p.map_values(|c: (TraitId, Ty, Span)| (c.0, c.1@, c.2))
}

/// The types of a map, as values.
pub open spec fn tmap<K>(m: Map<K, Ty>) -> Map<K, STy> {
    m.map_values(|t: Ty| t@)
}

pub proof fn lemma_tmap_insert<K>(m: Map<K, Ty>, k: K, v: Ty)
    ensures
        tmap(m.insert(k, v)) == tmap(m).insert(k, v@),
{
    assert(tmap(m.insert(k, v)) =~= tmap(m).insert(k, v@));
}

/// `a` is a prefix of `b`.
pub open spec fn prefix<T>(a: Seq<T>, b: Seq<T>) -> bool {
    a.len() <= b.len() && b.take(a.len() as int) == a
}

/// `b` is a later state of the inference that started as `a`: same
/// resolution, an applicable substitution that only grew, the variable
/// counter only advanced, and errors only appended, each the one that the
/// diagnostic appended with it describes.
pub open spec fn grows(a: Infer, b: Infer) -> bool {
    &&& b.res == a.res
    &&& b.subst.wf()
    &&& extends(a.subst.tys@, b.subst.tys@)
    &&& b.subst.effs@ == a.subst.effs@
    &&& a.counter() <= b.counter()
    &&& prefix(a.errors@, b.errors@)
    &&& prefix(a.diags@, b.diags@)
    &&& b.errors@.len() - a.errors@.len() == b.diags@.len() - a.diags@.len()
    &&& forall|k: int| 0 <= k < b.errors@.len() - a.errors@.len() ==> ierr_is(
        #[trigger] b.errors@[a.errors@.len() + k],
        b.diags@[a.diags@.len() + k],
    )
    &&& diags_match(a.errors@, a.diags@) ==> diags_match(b.errors@, b.diags@)
}

pub proof fn lemma_grows_refl(a: Infer)
    requires
        a.subst.wf(),
    ensures
        grows(a, a),
{
    lemma_extends_refl(a.subst.tys@);
    assert(a.errors@.take(a.errors@.len() as int) =~= a.errors@);
    assert(a.diags@.take(a.diags@.len() as int) =~= a.diags@);
}

pub proof fn lemma_grows_trans(a: Infer, b: Infer, c: Infer)
    requires
        grows(a, b),
        grows(b, c),
    ensures
        grows(a, c),
{
    lemma_extends_trans(a.subst.tys@, b.subst.tys@, c.subst.tys@);
    assert(c.errors@.take(a.errors@.len() as int) =~= b.errors@.take(a.errors@.len() as int));
    assert(c.diags@.take(a.diags@.len() as int) =~= b.diags@.take(a.diags@.len() as int));
    let ea = a.errors@.len() as int;
    let eb = b.errors@.len() as int;
    let da = a.diags@.len() as int;
    let db = b.diags@.len() as int;
    assert forall|k: int| 0 <= k < c.errors@.len() - ea implies ierr_is(
        #[trigger] c.errors@[ea + k],
        c.diags@[da + k],
    ) by {
        if k < eb - ea {
            assert(c.errors@[ea + k] == c.errors@.take(eb)[ea + k]);
            assert(c.diags@[da + k] == c.diags@.take(db)[da + k]);
            assert(ierr_is(b.errors@[ea + k], b.diags@[da + k]));
        } else {
            let j = k - (eb - ea);
            assert(ierr_is(c.errors@[eb + j], c.diags@[db + j]));
        }
    }
}

/// The type variables `start`, `start + 1`, .. (`n` of them).
pub open spec fn fresh_vars(start: int, n: nat) -> Seq<STy> {
    Seq::new(n, |i: int| STy::Var((start + i) as u32))
}

impl<'a> Infer<'a> {
    /// The next type variable to hand out.
    pub open spec fn counter(&self) -> u32 {
        self.next_var
    }

    /// What inference reads and never changes.
    pub open spec fn env(&self) -> IEnv {
        IEnv {
            refs: self.res.refs@,
            defs: self.res.defs@,
            schemes: crate::check::model::schemes_v(self.schemes@),
            types: self.registry.types@,
            ctor_to_type: self.registry.ctor_to_type@,
            impls: self.registry.impls@.dom(),
            effs: self.subst.effs@,
            cons: crate::check::model::cons_map(self.schemes@),
        }
    }

    /// The state of inference, as values.
    pub open spec fn state(&self) -> IState {
        IState {
            counter: self.next_var,
            tys: self.subst.tys@,
            diags: self.diags@,
            locals: tmap(self.locals@),
            exprs: tmap(self.expr_types@),
            pats: tmap(self.pattern_types@),
            pending: pend_v(self.pending@),
        }
    }

    /// The types recorded per expression span.
    pub open spec fn expr_types_view(&self) -> Map<Span, Ty> {
        self.expr_types@
    }

    /// The types recorded per pattern span.
    pub open spec fn pattern_types_view(&self) -> Map<Span, Ty> {
        self.pattern_types@
    }

    pub fn new(res: &'a Resolution) -> (i: Infer<'a>)
        ensures
            i.res == res,
            i.subst.wf(),
            i.subst.tys@.len() == 0,
            i.subst.effs@.len() == 0,
            i.locals@ == Map::<LocalId, Ty>::empty(),
            i.schemes@ == Map::<DefId, Scheme>::empty(),
            i.errors@.len() == 0,
            i.counter() == 0,
            i.expr_types_view() == Map::<Span, Ty>::empty(),
            i.pattern_types_view() == Map::<Span, Ty>::empty(),
            i.diags@.len() == 0,
            diags_match(i.errors@, i.diags@),
            i.registry.types@ == Map::<DefId, crate::check::registry::TypeDeclInfo>::empty(),
            i.registry.ctor_to_type@ == Map::<DefId, DefId>::empty(),
            i.registry.impls@ == Map::<(TraitId, TypeHead), crate::check::registry::ImplInfo>::empty(),
            i.pending@.len() == 0,
    {
        let ghost none: Seq<IErr> = seq![];
        let i = Infer {
            res,
            subst: Subst::new(),
            locals: AssocMap::new(),
            schemes: AssocMap::new(),
            registry: TypeRegistry::new(),
            errors: Vec::new(),
            next_var: 0,
            expr_types: AssocMap::new(),
            pattern_types: AssocMap::new(),
            diags: Ghost(none),
            pending: Vec::new(),
        };
        proof {
            assert(i.subst.tys@ =~= Seq::<(u32, STy)>::empty());
        }
        i
    }

    /// A type variable not handed out before (the counter stays at its
    /// maximum once it gets there).
    pub fn fresh(&mut self) -> (v: TyVarId)
        ensures
            v.0 == old(self).counter(),
            final(self).counter() == if old(self).counter() < u32::MAX {
                (old(self).counter() + 1) as u32
            } else {
                old(self).counter()
            },
            final(self).res == old(self).res,
            final(self).subst == old(self).subst,
            final(self).errors == old(self).errors,
            final(self).locals == old(self).locals,
            final(self).schemes == old(self).schemes,
            final(self).registry == old(self).registry,
            final(self).expr_types_view() == old(self).expr_types_view(),
            final(self).pattern_types_view() == old(self).pattern_types_view(),
            final(self).diags == old(self).diags,
            (final(self).state(), STy::Var(v.0)) == fresh_m(old(self).state()),
    {
        let id = TyVarId(self.next_var);
        if self.next_var < u32::MAX {
            self.next_var = self.next_var + 1;
        }
        id
    }

    /// Records the type of the expression at `span`.
    pub fn record_expr_type(&mut self, span: Span, ty: Ty)
        ensures
            final(self).expr_types_view() == old(self).expr_types_view().insert(span, ty),
            final(self).res == old(self).res,
            final(self).subst == old(self).subst,
            final(self).errors == old(self).errors,
            final(self).locals == old(self).locals,
            final(self).schemes == old(self).schemes,
            final(self).registry == old(self).registry,
            final(self).counter() == old(self).counter(),
            final(self).pattern_types_view() == old(self).pattern_types_view(),
            final(self).diags == old(self).diags,
            final(self).state() == (IState { exprs: old(self).state().exprs.insert(span, ty@), ..old(self).state() }),
    {
        self.expr_types.insert(span, ty);
        proof { lemma_tmap_insert(old(self).expr_types@, span, ty); }
    }

    /// Records the type of the pattern at `span`.
    pub fn record_pattern_type(&mut self, span: Span, ty: Ty)
        ensures
            final(self).pattern_types_view() == old(self).pattern_types_view().insert(span, ty),
            final(self).res == old(self).res,
            final(self).subst == old(self).subst,
            final(self).errors == old(self).errors,
            final(self).locals == old(self).locals,
            final(self).schemes == old(self).schemes,
            final(self).registry == old(self).registry,
            final(self).counter() == old(self).counter(),
            final(self).expr_types_view() == old(self).expr_types_view(),
            final(self).diags == old(self).diags,
            final(self).state() == (IState { pats: old(self).state().pats.insert(span, ty@), ..old(self).state() }),
    {
        self.pattern_types.insert(span, ty);
        proof { lemma_tmap_insert(old(self).pattern_types@, span, ty); }
    }

    /// Fresh type variables, one per parameter in `vars`.
    fn fresh_for(&mut self, vars: &Vec<TyVarId>) -> (r: Vec<Ty>)
        requires
            old(self).subst.wf(),
        ensures
            grows(*old(self), *final(self)),
            r@.len() == vars@.len(),
            old(self).counter() + vars@.len() <= u32::MAX ==> stys(r@) == fresh_vars(
                old(self).counter() as int,
                vars@.len(),
            ),
            (final(self).state(), stys(r@)) == fresh_seq_m(old(self).state(), vars@.len()),
            final(self).errors == old(self).errors,
            final(self).subst == old(self).subst,
            final(self).locals == old(self).locals,
            final(self).schemes == old(self).schemes,
            final(self).registry == old(self).registry,
            final(self).expr_types_view() == old(self).expr_types_view(),
            final(self).pattern_types_view() == old(self).pattern_types_view(),
    {
        let ghost s0 = *self;
        proof { lemma_grows_refl(s0); }
        let mut out: Vec<Ty> = Vec::new();
        let mut i: usize = 0;
        while i < vars.len()
            invariant
                i <= vars@.len(),
                out@.len() == i,
                grows(s0, *self),
                s0 == *old(self),
                self.errors == s0.errors,
                self.subst == s0.subst,
                self.locals == s0.locals,
                self.schemes == s0.schemes,
                self.registry == s0.registry,
                self.diags == s0.diags,
                self.expr_types_view() == s0.expr_types_view(),
                self.pattern_types_view() == s0.pattern_types_view(),
                (self.state(), stys(out@)) == fresh_seq_m(s0.state(), i as nat),
                s0.counter() + vars@.len() <= u32::MAX ==> self.counter() == s0.counter() + i
                    && stys(out@) == fresh_vars(s0.counter() as int, i as nat),
            decreases vars@.len() - i,
        {
            let v = self.fresh();
            let ghost prev = out@;
            out.push(Ty::Var(v));
            proof {
                assert(out@.drop_last() =~= prev);
                assert(out@.len() > 0);
                assert(out@.last() == Ty::Var(v));
                assert(sty(out@.last()) == STy::Var(v.0));
                assert(stys(out@.drop_last()) == stys(prev));
                assert(stys(out@) == stys(prev).push(STy::Var(v.0)));
                if s0.counter() + vars@.len() <= u32::MAX {
                    assert(stys(out@) =~= fresh_vars(s0.counter() as int, (i + 1) as nat));
                }
                lemma_grows_refl(*self);
            }
            i = i + 1;
        }
        out
    }

    /// A copy of the scheme's type with its quantified variables replaced by
    /// fresh ones, its constraints on them recorded as obligations at `span`.
    pub fn instantiate_at(&mut self, scheme: Scheme, span: Span) -> (t: Ty)
        requires
            old(self).subst.wf(),
        ensures
            grows(*old(self), *final(self)),
            (final(self).state(), t@) == crate::check::model::instantiate_c_m(
                old(self).state(),
                crate::check::model::scheme_v(scheme),
                crate::check::model::cons_v(scheme.constraints@),
                span,
            ),
            final(self).errors == old(self).errors,
            final(self).locals == old(self).locals,
            final(self).schemes == old(self).schemes,
            final(self).registry == old(self).registry,
            final(self).expr_types_view() == old(self).expr_types_view(),
            final(self).pattern_types_view() == old(self).pattern_types_view(),
    {
        let args = self.fresh_for(&scheme.vars);
        let t = subst_params(&scheme.ty, &scheme.vars, &args);
        let ghost s1 = *self;
        let ghost cs = crate::check::model::cons_v(scheme.constraints@);
        let mut i: usize = 0;
        while i < scheme.constraints.len()
            invariant
                i <= scheme.constraints@.len(),
                cs == crate::check::model::cons_v(scheme.constraints@),
                *self == (Infer { pending: self.pending, ..s1 }),
                pend_v(self.pending@) == pend_v(s1.pending@) + crate::check::model::inst_cons(
                    cs.take(i as int),
                    ids(scheme.vars@),
                    stys(args@),
                    span,
                ),
            decreases scheme.constraints@.len() - i,
        {
            let c = &scheme.constraints[i];
            let ct = subst_params(&c.ty, &scheme.vars, &args);
            let ghost p0 = self.pending@;
            self.pending.push((c.trait_, ct, span));
            proof {
                assert(cs.take(i + 1) =~= cs.take(i as int).push(cs[i as int]));
                assert(pend_v(self.pending@) =~= pend_v(p0).push((c.trait_, ct@, span)));
                assert(crate::check::model::inst_cons(cs.take(i + 1), ids(scheme.vars@), stys(args@), span)
                    =~= crate::check::model::inst_cons(cs.take(i as int), ids(scheme.vars@), stys(args@), span).push(
                    (c.trait_, ct@, span),
                ));
            }
            i = i + 1;
        }
        proof {
            assert(cs.take(cs.len() as int) =~= cs);
            lemma_grows_refl(s1);
        }
        t
    }

    /// A copy of the scheme's type with its quantified variables replaced by
    /// fresh ones.
    pub fn instantiate(&mut self, scheme: Scheme) -> (t: Ty)
        requires
            old(self).subst.wf(),
        ensures
            grows(*old(self), *final(self)),
            old(self).counter() + scheme.vars@.len() <= u32::MAX ==> t@ == psub(
                scheme.ty@,
                ids(scheme.vars@),
                fresh_vars(old(self).counter() as int, scheme.vars@.len()),
            ),
            (final(self).state(), t@) == instantiate_m(old(self).state(), crate::check::model::scheme_v(scheme)),
            final(self).errors == old(self).errors,
            final(self).locals == old(self).locals,
            final(self).schemes == old(self).schemes,
            final(self).registry == old(self).registry,
            final(self).expr_types_view() == old(self).expr_types_view(),
            final(self).pattern_types_view() == old(self).pattern_types_view(),
    {
        let args = self.fresh_for(&scheme.vars);
        subst_params(&scheme.ty, &scheme.vars, &args)
    }
}

// ---------------------------------------------------------------------------
// Copies

fn copy_ids(v: &Vec<TyVarId>) -> (r: Vec<TyVarId>)
    ensures
        r@ == v@,
{
    let mut r: Vec<TyVarId> = Vec::new();
    let mut i: usize = 0;
    while i < v.len()
        invariant
            i <= v@.len(),
            r@ == v@.take(i as int),
        decreases v@.len() - i,
    {
        r.push(v[i]);
        assert(v@.take(i + 1) =~= v@.take(i as int).push(v@[i as int]));
        i = i + 1;
    }
    assert(v@.take(v@.len() as int) =~= v@);
    r
}

/// A copy of a scheme: the same variables, constraints and type.
pub fn copy_scheme(s: &Scheme) -> (r: Scheme)
    ensures
        r.vars@ == s.vars@,
        r.ty@ == s.ty@,
        r.constraints@.len() == s.constraints@.len(),
        forall|i: int|
            0 <= i < s.constraints@.len() ==> (#[trigger] r.constraints@[i]).trait_
                == s.constraints@[i].trait_ && r.constraints@[i].ty@ == s.constraints@[i].ty@,
{
    let mut cs: Vec<crate::check::types::Constraint> = Vec::new();
    let mut i: usize = 0;
    while i < s.constraints.len()
        invariant
            i <= s.constraints@.len(),
            cs@.len() == i,
            forall|m: int|
                0 <= m < i ==> (#[trigger] cs@[m]).trait_ == s.constraints@[m].trait_
                    && cs@[m].ty@ == s.constraints@[m].ty@,
        decreases s.constraints@.len() - i,
    {
        let c = &s.constraints[i];
        cs.push(crate::check::types::Constraint { trait_: c.trait_, ty: copy_ty(&c.ty) });
        i = i + 1;
    }
    Scheme { vars: copy_ids(&s.vars), constraints: cs, ty: copy_ty(&s.ty) }
}

fn copy_string(s: &String) -> (r: String)
    ensures
        r@ == s@,
{
    s.clone()
}

// ---------------------------------------------------------------------------
// Errors from unification

/// The diagnostic for a failed unification at `span`.
pub fn unify_error_to_error(span: Span, err: UnifyError) -> (e: Error)
    ensures
        e.span == span,
        match err {
            UnifyError::Mismatch { left, right } => e.kind matches ErrorKind::TypeMismatch {
                expected,
                found,
            } && expected@ == crate::check::display::ty_text(left@) && found@
                == crate::check::display::ty_text(right@),
            UnifyError::Occurs(v) => e.kind matches ErrorKind::OccursCheck { var } && var@
                == crate::check::display::ty_text(STy::Var(v.0)),
            UnifyError::Arity { expected, found } => e.kind == (ErrorKind::ArityMismatch {
                expected,
                found,
            }),
        },
        ierr_is(e, IErr::Unify { span, err: uerr_v(err) }),
{
    match err {
        UnifyError::Mismatch { left, right } => Error {
            span,
            kind: ErrorKind::TypeMismatch { expected: left.to_string(), found: right.to_string() },
        },
        UnifyError::Occurs(v) => Error {
            span,
            kind: ErrorKind::OccursCheck { var: Ty::Var(v).to_string() },
        },
        UnifyError::Arity { expected, found } => Error {
            span,
            kind: ErrorKind::ArityMismatch { expected, found },
        },
    }
}

// ---------------------------------------------------------------------------
// Lowering type annotations

/// The primitive type a built-in name stands for.
pub open spec fn prim_named(n: Seq<char>) -> Option<PrimTy> {
    if n == "Int"@ {
        Some(PrimTy::Int)
    } else if n == "Float"@ {
        Some(PrimTy::Float)
    } else if n == "String"@ {
        Some(PrimTy::String)
    } else if n == "Bool"@ {
        Some(PrimTy::Bool)
    } else if n == "Unit"@ {
        Some(PrimTy::Unit)
    } else {
        None
    }
}

pub(crate) fn prim_of_name(n: &str) -> (r: Option<PrimTy>)
    ensures
        r == prim_named(n@),
{
    if str_eq(n, "Int") {
        Some(PrimTy::Int)
    } else if str_eq(n, "Float") {
        Some(PrimTy::Float)
    } else if str_eq(n, "String") {
        Some(PrimTy::String)
    } else if str_eq(n, "Bool") {
        Some(PrimTy::Bool)
    } else if str_eq(n, "Unit") {
        Some(PrimTy::Unit)
    } else {
        None
    }
}

/// The index of the first definition named `n`, or -1.
pub open spec fn def_named(defs: Seq<DefInfo>, n: Seq<char>) -> int
    decreases defs.len(),
{
    if defs.len() == 0 {
        -1
    } else if def_named(defs.drop_last(), n) >= 0 {
        def_named(defs.drop_last(), n)
    } else if defs.last().name@ == n {
        defs.len() - 1
    } else {
        -1
    }
}

pub proof fn lemma_def_named(defs: Seq<DefInfo>, n: Seq<char>)
    ensures
        -1 <= def_named(defs, n) < defs.len(),
        def_named(defs, n) >= 0 ==> defs[def_named(defs, n)].name@ == n,
        forall|i: int|
            0 <= i < defs.len() && (def_named(defs, n) == -1 || i < def_named(defs, n))
                ==> (#[trigger] defs[i]).name@ != n,
    decreases defs.len(),
{
    if defs.len() > 0 {
        let d = defs.drop_last();
        lemma_def_named(d, n);
        assert forall|i: int|
            0 <= i < defs.len() && (def_named(defs, n) == -1 || i < def_named(defs, n))
                implies (#[trigger] defs[i]).name@ != n by {
            if i < defs.len() - 1 {
                assert(defs[i] == d[i]);
            }
        }
    }
}

pub fn find_def_named(defs: &Vec<DefInfo>, n: &str) -> (r: Option<usize>)
    ensures
        r matches Some(i) ==> i as int == def_named(defs@, n@),
        r is None ==> def_named(defs@, n@) == -1,
{
    proof { lemma_def_named(defs@, n@); }
    let mut i: usize = 0;
    while i < defs.len()
        invariant
            i <= defs@.len(),
            forall|m: int| 0 <= m < i ==> (#[trigger] defs@[m]).name@ != n@,
            -1 <= def_named(defs@, n@) < defs@.len(),
            def_named(defs@, n@) >= 0 ==> defs@[def_named(defs@, n@)].name@ == n@,
            forall|m: int|
                0 <= m < defs@.len() && (def_named(defs@, n@) == -1 || m < def_named(defs@, n@))
                    ==> (#[trigger] defs@[m]).name@ != n@,
        decreases defs@.len() - i,
    {
        if str_eq(defs[i].name.as_str(), n) {
            return Some(i);
        }
        i = i + 1;
    }
    None
}

/// The index of the first binding of `n` in a scope, or -1.
pub open spec fn scope_index(ctx: Seq<(String, TyVarId)>, n: Seq<char>) -> int
    decreases ctx.len(),
{
    if ctx.len() == 0 {
        -1
    } else if scope_index(ctx.drop_last(), n) >= 0 {
        scope_index(ctx.drop_last(), n)
    } else if ctx.last().0@ == n {
        ctx.len() - 1
    } else {
        -1
    }
}

proof fn lemma_scope_index(ctx: Seq<(String, TyVarId)>, n: Seq<char>)
    ensures
        -1 <= scope_index(ctx, n) < ctx.len(),
        scope_index(ctx, n) >= 0 ==> ctx[scope_index(ctx, n)].0@ == n,
        forall|i: int|
            0 <= i < ctx.len() && (scope_index(ctx, n) == -1 || i < scope_index(ctx, n))
                ==> (#[trigger] ctx[i]).0@ != n,
    decreases ctx.len(),
{
    if ctx.len() > 0 {
        let d = ctx.drop_last();
        lemma_scope_index(d, n);
        assert forall|i: int|
            0 <= i < ctx.len() && (scope_index(ctx, n) == -1 || i < scope_index(ctx, n))
                implies (#[trigger] ctx[i]).0@ != n by {
            if i < ctx.len() - 1 {
                assert(ctx[i] == d[i]);
            }
        }
    }
}

fn scope_lookup(ctx: &Vec<(String, TyVarId)>, n: &str) -> (r: Option<TyVarId>)
    ensures
        r matches Some(v) ==> scope_index(ctx@, n@) >= 0 && v == ctx@[scope_index(ctx@, n@)].1,
        r is None ==> scope_index(ctx@, n@) == -1,
{
    proof { lemma_scope_index(ctx@, n@); }
    let mut i: usize = 0;
    while i < ctx.len()
        invariant
            i <= ctx@.len(),
            forall|m: int| 0 <= m < i ==> (#[trigger] ctx@[m]).0@ != n@,
            -1 <= scope_index(ctx@, n@) < ctx@.len(),
            scope_index(ctx@, n@) >= 0 ==> ctx@[scope_index(ctx@, n@)].0@ == n@,
            forall|m: int|
                0 <= m < ctx@.len() && (scope_index(ctx@, n@) == -1 || m < scope_index(ctx@, n@))
                    ==> (#[trigger] ctx@[m]).0@ != n@,
        decreases ctx@.len() - i,
    {
        if str_eq(ctx[i].0.as_str(), n) {
            return Some(ctx[i].1);
        }
        i = i + 1;
    }
    None
}

impl<'a> Infer<'a> {
    /// Lowers a type annotation; type variables not in scope become fresh.
    pub fn lower_type(&mut self, t: &crate::ast::Type) -> (r: Ty)
        requires
            old(self).subst.wf(),
        ensures
            steps(*old(self), *final(self)),
            final(self).locals == old(self).locals,
            final(self).expr_types_view() == old(self).expr_types_view(),
            final(self).pattern_types_view() == old(self).pattern_types_view(),
            lowered(t.node, r@, Seq::empty(), old(self).res.defs@),
            (final(self).state(), r@) == lower_m(old(self).env(), old(self).state(), *t, Seq::empty()),
    {
        let ctx: Vec<(String, TyVarId)> = Vec::new();
        self.lower_type_in_scope(t, &ctx)
    }

    /// Lowers a type annotation with the named type variables of `ctx` in
    /// scope: built-in names become primitives, other names the definitions
    /// they name (unknown ones are reported), function types keep their
    /// parameters and result; tuples are reported as not supported yet.
    pub fn lower_type_in_scope(&mut self, t: &crate::ast::Type, ctx: &Vec<(String, TyVarId)>) -> (r: Ty)
        requires
            old(self).subst.wf(),
        ensures
            steps(*old(self), *final(self)),
            final(self).locals == old(self).locals,
            final(self).expr_types_view() == old(self).expr_types_view(),
            final(self).pattern_types_view() == old(self).pattern_types_view(),
            lowered(t.node, r@, ctx@, old(self).res.defs@),
            (final(self).state(), r@) == lower_m(old(self).env(), old(self).state(), *t, ctx@),
        decreases t, 0nat,
    {
        let ghost s0 = *self;
        match &t.node {
            TypeKind::Var(name) => match scope_lookup(ctx, name.as_str()) {
                Some(v) => {
                    proof { lemma_steps_refl(s0); }
                    Ty::Var(v)
                },
                None => {
                    let v = self.fresh();
                    proof { lemma_steps_refl(*self); }
                    Ty::Var(v)
                },
            },
            TypeKind::Named { name, args } => match prim_of_name(name.as_str()) {
                Some(p) => {
                    proof { lemma_steps_refl(s0); }
                    Ty::Prim(p)
                },
                None => {
                    let res = self.res;
                    proof { lemma_def_named(res.defs@, name@); }
                    match find_def_named(&res.defs, name.as_str()) {
                        Some(i) => {
                            let id = res.defs[i].id;
                            let lowered_args = self.lower_types_in_scope(args, ctx);
                            proof { lemma_stys(lowered_args@); }
                            Ty::Con(id, lowered_args)
                        },
                        None => {
                            self.report(
                                Error {
                                    span: t.span,
                                    kind: ErrorKind::Unresolved { name: copy_string(name) },
                                },
                                Ghost(IErr::Unresolved { span: t.span, name: name@ }),
                            );
                            let ghost s1 = *self;
                            let v = self.fresh();
                            proof { lemma_steps_refl(*self); lemma_steps_trans(s0, s1, *self); }
                            Ty::Var(v)
                        },
                    }
                },
            },
            TypeKind::Function { params, effect, result } => {
                let named = match effect {
                    Some(crate::ast::EffectRow::Named(_)) => true,
                    _ => false,
                };
                if named {
                    self.report(
                        Error { span: t.span, kind: ErrorKind::EffectsNotYetImplemented },
                        Ghost(IErr::EffectsNotYet(t.span)),
                    );
                } else {
                    proof { lemma_steps_refl(s0); }
                }
                let ghost s1 = *self;
                let ps = self.lower_types_in_scope(params, ctx);
                let ghost s2 = *self;
                let r = self.lower_type_in_scope(result, ctx);
                proof {
                    lemma_steps_trans(s0, s1, s2);
                    lemma_steps_trans(s0, s2, *self);
                    lemma_stys(ps@);
                }
                Ty::Fun(ps, EffectRow::pure(), Box::new(r))
            },
            TypeKind::Tuple(_) => {
                self.report(
                    Error { span: t.span, kind: ErrorKind::TuplesNotYetImplemented },
                    Ghost(IErr::TuplesNotYet(t.span)),
                );
                let ghost s1 = *self;
                let v = self.fresh();
                proof { lemma_steps_refl(*self); lemma_steps_trans(s0, s1, *self); }
                Ty::Var(v)
            },
        }
    }

    fn lower_types_in_scope(&mut self, ts: &Vec<crate::ast::Type>, ctx: &Vec<(String, TyVarId)>) -> (r: Vec<Ty>)
        requires
            old(self).subst.wf(),
        ensures
            steps(*old(self), *final(self)),
            final(self).locals == old(self).locals,
            final(self).expr_types_view() == old(self).expr_types_view(),
            final(self).pattern_types_view() == old(self).pattern_types_view(),
            r@.len() == ts@.len(),
            forall|i: int| 0 <= i < ts@.len() ==> lowered(#[trigger] ts@[i].node, r@[i]@, ctx@, old(self).res.defs@),
            (final(self).state(), stys(r@)) == lowers_m(old(self).env(), old(self).state(), ts@, ctx@),
        decreases ts, 1nat,
    {
        let ghost s0 = *self;
        proof { lemma_steps_refl(s0); }
        let mut out: Vec<Ty> = Vec::new();
        let mut i: usize = 0;
        proof {
            assert(ts@.take(0) =~= Seq::<crate::ast::Type>::empty());
        }
        while i < ts.len()
            invariant
                i <= ts@.len(),
                out@.len() == i,
                steps(s0, *self),
                s0 == *old(self),
                self.locals == s0.locals,
                self.expr_types_view() == s0.expr_types_view(),
                self.pattern_types_view() == s0.pattern_types_view(),
                forall|m: int| 0 <= m < i ==> lowered(#[trigger] ts@[m].node, out@[m]@, ctx@, s0.res.defs@),
                (self.state(), stys(out@)) == lowers_m(s0.env(), s0.state(), ts@.take(i as int), ctx@),
            decreases ts@.len() - i,
        {
            proof {
                assert(decreases_to!(ts => ts@[i as int]));
            }
            let ghost s1 = *self;
            let ghost prev = out@;
            let t = self.lower_type_in_scope(&ts[i], ctx);
            proof { lemma_steps_trans(s0, s1, *self); }
            out.push(t);
            proof {
                assert(ts@.take(i + 1).drop_last() =~= ts@.take(i as int));
                assert(ts@.take(i + 1).last() == ts@[i as int]);
                assert(out@.drop_last() =~= prev);
                assert(s1.env() == s0.env());
            }
            i = i + 1;
        }
        proof {
            assert(ts@.take(ts@.len() as int) =~= ts@);
        }
        out
    }
}

proof fn lemma_prefix_push<T>(a: Seq<T>, b: Seq<T>)
    requires
        b.len() == a.len() + 1,
        forall|i: int| 0 <= i < a.len() ==> b[i] == a[i],
    ensures
        prefix(a, b),
{
    assert(b.take(a.len() as int) =~= a);
}

/// What a lowered annotation is, as far as the annotation alone decides:
/// names in scope and built-in names, the definition a name names, and
/// the shape of function types.
pub open spec fn lowered(t: TypeKind, r: STy, ctx: Seq<(String, TyVarId)>, defs: Seq<DefInfo>) -> bool {
    match t {
        TypeKind::Var(n) => if scope_index(ctx, n@) >= 0 {
            r == STy::Var(ctx[scope_index(ctx, n@)].1.0)
        } else {
            r is Var
        },
        TypeKind::Named { name, args } => match prim_named(name@) {
            Some(p) => r == STy::Prim(p),
            None => if def_named(defs, name@) >= 0 {
                r matches STy::Con(id, rs) && id == defs[def_named(defs, name@)].id.0 && rs.len()
                    == args@.len()
            } else {
                r is Var
            },
        },
        TypeKind::Function { params, result, .. } => r matches STy::Fun(ps, row, _) && ps.len()
            == params@.len() && row.labels.labels() == Set::<crate::check::types::Effect>::empty()
            && row.tail is None,
        TypeKind::Tuple(_) => r is Var,
    }
}

// ---------------------------------------------------------------------------
// Inference

/// `b` grew from `a` (see [`grows`]) with the schemes and the registry kept.
pub open spec fn steps(a: Infer, b: Infer) -> bool {
    &&& grows(a, b)
    &&& b.schemes == a.schemes
    &&& b.registry == a.registry
}

pub proof fn lemma_steps_refl(a: Infer)
    requires
        a.subst.wf(),
    ensures
        steps(a, a),
{
    lemma_grows_refl(a);
}

pub proof fn lemma_steps_trans(a: Infer, b: Infer, c: Infer)
    requires
        steps(a, b),
        steps(b, c),
    ensures
        steps(a, c),
{
    lemma_grows_trans(a, b, c);
}

pub open spec fn lit_pat_type(l: LitPat) -> PrimTy {
    match l {
        LitPat::Int(_) => PrimTy::Int,
        LitPat::Float(_) => PrimTy::Float,
        LitPat::Str(_) => PrimTy::String,
    }
}

fn copy_fields(fs: &Vec<FieldInfo>) -> (r: Vec<FieldInfo>)
    ensures
        r@.len() == fs@.len(),
        forall|i: int| 0 <= i < fs@.len() ==> (#[trigger] r@[i]).name@ == fs@[i].name@ && r@[i].ty@ == fs@[i].ty@,
        field_views(r@) == field_views(fs@),
{
    let mut r: Vec<FieldInfo> = Vec::new();
    let mut i: usize = 0;
    while i < fs.len()
        invariant
            i <= fs@.len(),
            r@.len() == i,
            forall|m: int| 0 <= m < i ==> (#[trigger] r@[m]).name@ == fs@[m].name@ && r@[m].ty@ == fs@[m].ty@,
        decreases fs@.len() - i,
    {
        r.push(FieldInfo { name: copy_string(&fs[i].name), ty: copy_ty(&fs[i].ty) });
        i = i + 1;
    }
    assert(field_views(r@) =~= field_views(fs@));
    r
}

proof fn lemma_field_index_in(fs: Seq<(Seq<char>, STy)>, n: Seq<char>, k: int)
    requires
        0 <= k <= fs.len(),
    ensures
        -1 <= field_index_in(fs, n, k) < k,
        field_index_in(fs, n, k) >= 0 ==> fs[field_index_in(fs, n, k)].0 == n,
        forall|i: int| 0 <= i < k && (field_index_in(fs, n, k) == -1 || i < field_index_in(fs, n, k)) ==> fs[i].0 != n,
    decreases k,
{
    if k > 0 {
        lemma_field_index_in(fs, n, k - 1);
    }
}

/// The position of the first field named `n`.
fn field_named(fs: &Vec<FieldInfo>, n: &str) -> (r: Option<usize>)
    ensures
        r matches Some(i) ==> i < fs@.len() && fs@[i as int].name@ == n@,
        r is None ==> forall|i: int| 0 <= i < fs@.len() ==> (#[trigger] fs@[i]).name@ != n@,
        r matches Some(i) ==> i as int == field_index(field_views(fs@), n@),
        r is None ==> field_index(field_views(fs@), n@) == -1,
{
    let ghost fv = field_views(fs@);
    proof { lemma_field_index_in(fv, n@, fv.len() as int); }
    let mut i: usize = 0;
    while i < fs.len()
        invariant
            i <= fs@.len(),
            fv == field_views(fs@),
            fv.len() == fs@.len(),
            forall|m: int| 0 <= m < i ==> (#[trigger] fs@[m]).name@ != n@,
        decreases fs@.len() - i,
    {
        if str_eq(fs[i].name.as_str(), n) {
            proof {
                lemma_field_index_in(fv, n@, fv.len() as int);
                let fi = field_index(fv, n@);
                assert(fv[i as int].0 == n@);
                if fi == -1 || i < fi {
                    assert(fv[i as int].0 != n@);
                }
                if 0 <= fi < i {
                    assert(fv[fi].0 == n@);
                    assert(fs@[fi].name@ != n@);
                }
            }
            return Some(i);
        }
        i = i + 1;
    }
    proof {
        lemma_field_index_in(fv, n@, fv.len() as int);
        let fi = field_index(fv, n@);
        if fi >= 0 {
            assert(fv[fi].0 == n@);
            assert(fs@[fi].name@ != n@);
        }
    }
    None
}

/// Whether one of the first `n` keyword arguments is named `name`.
fn kwarg_named(fields: &Vec<KwArg>, n: usize, name: &str) -> (r: bool)
    requires
        n <= fields@.len(),
    ensures
        r == exists|i: int| 0 <= i < n && (#[trigger] fields@[i]).name@ == name@,
{
    let mut i: usize = 0;
    while i < n
        invariant
            i <= n <= fields@.len(),
            forall|m: int| 0 <= m < i ==> (#[trigger] fields@[m]).name@ != name@,
        decreases n - i,
    {
        if str_eq(fields[i].name.as_str(), name) {
            return true;
        }
        i = i + 1;
    }
    false
}

/// The position of the first method named `n`.
fn method_named(ms: &Vec<crate::check::registry::MethodInfo>, n: &str) -> (r: Option<usize>)
    ensures
        r matches Some(k) ==> k < ms@.len() && k as int == method_index(ms@, n@, ms@.len() as int),
        r is None ==> method_index(ms@, n@, ms@.len() as int) == -1,
{
    proof { lemma_method_index(ms@, n@, ms@.len() as int); }
    let mut k: usize = 0;
    while k < ms.len()
        invariant
            k <= ms@.len(),
            forall|m: int| 0 <= m < k ==> (#[trigger] ms@[m]).name@ != n@,
        decreases ms@.len() - k,
    {
        if str_eq(ms[k].name.as_str(), n) {
            proof {
                lemma_method_index(ms@, n@, ms@.len() as int);
                let mi = method_index(ms@, n@, ms@.len() as int);
                if mi == -1 || k < mi {
                    assert(ms@[k as int].name@ != n@);
                }
                if 0 <= mi < k {
                    assert(ms@[mi].name@ == n@);
                }
            }
            return Some(k);
        }
        k = k + 1;
    }
    proof {
        lemma_method_index(ms@, n@, ms@.len() as int);
        let mi = method_index(ms@, n@, ms@.len() as int);
        if mi >= 0 {
            assert(ms@[mi].name@ == n@);
        }
    }
    None
}

proof fn lemma_method_index(ms: Seq<crate::check::registry::MethodInfo>, n: Seq<char>, k: int)
    requires
        0 <= k <= ms.len(),
    ensures
        -1 <= method_index(ms, n, k) < k,
        method_index(ms, n, k) >= 0 ==> ms[method_index(ms, n, k)].name@ == n,
        forall|i: int| 0 <= i < k && (method_index(ms, n, k) == -1 || i < method_index(ms, n, k)) ==> ms[i].name@ != n,
    decreases k,
{
    if k > 0 {
        lemma_method_index(ms, n, k - 1);
    }
}

/// What a type declares under a member name.
enum Member {
    Field(Ty),
    Method(Scheme),
    /// Nothing; the type's name.
    Unknown(String),
}

impl<'a> Infer<'a> {
    /// Reports `e`.
    pub(crate) fn report(&mut self, e: Error, Ghost(d): Ghost<IErr>)
        requires
            old(self).subst.wf(),
            ierr_is(e, d),
        ensures
            steps(*old(self), *final(self)),
            final(self).errors@ == old(self).errors@.push(e),
            final(self).counter() == old(self).counter(),
            final(self).subst == old(self).subst,
            final(self).locals == old(self).locals,
            final(self).expr_types_view() == old(self).expr_types_view(),
            final(self).pattern_types_view() == old(self).pattern_types_view(),
            final(self).state() == report_m(old(self).state(), d),
    {
        let ghost s0 = *self;
        self.errors.push(e);
        proof {
            self.diags@ = self.diags@.push(d);
            lemma_extends_refl(s0.subst.tys@);
            lemma_prefix_push(s0.errors@, self.errors@);
            lemma_prefix_push(s0.diags@, self.diags@);
            assert(self.errors@[s0.errors@.len() as int] == e);
            assert(self.diags@[s0.diags@.len() as int] == d);
            if diags_match(s0.errors@, s0.diags@) {
                assert forall|i: int| 0 <= i < self.errors@.len() implies ierr_is(#[trigger] self.errors@[i], self.diags@[i]) by {
                    if i < s0.errors@.len() {
                        assert(self.errors@[i] == s0.errors@[i]);
                    }
                }
            }
        }
    }

    /// A fresh type variable as a type.
    fn fresh_ty(&mut self) -> (t: Ty)
        requires
            old(self).subst.wf(),
        ensures
            steps(*old(self), *final(self)),
            t@ == STy::Var(old(self).counter()),
            final(self).errors == old(self).errors,
            final(self).subst == old(self).subst,
            final(self).locals == old(self).locals,
            final(self).expr_types_view() == old(self).expr_types_view(),
            final(self).pattern_types_view() == old(self).pattern_types_view(),
            (final(self).state(), t@) == fresh_m(old(self).state()),
    {
        let v = self.fresh();
        proof { lemma_grows_refl(*self); }
        Ty::Var(v)
    }

    /// Unifies `a` with `b`, reporting a failure at `span`.
    pub(crate) fn unify_or_report(&mut self, span: Span, a: &Ty, b: &Ty)
        requires
            old(self).subst.wf(),
        ensures
            steps(*old(self), *final(self)),
            final(self).counter() == old(self).counter(),
            final(self).locals == old(self).locals,
            final(self).expr_types_view() == old(self).expr_types_view(),
            final(self).pattern_types_view() == old(self).pattern_types_view(),
            final(self).state() == unify_m(old(self).env(), old(self).state(), span, a@, b@),
    {
        let ghost s0 = *self;
        match unify(&mut self.subst, a, b) {
            Ok(()) => {
                proof {
                    assert(self.errors@.take(s0.errors@.len() as int) =~= s0.errors@);
                    assert(self.diags@.take(s0.diags@.len() as int) =~= s0.diags@);
                }
            },
            Err(err) => {
                let ghost s1 = *self;
                proof {
                    assert(self.errors@.take(s0.errors@.len() as int) =~= s0.errors@);
                    assert(self.diags@.take(s0.diags@.len() as int) =~= s0.diags@);
                }
                let ghost d = IErr::Unify { span, err: uerr_v(err) };
                self.report(unify_error_to_error(span, err), Ghost(d));
                proof { lemma_steps_trans(s0, s1, *self); }
            },
        }
    }

    /// Checks the obligation of an operator's trait on its operand type
    /// against the built-in impls, once the operand type is resolved.
    fn check_obligation(&mut self, span: Span, t: Option<TraitId>, operand: &Ty)
        requires
            old(self).subst.wf(),
        ensures
            steps(*old(self), *final(self)),
            final(self).state() == obligation_m(old(self).env(), old(self).state(), span, t, operand@),
    {
        match t {
            Some(tr) => {
                let r = apply_subst(operand, &self.subst);
                let is_var = match &r {
                    Ty::Var(_) => true,
                    _ => false,
                };
                if is_var {
                    let ghost p0 = self.pending@;
                    self.pending.push((tr, r, span));
                    proof {
                        assert(pend_v(self.pending@) =~= pend_v(p0).push((tr, r@, span)));
                        lemma_steps_refl(*self);
                    }
                    return;
                }
                let lacks = match &r {
                    Ty::Prim(p) => !self.registry.impls.contains_key(&(tr, TypeHead::Prim(*p))),
                    Ty::Con(id, _) => !self.registry.impls.contains_key(&(tr, TypeHead::Con(*id))),
                    _ => false,
                };
                if lacks {
                    let mut name = String::new();
                    push_str(&mut name, tr.name());
                    let ghost d = IErr::MissingImpl { span, trait_: tr, ty: r@ };
                    let e = Error { span, kind: ErrorKind::MissingImpl { trait_name: name, ty: r.to_string() } };
                    proof {
                        assert(name@ =~= crate::check::traits::trait_name(tr));
                    }
                    self.report(e, Ghost(d));
                } else {
                    proof { lemma_steps_refl(*self); }
                }
            },
            None => {
                proof { lemma_steps_refl(*self); }
            },
        }
    }

    /// Reports the variants that the arms of a match at `span` on a value of
    /// type `st` miss.
    fn check_coverage(&mut self, span: Span, st: &Ty, arms: &Vec<MatchArm>)
        requires
            old(self).subst.wf(),
        ensures
            steps(*old(self), *final(self)),
            final(self).counter() == old(self).counter(),
            final(self).locals == old(self).locals,
            final(self).expr_types_view() == old(self).expr_types_view(),
            final(self).pattern_types_view() == old(self).pattern_types_view(),
            final(self).state() == crate::check::model::coverage_m(old(self).env(), old(self).state(), span, st@, arms@),
    {
        let r = apply_subst(st, &self.subst);
        match crate::check::exhaust::check_arms(&r, arms.as_slice(), &self.registry) {
            crate::check::exhaust::Coverage::Missing(names) => {
                let ghost vs = match r@ {
                    STy::Con(id, _) => match self.registry.types@[DefId(id)].body {
                        crate::check::registry::TypeDeclBody::Sum(vs) => vs@,
                        _ => Seq::empty(),
                    },
                    _ => Seq::empty(),
                };
                let ghost d = IErr::NonExhaustive { span, missing: crate::check::exhaust::missing_variants(vs, arms@) };
                self.report(Error { span, kind: ErrorKind::NonExhaustiveMatch { missing: names } }, Ghost(d));
            },
            crate::check::exhaust::Coverage::Exhaustive => {
                proof { lemma_steps_refl(*self); }
            },
        }
    }

    /// Types a binary operator at `span` on operands of types `lt` and `rt`.
    fn infer_binop(&mut self, span: Span, op: BinOp, lhs_span: Span, rhs_span: Span, lt: Ty, rt: Ty) -> (r: Ty)
        requires
            old(self).subst.wf(),
        ensures
            steps(*old(self), *final(self)),
            (final(self).state(), r@) == binop_m(
                old(self).env(),
                old(self).state(),
                span,
                op,
                lhs_span,
                rhs_span,
                lt@,
                rt@,
            ),
    {
        let ghost s0 = *self;
        match TraitId::of_binop(&op) {
            None => {
                self.unify_or_report(lhs_span, &lt, &Ty::Prim(PrimTy::Bool));
                let ghost s1 = *self;
                self.unify_or_report(rhs_span, &rt, &Ty::Prim(PrimTy::Bool));
                proof { lemma_steps_trans(s0, s1, *self); }
                Ty::Prim(PrimTy::Bool)
            },
            Some(tr) => {
                self.unify_or_report(rhs_span, &lt, &rt);
                let ghost s1 = *self;
                self.check_obligation(span, Some(tr), &lt);
                proof { lemma_steps_trans(s0, s1, *self); }
                if tr.result_is_bool() {
                    Ty::Prim(PrimTy::Bool)
                } else {
                    lt
                }
            },
        }
    }

    /// Types a unary operator at `span` on an operand of type `t`.
    fn infer_unop(&mut self, span: Span, op: UnaryOp, operand_span: Span, t: Ty) -> (r: Ty)
        requires
            old(self).subst.wf(),
        ensures
            steps(*old(self), *final(self)),
            (final(self).state(), r@) == unop_m(old(self).env(), old(self).state(), span, op, operand_span, t@),
    {
        match op {
            UnaryOp::Not => {
                self.unify_or_report(operand_span, &t, &Ty::Prim(PrimTy::Bool));
                Ty::Prim(PrimTy::Bool)
            },
            UnaryOp::Neg => {
                self.check_obligation(span, Some(TraitId::Neg), &t);
                t
            },
        }
    }

    /// Unifies `v` with the type of each list element, reporting a failure at
    /// the element.
    fn unify_all(&mut self, es: &Vec<Expr>, ts: &Vec<Ty>, v: &Ty)
        requires
            old(self).subst.wf(),
            ts@.len() == es@.len(),
        ensures
            steps(*old(self), *final(self)),
            final(self).state() == unify_all_m(
                old(self).env(),
                old(self).state(),
                es@,
                stys(ts@),
                es@.len() as int,
                v@,
            ),
    {
        let ghost s0 = *self;
        proof { lemma_steps_refl(s0); lemma_stys(ts@); }
        let mut i: usize = 0;
        while i < es.len()
            invariant
                i <= es@.len(),
                ts@.len() == es@.len(),
                stys(ts@).len() == ts@.len(),
                forall|k: int| 0 <= k < ts@.len() ==> #[trigger] stys(ts@)[k] == ts@[k]@,
                steps(s0, *self),
                s0 == *old(self),
                self.env() == s0.env(),
                self.state() == unify_all_m(s0.env(), s0.state(), es@, stys(ts@), i as int, v@),
            decreases es@.len() - i,
        {
            let ghost s1 = *self;
            self.unify_or_report(es[i].span, v, &ts[i]);
            proof { lemma_steps_trans(s0, s1, *self); }
            i = i + 1;
        }
    }

    /// The type of a list literal of elements of type `v`.
    fn list_of(&mut self, span: Span, v: Ty) -> (r: Ty)
        requires
            old(self).subst.wf(),
        ensures
            steps(*old(self), *final(self)),
            (final(self).state(), r@) == list_of_m(old(self).env(), old(self).state(), span, v@),
    {
        let res = self.res;
        proof { lemma_def_named(res.defs@, "List"@); }
        match find_def_named(&res.defs, "List") {
            Some(k) => match res.defs[k].kind {
                DefKind::Type => {
                    proof { lemma_steps_refl(*self); }
                    let mut args: Vec<Ty> = Vec::new();
                    args.push(v);
                    proof {
                        lemma_stys(args@);
                        assert(stys(args@) =~= seq![v@]);
                    }
                    return Ty::Con(res.defs[k].id, args);
                },
                _ => {},
            },
            None => {},
        }
        let mut name = String::new();
        push_str(&mut name, "List");
        let ghost s1 = *self;
        self.report(
            Error { span, kind: ErrorKind::UnknownType { name } },
            Ghost(IErr::UnknownType { span, name: "List"@ }),
        );
        let ghost s2 = *self;
        let t = self.fresh_ty();
        proof { lemma_steps_trans(s1, s2, *self); }
        t
    }

    /// Types the arms of a match on a value of type `st` whose result has
    /// type `r`.
    fn infer_arms(&mut self, arms: &Vec<MatchArm>, st: &Ty, r: &Ty)
        requires
            old(self).subst.wf(),
        ensures
            steps(*old(self), *final(self)),
            final(self).state() == arms_infer(old(self).env(), old(self).state(), arms@, arms@.len() as int, st@, r@),
        decreases arms@, 1nat,
    {
        let ghost s0 = *self;
        proof { lemma_steps_refl(s0); }
        let mut i: usize = 0;
        while i < arms.len()
            invariant
                i <= arms@.len(),
                steps(s0, *self),
                s0 == *old(self),
                self.state() == arms_infer(s0.env(), s0.state(), arms@, i as int, st@, r@),
            decreases arms@.len() - i,
        {
            let arm = &arms[i];
            let ghost s1 = *self;
            let pr = self.infer_pattern(&arm.pattern);
            let ghost s2 = *self;
            self.unify_or_report(arm.pattern.span, st, &pr.ty);
            let ghost s3 = *self;
            proof { assert(decreases_to!(arms@ => arms@[i as int])); }
            let bt = self.infer_expr(&arm.body);
            let ghost s4 = *self;
            self.unify_or_report(arm.body.span, r, &bt);
            proof {
                let g = s0.env();
                assert(s1.env() == g && s2.env() == g && s3.env() == g && s4.env() == g);
                assert(arms_infer(g, s0.state(), arms@, i + 1, st@, r@) == arm_infer(
                    g,
                    arms_infer(g, s0.state(), arms@, i as int, st@, r@),
                    arms@[i as int],
                    st@,
                    r@,
                ));
                lemma_steps_trans(s1, s2, s3);
                lemma_steps_trans(s1, s3, s4);
                lemma_steps_trans(s1, s4, *self);
                lemma_steps_trans(s0, s1, *self);
            }
            i = i + 1;
        }
    }

    /// Infers the type of an expression and records it under the
    /// expression's span. Literals have their primitive types; a lambda has
    /// a function type with a parameter per pattern; a call has a fresh
    /// result variable, unified into the callee's type.
    pub fn infer_expr(&mut self, e: &Expr) -> (r: Ty)
        requires
            old(self).subst.wf(),
        ensures
            steps(*old(self), *final(self)),
            final(self).expr_types_view().contains_key(e.span),
            final(self).expr_types_view()[e.span]@ == r@,
            (final(self).state(), r@) == expr_infer(old(self).env(), old(self).state(), *e),
        decreases e, 2nat,
    {
        let ghost s0 = *self;
        let res = self.res;
        let ty: Ty = match &e.node {
            ExprKind::IntLit(_) => {
                proof { lemma_steps_refl(s0); }
                Ty::Prim(PrimTy::Int)
            },
            ExprKind::FloatLit(_) => {
                proof { lemma_steps_refl(s0); }
                Ty::Prim(PrimTy::Float)
            },
            ExprKind::StringLit(_) => {
                proof { lemma_steps_refl(s0); }
                Ty::Prim(PrimTy::String)
            },
            ExprKind::Var(_) => {
                let target = match res.refs.get(&e.span) {
                    Some(ResolvedName::TopLevel(id)) => Some((true, id.0)),
                    Some(ResolvedName::Local(lid)) => Some((false, lid.0)),
                    _ => None,
                };
                match target {
                    Some((true, id)) => {
                        let scheme = match self.schemes.get(&DefId(id)) {
                            Some(sc) => Some(copy_scheme(sc)),
                            None => None,
                        };
                        match scheme {
                            Some(sc) => {
                                proof {
                                    assert(crate::check::model::scheme_v(sc) == crate::check::model::scheme_v(s0.schemes@[DefId(id)]));
                                }
                                proof {
                                    assert(crate::check::model::cons_v(sc.constraints@) =~= crate::check::model::cons_v(
                                        s0.schemes@[DefId(id)].constraints@,
                                    ));
                                }
                                let t = self.instantiate_at(sc, e.span);
                                proof { lemma_steps_refl(s0); }
                                t
                            },
                            None => self.fresh_ty(),
                        }
                    },
                    Some((false, lid)) => {
                        let local = match self.locals.get(&LocalId(lid)) {
                            Some(t) => Some(copy_ty(t)),
                            None => None,
                        };
                        match local {
                            Some(t) => {
                                proof { lemma_steps_refl(s0); }
                                t
                            },
                            None => self.fresh_ty(),
                        }
                    },
                    None => self.fresh_ty(),
                }
            },
            ExprKind::Ctor(name) => {
                let ctor = match res.refs.get(&e.span) {
                    Some(ResolvedName::Ctor(id)) => Some(*id),
                    _ => None,
                };
                match ctor {
                    Some(id) => {
                        let scheme = match self.schemes.get(&id) {
                            Some(sc) => Some(copy_scheme(sc)),
                            None => None,
                        };
                        match scheme {
                            Some(sc) => {
                                proof {
                                    assert(crate::check::model::scheme_v(sc) == crate::check::model::scheme_v(s0.schemes@[id]));
                                }
                                self.instantiate(sc)
                            },
                            None => self.fresh_ty(),
                        }
                    },
                    None => {
                        self.report(
                            Error { span: e.span, kind: ErrorKind::Unresolved { name: copy_string(name) } },
                            Ghost(IErr::Unresolved { span: e.span, name: name@ }),
                        );
                        let ghost s1 = *self;
                        let t = self.fresh_ty();
                        proof { lemma_steps_trans(s0, s1, *self); }
                        t
                    },
                }
            },
            ExprKind::Lambda { params, body } => {
                let mut param_tys: Vec<Ty> = Vec::new();
                let mut i: usize = 0;
                proof { lemma_steps_refl(s0); }
                while i < params.len()
                    invariant
                        i <= params@.len(),
                        param_tys@.len() == i,
                        steps(s0, *self),
                        s0 == *old(self),
                        (self.state(), stys(param_tys@)) == params_m(s0.env(), s0.state(), params@, i as int),
                    decreases params@.len() - i,
                {
                    let ghost s1 = *self;
                    let ghost prev = param_tys@;
                    let pr = self.infer_pattern(&params[i]);
                    proof { lemma_steps_trans(s0, s1, *self); }
                    param_tys.push(pr.ty);
                    proof {
                        assert(param_tys@.drop_last() =~= prev);
                    }
                    i = i + 1;
                }
                let ghost s2 = *self;
                let result_ty = self.infer_expr(body);
                proof {
                    lemma_steps_trans(s0, s2, *self);
                    lemma_stys(param_tys@);
                }
                Ty::Fun(param_tys, EffectRow::pure(), Box::new(result_ty))
            },
            ExprKind::Call { func, args } => {
                let fn_ty = self.infer_expr(func);
                let ghost s1 = *self;
                let arg_tys = self.infer_exprs(args);
                let ghost s3 = *self;
                let result_v = self.fresh_ty();
                let expected = Ty::Fun(arg_tys, EffectRow::pure(), Box::new(copy_ty(&result_v)));
                let ghost s4 = *self;
                self.unify_or_report(func.span, &fn_ty, &expected);
                proof {
                    lemma_steps_trans(s0, s1, s3);
                    lemma_steps_trans(s0, s3, s4);
                    lemma_steps_trans(s0, s4, *self);
                }
                result_v
            },
            ExprKind::Paren(inner) => self.infer_expr(inner),
            ExprKind::List(items) => {
                let ts = self.infer_exprs(items);
                let ghost s1 = *self;
                let v = self.fresh_ty();
                let ghost s2 = *self;
                self.unify_all(items, &ts, &v);
                let ghost s3 = *self;
                let t = self.list_of(e.span, v);
                proof {
                    lemma_steps_trans(s0, s1, s2);
                    lemma_steps_trans(s0, s2, s3);
                    lemma_steps_trans(s0, s3, *self);
                }
                t
            },
            ExprKind::Match { scrutinee, arms } => {
                let st = self.infer_expr(scrutinee);
                let ghost s1 = *self;
                let r = self.fresh_ty();
                let ghost s2 = *self;
                self.infer_arms(arms, &st, &r);
                let ghost s3 = *self;
                self.check_coverage(e.span, &st, arms);
                proof {
                    lemma_steps_trans(s0, s1, s2);
                    lemma_steps_trans(s0, s2, s3);
                    lemma_steps_trans(s0, s3, *self);
                }
                r
            },
            ExprKind::BinOp { op, lhs, rhs } => {
                let lt = self.infer_expr(lhs);
                let ghost s1 = *self;
                let rt = self.infer_expr(rhs);
                let ghost s2 = *self;
                let t = self.infer_binop(e.span, *op, lhs.span, rhs.span, lt, rt);
                proof {
                    lemma_steps_trans(s0, s1, s2);
                    lemma_steps_trans(s0, s2, *self);
                }
                t
            },
            ExprKind::UnaryOp { op, expr } => {
                let t0 = self.infer_expr(expr);
                let ghost s1 = *self;
                let t = self.infer_unop(e.span, *op, expr.span, t0);
                proof { lemma_steps_trans(s0, s1, *self); }
                t
            },
            ExprKind::Construct { ty_name, fields } => self.infer_construct(e.span, ty_name, fields),
            ExprKind::Update { value, fields } => {
                let value_ty = self.infer_expr(value);
                let ghost s1 = *self;
                let t = self.infer_update(e.span, value_ty, fields);
                proof { lemma_steps_trans(s0, s1, *self); }
                t
            },
            ExprKind::FieldAccess { receiver, field } => {
                let recv_ty = self.infer_expr(receiver);
                let ghost s1 = *self;
                let t = self.infer_field_access(e.span, receiver.span, recv_ty, field);
                proof { lemma_steps_trans(s0, s1, *self); }
                t
            },
            ExprKind::Block(items) => self.infer_block(items),
            _ => self.fresh_ty(),
        };
        let ghost s9 = *self;
        self.record_expr_type(e.span, copy_ty(&ty));
        proof {
            lemma_steps_refl(*self);
            assert(steps(s9, *self));
            lemma_steps_trans(s0, s9, *self);
        }
        ty
    }

    /// Checks a binding's value against the type `expected` it has so far.
    pub fn infer_value(&mut self, v: &Expr, expected: &Ty) -> (r: Ty)
        requires
            old(self).subst.wf(),
        ensures
            steps(*old(self), *final(self)),
            (final(self).state(), r@) == crate::check::model::value_m(old(self).env(), old(self).state(), *v, expected@),
    {
        let ghost s0 = *self;
        proof {
            match expected {
                Ty::Fun(ps, _, _) => lemma_stys(ps@),
                _ => {},
            }
        }
        let arity = match (&v.node, expected) {
            (ExprKind::Lambda { params, .. }, Ty::Fun(ps, _, _)) => ps.len() == params.len(),
            _ => false,
        };
        if !arity {
            return self.infer_expr(v);
        }
        let (params, body) = match &v.node {
            ExprKind::Lambda { params, body } => (params, body),
            _ => {
                return self.infer_expr(v);
            },
        };
        let ps = match expected {
            Ty::Fun(ps, _, _) => ps,
            _ => {
                return self.infer_expr(v);
            },
        };
        let mut param_tys: Vec<Ty> = Vec::new();
        let mut i: usize = 0;
        proof { lemma_steps_refl(s0); }
        while i < params.len()
            invariant
                i <= params@.len(),
                param_tys@.len() == i,
                steps(s0, *self),
                s0 == *old(self),
                (self.state(), stys(param_tys@)) == params_m(s0.env(), s0.state(), params@, i as int),
            decreases params@.len() - i,
        {
            let ghost s1 = *self;
            let ghost prev = param_tys@;
            let pr = self.infer_pattern(&params[i]);
            proof { lemma_steps_trans(s0, s1, *self); }
            param_tys.push(pr.ty);
            proof {
                assert(param_tys@.drop_last() =~= prev);
            }
            i = i + 1;
        }
        let ghost s2 = *self;
        proof { lemma_stys(param_tys@); lemma_stys(ps@); lemma_steps_refl(s2); }
        let mut j: usize = 0;
        while j < params.len()
            invariant
                j <= params@.len(),
                param_tys@.len() == params@.len(),
                ps@.len() == params@.len(),
                steps(s0, *self),
                steps(s2, *self),
                s0 == *old(self),
                s2.env() == s0.env(),
                stys(param_tys@).len() == param_tys@.len(),
                forall|q: int| 0 <= q < param_tys@.len() ==> #[trigger] stys(param_tys@)[q] == param_tys@[q]@,
                stys(ps@).len() == ps@.len(),
                forall|q: int| 0 <= q < ps@.len() ==> #[trigger] stys(ps@)[q] == ps@[q]@,
                self.state() == crate::check::model::expect_params_m(
                    s0.env(),
                    s2.state(),
                    params@,
                    stys(param_tys@),
                    stys(ps@),
                    j as int,
                ),
            decreases params@.len() - j,
        {
            let ghost s3 = *self;
            self.unify_or_report(params[j].span, &ps[j], &param_tys[j]);
            proof {
                lemma_steps_trans(s0, s3, *self);
                lemma_steps_trans(s2, s3, *self);
            }
            j = j + 1;
        }
        let ghost s4 = *self;
        let result_ty = self.infer_expr(body);
        let ty = Ty::Fun(param_tys, EffectRow::pure(), Box::new(result_ty));
        let ghost s5 = *self;
        self.record_expr_type(v.span, copy_ty(&ty));
        proof {
            lemma_steps_trans(s0, s4, s5);
            lemma_steps_refl(*self);
            assert(steps(s5, *self));
            lemma_steps_trans(s0, s5, *self);
        }
        ty
    }

    /// The types of the expressions, inferred in order.
    fn infer_exprs(&mut self, es: &Vec<Expr>) -> (r: Vec<Ty>)
        requires
            old(self).subst.wf(),
        ensures
            steps(*old(self), *final(self)),
            r@.len() == es@.len(),
            (final(self).state(), stys(r@)) == exprs_infer(old(self).env(), old(self).state(), es@, es@.len() as int),
        decreases es@, 1nat,
    {
        let ghost s0 = *self;
        proof { lemma_steps_refl(s0); }
        let mut out: Vec<Ty> = Vec::new();
        let mut i: usize = 0;
        while i < es.len()
            invariant
                i <= es@.len(),
                out@.len() == i,
                steps(s0, *self),
                s0 == *old(self),
                (self.state(), stys(out@)) == exprs_infer(s0.env(), s0.state(), es@, i as int),
            decreases es@.len() - i,
        {
            let ghost s1 = *self;
            let ghost prev = out@;
            let t = self.infer_expr(&es[i]);
            proof { lemma_steps_trans(s0, s1, *self); }
            out.push(t);
            proof {
                assert(out@.drop_last() =~= prev);
            }
            i = i + 1;
        }
        out
    }

    /// The type of a block: that of its last expression, `Unit` when it ends
    /// with a binding or is empty. Bindings give their locals the types of
    /// their values.
    fn infer_block(&mut self, items: &Vec<crate::ast::BlockItem>) -> (r: Ty)
        requires
            old(self).subst.wf(),
        ensures
            steps(*old(self), *final(self)),
            (final(self).state(), r@) == block_m(old(self).env(), old(self).state(), items@, items@.len() as int),
        decreases items@, 1nat,
    {
        let ghost s0 = *self;
        proof { lemma_steps_refl(s0); }
        let mut last_ty = Ty::Prim(PrimTy::Unit);
        let mut i: usize = 0;
        while i < items.len()
            invariant
                i <= items@.len(),
                steps(s0, *self),
                s0 == *old(self),
                (self.state(), last_ty@) == block_m(s0.env(), s0.state(), items@, i as int),
            decreases items@.len() - i,
        {
            let ghost s1 = *self;
            last_ty = self.infer_block_item(&items[i]);
            proof { lemma_steps_trans(s0, s1, *self); }
            i = i + 1;
        }
        last_ty
    }

    fn infer_block_item(&mut self, item: &crate::ast::BlockItem) -> (r: Ty)
        requires
            old(self).subst.wf(),
        ensures
            steps(*old(self), *final(self)),
            (final(self).state(), r@) == block_item_m(old(self).env(), old(self).state(), *item),
        decreases item, 0nat,
    {
        let ghost s0 = *self;
        let res = self.res;
        match item {
            crate::ast::BlockItem::Binding(decl) => {
                match &decl.node {
                    crate::ast::DeclKind::Binding { value: Some(value), .. } => {
                        let value_ty = self.infer_expr(value);
                        let lid = match res.refs.get(&decl.span) {
                            Some(ResolvedName::Local(lid)) => Some(*lid),
                            _ => None,
                        };
                        match lid {
                            Some(lid) => {
                                let ghost l0 = self.locals@;
                                let ghost vt = value_ty;
                                self.locals.insert(lid, value_ty);
                                proof { lemma_tmap_insert(l0, lid, vt); }
                            },
                            None => {},
                        }
                    },
                    _ => {
                        proof { lemma_steps_refl(s0); }
                    },
                }
                Ty::Prim(PrimTy::Unit)
            },
            crate::ast::BlockItem::Expr(expr) => self.infer_expr(expr),
        }
    }

    /// Infers each keyword argument's value and unifies it with the declared
    /// type of the field it names (with the type's parameters replaced by
    /// `args`); values of undeclared fields are inferred only.
    fn infer_kwargs_against(
        &mut self,
        fields: &Vec<KwArg>,
        decl_fields: &Vec<FieldInfo>,
        params: &Vec<TyVarId>,
        args: &Vec<Ty>,
    )
        requires
            old(self).subst.wf(),
        ensures
            steps(*old(self), *final(self)),
            final(self).state() == kwargs_infer(
                old(self).env(),
                old(self).state(),
                fields@,
                fields@.len() as int,
                field_views(decl_fields@),
                ids(params@),
                stys(args@),
            ),
        decreases fields@, 1nat,
    {
        let ghost s0 = *self;
        proof { lemma_steps_refl(s0); }
        let mut i: usize = 0;
        while i < fields.len()
            invariant
                i <= fields@.len(),
                steps(s0, *self),
                s0 == *old(self),
                self.state() == kwargs_infer(
                    s0.env(),
                    s0.state(),
                    fields@,
                    i as int,
                    field_views(decl_fields@),
                    ids(params@),
                    stys(args@),
                ),
            decreases fields@.len() - i,
        {
            let ghost s1 = *self;
            self.infer_kwarg_against(&fields[i], decl_fields, params, args);
            proof { lemma_steps_trans(s0, s1, *self); }
            i = i + 1;
        }
    }

    fn infer_kwarg_against(
        &mut self,
        kw: &KwArg,
        decl_fields: &Vec<FieldInfo>,
        params: &Vec<TyVarId>,
        args: &Vec<Ty>,
    )
        requires
            old(self).subst.wf(),
        ensures
            steps(*old(self), *final(self)),
            final(self).state() == kwarg_infer(
                old(self).env(),
                old(self).state(),
                *kw,
                field_views(decl_fields@),
                ids(params@),
                stys(args@),
            ),
        decreases kw, 0nat,
    {
        let ghost s0 = *self;
        let provided_ty = self.infer_expr(&kw.value);
        match field_named(decl_fields, kw.name.as_str()) {
            Some(j) => {
                let decl_ty = subst_params(&decl_fields[j].ty, params, args);
                let ghost s1 = *self;
                self.unify_or_report(kw.value.span, &decl_ty, &provided_ty);
                proof { lemma_steps_trans(s0, s1, *self); }
            },
            None => {},
        }
    }

    /// The type of a record construction `Name(field = value, ..)` at `span`:
    /// missing and unknown fields are reported, each name once.
    fn infer_construct(&mut self, span: Span, ty_name: &String, fields: &Vec<KwArg>) -> (r: Ty)
        requires
            old(self).subst.wf(),
        ensures
            steps(*old(self), *final(self)),
            (final(self).state(), r@) == construct_m(old(self).env(), old(self).state(), span, *ty_name, fields@),
        decreases fields@, 2nat,
    {
        let ghost s0 = *self;
        let res = self.res;
        let def_id = match res.refs.get(&span) {
            Some(ResolvedName::TopLevel(id)) => *id,
            _ => {
                return self.fresh_ty();
            },
        };
        let lookup: Option<Option<(Vec<TyVarId>, Vec<FieldInfo>)>> = match self.registry.types.get(&def_id) {
            Some(info) => match &info.body {
                TypeDeclBody::Record(fs) => Some(Some((copy_ids(&info.params), copy_fields(fs)))),
                _ => Some(None),
            },
            None => None,
        };
        let (params, decl_fields) = match lookup {
            Some(Some(x)) => x,
            Some(None) => {
                self.report(
                    Error { span, kind: ErrorKind::UnknownType { name: copy_string(ty_name) } },
                    Ghost(IErr::UnknownType { span, name: ty_name@ }),
                );
                let ghost s1 = *self;
                let t = self.fresh_ty();
                proof { lemma_steps_trans(s0, s1, *self); }
                return t;
            },
            None => {
                return self.fresh_ty();
            },
        };
        let ghost fv = field_views(decl_fields@);
        let result_args = self.fresh_for(&params);
        let ghost m1 = self.state();
        let ghost s1 = *self;
        proof {
            lemma_steps_refl(s1);
            assert(self.state().diags == m1.diags + missing_reports(fv, fields@, span, ty_name@, 0));
        }
        let mut i: usize = 0;
        while i < decl_fields.len()
            invariant
                i <= decl_fields@.len(),
                steps(s0, *self),
                s0 == *old(self),
                fv == field_views(decl_fields@),
                fv.len() == decl_fields@.len(),
                self.state() == (IState {
                    diags: m1.diags + missing_reports(fv, fields@, span, ty_name@, i as int),
                    ..m1
                }),
            decreases decl_fields@.len() - i,
        {
            let name = decl_fields[i].name.as_str();
            let earlier = match field_named(&decl_fields, name) {
                Some(j) => j < i,
                None => false,
            };
            proof {
                assert(fv[i as int].0 == decl_fields@[i as int].name@);
                lemma_field_index_in(fv, fv[i as int].0, fv.len() as int);
                let fi = field_index(fv, fv[i as int].0);
                if fi == -1 || i < fi {
                    assert(fv[i as int].0 != fv[i as int].0);
                }
                assert(!earlier <==> fi == i);
            }
            let ghost d0 = self.state().diags;
            if !earlier && !kwarg_named(fields, fields.len(), name) {
                let ghost s2 = *self;
                self.report(
                    Error {
                        span,
                        kind: ErrorKind::MissingField { ty_name: copy_string(ty_name), field: copy_string(&decl_fields[i].name) },
                    },
                    Ghost(IErr::MissingField { span, ty_name: ty_name@, field: decl_fields@[i as int].name@ }),
                );
                proof {
                    lemma_steps_trans(s0, s2, *self);
                    assert(m1.diags + missing_reports(fv, fields@, span, ty_name@, i as int).push(
                        IErr::MissingField { span, ty_name: ty_name@, field: fv[i as int].0 },
                    ) =~= d0.push(IErr::MissingField { span, ty_name: ty_name@, field: fv[i as int].0 }));
                }
            }
            proof {
                assert(missing_reports(fv, fields@, span, ty_name@, i + 1) == if field_index(fv, fv[i as int].0) == i
                    && !kw_has(fields@, fields@.len() as int, fv[i as int].0) {
                    missing_reports(fv, fields@, span, ty_name@, i as int).push(
                        IErr::MissingField { span, ty_name: ty_name@, field: fv[i as int].0 },
                    )
                } else {
                    missing_reports(fv, fields@, span, ty_name@, i as int)
                });
            }
            i = i + 1;
        }
        let ghost m2 = self.state();
        proof {
            assert(m2.diags == m2.diags + unknown_reports(fields@, fv, span, ty_name@, 0));
        }
        let mut i: usize = 0;
        while i < fields.len()
            invariant
                i <= fields@.len(),
                steps(s0, *self),
                s0 == *old(self),
                fv == field_views(decl_fields@),
                self.state() == (IState {
                    diags: m2.diags + unknown_reports(fields@, fv, span, ty_name@, i as int),
                    ..m2
                }),
            decreases fields@.len() - i,
        {
            let name = fields[i].name.as_str();
            if !kwarg_named(fields, i, name) && field_named(&decl_fields, name).is_none() {
                let ghost s2 = *self;
                self.report(
                    Error {
                        span,
                        kind: ErrorKind::UnknownField { ty_name: copy_string(ty_name), field: copy_string(&fields[i].name) },
                    },
                    Ghost(IErr::UnknownField { span, ty_name: ty_name@, field: fields@[i as int].name@ }),
                );
                proof { lemma_steps_trans(s0, s2, *self); }
            }
            i = i + 1;
        }
        let ghost s3 = *self;
        proof {
            assert(self.state().diags =~= m1.diags + missing_reports(fv, fields@, span, ty_name@, fv.len() as int)
                + unknown_reports(fields@, fv, span, ty_name@, fields@.len() as int));
        }
        self.infer_kwargs_against(fields, &decl_fields, &params, &result_args);
        proof { lemma_steps_trans(s0, s3, *self); }
        Ty::Con(def_id, result_args)
    }

    /// The type of a record update at `span` of a value of type `value_ty`:
    /// that type; fields the record does not declare are reported.
    fn infer_update(&mut self, span: Span, value_ty: Ty, fields: &Vec<KwArg>) -> (r: Ty)
        requires
            old(self).subst.wf(),
        ensures
            steps(*old(self), *final(self)),
            (final(self).state(), r@) == update_m(old(self).env(), old(self).state(), span, value_ty@, fields@),
        decreases fields@, 2nat,
    {
        let ghost s0 = *self;
        proof { lemma_steps_refl(s0); }
        let resolved = apply_subst(&value_ty, &self.subst);
        let (def_id, type_args) = match &resolved {
            Ty::Con(id, args) => (*id, copy_tys(args)),
            _ => {
                return value_ty;
            },
        };
        let lookup: Option<Option<(Vec<TyVarId>, Vec<FieldInfo>, String)>> = match self.registry.types.get(&def_id) {
            Some(info) => match &info.body {
                TypeDeclBody::Record(fs) => Some(Some((copy_ids(&info.params), copy_fields(fs), copy_string(&info.name)))),
                _ => Some(None),
            },
            None => None,
        };
        let (params, decl_fields, info_name) = match lookup {
            Some(Some(x)) => x,
            _ => {
                return value_ty;
            },
        };
        let ghost fv = field_views(decl_fields@);
        let ghost m1 = self.state();
        proof {
            assert(m1.diags == m1.diags + update_reports(fields@, fv, span, info_name@, 0));
        }
        let mut i: usize = 0;
        while i < fields.len()
            invariant
                i <= fields@.len(),
                steps(s0, *self),
                s0 == *old(self),
                fv == field_views(decl_fields@),
                self.state() == (IState {
                    diags: m1.diags + update_reports(fields@, fv, span, info_name@, i as int),
                    ..m1
                }),
            decreases fields@.len() - i,
        {
            if field_named(&decl_fields, fields[i].name.as_str()).is_none() {
                let ghost s2 = *self;
                self.report(
                    Error {
                        span,
                        kind: ErrorKind::UnknownField { ty_name: copy_string(&info_name), field: copy_string(&fields[i].name) },
                    },
                    Ghost(IErr::UnknownField { span, ty_name: info_name@, field: fields@[i as int].name@ }),
                );
                proof { lemma_steps_trans(s0, s2, *self); }
            }
            i = i + 1;
        }
        let ghost s3 = *self;
        self.infer_kwargs_against(fields, &decl_fields, &params, &type_args);
        proof { lemma_steps_trans(s0, s3, *self); }
        Ty::Con(def_id, type_args)
    }

    /// The type of `receiver.field`: a record field, or a method with the
    /// receiver as its first argument.
    fn infer_field_access(&mut self, span: Span, recv_span: Span, recv_ty: Ty, field: &String) -> (r: Ty)
        requires
            old(self).subst.wf(),
        ensures
            steps(*old(self), *final(self)),
            (final(self).state(), r@) == field_access_m(
                old(self).env(),
                old(self).state(),
                span,
                recv_span,
                recv_ty@,
                field@,
            ),
    {
        let ghost s0 = *self;
        proof { lemma_steps_refl(s0); }
        let ghost s1 = *self;
        let resolved = apply_subst(&recv_ty, &self.subst);
        let (parent, type_args) = match &resolved {
            Ty::Con(id, args) => (*id, copy_tys(args)),
            _ => {
                self.report(
                    Error {
                        span: recv_span,
                        kind: ErrorKind::CannotAccessMember { ty: resolved.to_string(), member: copy_string(field) },
                    },
                    Ghost(IErr::NoMember { span: recv_span, ty: resolved@, member: field@ }),
                );
                let ghost s2 = *self;
                let t = self.fresh_ty();
                proof { lemma_steps_trans(s0, s1, s2); lemma_steps_trans(s0, s2, *self); }
                return t;
            },
        };
        proof { lemma_stys(type_args@); }
        // What the type declares under `field`.
        let found: Option<(Vec<TyVarId>, Member)> = match self.registry.types.get(&parent) {
            Some(info) => {
                let field_ty = match &info.body {
                    TypeDeclBody::Record(fs) => match field_named(fs, field.as_str()) {
                        Some(j) => Some(copy_ty(&fs[j].ty)),
                        None => None,
                    },
                    _ => None,
                };
                let member = match field_ty {
                    Some(t) => Member::Field(t),
                    None => match method_named(&info.methods, field.as_str()) {
                        Some(k) => Member::Method(copy_scheme(&info.methods[k].scheme)),
                        None => Member::Unknown(copy_string(&info.name)),
                    },
                };
                Some((copy_ids(&info.params), member))
            },
            None => None,
        };
        let (params, member) = match found {
            Some(x) => x,
            None => {
                let t = self.fresh_ty();
                proof { lemma_steps_trans(s0, s1, *self); }
                return t;
            },
        };
        let n = if params.len() <= type_args.len() {
            params.len()
        } else {
            type_args.len()
        };
        match member {
            Member::Field(fty) => {
                proof { lemma_steps_refl(s1); lemma_steps_trans(s0, s1, *self); }
                subst_params(&fty, &params, &type_args)
            },
            Member::Unknown(owner) => {
                let ghost owner_v = owner@;
                self.report(
                    Error {
                        span,
                        kind: ErrorKind::UnknownField { ty_name: owner, field: copy_string(field) },
                    },
                    Ghost(IErr::UnknownField { span, ty_name: owner_v, field: field@ }),
                );
                let ghost s2 = *self;
                let t = self.fresh_ty();
                proof { lemma_steps_trans(s0, s1, s2); lemma_steps_trans(s0, s2, *self); }
                t
            },
            Member::Method(scheme) => {
                // The method's scheme, with the type's parameters bound to the
                // receiver's arguments and its other variables fresh.
                let mut mparams: Vec<TyVarId> = Vec::new();
                let mut margs: Vec<Ty> = Vec::new();
                let mut k: usize = 0;
                while k < n
                    invariant
                        k <= n,
                        n <= params@.len(),
                        n <= type_args@.len(),
                        stys(type_args@).len() == type_args@.len(),
                        mparams@ == params@.take(k as int),
                        stys(margs@) == stys(type_args@).take(k as int),
                        margs@.len() == k,
                    decreases n - k,
                {
                    let ghost pm = margs@;
                    mparams.push(params[k]);
                    margs.push(copy_ty(&type_args[k]));
                    proof {
                        assert(params@.take(k + 1) =~= params@.take(k as int).push(params@[k as int]));
                        assert(margs@.drop_last() =~= pm);
                        lemma_stys(type_args@);
                        assert(stys(type_args@).take(k + 1) =~= stys(type_args@).take(k as int).push(
                            type_args@[k as int]@,
                        ));
                    }
                    k = k + 1;
                }
                let ghost s2 = *self;
                let ghost vs = ids(scheme.vars@);
                proof {
                    lemma_steps_refl(s2);
                    assert(ids(mparams@) =~= ids(params@).take(n as int));
                }
                let mut k: usize = 0;
                while k < scheme.vars.len()
                    invariant
                        k <= scheme.vars@.len(),
                        vs == ids(scheme.vars@),
                        vs.len() == scheme.vars@.len(),
                        mparams@.len() == margs@.len(),
                        stys(margs@).len() == margs@.len(),
                        steps(s2, *self),
                        method_vars_m(s2.state(), vs, 0, ids(params@).take(n as int), stys(type_args@).take(
                            n as int,
                        )) == method_vars_m(self.state(), vs, k as int, ids(mparams@), stys(margs@)),
                    decreases scheme.vars@.len() - k,
                {
                    let v = scheme.vars[k];
                    if param_position(&mparams, mparams.len(), v).is_none() {
                        let ghost pp = mparams@;
                        let ghost pa = margs@;
                        mparams.push(v);
                        let ghost s3 = *self;
                        let t = self.fresh_ty();
                        proof { lemma_steps_trans(s2, s3, *self); }
                        margs.push(t);
                        proof {
                            assert(ids(mparams@) =~= ids(pp).push(v.0));
                            assert(margs@.drop_last() =~= pa);
                            lemma_stys(margs@);
                        }
                    }
                    k = k + 1;
                }
                proof {
                    lemma_steps_trans(s0, s1, s2);
                    lemma_steps_trans(s0, s2, *self);
                }
                let instantiated = subst_params(&scheme.ty, &mparams, &margs);
                match instantiated {
                    Ty::Fun(ps, row, ret) => {
                        proof { lemma_stys(ps@); }
                        if ps.len() == 0 {
                            return *ret;
                        }
                        let ghost s3 = *self;
                        self.unify_or_report(recv_span, &ps[0], &recv_ty);
                        proof { lemma_steps_trans(s0, s3, *self); }
                        let mut rest: Vec<Ty> = Vec::new();
                        let mut k: usize = 1;
                        while k < ps.len()
                            invariant
                                1 <= k <= ps@.len(),
                                stys(ps@).len() == ps@.len(),
                                stys(rest@) == stys(ps@).subrange(1, k as int),
                                rest@.len() == k - 1,
                            decreases ps@.len() - k,
                        {
                            let ghost pr = rest@;
                            rest.push(copy_ty(&ps[k]));
                            proof {
                                assert(rest@.drop_last() =~= pr);
                                lemma_stys(ps@);
                                assert(stys(ps@).subrange(1, k + 1) =~= stys(ps@).subrange(1, k as int).push(
                                    ps@[k as int]@,
                                ));
                            }
                            k = k + 1;
                        }
                        if rest.len() == 0 {
                            return *ret;
                        }
                        Ty::Fun(rest, row, ret)
                    },
                    other => other,
                }
            },
        }
    }

    /// Infers the type of a pattern and the locals it binds, and records
    /// the type under the pattern's span. A wildcard has a fresh variable; a
    /// variable a fresh variable, bound to its local; a literal its type.
    pub fn infer_pattern(&mut self, p: &Pattern) -> (r: PatternResult)
        requires
            old(self).subst.wf(),
        ensures
            steps(*old(self), *final(self)),
            final(self).pattern_types_view().contains_key(p.span),
            final(self).pattern_types_view()[p.span]@ == r.ty@,
            p.node is Wildcard ==> r.ty@ == STy::Var(old(self).counter()) && r.bindings@.len() == 0,
            p.node matches PatternKind::Lit(l) ==> r.ty@ == STy::Prim(lit_pat_type(l))
                && r.bindings@.len() == 0,
            p.node is Var ==> r.ty@ == STy::Var(old(self).counter()) && match old(self).res.refs@.get(p.span) {
                Some(ResolvedName::Local(lid)) => r.bindings@ == seq![lid]
                    && final(self).locals@.contains_key(lid) && final(self).locals@[lid]@ == r.ty@,
                _ => r.bindings@.len() == 0,
            },
            (final(self).state(), r.ty@, r.bindings@) == crate::check::model::pat_infer(old(self).env(), old(self).state(), *p),
        decreases p, 2nat,
    {
        let ghost s0 = *self;
        let res = self.res;
        let result = match &p.node {
            PatternKind::Wildcard => {
                let t = self.fresh_ty();
                PatternResult { ty: t, bindings: Vec::new() }
            },
            PatternKind::Var(_) => {
                let ty = self.fresh_ty();
                let lid = match res.refs.get(&p.span) {
                    Some(ResolvedName::Local(lid)) => Some(*lid),
                    _ => None,
                };
                match lid {
                    Some(lid) => {
                        let ghost l0 = self.locals@;
                        let c = copy_ty(&ty);
                        self.locals.insert(lid, c);
                        proof { lemma_tmap_insert(l0, lid, c); }
                        let mut bindings: Vec<LocalId> = Vec::new();
                        bindings.push(lid);
                        proof { assert(bindings@ =~= seq![lid]); }
                        PatternResult { ty, bindings }
                    },
                    None => PatternResult { ty, bindings: Vec::new() },
                }
            },
            PatternKind::Lit(lit) => {
                proof { lemma_steps_refl(s0); }
                let ty = match lit {
                    LitPat::Int(_) => Ty::Prim(PrimTy::Int),
                    LitPat::Float(_) => Ty::Prim(PrimTy::Float),
                    LitPat::Str(_) => Ty::Prim(PrimTy::String),
                };
                PatternResult { ty, bindings: Vec::new() }
            },
            PatternKind::Ctor { name, args } => self.infer_ctor_pattern(p.span, name, args),
            PatternKind::Record { ty_name, fields } => self.infer_record_pattern(p.span, ty_name, fields),
            _ => {
                let t = self.fresh_ty();
                PatternResult { ty: t, bindings: Vec::new() }
            },
        };
        let ghost s9 = *self;
        self.record_pattern_type(p.span, copy_ty(&result.ty));
        proof {
            lemma_steps_refl(*self);
            assert(steps(s9, *self));
            lemma_steps_trans(s0, s9, *self);
        }
        result
    }

    /// A constructor pattern: the constructor's instantiated scheme gives
    /// the payload types, unified with the argument patterns.
    fn infer_ctor_pattern(&mut self, span: Span, name: &String, args: &Vec<Pattern>) -> (r: PatternResult)
        requires
            old(self).subst.wf(),
        ensures
            steps(*old(self), *final(self)),
            (final(self).state(), r.ty@, r.bindings@) == crate::check::model::ctor_pattern_m(
                old(self).env(),
                old(self).state(),
                span,
                *name,
                args@,
            ),
        decreases args@, 1nat,
    {
        let p_span = span;
        let ghost s0 = *self;
        let res = self.res;
        let ctor_id = match res.refs.get(&p_span) {
            Some(ResolvedName::Ctor(id)) => *id,
            _ => {
                self.report(
                    Error { span: p_span, kind: ErrorKind::Unresolved { name: copy_string(name) } },
                    Ghost(IErr::Unresolved { span: p_span, name: name@ }),
                );
                let ghost s1 = *self;
                let t = self.fresh_ty();
                proof { lemma_steps_trans(s0, s1, *self); }
                return PatternResult { ty: t, bindings: Vec::new() };
            },
        };
        let scheme = match self.schemes.get(&ctor_id) {
            Some(sc) => copy_scheme(sc),
            None => {
                let t = self.fresh_ty();
                return PatternResult { ty: t, bindings: Vec::new() };
            },
        };
        proof {
            assert(crate::check::model::scheme_v(scheme) == crate::check::model::scheme_v(s0.schemes@[ctor_id]));
        }
        let inst = self.instantiate(scheme);
        let ghost s1 = *self;
        proof { lemma_steps_refl(s1); }
        let (payload_tys, result_ty) = match inst {
            Ty::Fun(ps, _, r) => (ps, *r),
            other => (Vec::new(), other),
        };
        proof { lemma_stys(payload_tys@); }
        if payload_tys.len() != args.len() {
            self.report(
                Error {
                    span: p_span,
                    kind: ErrorKind::ArityMismatch { expected: payload_tys.len(), found: args.len() },
                },
                Ghost(IErr::Arity { span: p_span, expected: payload_tys@.len(), found: args@.len() }),
            );
        }
        let ghost s2 = *self;
        proof { lemma_steps_trans(s0, s1, s2); }
        let mut bindings: Vec<LocalId> = Vec::new();
        let mut i: usize = 0;
        while i < payload_tys.len() && i < args.len()
            invariant
                i <= args@.len(),
                i <= payload_tys@.len(),
                steps(s0, *self),
                s0 == *old(self),
                s2.env() == s0.env(),
                (self.state(), bindings@) == crate::check::model::ctor_args_m(
                    s0.env(),
                    s2.state(),
                    stys(payload_tys@),
                    args@,
                    i as int,
                ),
            decreases args@.len() - i,
        {
            let ghost s3 = *self;
            let ghost b0 = bindings@;
            let mut sub = self.infer_pattern(&args[i]);
            let ghost s4 = *self;
            self.unify_or_report(args[i].span, &payload_tys[i], &sub.ty);
            proof {
                lemma_steps_trans(s3, s4, *self);
                lemma_steps_trans(s0, s3, *self);
                lemma_stys(payload_tys@);
            }
            bindings.append(&mut sub.bindings);
            i = i + 1;
        }
        PatternResult { ty: result_ty, bindings }
    }

    /// A record pattern `Name(field = pattern, ..)`: the record's field types
    /// with fresh type arguments, unified with the field patterns.
    fn infer_record_pattern(&mut self, span: Span, ty_name: &String, fields: &Vec<FieldPat>) -> (r: PatternResult)
        requires
            old(self).subst.wf(),
        ensures
            steps(*old(self), *final(self)),
            (final(self).state(), r.ty@, r.bindings@) == crate::check::model::record_pattern_m(
                old(self).env(),
                old(self).state(),
                span,
                *ty_name,
                fields@,
            ),
        decreases fields@, 1nat,
    {
        let p_span = span;
        let ghost s0 = *self;
        let res = self.res;
        let named = match res.refs.get(&p_span) {
            Some(ResolvedName::TopLevel(id)) => Some(Ok(*id)),
            Some(ResolvedName::Ctor(id)) => Some(Err(*id)),
            _ => None,
        };
        let type_def_id = match named {
            Some(Ok(id)) => id,
            Some(Err(ctor)) => match self.registry.ctor_to_type.get(&ctor) {
                Some(parent) => *parent,
                None => {
                    let t = self.fresh_ty();
                    return PatternResult { ty: t, bindings: Vec::new() };
                },
            },
            None => {
                self.report(
                    Error { span: p_span, kind: ErrorKind::Unresolved { name: copy_string(ty_name) } },
                    Ghost(IErr::Unresolved { span: p_span, name: ty_name@ }),
                );
                let ghost s1 = *self;
                let t = self.fresh_ty();
                proof { lemma_steps_trans(s0, s1, *self); }
                return PatternResult { ty: t, bindings: Vec::new() };
            },
        };
        let lookup: Option<Option<(Vec<TyVarId>, Vec<FieldInfo>)>> = match self.registry.types.get(&type_def_id) {
            Some(info) => match &info.body {
                TypeDeclBody::Record(fs) => Some(Some((copy_ids(&info.params), copy_fields(fs)))),
                _ => Some(None),
            },
            None => None,
        };
        let (params, decl_fields) = match lookup {
            Some(Some(x)) => x,
            Some(None) => {
                self.report(
                    Error { span: p_span, kind: ErrorKind::UnknownType { name: copy_string(ty_name) } },
                    Ghost(IErr::UnknownType { span: p_span, name: ty_name@ }),
                );
                let ghost s1 = *self;
                let t = self.fresh_ty();
                proof { lemma_steps_trans(s0, s1, *self); }
                return PatternResult { ty: t, bindings: Vec::new() };
            },
            None => {
                let t = self.fresh_ty();
                return PatternResult { ty: t, bindings: Vec::new() };
            },
        };
        let result_args = self.fresh_for(&params);
        let ghost s1 = *self;
        proof { lemma_steps_refl(s1); }
        let mut bindings: Vec<LocalId> = Vec::new();
        let mut i: usize = 0;
        while i < fields.len()
            invariant
                i <= fields@.len(),
                steps(s0, *self),
                steps(s1, *self),
                s0 == *old(self),
                s1.env() == s0.env(),
                (self.state(), bindings@) == crate::check::model::field_pats_m(
                    s0.env(),
                    s1.state(),
                    fields@,
                    i as int,
                    *ty_name,
                    field_views(decl_fields@),
                    ids(params@),
                    stys(result_args@),
                ),
            decreases fields@.len() - i,
        {
            let ghost s2 = *self;
            let mut sub = self.infer_field_pattern(&fields[i], ty_name, &decl_fields, &params, &result_args);
            proof { lemma_steps_trans(s0, s2, *self); lemma_steps_trans(s1, s2, *self); }
            bindings.append(&mut sub);
            i = i + 1;
        }
        PatternResult { ty: Ty::Con(type_def_id, result_args), bindings }
    }

    /// A field of a record pattern: the sub-pattern, unified with the
    /// declared field type; the locals it binds.
    fn infer_field_pattern(
        &mut self,
        fp: &FieldPat,
        ty_name: &String,
        decl_fields: &Vec<FieldInfo>,
        params: &Vec<TyVarId>,
        args: &Vec<Ty>,
    ) -> (r: Vec<LocalId>)
        requires
            old(self).subst.wf(),
        ensures
            steps(*old(self), *final(self)),
            (final(self).state(), r@) == crate::check::model::field_pat_m(
                old(self).env(),
                old(self).state(),
                *fp,
                *ty_name,
                field_views(decl_fields@),
                ids(params@),
                stys(args@),
            ),
        decreases fp, 0nat,
    {
        let ghost s0 = *self;
        let sub = self.infer_pattern(&fp.pattern);
        let ghost s1 = *self;
        match field_named(decl_fields, fp.field.as_str()) {
            Some(j) => {
                let decl_ty = subst_params(&decl_fields[j].ty, params, args);
                self.unify_or_report(fp.pattern.span, &decl_ty, &sub.ty);
            },
            None => {
                self.report(
                    Error {
                        span: fp.pattern.span,
                        kind: ErrorKind::UnknownField { ty_name: copy_string(ty_name), field: copy_string(&fp.field) },
                    },
                    Ghost(IErr::UnknownField { span: fp.pattern.span, ty_name: ty_name@, field: fp.field@ }),
                );
            },
        }
        proof { lemma_steps_trans(s0, s1, *self); }
        sub.bindings
    }

    /// The result of inference: every scheme and every recorded type with
    /// the substitution applied.
    pub fn into_typing(self) -> (t: Typing)
        requires
            self.subst.wf(),
        ensures
            forall|id: DefId| #[trigger] t.schemes@.contains_key(id) <==> self.schemes@.contains_key(id),
            forall|id: DefId| self.schemes@.contains_key(id) ==> scheme_applied(
                #[trigger] t.schemes@[id],
                self.schemes@[id],
                self.subst.tys@,
                self.subst.effs@,
            ),
            forall|s: Span| #[trigger] t.expr_types@.contains_key(s) <==> self.expr_types@.contains_key(s),
            forall|s: Span| self.expr_types@.contains_key(s) ==> (#[trigger] t.expr_types@[s])@ == apply(
                self.expr_types@[s]@,
                self.subst.tys@,
                self.subst.effs@,
            ),
            forall|s: Span| #[trigger] t.pattern_types@.contains_key(s) <==> self.pattern_types@.contains_key(s),
            forall|s: Span| self.pattern_types@.contains_key(s) ==> (#[trigger] t.pattern_types@[s])@ == apply(
                self.pattern_types@[s]@,
                self.subst.tys@,
                self.subst.effs@,
            ),
    {
        let expr_types = applied(&self.expr_types, &self.subst);
        let pattern_types = applied(&self.pattern_types, &self.subst);
        let schemes = applied_schemes(&self.schemes, &self.subst);
        Typing { schemes, expr_types, pattern_types }
    }
}

/// `r` is the scheme `sc` with the bindings `s` and `e` applied to its type
/// and to the type of each constraint.
pub open spec fn scheme_applied(r: Scheme, sc: Scheme, s: Seq<(u32, STy)>, e: Seq<(u32, EffectRow)>) -> bool {
    &&& r.vars@ == sc.vars@
    &&& r.ty@ == apply(sc.ty@, s, e)
    &&& r.constraints@.len() == sc.constraints@.len()
    &&& forall|k: int| 0 <= k < sc.constraints@.len() ==> (#[trigger] r.constraints@[k]).trait_ == sc.constraints@[k].trait_
        && r.constraints@[k].ty@ == apply(sc.constraints@[k].ty@, s, e)
}

fn applied_scheme(sc: &Scheme, subst: &Subst) -> (r: Scheme)
    requires
        subst.wf(),
    ensures
        scheme_applied(r, *sc, subst.tys@, subst.effs@),
{
    let mut vars: Vec<TyVarId> = Vec::new();
    let mut i: usize = 0;
    while i < sc.vars.len()
        invariant
            i <= sc.vars@.len(),
            vars@ == sc.vars@.take(i as int),
        decreases sc.vars@.len() - i,
    {
        vars.push(sc.vars[i]);
        assert(sc.vars@.take(i + 1) =~= sc.vars@.take(i as int).push(sc.vars@[i as int]));
        i = i + 1;
    }
    assert(sc.vars@.take(sc.vars@.len() as int) =~= sc.vars@);
    let mut constraints: Vec<Constraint> = Vec::new();
    let mut j: usize = 0;
    while j < sc.constraints.len()
        invariant
            j <= sc.constraints@.len(),
            subst.wf(),
            constraints@.len() == j,
            forall|k: int| 0 <= k < j ==> (#[trigger] constraints@[k]).trait_ == sc.constraints@[k].trait_
                && constraints@[k].ty@ == apply(sc.constraints@[k].ty@, subst.tys@, subst.effs@),
        decreases sc.constraints@.len() - j,
    {
        let c = &sc.constraints[j];
        constraints.push(Constraint { trait_: c.trait_, ty: apply_subst(&c.ty, subst) });
        j = j + 1;
    }
    Scheme { vars, constraints, ty: apply_subst(&sc.ty, subst) }
}

/// A copy of the schemes `m` with `subst` applied to each.
fn applied_schemes(m: &AssocMap<DefId, Scheme>, subst: &Subst) -> (r: AssocMap<DefId, Scheme>)
    requires
        subst.wf(),
    ensures
        forall|id: DefId| #[trigger] r@.contains_key(id) <==> m@.contains_key(id),
        forall|id: DefId| m@.contains_key(id) ==> scheme_applied(#[trigger] r@[id], m@[id], subst.tys@, subst.effs@),
{
    let mut out: AssocMap<DefId, Scheme> = AssocMap::new();
    let n = m.len();
    let mut i: usize = 0;
    while i < n
        invariant
            i <= n,
            subst.wf(),
            n == m.entries().len(),
            forall|j: int| 0 <= j < m.entries().len() ==> m@.contains_key(#[trigger] m.entries()[j].0)
                && m@[m.entries()[j].0] == m.entries()[j].1,
            forall|d: DefId| #[trigger] out@.contains_key(d) <==> exists|j: int| 0 <= j < i && m.entries()[j].0 == d,
            forall|d: DefId| out@.contains_key(d) ==> m@.contains_key(d) && scheme_applied(#[trigger] out@[d], m@[d], subst.tys@, subst.effs@),
        decreases n - i,
    {
        let (k, v) = m.entry(i);
        let sc = applied_scheme(v, subst);
        out.insert(*k, sc);
        proof {
            assert forall|d: DefId| #[trigger] out@.contains_key(d) <==> exists|j: int| 0 <= j < i + 1 && m.entries()[j].0 == d by {
                if d == *k {
                    assert(m.entries()[i as int].0 == d);
                }
            }
        }
        i = i + 1;
    }
    proof {
        assert forall|d: DefId| #[trigger] out@.contains_key(d) <==> m@.contains_key(d) by {
            if m@.contains_key(d) {
                let j = choose|j: int| 0 <= j < m.entries().len() && m.entries()[j].0 == d;
                assert(out@.contains_key(d));
            }
        }
    }
    out
}

/// A copy of `m` with `subst` applied to every type.
fn applied(m: &AssocMap<Span, Ty>, subst: &Subst) -> (r: AssocMap<Span, Ty>)
    requires
        subst.wf(),
    ensures
        forall|s: Span| #[trigger] r@.contains_key(s) <==> m@.contains_key(s),
        forall|s: Span| m@.contains_key(s) ==> (#[trigger] r@[s])@ == apply(m@[s]@, subst.tys@, subst.effs@),
{
    let mut out: AssocMap<Span, Ty> = AssocMap::new();
    let n = m.len();
    let mut i: usize = 0;
    while i < n
        invariant
            i <= n,
            subst.wf(),
            n == m.entries().len(),
            forall|j: int| 0 <= j < m.entries().len() ==> m@.contains_key(#[trigger] m.entries()[j].0)
                && m@[m.entries()[j].0] == m.entries()[j].1,
            forall|s: Span| #[trigger] out@.contains_key(s) <==> exists|j: int| 0 <= j < i && m.entries()[j].0 == s,
            forall|s: Span| out@.contains_key(s) ==> m@.contains_key(s) && (#[trigger] out@[s])@ == apply(m@[s]@, subst.tys@, subst.effs@),
        decreases n - i,
    {
        let (k, v) = m.entry(i);
        let t = apply_subst(v, subst);
        out.insert(*k, t);
        proof {
            assert forall|s: Span| #[trigger] out@.contains_key(s) <==> exists|j: int| 0 <= j < i + 1 && m.entries()[j].0 == s by {
                if s == *k {
                    assert(m.entries()[i as int].0 == s);
                }
            }
        }
        i = i + 1;
    }
    proof {
        assert forall|s: Span| #[trigger] out@.contains_key(s) <==> m@.contains_key(s) by {
            if m@.contains_key(s) {
                let j = choose|j: int| 0 <= j < m.entries().len() && m.entries()[j].0 == s;
                assert(out@.contains_key(s));
            }
        }
    }
    out
}

} // verus!
