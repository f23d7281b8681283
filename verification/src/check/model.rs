//! Type inference as functions from an environment and a state of values to
//! the state after it and the type found. The inference engine is proved to
//! compute exactly these.
use vstd::prelude::*;
use crate::ast::{
    BinOp, BlockItem, MatchArm, DeclKind, Expr, ExprKind, FieldPat, KwArg, Pattern, PatternKind, Type, TypeKind,
    UnaryOp,
};
use crate::check::display::ty_text;
use crate::check::exhaust::{catch_all, missing_variants};
use crate::check::infer::{def_named, ids, lit_pat_type, prim_named, psub, scope_index};
use crate::check::registry::{FieldInfo, MethodInfo, TypeDeclBody, TypeDeclInfo, TypeHead};
use crate::check::traits::{binop_trait, builtin_impl, trait_name, TraitId};
use crate::check::types::{pure_row, EffectRow, PrimTy, STy, Scheme, TyVarId};
use crate::check::unify::{apply, unify_spec, SUnifyError};
use crate::error::{Error, ErrorKind};
use crate::resolve::types::{DefId, DefInfo, LocalId, ResolvedName};
use crate::span::Span;

verus! {

/// A diagnostic of inference, with the types it shows as values.
pub enum IErr {
    Unresolved { span: Span, name: Seq<char> },
    UnknownType { span: Span, name: Seq<char> },
    MissingField { span: Span, ty_name: Seq<char>, field: Seq<char> },
    UnknownField { span: Span, ty_name: Seq<char>, field: Seq<char> },
    Arity { span: Span, expected: nat, found: nat },
    EffectsNotYet(Span),
    TuplesNotYet(Span),
    Unify { span: Span, err: SUnifyError },
    NoMember { span: Span, ty: STy, member: Seq<char> },
    MissingImpl { span: Span, trait_: TraitId, ty: STy },
    UnknownTrait { span: Span, name: Seq<char> },
    DuplicateImpl { span: Span, trait_: TraitId, ty: Seq<char> },
    MissingMethod { span: Span, trait_: TraitId, method: Seq<char> },
    UnknownMethod { span: Span, trait_: TraitId, method: Seq<char> },
    NonExhaustive { span: Span, missing: Seq<Seq<char>> },
    Ambiguous { span: Span, trait_: TraitId },
}

/// `e` is the diagnostic that `d` describes.
pub open spec fn ierr_is(e: Error, d: IErr) -> bool {
    match d {
        IErr::Unresolved { span, name } => e.span == span && (e.kind matches ErrorKind::Unresolved {
            name: n,
        } && n@ == name),
        IErr::UnknownType { span, name } => e.span == span && (e.kind matches ErrorKind::UnknownType {
            name: n,
        } && n@ == name),
        IErr::MissingField { span, ty_name, field } => e.span == span && (
        e.kind matches ErrorKind::MissingField { ty_name: a, field: b } && a@ == ty_name && b@
            == field),
        IErr::UnknownField { span, ty_name, field } => e.span == span && (
        e.kind matches ErrorKind::UnknownField { ty_name: a, field: b } && a@ == ty_name && b@
            == field),
        IErr::Arity { span, expected, found } => e.span == span && (
        e.kind matches ErrorKind::ArityMismatch { expected: x, found: y } && x == expected && y
            == found),
        IErr::EffectsNotYet(s) => e.span == s && e.kind is EffectsNotYetImplemented,
        IErr::TuplesNotYet(s) => e.span == s && e.kind is TuplesNotYetImplemented,
        IErr::Unify { span, err } => e.span == span && match err {
            SUnifyError::Mismatch { left, right } => e.kind matches ErrorKind::TypeMismatch {
                expected,
                found,
            } && expected@ == ty_text(left) && found@ == ty_text(right),
            SUnifyError::Occurs(v) => e.kind matches ErrorKind::OccursCheck { var } && var@
                == ty_text(STy::Var(v)),
            SUnifyError::Arity { expected, found } => e.kind matches ErrorKind::ArityMismatch {
                expected: x,
                found: y,
            } && x == expected && y == found,
        },
        IErr::NoMember { span, ty, member } => e.span == span && (
        e.kind matches ErrorKind::CannotAccessMember { ty: t, member: mm } && t@ == ty_text(ty)
            && mm@ == member),
        IErr::MissingImpl { span, trait_, ty } => e.span == span && (
        e.kind matches ErrorKind::MissingImpl { trait_name: a, ty: t } && a@ == trait_name(trait_)
            && t@ == ty_text(ty)),
        IErr::UnknownTrait { span, name } => e.span == span && (e.kind matches ErrorKind::UnknownTrait {
            name: n,
        } && n@ == name),
        IErr::DuplicateImpl { span, trait_, ty } => e.span == span && (
        e.kind matches ErrorKind::DuplicateImpl { trait_name: a, ty: t } && a@ == trait_name(trait_)
            && t@ == ty),
        IErr::MissingMethod { span, trait_, method } => e.span == span && (
        e.kind matches ErrorKind::MissingMethod { trait_name: a, method: b } && a@ == trait_name(trait_)
            && b@ == method),
        IErr::UnknownMethod { span, trait_, method } => e.span == span && (
        e.kind matches ErrorKind::UnknownMethod { trait_name: a, method: b } && a@ == trait_name(trait_)
            && b@ == method),
        IErr::NonExhaustive { span, missing } => e.span == span && (
        e.kind matches ErrorKind::NonExhaustiveMatch { missing: ms } && ms@.len() == missing.len()
            && forall|k: int| 0 <= k < missing.len() ==> #[trigger] ms@[k]@ == missing[k]),
        IErr::Ambiguous { span, trait_ } => e.span == span && (
        e.kind matches ErrorKind::AmbiguousConstraint { trait_name: a } && a@ == trait_name(trait_)),
    }
}

/// The diagnostics `errs` are those that `ds` describe, in order.
pub open spec fn diags_match(errs: Seq<Error>, ds: Seq<IErr>) -> bool {
    errs.len() == ds.len() && forall|i: int| 0 <= i < errs.len() ==> ierr_is(#[trigger] errs[i], ds[i])
}

/// What inference reads and never changes: the resolution, the schemes of
/// the definitions, the declared types and the effect bindings.
pub struct IEnv {
    pub refs: Map<Span, ResolvedName>,
    pub defs: Seq<DefInfo>,
    pub schemes: Map<DefId, (Seq<u32>, STy)>,
    pub types: Map<DefId, TypeDeclInfo>,
    pub ctor_to_type: Map<DefId, DefId>,
    pub impls: Set<(TraitId, TypeHead)>,
    pub effs: Seq<(u32, EffectRow)>,
    /// The constraints of each scheme, over its variables.
    pub cons: Map<DefId, Seq<(TraitId, STy)>>,
}

/// The state of inference: the next type variable, the type bindings, the
/// diagnostics, the types of locals, and the types recorded per span.
pub struct IState {
    pub counter: u32,
    pub tys: Seq<(u32, STy)>,
    pub diags: Seq<IErr>,
    pub locals: Map<LocalId, STy>,
    pub exprs: Map<Span, STy>,
    pub pats: Map<Span, STy>,
    /// The trait obligations on types not yet known, each with its span.
    pub pending: Seq<(TraitId, STy, Span)>,
}

// ---------------------------------------------------------------------------
// Steps

/// A fresh variable: the counter, which then advances (and stays at its
/// maximum once there).
pub open spec fn fresh_m(m: IState) -> (IState, STy) {
    (
        IState {
            counter: if m.counter < u32::MAX {
                (m.counter + 1) as u32
            } else {
                m.counter
            },
            ..m
        },
        STy::Var(m.counter),
    )
}

pub open spec fn report_m(m: IState, d: IErr) -> IState {
    IState { diags: m.diags.push(d), ..m }
}

/// Unifies `a` with `b`; a failure is reported at `span`.
pub open spec fn unify_m(g: IEnv, m: IState, span: Span, a: STy, b: STy) -> IState {
    let (tys, r) = unify_spec(m.tys, g.effs, a, b);
    IState {
        tys,
        diags: match r {
            Ok(()) => m.diags,
            Err(err) => m.diags.push(IErr::Unify { span, err }),
        },
        ..m
    }
}

/// `n` fresh variables in order.
pub open spec fn fresh_seq_m(m: IState, n: nat) -> (IState, Seq<STy>)
    decreases n,
{
    if n == 0 {
        (m, seq![])
    } else {
        let (m1, vs) = fresh_seq_m(m, (n - 1) as nat);
        let (m2, v) = fresh_m(m1);
        (m2, vs.push(v))
    }
}

/// The scheme `sc` (its variables and type) with its variables replaced
/// by fresh ones.
pub open spec fn instantiate_m(m: IState, sc: (Seq<u32>, STy)) -> (IState, STy) {
    let (m1, args) = fresh_seq_m(m, sc.0.len());
    (m1, psub(sc.1, sc.0, args))
}

/// The constraints `cs` of a scheme over `vars`, with `args` for `vars`,
/// as obligations at `span`.
pub open spec fn inst_cons(cs: Seq<(TraitId, STy)>, vars: Seq<u32>, args: Seq<STy>, span: Span) -> Seq<(TraitId, STy, Span)> {
    cs.map_values(|c: (TraitId, STy)| (c.0, psub(c.1, vars, args), span))
}

/// The constraints recorded for `id`, none if nothing is recorded.
pub open spec fn cons_at(cs: Map<DefId, Seq<(TraitId, STy)>>, id: DefId) -> Seq<(TraitId, STy)> {
    if cs.contains_key(id) {
        cs[id]
    } else {
        seq![]
    }
}

/// Instantiating a scheme with constraints `cs` at `span`: fresh variables
/// for its own, and its constraints on them become obligations.
pub open spec fn instantiate_c_m(m: IState, sc: (Seq<u32>, STy), cs: Seq<(TraitId, STy)>, span: Span) -> (IState, STy) {
    let (m1, args) = fresh_seq_m(m, sc.0.len());
    (IState { pending: m1.pending + inst_cons(cs, sc.0, args, span), ..m1 }, psub(sc.1, sc.0, args))
}

/// The constraints of a scheme, as values.
pub open spec fn cons_v(cs: Seq<crate::check::types::Constraint>) -> Seq<(TraitId, STy)> {
    cs.map_values(|c: crate::check::types::Constraint| (c.trait_, c.ty@))
}

/// The constraints of each scheme of a map, as values.
pub open spec fn cons_map(m: Map<DefId, Scheme>) -> Map<DefId, Seq<(TraitId, STy)>> {
    m.map_values(|sc: Scheme| cons_v(sc.constraints@))
}

/// A scheme as values: its variables and its type.
pub open spec fn scheme_v(sc: Scheme) -> (Seq<u32>, STy) {
    (ids(sc.vars@), sc.ty@)
}

/// The schemes of a map, as values.
pub open spec fn schemes_v(m: Map<DefId, Scheme>) -> Map<DefId, (Seq<u32>, STy)> {
    m.map_values(|sc: Scheme| scheme_v(sc))
}

// ---------------------------------------------------------------------------
// Annotations

/// The type an annotation stands for, with the named type variables of
/// `ctx` in scope.
pub open spec fn lower_m(g: IEnv, m: IState, t: Type, ctx: Seq<(String, TyVarId)>) -> (IState, STy)
    decreases t, 0nat,
{
    match t.node {
        TypeKind::Var(name) => if scope_index(ctx, name@) >= 0 {
            (m, STy::Var(ctx[scope_index(ctx, name@)].1.0))
        } else {
            fresh_m(m)
        },
        TypeKind::Named { name, args } => match prim_named(name@) {
            Some(p) => (m, STy::Prim(p)),
            None => if def_named(g.defs, name@) >= 0 {
                let (m1, ts) = lowers_m(g, m, args@, ctx);
                (m1, STy::Con(g.defs[def_named(g.defs, name@)].id.0, ts))
            } else {
                fresh_m(report_m(m, IErr::Unresolved { span: t.span, name: name@ }))
            },
        },
        TypeKind::Function { params, effect, result } => {
            let m0 = match effect {
                Some(crate::ast::EffectRow::Named(_)) => report_m(m, IErr::EffectsNotYet(t.span)),
                _ => m,
            };
            let (m1, ps) = lowers_m(g, m0, params@, ctx);
            let (m2, r) = lower_m(g, m1, *result, ctx);
            (m2, STy::Fun(ps, pure_row(), Box::new(r)))
        },
        TypeKind::Tuple(_) => fresh_m(report_m(m, IErr::TuplesNotYet(t.span))),
    }
}

pub open spec fn lowers_m(g: IEnv, m: IState, ts: Seq<Type>, ctx: Seq<(String, TyVarId)>) -> (IState, Seq<STy>)
    decreases ts, 1nat,
{
    if ts.len() == 0 {
        (m, seq![])
    } else {
        let (m1, xs) = lowers_m(g, m, ts.drop_last(), ctx);
        let (m2, x) = lower_m(g, m1, ts.last(), ctx);
        (m2, xs.push(x))
    }
}

// ---------------------------------------------------------------------------
// Declared fields and methods

/// The names and types of declared fields.
pub open spec fn field_views(fs: Seq<FieldInfo>) -> Seq<(Seq<char>, STy)> {
    fs.map_values(|f: FieldInfo| (f.name@, f.ty@))
}

/// The index of the first field named `n` among the first `k`, or -1.
pub open spec fn field_index_in(fs: Seq<(Seq<char>, STy)>, n: Seq<char>, k: int) -> int
    decreases k,
{
    if k <= 0 {
        -1
    } else if field_index_in(fs, n, k - 1) >= 0 {
        field_index_in(fs, n, k - 1)
    } else if fs[k - 1].0 == n {
        k - 1
    } else {
        -1
    }
}

/// The index of the first field named `n`, or -1.
pub open spec fn field_index(fs: Seq<(Seq<char>, STy)>, n: Seq<char>) -> int {
    field_index_in(fs, n, fs.len() as int)
}

/// The index of the first method named `n`, or -1.
pub open spec fn method_index(ms: Seq<MethodInfo>, n: Seq<char>, k: int) -> int
    decreases k,
{
    if k <= 0 {
        -1
    } else if method_index(ms, n, k - 1) >= 0 {
        method_index(ms, n, k - 1)
    } else if ms[k - 1].name@ == n {
        k - 1
    } else {
        -1
    }
}

/// One of the first `k` keyword arguments is named `n`.
pub open spec fn kw_has(fields: Seq<KwArg>, k: int, n: Seq<char>) -> bool {
    exists|i: int| 0 <= i < k && (#[trigger] fields[i]).name@ == n
}

/// The declared fields among the first `k` that no keyword argument names,
/// each name once, reported at `span`.
pub open spec fn missing_reports(
    fs: Seq<(Seq<char>, STy)>,
    fields: Seq<KwArg>,
    span: Span,
    ty_name: Seq<char>,
    k: int,
) -> Seq<IErr>
    decreases k,
{
    if k <= 0 {
        seq![]
    } else {
        let rest = missing_reports(fs, fields, span, ty_name, k - 1);
        let n = fs[k - 1].0;
        if field_index(fs, n) == k - 1 && !kw_has(fields, fields.len() as int, n) {
            rest.push(IErr::MissingField { span, ty_name, field: n })
        } else {
            rest
        }
    }
}

/// The keyword arguments among the first `k` that name no declared field,
/// each name once, reported at `span`.
pub open spec fn unknown_reports(
    fields: Seq<KwArg>,
    fs: Seq<(Seq<char>, STy)>,
    span: Span,
    ty_name: Seq<char>,
    k: int,
) -> Seq<IErr>
    decreases k,
{
    if k <= 0 {
        seq![]
    } else {
        let rest = unknown_reports(fields, fs, span, ty_name, k - 1);
        let n = fields[k - 1].name@;
        if !kw_has(fields, k - 1, n) && field_index(fs, n) < 0 {
            rest.push(IErr::UnknownField { span, ty_name, field: n })
        } else {
            rest
        }
    }
}

/// The keyword arguments among the first `k` that name no declared field,
/// reported at `span`.
pub open spec fn update_reports(
    fields: Seq<KwArg>,
    fs: Seq<(Seq<char>, STy)>,
    span: Span,
    ty_name: Seq<char>,
    k: int,
) -> Seq<IErr>
    decreases k,
{
    if k <= 0 {
        seq![]
    } else {
        let rest = update_reports(fields, fs, span, ty_name, k - 1);
        let n = fields[k - 1].name@;
        if field_index(fs, n) < 0 {
            rest.push(IErr::UnknownField { span, ty_name, field: n })
        } else {
            rest
        }
    }
}

// ---------------------------------------------------------------------------
// Patterns

/// The type of a pattern, the state after it, and the locals it binds; its
/// type is recorded under its span.
pub open spec fn pat_infer(g: IEnv, m: IState, p: Pattern) -> (IState, STy, Seq<LocalId>)
    decreases p, 2nat, 0int,
{
    let (m1, t, bs) = match p.node {
        PatternKind::Wildcard => {
            let (m1, t) = fresh_m(m);
            (m1, t, seq![])
        },
        PatternKind::Var(_) => {
            let (m1, t) = fresh_m(m);
            match g.refs.get(p.span) {
                Some(ResolvedName::Local(lid)) => (
                    IState { locals: m1.locals.insert(lid, t), ..m1 },
                    t,
                    seq![lid],
                ),
                _ => (m1, t, seq![]),
            }
        },
        PatternKind::Lit(l) => (m, STy::Prim(lit_pat_type(l)), seq![]),
        PatternKind::Ctor { name, args } => ctor_pattern_m(g, m, p.span, name, args@),
        PatternKind::Record { ty_name, fields } => record_pattern_m(g, m, p.span, ty_name, fields@),
        _ => {
            let (m1, t) = fresh_m(m);
            (m1, t, seq![])
        },
    };
    (IState { pats: m1.pats.insert(p.span, t), ..m1 }, t, bs)
}

/// A constructor pattern: its instantiated scheme gives the payload types,
/// unified with the argument patterns.
pub open spec fn ctor_pattern_m(g: IEnv, m: IState, span: Span, name: String, args: Seq<Pattern>) -> (IState, STy, Seq<LocalId>)
    decreases args, 1nat, 0int,
{
    match g.refs.get(span) {
        Some(ResolvedName::Ctor(id)) => match g.schemes.get(id) {
            Some(sc) => {
                let (m1, inst) = instantiate_m(m, sc);
                let (payload, result) = match inst {
                    STy::Fun(ps, _, r) => (ps, *r),
                    other => (seq![], other),
                };
                let m2 = if payload.len() != args.len() {
                    report_m(m1, IErr::Arity { span, expected: payload.len(), found: args.len() })
                } else {
                    m1
                };
                let n = if payload.len() <= args.len() {
                    payload.len() as int
                } else {
                    args.len() as int
                };
                let (m3, bs) = ctor_args_m(g, m2, payload, args, n);
                (m3, result, bs)
            },
            None => {
                let (m1, t) = fresh_m(m);
                (m1, t, seq![])
            },
        },
        _ => {
            let (m1, t) = fresh_m(report_m(m, IErr::Unresolved { span, name: name@ }));
            (m1, t, seq![])
        },
    }
}

/// The first `n` argument patterns, each unified with its payload type.
pub open spec fn ctor_args_m(g: IEnv, m: IState, payload: Seq<STy>, args: Seq<Pattern>, n: int) -> (IState, Seq<LocalId>)
    decreases args, 0nat, n,
{
    if n <= 0 || n > args.len() {
        (m, seq![])
    } else {
        let (m1, bs) = ctor_args_m(g, m, payload, args, n - 1);
        let (m2, t, bs2) = pat_infer(g, m1, args[n - 1]);
        (unify_m(g, m2, args[n - 1].span, payload[n - 1], t), bs + bs2)
    }
}

/// A record pattern `Name(field = pattern, ..)`.
pub open spec fn record_pattern_m(g: IEnv, m: IState, span: Span, ty_name: String, fields: Seq<FieldPat>) -> (IState, STy, Seq<LocalId>)
    decreases fields, 1nat, 0int,
{
    match g.refs.get(span) {
        Some(ResolvedName::TopLevel(id)) => record_body_m(g, m, span, ty_name, fields, id),
        Some(ResolvedName::Ctor(c)) => match g.ctor_to_type.get(c) {
            Some(parent) => record_body_m(g, m, span, ty_name, fields, parent),
            None => {
                let (m1, t) = fresh_m(m);
                (m1, t, seq![])
            },
        },
        _ => {
            let (m1, t) = fresh_m(report_m(m, IErr::Unresolved { span, name: ty_name@ }));
            (m1, t, seq![])
        },
    }
}

/// A record pattern of the type `tid`: its field types with fresh type
/// arguments, unified with the field patterns.
pub open spec fn record_body_m(
    g: IEnv,
    m: IState,
    span: Span,
    ty_name: String,
    fields: Seq<FieldPat>,
    tid: DefId,
) -> (IState, STy, Seq<LocalId>)
    decreases fields, 0nat, fields.len() + 1,
{
    match g.types.get(tid) {
        Some(info) => match info.body {
            TypeDeclBody::Record(fs) => {
                let (m1, args) = fresh_seq_m(m, info.params@.len());
                let (m2, bs) = field_pats_m(
                    g,
                    m1,
                    fields,
                    fields.len() as int,
                    ty_name,
                    field_views(fs@),
                    ids(info.params@),
                    args,
                );
                (m2, STy::Con(tid.0, args), bs)
            },
            _ => {
                let (m1, t) = fresh_m(report_m(m, IErr::UnknownType { span, name: ty_name@ }));
                (m1, t, seq![])
            },
        },
        None => {
            let (m1, t) = fresh_m(m);
            (m1, t, seq![])
        },
    }
}

/// The first `n` field patterns, each unified with the declared type of its
/// field (the type's parameters `params` replaced by `args`).
pub open spec fn field_pats_m(
    g: IEnv,
    m: IState,
    fields: Seq<FieldPat>,
    n: int,
    ty_name: String,
    fs: Seq<(Seq<char>, STy)>,
    params: Seq<u32>,
    args: Seq<STy>,
) -> (IState, Seq<LocalId>)
    decreases fields, 0nat, n,
{
    if n <= 0 || n > fields.len() {
        (m, seq![])
    } else {
        let (m1, bs) = field_pats_m(g, m, fields, n - 1, ty_name, fs, params, args);
        let (m2, bs2) = field_pat_m(g, m1, fields[n - 1], ty_name, fs, params, args);
        (m2, bs + bs2)
    }
}

/// A field pattern: its pattern, unified with the declared type of its
/// field, or reported when the record declares no such field.
pub open spec fn field_pat_m(
    g: IEnv,
    m: IState,
    fp: FieldPat,
    ty_name: String,
    fs: Seq<(Seq<char>, STy)>,
    params: Seq<u32>,
    args: Seq<STy>,
) -> (IState, Seq<LocalId>)
    decreases fp, 0nat, 0int,
{
    let (m1, t, bs) = pat_infer(g, m, fp.pattern);
    let j = field_index(fs, fp.field@);
    let m2 = if j >= 0 {
        unify_m(g, m1, fp.pattern.span, psub(fs[j].1, params, args), t)
    } else {
        report_m(
            m1,
            IErr::UnknownField { span: fp.pattern.span, ty_name: ty_name@, field: fp.field@ },
        )
    };
    (m2, bs)
}

// ---------------------------------------------------------------------------
// Member access

/// The method's quantified variables from `k` on that are not yet among
/// `mp`, each paired with a fresh variable.
pub open spec fn method_vars_m(m: IState, vars: Seq<u32>, k: int, mp: Seq<u32>, ma: Seq<STy>) -> (IState, Seq<u32>, Seq<STy>)
    decreases vars.len() - k,
{
    if k < 0 || k >= vars.len() {
        (m, mp, ma)
    } else if crate::check::infer::param_index(mp, mp.len() as int, vars[k]) < 0 {
        let (m1, t) = fresh_m(m);
        method_vars_m(m1, vars, k + 1, mp.push(vars[k]), ma.push(t))
    } else {
        method_vars_m(m, vars, k + 1, mp, ma)
    }
}

/// The type of `receiver.field`, the receiver (at `recv_span`) having type
/// `recv_ty`: a record field, or a method with the receiver as its first
/// argument; the access is at `span`.
pub open spec fn field_access_m(g: IEnv, m: IState, span: Span, recv_span: Span, recv_ty: STy, field: Seq<char>) -> (IState, STy) {
    let resolved = apply(recv_ty, m.tys, g.effs);
    match resolved {
        STy::Con(id, targs) => match g.types.get(DefId(id)) {
            None => fresh_m(m),
            Some(info) => {
                let params = ids(info.params@);
                let fi = match info.body {
                    TypeDeclBody::Record(fs) => field_index(field_views(fs@), field),
                    _ => -1,
                };
                if fi >= 0 {
                    let fty = match info.body {
                        TypeDeclBody::Record(fs) => field_views(fs@)[fi].1,
                        _ => resolved,
                    };
                    (m, psub(fty, params, targs))
                } else if method_index(info.methods@, field, info.methods@.len() as int) >= 0 {
                    let sc = info.methods@[method_index(info.methods@, field, info.methods@.len() as int)].scheme;
                    let n = if params.len() <= targs.len() {
                        params.len() as int
                    } else {
                        targs.len() as int
                    };
                    let (m1, mp, ma) = method_vars_m(m, ids(sc.vars@), 0, params.take(n), targs.take(n));
                    match psub(sc.ty@, mp, ma) {
                        STy::Fun(ps, row, ret) => if ps.len() == 0 {
                            (m1, *ret)
                        } else {
                            let m2 = unify_m(g, m1, recv_span, ps[0], recv_ty);
                            if ps.len() == 1 {
                                (m2, *ret)
                            } else {
                                (m2, STy::Fun(ps.subrange(1, ps.len() as int), row, ret))
                            }
                        },
                        other => (m1, other),
                    }
                } else {
                    fresh_m(report_m(m, IErr::UnknownField { span, ty_name: info.name@, field }))
                }
            },
        },
        _ => fresh_m(report_m(m, IErr::NoMember { span: recv_span, ty: resolved, member: field })),
    }
}

// ---------------------------------------------------------------------------
// Operators

/// The impls that the prelude provides, by trait and type head.
pub open spec fn builtin_heads() -> Set<(TraitId, TypeHead)> {
    Set::new(|k: (TraitId, TypeHead)| k.1 matches TypeHead::Prim(p) && builtin_impl(k.0, p))
}

/// The resolved operand type `ty` is a primitive type without an impl of
/// `t` among `impls`.
pub open spec fn lacks_impl(impls: Set<(TraitId, TypeHead)>, t: TraitId, ty: STy) -> bool {
    match ty {
        STy::Prim(p) => !impls.contains((t, TypeHead::Prim(p))),
        STy::Con(id, _) => !impls.contains((t, TypeHead::Con(DefId(id)))),
        _ => false,
    }
}

/// The obligation of an operator's trait on its operand type, checked
/// against the impls once the operand type is resolved; a primitive type
/// without the impl is reported at `span`.
pub open spec fn obligation_m(g: IEnv, m: IState, span: Span, t: Option<TraitId>, operand: STy) -> IState {
    match t {
        Some(tr) => {
            let r = apply(operand, m.tys, g.effs);
            if r is Var {
                IState { pending: m.pending.push((tr, r, span)), ..m }
            } else if lacks_impl(g.impls, tr, r) {
                report_m(m, IErr::MissingImpl { span, trait_: tr, ty: r })
            } else {
                m
            }
        },
        None => m,
    }
}

/// A binary operator at `span` on operands of types `lt` and `rt`. `and`,
/// `or` and `xor` take and give `Bool`. The others take two operands of one
/// type, which must have an impl of the operator's trait, and give `Bool`
/// for comparisons and the operand type otherwise.
pub open spec fn binop_m(
    g: IEnv,
    m: IState,
    span: Span,
    op: BinOp,
    lhs_span: Span,
    rhs_span: Span,
    lt: STy,
    rt: STy,
) -> (IState, STy) {
    match binop_trait(op) {
        None => {
            let m1 = unify_m(g, m, lhs_span, lt, STy::Prim(PrimTy::Bool));
            (unify_m(g, m1, rhs_span, rt, STy::Prim(PrimTy::Bool)), STy::Prim(PrimTy::Bool))
        },
        Some(tr) => {
            let m1 = unify_m(g, m, rhs_span, lt, rt);
            let m2 = obligation_m(g, m1, span, Some(tr), lt);
            if tr == TraitId::Eq || tr == TraitId::Ord {
                (m2, STy::Prim(PrimTy::Bool))
            } else {
                (m2, lt)
            }
        },
    }
}

/// A unary operator at `span` on an operand of type `t`: `not` takes and
/// gives `Bool`; negation needs an impl of `Neg` and gives the operand type.
pub open spec fn unop_m(g: IEnv, m: IState, span: Span, op: UnaryOp, operand_span: Span, t: STy) -> (IState, STy) {
    match op {
        UnaryOp::Not => (unify_m(g, m, operand_span, t, STy::Prim(PrimTy::Bool)), STy::Prim(PrimTy::Bool)),
        UnaryOp::Neg => (obligation_m(g, m, span, Some(TraitId::Neg), t), t),
    }
}

// ---------------------------------------------------------------------------
// Expressions

/// The type of an expression and the state after it; the type is recorded
/// under the expression's span.
pub open spec fn expr_infer(g: IEnv, m: IState, e: Expr) -> (IState, STy)
    decreases e, 3nat, 0int,
{
    let (m1, t) = match e.node {
        ExprKind::IntLit(_) => (m, STy::Prim(PrimTy::Int)),
        ExprKind::FloatLit(_) => (m, STy::Prim(PrimTy::Float)),
        ExprKind::StringLit(_) => (m, STy::Prim(PrimTy::String)),
        ExprKind::Var(_) => match g.refs.get(e.span) {
            Some(ResolvedName::TopLevel(id)) => match g.schemes.get(id) {
                Some(sc) => instantiate_c_m(m, sc, cons_at(g.cons, id), e.span),
                None => fresh_m(m),
            },
            Some(ResolvedName::Local(lid)) => if m.locals.contains_key(lid) {
                (m, m.locals[lid])
            } else {
                fresh_m(m)
            },
            _ => fresh_m(m),
        },
        ExprKind::Ctor(name) => match g.refs.get(e.span) {
            Some(ResolvedName::Ctor(id)) => match g.schemes.get(id) {
                Some(sc) => instantiate_m(m, sc),
                None => fresh_m(m),
            },
            _ => fresh_m(report_m(m, IErr::Unresolved { span: e.span, name: name@ })),
        },
        ExprKind::Lambda { params, body } => {
            let (m1, pts) = params_m(g, m, params@, params@.len() as int);
            let (m2, rt) = expr_infer(g, m1, *body);
            (m2, STy::Fun(pts, pure_row(), Box::new(rt)))
        },
        ExprKind::Call { func, args } => {
            let (m1, ft) = expr_infer(g, m, *func);
            let (m2, ats) = exprs_infer(g, m1, args@, args@.len() as int);
            let (m3, v) = fresh_m(m2);
            (unify_m(g, m3, func.span, ft, STy::Fun(ats, pure_row(), Box::new(v))), v)
        },
        ExprKind::Paren(inner) => expr_infer(g, m, *inner),
        ExprKind::List(items) => {
            let (m1, ts) = exprs_infer(g, m, items@, items@.len() as int);
            let (m2, v) = fresh_m(m1);
            let m3 = unify_all_m(g, m2, items@, ts, items@.len() as int, v);
            list_of_m(g, m3, e.span, v)
        },
        ExprKind::Match { scrutinee, arms } => {
            let (m1, st) = expr_infer(g, m, *scrutinee);
            let (m2, r) = fresh_m(m1);
            let m3 = arms_infer(g, m2, arms@, arms@.len() as int, st, r);
            (coverage_m(g, m3, e.span, st, arms@), r)
        },
        ExprKind::BinOp { op, lhs, rhs } => {
            let (m1, lt) = expr_infer(g, m, *lhs);
            let (m2, rt) = expr_infer(g, m1, *rhs);
            binop_m(g, m2, e.span, op, lhs.span, rhs.span, lt, rt)
        },
        ExprKind::UnaryOp { op, expr } => {
            let (m1, t) = expr_infer(g, m, *expr);
            unop_m(g, m1, e.span, op, expr.span, t)
        },
        ExprKind::Construct { ty_name, fields } => construct_m(g, m, e.span, ty_name, fields@),
        ExprKind::Update { value, fields } => {
            let (m1, vt) = expr_infer(g, m, *value);
            update_m(g, m1, e.span, vt, fields@)
        },
        ExprKind::FieldAccess { receiver, field } => {
            let (m1, rt) = expr_infer(g, m, *receiver);
            field_access_m(g, m1, e.span, receiver.span, rt, field@)
        },
        ExprKind::Block(items) => block_m(g, m, items@, items@.len() as int),
        _ => fresh_m(m),
    };
    (IState { exprs: m1.exprs.insert(e.span, t), ..m1 }, t)
}

/// The first `n` parameter patterns' types `pts` unified with the expected
/// types `ps`, each failure reported at its pattern.
pub open spec fn expect_params_m(g: IEnv, m: IState, params: Seq<Pattern>, pts: Seq<STy>, ps: Seq<STy>, n: int) -> IState
    decreases n,
{
    if n <= 0 || n > params.len() || n > pts.len() || n > ps.len() {
        m
    } else {
        unify_m(g, expect_params_m(g, m, params, pts, ps, n - 1), params[n - 1].span, ps[n - 1], pts[n - 1])
    }
}

/// A binding's value, checked against the type `expected` that the binding
/// has so far: a lambda with as many parameters as an expected function
/// type takes its parameter types before its body is checked; any other
/// value is inferred.
pub open spec fn value_m(g: IEnv, m: IState, v: Expr, expected: STy) -> (IState, STy) {
    match v.node {
        ExprKind::Lambda { params, body } => match expected {
            STy::Fun(ps, _, _) => if ps.len() == params@.len() {
                let (m1, pts) = params_m(g, m, params@, params@.len() as int);
                let m2 = expect_params_m(g, m1, params@, pts, ps, params@.len() as int);
                let (m3, rt) = expr_infer(g, m2, *body);
                let t = STy::Fun(pts, pure_row(), Box::new(rt));
                (IState { exprs: m3.exprs.insert(v.span, t), ..m3 }, t)
            } else {
                expr_infer(g, m, v)
            },
            _ => expr_infer(g, m, v),
        },
        _ => expr_infer(g, m, v),
    }
}

/// The types of the first `n` parameter patterns of a lambda, in order.
pub open spec fn params_m(g: IEnv, m: IState, ps: Seq<Pattern>, n: int) -> (IState, Seq<STy>)
    decreases n,
{
    if n <= 0 || n > ps.len() {
        (m, seq![])
    } else {
        let (m1, ts) = params_m(g, m, ps, n - 1);
        let (m2, t, _) = pat_infer(g, m1, ps[n - 1]);
        (m2, ts.push(t))
    }
}

/// Unifies `v` with each of the first `n` types `ts`, a failure reported
/// at the span of the expression it belongs to.
pub open spec fn unify_all_m(g: IEnv, m: IState, es: Seq<Expr>, ts: Seq<STy>, n: int, v: STy) -> IState
    decreases n,
{
    if n <= 0 || n > es.len() || n > ts.len() {
        m
    } else {
        unify_m(g, unify_all_m(g, m, es, ts, n - 1, v), es[n - 1].span, v, ts[n - 1])
    }
}

/// The type of a list literal of elements of type `v`: the declared type
/// named `List` applied to `v`; without such a declaration, an unknown type
/// reported at `span`.
pub open spec fn list_of_m(g: IEnv, m: IState, span: Span, v: STy) -> (IState, STy) {
    let k = def_named(g.defs, "List"@);
    if k >= 0 && g.defs[k].kind is Type {
        (m, STy::Con(g.defs[k].id.0, seq![v]))
    } else {
        fresh_m(report_m(m, IErr::UnknownType { span, name: "List"@ }))
    }
}

/// The coverage of a match at `span` on a value of type `st`, once its
/// arms are checked: without an arm that matches anything, a scrutinee of a
/// declared sum type must have an arm for each variant, and the variants
/// that none has are reported in declaration order.
pub open spec fn coverage_m(g: IEnv, m: IState, span: Span, st: STy, arms: Seq<MatchArm>) -> IState {
    if exists|i: int| 0 <= i < arms.len() && #[trigger] catch_all(arms[i]) {
        m
    } else {
        match apply(st, m.tys, g.effs) {
            STy::Con(id, _) => if g.types.contains_key(DefId(id)) {
                match g.types[DefId(id)].body {
                    TypeDeclBody::Sum(vs) => {
                        let miss = missing_variants(vs@, arms);
                        if miss.len() > 0 {
                            report_m(m, IErr::NonExhaustive { span, missing: miss })
                        } else {
                            m
                        }
                    },
                    _ => m,
                }
            } else {
                m
            },
            _ => m,
        }
    }
}

/// The first `n` arms of a match on a value of type `st` whose result has
/// type `r`: each pattern is unified with `st`, each body with `r`.
pub open spec fn arms_infer(g: IEnv, m: IState, arms: Seq<MatchArm>, n: int, st: STy, r: STy) -> IState
    decreases arms, 0nat, n,
{
    if n <= 0 || n > arms.len() {
        m
    } else {
        arm_infer(g, arms_infer(g, m, arms, n - 1, st, r), arms[n - 1], st, r)
    }
}

pub open spec fn arm_infer(g: IEnv, m: IState, a: MatchArm, st: STy, r: STy) -> IState
    decreases a, 0nat, 0int,
{
    let (m1, pt, _) = pat_infer(g, m, a.pattern);
    let m2 = unify_m(g, m1, a.pattern.span, st, pt);
    let (m3, bt) = expr_infer(g, m2, a.body);
    unify_m(g, m3, a.body.span, r, bt)
}

/// The types of the first `n` expressions, in order.
pub open spec fn exprs_infer(g: IEnv, m: IState, es: Seq<Expr>, n: int) -> (IState, Seq<STy>)
    decreases es, 0nat, n,
{
    if n <= 0 || n > es.len() {
        (m, seq![])
    } else {
        let (m1, ts) = exprs_infer(g, m, es, n - 1);
        let (m2, t) = expr_infer(g, m1, es[n - 1]);
        (m2, ts.push(t))
    }
}

/// The type of the first `n` lines of a block: that of the last, `Unit`
/// when it is a binding or there is none.
pub open spec fn block_m(g: IEnv, m: IState, items: Seq<BlockItem>, n: int) -> (IState, STy)
    decreases items, 1nat, n,
{
    if n <= 0 || n > items.len() {
        (m, STy::Prim(PrimTy::Unit))
    } else {
        let (m1, _) = block_m(g, m, items, n - 1);
        block_item_m(g, m1, items[n - 1])
    }
}

/// A line of a block: a binding gives its local the type of its value.
pub open spec fn block_item_m(g: IEnv, m: IState, item: BlockItem) -> (IState, STy)
    decreases item, 0nat, 0int,
{
    match item {
        BlockItem::Binding(decl) => match decl.node {
            DeclKind::Binding { value: Some(value), .. } => {
                let (m1, vt) = expr_infer(g, m, value);
                match g.refs.get(decl.span) {
                    Some(ResolvedName::Local(lid)) => (
                        IState { locals: m1.locals.insert(lid, vt), ..m1 },
                        STy::Prim(PrimTy::Unit),
                    ),
                    _ => (m1, STy::Prim(PrimTy::Unit)),
                }
            },
            _ => (m, STy::Prim(PrimTy::Unit)),
        },
        BlockItem::Expr(x) => expr_infer(g, m, x),
    }
}

/// The first `n` keyword arguments' values, each unified with the declared
/// type of the field it names (the type's parameters `params` replaced by
/// `args`); values of undeclared fields are inferred only.
pub open spec fn kwargs_infer(
    g: IEnv,
    m: IState,
    fields: Seq<KwArg>,
    n: int,
    fs: Seq<(Seq<char>, STy)>,
    params: Seq<u32>,
    args: Seq<STy>,
) -> IState
    decreases fields, 0nat, n,
{
    if n <= 0 || n > fields.len() {
        m
    } else {
        kwarg_infer(g, kwargs_infer(g, m, fields, n - 1, fs, params, args), fields[n - 1], fs, params, args)
    }
}

/// A keyword argument's value, unified with the declared type of the field
/// it names, if any.
pub open spec fn kwarg_infer(
    g: IEnv,
    m: IState,
    kw: KwArg,
    fs: Seq<(Seq<char>, STy)>,
    params: Seq<u32>,
    args: Seq<STy>,
) -> IState
    decreases kw, 0nat, 0int,
{
    let (m1, t) = expr_infer(g, m, kw.value);
    let j = field_index(fs, kw.name@);
    if j >= 0 {
        unify_m(g, m1, kw.value.span, psub(fs[j].1, params, args), t)
    } else {
        m1
    }
}

/// A record construction `Name(field = value, ..)` at `span`: missing and
/// unknown fields are reported, each name once, then the values are checked
/// against the fields, with fresh type arguments.
pub open spec fn construct_m(g: IEnv, m: IState, span: Span, ty_name: String, fields: Seq<KwArg>) -> (IState, STy)
    decreases fields, 1nat, 0int,
{
    match g.refs.get(span) {
        Some(ResolvedName::TopLevel(id)) => match g.types.get(id) {
            Some(info) => match info.body {
                TypeDeclBody::Record(fs) => {
                    let fv = field_views(fs@);
                    let (m1, args) = fresh_seq_m(m, info.params@.len());
                    let m2 = IState {
                        diags: m1.diags + missing_reports(fv, fields, span, ty_name@, fv.len() as int)
                            + unknown_reports(fields, fv, span, ty_name@, fields.len() as int),
                        ..m1
                    };
                    let m3 = kwargs_infer(g, m2, fields, fields.len() as int, fv, ids(info.params@), args);
                    (m3, STy::Con(id.0, args))
                },
                _ => fresh_m(report_m(m, IErr::UnknownType { span, name: ty_name@ })),
            },
            None => fresh_m(m),
        },
        _ => fresh_m(m),
    }
}

/// A record update at `span` of a value of type `vt`: that type; fields the
/// record does not declare are reported, then the values are checked
/// against the fields.
pub open spec fn update_m(g: IEnv, m: IState, span: Span, vt: STy, fields: Seq<KwArg>) -> (IState, STy)
    decreases fields, 1nat, 0int,
{
    match apply(vt, m.tys, g.effs) {
        STy::Con(id, targs) => match g.types.get(DefId(id)) {
            Some(info) => match info.body {
                TypeDeclBody::Record(fs) => {
                    let fv = field_views(fs@);
                    let m1 = IState {
                        diags: m.diags + update_reports(fields, fv, span, info.name@, fields.len() as int),
                        ..m
                    };
                    let m2 = kwargs_infer(g, m1, fields, fields.len() as int, fv, ids(info.params@), targs);
                    (m2, STy::Con(id, targs))
                },
                _ => (m, vt),
            },
            None => (m, vt),
        },
        _ => (m, vt),
    }
}

} // verus!
