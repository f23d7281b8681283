use vstd::prelude::*;
use crate::check::types::{find_key, lemma_find_key, lemma_find_key_push, EffectRow, STy, Subst, Ty, TyVarId, sty, stys, copy_ty};

verus! {

// ---------------------------------------------------------------------------
// The mathematical model of substitution.
// ---------------------------------------------------------------------------

/// The free type variables of a type.
pub open spec fn fv(t: STy) -> Set<u32>
    decreases t, 0nat,
{
    match t {
        STy::Var(v) => set![v],
        STy::Prim(_) => Set::empty(),
        STy::Con(_, args) => fvs(args),
        STy::Fun(ps, _, r) => fvs(ps).union(fv(*r)),
    }
}

/// The free type variables of a list of types.
pub open spec fn fvs(ts: Seq<STy>) -> Set<u32>
    decreases ts, 1nat,
{
    if ts.len() == 0 {
        Set::empty()
    } else {
        fvs(ts.drop_last()).union(fv(ts.last()))
    }
}

/// One step along an effect row's tail: fold `next` into `row`.
pub open spec fn row_step(row: EffectRow, next: EffectRow) -> EffectRow {
    EffectRow { labels: row.labels.spec_union(next.labels), tail: next.tail }
}

/// Resolves the tail of `row` through the effect bindings at positions `k..`.
pub open spec fn app_row_from(row: EffectRow, e: Seq<(u32, EffectRow)>, k: int) -> EffectRow
    decreases e.len() - k,
{
    match row.tail {
        None => row,
        Some(w) => {
            let i = find_key(e, w.0);
            if k <= i < e.len() {
                app_row_from(row_step(row, e[i].1), e, i + 1)
            } else {
                row
            }
        },
    }
}

/// Applies the type bindings at positions `k..` of `s` (and all effect bindings) to `t`.
pub open spec fn app_from(t: STy, s: Seq<(u32, STy)>, e: Seq<(u32, EffectRow)>, k: int) -> STy
    decreases s.len() - k, t, 0nat,
{
    match t {
        STy::Var(v) => {
            let i = find_key(s, v);
            if k <= i < s.len() {
                app_from(s[i].1, s, e, i + 1)
            } else {
                STy::Var(v)
            }
        },
        STy::Prim(p) => STy::Prim(p),
        STy::Con(id, args) => STy::Con(id, apps_from(args, s, e, k)),
        STy::Fun(ps, row, r) => STy::Fun(
            apps_from(ps, s, e, k),
            app_row_from(row, e, 0),
            Box::new(app_from(*r, s, e, k)),
        ),
    }
}

/// [`app_from`] on every element of a list.
pub open spec fn apps_from(ts: Seq<STy>, s: Seq<(u32, STy)>, e: Seq<(u32, EffectRow)>, k: int) -> Seq<STy>
    decreases s.len() - k, ts, 1nat,
{
    if ts.len() == 0 {
        Seq::empty()
    } else {
        apps_from(ts.drop_last(), s, e, k).push(app_from(ts.last(), s, e, k))
    }
}

/// The result of applying a whole substitution to a type.
pub open spec fn apply(t: STy, s: Seq<(u32, STy)>, e: Seq<(u32, EffectRow)>) -> STy {
    app_from(t, s, e, 0)
}

/// The result of resolving an effect row through all effect bindings.
pub open spec fn app_row(row: EffectRow, e: Seq<(u32, EffectRow)>) -> EffectRow {
    app_row_from(row, e, 0)
}

/// Every type binding mentions only variables that are unbound or bound later.
pub open spec fn tys_wf(s: Seq<(u32, STy)>) -> bool {
    forall|i: int, v: u32|
        0 <= i < s.len() && #[trigger] fv(s[i].1).contains(v) ==> (find_key(s, v) < 0 || find_key(
            s,
            v,
        ) > i)
}

/// Every effect binding's tail is unbound or bound later.
pub open spec fn effs_wf(e: Seq<(u32, EffectRow)>) -> bool {
    forall|i: int|
        0 <= i < e.len() ==> match #[trigger] e[i].1.tail {
            None => true,
            Some(w) => find_key(e, w.0) < 0 || find_key(e, w.0) > i,
        }
}

/// No bound variable is free in `t`, and every effect tail in `t` is unbound.
pub open spec fn resolved(t: STy, s: Seq<(u32, STy)>, e: Seq<(u32, EffectRow)>) -> bool
    decreases t, 0nat,
{
    match t {
        STy::Var(v) => find_key(s, v) < 0,
        STy::Prim(_) => true,
        STy::Con(_, args) => resolved_seq(args, s, e),
        STy::Fun(ps, row, r) => resolved_seq(ps, s, e) && row_resolved(row, e) && resolved(*r, s, e),
    }
}

pub open spec fn resolved_seq(ts: Seq<STy>, s: Seq<(u32, STy)>, e: Seq<(u32, EffectRow)>) -> bool
    decreases ts, 1nat,
{
    if ts.len() == 0 {
        true
    } else {
        resolved_seq(ts.drop_last(), s, e) && resolved(ts.last(), s, e)
    }
}

/// The tail of `row` is absent or unbound.
pub open spec fn row_resolved(row: EffectRow, e: Seq<(u32, EffectRow)>) -> bool {
    match row.tail {
        None => true,
        Some(w) => find_key(e, w.0) < 0,
    }
}

/// No variable free in `t` is bound at a position below `k`.
pub open spec fn unbound_below(t: STy, s: Seq<(u32, STy)>, k: int) -> bool {
    forall|v: u32| #[trigger] fv(t).contains(v) ==> !(0 <= find_key(s, v) < k)
}

impl Subst {
    /// The substitution can be applied: its bindings form no cycle.
    pub open spec fn wf(&self) -> bool {
        tys_wf(self.tys@) && effs_wf(self.effs@)
    }
}

// ---------------------------------------------------------------------------
// Lemmas on the model.
// ---------------------------------------------------------------------------

pub proof fn lemma_fvs(ts: Seq<STy>)
    ensures
        forall|v: u32| #[trigger] fvs(ts).contains(v) <==> exists|m: int| 0 <= m < ts.len() && fv(ts[m]).contains(v),
    decreases ts.len(),
{
    if ts.len() > 0 {
        let d = ts.drop_last();
        lemma_fvs(d);
        assert forall|v: u32| #[trigger] fvs(ts).contains(v) <==> exists|m: int| 0 <= m < ts.len() && fv(ts[m]).contains(v) by {
            if fvs(ts).contains(v) {
                if fvs(d).contains(v) {
                    let m = choose|m: int| 0 <= m < d.len() && fv(d[m]).contains(v);
                    assert(ts[m] == d[m]);
                    assert(fv(ts[m]).contains(v));
                } else {
                    assert(fv(ts[ts.len() - 1]).contains(v));
                }
            }
            if exists|m: int| 0 <= m < ts.len() && fv(ts[m]).contains(v) {
                let m = choose|m: int| 0 <= m < ts.len() && fv(ts[m]).contains(v);
                if m < ts.len() - 1 {
                    assert(ts[m] == d[m]);
                    assert(fv(d[m]).contains(v));
                    assert(fvs(d).contains(v));
                }
            }
        }
    }
}

pub proof fn lemma_apps_from(ts: Seq<STy>, s: Seq<(u32, STy)>, e: Seq<(u32, EffectRow)>, k: int)
    ensures
        apps_from(ts, s, e, k).len() == ts.len(),
        forall|m: int| 0 <= m < ts.len() ==> #[trigger] apps_from(ts, s, e, k)[m] == app_from(ts[m], s, e, k),
    decreases ts.len(),
{
    if ts.len() > 0 {
        let d = ts.drop_last();
        lemma_apps_from(d, s, e, k);
        assert forall|m: int| 0 <= m < ts.len() implies #[trigger] apps_from(ts, s, e, k)[m] == app_from(ts[m], s, e, k) by {
            if m < ts.len() - 1 {
                assert(ts[m] == d[m]);
            }
        }
    }
}

pub proof fn lemma_resolved_seq(ts: Seq<STy>, s: Seq<(u32, STy)>, e: Seq<(u32, EffectRow)>)
    ensures
        resolved_seq(ts, s, e) <==> forall|m: int| 0 <= m < ts.len() ==> #[trigger] resolved(ts[m], s, e),
    decreases ts.len(),
{
    if ts.len() > 0 {
        let d = ts.drop_last();
        lemma_resolved_seq(d, s, e);
        if forall|m: int| 0 <= m < ts.len() ==> #[trigger] resolved(ts[m], s, e) {
            assert forall|m: int| 0 <= m < d.len() implies #[trigger] resolved(d[m], s, e) by {
                assert(ts[m] == d[m]);
            }
            assert(resolved(ts[ts.len() - 1], s, e));
        }
        if resolved_seq(ts, s, e) {
            assert forall|m: int| 0 <= m < ts.len() implies #[trigger] resolved(ts[m], s, e) by {
                if m < ts.len() - 1 {
                    assert(ts[m] == d[m]);
                }
            }
        }
    }
}

pub proof fn lemma_stys(ts: Seq<Ty>)
    ensures
        stys(ts).len() == ts.len(),
        forall|m: int| 0 <= m < ts.len() ==> #[trigger] stys(ts)[m] == ts[m]@,
    decreases ts.len(),
{
    if ts.len() > 0 {
        let d = ts.drop_last();
        lemma_stys(d);
        assert forall|m: int| 0 <= m < ts.len() implies #[trigger] stys(ts)[m] == ts[m]@ by {
            if m < ts.len() - 1 {
                assert(ts[m] == d[m]);
            }
        }
    }
}

pub proof fn lemma_row_resolved(row: EffectRow, e: Seq<(u32, EffectRow)>, k: int)
    requires
        effs_wf(e),
        0 <= k,
        row.tail matches Some(w) ==> !(0 <= find_key(e, w.0) < k),
    ensures
        row_resolved(app_row_from(row, e, k), e),
    decreases e.len() - k,
{
    if let Some(w) = row.tail {
        let i = find_key(e, w.0);
        lemma_find_key(e, w.0);
        if k <= i < e.len() {
            let next = e[i].1;
            if let Some(w2) = next.tail {
                lemma_find_key(e, w2.0);
            }
            lemma_row_resolved(row_step(row, next), e, i + 1);
        }
    }
}

pub proof fn lemma_row_id(row: EffectRow, e: Seq<(u32, EffectRow)>, k: int)
    requires
        row_resolved(row, e),
        0 <= k,
    ensures
        app_row_from(row, e, k) == row,
{
}

pub proof fn lemma_app_resolved(t: STy, s: Seq<(u32, STy)>, e: Seq<(u32, EffectRow)>, k: int)
    requires
        tys_wf(s),
        effs_wf(e),
        0 <= k,
        unbound_below(t, s, k),
    ensures
        resolved(app_from(t, s, e, k), s, e),
    decreases s.len() - k, t, 0nat,
{
    match t {
        STy::Var(v) => {
            let i = find_key(s, v);
            lemma_find_key(s, v);
            assert(fv(t).contains(v));
            if k <= i < s.len() {
                assert forall|w: u32| #[trigger] fv(s[i].1).contains(w) implies !(0 <= find_key(s, w) < i + 1) by {}
                lemma_app_resolved(s[i].1, s, e, i + 1);
            }
        },
        STy::Prim(_) => {},
        STy::Con(_, args) => {
            assert forall|w: u32| #[trigger] fvs(args).contains(w) implies !(0 <= find_key(s, w) < k) by {
                assert(fv(t).contains(w));
            }
            lemma_apps_resolved(args, s, e, k);
        },
        STy::Fun(ps, row, r) => {
            assert forall|w: u32| #[trigger] fvs(ps).contains(w) implies !(0 <= find_key(s, w) < k) by {
                assert(fv(t).contains(w));
            }
            lemma_apps_resolved(ps, s, e, k);
            lemma_row_resolved(row, e, 0);
            assert forall|w: u32| #[trigger] fv(*r).contains(w) implies !(0 <= find_key(s, w) < k) by {
                assert(fv(t).contains(w));
            }
            lemma_app_resolved(*r, s, e, k);
        },
    }
}

pub proof fn lemma_apps_resolved(ts: Seq<STy>, s: Seq<(u32, STy)>, e: Seq<(u32, EffectRow)>, k: int)
    requires
        tys_wf(s),
        effs_wf(e),
        0 <= k,
        forall|v: u32| #[trigger] fvs(ts).contains(v) ==> !(0 <= find_key(s, v) < k),
    ensures
        resolved_seq(apps_from(ts, s, e, k), s, e),
    decreases s.len() - k, ts, 1nat,
{
    if ts.len() > 0 {
        let d = ts.drop_last();
        assert forall|w: u32| #[trigger] fvs(d).contains(w) implies !(0 <= find_key(s, w) < k) by {
            assert(fvs(ts).contains(w));
        }
        assert forall|w: u32| #[trigger] fv(ts.last()).contains(w) implies !(0 <= find_key(s, w) < k) by {
            assert(fvs(ts).contains(w));
        }
        lemma_apps_resolved(d, s, e, k);
        lemma_app_resolved(ts.last(), s, e, k);
        let res = apps_from(ts, s, e, k);
        assert(res.drop_last() =~= apps_from(d, s, e, k));
    }
}

pub proof fn lemma_app_id(t: STy, s: Seq<(u32, STy)>, e: Seq<(u32, EffectRow)>, k: int)
    requires
        resolved(t, s, e),
        0 <= k,
    ensures
        app_from(t, s, e, k) == t,
    decreases t, 0nat,
{
    match t {
        STy::Var(v) => {},
        STy::Prim(_) => {},
        STy::Con(_, args) => {
            lemma_apps_id(args, s, e, k);
        },
        STy::Fun(ps, row, r) => {
            lemma_apps_id(ps, s, e, k);
            lemma_row_id(row, e, 0);
            lemma_app_id(*r, s, e, k);
        },
    }
}

pub proof fn lemma_apps_id(ts: Seq<STy>, s: Seq<(u32, STy)>, e: Seq<(u32, EffectRow)>, k: int)
    requires
        resolved_seq(ts, s, e),
        0 <= k,
    ensures
        apps_from(ts, s, e, k) == ts,
    decreases ts, 1nat,
{
    if ts.len() > 0 {
        let d = ts.drop_last();
        lemma_apps_id(d, s, e, k);
        lemma_app_id(ts.last(), s, e, k);
        assert(apps_from(ts, s, e, k) =~= ts);
    }
}

/// `s1` extends `s0` with bindings of variables that `s0` leaves unbound.
pub open spec fn extends(s0: Seq<(u32, STy)>, s1: Seq<(u32, STy)>) -> bool {
    &&& s0.len() <= s1.len()
    &&& s1.take(s0.len() as int) == s0
    &&& forall|i: int| s0.len() <= i < s1.len() ==> find_key(s0, #[trigger] s1[i].0) < 0
}

pub proof fn lemma_extends_find(s0: Seq<(u32, STy)>, s1: Seq<(u32, STy)>, v: u32)
    requires
        extends(s0, s1),
    ensures
        find_key(s0, v) >= 0 ==> find_key(s1, v) == find_key(s0, v),
        find_key(s0, v) < 0 ==> (find_key(s1, v) < 0 || find_key(s1, v) >= s0.len()),
    decreases s1.len() - s0.len(),
{
    lemma_find_key(s0, v);
    lemma_find_key(s1, v);
    if s1.len() > s0.len() {
        let d = s1.drop_last();
        assert(d.take(s0.len() as int) =~= s0);
        assert forall|i: int| s0.len() <= i < d.len() implies find_key(s0, #[trigger] d[i].0) < 0 by {
            assert(d[i] == s1[i]);
        }
        lemma_extends_find(s0, d, v);
        if s1.last().0 == v {
            assert(find_key(s0, s1[s1.len() - 1].0) < 0);
        }
    } else {
        assert(s1 =~= s0);
    }
}

pub proof fn lemma_extends_refl(s0: Seq<(u32, STy)>)
    ensures
        extends(s0, s0),
{
    assert(s0.take(s0.len() as int) =~= s0);
}

pub proof fn lemma_extends_trans(s0: Seq<(u32, STy)>, s1: Seq<(u32, STy)>, s2: Seq<(u32, STy)>)
    requires
        extends(s0, s1),
        extends(s1, s2),
    ensures
        extends(s0, s2),
{
    assert(s2.take(s0.len() as int) =~= s1.take(s0.len() as int));
    assert forall|i: int| s0.len() <= i < s2.len() implies find_key(s0, #[trigger] s2[i].0) < 0 by {
        if i < s1.len() {
            assert(s2[i] == s1[i]);
        } else {
            lemma_extends_find(s0, s1, s2[i].0);
        }
    }
}

pub proof fn lemma_fv_finite(t: STy)
    ensures
        fv(t).finite(),
    decreases t, 0nat,
{
    match t {
        STy::Var(_) => {},
        STy::Prim(_) => {},
        STy::Con(_, args) => lemma_fvs_finite(args),
        STy::Fun(ps, _, r) => {
            lemma_fvs_finite(ps);
            lemma_fv_finite(*r);
        },
    }
}

pub proof fn lemma_fvs_finite(ts: Seq<STy>)
    ensures
        fvs(ts).finite(),
    decreases ts, 1nat,
{
    if ts.len() > 0 {
        lemma_fvs_finite(ts.drop_last());
        lemma_fv_finite(ts.last());
    }
}

/// Applying from position `k` agrees with applying from 0 when no free variable is bound below `k`.
pub proof fn lemma_app_from_k(t: STy, s: Seq<(u32, STy)>, e: Seq<(u32, EffectRow)>, k: int)
    requires
        0 <= k,
        unbound_below(t, s, k),
    ensures
        app_from(t, s, e, k) == app_from(t, s, e, 0),
    decreases t, 0nat,
{
    match t {
        STy::Var(v) => {
            assert(fv(t).contains(v));
        },
        STy::Prim(_) => {},
        STy::Con(_, args) => {
            assert forall|w: u32| #[trigger] fvs(args).contains(w) implies !(0 <= find_key(s, w) < k) by {
                assert(fv(t).contains(w));
            }
            lemma_apps_from_k(args, s, e, k);
        },
        STy::Fun(ps, _, r) => {
            assert forall|w: u32| #[trigger] fvs(ps).contains(w) implies !(0 <= find_key(s, w) < k) by {
                assert(fv(t).contains(w));
            }
            lemma_apps_from_k(ps, s, e, k);
            assert forall|w: u32| #[trigger] fv(*r).contains(w) implies !(0 <= find_key(s, w) < k) by {
                assert(fv(t).contains(w));
            }
            lemma_app_from_k(*r, s, e, k);
        },
    }
}

pub proof fn lemma_apps_from_k(ts: Seq<STy>, s: Seq<(u32, STy)>, e: Seq<(u32, EffectRow)>, k: int)
    requires
        0 <= k,
        forall|w: u32| #[trigger] fvs(ts).contains(w) ==> !(0 <= find_key(s, w) < k),
    ensures
        apps_from(ts, s, e, k) == apps_from(ts, s, e, 0),
    decreases ts, 1nat,
{
    if ts.len() > 0 {
        let d = ts.drop_last();
        assert forall|w: u32| #[trigger] fvs(d).contains(w) implies !(0 <= find_key(s, w) < k) by {
            assert(fvs(ts).contains(w));
        }
        assert forall|w: u32| #[trigger] fv(ts.last()).contains(w) implies !(0 <= find_key(s, w) < k) by {
            assert(fvs(ts).contains(w));
        }
        lemma_apps_from_k(d, s, e, k);
        lemma_app_from_k(ts.last(), s, e, k);
    }
}

/// The free variables of the type bindings at positions `k..`.
pub open spec fn bfv(s: Seq<(u32, STy)>, k: int) -> Set<u32>
    decreases s.len() - k,
{
    if k < 0 || k >= s.len() {
        Set::empty()
    } else {
        fv(s[k].1).union(bfv(s, k + 1))
    }
}

pub proof fn lemma_bfv(s: Seq<(u32, STy)>, k: int, i: int)
    requires
        0 <= k <= i,
    ensures
        bfv(s, i).subset_of(bfv(s, k)),
        i < s.len() ==> fv(s[i].1).subset_of(bfv(s, k)),
    decreases i - k,
{
    if k < i {
        lemma_bfv(s, k + 1, i);
    }
}

/// The free variables of an application come from the type or from the bindings used.
pub proof fn lemma_app_fv(t: STy, s: Seq<(u32, STy)>, e: Seq<(u32, EffectRow)>, k: int)
    requires
        tys_wf(s),
        0 <= k,
        unbound_below(t, s, k),
    ensures
        fv(app_from(t, s, e, k)).subset_of(fv(t).union(bfv(s, k))),
    decreases s.len() - k, t, 0nat,
{
    match t {
        STy::Var(v) => {
            let i = find_key(s, v);
            lemma_find_key(s, v);
            assert(fv(t).contains(v));
            if k <= i < s.len() {
                assert forall|w: u32| #[trigger] fv(s[i].1).contains(w) implies !(0 <= find_key(s, w) < i + 1) by {}
                lemma_app_fv(s[i].1, s, e, i + 1);
                lemma_bfv(s, k, i);
                lemma_bfv(s, k, i + 1);
            }
        },
        STy::Prim(_) => {},
        STy::Con(_, args) => {
            assert forall|w: u32| #[trigger] fvs(args).contains(w) implies !(0 <= find_key(s, w) < k) by {
                assert(fv(t).contains(w));
            }
            lemma_apps_fv(args, s, e, k);
        },
        STy::Fun(ps, _, r) => {
            assert forall|w: u32| #[trigger] fvs(ps).contains(w) implies !(0 <= find_key(s, w) < k) by {
                assert(fv(t).contains(w));
            }
            assert forall|w: u32| #[trigger] fv(*r).contains(w) implies !(0 <= find_key(s, w) < k) by {
                assert(fv(t).contains(w));
            }
            lemma_apps_fv(ps, s, e, k);
            lemma_app_fv(*r, s, e, k);
        },
    }
}

pub proof fn lemma_apps_fv(ts: Seq<STy>, s: Seq<(u32, STy)>, e: Seq<(u32, EffectRow)>, k: int)
    requires
        tys_wf(s),
        0 <= k,
        forall|w: u32| #[trigger] fvs(ts).contains(w) ==> !(0 <= find_key(s, w) < k),
    ensures
        fvs(apps_from(ts, s, e, k)).subset_of(fvs(ts).union(bfv(s, k))),
    decreases s.len() - k, ts, 1nat,
{
    if ts.len() > 0 {
        let d = ts.drop_last();
        assert forall|w: u32| #[trigger] fvs(d).contains(w) implies !(0 <= find_key(s, w) < k) by {
            assert(fvs(ts).contains(w));
        }
        assert forall|w: u32| #[trigger] fv(ts.last()).contains(w) implies !(0 <= find_key(s, w) < k) by {
            assert(fvs(ts).contains(w));
        }
        lemma_apps_fv(d, s, e, k);
        lemma_app_fv(ts.last(), s, e, k);
        let res = apps_from(ts, s, e, k);
        assert(res.drop_last() =~= apps_from(d, s, e, k));
    }
}

/// Applying an extension after a prefix is the same as applying the extension.
pub proof fn lemma_compose(t: STy, s0: Seq<(u32, STy)>, s1: Seq<(u32, STy)>, e: Seq<(u32, EffectRow)>, k: int)
    requires
        tys_wf(s0),
        tys_wf(s1),
        effs_wf(e),
        extends(s0, s1),
        0 <= k <= s0.len(),
        unbound_below(t, s0, k),
    ensures
        apply(app_from(t, s0, e, k), s1, e) == app_from(t, s1, e, k),
    decreases s0.len() - k, t, 0nat,
{
    match t {
        STy::Var(v) => {
            let i = find_key(s0, v);
            lemma_find_key(s0, v);
            lemma_extends_find(s0, s1, v);
            assert(fv(t).contains(v));
            if k <= i < s0.len() {
                assert(s1[i] == s1.take(s0.len() as int)[i]);
                assert forall|w: u32| #[trigger] fv(s0[i].1).contains(w) implies !(0 <= find_key(s0, w) < i + 1) by {}
                lemma_compose(s0[i].1, s0, s1, e, i + 1);
            }
        },
        STy::Prim(_) => {},
        STy::Con(_, args) => {
            assert forall|w: u32| #[trigger] fvs(args).contains(w) implies !(0 <= find_key(s0, w) < k) by {
                assert(fv(t).contains(w));
            }
            lemma_apps_compose(args, s0, s1, e, k);
        },
        STy::Fun(ps, row, r) => {
            assert forall|w: u32| #[trigger] fvs(ps).contains(w) implies !(0 <= find_key(s0, w) < k) by {
                assert(fv(t).contains(w));
            }
            assert forall|w: u32| #[trigger] fv(*r).contains(w) implies !(0 <= find_key(s0, w) < k) by {
                assert(fv(t).contains(w));
            }
            lemma_apps_compose(ps, s0, s1, e, k);
            lemma_compose(*r, s0, s1, e, k);
            lemma_row_resolved(row, e, 0);
            lemma_row_id(app_row(row, e), e, 0);
        },
    }
}

pub proof fn lemma_apps_compose(ts: Seq<STy>, s0: Seq<(u32, STy)>, s1: Seq<(u32, STy)>, e: Seq<(u32, EffectRow)>, k: int)
    requires
        tys_wf(s0),
        tys_wf(s1),
        effs_wf(e),
        extends(s0, s1),
        0 <= k <= s0.len(),
        forall|w: u32| #[trigger] fvs(ts).contains(w) ==> !(0 <= find_key(s0, w) < k),
    ensures
        apps_from(apps_from(ts, s0, e, k), s1, e, 0) == apps_from(ts, s1, e, k),
    decreases s0.len() - k, ts, 1nat,
{
    if ts.len() > 0 {
        let d = ts.drop_last();
        assert forall|w: u32| #[trigger] fvs(d).contains(w) implies !(0 <= find_key(s0, w) < k) by {
            assert(fvs(ts).contains(w));
        }
        assert forall|w: u32| #[trigger] fv(ts.last()).contains(w) implies !(0 <= find_key(s0, w) < k) by {
            assert(fvs(ts).contains(w));
        }
        lemma_apps_compose(d, s0, s1, e, k);
        lemma_compose(ts.last(), s0, s1, e, k);
        let mid = apps_from(ts, s0, e, k);
        assert(mid.drop_last() =~= apps_from(d, s0, e, k));
    }
}

/// Equality of types that ignores the effect rows of function types.
pub open spec fn eqm(x: STy, y: STy) -> bool
    decreases x, 0nat,
{
    match x {
        STy::Var(a) => y == STy::Var(a),
        STy::Prim(p) => y == STy::Prim(p),
        STy::Con(i, xs) => match y {
            STy::Con(j, ys) => i == j && eqms(xs, ys),
            _ => false,
        },
        STy::Fun(p1, _, r1) => match y {
            STy::Fun(p2, _, r2) => eqms(p1, p2) && eqm(*r1, *r2),
            _ => false,
        },
    }
}

/// Element-wise [`eqm`].
pub open spec fn eqms(xs: Seq<STy>, ys: Seq<STy>) -> bool
    decreases xs, 1nat,
{
    if xs.len() != ys.len() {
        false
    } else if xs.len() == 0 {
        true
    } else {
        eqms(xs.drop_last(), ys.drop_last()) && eqm(xs.last(), ys.last())
    }
}

pub proof fn lemma_eqms(xs: Seq<STy>, ys: Seq<STy>)
    ensures
        eqms(xs, ys) <==> (xs.len() == ys.len() && forall|m: int| 0 <= m < xs.len() ==> #[trigger] eqm(xs[m], ys[m])),
    decreases xs.len(),
{
    if xs.len() == ys.len() && xs.len() > 0 {
        let dx = xs.drop_last();
        let dy = ys.drop_last();
        lemma_eqms(dx, dy);
        if forall|m: int| 0 <= m < xs.len() ==> #[trigger] eqm(xs[m], ys[m]) {
            assert forall|m: int| 0 <= m < dx.len() implies #[trigger] eqm(dx[m], dy[m]) by {
                assert(eqm(xs[m], ys[m]));
            }
            assert(eqm(xs[xs.len() - 1], ys[ys.len() - 1]));
        }
        if eqms(xs, ys) {
            assert forall|m: int| 0 <= m < xs.len() implies #[trigger] eqm(xs[m], ys[m]) by {
                if m < xs.len() - 1 {
                    assert(eqm(dx[m], dy[m]));
                }
            }
        }
    }
}

pub proof fn lemma_eqm_refl(x: STy)
    ensures
        eqm(x, x),
    decreases x, 0nat,
{
    match x {
        STy::Con(_, xs) => lemma_eqms_refl(xs),
        STy::Fun(ps, _, r) => {
            lemma_eqms_refl(ps);
            lemma_eqm_refl(*r);
        },
        _ => {},
    }
}

pub proof fn lemma_eqms_refl(xs: Seq<STy>)
    ensures
        eqms(xs, xs),
    decreases xs, 1nat,
{
    if xs.len() > 0 {
        lemma_eqms_refl(xs.drop_last());
        lemma_eqm_refl(xs.last());
    }
}

/// Applying one substitution to two types equal up to effect rows keeps them so.
pub proof fn lemma_eqm_app(x: STy, y: STy, s: Seq<(u32, STy)>, e: Seq<(u32, EffectRow)>)
    requires
        eqm(x, y),
    ensures
        eqm(apply(x, s, e), apply(y, s, e)),
    decreases x, 0nat,
{
    match x {
        STy::Var(_) => lemma_eqm_refl(apply(x, s, e)),
        STy::Prim(_) => {},
        STy::Con(_, xs) => {
            if let STy::Con(_, ys) = y {
                lemma_eqms_app(xs, ys, s, e);
            }
        },
        STy::Fun(p1, _, r1) => {
            if let STy::Fun(p2, _, r2) = y {
                lemma_eqms_app(p1, p2, s, e);
                lemma_eqm_app(*r1, *r2, s, e);
            }
        },
    }
}

pub proof fn lemma_eqms_app(xs: Seq<STy>, ys: Seq<STy>, s: Seq<(u32, STy)>, e: Seq<(u32, EffectRow)>)
    requires
        eqms(xs, ys),
    ensures
        eqms(apps_from(xs, s, e, 0), apps_from(ys, s, e, 0)),
    decreases xs, 1nat,
{
    if xs.len() > 0 {
        lemma_eqms_app(xs.drop_last(), ys.drop_last(), s, e);
        lemma_eqm_app(xs.last(), ys.last(), s, e);
        assert(apps_from(xs, s, e, 0).drop_last() =~= apps_from(xs.drop_last(), s, e, 0));
        assert(apps_from(ys, s, e, 0).drop_last() =~= apps_from(ys.drop_last(), s, e, 0));
    }
}

/// The number of nodes of a type.
pub open spec fn size(t: STy) -> nat
    decreases t, 0nat,
{
    match t {
        STy::Var(_) => 1,
        STy::Prim(_) => 1,
        STy::Con(_, args) => 1 + sizes(args),
        STy::Fun(ps, _, r) => 1 + sizes(ps) + size(*r),
    }
}

pub open spec fn sizes(ts: Seq<STy>) -> nat
    decreases ts, 1nat,
{
    if ts.len() == 0 {
        0
    } else {
        sizes(ts.drop_last()) + size(ts.last())
    }
}

pub proof fn lemma_sizes(ts: Seq<STy>, m: int)
    requires
        0 <= m < ts.len(),
    ensures
        size(ts[m]) <= sizes(ts),
    decreases ts.len(),
{
    if m < ts.len() - 1 {
        lemma_sizes(ts.drop_last(), m);
        assert(ts[m] == ts.drop_last()[m]);
    }
}

/// The variables that a unification problem `a = b` mentions under `s`.
pub open spec fn problem_vars(s: Seq<(u32, STy)>, e: Seq<(u32, EffectRow)>, a: STy, b: STy) -> Set<u32> {
    fv(apply(a, s, e)).union(fv(apply(b, s, e)))
}

/// The size of a unification problem `a = b` under `s`.
pub open spec fn problem_size(s: Seq<(u32, STy)>, e: Seq<(u32, EffectRow)>, a: STy, b: STy) -> nat {
    size(apply(a, s, e)) + size(apply(b, s, e))
}

/// The bindings that `s1` adds to `s0` bind variables of `vs` to types over `vs`.
pub open spec fn adds_within(s0: Seq<(u32, STy)>, s1: Seq<(u32, STy)>, vs: Set<u32>) -> bool {
    &&& forall|i: int| s0.len() <= i < s1.len() ==> vs.contains(#[trigger] s1[i].0)
    &&& bfv(s1, s0.len() as int).subset_of(vs)
}

pub proof fn lemma_bfv_split(s: Seq<(u32, STy)>, s1: Seq<(u32, STy)>, k: int)
    requires
        s.len() <= s1.len(),
        s1.take(s.len() as int) == s,
        0 <= k <= s.len(),
    ensures
        bfv(s1, k).subset_of(bfv(s, k).union(bfv(s1, s.len() as int))),
    decreases s.len() - k,
{
    if k < s.len() {
        assert(s1[k] == s1.take(s.len() as int)[k]);
        lemma_bfv_split(s, s1, k + 1);
    }
}

pub proof fn lemma_adds_within_trans(
    s0: Seq<(u32, STy)>,
    s1: Seq<(u32, STy)>,
    s2: Seq<(u32, STy)>,
    vs: Set<u32>,
    ws: Set<u32>,
)
    requires
        extends(s0, s1),
        extends(s1, s2),
        adds_within(s0, s1, vs),
        adds_within(s1, s2, ws),
        ws.subset_of(vs),
    ensures
        adds_within(s0, s2, vs),
{
    assert forall|i: int| s0.len() <= i < s2.len() implies vs.contains(#[trigger] s2[i].0) by {
        if i < s1.len() {
            assert(s2[i] == s2.take(s1.len() as int)[i]);
            assert(s1[i] == s2[i]);
        }
    }
    assert(s2.take(s1.len() as int) == s1);
    assert(s1.take(s0.len() as int) == s0);
    lemma_bfv_split(s1, s2, s0.len() as int);
}

pub proof fn lemma_key_bound<V>(s: Seq<(u32, V)>, i: int)
    requires
        0 <= i < s.len(),
    ensures
        find_key(s, s[i].0) >= i,
{
    lemma_find_key(s, s[i].0);
}

/// A sub-problem `x = y` of a resolved problem `A = B` mentions fewer variables, or
/// as many and is smaller.
pub proof fn lemma_subproblem(
    s0: Seq<(u32, STy)>,
    cur: Seq<(u32, STy)>,
    e: Seq<(u32, EffectRow)>,
    a: STy,
    b: STy,
    x: STy,
    y: STy,
)
    requires
        tys_wf(s0),
        tys_wf(cur),
        effs_wf(e),
        extends(s0, cur),
        adds_within(s0, cur, fv(a).union(fv(b))),
        resolved(a, s0, e),
        resolved(b, s0, e),
        resolved(x, s0, e),
        resolved(y, s0, e),
        fv(x).subset_of(fv(a)),
        fv(y).subset_of(fv(b)),
        size(x) < size(a),
        size(y) < size(b),
    ensures
        problem_vars(cur, e, x, y).subset_of(fv(a).union(fv(b))),
        problem_vars(cur, e, x, y).finite(),
        problem_vars(cur, e, x, y).len() <= fv(a).union(fv(b)).len(),
        problem_vars(cur, e, x, y).len() < fv(a).union(fv(b)).len() || problem_size(cur, e, x, y)
            < size(a) + size(b),
{
    let vs = fv(a).union(fv(b));
    lemma_fv_finite(a);
    lemma_fv_finite(b);
    let n0 = s0.len() as int;
    assert forall|w: u32| #[trigger] fv(x).contains(w) implies !(0 <= find_key(cur, w) < n0) by {
        lemma_extends_find(s0, cur, w);
        lemma_resolved_free(x, s0, e, w);
    }
    assert forall|w: u32| #[trigger] fv(y).contains(w) implies !(0 <= find_key(cur, w) < n0) by {
        lemma_extends_find(s0, cur, w);
        lemma_resolved_free(y, s0, e, w);
    }
    lemma_app_from_k(x, cur, e, n0);
    lemma_app_from_k(y, cur, e, n0);
    lemma_app_fv(x, cur, e, n0);
    lemma_app_fv(y, cur, e, n0);
    let pv = problem_vars(cur, e, x, y);
    assert(pv.subset_of(vs));
    vstd::set_lib::lemma_len_subset(pv, vs);
    if cur.len() > s0.len() {
        let kappa = cur[n0].0;
        lemma_key_bound(cur, n0);
        lemma_app_resolved(x, cur, e, 0);
        lemma_app_resolved(y, cur, e, 0);
        assert(!pv.contains(kappa)) by {
            if fv(apply(x, cur, e)).contains(kappa) {
                lemma_resolved_free(apply(x, cur, e), cur, e, kappa);
            }
            if fv(apply(y, cur, e)).contains(kappa) {
                lemma_resolved_free(apply(y, cur, e), cur, e, kappa);
            }
        }
        assert(pv.subset_of(vs.remove(kappa)));
        vstd::set_lib::lemma_len_subset(pv, vs.remove(kappa));
    } else {
        assert(cur =~= s0);
        lemma_app_id(x, s0, e, 0);
        lemma_app_id(y, s0, e, 0);
    }
}

/// A free variable of a resolved type is unbound.
pub proof fn lemma_resolved_free(t: STy, s: Seq<(u32, STy)>, e: Seq<(u32, EffectRow)>, w: u32)
    requires
        resolved(t, s, e),
        fv(t).contains(w),
    ensures
        find_key(s, w) < 0,
    decreases t, 0nat,
{
    match t {
        STy::Var(_) => {},
        STy::Prim(_) => {},
        STy::Con(_, args) => lemma_resolved_free_seq(args, s, e, w),
        STy::Fun(ps, _, r) => {
            if fvs(ps).contains(w) {
                lemma_resolved_free_seq(ps, s, e, w);
            } else {
                lemma_resolved_free(*r, s, e, w);
            }
        },
    }
}

pub proof fn lemma_resolved_free_seq(ts: Seq<STy>, s: Seq<(u32, STy)>, e: Seq<(u32, EffectRow)>, w: u32)
    requires
        resolved_seq(ts, s, e),
        fvs(ts).contains(w),
    ensures
        find_key(s, w) < 0,
    decreases ts, 1nat,
{
    if ts.len() > 0 {
        if fvs(ts.drop_last()).contains(w) {
            lemma_resolved_free_seq(ts.drop_last(), s, e, w);
        } else {
            lemma_resolved_free(ts.last(), s, e, w);
        }
    }
}

// ---------------------------------------------------------------------------
// Executable substitution.
// ---------------------------------------------------------------------------

/// Applies `subst` to `ty`, resolving bound variables transitively and folding
/// resolved effect tails into function rows.
pub fn apply_subst(ty: &Ty, subst: &Subst) -> (r: Ty)
    requires
        subst.wf(),
    ensures
        r@ == apply(ty@, subst.tys@, subst.effs@),
        resolved(r@, subst.tys@, subst.effs@),
{
    proof {
        lemma_app_resolved(ty@, subst.tys@, subst.effs@, 0);
    }
    apply_from(ty, subst, Ghost(0))
}

fn apply_from(ty: &Ty, subst: &Subst, Ghost(k): Ghost<int>) -> (r: Ty)
    requires
        subst.wf(),
        0 <= k <= subst.tys@.len(),
        unbound_below(ty@, subst.tys@, k),
    ensures
        r@ == app_from(ty@, subst.tys@, subst.effs@, k),
    decreases subst.tys@.len() - k, ty, 0nat,
{
    match ty {
        Ty::Var(v) => {
            assert(fv(ty@).contains(v.0));
            match subst.tys.find(v) {
                Some(i) => {
                    proof {
                        lemma_find_key(subst.tys@, v.0);
                    }
                    let (_, t) = subst.tys.entry(i);
                    proof {
                        assert forall|w: u32| #[trigger] fv(t@).contains(w) implies !(0 <= find_key(subst.tys@, w) < i + 1) by {
                            assert(fv(subst.tys@[i as int].1).contains(w));
                        }
                    }
                    apply_from(t, subst, Ghost(i + 1))
                },
                None => Ty::Var(*v),
            }
        },
        Ty::Prim(p) => Ty::Prim(*p),
        Ty::Con(id, args) => {
            proof {
                assert forall|w: u32| #[trigger] fvs(stys(args@)).contains(w) implies !(0 <= find_key(subst.tys@, w) < k) by {
                    assert(fv(ty@).contains(w));
                }
            }
            Ty::Con(*id, apply_all(args, subst, Ghost(k)))
        },
        Ty::Fun(ps, row, r) => {
            proof {
                assert forall|w: u32| #[trigger] fvs(stys(ps@)).contains(w) implies !(0 <= find_key(subst.tys@, w) < k) by {
                    assert(fv(ty@).contains(w));
                }
                assert forall|w: u32| #[trigger] fv((**r)@).contains(w) implies !(0 <= find_key(subst.tys@, w) < k) by {
                    assert(fv(ty@).contains(w));
                }
            }
            let ps2 = apply_all(ps, subst, Ghost(k));
            let row2 = apply_eff_row(row, subst);
            let r2 = apply_from(r, subst, Ghost(k));
            Ty::Fun(ps2, row2, Box::new(r2))
        },
    }
}

fn apply_all(ts: &Vec<Ty>, subst: &Subst, Ghost(k): Ghost<int>) -> (r: Vec<Ty>)
    requires
        subst.wf(),
        0 <= k <= subst.tys@.len(),
        forall|w: u32| #[trigger] fvs(stys(ts@)).contains(w) ==> !(0 <= find_key(subst.tys@, w) < k),
    ensures
        stys(r@) == apps_from(stys(ts@), subst.tys@, subst.effs@, k),
    decreases subst.tys@.len() - k, ts, 1nat,
{
    let ghost xs = stys(ts@);
    proof {
        lemma_stys(ts@);
        lemma_fvs(xs);
        lemma_apps_from(xs, subst.tys@, subst.effs@, k);
    }
    let mut out: Vec<Ty> = Vec::new();
    let mut j: usize = 0;
    while j < ts.len()
        invariant
            j <= ts.len(),
            subst.wf(),
            0 <= k <= subst.tys@.len(),
            xs == stys(ts@),
            xs.len() == ts@.len(),
            forall|m: int| 0 <= m < ts@.len() ==> #[trigger] xs[m] == ts@[m]@,
            forall|w: u32| #[trigger] fvs(xs).contains(w) ==> !(0 <= find_key(subst.tys@, w) < k),
            forall|w: u32| #[trigger] fvs(xs).contains(w) <==> exists|m: int| 0 <= m < xs.len() && fv(xs[m]).contains(w),
            out@.len() == j,
            forall|m: int| 0 <= m < j ==> #[trigger] out@[m]@ == app_from(xs[m], subst.tys@, subst.effs@, k),
        decreases ts.len() - j,
    {
        proof {
            assert(decreases_to!(ts => ts@[j as int]));
            assert forall|w: u32| #[trigger] fv(ts@[j as int]@).contains(w) implies !(0 <= find_key(subst.tys@, w) < k) by {
                assert(fv(xs[j as int]).contains(w));
                assert(fvs(xs).contains(w));
            }
        }
        let a = apply_from(&ts[j], subst, Ghost(k));
        out.push(a);
        j = j + 1;
    }
    proof {
        lemma_stys(out@);
        assert(stys(out@) =~= apps_from(xs, subst.tys@, subst.effs@, k));
    }
    out
}

/// Resolves the tail of `row` through the effect bindings, folding the labels
/// of every bound tail into the row.
pub fn apply_eff_row(row: &EffectRow, subst: &Subst) -> (r: EffectRow)
    requires
        subst.wf(),
    ensures
        r == app_row(*row, subst.effs@),
        row_resolved(r, subst.effs@),
{
    proof {
        lemma_row_resolved(*row, subst.effs@, 0);
    }
    let mut labels = row.labels;
    let mut tail = row.tail;
    let ghost mut k: int = 0;
    loop
        invariant
            subst.wf(),
            0 <= k <= subst.effs@.len(),
            app_row_from((EffectRow { labels, tail }), subst.effs@, k) == app_row(*row, subst.effs@),
            tail matches Some(w) ==> !(0 <= find_key(subst.effs@, w.0) < k),
        ensures
            (EffectRow { labels, tail }) == app_row(*row, subst.effs@),
            row_resolved((EffectRow { labels, tail }), subst.effs@),
        decreases subst.effs@.len() - k,
    {
        match tail {
            Some(v) => {
                proof {
                    lemma_find_key(subst.effs@, v.0);
                }
                match subst.effs.get(&v) {
                    Some(next) => {
                        let ghost i = find_key(subst.effs@, v.0);
                        proof {
                            let n = subst.effs@[i].1;
                            assert(effs_wf(subst.effs@));
                            assert(match n.tail {
                                None => true,
                                Some(w) => find_key(subst.effs@, w.0) < 0 || find_key(subst.effs@, w.0) > i,
                            });
                        }
                        labels = labels.union(next.labels);
                        tail = next.tail;
                        proof {
                            k = i + 1;
                        }
                    },
                    None => {
                        break ;
                    },
                }
            },
            None => {
                break ;
            },
        }
    }
    EffectRow { labels, tail }
}

/// Whether `var` occurs in `ty` once `subst` is applied.
pub fn occurs(var: TyVarId, ty: &Ty, subst: &Subst) -> (r: bool)
    requires
        subst.wf(),
    ensures
        r == fv(apply(ty@, subst.tys@, subst.effs@)).contains(var.0),
    decreases apply(ty@, subst.tys@, subst.effs@),
{
    let t = apply_subst(ty, subst);
    match &t {
        Ty::Var(v) => v.0 == var.0,
        Ty::Prim(_) => false,
        Ty::Con(_, args) => occurs_any(var, args, subst, Ghost(t@)),
        Ty::Fun(ps, _, r) => {
            if occurs_any(var, ps, subst, Ghost(t@)) {
                true
            } else {
                proof {
                    lemma_resolved_seq(stys(ps@), subst.tys@, subst.effs@);
                    lemma_app_id((**r)@, subst.tys@, subst.effs@, 0);
                    assert(decreases_to!(t@ => (**r)@));
                }
                occurs(var, r, subst)
            }
        },
    }
}

fn occurs_any(var: TyVarId, ts: &Vec<Ty>, subst: &Subst, Ghost(parent): Ghost<STy>) -> (r: bool)
    requires
        subst.wf(),
        resolved_seq(stys(ts@), subst.tys@, subst.effs@),
        decreases_to!(parent => stys(ts@)),
    ensures
        r == fvs(stys(ts@)).contains(var.0),
    decreases parent, 0nat,
{
    let ghost xs = stys(ts@);
    proof {
        lemma_stys(ts@);
        lemma_fvs(xs);
        lemma_resolved_seq(xs, subst.tys@, subst.effs@);
    }
    let mut j: usize = 0;
    while j < ts.len()
        invariant
            j <= ts.len(),
            subst.wf(),
            xs == stys(ts@),
            xs.len() == ts@.len(),
            forall|m: int| 0 <= m < ts@.len() ==> #[trigger] xs[m] == ts@[m]@,
            forall|m: int| 0 <= m < xs.len() ==> #[trigger] resolved(xs[m], subst.tys@, subst.effs@),
            forall|w: u32| #[trigger] fvs(xs).contains(w) <==> exists|m: int| 0 <= m < xs.len() && fv(xs[m]).contains(w),
            forall|m: int| 0 <= m < j ==> !#[trigger] fv(xs[m]).contains(var.0),
            decreases_to!(parent => xs),
        decreases ts.len() - j,
    {
        proof {
            lemma_app_id(xs[j as int], subst.tys@, subst.effs@, 0);
            assert(decreases_to!(parent => xs[j as int]));
        }
        if occurs(var, &ts[j], subst) {
            proof {
                assert(fv(xs[j as int]).contains(var.0));
            }
            return true;
        }
        j = j + 1;
    }
    false
}

/// Why two types could not be unified.
#[derive(Debug, PartialEq)]
pub enum UnifyError {
    Mismatch { left: Ty, right: Ty },
    Occurs(TyVarId),
    Arity { expected: usize, found: usize },
}

/// The heads of two resolved types can never be made equal.
pub open spec fn clash(x: STy, y: STy) -> bool {
    match x {
        STy::Var(_) => false,
        STy::Prim(p) => match y {
            STy::Var(_) => false,
            STy::Prim(q) => p != q,
            _ => true,
        },
        STy::Con(i, _) => match y {
            STy::Var(_) => false,
            STy::Con(j, _) => i != j,
            _ => true,
        },
        STy::Fun(..) => match y {
            STy::Var(_) => false,
            STy::Fun(..) => false,
            _ => true,
        },
    }
}

/// What `unify` promises on every outcome: the substitution stays applicable,
/// only grows, and only by binding variables of the problem to types over them.
pub open spec fn unify_frame(s0: Seq<(u32, STy)>, s1: Seq<(u32, STy)>, vs: Set<u32>) -> bool {
    &&& tys_wf(s1)
    &&& extends(s0, s1)
    &&& adds_within(s0, s1, vs)
}

/// The facts that an error carries.
pub open spec fn error_facts(r: Result<(), UnifyError>, vs: Set<u32>) -> bool {
    match r {
        Ok(()) => true,
        Err(UnifyError::Occurs(v)) => vs.contains(v.0),
        Err(UnifyError::Arity { expected, found }) => expected != found,
        Err(UnifyError::Mismatch { left, right }) => clash(left@, right@),
    }
}

/// A unification error as a value.
pub enum SUnifyError {
    Mismatch { left: STy, right: STy },
    Occurs(u32),
    Arity { expected: nat, found: nat },
}

pub open spec fn uerr_v(e: UnifyError) -> SUnifyError {
    match e {
        UnifyError::Mismatch { left, right } => SUnifyError::Mismatch { left: left@, right: right@ },
        UnifyError::Occurs(v) => SUnifyError::Occurs(v.0),
        UnifyError::Arity { expected, found } => SUnifyError::Arity {
            expected: expected as nat,
            found: found as nat,
        },
    }
}

pub open spec fn unify_error_m(r: Result<(), UnifyError>) -> Result<(), SUnifyError> {
    match r {
        Ok(()) => Ok(()),
        Err(e) => Err(uerr_v(e)),
    }
}

/// The problem `x = y` under `s` mentions fewer variables than the resolved
/// problem `pa = pb`, or as many and is smaller. Every sub-problem that
/// unification meets is (see `lemma_subproblem`); checking it keeps the
/// definitions below total.
pub open spec fn smaller(s: Seq<(u32, STy)>, e: Seq<(u32, EffectRow)>, x: STy, y: STy, pa: STy, pb: STy) -> bool {
    let n = problem_vars(s, e, x, y).len();
    let m = fv(pa).union(fv(pb)).len();
    n < m || (n == m && problem_size(s, e, x, y) < size(pa) + size(pb))
}

/// Binding `v` to the resolved type `t`, unless `v` occurs in it.
pub open spec fn bind_spec(s: Seq<(u32, STy)>, v: u32, t: STy) -> (Seq<(u32, STy)>, Result<(), SUnifyError>) {
    if fv(t).contains(v) {
        (s, Err(SUnifyError::Occurs(v)))
    } else {
        (s.push((v, t)), Ok(()))
    }
}

/// What unifying `a` with `b` from the bindings `s` gives: the bindings after
/// it, and its outcome. Both sides are resolved first; a variable is bound to
/// the other side; constructors and function types are unified argument by
/// argument, left to right, stopping at the first failure.
pub open spec fn unify_spec(s: Seq<(u32, STy)>, e: Seq<(u32, EffectRow)>, a: STy, b: STy) -> (Seq<(u32, STy)>, Result<(), SUnifyError>)
    decreases problem_vars(s, e, a, b).len(), problem_size(s, e, a, b), 1nat, 0int,
{
    let a1 = apply(a, s, e);
    let b1 = apply(b, s, e);
    let mismatch = (s, Err(SUnifyError::Mismatch { left: a1, right: b1 }));
    match a1 {
        STy::Var(x) => if b1 == STy::Var(x) {
            (s, Ok(()))
        } else {
            bind_spec(s, x, b1)
        },
        _ => match b1 {
            STy::Var(y) => bind_spec(s, y, a1),
            _ => match a1 {
                STy::Prim(p) => if b1 == STy::Prim(p) {
                    (s, Ok(()))
                } else {
                    mismatch
                },
                STy::Con(i, xs) => match b1 {
                    STy::Con(j, ys) => if i != j {
                        mismatch
                    } else if xs.len() != ys.len() {
                        (s, Err(SUnifyError::Arity { expected: xs.len(), found: ys.len() }))
                    } else {
                        unify_list_spec(s, e, xs, ys, 0, a1, b1)
                    },
                    _ => mismatch,
                },
                STy::Fun(p1, _, r1) => match b1 {
                    STy::Fun(p2, _, r2) => if p1.len() != p2.len() {
                        (s, Err(SUnifyError::Arity { expected: p1.len(), found: p2.len() }))
                    } else {
                        let (s1, r) = unify_list_spec(s, e, p1, p2, 0, a1, b1);
                        if r is Err {
                            (s1, r)
                        } else if smaller(s1, e, *r1, *r2, a1, b1) {
                            unify_spec(s1, e, *r1, *r2)
                        } else {
                            (s1, Ok(()))
                        }
                    },
                    _ => mismatch,
                },
                STy::Var(_) => (s, Ok(())),
            },
        },
    }
}

/// Unifying `xs[j..]` with `ys[j..]` pairwise from the bindings `s`, as
/// arguments of the resolved problem `pa = pb`.
pub open spec fn unify_list_spec(
    s: Seq<(u32, STy)>,
    e: Seq<(u32, EffectRow)>,
    xs: Seq<STy>,
    ys: Seq<STy>,
    j: int,
    pa: STy,
    pb: STy,
) -> (Seq<(u32, STy)>, Result<(), SUnifyError>)
    decreases fv(pa).union(fv(pb)).len(), size(pa) + size(pb), 0nat, xs.len() - j,
{
    if j < 0 || j >= xs.len() {
        (s, Ok(()))
    } else if smaller(s, e, xs[j], ys[j], pa, pb) {
        let (s1, r) = unify_spec(s, e, xs[j], ys[j]);
        if r is Err {
            (s1, r)
        } else {
            unify_list_spec(s1, e, xs, ys, j + 1, pa, pb)
        }
    } else {
        (s, Ok(()))
    }
}

/// Unifies `a` and `b`, extending `subst` so that both sides become equal
/// (effect rows of function types are not compared).
pub fn unify(subst: &mut Subst, a: &Ty, b: &Ty) -> (r: Result<(), UnifyError>)
    requires
        old(subst).wf(),
    ensures
        final(subst).wf(),
        final(subst).effs@ == old(subst).effs@,
        unify_frame(
            old(subst).tys@,
            final(subst).tys@,
            problem_vars(old(subst).tys@, old(subst).effs@, a@, b@),
        ),
        r is Ok ==> eqm(
            apply(a@, final(subst).tys@, final(subst).effs@),
            apply(b@, final(subst).tys@, final(subst).effs@),
        ),
        error_facts(r, problem_vars(old(subst).tys@, old(subst).effs@, a@, b@)),
        (final(subst).tys@, unify_error_m(r)) == unify_spec(old(subst).tys@, old(subst).effs@, a@, b@),
    decreases problem_vars(subst.tys@, subst.effs@, a@, b@).len(), problem_size(
        subst.tys@,
        subst.effs@,
        a@,
        b@,
    ), 1nat,
{
    let ghost s0 = subst.tys@;
    let ghost e = subst.effs@;
    let a1 = apply_subst(a, subst);
    let b1 = apply_subst(b, subst);
    let ghost va = a1@;
    let ghost vb = b1@;
    proof {
        lemma_extends_refl(s0);
        lemma_fv_finite(va);
        lemma_fv_finite(vb);
    }
    if let Ty::Var(x) = &a1 {
        if let Ty::Var(y) = &b1 {
            if x.0 == y.0 {
                proof {
                    lemma_eqm_refl(va);
                }
                return Ok(());
            }
        }
        let x = *x;
        return bind_var(subst, x, b1, Ghost(a@), Ghost(b@), Ghost(false));
    }
    if let Ty::Var(y) = &b1 {
        let y = *y;
        return bind_var(subst, y, a1, Ghost(a@), Ghost(b@), Ghost(true));
    }
    match (a1, b1) {
        (Ty::Prim(p), Ty::Prim(q)) if p == q => {
            Ok(())
        },
        (Ty::Con(id1, args1), Ty::Con(id2, args2)) if id1.0 == id2.0 => {
            proof {
                lemma_stys(args1@);
                lemma_stys(args2@);
            }
            if args1.len() != args2.len() {
                return Err(UnifyError::Arity { expected: args1.len(), found: args2.len() });
            }
            let r = unify_lists(subst, &args1, &args2, Ghost(va), Ghost(vb));
            proof {
                if r is Ok {
                    let fin = subst.tys@;
                    lemma_compose(a@, s0, fin, e, 0);
                    lemma_compose(b@, s0, fin, e, 0);
                    lemma_eqms(apps_from(stys(args1@), fin, e, 0), apps_from(stys(args2@), fin, e, 0));
                }
            }
            r
        },
        (Ty::Fun(p1, _e1, r1), Ty::Fun(p2, _e2, r2)) => {
            proof {
                lemma_stys(p1@);
                lemma_stys(p2@);
            }
            if p1.len() != p2.len() {
                return Err(UnifyError::Arity { expected: p1.len(), found: p2.len() });
            }
            let rl = unify_lists(subst, &p1, &p2, Ghost(va), Ghost(vb));
            if rl.is_err() {
                return rl;
            }
            let ghost mid = subst.tys@;
            proof {
                lemma_resolved_seq(stys(p1@), s0, e);
                lemma_resolved_seq(stys(p2@), s0, e);
                lemma_subproblem(s0, mid, e, va, vb, (*r1)@, (*r2)@);
            }
            let rr = unify(subst, &r1, &r2);
            proof {
                let fin = subst.tys@;
                lemma_adds_within_trans(s0, mid, fin, fv(va).union(fv(vb)), problem_vars(mid, e, (*r1)@, (*r2)@));
                lemma_extends_trans(s0, mid, fin);
                if rr is Ok {
                    lemma_eqms(apps_from(stys(p1@), mid, e, 0), apps_from(stys(p2@), mid, e, 0));
                    lemma_eqms_app(apps_from(stys(p1@), mid, e, 0), apps_from(stys(p2@), mid, e, 0), fin, e);
                    assert forall|w: u32| #[trigger] fvs(stys(p1@)).contains(w) implies !(0 <= find_key(mid, w) < 0) by {}
                    assert forall|w: u32| #[trigger] fvs(stys(p2@)).contains(w) implies !(0 <= find_key(mid, w) < 0) by {}
                    lemma_apps_compose(stys(p1@), mid, fin, e, 0);
                    lemma_apps_compose(stys(p2@), mid, fin, e, 0);
                    lemma_compose(a@, s0, fin, e, 0);
                    lemma_compose(b@, s0, fin, e, 0);
                }
            }
            rr
        },
        (left, right) => {
            Err(UnifyError::Mismatch { left, right })
        },
    }
}

/// Binds the unbound variable `v` to the resolved type `t`, unless `v` occurs in `t`.
fn bind_var(
    subst: &mut Subst,
    v: TyVarId,
    t: Ty,
    Ghost(a): Ghost<STy>,
    Ghost(b): Ghost<STy>,
    Ghost(swapped): Ghost<bool>,
) -> (r: Result<(), UnifyError>)
    requires
        old(subst).wf(),
        resolved(t@, old(subst).tys@, old(subst).effs@),
        find_key(old(subst).tys@, v.0) < 0,
        !swapped ==> apply(a, old(subst).tys@, old(subst).effs@) == STy::Var(v.0) && apply(
            b,
            old(subst).tys@,
            old(subst).effs@,
        ) == t@,
        swapped ==> apply(b, old(subst).tys@, old(subst).effs@) == STy::Var(v.0) && apply(
            a,
            old(subst).tys@,
            old(subst).effs@,
        ) == t@,
    ensures
        final(subst).wf(),
        final(subst).effs@ == old(subst).effs@,
        unify_frame(old(subst).tys@, final(subst).tys@, problem_vars(old(subst).tys@, old(subst).effs@, a, b)),
        r is Ok ==> eqm(
            apply(a, final(subst).tys@, final(subst).effs@),
            apply(b, final(subst).tys@, final(subst).effs@),
        ),
        error_facts(r, problem_vars(old(subst).tys@, old(subst).effs@, a, b)),
        (final(subst).tys@, unify_error_m(r)) == bind_spec(old(subst).tys@, v.0, t@),
{
    let ghost s0 = subst.tys@;
    let ghost e = subst.effs@;
    let ghost tv = t@;
    proof {
        lemma_extends_refl(s0);
        lemma_app_id(tv, s0, e, 0);
    }
    if occurs(v, &t, subst) {
        return Err(UnifyError::Occurs(v));
    }
    proof {
        lemma_find_key(s0, v.0);
    }
    subst.tys.insert(v, t);
    proof {
        let s1 = subst.tys@;
        let n = s0.len() as int;
        assert(s1 == s0.push((v.0, tv)));
        assert forall|w: u32| true implies #[trigger] find_key(s1, w) == if v.0 == w { n } else { find_key(s0, w) } by {
            lemma_find_key_push(s0, v.0, tv, w);
        }
        assert forall|i: int, w: u32| 0 <= i < s1.len() && #[trigger] fv(s1[i].1).contains(w) implies (find_key(s1, w) < 0 || find_key(s1, w) > i) by {
            if i < n {
                assert(s1[i] == s0[i]);
            } else {
                lemma_resolved_free(tv, s0, e, w);
            }
        }
        assert(s1.take(n) =~= s0);
        assert(extends(s0, s1));
        assert(bfv(s1, n + 1) == Set::<u32>::empty());
        assert(bfv(s1, n) =~= fv(tv));
        // The bound side resolves to `t` once `v` is bound.
        assert forall|w: u32| #[trigger] fv(tv).contains(w) implies find_key(s1, w) < 0 by {
            lemma_resolved_free(tv, s0, e, w);
        }
        lemma_resolved_after_bind(tv, s0, s1, e, v.0);
        lemma_app_id(tv, s1, e, n + 1);
        lemma_app_id(tv, s1, e, 0);
        lemma_compose(a, s0, s1, e, 0);
        lemma_compose(b, s0, s1, e, 0);
        lemma_eqm_refl(tv);
    }
    Ok(())
}

/// A type resolved under `s0` and free of `v` stays resolved once `v` is bound.
proof fn lemma_resolved_after_bind(
    t: STy,
    s0: Seq<(u32, STy)>,
    s1: Seq<(u32, STy)>,
    e: Seq<(u32, EffectRow)>,
    v: u32,
)
    requires
        resolved(t, s0, e),
        forall|w: u32| #[trigger] fv(t).contains(w) ==> find_key(s1, w) < 0,
    ensures
        resolved(t, s1, e),
    decreases t, 0nat,
{
    match t {
        STy::Var(w) => {
            assert(fv(t).contains(w));
        },
        STy::Prim(_) => {},
        STy::Con(_, args) => {
            lemma_resolved_seq(args, s0, e);
            lemma_resolved_seq(args, s1, e);
            lemma_fvs(args);
            assert forall|m: int| 0 <= m < args.len() implies #[trigger] resolved(args[m], s1, e) by {
                assert forall|w: u32| #[trigger] fv(args[m]).contains(w) implies find_key(s1, w) < 0 by {
                    assert(fvs(args).contains(w));
                    assert(fv(t).contains(w));
                }
                lemma_resolved_after_bind(args[m], s0, s1, e, v);
            }
        },
        STy::Fun(ps, _, r) => {
            lemma_resolved_seq(ps, s0, e);
            lemma_resolved_seq(ps, s1, e);
            lemma_fvs(ps);
            assert forall|m: int| 0 <= m < ps.len() implies #[trigger] resolved(ps[m], s1, e) by {
                assert forall|w: u32| #[trigger] fv(ps[m]).contains(w) implies find_key(s1, w) < 0 by {
                    assert(fvs(ps).contains(w));
                    assert(fv(t).contains(w));
                }
                lemma_resolved_after_bind(ps[m], s0, s1, e, v);
            }
            assert forall|w: u32| #[trigger] fv(*r).contains(w) implies find_key(s1, w) < 0 by {
                assert(fv(t).contains(w));
            }
            lemma_resolved_after_bind(*r, s0, s1, e, v);
        },
    }
}

/// Unifies two argument lists of equal length pairwise, left to right.
fn unify_lists(
    subst: &mut Subst,
    xs: &Vec<Ty>,
    ys: &Vec<Ty>,
    Ghost(pa): Ghost<STy>,
    Ghost(pb): Ghost<STy>,
) -> (r: Result<(), UnifyError>)
    requires
        old(subst).wf(),
        xs@.len() == ys@.len(),
        resolved(pa, old(subst).tys@, old(subst).effs@),
        resolved(pb, old(subst).tys@, old(subst).effs@),
        resolved_seq(stys(xs@), old(subst).tys@, old(subst).effs@),
        resolved_seq(stys(ys@), old(subst).tys@, old(subst).effs@),
        fvs(stys(xs@)).subset_of(fv(pa)),
        fvs(stys(ys@)).subset_of(fv(pb)),
        sizes(stys(xs@)) < size(pa),
        sizes(stys(ys@)) < size(pb),
    ensures
        final(subst).wf(),
        final(subst).effs@ == old(subst).effs@,
        unify_frame(old(subst).tys@, final(subst).tys@, fv(pa).union(fv(pb))),
        r is Ok ==> eqms(
            apps_from(stys(xs@), final(subst).tys@, final(subst).effs@, 0),
            apps_from(stys(ys@), final(subst).tys@, final(subst).effs@, 0),
        ),
        error_facts(r, fv(pa).union(fv(pb))),
        (final(subst).tys@, unify_error_m(r)) == unify_list_spec(
            old(subst).tys@,
            old(subst).effs@,
            stys(xs@),
            stys(ys@),
            0,
            pa,
            pb,
        ),
    decreases fv(pa).union(fv(pb)).len(), size(pa) + size(pb), 0nat,
{
    let ghost s0 = subst.tys@;
    let ghost e = subst.effs@;
    let ghost sx = stys(xs@);
    let ghost sy = stys(ys@);
    let ghost vs = fv(pa).union(fv(pb));
    proof {
        lemma_extends_refl(s0);
        lemma_stys(xs@);
        lemma_stys(ys@);
        lemma_fvs(sx);
        lemma_fvs(sy);
        lemma_resolved_seq(sx, s0, e);
        lemma_resolved_seq(sy, s0, e);
        assert(bfv(s0, s0.len() as int) == Set::<u32>::empty());
    }
    let mut j: usize = 0;
    while j < xs.len()
        invariant
            j <= xs@.len(),
            xs@.len() == ys@.len(),
            sx == stys(xs@),
            sy == stys(ys@),
            sx.len() == xs@.len(),
            sy.len() == ys@.len(),
            forall|m: int| 0 <= m < xs@.len() ==> #[trigger] sx[m] == xs@[m]@,
            forall|m: int| 0 <= m < ys@.len() ==> #[trigger] sy[m] == ys@[m]@,
            forall|m: int| 0 <= m < sx.len() ==> #[trigger] resolved(sx[m], s0, e),
            forall|m: int| 0 <= m < sy.len() ==> #[trigger] resolved(sy[m], s0, e),
            forall|w: u32| #[trigger] fvs(sx).contains(w) <==> exists|m: int| 0 <= m < sx.len() && fv(sx[m]).contains(w),
            forall|w: u32| #[trigger] fvs(sy).contains(w) <==> exists|m: int| 0 <= m < sy.len() && fv(sy[m]).contains(w),
            fvs(sx).subset_of(fv(pa)),
            fvs(sy).subset_of(fv(pb)),
            sizes(sx) < size(pa),
            sizes(sy) < size(pb),
            resolved(pa, s0, e),
            resolved(pb, s0, e),
            tys_wf(s0),
            vs == fv(pa).union(fv(pb)),
            s0 == old(subst).tys@,
            e == old(subst).effs@,
            subst.wf(),
            subst.effs@ == e,
            unify_frame(s0, subst.tys@, vs),
            forall|m: int| 0 <= m < j ==> #[trigger] eqm(apply(sx[m], subst.tys@, e), apply(sy[m], subst.tys@, e)),
            unify_list_spec(s0, e, sx, sy, 0, pa, pb) == unify_list_spec(subst.tys@, e, sx, sy, j as int, pa, pb),
        decreases xs@.len() - j,
    {
        let ghost cur = subst.tys@;
        let ghost x = sx[j as int];
        let ghost y = sy[j as int];
        proof {
            assert forall|w: u32| #[trigger] fv(x).contains(w) implies fv(pa).contains(w) by {
                assert(fvs(sx).contains(w));
            }
            assert forall|w: u32| #[trigger] fv(y).contains(w) implies fv(pb).contains(w) by {
                assert(fvs(sy).contains(w));
            }
            lemma_sizes(sx, j as int);
            lemma_sizes(sy, j as int);
            lemma_subproblem(s0, cur, e, pa, pb, x, y);
        }
        let r = unify(subst, &xs[j], &ys[j]);
        proof {
            let nxt = subst.tys@;
            lemma_adds_within_trans(s0, cur, nxt, vs, problem_vars(cur, e, x, y));
            lemma_extends_trans(s0, cur, nxt);
            if r is Ok {
                assert forall|m: int| 0 <= m <= j implies #[trigger] eqm(apply(sx[m], nxt, e), apply(sy[m], nxt, e)) by {
                    if m < j {
                        lemma_eqm_app(apply(sx[m], cur, e), apply(sy[m], cur, e), nxt, e);
                        lemma_compose(sx[m], cur, nxt, e, 0);
                        lemma_compose(sy[m], cur, nxt, e, 0);
                    }
                }
            }
        }
        if r.is_err() {
            assert(subst.effs@ == e);
            assert(unify_frame(s0, subst.tys@, vs));
            return r;
        }
        j = j + 1;
    }
    proof {
        let fin = subst.tys@;
        lemma_apps_from(sx, fin, e, 0);
        lemma_apps_from(sy, fin, e, 0);
        assert forall|m: int| 0 <= m < sx.len() implies #[trigger] eqm(apps_from(sx, fin, e, 0)[m], apps_from(sy, fin, e, 0)[m]) by {
            assert(eqm(apply(sx[m], fin, e), apply(sy[m], fin, e)));
        }
        lemma_eqms(apps_from(sx, fin, e, 0), apps_from(sy, fin, e, 0));
    }
    Ok(())
}

} // verus!
