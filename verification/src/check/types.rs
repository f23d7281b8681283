use vstd::prelude::*;
use crate::resolve::types::DefId;
use crate::check::traits::TraitId;
use crate::assoc::AssocMap;
use crate::span::Span;

verus! {

/// A type variable.
#[derive(Clone, Copy, Debug, PartialEq, Eq, Hash, Structural)]
pub struct TyVarId(pub u32);

/// The built-in primitive types.
#[derive(Clone, Copy, Debug, PartialEq, Eq, Hash, Structural)]
pub enum PrimTy {
    Int,
    Float,
    String,
    Bool,
    Unit,
}

/// An effect variable (the open tail of an effect row).
#[derive(Clone, Copy, Debug, PartialEq, Eq, Hash, Structural)]
pub struct EffectVarId(pub u32);

/// A concrete effect label.
#[derive(Clone, Copy, Debug, PartialEq, Eq, Hash, Structural)]
pub enum Effect {
    Io,
}

/// A finite set of effect labels.
#[derive(Clone, Copy, Debug, PartialEq, Eq, Hash, Structural)]
pub struct EffectSet {
    io: bool,
}

/// The closed, empty row of a pure function.
pub closed spec fn pure_row() -> EffectRow {
    EffectRow { labels: EffectSet { io: false }, tail: None }
}

impl EffectSet {
    /// The labels in the set.
    pub closed spec fn labels(self) -> Set<Effect> {
        if self.io { set![Effect::Io] } else { Set::empty() }
    }

    pub fn empty() -> (s: EffectSet)
        ensures
            s.labels() == Set::<Effect>::empty(),
    {
        EffectSet { io: false }
    }

    pub fn single(e: Effect) -> (s: EffectSet)
        ensures
            s.labels() == set![e],
    {
        match e {
            Effect::Io => EffectSet { io: true },
        }
    }

    pub fn contains(&self, e: Effect) -> (r: bool)
        ensures
            r == self.labels().contains(e),
    {
        match e {
            Effect::Io => self.io,
        }
    }

    /// The union of two label sets, as a value.
    pub closed spec fn spec_union(self, other: EffectSet) -> EffectSet {
        EffectSet { io: self.io || other.io }
    }

    pub fn union(self, other: EffectSet) -> (s: EffectSet)
        ensures
            s == self.spec_union(other),
            s.labels() == self.labels().union(other.labels()),
    {
        let s = EffectSet { io: self.io || other.io };
        assert(s.labels() =~= self.labels().union(other.labels()));
        s
    }

    pub fn is_empty(&self) -> (r: bool)
        ensures
            r == (self.labels() == Set::<Effect>::empty()),
    {
        if self.io {
            assert(self.labels().contains(Effect::Io));
        }
        !self.io
    }
}

/// An effect row: a set of labels and an optional open tail variable.
#[derive(Clone, Copy, Debug, PartialEq, Eq, Hash, Structural)]
pub struct EffectRow {
    pub labels: EffectSet,
    pub tail: Option<EffectVarId>,
}

impl EffectRow {
    /// The closed, empty row of a pure function.
    pub fn pure() -> (r: EffectRow)
        ensures
            r.labels.labels() == Set::<Effect>::empty(),
            r.tail is None,
            r == pure_row(),
    {
        EffectRow { labels: EffectSet { io: false }, tail: None }
    }

    /// A closed row holding exactly `labels`.
    pub fn concrete(labels: EffectSet) -> (r: EffectRow)
        ensures
            r.labels == labels,
            r.tail is None,
    {
        EffectRow { labels, tail: None }
    }

    /// A row holding `labels` and open in `tail`.
    pub fn open(labels: EffectSet, tail: EffectVarId) -> (r: EffectRow)
        ensures
            r.labels == labels,
            r.tail == Some(tail),
    {
        EffectRow { labels, tail: Some(tail) }
    }
}

/// A semantic type.
#[derive(Debug, PartialEq)]
pub enum Ty {
    Var(TyVarId),
    Prim(PrimTy),
    Con(DefId, Vec<Ty>),
    Fun(Vec<Ty>, EffectRow, Box<Ty>),
}

/// The mathematical model of a [`Ty`]: the same tree with sequences for argument lists.
pub enum STy {
    Var(u32),
    Prim(PrimTy),
    Con(u32, Seq<STy>),
    Fun(Seq<STy>, EffectRow, Box<STy>),
}

pub open spec fn sty(t: Ty) -> STy
    decreases t, 0nat,
{
    match t {
        Ty::Var(v) => STy::Var(v.0),
        Ty::Prim(p) => STy::Prim(p),
        Ty::Con(id, args) => STy::Con(id.0, stys(args@)),
        Ty::Fun(ps, row, r) => STy::Fun(stys(ps@), row, Box::new(sty(*r))),
    }
}

pub open spec fn stys(ts: Seq<Ty>) -> Seq<STy>
    decreases ts, 1nat,
{
    if ts.len() == 0 {
        Seq::empty()
    } else {
        stys(ts.drop_last()).push(sty(ts.last()))
    }
}

impl View for Ty {
    type V = STy;

    open spec fn view(&self) -> STy {
        sty(*self)
    }
}

/// A copy of `t` with the same model.
pub fn copy_ty(t: &Ty) -> (r: Ty)
    ensures
        r@ == t@,
    decreases t, 0nat,
{
    match t {
        Ty::Var(v) => Ty::Var(*v),
        Ty::Prim(p) => Ty::Prim(*p),
        Ty::Con(id, args) => Ty::Con(*id, copy_tys(args)),
        Ty::Fun(ps, row, r) => Ty::Fun(copy_tys(ps), *row, Box::new(copy_ty(r))),
    }
}

/// An element-wise copy of `ts`.
pub fn copy_tys(ts: &Vec<Ty>) -> (r: Vec<Ty>)
    ensures
        stys(r@) == stys(ts@),
    decreases ts, 1nat,
{
    let mut out: Vec<Ty> = Vec::new();
    let mut i: usize = 0;
    while i < ts.len()
        invariant
            i <= ts.len(),
            stys(out@) == stys(ts@.take(i as int)),
        decreases ts.len() - i,
    {
        proof {
            assert(decreases_to!(ts => ts@[i as int]));
        }
        let c = copy_ty(&ts[i]);
        let ghost prev = out@;
        out.push(c);
        proof {
            assert(ts@.take(i + 1).drop_last() =~= ts@.take(i as int));
            assert(out@.drop_last() =~= prev);
        }
        i = i + 1;
    }
    assert(ts@.take(ts.len() as int) =~= ts@);
    out
}

impl Clone for Ty {
    fn clone(&self) -> (r: Ty)
        ensures
            r@ == self@,
    {
        copy_ty(self)
    }
}

/// "`ty` must implement `trait_`."
#[derive(Debug)]
pub struct Constraint {
    pub trait_: TraitId,
    pub ty: Ty,
}

/// A type scheme: a type quantified over variables, under constraints.
#[derive(Debug)]
pub struct Scheme {
    pub vars: Vec<TyVarId>,
    pub constraints: Vec<Constraint>,
    pub ty: Ty,
}

/// The result of checking a file: a scheme per binding and a type per
/// expression and pattern span.
#[derive(Debug)]
pub struct Typing {
    pub schemes: AssocMap<DefId, Scheme>,
    pub expr_types: AssocMap<Span, Ty>,
    pub pattern_types: AssocMap<Span, Ty>,
}

impl Typing {
    pub fn new() -> (t: Typing)
        ensures
            t.schemes@ == Map::<DefId, Scheme>::empty(),
            t.expr_types@ == Map::<Span, Ty>::empty(),
            t.pattern_types@ == Map::<Span, Ty>::empty(),
    {
        Typing { schemes: AssocMap::new(), expr_types: AssocMap::new(), pattern_types: AssocMap::new() }
    }
}

impl Default for Typing {
    fn default() -> (t: Typing)
        ensures
            t.schemes@ == Map::<DefId, Scheme>::empty(),
            t.expr_types@ == Map::<Span, Ty>::empty(),
            t.pattern_types@ == Map::<Span, Ty>::empty(),
    {
        Typing::new()
    }
}

/// Bindings of type variables, in the order in which they were made.
#[derive(Debug)]
pub struct TyBindings {
    entries: Vec<(TyVarId, Ty)>,
}

/// Bindings of effect variables, in the order in which they were made.
#[derive(Debug)]
pub struct EffBindings {
    entries: Vec<(EffectVarId, EffectRow)>,
}

/// The index of the last binding of `v` in `s`, or -1 when `v` is unbound.
pub open spec fn find_key<V>(s: Seq<(u32, V)>, v: u32) -> int
    decreases s.len(),
{
    if s.len() == 0 {
        -1
    } else if s.last().0 == v {
        s.len() - 1
    } else {
        find_key(s.drop_last(), v)
    }
}

pub proof fn lemma_find_key<V>(s: Seq<(u32, V)>, v: u32)
    ensures
        -1 <= find_key(s, v) < s.len(),
        find_key(s, v) >= 0 ==> s[find_key(s, v)].0 == v,
        find_key(s, v) == -1 ==> forall|i: int| 0 <= i < s.len() ==> s[i].0 != v,
        forall|i: int| find_key(s, v) < i < s.len() ==> s[i].0 != v,
    decreases s.len(),
{
    if s.len() > 0 && s.last().0 != v {
        let d = s.drop_last();
        lemma_find_key(d, v);
        assert forall|i: int| find_key(s, v) < i < s.len() implies s[i].0 != v by {
            if i < s.len() - 1 {
                assert(s[i] == d[i]);
            }
        }
    }
}

pub proof fn lemma_find_key_take<V>(s: Seq<(u32, V)>, v: u32, i: int)
    requires
        0 < i <= s.len(),
    ensures
        s[i - 1].0 == v ==> find_key(s.take(i), v) == i - 1,
        s[i - 1].0 != v ==> find_key(s.take(i), v) == find_key(s.take(i - 1), v),
        find_key(s.take(i - 1), v) < i - 1,
{
    assert(s.take(i).drop_last() =~= s.take(i - 1));
    lemma_find_key(s.take(i - 1), v);
}

pub proof fn lemma_find_key_push<V>(s: Seq<(u32, V)>, k: u32, val: V, v: u32)
    ensures
        find_key(s.push((k, val)), v) == if k == v { s.len() as int } else { find_key(s, v) },
{
    assert(s.push((k, val)).drop_last() =~= s);
}

impl View for TyBindings {
    type V = Seq<(u32, STy)>;

    closed spec fn view(&self) -> Seq<(u32, STy)> {
        Seq::new(self.entries@.len(), |i: int| (self.entries@[i].0.0, self.entries@[i].1@))
    }
}

impl View for EffBindings {
    type V = Seq<(u32, EffectRow)>;

    closed spec fn view(&self) -> Seq<(u32, EffectRow)> {
        Seq::new(self.entries@.len(), |i: int| (self.entries@[i].0.0, self.entries@[i].1))
    }
}

impl TyBindings {
    pub fn new() -> (b: TyBindings)
        ensures
            b@ == Seq::<(u32, STy)>::empty(),
    {
        let b = TyBindings { entries: Vec::new() };
        assert(b@ =~= Seq::<(u32, STy)>::empty());
        b
    }

    pub fn len(&self) -> (n: usize)
        ensures
            n == self@.len(),
    {
        self.entries.len()
    }

    pub fn is_empty(&self) -> (r: bool)
        ensures
            r == (self@.len() == 0),
    {
        self.entries.len() == 0
    }

    /// The value bound to `v`, searching from the most recent binding.
    pub fn get(&self, v: &TyVarId) -> (r: Option<&Ty>)
        ensures
            find_key(self@, v.0) == -1 ==> r is None,
            find_key(self@, v.0) >= 0 ==> r is Some,
            r matches Some(t) ==> t@ == self@[find_key(self@, v.0)].1,
    {
        match self.find(v) {
            Some(i) => {
                proof { lemma_find_key(self@, v.0); }
                let r = &self.entries[i].1;
                assert(self@[i as int].1 == r@);
                assert(i as int == find_key(self@, v.0));
                let res = Some(r);
                assert(res.unwrap()@ == self@[find_key(self@, v.0)].1);
                res
            },
            None => None,
        }
    }

    /// The index of the most recent binding of `v`.
    pub fn find(&self, v: &TyVarId) -> (r: Option<usize>)
        ensures
            find_key(self@, v.0) == -1 ==> r is None,
            find_key(self@, v.0) >= 0 ==> r is Some,
            r matches Some(i) ==> i as int == find_key(self@, v.0),
    {
        let mut i = self.entries.len();
        assert(self@.take(i as int) =~= self@);
        while i > 0
            invariant
                i <= self@.len(),
                self@.len() == self.entries@.len(),
                find_key(self@.take(i as int), v.0) == find_key(self@, v.0),
            decreases i,
        {
            proof {
                lemma_find_key_take(self@, v.0, i as int);
            }
            if self.entries[i - 1].0.0 == v.0 {
                return Some(i - 1);
            }
            i = i - 1;
        }
        assert(self@.take(0) =~= Seq::<(u32, STy)>::empty());
        None
    }

    /// Binds `v` to `t`, replacing an earlier binding of `v`.
    pub fn insert(&mut self, v: TyVarId, t: Ty)
        ensures
            find_key(old(self)@, v.0) == -1 ==> final(self)@ == old(self)@.push((v.0, t@)),
            find_key(old(self)@, v.0) >= 0 ==> final(self)@ == old(self)@.update(
                find_key(old(self)@, v.0),
                (v.0, t@),
            ),
    {
        match self.find(&v) {
            Some(i) => {
                proof { lemma_find_key(self@, v.0); }
                self.entries.set(i, (v, t));
                assert(self@ =~= old(self)@.update(i as int, (v.0, t@)));
            }
            None => {
                let ghost t_view = t@;
                self.entries.push((v, t));
                assert(self@ =~= old(self)@.push((v.0, t_view)));
            }
        }
    }

    /// The binding at position `i`.
    pub fn entry(&self, i: usize) -> (r: (TyVarId, &Ty))
        requires
            i < self@.len(),
        ensures
            r.0.0 == self@[i as int].0,
            r.1@ == self@[i as int].1,
    {
        (self.entries[i].0, &self.entries[i].1)
    }
}

impl EffBindings {
    pub fn new() -> (b: EffBindings)
        ensures
            b@ == Seq::<(u32, EffectRow)>::empty(),
    {
        let b = EffBindings { entries: Vec::new() };
        assert(b@ =~= Seq::<(u32, EffectRow)>::empty());
        b
    }

    pub fn len(&self) -> (n: usize)
        ensures
            n == self@.len(),
    {
        self.entries.len()
    }

    pub fn is_empty(&self) -> (r: bool)
        ensures
            r == (self@.len() == 0),
    {
        self.entries.len() == 0
    }

    /// The row bound to `v`, searching from the most recent binding.
    pub fn get(&self, v: &EffectVarId) -> (r: Option<&EffectRow>)
        ensures
            find_key(self@, v.0) == -1 ==> r is None,
            find_key(self@, v.0) >= 0 ==> r == Some(&self@[find_key(self@, v.0)].1),
    {
        let mut i = self.entries.len();
        assert(self@.take(i as int) =~= self@);
        while i > 0
            invariant
                i <= self@.len(),
                self@.len() == self.entries@.len(),
                find_key(self@.take(i as int), v.0) == find_key(self@, v.0),
            decreases i,
        {
            proof {
                lemma_find_key_take(self@, v.0, i as int);
            }
            if self.entries[i - 1].0.0 == v.0 {
                return Some(&self.entries[i - 1].1);
            }
            i = i - 1;
        }
        assert(self@.take(0) =~= Seq::<(u32, EffectRow)>::empty());
        None
    }

    /// Binds `v` to `row`, replacing an earlier binding of `v`.
    pub fn insert(&mut self, v: EffectVarId, row: EffectRow)
        ensures
            find_key(old(self)@, v.0) == -1 ==> final(self)@ == old(self)@.push((v.0, row)),
            find_key(old(self)@, v.0) >= 0 ==> final(self)@ == old(self)@.update(
                find_key(old(self)@, v.0),
                (v.0, row),
            ),
    {
        let mut i = self.entries.len();
        assert(self@.take(i as int) =~= self@);
        while i > 0
            invariant
                i <= self@.len(),
                self@ == old(self)@,
                self@.len() == self.entries@.len(),
                find_key(self@.take(i as int), v.0) == find_key(self@, v.0),
            decreases i,
        {
            proof {
                lemma_find_key_take(self@, v.0, i as int);
            }
            if self.entries[i - 1].0.0 == v.0 {
                self.entries.set(i - 1, (v, row));
                assert(self@ =~= old(self)@.update(i - 1, (v.0, row)));
                return;
            }
            i = i - 1;
        }
        assert(self@.take(0) =~= Seq::<(u32, EffectRow)>::empty());
        self.entries.push((v, row));
        assert(self@ =~= old(self)@.push((v.0, row)));
    }
}

/// A substitution: bindings for type variables and for effect variables.
#[derive(Debug)]
pub struct Subst {
    pub tys: TyBindings,
    pub effs: EffBindings,
}

impl Subst {
    pub fn new() -> (s: Subst)
        ensures
            s.tys@.len() == 0,
            s.effs@.len() == 0,
    {
        Subst { tys: TyBindings::new(), effs: EffBindings::new() }
    }
}

impl Default for Subst {
    fn default() -> (s: Subst)
        ensures
            s.tys@.len() == 0,
            s.effs@.len() == 0,
    {
        Subst::new()
    }
}

} // verus!
