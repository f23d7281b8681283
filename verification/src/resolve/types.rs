use vstd::prelude::*;
use crate::assoc::{AssocMap, MapKey};
use crate::span::Span;

verus! {

/// Identifies a top-level definition (value, type, constructor or trait).
#[derive(Clone, Copy, Debug, PartialEq, Eq, Hash, Structural)]
pub struct DefId(pub u32);

/// Identifies a local binding.
#[derive(Clone, Copy, Debug, PartialEq, Eq, Hash, Structural)]
pub struct LocalId(pub u32);

/// What a name in the source refers to.
#[derive(Clone, Debug, PartialEq)]
pub enum ResolvedName {
    Local(LocalId),
    TopLevel(DefId),
    Ctor(DefId),
    Imported { module: Vec<String>, name: String },
    Module(Vec<String>),
}

/// The kind of a top-level definition.
#[derive(Clone, Copy, Debug, PartialEq, Eq, Structural)]
pub enum DefKind {
    Value,
    Type,
    Ctor { of_type: DefId },
    Trait,
}

/// A top-level definition.
#[derive(Clone, Debug, PartialEq)]
pub struct DefInfo {
    pub id: DefId,
    pub name: String,
    pub kind: DefKind,
    pub span: Span,
}

/// The definitions of a file and what each name occurrence (by span) refers to.
#[derive(Debug)]
pub struct Resolution {
    pub defs: Vec<DefInfo>,
    pub refs: AssocMap<Span, ResolvedName>,
}

impl Resolution {
    pub fn new() -> (r: Resolution)
        ensures
            r.defs@.len() == 0,
            r.refs@ == Map::<Span, ResolvedName>::empty(),
    {
        Resolution { defs: Vec::new(), refs: AssocMap::new() }
    }
}

impl Default for Resolution {
    fn default() -> (r: Resolution)
        ensures
            r.defs@.len() == 0,
            r.refs@ == Map::<Span, ResolvedName>::empty(),
    {
        Resolution::new()
    }
}

impl MapKey for DefId {
    fn key_eq(&self, other: &Self) -> (r: bool) {
        self.0 == other.0
    }
}

impl MapKey for LocalId {
    fn key_eq(&self, other: &Self) -> (r: bool) {
        self.0 == other.0
    }
}

impl MapKey for Span {
    fn key_eq(&self, other: &Self) -> (r: bool) {
        self.start == other.start && self.end == other.end
    }
}

/// The index of the first definition with id `id`, or -1.
pub open spec fn def_index(defs: Seq<DefInfo>, id: DefId) -> int
    decreases defs.len(),
{
    if defs.len() == 0 {
        -1
    } else if def_index(defs.drop_last(), id) >= 0 {
        def_index(defs.drop_last(), id)
    } else if defs.last().id == id {
        defs.len() - 1
    } else {
        -1
    }
}

pub proof fn lemma_def_index(defs: Seq<DefInfo>, id: DefId)
    ensures
        -1 <= def_index(defs, id) < defs.len(),
        def_index(defs, id) >= 0 ==> defs[def_index(defs, id)].id == id,
        forall|i: int| 0 <= i < defs.len() && (def_index(defs, id) == -1 || i < def_index(defs, id)) ==> defs[i].id != id,
    decreases defs.len(),
{
    if defs.len() > 0 {
        let d = defs.drop_last();
        lemma_def_index(d, id);
        assert forall|i: int| 0 <= i < defs.len() && (def_index(defs, id) == -1 || i < def_index(defs, id)) implies defs[i].id != id by {
            if i < defs.len() - 1 {
                assert(defs[i] == d[i]);
            }
        }
    }
}

/// The position of the first definition with id `id`.
pub fn find_def(defs: &Vec<DefInfo>, id: DefId) -> (r: Option<usize>)
    ensures
        r is None <==> def_index(defs@, id) == -1,
        r matches Some(i) ==> i as int == def_index(defs@, id),
{
    proof {
        lemma_def_index(defs@, id);
    }
    let mut i: usize = 0;
    while i < defs.len()
        invariant
            i <= defs@.len(),
            forall|m: int| 0 <= m < i ==> defs@[m].id != id,
            -1 <= def_index(defs@, id) < defs@.len(),
            def_index(defs@, id) >= 0 ==> defs@[def_index(defs@, id)].id == id,
            forall|m: int| 0 <= m < defs@.len() && (def_index(defs@, id) == -1 || m < def_index(defs@, id)) ==> defs@[m].id != id,
        decreases defs@.len() - i,
    {
        if defs[i].id.0 == id.0 {
            return Some(i);
        }
        i = i + 1;
    }
    None
}

} // verus!
