use vstd::prelude::*;
use crate::assoc::{AssocMap, MapKey};
use crate::check::traits::TraitId;
use crate::check::types::{PrimTy, Scheme, STy, Ty, TyVarId};
use crate::resolve::types::DefId;

verus! {

/// The head of a type: what an impl matches on.
#[derive(Clone, Copy, Debug, PartialEq, Eq, Hash, Structural)]
pub enum TypeHead {
    Prim(PrimTy),
    Con(DefId),
}

#[derive(Clone, Copy, Debug, PartialEq, Eq, Structural)]
pub struct ImplInfo {
    pub trait_: TraitId,
    pub head: TypeHead,
}

/// The head of a type model; variables and functions have none.
pub open spec fn spec_head_of(t: STy) -> Option<TypeHead> {
    match t {
        STy::Prim(p) => Some(TypeHead::Prim(p)),
        STy::Con(id, _) => Some(TypeHead::Con(DefId(id))),
        STy::Var(_) => None,
        STy::Fun(..) => None,
    }
}

/// The matchable head of a type.
pub fn head_of(ty: &Ty) -> (r: Option<TypeHead>)
    ensures
        r == spec_head_of(ty@),
{
    match ty {
        Ty::Prim(p) => Some(TypeHead::Prim(*p)),
        Ty::Con(id, _) => Some(TypeHead::Con(*id)),
        Ty::Var(_) => None,
        Ty::Fun(..) => None,
    }
}

#[derive(Debug)]
pub struct MethodInfo {
    pub name: String,
    pub scheme: Scheme,
}

#[derive(Debug)]
pub struct FieldInfo {
    pub name: String,
    pub ty: Ty,
}

#[derive(Debug)]
pub enum PayloadShape {
    Bare,
    Single(Ty),
    Record(Vec<FieldInfo>),
}

#[derive(Debug)]
pub struct VariantInfo {
    pub name: String,
    pub ctor_def_id: DefId,
    pub payload: PayloadShape,
    pub parent: DefId,
}

#[derive(Debug)]
pub enum TypeDeclBody {
    Newtype(Ty),
    Record(Vec<FieldInfo>),
    Sum(Vec<VariantInfo>),
}

#[derive(Debug)]
pub struct TypeDeclInfo {
    pub def_id: DefId,
    pub name: String,
    pub params: Vec<TyVarId>,
    pub body: TypeDeclBody,
    pub methods: Vec<MethodInfo>,
}

/// The declared types, which type each constructor builds, and the impls.
#[derive(Debug)]
pub struct TypeRegistry {
    pub types: AssocMap<DefId, TypeDeclInfo>,
    pub ctor_to_type: AssocMap<DefId, DefId>,
    pub impls: AssocMap<(TraitId, TypeHead), ImplInfo>,
}

impl MapKey for (TraitId, TypeHead) {
    fn key_eq(&self, other: &Self) -> (r: bool) {
        self.0 == other.0 && self.1 == other.1
    }
}

impl TypeRegistry {
    pub fn new() -> (r: TypeRegistry)
        ensures
            r.types@ == Map::<DefId, TypeDeclInfo>::empty(),
            r.ctor_to_type@ == Map::<DefId, DefId>::empty(),
            r.impls@ == Map::<(TraitId, TypeHead), ImplInfo>::empty(),
    {
        TypeRegistry { types: AssocMap::new(), ctor_to_type: AssocMap::new(), impls: AssocMap::new() }
    }
}

impl Default for TypeRegistry {
    fn default() -> (r: TypeRegistry)
        ensures
            r.types@ == Map::<DefId, TypeDeclInfo>::empty(),
            r.ctor_to_type@ == Map::<DefId, DefId>::empty(),
            r.impls@ == Map::<(TraitId, TypeHead), ImplInfo>::empty(),
    {
        TypeRegistry::new()
    }
}

} // verus!
