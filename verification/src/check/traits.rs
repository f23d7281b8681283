use vstd::prelude::*;
use crate::ast::{BinOp, UnaryOp};
use crate::check::registry::{ImplInfo, TypeHead, TypeRegistry};
use crate::check::types::PrimTy;
use crate::text::str_eq;

verus! {

/// The built-in operator traits.
#[derive(Clone, Copy, Debug, PartialEq, Eq, Hash, Structural)]
pub enum TraitId {
    Add,
    Sub,
    Mul,
    Div,
    Pow,
    Neg,
    Eq,
    Ord,
    Concat,
}

/// The trait an infix operator dispatches to; `and`, `or` and `xor` have none.
pub open spec fn binop_trait(op: BinOp) -> Option<TraitId> {
    match op {
        BinOp::Add => Some(TraitId::Add),
        BinOp::Sub => Some(TraitId::Sub),
        BinOp::Mul => Some(TraitId::Mul),
        BinOp::Div => Some(TraitId::Div),
        BinOp::Pow => Some(TraitId::Pow),
        BinOp::Lt | BinOp::Le | BinOp::Gt | BinOp::Ge => Some(TraitId::Ord),
        BinOp::Eq | BinOp::Ne => Some(TraitId::Eq),
        BinOp::Concat => Some(TraitId::Concat),
        BinOp::And | BinOp::Or | BinOp::Xor => None,
    }
}

/// The source name of a trait.
pub open spec fn trait_name(t: TraitId) -> Seq<char> {
    match t {
        TraitId::Add => "Add"@,
        TraitId::Sub => "Sub"@,
        TraitId::Mul => "Mul"@,
        TraitId::Div => "Div"@,
        TraitId::Pow => "Pow"@,
        TraitId::Neg => "Neg"@,
        TraitId::Eq => "Eq"@,
        TraitId::Ord => "Ord"@,
        TraitId::Concat => "Concat"@,
    }
}

/// Distinct traits have distinct names, so a trait is found again by its
/// name.
pub proof fn trait_name_injective(a: TraitId, b: TraitId)
    ensures
        trait_name(a) == trait_name(b) ==> a == b,
{
    reveal_strlit("Add");
    reveal_strlit("Sub");
    reveal_strlit("Mul");
    reveal_strlit("Div");
    reveal_strlit("Pow");
    reveal_strlit("Neg");
    reveal_strlit("Eq");
    reveal_strlit("Ord");
    reveal_strlit("Concat");
    if trait_name(a) == trait_name(b) {
        assert(trait_name(a)[0] == trait_name(b)[0]);
    }
}

/// The method names of a trait.
pub open spec fn trait_methods(t: TraitId) -> Seq<Seq<char>> {
    match t {
        TraitId::Add => seq!["add"@],
        TraitId::Sub => seq!["sub"@],
        TraitId::Mul => seq!["mul"@],
        TraitId::Div => seq!["div"@],
        TraitId::Pow => seq!["pow"@],
        TraitId::Neg => seq!["neg"@],
        TraitId::Eq => seq!["eq"@, "ne"@],
        TraitId::Ord => seq!["lt"@, "le"@, "gt"@, "ge"@],
        TraitId::Concat => seq!["concat"@],
    }
}

impl TraitId {
    pub fn of_binop(op: &BinOp) -> (r: Option<TraitId>)
        ensures
            r == binop_trait(*op),
    {
        match op {
            BinOp::Add => Some(TraitId::Add),
            BinOp::Sub => Some(TraitId::Sub),
            BinOp::Mul => Some(TraitId::Mul),
            BinOp::Div => Some(TraitId::Div),
            BinOp::Pow => Some(TraitId::Pow),
            BinOp::Lt | BinOp::Le | BinOp::Gt | BinOp::Ge => Some(TraitId::Ord),
            BinOp::Eq | BinOp::Ne => Some(TraitId::Eq),
            BinOp::Concat => Some(TraitId::Concat),
            BinOp::And | BinOp::Or | BinOp::Xor => None,
        }
    }

    pub fn of_unaryop(op: &UnaryOp) -> (r: Option<TraitId>)
        ensures
            r == (match *op {
                UnaryOp::Neg => Some(TraitId::Neg),
                UnaryOp::Not => None,
            }),
    {
        match op {
            UnaryOp::Neg => Some(TraitId::Neg),
            UnaryOp::Not => None,
        }
    }

    /// Comparisons produce `Bool`; the other operators produce their operand type.
    pub fn result_is_bool(&self) -> (r: bool)
        ensures
            r == (*self == TraitId::Eq || *self == TraitId::Ord),
    {
        match self {
            TraitId::Eq | TraitId::Ord => true,
            _ => false,
        }
    }

    pub fn name(&self) -> (r: &'static str)
        ensures
            r@ == trait_name(*self),
    {
        match self {
            TraitId::Add => "Add",
            TraitId::Sub => "Sub",
            TraitId::Mul => "Mul",
            TraitId::Div => "Div",
            TraitId::Pow => "Pow",
            TraitId::Neg => "Neg",
            TraitId::Eq => "Eq",
            TraitId::Ord => "Ord",
            TraitId::Concat => "Concat",
        }
    }

    pub fn from_name(name: &str) -> (r: Option<TraitId>)
        ensures
            r matches Some(t) ==> trait_name(t) == name@,
            r is None ==> forall|t: TraitId| trait_name(t) != name@,
            forall|t: TraitId| trait_name(t) == name@ ==> r == Some(t),
    {
        let r = if str_eq(name, "Add") {
            Some(TraitId::Add)
        } else if str_eq(name, "Sub") {
            Some(TraitId::Sub)
        } else if str_eq(name, "Mul") {
            Some(TraitId::Mul)
        } else if str_eq(name, "Div") {
            Some(TraitId::Div)
        } else if str_eq(name, "Pow") {
            Some(TraitId::Pow)
        } else if str_eq(name, "Neg") {
            Some(TraitId::Neg)
        } else if str_eq(name, "Eq") {
            Some(TraitId::Eq)
        } else if str_eq(name, "Ord") {
            Some(TraitId::Ord)
        } else if str_eq(name, "Concat") {
            Some(TraitId::Concat)
        } else {
            assert forall|t: TraitId| trait_name(t) != name@ by {
                match t {
                    TraitId::Add => {},
                    TraitId::Sub => {},
                    TraitId::Mul => {},
                    TraitId::Div => {},
                    TraitId::Pow => {},
                    TraitId::Neg => {},
                    TraitId::Eq => {},
                    TraitId::Ord => {},
                    TraitId::Concat => {},
                }
            }
            None
        };
        proof {
            assert forall|t: TraitId| trait_name(t) == name@ implies r == Some(t) by {
                if let Some(u) = r {
                    trait_name_injective(t, u);
                }
            }
        }
        r
    }

    pub fn method_names(&self) -> (r: Vec<&'static str>)
        ensures
            r@.len() == trait_methods(*self).len(),
            forall|i: int| 0 <= i < r@.len() ==> #[trigger] r@[i]@ == trait_methods(*self)[i],
    {
        match self {
            TraitId::Add => vec!["add"],
            TraitId::Sub => vec!["sub"],
            TraitId::Mul => vec!["mul"],
            TraitId::Div => vec!["div"],
            TraitId::Pow => vec!["pow"],
            TraitId::Neg => vec!["neg"],
            TraitId::Eq => vec!["eq", "ne"],
            TraitId::Ord => vec!["lt", "le", "gt", "ge"],
            TraitId::Concat => vec!["concat"],
        }
    }
}

/// The impls that the built-in prelude provides: `Eq` and `Ord` on every
/// primitive, the numeric traits on `Int` and `Float`, `Concat` on `String`.
pub open spec fn builtin_impl(t: TraitId, p: PrimTy) -> bool {
    match t {
        TraitId::Eq | TraitId::Ord => true,
        TraitId::Add | TraitId::Sub | TraitId::Mul | TraitId::Div | TraitId::Pow | TraitId::Neg =>
            p == PrimTy::Int || p == PrimTy::Float,
        TraitId::Concat => p == PrimTy::String,
    }
}

fn add_impl(reg: &mut TypeRegistry, t: TraitId, p: PrimTy)
    ensures
        final(reg).impls@ == old(reg).impls@.insert(
            (t, TypeHead::Prim(p)),
            ImplInfo { trait_: t, head: TypeHead::Prim(p) },
        ),
        final(reg).types@ == old(reg).types@,
        final(reg).ctor_to_type@ == old(reg).ctor_to_type@,
{
    let head = TypeHead::Prim(p);
    reg.impls.insert((t, head), ImplInfo { trait_: t, head });
}

/// Adds the built-in impls to `reg`.
pub fn seed_builtin_impls(reg: &mut TypeRegistry)
    ensures
        final(reg).types@ == old(reg).types@,
        final(reg).ctor_to_type@ == old(reg).ctor_to_type@,
        forall|t: TraitId, h: TypeHead| #[trigger] final(reg).impls@.contains_key((t, h)) <==> (
            old(reg).impls@.contains_key((t, h)) || (h matches TypeHead::Prim(p) && builtin_impl(t, p))),
        forall|t: TraitId, p: PrimTy| builtin_impl(t, p) ==> #[trigger] final(reg).impls@[(t, TypeHead::Prim(p))]
            == (ImplInfo { trait_: t, head: TypeHead::Prim(p) }),
        forall|t: TraitId, h: TypeHead| !(h matches TypeHead::Prim(p) && builtin_impl(t, p)) ==> #[trigger] final(reg).impls@[(t, h)]
            == old(reg).impls@[(t, h)],
{
    let prims = [PrimTy::Int, PrimTy::Float, PrimTy::String, PrimTy::Bool, PrimTy::Unit];
    add_impl(reg, TraitId::Eq, PrimTy::Int);
    add_impl(reg, TraitId::Ord, PrimTy::Int);
    add_impl(reg, TraitId::Eq, PrimTy::Float);
    add_impl(reg, TraitId::Ord, PrimTy::Float);
    add_impl(reg, TraitId::Eq, PrimTy::String);
    add_impl(reg, TraitId::Ord, PrimTy::String);
    add_impl(reg, TraitId::Eq, PrimTy::Bool);
    add_impl(reg, TraitId::Ord, PrimTy::Bool);
    add_impl(reg, TraitId::Eq, PrimTy::Unit);
    add_impl(reg, TraitId::Ord, PrimTy::Unit);
    add_impl(reg, TraitId::Add, PrimTy::Int);
    add_impl(reg, TraitId::Sub, PrimTy::Int);
    add_impl(reg, TraitId::Mul, PrimTy::Int);
    add_impl(reg, TraitId::Div, PrimTy::Int);
    add_impl(reg, TraitId::Pow, PrimTy::Int);
    add_impl(reg, TraitId::Neg, PrimTy::Int);
    add_impl(reg, TraitId::Add, PrimTy::Float);
    add_impl(reg, TraitId::Sub, PrimTy::Float);
    add_impl(reg, TraitId::Mul, PrimTy::Float);
    add_impl(reg, TraitId::Div, PrimTy::Float);
    add_impl(reg, TraitId::Pow, PrimTy::Float);
    add_impl(reg, TraitId::Neg, PrimTy::Float);
    add_impl(reg, TraitId::Concat, PrimTy::String);
    let _ = prims;
    assert forall|t: TraitId, h: TypeHead| #[trigger] reg.impls@.contains_key((t, h)) <==> (
        old(reg).impls@.contains_key((t, h)) || (h matches TypeHead::Prim(p) && builtin_impl(t, p))) by {
        match h {
            TypeHead::Prim(p) => {
                match t { _ => {} }
                match p { _ => {} }
            },
            _ => {},
        }
    }
}

} // verus!
