use vstd::prelude::*;
use crate::ast::{MatchArm, PatternKind};
use crate::check::registry::{TypeDeclBody, TypeRegistry, VariantInfo};
use crate::check::types::{STy, Ty};
use crate::resolve::types::DefId;

verus! {

/// Whether a match covers every case, or which variants it misses.
#[derive(Debug, PartialEq)]
pub enum Coverage {
    Exhaustive,
    Missing(Vec<String>),
}

/// An arm that matches anything.
pub open spec fn catch_all(a: MatchArm) -> bool {
    a.pattern.node is Wildcard || a.pattern.node is Var
}

/// Some arm's top-level constructor pattern names `name`.
pub open spec fn covers(arms: Seq<MatchArm>, name: Seq<char>) -> bool {
    exists|i: int| 0 <= i < arms.len() && (#[trigger] arms[i].pattern.node matches PatternKind::Ctor { name: n, .. } && n@ == name)
}

/// The names of the variants that no arm covers, in declaration order.
pub open spec fn missing_variants(vs: Seq<VariantInfo>, arms: Seq<MatchArm>) -> Seq<Seq<char>>
    decreases vs.len(),
{
    if vs.len() == 0 {
        Seq::empty()
    } else if covers(arms, vs.last().name@) {
        missing_variants(vs.drop_last(), arms)
    } else {
        missing_variants(vs.drop_last(), arms).push(vs.last().name@)
    }
}

/// The variants of the sum type `ty` names, if it names one in `registry`.
pub open spec fn sum_variants(ty: STy, registry: TypeRegistry) -> Option<Seq<VariantInfo>> {
    match ty {
        STy::Con(id, _) => if registry.types@.contains_key(DefId(id)) {
            match registry.types@[DefId(id)].body {
                TypeDeclBody::Sum(vs) => Some(vs@),
                _ => None,
            }
        } else {
            None
        },
        _ => None,
    }
}

fn arm_covers(arms: &[MatchArm], name: &String) -> (r: bool)
    ensures
        r == covers(arms@, name@),
{
    let mut i: usize = 0;
    while i < arms.len()
        invariant
            i <= arms@.len(),
            forall|m: int| 0 <= m < i ==> !(#[trigger] arms@[m].pattern.node matches PatternKind::Ctor { name: n, .. } && n@ == name@),
        decreases arms@.len() - i,
    {
        if let PatternKind::Ctor { name: n, .. } = &arms[i].pattern.node {
            if n.eq(name) {
                return true;
            }
        }
        i = i + 1;
    }
    false
}

/// Checks that the arms of a match on a value of type `scrutinee` cover every
/// variant. Only sum types are checked: an arm that is a wildcard or a variable
/// covers everything, and other scrutinee types always count as covered.
pub fn check_arms(scrutinee: &Ty, arms: &[MatchArm], registry: &TypeRegistry) -> (r: Coverage)
    ensures
        (exists|i: int| 0 <= i < arms@.len() && #[trigger] catch_all(arms@[i])) ==> r is Exhaustive,
        (exists|i: int| 0 <= i < arms@.len() && ((#[trigger] arms@[i]).pattern.node is Wildcard
            || arms@[i].pattern.node is Var)) ==> r is Exhaustive,
        !(exists|i: int| 0 <= i < arms@.len() && #[trigger] catch_all(arms@[i])) ==> match sum_variants(scrutinee@, *registry) {
            None => r is Exhaustive,
            Some(vs) => {
                let missing = missing_variants(vs, arms@);
                &&& missing.len() == 0 ==> r is Exhaustive
                &&& missing.len() > 0 ==> (r matches Coverage::Missing(names) && names@.len() == missing.len()
                    && forall|k: int| 0 <= k < missing.len() ==> #[trigger] names@[k]@ == missing[k])
            },
        },
{
    let mut i: usize = 0;
    while i < arms.len()
        invariant
            i <= arms@.len(),
            forall|m: int| 0 <= m < i ==> !#[trigger] catch_all(arms@[m]),
        decreases arms@.len() - i,
    {
        match &arms[i].pattern.node {
            PatternKind::Wildcard | PatternKind::Var(_) => {
                assert(catch_all(arms@[i as int]));
                return Coverage::Exhaustive;
            },
            _ => {},
        }
        i = i + 1;
    }
    assert forall|m: int| 0 <= m < arms@.len() implies !((#[trigger] arms@[m]).pattern.node is Wildcard
        || arms@[m].pattern.node is Var) by {
        assert(!catch_all(arms@[m]));
    }
    let parent = match scrutinee {
        Ty::Con(parent, _) => *parent,
        _ => {
            return Coverage::Exhaustive;
        },
    };
    let info = match registry.types.get(&parent) {
        Some(info) => info,
        None => {
            return Coverage::Exhaustive;
        },
    };
    let variants = match &info.body {
        TypeDeclBody::Sum(variants) => variants,
        _ => {
            return Coverage::Exhaustive;
        },
    };
    let mut missing: Vec<String> = Vec::new();
    let mut j: usize = 0;
    while j < variants.len()
        invariant
            j <= variants@.len(),
            missing@.len() == missing_variants(variants@.take(j as int), arms@).len(),
            forall|k: int| 0 <= k < missing@.len() ==> #[trigger] missing@[k]@ == missing_variants(variants@.take(j as int), arms@)[k],
        decreases variants@.len() - j,
    {
        let covered = arm_covers(arms, &variants[j].name);
        proof {
            assert(variants@.take(j + 1).drop_last() =~= variants@.take(j as int));
        }
        if !covered {
            missing.push(variants[j].name.clone());
        }
        j = j + 1;
    }
    assert(variants@.take(variants@.len() as int) =~= variants@);
    if missing.len() == 0 {
        Coverage::Exhaustive
    } else {
        Coverage::Missing(missing)
    }
}

} // verus!
