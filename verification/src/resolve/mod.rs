pub mod laws;
pub mod module_set;
pub mod reach;
pub mod scope;
pub mod types;
pub mod walker;

use vstd::prelude::*;
use crate::ast::File;
use crate::error::Error;
use crate::span::Span;
use scope::decls_defs;
pub use module_set::{resolve_project, ModuleSet, ProjectResolution};
pub use types::{DefId, DefInfo, DefKind, LocalId, ResolvedName, Resolution};
use walker::{decls_occs, refs_after, reported, faults};

verus! {

/// Resolves the names of one file: records its top-level definitions (with
/// a constructor for each variant of a type), then
/// looks up every name its values and methods use, with the locals that
/// lambda parameters, match arms, block bindings and `self` bring into
/// scope. Fails with one error per name that nothing defines and per local
/// that a parameter list or pattern binds twice.
pub fn resolve_file(file: &File) -> (r: Result<Resolution, Vec<Error>>)
    requires
        decls_defs(file.decls@, 0).len() < u32::MAX,
    ensures
        ({
            let defs = decls_defs(file.decls@, 0);
            let faulty = faults(defs, decls_occs(file.decls@));
            &&& r is Ok <==> faulty.len() == 0
            &&& r matches Ok(res) ==> res.defs@ == defs && res.refs@ == refs_after(
                Map::empty(),
                defs,
                decls_occs(file.decls@),
            )
            &&& r matches Err(errs) ==> reported(errs@, Seq::empty(), faulty)
        }),
        r matches Ok(res) ==> forall|j: int, s: Span|
            0 <= j < file.decls@.len() && #[trigger] reach::value_var_at(file.decls@[j], s) ==> res.refs@.contains_key(s),
{
    proof {
        assert forall|j: int, s: Span|
            0 <= j < file.decls@.len() && #[trigger] reach::value_var_at(file.decls@[j], s) implies
            reach::occ_at(faults(decls_defs(file.decls@, 0), decls_occs(file.decls@)), s)
            || refs_after(Map::empty(), decls_defs(file.decls@, 0), decls_occs(file.decls@)).contains_key(s) by {
            reach::every_variable_is_looked_up(*file, j, s);
        }
    }
    let mut res = Resolution::new();
    let mut errors = scope::collect_top_level(file, &mut res);
    proof {
        assert(res.defs@ =~= decls_defs(file.decls@, 0));
        assert(errors@ =~= Seq::<Error>::empty());
    }
    walker::walk_file(file, &mut res, &mut errors);
    if errors.len() == 0 {
        Ok(res)
    } else {
        Err(errors)
    }
}

} // verus!
