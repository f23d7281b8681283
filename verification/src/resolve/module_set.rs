use vstd::prelude::*;
use crate::ast::{DeclKind, File};
use crate::error::{Error, ErrorKind};
use crate::resolve::scope::decls_defs;
use crate::resolve::types::Resolution;
use crate::resolve::walker::{decls_occs, reported, reports, faults, Occ};
use crate::resolve::resolve_file;
use crate::span::Span;
use crate::text::str_eq;

verus! {

/// A module path as character sequences.
pub open spec fn pview(p: Vec<String>) -> Seq<Seq<char>> {
    p@.map_values(|s: String| s@)
}

/// The modules of a project, each under its path.
pub type ModuleSet = Vec<(Vec<String>, File)>;

/// The resolution of each module of a project, under its path.
pub type ProjectResolution = Vec<(Vec<String>, Resolution)>;

/// The index of the first module with path `p`, or -1.
pub open spec fn module_index(set: Seq<(Vec<String>, File)>, p: Seq<Seq<char>>) -> int
    decreases set.len(),
{
    if set.len() == 0 {
        -1
    } else if module_index(set.drop_last(), p) >= 0 {
        module_index(set.drop_last(), p)
    } else if pview(set.last().0) == p {
        set.len() - 1
    } else {
        -1
    }
}

pub proof fn lemma_module_index(set: Seq<(Vec<String>, File)>, p: Seq<Seq<char>>)
    ensures
        -1 <= module_index(set, p) < set.len(),
        module_index(set, p) >= 0 ==> pview(set[module_index(set, p)].0) == p,
        forall|i: int|
            0 <= i < set.len() && (module_index(set, p) == -1 || i < module_index(set, p))
                ==> pview(#[trigger] set[i].0) != p,
    decreases set.len(),
{
    if set.len() > 0 {
        let d = set.drop_last();
        lemma_module_index(d, p);
        assert forall|i: int|
            0 <= i < set.len() && (module_index(set, p) == -1 || i < module_index(set, p))
                implies pview(#[trigger] set[i].0) != p by {
            if i < set.len() - 1 {
                assert(set[i] == d[i]);
            }
        }
    }
}

/// Module `a` has a `use` declaration of module `b`.
pub open spec fn uses(set: Seq<(Vec<String>, File)>, a: Seq<Seq<char>>, b: Seq<Seq<char>>) -> bool {
    let i = module_index(set, a);
    &&& i >= 0
    &&& exists|j: int| 0 <= j < set[i].1.decls@.len() && decl_uses(#[trigger] set[i].1.decls@[j], b)
}

/// `d` is a `use` declaration of module `b`.
pub open spec fn decl_uses(d: crate::ast::Decl, b: Seq<Seq<char>>) -> bool {
    match d.node {
        DeclKind::Use { path, .. } => pview(path) == b,
        _ => false,
    }
}

/// `e` reports a cycle of `use` declarations.
pub open spec fn cycle_error(set: Seq<(Vec<String>, File)>, e: Error) -> bool {
    match e.kind {
        ErrorKind::ModuleCycle { members } => is_cycle(set, paths_view(members@)),
        _ => false,
    }
}

/// Each module of `ms` uses the next, and the last uses the first.
pub open spec fn is_cycle(set: Seq<(Vec<String>, File)>, ms: Seq<Seq<Seq<char>>>) -> bool {
    &&& ms.len() > 0
    &&& forall|k: int| 0 <= k < ms.len() - 1 ==> uses(set, #[trigger] ms[k], ms[k + 1])
    &&& uses(set, ms.last(), ms[0])
}

pub open spec fn paths_view(ps: Seq<Vec<String>>) -> Seq<Seq<Seq<char>>> {
    ps.map_values(|p: Vec<String>| pview(p))
}

/// Every error reports a cycle of `use` declarations.
pub open spec fn all_cycles(set: Seq<(Vec<String>, File)>, errs: Seq<Error>) -> bool {
    forall|i: int| 0 <= i < errs.len() ==> cycle_error(set, #[trigger] errs[i])
}

/// The index of the first path `p` in `ps`, or -1.
pub open spec fn first_index(ps: Seq<Seq<Seq<char>>>, p: Seq<Seq<char>>) -> int
    decreases ps.len(),
{
    if ps.len() == 0 {
        -1
    } else if first_index(ps.drop_last(), p) >= 0 {
        first_index(ps.drop_last(), p)
    } else if ps.last() == p {
        ps.len() - 1
    } else {
        -1
    }
}

pub proof fn lemma_first_index(ps: Seq<Seq<Seq<char>>>, p: Seq<Seq<char>>)
    ensures
        -1 <= first_index(ps, p) < ps.len(),
        first_index(ps, p) >= 0 ==> ps[first_index(ps, p)] == p,
        forall|i: int|
            0 <= i < ps.len() && (first_index(ps, p) == -1 || i < first_index(ps, p)) ==> ps[i] != p,
    decreases ps.len(),
{
    if ps.len() > 0 {
        let d = ps.drop_last();
        lemma_first_index(d, p);
        assert forall|i: int|
            0 <= i < ps.len() && (first_index(ps, p) == -1 || i < first_index(ps, p)) implies ps[i]
                != p by {
            if i < ps.len() - 1 {
                assert(ps[i] == d[i]);
            }
        }
    }
}

/// The members of a reported cycle; nothing for another diagnostic.
pub open spec fn cycle_members(e: Error) -> Seq<Seq<Seq<char>>> {
    match e.kind {
        ErrorKind::ModuleCycle { members } => paths_view(members@),
        _ => seq![],
    }
}

/// The cycles that the diagnostics `errs` report, in order.
pub open spec fn found_of(errs: Seq<Error>) -> Seq<Seq<Seq<Seq<char>>>> {
    errs.map_values(|e: Error| cycle_members(e))
}

/// Every diagnostic reports a cycle, at the empty span at the start.
pub open spec fn cycle_reports(errs: Seq<Error>) -> bool {
    forall|i: int| 0 <= i < errs.len() ==> (#[trigger] errs[i]).span == Span { start: 0, end: 0 }
        && errs[i].kind is ModuleCycle
}

/// The depth-first search from module `node`, with the modules `visited`
/// already finished, the modules on `stack` being searched and the cycles
/// `found` so far: the finished modules and the cycles after it. A module
/// already on the stack closes a cycle, from its place on the stack to the
/// top; a finished or unknown module is skipped; otherwise each `use` of
/// the module is searched in order, and the module is finished.
pub open spec fn dfs_spec(
    set: Seq<(Vec<String>, File)>,
    node: Seq<Seq<char>>,
    visited: Seq<Seq<Seq<char>>>,
    stack: Seq<Seq<Seq<char>>>,
    found: Seq<Seq<Seq<Seq<char>>>>,
) -> (Seq<Seq<Seq<char>>>, Seq<Seq<Seq<Seq<char>>>>)
    decreases set.len() - stack.len(), 1nat, 0int,
    when stack.len() <= set.len()
{
    let start = first_index(stack, node);
    if start >= 0 {
        (visited, found.push(stack.subrange(start, stack.len() as int)))
    } else if first_index(visited, node) >= 0 {
        (visited, found)
    } else if module_index(set, node) < 0 {
        (visited, found)
    } else if stack.len() < set.len() {
        let ds = set[module_index(set, node)].1.decls@;
        let (v2, f2) = dfs_uses(set, ds, 0, visited, stack.push(node), found);
        (v2.push(node), f2)
    } else {
        // Never: the stack holds distinct modules of the set.
        (visited, found)
    }
}

/// The searches of the `use` declarations `ds[j..]` in order.
pub open spec fn dfs_uses(
    set: Seq<(Vec<String>, File)>,
    ds: Seq<crate::ast::Decl>,
    j: int,
    visited: Seq<Seq<Seq<char>>>,
    stack: Seq<Seq<Seq<char>>>,
    found: Seq<Seq<Seq<Seq<char>>>>,
) -> (Seq<Seq<Seq<char>>>, Seq<Seq<Seq<Seq<char>>>>)
    decreases set.len() - stack.len() + 1, 0nat, ds.len() - j,
    when stack.len() <= set.len()
{
    if j < 0 || j >= ds.len() {
        (visited, found)
    } else {
        let (v2, f2) = match ds[j].node {
            DeclKind::Use { path, .. } => dfs_spec(set, pview(path), visited, stack, found),
            _ => (visited, found),
        };
        dfs_uses(set, ds, j + 1, v2, stack, f2)
    }
}

/// The searches from the modules `set[i..]` in order.
pub open spec fn dfs_from(
    set: Seq<(Vec<String>, File)>,
    i: int,
    visited: Seq<Seq<Seq<char>>>,
    found: Seq<Seq<Seq<Seq<char>>>>,
) -> Seq<Seq<Seq<Seq<char>>>>
    decreases set.len() - i,
{
    if i < 0 || i >= set.len() {
        found
    } else {
        let (v2, f2) = dfs_spec(set, pview(set[i].0), visited, seq![], found);
        dfs_from(set, i + 1, v2, f2)
    }
}

/// The cycles that a depth-first search from each module, in the order of
/// the set, finds.
pub open spec fn cycles_found(set: Seq<(Vec<String>, File)>) -> Seq<Seq<Seq<Seq<char>>>> {
    dfs_from(set, 0, seq![], seq![])
}

/// Whether two module paths are the same.
pub fn path_eq(a: &Vec<String>, b: &Vec<String>) -> (r: bool)
    ensures
        r == (pview(*a) == pview(*b)),
{
    if a.len() != b.len() {
        proof {
            assert(pview(*a).len() != pview(*b).len());
        }
        return false;
    }
    let mut i: usize = 0;
    while i < a.len()
        invariant
            i <= a@.len(),
            a@.len() == b@.len(),
            forall|m: int| 0 <= m < i ==> a@[m]@ == b@[m]@,
        decreases a@.len() - i,
    {
        if !str_eq(a[i].as_str(), b[i].as_str()) {
            proof {
                assert(pview(*a)[i as int] != pview(*b)[i as int]);
            }
            return false;
        }
        i = i + 1;
    }
    assert(pview(*a) =~= pview(*b));
    true
}

fn clone_path(p: &Vec<String>) -> (r: Vec<String>)
    ensures
        pview(r) == pview(*p),
{
    let mut r: Vec<String> = Vec::new();
    let mut i: usize = 0;
    while i < p.len()
        invariant
            i <= p@.len(),
            r@.len() == i,
            forall|m: int| 0 <= m < i ==> r@[m]@ == p@[m]@,
        decreases p@.len() - i,
    {
        r.push(p[i].clone());
        i = i + 1;
    }
    assert(pview(r) =~= pview(*p));
    r
}

/// The index of the first path in `ps` equal to `p`.
fn position_of(ps: &Vec<Vec<String>>, p: &Vec<String>) -> (r: Option<usize>)
    ensures
        r matches Some(i) ==> i < ps@.len() && pview(ps@[i as int]) == pview(*p) && i as int
            == first_index(paths_view(ps@), pview(*p)),
        r is None ==> forall|i: int| 0 <= i < ps@.len() ==> pview(#[trigger] ps@[i]) != pview(*p),
        r is None ==> first_index(paths_view(ps@), pview(*p)) == -1,
{
    proof { lemma_first_index(paths_view(ps@), pview(*p)); }
    let mut i: usize = 0;
    while i < ps.len()
        invariant
            i <= ps@.len(),
            forall|m: int| 0 <= m < i ==> pview(#[trigger] ps@[m]) != pview(*p),
        decreases ps@.len() - i,
    {
        if path_eq(&ps[i], p) {
            proof {
                let pv = paths_view(ps@);
                assert(pv[i as int] == pview(*p));
                assert forall|m: int| 0 <= m < i implies pv[m] != pview(*p) by {
                    assert(pv[m] == pview(ps@[m]));
                }
                lemma_first_index(pv, pview(*p));
                let fi = first_index(pv, pview(*p));
                if fi == -1 || i < fi {
                    assert(pv[i as int] != pview(*p));
                }
                if 0 <= fi < i {
                    assert(pv[fi] == pview(*p));
                }
            }
            return Some(i);
        }
        i = i + 1;
    }
    proof {
        let pv = paths_view(ps@);
        if first_index(pv, pview(*p)) >= 0 {
            assert(pview(ps@[first_index(pv, pview(*p))]) == pview(*p));
        }
    }
    None
}

/// The module with path `p`.
fn module_of<'a>(set: &'a ModuleSet, p: &Vec<String>) -> (r: Option<&'a File>)
    ensures
        r is None <==> module_index(set@, pview(*p)) == -1,
        r matches Some(f) ==> *f == set@[module_index(set@, pview(*p))].1,
{
    proof { lemma_module_index(set@, pview(*p)); }
    let mut i: usize = 0;
    while i < set.len()
        invariant
            i <= set@.len(),
            forall|m: int| 0 <= m < i ==> pview(#[trigger] set@[m].0) != pview(*p),
            -1 <= module_index(set@, pview(*p)) < set@.len(),
            module_index(set@, pview(*p)) >= 0 ==> pview(set@[module_index(set@, pview(*p))].0)
                == pview(*p),
            forall|m: int|
                0 <= m < set@.len() && (module_index(set@, pview(*p)) == -1 || m < module_index(
                    set@,
                    pview(*p),
                )) ==> pview(#[trigger] set@[m].0) != pview(*p),
        decreases set@.len() - i,
    {
        if path_eq(&set[i].0, p) {
            return Some(&set[i].1);
        }
        i = i + 1;
    }
    None
}

/// The paths of the set, as a sequence of views.
pub open spec fn keys_view(set: Seq<(Vec<String>, File)>) -> Seq<Seq<Seq<char>>> {
    set.map_values(|e: (Vec<String>, File)| pview(e.0))
}

/// The DFS stack: distinct modules of the set, each using the next.
pub open spec fn stack_ok(set: Seq<(Vec<String>, File)>, stack: Seq<Vec<String>>) -> bool {
    &&& paths_view(stack).no_duplicates()
    &&& forall|k: int| 0 <= k < stack.len() ==> module_index(set, #[trigger] pview(stack[k])) >= 0
    &&& forall|k: int| 0 <= k < stack.len() - 1 ==> uses(set, #[trigger] pview(stack[k]), pview(stack[k + 1]))
}

proof fn lemma_stack_bound(set: Seq<(Vec<String>, File)>, stack: Seq<Vec<String>>)
    requires
        stack_ok(set, stack),
    ensures
        stack.len() <= set.len(),
{
    let sv = paths_view(stack);
    let kv = keys_view(set);
    sv.unique_seq_to_set();
    kv.lemma_cardinality_of_set();
    assert forall|x: Seq<Seq<char>>| sv.to_set().contains(x) implies kv.to_set().contains(x) by {
        let k = choose|k: int| 0 <= k < sv.len() && sv[k] == x;
        assert(pview(stack[k]) == x);
        lemma_module_index(set, x);
        let i = module_index(set, x);
        assert(kv[i] == x);
    }
    vstd::set_lib::lemma_len_subset(sv.to_set(), kv.to_set());
}

/// Depth-first search from `node` over `use` declarations, reporting each
/// `use` that leads back to a module on the stack as a cycle.
fn dfs(
    node: &Vec<String>,
    set: &ModuleSet,
    visited: &mut Vec<Vec<String>>,
    stack: &mut Vec<Vec<String>>,
    errors: &mut Vec<Error>,
)
    requires
        stack_ok(set@, old(stack)@),
        old(stack)@.len() > 0 ==> uses(set@, pview(old(stack)@.last()), pview(*node)),
        all_cycles(set@, old(errors)@),
        cycle_reports(old(errors)@),
    ensures
        final(stack)@ == old(stack)@,
        all_cycles(set@, final(errors)@),
        cycle_reports(final(errors)@),
        (paths_view(final(visited)@), found_of(final(errors)@)) == dfs_spec(
            set@,
            pview(*node),
            paths_view(old(visited)@),
            paths_view(old(stack)@),
            found_of(old(errors)@),
        ),
    decreases set@.len() - old(stack)@.len(),
{
    proof { lemma_stack_bound(set@, stack@); }
    let ghost v0 = paths_view(visited@);
    let ghost f0 = found_of(errors@);
    match position_of(stack, node) {
        Some(start) => {
            let mut members: Vec<Vec<String>> = Vec::new();
            let mut k = start;
            while k < stack.len()
                invariant
                    start <= k <= stack@.len(),
                    stack@ == old(stack)@,
                    members@.len() == k - start,
                    forall|m: int| 0 <= m < members@.len() ==> pview(#[trigger] members@[m]) == pview(
                        stack@[start + m],
                    ),
                decreases stack@.len() - k,
            {
                members.push(clone_path(&stack[k]));
                k = k + 1;
            }
            proof {
                let mv = paths_view(members@);
                assert forall|m: int| 0 <= m < mv.len() - 1 implies uses(set@, #[trigger] mv[m], mv[m + 1]) by {
                    assert(mv[m] == pview(stack@[start + m]));
                    assert(mv[m + 1] == pview(stack@[start + m + 1]));
                }
                assert(mv.last() == pview(stack@.last()));
                assert(mv[0] == pview(*node));
            }
            let ghost mv = paths_view(members@);
            proof {
                assert(mv =~= paths_view(stack@).subrange(start as int, stack@.len() as int));
            }
            let e = Error { span: Span::new(0, 0), kind: ErrorKind::ModuleCycle { members } };
            let ghost e0 = errors@;
            errors.push(e);
            proof {
                assert forall|i: int| 0 <= i < errors@.len() implies cycle_error(set@, #[trigger] errors@[i]) by {
                    if i < e0.len() {
                        assert(errors@[i] == e0[i]);
                    }
                }
                assert(found_of(errors@) =~= found_of(e0).push(mv));
            }
            return;
        },
        None => {},
    }
    if position_of(visited, node).is_some() {
        return;
    }
    let file = match module_of(set, node) {
        Some(f) => f,
        None => {
            return;
        },
    };
    let ghost s0 = stack@;
    stack.push(clone_path(node));
    proof {
        let sv = paths_view(stack@);
        assert(sv == paths_view(s0).push(pview(*node)));
        assert forall|k: int| 0 <= k < stack@.len() implies module_index(set@, #[trigger] pview(stack@[k])) >= 0 by {
            if k < s0.len() {
                assert(stack@[k] == s0[k]);
            }
        }
        assert forall|k: int| 0 <= k < stack@.len() - 1 implies uses(set@, #[trigger] pview(stack@[k]), pview(stack@[k + 1])) by {
            if k < s0.len() - 1 {
                assert(stack@[k] == s0[k]);
                assert(stack@[k + 1] == s0[k + 1]);
            } else {
                assert(stack@[k] == s0.last());
            }
        }
        assert forall|a: int, b: int| 0 <= a < b < sv.len() implies sv[a] != sv[b] by {
            if b == sv.len() - 1 {
                assert(sv[a] == pview(s0[a]));
            } else {
                assert(sv[a] == paths_view(s0)[a]);
                assert(sv[b] == paths_view(s0)[b]);
            }
        }
        lemma_stack_bound(set@, stack@);
        lemma_module_index(set@, pview(*node));
    }
    let mut j: usize = 0;
    while j < file.decls.len()
        invariant
            j <= file.decls@.len(),
            stack@ == s0.push(stack@.last()),
            pview(stack@.last()) == pview(*node),
            stack_ok(set@, stack@),
            stack@.len() <= set@.len(),
            s0 == old(stack)@,
            *file == set@[module_index(set@, pview(*node))].1,
            module_index(set@, pview(*node)) >= 0,
            all_cycles(set@, errors@),
            cycle_reports(errors@),
            paths_view(stack@) == paths_view(s0).push(pview(*node)),
            dfs_uses(set@, file.decls@, 0, v0, paths_view(s0).push(pview(*node)), f0) == dfs_uses(
                set@,
                file.decls@,
                j as int,
                paths_view(visited@),
                paths_view(stack@),
                found_of(errors@),
            ),
        decreases file.decls@.len() - j,
    {
        match &file.decls[j].node {
            DeclKind::Use { path, .. } => {
                proof {
                    assert(decl_uses(file.decls@[j as int], pview(*path)));
                    assert(uses(set@, pview(*node), pview(*path)));
                }
                dfs(path, set, visited, stack, errors);
            },
            _ => {},
        }
        j = j + 1;
    }
    stack.pop();
    proof {
        assert(stack@ =~= s0);
    }
    let ghost vb = visited@;
    visited.push(clone_path(node));
    proof {
        assert(paths_view(visited@) =~= paths_view(vb).push(pview(*node)));
    }
}

/// Reports every cycle of `use` declarations that a depth-first search over
/// the modules meets.
pub fn detect_cycles(set: &ModuleSet) -> (errors: Vec<Error>)
    ensures
        all_cycles(set@, errors@),
        cycle_reports(errors@),
        found_of(errors@) == cycles_found(set@),
{
    let mut visited: Vec<Vec<String>> = Vec::new();
    let mut stack: Vec<Vec<String>> = Vec::new();
    let mut errors: Vec<Error> = Vec::new();
    proof {
        assert(paths_view(visited@) =~= Seq::<Seq<Seq<char>>>::empty());
        assert(found_of(errors@) =~= Seq::<Seq<Seq<Seq<char>>>>::empty());
    }
    let mut i: usize = 0;
    while i < set.len()
        invariant
            i <= set@.len(),
            stack@.len() == 0,
            all_cycles(set@, errors@),
            cycle_reports(errors@),
            cycles_found(set@) == dfs_from(set@, i as int, paths_view(visited@), found_of(errors@)),
        decreases set@.len() - i,
    {
        proof {
            assert(paths_view(stack@) =~= Seq::<Seq<Seq<char>>>::empty());
        }
        dfs(&set[i].0, set, &mut visited, &mut stack, &mut errors);
        i = i + 1;
    }
    errors
}


/// The facts about module `i` of the set once resolved as `res`.
pub open spec fn module_resolved(set: Seq<(Vec<String>, File)>, i: int, res: Resolution) -> bool {
    let ds = set[i].1.decls@;
    &&& res.defs@ == decls_defs(ds, 0)
    &&& res.refs@ == crate::resolve::walker::refs_after(Map::empty(), decls_defs(ds, 0), decls_occs(ds))
}

/// Module `i` of the set resolves without a fault.
pub open spec fn module_clean(set: Seq<(Vec<String>, File)>, i: int) -> bool {
    let ds = set[i].1.decls@;
    faults(decls_defs(ds, 0), decls_occs(ds)).len() == 0
}

/// The faults of the modules, module after module.
pub open spec fn project_faults(set: Seq<(Vec<String>, File)>) -> Seq<Occ>
    decreases set.len(),
{
    if set.len() == 0 {
        seq![]
    } else {
        let ds = set.last().1.decls@;
        project_faults(set.drop_last()) + faults(decls_defs(ds, 0), decls_occs(ds))
    }
}

proof fn lemma_reported_append(a: Seq<Error>, b: Seq<Error>, os1: Seq<Occ>, os2: Seq<Occ>)
    requires
        reported(a, seq![], os1),
        reported(b, seq![], os2),
    ensures
        reported(a + b, seq![], os1 + os2),
{
    let c = a + b;
    assert(c.take(0) =~= Seq::<Error>::empty());
    assert forall|j: int| 0 <= j < (os1 + os2).len() implies reports(#[trigger] c[0 + j], (os1 + os2)[j]) by {
        if j < os1.len() {
            assert(c[j] == a[0 + j]);
        } else {
            assert(c[j] == b[0 + (j - os1.len())]);
        }
    }
}

/// Resolves every module of a project, after checking that no `use`
/// declarations form a cycle. Fails with the cycles found, or else with the
/// faults of all modules.
pub fn resolve_project(set: &ModuleSet) -> (r: Result<ProjectResolution, Vec<Error>>)
    requires
        forall|i: int| 0 <= i < set@.len() ==> decls_defs((#[trigger] set@[i]).1.decls@, 0).len() < u32::MAX,
    ensures
        r matches Ok(out) ==> out@.len() == set@.len() && forall|i: int|
            0 <= i < set@.len() ==> pview(#[trigger] out@[i].0) == pview(set@[i].0)
                && module_resolved(set@, i, out@[i].1) && module_clean(set@, i),
        r matches Err(errs) ==> errs@.len() > 0 && (all_cycles(set@, errs@) || exists|i: int|
            0 <= i < set@.len() && !module_clean(set@, i)),
        cycles_found(set@).len() > 0 ==> (r matches Err(errs) && cycle_reports(errs@) && found_of(
            errs@,
        ) == cycles_found(set@)),
        cycles_found(set@).len() == 0 ==> (r is Ok <==> project_faults(set@).len() == 0),
        cycles_found(set@).len() == 0 ==> (r matches Err(errs) ==> reported(
            errs@,
            seq![],
            project_faults(set@),
        )),
{
    let cycle_errs = detect_cycles(set);
    if cycle_errs.len() > 0 {
        proof {
            assert(found_of(cycle_errs@).len() == cycle_errs@.len());
        }
        return Err(cycle_errs);
    }
    proof {
        assert(found_of(cycle_errs@).len() == cycle_errs@.len());
        assert(project_faults(set@.take(0)) =~= Seq::<Occ>::empty());
    }
    let mut out: ProjectResolution = Vec::new();
    let mut all_errors: Vec<Error> = Vec::new();
    proof {
        assert(all_errors@.take(0) =~= Seq::<Error>::empty());
    }
    let mut i: usize = 0;
    while i < set.len()
        invariant
            i <= set@.len(),
            forall|m: int| 0 <= m < set@.len() ==> decls_defs((#[trigger] set@[m]).1.decls@, 0).len() < u32::MAX,
            all_errors@.len() == 0 ==> out@.len() == i && forall|m: int|
                0 <= m < i ==> pview(#[trigger] out@[m].0) == pview(set@[m].0) && module_resolved(
                    set@,
                    m,
                    out@[m].1,
                ) && module_clean(set@, m),
            all_errors@.len() > 0 ==> exists|m: int| 0 <= m < i && !module_clean(set@, m),
            reported(all_errors@, seq![], project_faults(set@.take(i as int))),
        decreases set@.len() - i,
    {
        let entry = &set[i];
        proof {
            assert(set@.take(i + 1).drop_last() =~= set@.take(i as int));
            assert(set@.take(i + 1).last() == set@[i as int]);
        }
        match resolve_file(&entry.1) {
            Ok(res) => {
                proof {
                    assert(project_faults(set@.take(i + 1)) =~= project_faults(set@.take(i as int)));
                }
                if all_errors.len() == 0 {
                    let p = clone_path(&entry.0);
                    let ghost o0 = out@;
                    out.push((p, res));
                    proof {
                        assert forall|m: int| 0 <= m < i + 1 implies pview(#[trigger] out@[m].0) == pview(
                            set@[m].0,
                        ) && module_resolved(set@, m, out@[m].1) && module_clean(set@, m) by {
                            if m < i {
                                assert(out@[m] == o0[m]);
                            } else {
                                assert(out@[m].1 == res);
                                assert(entry.1 == set@[m].1);
                            }
                        }
                    }
                }
            },
            Err(mut errs) => {
                proof {
                    assert(!module_clean(set@, i as int));
                    assert(errs@.len() > 0);
                    lemma_reported_append(
                        all_errors@,
                        errs@,
                        project_faults(set@.take(i as int)),
                        faults(decls_defs(set@[i as int].1.decls@, 0), decls_occs(set@[i as int].1.decls@)),
                    );
                }
                all_errors.append(&mut errs);
                assert(all_errors@.len() > 0);
            },
        }
        i = i + 1;
    }
    proof {
        assert(set@.take(set@.len() as int) =~= set@);
    }
    if all_errors.len() == 0 {
        Ok(out)
    } else {
        Err(all_errors)
    }
}

} // verus!
