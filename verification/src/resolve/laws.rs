//! The cycle search over `use` declarations misses no cycle.
use vstd::prelude::*;
use crate::ast::{DeclKind, File};
use crate::resolve::module_set::{
    cycles_found, decl_uses, dfs_from, dfs_spec, dfs_uses, first_index, is_cycle, keys_view,
    lemma_first_index, lemma_module_index, module_index, pview, uses,
};

verus! {

/// Every module that `v[i]` uses, if it is a module of the set, occurs in
/// `v` before index `i`: the modules were finished after all they use.
pub open spec fn finished_in_order(set: Seq<(Vec<String>, File)>, v: Seq<Seq<Seq<char>>>) -> bool {
    forall|i: int, b: Seq<Seq<char>>|
        0 <= i < v.len() && #[trigger] uses(set, v[i], b) && module_index(set, b) >= 0
            ==> v.subrange(0, i).contains(b)
}

/// `a` is the start of `b`.
pub open spec fn starts(a: Seq<Seq<Seq<char>>>, b: Seq<Seq<Seq<char>>>) -> bool {
    a.len() <= b.len() && b.subrange(0, a.len() as int) == a
}

proof fn lemma_contains_first(ps: Seq<Seq<Seq<char>>>, p: Seq<Seq<char>>)
    ensures
        ps.contains(p) <==> first_index(ps, p) >= 0,
{
    lemma_first_index(ps, p);
    if ps.contains(p) {
        let k = choose|k: int| 0 <= k < ps.len() && ps[k] == p;
        assert(ps[k] == p);
    }
    if first_index(ps, p) >= 0 {
        assert(ps[first_index(ps, p)] == p);
    }
}

proof fn lemma_starts_contains(a: Seq<Seq<Seq<char>>>, b: Seq<Seq<Seq<char>>>, p: Seq<Seq<char>>)
    requires
        starts(a, b),
        a.contains(p),
    ensures
        b.contains(p),
{
    let k = choose|k: int| 0 <= k < a.len() && a[k] == p;
    assert(b.subrange(0, a.len() as int)[k] == b[k]);
}

proof fn lemma_starts_trans(a: Seq<Seq<Seq<char>>>, b: Seq<Seq<Seq<char>>>, c: Seq<Seq<Seq<char>>>)
    requires
        starts(a, b),
        starts(b, c),
    ensures
        starts(a, c),
{
    assert forall|k: int| 0 <= k < a.len() implies c.subrange(0, a.len() as int)[k] == a[k] by {
        assert(c.subrange(0, b.len() as int)[k] == c[k]);
        assert(b.subrange(0, a.len() as int)[k] == b[k]);
    }
    assert(c.subrange(0, a.len() as int) =~= a);
}

/// A stack of distinct modules of the set that lacks `node`, itself a
/// module of the set, leaves room for `node`.
proof fn lemma_room_on_stack(
    set: Seq<(Vec<String>, File)>,
    stack: Seq<Seq<Seq<char>>>,
    node: Seq<Seq<char>>,
)
    requires
        stack.no_duplicates(),
        forall|k: int| 0 <= k < stack.len() ==> module_index(set, #[trigger] stack[k]) >= 0,
        !stack.contains(node),
        module_index(set, node) >= 0,
    ensures
        stack.len() < set.len(),
{
    let sv = stack.push(node);
    assert(sv.no_duplicates()) by {
        assert forall|i: int, j: int| 0 <= i < sv.len() && 0 <= j < sv.len() && i != j implies sv[i]
            != sv[j] by {
            if i < stack.len() && j < stack.len() {
                assert(sv[i] == stack[i] && sv[j] == stack[j]);
            } else if i < stack.len() {
                assert(sv[i] == stack[i]);
            } else if j < stack.len() {
                assert(sv[j] == stack[j]);
            }
        }
    }
    let kv = keys_view(set);
    sv.unique_seq_to_set();
    kv.lemma_cardinality_of_set();
    assert forall|x: Seq<Seq<char>>| sv.to_set().contains(x) implies kv.to_set().contains(x) by {
        let k = choose|k: int| 0 <= k < sv.len() && sv[k] == x;
        if k < stack.len() {
            assert(sv[k] == stack[k]);
        }
        assert(module_index(set, x) >= 0);
        lemma_module_index(set, x);
        let i = module_index(set, x);
        assert(kv[i] == x);
    }
    vstd::set_lib::lemma_len_subset(sv.to_set(), kv.to_set());
}

/// The search from `node` only adds to the finished modules and to the
/// cycles found; when it finds none, it keeps the finished modules in
/// order and finishes `node`, if `node` is a module of the set.
proof fn lemma_dfs_finishes(
    set: Seq<(Vec<String>, File)>,
    node: Seq<Seq<char>>,
    visited: Seq<Seq<Seq<char>>>,
    stack: Seq<Seq<Seq<char>>>,
    found: Seq<Seq<Seq<Seq<char>>>>,
)
    requires
        stack.len() <= set.len(),
        stack.no_duplicates(),
        forall|k: int| 0 <= k < stack.len() ==> module_index(set, #[trigger] stack[k]) >= 0,
    ensures
        ({
            let (v2, f2) = dfs_spec(set, node, visited, stack, found);
            &&& starts(visited, v2)
            &&& found.len() <= f2.len()
            &&& finished_in_order(set, visited) && f2.len() == found.len() ==> finished_in_order(
                set,
                v2,
            ) && (module_index(set, node) >= 0 ==> v2.contains(node))
        }),
    decreases set.len() - stack.len(), 1nat, 0int,
{
    assert(visited.subrange(0, visited.len() as int) =~= visited);
    lemma_first_index(stack, node);
    lemma_contains_first(visited, node);
    if first_index(stack, node) >= 0 {
    } else if first_index(visited, node) >= 0 {
    } else if module_index(set, node) < 0 {
    } else {
        lemma_contains_first(stack, node);
        lemma_room_on_stack(set, stack, node);
        let ds = set[module_index(set, node)].1.decls@;
        let st = stack.push(node);
        assert(st.no_duplicates()) by {
            assert forall|i: int, j: int| 0 <= i < st.len() && 0 <= j < st.len() && i != j implies st[i]
                != st[j] by {
                if i < stack.len() && j < stack.len() {
                    assert(st[i] == stack[i] && st[j] == stack[j]);
                } else if i < stack.len() {
                    assert(st[i] == stack[i]);
                } else if j < stack.len() {
                    assert(st[j] == stack[j]);
                }
            }
        }
        assert forall|k: int| 0 <= k < st.len() implies module_index(set, #[trigger] st[k]) >= 0 by {
            if k < stack.len() {
                assert(st[k] == stack[k]);
            }
        }
        lemma_uses_finish(set, ds, 0, visited, st, found);
        let (v3, f3) = dfs_uses(set, ds, 0, visited, st, found);
        let v2 = v3.push(node);
        assert(dfs_spec(set, node, visited, stack, found) == (v2, f3));
        assert(starts(v3, v2)) by {
            assert(v2.subrange(0, v3.len() as int) =~= v3);
        }
        lemma_starts_trans(visited, v3, v2);
        if finished_in_order(set, visited) && f3.len() == found.len() {
            assert forall|i: int, b: Seq<Seq<char>>|
                0 <= i < v2.len() && #[trigger] uses(set, v2[i], b) && module_index(set, b) >= 0
                    implies v2.subrange(0, i).contains(b) by {
                if i < v3.len() {
                    assert(v2[i] == v3[i]);
                    assert(v2.subrange(0, i) =~= v3.subrange(0, i));
                    assert(uses(set, v3[i], b));
                } else {
                    assert(v2[i] == node);
                    assert(v2.subrange(0, i) =~= v3);
                    let j = choose|j: int|
                        0 <= j < ds.len() && decl_uses(#[trigger] ds[j], b);
                    assert(decl_uses(ds[j], b));
                }
            }
            assert(v2[v3.len() as int] == node);
        }
    }
}

/// The searches of the `use` declarations `ds[j..]`, as above; when they
/// find no cycle, every module of the set that they use is finished.
proof fn lemma_uses_finish(
    set: Seq<(Vec<String>, File)>,
    ds: Seq<crate::ast::Decl>,
    j: int,
    visited: Seq<Seq<Seq<char>>>,
    stack: Seq<Seq<Seq<char>>>,
    found: Seq<Seq<Seq<Seq<char>>>>,
)
    requires
        stack.len() <= set.len(),
        stack.no_duplicates(),
        forall|k: int| 0 <= k < stack.len() ==> module_index(set, #[trigger] stack[k]) >= 0,
        0 <= j,
    ensures
        ({
            let (v2, f2) = dfs_uses(set, ds, j, visited, stack, found);
            &&& starts(visited, v2)
            &&& found.len() <= f2.len()
            &&& finished_in_order(set, visited) && f2.len() == found.len() ==> finished_in_order(
                set,
                v2,
            ) && forall|k: int, b: Seq<Seq<char>>|
                j <= k < ds.len() && #[trigger] decl_uses(ds[k], b) && module_index(set, b) >= 0
                    ==> v2.contains(b)
        }),
    decreases set.len() - stack.len() + 1, 0nat, ds.len() - j,
{
    assert(visited.subrange(0, visited.len() as int) =~= visited);
    if j < ds.len() {
        let (v1, f1) = match ds[j].node {
            DeclKind::Use { path, .. } => dfs_spec(set, pview(path), visited, stack, found),
            _ => (visited, found),
        };
        match ds[j].node {
            DeclKind::Use { path, .. } => {
                lemma_dfs_finishes(set, pview(path), visited, stack, found);
            },
            _ => {},
        }
        lemma_uses_finish(set, ds, j + 1, v1, stack, f1);
        let (v2, f2) = dfs_uses(set, ds, j + 1, v1, stack, f1);
        assert(dfs_uses(set, ds, j, visited, stack, found) == (v2, f2));
        lemma_starts_trans(visited, v1, v2);
        if finished_in_order(set, visited) && f2.len() == found.len() {
            assert forall|k: int, b: Seq<Seq<char>>|
                j <= k < ds.len() && #[trigger] decl_uses(ds[k], b) && module_index(set, b) >= 0
                    implies v2.contains(b) by {
                if k == j {
                    match ds[j].node {
                        DeclKind::Use { path, .. } => {
                            assert(pview(path) == b);
                            lemma_starts_contains(v1, v2, b);
                        },
                        _ => {},
                    }
                }
            }
        }
    }
}

/// The searches from `set[i..]`, as above; when the whole search finds no
/// cycle, the returned order finishes every module of the set after all it
/// uses.
proof fn lemma_from_finishes(
    set: Seq<(Vec<String>, File)>,
    i: int,
    visited: Seq<Seq<Seq<char>>>,
    found: Seq<Seq<Seq<Seq<char>>>>,
) -> (v: Seq<Seq<Seq<char>>>)
    requires
        0 <= i <= set.len(),
    ensures
        found.len() <= dfs_from(set, i, visited, found).len(),
        finished_in_order(set, visited) && (forall|m: int|
            0 <= m < i ==> visited.contains(#[trigger] pview(set[m].0))) && dfs_from(
            set,
            i,
            visited,
            found,
        ).len() == found.len() ==> finished_in_order(set, v) && forall|m: int|
            0 <= m < set.len() ==> v.contains(#[trigger] pview(set[m].0)),
    decreases set.len() - i,
{
    if i >= set.len() {
        visited
    } else {
        let p = pview(set[i].0);
        lemma_module_index(set, p);
        lemma_dfs_finishes(set, p, visited, seq![], found);
        let (v2, f2) = dfs_spec(set, p, visited, seq![], found);
        let v = lemma_from_finishes(set, i + 1, v2, f2);
        assert(dfs_from(set, i, visited, found) == dfs_from(set, i + 1, v2, f2));
        if finished_in_order(set, visited) && (forall|m: int|
            0 <= m < i ==> visited.contains(#[trigger] pview(set[m].0))) && dfs_from(
            set,
            i,
            visited,
            found,
        ).len() == found.len() {
            assert forall|m: int| 0 <= m < i + 1 implies v2.contains(#[trigger] pview(set[m].0)) by {
                if m < i {
                    lemma_starts_contains(visited, v2, pview(set[m].0));
                }
            }
        }
        v
    }
}

/// In a finishing order, a module of the set that `a` uses comes before `a`.
proof fn lemma_edge_descends(
    set: Seq<(Vec<String>, File)>,
    v: Seq<Seq<Seq<char>>>,
    a: Seq<Seq<char>>,
    b: Seq<Seq<char>>,
)
    requires
        finished_in_order(set, v),
        uses(set, a, b),
        module_index(set, b) >= 0,
        v.contains(a),
    ensures
        0 <= first_index(v, b) < first_index(v, a),
{
    lemma_contains_first(v, a);
    lemma_first_index(v, a);
    lemma_first_index(v, b);
    let i = first_index(v, a);
    assert(uses(set, v[i], b));
    let s = v.subrange(0, i);
    let j = choose|j: int| 0 <= j < s.len() && s[j] == b;
    assert(v[j] == b);
}

proof fn lemma_cycle_descends(
    set: Seq<(Vec<String>, File)>,
    v: Seq<Seq<Seq<char>>>,
    ms: Seq<Seq<Seq<char>>>,
    k: int,
)
    requires
        finished_in_order(set, v),
        is_cycle(set, ms),
        forall|m: int| 0 <= m < ms.len() ==> v.contains(#[trigger] ms[m]),
        0 <= k < ms.len(),
    ensures
        first_index(v, ms[k]) <= first_index(v, ms[0]) - k,
    decreases k,
{
    if k > 0 {
        lemma_cycle_descends(set, v, ms, k - 1);
        assert(uses(set, ms[k - 1], ms[k]));
        if k < ms.len() - 1 {
            assert(uses(set, ms[k], ms[k + 1]));
        }
        lemma_edge_descends(set, v, ms[k - 1], ms[k]);
    }
}

/// Whenever the `use` declarations of a project form a cycle, the search
/// over the modules reports at least one cycle.
pub proof fn cycles_are_found(set: Seq<(Vec<String>, File)>, ms: Seq<Seq<Seq<char>>>)
    requires
        is_cycle(set, ms),
    ensures
        cycles_found(set).len() > 0,
{
    let v = lemma_from_finishes(set, 0, seq![], seq![]);
    if cycles_found(set).len() == 0 {
        assert(finished_in_order(set, seq![]));
        assert forall|m: int| 0 <= m < ms.len() implies v.contains(#[trigger] ms[m]) by {
            if m < ms.len() - 1 {
                assert(uses(set, ms[m], ms[m + 1]));
            } else {
                assert(uses(set, ms.last(), ms[0]));
            }
            lemma_module_index(set, ms[m]);
            let i = module_index(set, ms[m]);
            assert(v.contains(pview(set[i].0)));
        }
        let n = ms.len() - 1;
        lemma_cycle_descends(set, v, ms, n);
        assert(uses(set, ms.last(), ms[0]));
        assert(uses(set, ms[0], if n > 0 { ms[1] } else { ms[0] }));
        lemma_edge_descends(set, v, ms[n], ms[0]);
    }
}

} // verus!
