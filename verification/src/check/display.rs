use vstd::prelude::*;
use crate::check::traits::{TraitId, trait_name};
use crate::check::types::{Constraint, PrimTy, STy, Scheme, Ty, TyVarId, Typing, sty, stys};
use crate::assoc::AssocMap;
use crate::resolve::types::Resolution;
use crate::check::unify::lemma_stys;
use crate::resolve::types::{DefId, DefInfo, def_index, find_def, lemma_def_index};
use crate::text::{decimal, push_char, push_str, push_u64};

verus! {

/// The name of a primitive type.
pub open spec fn prim_text(p: PrimTy) -> Seq<char> {
    match p {
        PrimTy::Int => "Int"@,
        PrimTy::Float => "Float"@,
        PrimTy::String => "String"@,
        PrimTy::Bool => "Bool"@,
        PrimTy::Unit => "Unit"@,
    }
}

/// `t<n>`, the printed form of a type variable.
pub open spec fn var_text(v: u32) -> Seq<char> {
    seq!['t'] + decimal(v as nat)
}

/// The raw printed form of a type: constructors appear as `#<id>`.
pub open spec fn ty_text(t: STy) -> Seq<char>
    decreases t, 0nat,
{
    match t {
        STy::Var(v) => var_text(v),
        STy::Prim(p) => prim_text(p),
        STy::Con(id, args) => seq!['#'] + decimal(id as nat) + if args.len() == 0 {
            Seq::empty()
        } else {
            seq!['('] + tys_text(args) + seq![')']
        },
        STy::Fun(ps, _, r) => tys_text(ps) + " -> "@ + ty_text(*r),
    }
}

/// Types printed by [`ty_text`], separated by `", "`.
pub open spec fn tys_text(ts: Seq<STy>) -> Seq<char>
    decreases ts, 1nat,
{
    if ts.len() == 0 {
        Seq::empty()
    } else if ts.len() == 1 {
        ty_text(ts[0])
    } else {
        tys_text(ts.drop_last()) + ", "@ + ty_text(ts.last())
    }
}

fn push_prim(out: &mut String, p: PrimTy)
    ensures
        final(out)@ == old(out)@ + prim_text(p),
{
    match p {
        PrimTy::Int => push_str(out, "Int"),
        PrimTy::Float => push_str(out, "Float"),
        PrimTy::String => push_str(out, "String"),
        PrimTy::Bool => push_str(out, "Bool"),
        PrimTy::Unit => push_str(out, "Unit"),
    }
}

fn push_var(out: &mut String, v: TyVarId)
    ensures
        final(out)@ == old(out)@ + var_text(v.0),
{
    push_char(out, 't');
    push_u64(out, v.0 as u64);
    assert(final(out)@ =~= old(out)@ + var_text(v.0));
}

fn push_ty(out: &mut String, t: &Ty)
    ensures
        final(out)@ == old(out)@ + ty_text(t@),
    decreases t, 0nat,
{
    match t {
        Ty::Var(v) => push_var(out, *v),
        Ty::Prim(p) => push_prim(out, *p),
        Ty::Con(id, args) => {
            push_char(out, '#');
            push_u64(out, id.0 as u64);
            proof {
                lemma_stys(args@);
            }
            if args.len() > 0 {
                push_char(out, '(');
                push_tys(out, args);
                push_char(out, ')');
            }
            assert(final(out)@ =~= old(out)@ + ty_text(t@));
        },
        Ty::Fun(ps, _, r) => {
            push_tys(out, ps);
            push_str(out, " -> ");
            push_ty(out, r);
            assert(final(out)@ =~= old(out)@ + ty_text(t@));
        },
    }
}

fn push_tys(out: &mut String, ts: &Vec<Ty>)
    ensures
        final(out)@ == old(out)@ + tys_text(stys(ts@)),
    decreases ts, 1nat,
{
    let ghost xs = stys(ts@);
    proof {
        lemma_stys(ts@);
    }
    let mut i: usize = 0;
    while i < ts.len()
        invariant
            i <= ts@.len(),
            xs == stys(ts@),
            xs.len() == ts@.len(),
            forall|m: int| 0 <= m < ts@.len() ==> #[trigger] xs[m] == ts@[m]@,
            out@ == old(out)@ + tys_text(xs.take(i as int)),
        decreases ts@.len() - i,
    {
        proof {
            assert(decreases_to!(ts => ts@[i as int]));
        }
        let ghost before = out@;
        if i > 0 {
            push_str(out, ", ");
        }
        push_ty(out, &ts[i]);
        proof {
            let t1 = xs.take(i + 1);
            assert(t1.drop_last() =~= xs.take(i as int));
            assert(t1.last() == xs[i as int]);
            if i == 0 {
                assert(t1.len() == 1);
                assert(out@ =~= old(out)@ + tys_text(t1));
            } else {
                assert(out@ =~= old(out)@ + tys_text(t1));
            }
        }
        i = i + 1;
    }
    assert(xs.take(ts@.len() as int) =~= xs);
}

impl Ty {
    /// The raw printed form of the type (constructors as `#<id>`).
    pub fn to_string(&self) -> (s: String)
        ensures
            s@ == ty_text(self@),
    {
        let mut s = String::new();
        push_ty(&mut s, self);
        assert(s@ =~= ty_text(self@));
        s
    }
}

/// `forall t0 t1 . ` for the variables of a scheme, or nothing.
pub open spec fn forall_text(vars: Seq<TyVarId>) -> Seq<char> {
    if vars.len() == 0 {
        Seq::empty()
    } else {
        "forall"@ + vars_text(vars) + " . "@
    }
}

/// Each variable printed as ` t<n>`.
pub open spec fn vars_text(vars: Seq<TyVarId>) -> Seq<char>
    decreases vars.len(),
{
    if vars.len() == 0 {
        Seq::empty()
    } else {
        vars_text(vars.drop_last()) + seq![' '] + var_text(vars.last().0)
    }
}

fn push_forall(out: &mut String, vars: &Vec<TyVarId>)
    ensures
        final(out)@ == old(out)@ + forall_text(vars@),
{
    if vars.len() == 0 {
        assert(final(out)@ =~= old(out)@ + forall_text(vars@));
        return;
    }
    push_str(out, "forall");
    let ghost mid = out@;
    let mut i: usize = 0;
    while i < vars.len()
        invariant
            i <= vars@.len(),
            out@ == mid + vars_text(vars@.take(i as int)),
        decreases vars@.len() - i,
    {
        push_char(out, ' ');
        push_var(out, vars[i]);
        proof {
            assert(vars@.take(i + 1).drop_last() =~= vars@.take(i as int));
            assert(out@ =~= mid + vars_text(vars@.take(i + 1)));
        }
        i = i + 1;
    }
    assert(vars@.take(vars@.len() as int) =~= vars@);
    push_str(out, " . ");
    assert(final(out)@ =~= old(out)@ + forall_text(vars@));
}

impl Scheme {
    /// The raw printed form: `forall t0 . ` before the type when it is quantified.
    pub fn to_string(&self) -> (s: String)
        ensures
            s@ == forall_text(self.vars@) + ty_text(self.ty@),
    {
        let mut s = String::new();
        push_forall(&mut s, &self.vars);
        push_ty(&mut s, &self.ty);
        assert(s@ =~= forall_text(self.vars@) + ty_text(self.ty@));
        s
    }
}

// ---------------------------------------------------------------------------
// Printing with resolved names.
// ---------------------------------------------------------------------------

/// The name of the constructor `id`: its definition's name, or `#<id>`.
pub open spec fn con_name(id: u32, defs: Seq<DefInfo>) -> Seq<char> {
    if def_index(defs, DefId(id)) >= 0 {
        defs[def_index(defs, DefId(id))].name@
    } else {
        seq!['#'] + decimal(id as nat)
    }
}

/// A type printed with resolved constructor names.
pub open spec fn named_text(t: STy, defs: Seq<DefInfo>) -> Seq<char>
    decreases t, 0nat,
{
    match t {
        STy::Var(v) => var_text(v),
        STy::Prim(p) => prim_text(p),
        STy::Con(id, args) => if args.len() == 0 {
            con_name(id, defs)
        } else {
            con_name(id, defs) + seq![' '] + args_text(args, defs)
        },
        STy::Fun(ps, _, r) => params_text(ps, defs) + " -> "@ + named_text(*r, defs),
    }
}

/// A type in argument position: compound types are parenthesised.
pub open spec fn arg_text(t: STy, defs: Seq<DefInfo>) -> Seq<char>
    decreases t, 1nat,
{
    match t {
        STy::Con(_, args) => if args.len() > 0 {
            seq!['('] + named_text(t, defs) + seq![')']
        } else {
            named_text(t, defs)
        },
        STy::Fun(..) => seq!['('] + named_text(t, defs) + seq![')'],
        _ => named_text(t, defs),
    }
}

/// Type arguments printed by [`arg_text`], separated by spaces.
pub open spec fn args_text(ts: Seq<STy>, defs: Seq<DefInfo>) -> Seq<char>
    decreases ts, 2nat,
{
    if ts.len() == 0 {
        Seq::empty()
    } else if ts.len() == 1 {
        arg_text(ts[0], defs)
    } else {
        args_text(ts.drop_last(), defs) + seq![' '] + arg_text(ts.last(), defs)
    }
}

/// Parameter types printed by [`named_text`], separated by `", "`.
pub open spec fn params_text(ts: Seq<STy>, defs: Seq<DefInfo>) -> Seq<char>
    decreases ts, 2nat,
{
    if ts.len() == 0 {
        Seq::empty()
    } else if ts.len() == 1 {
        named_text(ts[0], defs)
    } else {
        params_text(ts.drop_last(), defs) + ", "@ + named_text(ts.last(), defs)
    }
}

fn push_con_name(out: &mut String, id: DefId, defs: &Vec<DefInfo>)
    ensures
        final(out)@ == old(out)@ + con_name(id.0, defs@),
{
    match find_def(defs, id) {
        Some(i) => {
            proof {
                lemma_def_index(defs@, id);
            }
            push_str(out, defs[i].name.as_str());
        },
        None => {
            push_char(out, '#');
            push_u64(out, id.0 as u64);
            assert(final(out)@ =~= old(out)@ + con_name(id.0, defs@));
        },
    }
}

fn push_named(out: &mut String, t: &Ty, defs: &Vec<DefInfo>)
    ensures
        final(out)@ == old(out)@ + named_text(t@, defs@),
    decreases t, 0nat,
{
    match t {
        Ty::Var(v) => push_var(out, *v),
        Ty::Prim(p) => push_prim(out, *p),
        Ty::Con(id, args) => {
            proof {
                lemma_stys(args@);
            }
            push_con_name(out, *id, defs);
            if args.len() > 0 {
                push_char(out, ' ');
                push_list(out, args, defs, true);
            }
            assert(final(out)@ =~= old(out)@ + named_text(t@, defs@));
        },
        Ty::Fun(ps, _, r) => {
            push_list(out, ps, defs, false);
            push_str(out, " -> ");
            push_named(out, r, defs);
            assert(final(out)@ =~= old(out)@ + named_text(t@, defs@));
        },
    }
}

fn push_arg(out: &mut String, t: &Ty, defs: &Vec<DefInfo>)
    ensures
        final(out)@ == old(out)@ + arg_text(t@, defs@),
    decreases t, 1nat,
{
    let paren = match t {
        Ty::Con(_, args) => args.len() > 0,
        Ty::Fun(..) => true,
        _ => false,
    };
    proof {
        if let Ty::Con(_, args) = t {
            lemma_stys(args@);
        }
    }
    if paren {
        push_char(out, '(');
        push_named(out, t, defs);
        push_char(out, ')');
    } else {
        push_named(out, t, defs);
    }
    assert(final(out)@ =~= old(out)@ + arg_text(t@, defs@));
}

/// The list `ts` as type arguments (`as_args`) or as function parameters.
fn push_list(out: &mut String, ts: &Vec<Ty>, defs: &Vec<DefInfo>, as_args: bool)
    ensures
        as_args ==> final(out)@ == old(out)@ + args_text(stys(ts@), defs@),
        !as_args ==> final(out)@ == old(out)@ + params_text(stys(ts@), defs@),
    decreases ts, 2nat,
{
    let ghost xs = stys(ts@);
    proof {
        lemma_stys(ts@);
    }
    let mut i: usize = 0;
    while i < ts.len()
        invariant
            i <= ts@.len(),
            xs == stys(ts@),
            xs.len() == ts@.len(),
            forall|m: int| 0 <= m < ts@.len() ==> #[trigger] xs[m] == ts@[m]@,
            as_args ==> out@ == old(out)@ + args_text(xs.take(i as int), defs@),
            !as_args ==> out@ == old(out)@ + params_text(xs.take(i as int), defs@),
        decreases ts@.len() - i,
    {
        proof {
            assert(decreases_to!(ts => ts@[i as int]));
        }
        if as_args {
            if i > 0 {
                push_char(out, ' ');
            }
            push_arg(out, &ts[i], defs);
        } else {
            if i > 0 {
                push_str(out, ", ");
            }
            push_named(out, &ts[i], defs);
        }
        proof {
            let t1 = xs.take(i + 1);
            assert(t1.drop_last() =~= xs.take(i as int));
            assert(t1.last() == xs[i as int]);
            if as_args {
                assert(out@ =~= old(out)@ + args_text(t1, defs@));
            } else {
                assert(out@ =~= old(out)@ + params_text(t1, defs@));
            }
        }
        i = i + 1;
    }
    assert(xs.take(ts@.len() as int) =~= xs);
}

/// Renders a type with the names that `res` gives its constructors; a
/// constructor without a definition prints as `#<id>`.
pub fn ty_to_string(ty: &Ty, res: &Resolution) -> (s: String)
    ensures
        s@ == named_text(ty@, res.defs@),
{
    let mut s = String::new();
    push_named(&mut s, ty, &res.defs);
    assert(s@ =~= named_text(ty@, res.defs@));
    s
}

/// A type in argument position, with resolved names: constructors with
/// arguments and function types are parenthesised.
pub fn ty_arg_to_string(ty: &Ty, res: &Resolution) -> (s: String)
    ensures
        s@ == arg_text(ty@, res.defs@),
{
    let mut s = String::new();
    push_arg(&mut s, ty, &res.defs);
    assert(s@ =~= arg_text(ty@, res.defs@));
    s
}

/// `Eq t0, Ord t1 => ` for the constraints of a scheme, or nothing.
pub open spec fn constraints_text(cs: Seq<Constraint>, defs: Seq<DefInfo>) -> Seq<char> {
    if cs.len() == 0 {
        Seq::empty()
    } else {
        constraint_list_text(cs, defs) + " => "@
    }
}

pub open spec fn constraint_text(c: Constraint, defs: Seq<DefInfo>) -> Seq<char> {
    trait_name(c.trait_) + seq![' '] + named_text(c.ty@, defs)
}

pub open spec fn constraint_list_text(cs: Seq<Constraint>, defs: Seq<DefInfo>) -> Seq<char>
    decreases cs.len(),
{
    if cs.len() == 0 {
        Seq::empty()
    } else if cs.len() == 1 {
        constraint_text(cs[0], defs)
    } else {
        constraint_list_text(cs.drop_last(), defs) + ", "@ + constraint_text(cs.last(), defs)
    }
}

/// The printed form of a scheme with resolved names.
pub open spec fn scheme_text(s: Scheme, defs: Seq<DefInfo>) -> Seq<char> {
    forall_text(s.vars@) + constraints_text(s.constraints@, defs) + named_text(s.ty@, defs)
}

fn push_scheme(out: &mut String, s: &Scheme, defs: &Vec<DefInfo>)
    ensures
        final(out)@ == old(out)@ + scheme_text(*s, defs@),
{
    push_forall(out, &s.vars);
    let ghost mid = out@;
    let cs = &s.constraints;
    let mut i: usize = 0;
    while i < cs.len()
        invariant
            i <= cs@.len(),
            out@ == mid + constraint_list_text(cs@.take(i as int), defs@),
        decreases cs@.len() - i,
    {
        if i > 0 {
            push_str(out, ", ");
        }
        push_str(out, cs[i].trait_.name());
        push_char(out, ' ');
        push_named(out, &cs[i].ty, defs);
        proof {
            let t1 = cs@.take(i + 1);
            assert(t1.drop_last() =~= cs@.take(i as int));
            assert(t1.last() == cs@[i as int]);
            assert(out@ =~= mid + constraint_list_text(t1, defs@));
        }
        i = i + 1;
    }
    assert(cs@.take(cs@.len() as int) =~= cs@);
    if cs.len() > 0 {
        push_str(out, " => ");
    }
    push_named(out, &s.ty, defs);
    assert(final(out)@ =~= old(out)@ + scheme_text(*s, defs@));
}

/// Renders a scheme with resolved names: `forall t0 . Eq t0 => t0 -> Bool`.
pub fn scheme_to_string(s: &Scheme, res: &Resolution) -> (r: String)
    ensures
        r@ == scheme_text(*s, res.defs@),
{
    let mut r = String::new();
    push_scheme(&mut r, s, &res.defs);
    assert(r@ =~= scheme_text(*s, res.defs@));
    r
}

/// `order` lists every entry of `es` exactly once, by increasing id.
pub open spec fn sorted_order(es: Seq<(DefId, Scheme)>, order: Seq<int>) -> bool {
    &&& forall|k: int| 0 <= k < order.len() ==> 0 <= #[trigger] order[k] < es.len()
    &&& forall|k: int, l: int| 0 <= k < l < order.len() ==> es[order[k]].0.0 < es[order[l]].0.0
    &&& forall|j: int| 0 <= j < es.len() ==> #[trigger] listed(order, j)
}

/// Positions as integers.
pub open spec fn as_ints(s: Seq<usize>) -> Seq<int> {
    s.map_values(|i: usize| i as int)
}

/// `j` occurs in `order`.
pub open spec fn listed(order: Seq<int>, j: int) -> bool {
    exists|k: int| 0 <= k < order.len() && order[k] == j
}

/// The position of the last printed id in the order of ids (-1 before the first).
pub open spec fn rank_of(last: Option<u32>) -> int {
    match last {
        Some(x) => x as int,
        None => -1,
    }
}

/// The entry positions of `m`, by increasing id.
fn order_by_id(m: &AssocMap<DefId, Scheme>) -> (r: Vec<usize>)
    ensures
        sorted_order(m.entries(), as_ints(r@)),
{
    let n = m.len();
    let ghost es = m.entries();
    let mut out: Vec<usize> = Vec::new();
    let mut last: Option<u32> = None;
    loop
        invariant
            n == es.len(),
            es == m.entries(),
            forall|i: int, j: int| 0 <= i < j < es.len() ==> es[i].0 != es[j].0,
            forall|k: int| 0 <= k < out@.len() ==> (#[trigger] out@[k] as int) < es.len(),
            forall|k: int, l: int| 0 <= k < l < out@.len() ==> es[out@[k] as int].0.0 < es[out@[l] as int].0.0,
            last is None <==> out@.len() == 0,
            last matches Some(x) ==> x == es[out@[out@.len() - 1] as int].0.0,
            forall|j: int| 0 <= j < es.len() && es[j].0.0 <= rank_of(last) ==> #[trigger] listed(
                as_ints(out@),
                j,
            ),
        decreases u32::MAX as int - rank_of(last),
    {
        let mut best: Option<usize> = None;
        let mut i: usize = 0;
        while i < n
            invariant
                i <= n,
                n == es.len(),
                es == m.entries(),
                best matches Some(b) ==> b < i && rank_of(last) < es[b as int].0.0,
                forall|j: int| 0 <= j < i && rank_of(last) < (#[trigger] es[j]).0.0 ==> (best matches Some(b)
                    && es[b as int].0.0 <= es[j].0.0),
            decreases n - i,
        {
            let (k, _) = m.entry(i);
            let id = k.0;
            let above = match last {
                Some(x) => id > x,
                None => true,
            };
            if above {
                match best {
                    Some(b) => {
                        let (kb, _) = m.entry(b);
                        if id < kb.0 {
                            best = Some(i);
                        }
                    },
                    None => {
                        best = Some(i);
                    },
                }
            }
            i = i + 1;
        }
        match best {
            Some(b) => {
                let (kb, _) = m.entry(b);
                let ghost prev = out@;
                out.push(b);
                last = Some(kb.0);
                proof {
                    let ord = as_ints(out@);
                    let pord = as_ints(prev);
                    assert forall|j: int| 0 <= j < es.len() && es[j].0.0 <= rank_of(last) implies #[trigger] listed(
                        ord,
                        j,
                    ) by {
                        if j == b as int {
                            assert(ord[ord.len() - 1] == j);
                        } else if prev.len() > 0 && es[j].0.0 <= es[prev[prev.len() - 1] as int].0.0 {
                            assert(listed(pord, j));
                            let k = choose|k: int| 0 <= k < pord.len() && pord[k] == j;
                            assert(ord[k] == j);
                        } else {
                            assert(es[j].0 != es[b as int].0);
                        }
                    }
                }
            },
            None => {
                proof {
                    let ord = as_ints(out@);
                    assert forall|j: int| 0 <= j < es.len() implies #[trigger] listed(ord, j) by {
                        assert(es[j].0.0 <= rank_of(last));
                    }
                }
                return out;
            },
        }
    }
}

/// `  <name> : <scheme>` lines for the entries in `order`.
pub open spec fn typing_lines(es: Seq<(DefId, Scheme)>, order: Seq<int>, defs: Seq<DefInfo>) -> Seq<char>
    decreases order.len(),
{
    if order.len() == 0 {
        Seq::empty()
    } else {
        let e = es[order.last()];
        typing_lines(es, order.drop_last(), defs) + "  "@ + con_name(e.0.0, defs) + " : "@ + scheme_text(e.1, defs)
            + seq!['\n']
    }
}

/// Renders every scheme with its binding's name, by increasing definition id.
pub fn render_typing(t: &Typing, res: &Resolution) -> (r: String)
    ensures
        exists|order: Seq<int>| #[trigger] sorted_order(t.schemes.entries(), order) && r@ == "schemes:\n"@ + typing_lines(
            t.schemes.entries(),
            order,
            res.defs@,
        ),
{
    let order = order_by_id(&t.schemes);
    let ghost ord = as_ints(order@);
    let ghost es = t.schemes.entries();
    let mut out = String::new();
    push_str(&mut out, "schemes:\n");
    let ghost head = out@;
    let mut k: usize = 0;
    while k < order.len()
        invariant
            k <= order@.len(),
            ord == as_ints(order@),
            es == t.schemes.entries(),
            sorted_order(es, ord),
            out@ == head + typing_lines(es, ord.take(k as int), res.defs@),
        decreases order@.len() - k,
    {
        assert(ord[k as int] == order@[k as int] as int);
        let (id, scheme) = t.schemes.entry(order[k]);
        push_str(&mut out, "  ");
        push_con_name(&mut out, *id, &res.defs);
        push_str(&mut out, " : ");
        push_scheme(&mut out, scheme, &res.defs);
        push_char(&mut out, '\n');
        proof {
            let t1 = ord.take(k + 1);
            assert(t1.drop_last() =~= ord.take(k as int));
            assert(out@ =~= head + typing_lines(es, t1, res.defs@));
        }
        k = k + 1;
    }
    assert(ord.take(order@.len() as int) =~= ord);
    out
}

/// `  #<id> : <scheme>` lines for the entries in `order`, with raw type names.
pub open spec fn raw_typing_lines(es: Seq<(DefId, Scheme)>, order: Seq<int>) -> Seq<char>
    decreases order.len(),
{
    if order.len() == 0 {
        Seq::empty()
    } else {
        let e = es[order.last()];
        raw_typing_lines(es, order.drop_last()) + "  #"@ + decimal(e.0.0 as nat) + " : "@ + forall_text(e.1.vars@)
            + ty_text(e.1.ty@) + seq!['\n']
    }
}

impl Typing {
    /// Every scheme with its raw definition id, by increasing id.
    pub fn to_string(&self) -> (r: String)
        ensures
            exists|order: Seq<int>| #[trigger] sorted_order(self.schemes.entries(), order) && r@ == "schemes:\n"@
                + raw_typing_lines(self.schemes.entries(), order),
    {
        let order = order_by_id(&self.schemes);
        let ghost ord = as_ints(order@);
        let ghost es = self.schemes.entries();
        let mut out = String::new();
        push_str(&mut out, "schemes:\n");
        let ghost head = out@;
        let mut k: usize = 0;
        while k < order.len()
            invariant
                k <= order@.len(),
                ord == as_ints(order@),
                es == self.schemes.entries(),
                sorted_order(es, ord),
                out@ == head + raw_typing_lines(es, ord.take(k as int)),
            decreases order@.len() - k,
        {
            assert(ord[k as int] == order@[k as int] as int);
            let (id, scheme) = self.schemes.entry(order[k]);
            push_str(&mut out, "  #");
            push_u64(&mut out, id.0 as u64);
            push_str(&mut out, " : ");
            push_forall(&mut out, &scheme.vars);
            push_ty(&mut out, &scheme.ty);
            push_char(&mut out, '\n');
            proof {
                let t1 = ord.take(k + 1);
                assert(t1.drop_last() =~= ord.take(k as int));
                assert(out@ =~= head + raw_typing_lines(es, t1));
            }
            k = k + 1;
        }
        assert(ord.take(order@.len() as int) =~= ord);
        out
    }
}

} // verus!
