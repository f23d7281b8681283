//! Every name in a value is looked up: the resolver records what it
//! refers to, or reports it.
use vstd::prelude::*;
use crate::ast::{BlockItem, DeclKind, Expr, ExprKind, File, KwArg, MatchArm};
use crate::resolve::scope::decls_defs;
use crate::resolve::types::{DefInfo, ResolvedName};
use crate::resolve::walker::{
    arm_occs, arms_occs, decl_occs, decls_occs, decls_walk, expr_occs, exprs_occs, faults, item_occs,
    items_occs, kwargs_occs, refs_after, resolution_of, Occ,
};
use crate::span::Span;

verus! {

/// A name expression, a variable or a constructor, stands at `s` in `e`:
/// in `e` itself or in any of its subexpressions, lambda bodies, match arms
/// and block lines included.
pub open spec fn var_at(e: Expr, s: Span) -> bool
    decreases e, 0nat,
{
    match e.node {
        ExprKind::Var(_) => e.span == s,
        ExprKind::Ctor(_) => e.span == s,
        ExprKind::Paren(x) => var_at(*x, s),
        ExprKind::UnaryOp { expr, .. } => var_at(*expr, s),
        ExprKind::Bang(x) => var_at(*x, s),
        ExprKind::Question(x) => var_at(*x, s),
        ExprKind::FieldAccess { receiver, .. } => var_at(*receiver, s),
        ExprKind::MethodCall { receiver, .. } => var_at(*receiver, s),
        ExprKind::BinOp { lhs, rhs, .. } => var_at(*lhs, s) || var_at(*rhs, s),
        ExprKind::List(items) => vars_at(items@, s),
        ExprKind::Call { func, args } => var_at(*func, s) || vars_at(args@, s),
        ExprKind::Construct { fields, .. } => kw_vars_at(fields@, s),
        ExprKind::Update { value, fields } => var_at(*value, s) || kw_vars_at(fields@, s),
        ExprKind::Lambda { body, .. } => var_at(*body, s),
        ExprKind::Match { scrutinee, arms } => var_at(*scrutinee, s) || arm_vars_at(arms@, s),
        ExprKind::Block(items) => item_vars_at(items@, s),
        _ => false,
    }
}

pub open spec fn vars_at(es: Seq<Expr>, s: Span) -> bool
    decreases es, 1nat,
{
    es.len() > 0 && (vars_at(es.drop_last(), s) || var_at(es.last(), s))
}

pub open spec fn kw_vars_at(ks: Seq<KwArg>, s: Span) -> bool
    decreases ks, 1nat,
{
    ks.len() > 0 && (kw_vars_at(ks.drop_last(), s) || var_at(ks.last().value, s))
}

pub open spec fn arm_vars_at(arms: Seq<MatchArm>, s: Span) -> bool
    decreases arms, 1nat,
{
    arms.len() > 0 && (arm_vars_at(arms.drop_last(), s) || var_at(arms.last().body, s))
}

pub open spec fn item_var_at(it: BlockItem, s: Span) -> bool
    decreases it, 0nat,
{
    match it {
        BlockItem::Binding(d) => match d.node {
            DeclKind::Binding { value: Some(v), .. } => var_at(v, s),
            _ => false,
        },
        BlockItem::Expr(x) => var_at(x, s),
    }
}

pub open spec fn item_vars_at(items: Seq<BlockItem>, s: Span) -> bool
    decreases items, 1nat,
{
    items.len() > 0 && (item_vars_at(items.drop_last(), s) || item_var_at(items.last(), s))
}

/// Some occurrence of `os` stands at `s`.
pub open spec fn occ_at(os: Seq<Occ>, s: Span) -> bool {
    exists|j: int| 0 <= j < os.len() && (#[trigger] os[j]).span == s
}

proof fn lemma_occ_concat(a: Seq<Occ>, b: Seq<Occ>, s: Span)
    requires
        occ_at(a, s) || occ_at(b, s),
    ensures
        occ_at(a + b, s),
{
    if occ_at(a, s) {
        let j = choose|j: int| 0 <= j < a.len() && (#[trigger] a[j]).span == s;
        assert((a + b)[j] == a[j]);
    } else {
        let j = choose|j: int| 0 <= j < b.len() && (#[trigger] b[j]).span == s;
        assert((a + b)[a.len() + j] == b[j]);
    }
}

/// Each name of an expression gives an occurrence at its span, whatever
/// locals are in scope.
pub proof fn lemma_var_occ(e: Expr, sc: Seq<(Seq<char>, u32)>, n: u32, s: Span)
    requires
        var_at(e, s),
    ensures
        occ_at(expr_occs(e, sc, n).0, s),
    decreases e, 0nat,
{
    match e.node {
        ExprKind::Var(_) => {
            assert(expr_occs(e, sc, n).0[0].span == s);
        },
        ExprKind::Ctor(_) => {
            assert(expr_occs(e, sc, n).0[0].span == s);
        },
        ExprKind::Paren(x) => lemma_var_occ(*x, sc, n, s),
        ExprKind::UnaryOp { expr, .. } => lemma_var_occ(*expr, sc, n, s),
        ExprKind::Bang(x) => lemma_var_occ(*x, sc, n, s),
        ExprKind::Question(x) => lemma_var_occ(*x, sc, n, s),
        ExprKind::FieldAccess { receiver, .. } => lemma_var_occ(*receiver, sc, n, s),
        ExprKind::MethodCall { receiver, .. } => lemma_var_occ(*receiver, sc, n, s),
        ExprKind::BinOp { lhs, rhs, .. } => {
            let (o1, n1) = expr_occs(*lhs, sc, n);
            if var_at(*lhs, s) {
                lemma_var_occ(*lhs, sc, n, s);
            } else {
                lemma_var_occ(*rhs, sc, n1, s);
            }
            lemma_occ_concat(o1, expr_occs(*rhs, sc, n1).0, s);
        },
        ExprKind::List(items) => lemma_vars_occ(items@, sc, n, s),
        ExprKind::Call { func, args } => {
            let (o1, n1) = expr_occs(*func, sc, n);
            if var_at(*func, s) {
                lemma_var_occ(*func, sc, n, s);
            } else {
                lemma_vars_occ(args@, sc, n1, s);
            }
            lemma_occ_concat(o1, exprs_occs(args@, sc, n1).0, s);
        },
        ExprKind::Construct { ty_name, fields } => {
            lemma_kw_vars_occ(fields@, sc, n, s);
            let head = seq![Occ { span: e.span, name: ty_name@, lookup: crate::resolve::walker::Lookup::TypeOrCtor }];
            lemma_occ_concat(head, kwargs_occs(fields@, sc, n).0, s);
        },
        ExprKind::Update { value, fields } => {
            let (o1, n1) = expr_occs(*value, sc, n);
            if var_at(*value, s) {
                lemma_var_occ(*value, sc, n, s);
            } else {
                lemma_kw_vars_occ(fields@, sc, n1, s);
            }
            lemma_occ_concat(o1, kwargs_occs(fields@, sc, n1).0, s);
        },
        ExprKind::Lambda { params, body } => {
            let (o1, adds, n1) = crate::resolve::walker::pats_occs(params@, seq![], n);
            lemma_var_occ(*body, sc + adds, n1, s);
            lemma_occ_concat(o1, expr_occs(*body, sc + adds, n1).0, s);
        },
        ExprKind::Match { scrutinee, arms } => {
            let (o1, n1) = expr_occs(*scrutinee, sc, n);
            if var_at(*scrutinee, s) {
                lemma_var_occ(*scrutinee, sc, n, s);
            } else {
                lemma_arm_vars_occ(arms@, sc, n1, s);
            }
            lemma_occ_concat(o1, arms_occs(arms@, sc, n1).0, s);
        },
        ExprKind::Block(items) => lemma_item_vars_occ(items@, sc, n, s),
        _ => {},
    }
}

proof fn lemma_vars_occ(es: Seq<Expr>, sc: Seq<(Seq<char>, u32)>, n: u32, s: Span)
    requires
        vars_at(es, s),
    ensures
        occ_at(exprs_occs(es, sc, n).0, s),
    decreases es, 1nat,
{
    let (o1, n1) = exprs_occs(es.drop_last(), sc, n);
    if vars_at(es.drop_last(), s) {
        lemma_vars_occ(es.drop_last(), sc, n, s);
    } else {
        lemma_var_occ(es.last(), sc, n1, s);
    }
    lemma_occ_concat(o1, expr_occs(es.last(), sc, n1).0, s);
}

proof fn lemma_kw_vars_occ(ks: Seq<KwArg>, sc: Seq<(Seq<char>, u32)>, n: u32, s: Span)
    requires
        kw_vars_at(ks, s),
    ensures
        occ_at(kwargs_occs(ks, sc, n).0, s),
    decreases ks, 1nat,
{
    let (o1, n1) = kwargs_occs(ks.drop_last(), sc, n);
    if kw_vars_at(ks.drop_last(), s) {
        lemma_kw_vars_occ(ks.drop_last(), sc, n, s);
    } else {
        lemma_var_occ(ks.last().value, sc, n1, s);
    }
    lemma_occ_concat(o1, expr_occs(ks.last().value, sc, n1).0, s);
}

proof fn lemma_arm_vars_occ(arms: Seq<MatchArm>, sc: Seq<(Seq<char>, u32)>, n: u32, s: Span)
    requires
        arm_vars_at(arms, s),
    ensures
        occ_at(arms_occs(arms, sc, n).0, s),
    decreases arms, 1nat,
{
    let (o1, n1) = arms_occs(arms.drop_last(), sc, n);
    if arm_vars_at(arms.drop_last(), s) {
        lemma_arm_vars_occ(arms.drop_last(), sc, n, s);
    } else {
        let a = arms.last();
        let (p1, adds, m1) = crate::resolve::walker::pat_occs(a.pattern, seq![], n1);
        lemma_var_occ(a.body, sc + adds, m1, s);
        lemma_occ_concat(p1, expr_occs(a.body, sc + adds, m1).0, s);
    }
    lemma_occ_concat(o1, arm_occs(arms.last(), sc, n1).0, s);
}

proof fn lemma_item_vars_occ(items: Seq<BlockItem>, sc: Seq<(Seq<char>, u32)>, n: u32, s: Span)
    requires
        item_vars_at(items, s),
    ensures
        occ_at(items_occs(items, sc, n).0, s),
    decreases items, 1nat,
{
    let (o1, sc1, n1) = items_occs(items.drop_last(), sc, n);
    if item_vars_at(items.drop_last(), s) {
        lemma_item_vars_occ(items.drop_last(), sc, n, s);
    } else {
        assert(item_var_at(items.last(), s));
        match items.last() {
            BlockItem::Binding(d) => match d.node {
                DeclKind::Binding { name, value: Some(v), .. } => {
                    lemma_var_occ(v, sc1, n1, s);
                    let o = expr_occs(v, sc1, n1).0;
                    let j = choose|j: int| 0 <= j < o.len() && (#[trigger] o[j]).span == s;
                    let pushed = item_occs(items.last(), sc1, n1).0;
                    assert(pushed[j] == o[j]);
                },
                _ => {},
            },
            BlockItem::Expr(x) => lemma_var_occ(x, sc1, n1, s),
        }
    }
    lemma_occ_concat(o1, item_occs(items.last(), sc1, n1).0, s);
}

/// An occurrence is either recorded among the references or among the
/// faults.
proof fn lemma_recorded_or_fault(m: Map<Span, ResolvedName>, defs: Seq<DefInfo>, os: Seq<Occ>, j: int)
    requires
        0 <= j < os.len(),
    ensures
        refs_after(m, defs, os).contains_key(os[j].span) || occ_at(faults(defs, os), os[j].span),
    decreases os.len(),
{
    let last = os.len() - 1;
    if j == last {
        if resolution_of(defs, os.last()) is None {
            assert(faults(defs, os).last() == os.last());
        }
    } else {
        lemma_recorded_or_fault(m, defs, os.drop_last(), j);
        assert(os.drop_last()[j] == os[j]);
        let f0 = faults(defs, os.drop_last());
        if occ_at(f0, os[j].span) {
            let k = choose|k: int| 0 <= k < f0.len() && (#[trigger] f0[k]).span == os[j].span;
            assert(faults(defs, os)[k] == f0[k]);
        }
    }
}

proof fn lemma_decls_occ(ds: Seq<crate::ast::Decl>, j: int, s: Span)
    requires
        0 <= j < ds.len(),
        ds[j].node matches DeclKind::Binding { value: Some(v), .. } && var_at(v, s),
    ensures
        occ_at(decls_walk(ds).0, s),
    decreases ds.len(),
{
    let (o1, n1) = decls_walk(ds.drop_last());
    if j < ds.len() - 1 {
        assert(ds.drop_last()[j] == ds[j]);
        lemma_decls_occ(ds.drop_last(), j, s);
        lemma_occ_concat(o1, decl_occs(ds.last(), n1).0, s);
    } else {
        match ds.last().node {
            DeclKind::Binding { ty, value: Some(v), .. } => {
                lemma_var_occ(v, seq![], n1, s);
                lemma_occ_concat(
                    crate::resolve::walker::annot_occs(ty),
                    expr_occs(v, seq![], n1).0,
                    s,
                );
                lemma_occ_concat(o1, decl_occs(ds.last(), n1).0, s);
            },
            _ => {},
        }
    }
}

/// A name stands at `s` in the value of the declaration `d`.
pub open spec fn value_var_at(d: crate::ast::Decl, s: Span) -> bool {
    match d.node {
        DeclKind::Binding { value: Some(v), .. } => var_at(v, s),
        _ => false,
    }
}

/// Every variable and constructor name in the value of a top-level binding is looked up: the
/// resolution records a reference at its span, or a fault stands at its
/// span, which `resolve_file` reports as an error there.
pub proof fn every_variable_is_looked_up(file: File, j: int, s: Span)
    requires
        0 <= j < file.decls@.len(),
        value_var_at(file.decls@[j], s),
    ensures
        ({
            let defs = decls_defs(file.decls@, 0);
            let os = decls_occs(file.decls@);
            refs_after(Map::empty(), defs, os).contains_key(s) || occ_at(faults(defs, os), s)
        }),
{
    let defs = decls_defs(file.decls@, 0);
    let os = decls_occs(file.decls@);
    lemma_decls_occ(file.decls@, j, s);
    let k = choose|k: int| 0 <= k < os.len() && (#[trigger] os[k]).span == s;
    lemma_recorded_or_fault(Map::empty(), defs, os, k);
}

} // verus!
