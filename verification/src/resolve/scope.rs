use vstd::prelude::*;
use crate::ast::{Decl, DeclKind, File, TypeBody, TypeMember};
use crate::error::Error;
use crate::resolve::types::{DefId, DefInfo, DefKind, Resolution};
use crate::span::Span;

verus! {

/// The definition a declaration introduces: its name and kind.
pub open spec fn decl_def(d: Decl) -> Option<(String, DefKind)> {
    match d.node {
        DeclKind::Binding { name, .. } => Some((name, DefKind::Value)),
        DeclKind::TypeDecl { name, .. } => Some((name, DefKind::Type)),
        DeclKind::TraitDecl { name, .. } => Some((name, DefKind::Trait)),
        _ => None,
    }
}

/// The constructors of the variants among `ms`, of the type `ty` declared
/// at `span`, in order, numbered from `start`.
pub open spec fn variant_defs(ms: Seq<TypeMember>, ty: DefId, start: nat, span: Span) -> Seq<DefInfo>
    decreases ms.len(),
{
    if ms.len() == 0 {
        seq![]
    } else {
        let prev = variant_defs(ms.drop_last(), ty, start, span);
        match ms.last() {
            TypeMember::Variant { name, .. } => prev.push(
                DefInfo {
                    id: DefId((start + prev.len()) as u32),
                    name,
                    kind: DefKind::Ctor { of_type: ty },
                    span,
                },
            ),
            _ => prev,
        }
    }
}

/// The definitions of the declarations `ds`, in order, numbered from `base`:
/// each value, type and trait, and after a type the constructors of its
/// variants.
pub open spec fn decls_defs(ds: Seq<Decl>, base: nat) -> Seq<DefInfo>
    decreases ds.len(),
{
    if ds.len() == 0 {
        seq![]
    } else {
        let prev = decls_defs(ds.drop_last(), base);
        match decl_def(ds.last()) {
            Some((name, kind)) => {
                let id = DefId((base + prev.len()) as u32);
                let with = prev.push(DefInfo { id, name, kind, span: ds.last().span });
                match ds.last().node {
                    DeclKind::TypeDecl { body: TypeBody::Block(ms), .. } => with + variant_defs(
                        ms@,
                        id,
                        base + with.len(),
                        ds.last().span,
                    ),
                    _ => with,
                }
            },
            None => prev,
        }
    }
}

proof fn lemma_decls_defs_prefix(ds: Seq<Decl>, k: int, base: nat)
    requires
        0 <= k <= ds.len(),
    ensures
        decls_defs(ds.take(k), base).len() <= decls_defs(ds, base).len(),
    decreases ds.len(),
{
    if k < ds.len() {
        assert(ds.drop_last().take(k) =~= ds.take(k));
        lemma_decls_defs_prefix(ds.drop_last(), k, base);
    } else {
        assert(ds.take(k) =~= ds);
    }
}

/// Records every top-level value, type and trait of the file, in order,
/// and after each type the constructors of its variants, each numbered by
/// its position among the definitions.
pub fn collect_top_level(file: &File, res: &mut Resolution) -> (errors: Vec<Error>)
    requires
        old(res).defs@.len() + decls_defs(file.decls@, old(res).defs@.len()).len() < u32::MAX,
    ensures
        final(res).defs@ == old(res).defs@ + decls_defs(file.decls@, old(res).defs@.len()),
        final(res).refs@ == old(res).refs@,
        errors@.len() == 0,
{
    let errors: Vec<Error> = Vec::new();
    let ghost base = res.defs@.len();
    let mut i: usize = 0;
    while i < file.decls.len()
        invariant
            i <= file.decls@.len(),
            base == old(res).defs@.len(),
            base + decls_defs(file.decls@, base).len() < u32::MAX,
            res.defs@ == old(res).defs@ + decls_defs(file.decls@.take(i as int), base),
            res.refs@ == old(res).refs@,
        decreases file.decls@.len() - i,
    {
        proof {
            lemma_decls_defs_prefix(file.decls@, i + 1, base);
            assert(file.decls@.take(i + 1).drop_last() =~= file.decls@.take(i as int));
            assert(file.decls@.take(i + 1).last() == file.decls@[i as int]);
        }
        let ghost d0 = res.defs@;
        proof {
            assert(d0.subrange(base as int, d0.len() as int) =~= decls_defs(file.decls@.take(i as int), base));
            assert(d0.subrange(0, base as int) =~= old(res).defs@);
            assert(decls_defs(file.decls@.take(i + 1), base) == decl_defs_after(
                file.decls@[i as int],
                decls_defs(file.decls@.take(i as int), base),
                base,
            ));
        }
        collect_decl(&file.decls[i], res, Ghost(base));
        proof {
            assert(res.defs@ =~= old(res).defs@ + decls_defs(file.decls@.take(i + 1), base));
        }
        i = i + 1;
    }
    assert(file.decls@.take(file.decls@.len() as int) =~= file.decls@);
    errors
}

/// The definitions that one declaration adds after `prev`, numbered from
/// `base + prev.len()`.
pub open spec fn decl_defs_after(d: Decl, prev: Seq<DefInfo>, base: nat) -> Seq<DefInfo> {
    match decl_def(d) {
        Some((name, kind)) => {
            let id = DefId((base + prev.len()) as u32);
            let with = prev.push(DefInfo { id, name, kind, span: d.span });
            match d.node {
                DeclKind::TypeDecl { body: TypeBody::Block(ms), .. } => with + variant_defs(
                    ms@,
                    id,
                    base + with.len(),
                    d.span,
                ),
                _ => with,
            }
        },
        None => prev,
    }
}

fn collect_decl(decl: &Decl, res: &mut Resolution, Ghost(base): Ghost<nat>)
    requires
        old(res).defs@.len() >= base,
        base + decl_defs_after(*decl, old(res).defs@.subrange(base as int, old(res).defs@.len() as int), base).len() < u32::MAX,
    ensures
        final(res).defs@ == old(res).defs@.subrange(0, base as int) + decl_defs_after(
            *decl,
            old(res).defs@.subrange(base as int, old(res).defs@.len() as int),
            base,
        ),
        final(res).refs@ == old(res).refs@,
{
    let ghost prev = res.defs@.subrange(base as int, res.defs@.len() as int);
    let ghost d0 = res.defs@;
    proof { assert(d0 =~= d0.subrange(0, base as int) + prev); }
    match &decl.node {
        DeclKind::Binding { name, .. } => push_def(res, name.clone(), DefKind::Value, decl.span),
        DeclKind::TypeDecl { name, body, .. } => {
            let id = DefId(res.defs.len() as u32);
            push_def(res, name.clone(), DefKind::Type, decl.span);
            match body {
                TypeBody::Block(ms) => {
                    let ghost with = res.defs@;
                    let mut i: usize = 0;
                    while i < ms.len()
                        invariant
                            i <= ms@.len(),
                            with.len() == d0.len() + 1,
                            d0.len() >= base,
                            with.len() + variant_defs(ms@, id, with.len() as nat, decl.span).len() < u32::MAX,
                            id == DefId(d0.len() as u32),
                            res.defs@ == with + variant_defs(ms@.take(i as int), id, with.len() as nat, decl.span),
                            res.refs@ == old(res).refs@,
                        decreases ms@.len() - i,
                    {
                        proof {
                            assert(ms@.take(i + 1).drop_last() =~= ms@.take(i as int));
                            lemma_variant_defs_prefix(ms@, i + 1, id, with.len() as nat, decl.span);
                        }
                        match &ms[i] {
                            TypeMember::Variant { name: vn, .. } => {
                                push_def(res, vn.clone(), DefKind::Ctor { of_type: id }, decl.span);
                            },
                            _ => {},
                        }
                        proof {
                            assert(res.defs@ =~= with + variant_defs(ms@.take(i + 1), id, with.len() as nat, decl.span));
                        }
                        i = i + 1;
                    }
                    proof { assert(ms@.take(ms@.len() as int) =~= ms@); }
                },
                _ => {},
            }
        },
        DeclKind::TraitDecl { name, .. } => push_def(res, name.clone(), DefKind::Trait, decl.span),
        DeclKind::ImplDecl { .. } | DeclKind::Use { .. } => {},
    }
    proof {
        assert(res.defs@ =~= d0.subrange(0, base as int) + decl_defs_after(*decl, prev, base));
    }
}

proof fn lemma_variant_defs_prefix(ms: Seq<TypeMember>, k: int, ty: DefId, start: nat, span: Span)
    requires
        0 <= k <= ms.len(),
    ensures
        variant_defs(ms.take(k), ty, start, span).len() <= variant_defs(ms, ty, start, span).len(),
    decreases ms.len(),
{
    if k < ms.len() {
        assert(ms.drop_last().take(k) =~= ms.take(k));
        lemma_variant_defs_prefix(ms.drop_last(), k, ty, start, span);
    } else {
        assert(ms.take(k) =~= ms);
    }
}

/// Adds a definition numbered by its position.
pub fn push_def(res: &mut Resolution, name: String, kind: DefKind, span: Span)
    requires
        old(res).defs@.len() < u32::MAX,
    ensures
        final(res).defs@ == old(res).defs@.push(
            DefInfo { id: DefId(old(res).defs@.len() as u32), name, kind, span },
        ),
        final(res).refs@ == old(res).refs@,
{
    let id = DefId(res.defs.len() as u32);
    res.defs.push(DefInfo { id, name, kind, span });
}

} // verus!
