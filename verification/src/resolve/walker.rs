use vstd::prelude::*;
use crate::ast::{
    BlockItem, Decl, DeclKind, Expr, ExprKind, FieldPat, File, KwArg, MatchArm, Pattern, PatternKind,
    Type, TypeBody, TypeKind, TypeMember, VariantBody,
};
use crate::check::infer::{prim_named, prim_of_name};
use crate::error::{Error, ErrorKind};
use crate::resolve::types::{DefInfo, DefKind, LocalId, Resolution, ResolvedName};
use crate::span::Span;
use crate::text::str_eq;

verus! {

/// How a name occurrence is looked up.
pub enum Lookup {
    /// A lowercase name: a value.
    Var,
    /// An uppercase name in expression position: a constructor.
    Ctor,
    /// The type name of a construction: any definition.
    TypeOrCtor,
    /// A type name in an annotation: a type.
    Type,
    /// A use of the local in scope with this id.
    Local(LocalId),
    /// The place that binds a new local with this id.
    Bind(LocalId),
    /// A binding of a name that the same parameter list or pattern already
    /// binds: it binds a new local all the same, and is reported.
    Rebind(LocalId),
}

/// A name occurrence: where, what, and how it is looked up.
pub struct Occ {
    pub span: Span,
    pub name: Seq<char>,
    pub lookup: Lookup,
}

/// Whether definition `d` answers occurrence `o`.
pub open spec fn answers(d: DefInfo, o: Occ) -> bool {
    d.name@ == o.name && match o.lookup {
        Lookup::Var => d.kind is Value,
        Lookup::Ctor => d.kind is Ctor,
        Lookup::TypeOrCtor => true,
        Lookup::Type => d.kind is Type,
        _ => false,
    }
}

/// The index of the first definition that answers `o`, or -1.
pub open spec fn first_answer(defs: Seq<DefInfo>, o: Occ) -> int
    decreases defs.len(),
{
    if defs.len() == 0 {
        -1
    } else if first_answer(defs.drop_last(), o) >= 0 {
        first_answer(defs.drop_last(), o)
    } else if answers(defs.last(), o) {
        defs.len() - 1
    } else {
        -1
    }
}

pub proof fn lemma_first_answer(defs: Seq<DefInfo>, o: Occ)
    ensures
        -1 <= first_answer(defs, o) < defs.len(),
        first_answer(defs, o) >= 0 ==> answers(defs[first_answer(defs, o)], o),
        forall|i: int|
            0 <= i < defs.len() && (first_answer(defs, o) == -1 || i < first_answer(defs, o))
                ==> !answers(#[trigger] defs[i], o),
    decreases defs.len(),
{
    if defs.len() > 0 {
        let d = defs.drop_last();
        lemma_first_answer(d, o);
        assert forall|i: int|
            0 <= i < defs.len() && (first_answer(defs, o) == -1 || i < first_answer(defs, o))
                implies !answers(#[trigger] defs[i], o) by {
            if i < defs.len() - 1 {
                assert(defs[i] == d[i]);
            }
        }
    }
}

/// What occurrence `o` resolves to, if anything answers it.
pub open spec fn resolution_of(defs: Seq<DefInfo>, o: Occ) -> Option<ResolvedName> {
    let i = first_answer(defs, o);
    match o.lookup {
        Lookup::Local(id) => Some(ResolvedName::Local(id)),
        Lookup::Bind(id) => Some(ResolvedName::Local(id)),
        Lookup::Rebind(id) => Some(ResolvedName::Local(id)),
        _ => if i < 0 {
            None
        } else if defs[i].kind is Ctor {
            Some(ResolvedName::Ctor(defs[i].id))
        } else {
            Some(ResolvedName::TopLevel(defs[i].id))
        },
    }
}

/// The locals in scope, innermost last: each name with its id.
pub open spec fn scope_v(v: Seq<(String, u32)>) -> Seq<(Seq<char>, u32)> {
    v.map_values(|p: (String, u32)| (p.0@, p.1))
}

/// The id of the innermost local named `name` in `sc`.
pub open spec fn local_of(sc: Seq<(Seq<char>, u32)>, name: Seq<char>) -> Option<u32>
    decreases sc.len(),
{
    if sc.len() == 0 {
        None
    } else if sc.last().0 == name {
        Some(sc.last().1)
    } else {
        local_of(sc.drop_last(), name)
    }
}

/// The id after `n`; ids stop growing at the largest `u32`.
pub open spec fn bump(n: u32) -> u32 {
    if n < u32::MAX {
        (n + 1) as u32
    } else {
        n
    }
}

/// The binding occurrences of a pattern, the locals `adds` bound so far by
/// its parameter list or arm extended with those it binds, and the next id.
pub open spec fn pat_occs(p: Pattern, adds: Seq<(Seq<char>, u32)>, n: u32) -> (Seq<Occ>, Seq<(Seq<char>, u32)>, u32)
    decreases p, 0nat,
{
    match p.node {
        PatternKind::Var(name) => {
            let lookup = if local_of(adds, name@) is Some {
                Lookup::Rebind(LocalId(n))
            } else {
                Lookup::Bind(LocalId(n))
            };
            (seq![Occ { span: p.span, name: name@, lookup }], adds.push((name@, n)), bump(n))
        },
        PatternKind::Ctor { name, args } => {
            let (o, a, n2) = pats_occs(args@, adds, n);
            (seq![Occ { span: p.span, name: name@, lookup: Lookup::Ctor }] + o, a, n2)
        },
        PatternKind::Tuple(ps) => pats_occs(ps@, adds, n),
        PatternKind::List(ps) => pats_occs(ps@, adds, n),
        PatternKind::Record { ty_name, fields } => {
            let (o, a, n2) = fieldpats_occs(fields@, adds, n);
            (seq![Occ { span: p.span, name: ty_name@, lookup: Lookup::TypeOrCtor }] + o, a, n2)
        },
        _ => (seq![], adds, n),
    }
}

pub open spec fn pats_occs(s: Seq<Pattern>, adds: Seq<(Seq<char>, u32)>, n: u32) -> (Seq<Occ>, Seq<(Seq<char>, u32)>, u32)
    decreases s, 1nat,
{
    if s.len() == 0 {
        (seq![], adds, n)
    } else {
        let (o1, a1, n1) = pats_occs(s.drop_last(), adds, n);
        let (o2, a2, n2) = pat_occs(s.last(), a1, n1);
        (o1 + o2, a2, n2)
    }
}

pub open spec fn fieldpats_occs(s: Seq<FieldPat>, adds: Seq<(Seq<char>, u32)>, n: u32) -> (Seq<Occ>, Seq<(Seq<char>, u32)>, u32)
    decreases s, 1nat,
{
    if s.len() == 0 {
        (seq![], adds, n)
    } else {
        let (o1, a1, n1) = fieldpats_occs(s.drop_last(), adds, n);
        let (o2, a2, n2) = pat_occs(s.last().pattern, a1, n1);
        (o1 + o2, a2, n2)
    }
}

/// The name occurrences of an expression that the walker meets, in order,
/// with the locals `sc` in scope and `n` the next local id; and the next id
/// after it. A lambda's parameters bind locals for its body, an arm's
/// pattern for the arm, a block's bindings for the lines after them.
pub open spec fn expr_occs(e: Expr, sc: Seq<(Seq<char>, u32)>, n: u32) -> (Seq<Occ>, u32)
    decreases e, 0nat,
{
    match e.node {
        ExprKind::Var(name) => match local_of(sc, name@) {
            Some(id) => (seq![Occ { span: e.span, name: name@, lookup: Lookup::Local(LocalId(id)) }], n),
            None => (seq![Occ { span: e.span, name: name@, lookup: Lookup::Var }], n),
        },
        ExprKind::Ctor(name) => (seq![Occ { span: e.span, name: name@, lookup: Lookup::Ctor }], n),
        ExprKind::Paren(inner) => expr_occs(*inner, sc, n),
        ExprKind::BinOp { lhs, rhs, .. } => {
            let (o1, n1) = expr_occs(*lhs, sc, n);
            let (o2, n2) = expr_occs(*rhs, sc, n1);
            (o1 + o2, n2)
        },
        ExprKind::UnaryOp { expr, .. } => expr_occs(*expr, sc, n),
        ExprKind::Bang(inner) => expr_occs(*inner, sc, n),
        ExprKind::Question(inner) => expr_occs(*inner, sc, n),
        ExprKind::FieldAccess { receiver, .. } => expr_occs(*receiver, sc, n),
        ExprKind::MethodCall { receiver, .. } => expr_occs(*receiver, sc, n),
        ExprKind::List(items) => exprs_occs(items@, sc, n),
        ExprKind::Call { func, args } => {
            let (o1, n1) = expr_occs(*func, sc, n);
            let (o2, n2) = exprs_occs(args@, sc, n1);
            (o1 + o2, n2)
        },
        ExprKind::Construct { ty_name, fields } => {
            let (o2, n2) = kwargs_occs(fields@, sc, n);
            (seq![Occ { span: e.span, name: ty_name@, lookup: Lookup::TypeOrCtor }] + o2, n2)
        },
        ExprKind::Update { value, fields } => {
            let (o1, n1) = expr_occs(*value, sc, n);
            let (o2, n2) = kwargs_occs(fields@, sc, n1);
            (o1 + o2, n2)
        },
        ExprKind::Lambda { params, body } => {
            let (o1, adds, n1) = pats_occs(params@, seq![], n);
            let (o2, n2) = expr_occs(*body, sc + adds, n1);
            (o1 + o2, n2)
        },
        ExprKind::Match { scrutinee, arms } => {
            let (o1, n1) = expr_occs(*scrutinee, sc, n);
            let (o2, n2) = arms_occs(arms@, sc, n1);
            (o1 + o2, n2)
        },
        ExprKind::Block(items) => {
            let (o, _, n1) = items_occs(items@, sc, n);
            (o, n1)
        },
        _ => (seq![], n),
    }
}

pub open spec fn exprs_occs(s: Seq<Expr>, sc: Seq<(Seq<char>, u32)>, n: u32) -> (Seq<Occ>, u32)
    decreases s, 1nat,
{
    if s.len() == 0 {
        (seq![], n)
    } else {
        let (o1, n1) = exprs_occs(s.drop_last(), sc, n);
        let (o2, n2) = expr_occs(s.last(), sc, n1);
        (o1 + o2, n2)
    }
}

pub open spec fn kwargs_occs(s: Seq<KwArg>, sc: Seq<(Seq<char>, u32)>, n: u32) -> (Seq<Occ>, u32)
    decreases s, 1nat,
{
    if s.len() == 0 {
        (seq![], n)
    } else {
        let (o1, n1) = kwargs_occs(s.drop_last(), sc, n);
        let (o2, n2) = expr_occs(s.last().value, sc, n1);
        (o1 + o2, n2)
    }
}

/// An arm: its pattern binds locals for its body.
pub open spec fn arm_occs(a: MatchArm, sc: Seq<(Seq<char>, u32)>, n: u32) -> (Seq<Occ>, u32)
    decreases a, 0nat,
{
    let (o1, adds, n1) = pat_occs(a.pattern, seq![], n);
    let (o2, n2) = expr_occs(a.body, sc + adds, n1);
    (o1 + o2, n2)
}

pub open spec fn arms_occs(s: Seq<MatchArm>, sc: Seq<(Seq<char>, u32)>, n: u32) -> (Seq<Occ>, u32)
    decreases s, 1nat,
{
    if s.len() == 0 {
        (seq![], n)
    } else {
        let (o1, n1) = arms_occs(s.drop_last(), sc, n);
        let (o2, n2) = arm_occs(s.last(), sc, n1);
        (o1 + o2, n2)
    }
}

/// A line of a block: a binding's value sees the locals before it, and its
/// name, bound at the binding's span, is in scope for the lines after it.
pub open spec fn item_occs(it: BlockItem, sc: Seq<(Seq<char>, u32)>, n: u32) -> (Seq<Occ>, Seq<(Seq<char>, u32)>, u32)
    decreases it, 0nat,
{
    match it {
        BlockItem::Binding(d) => match d.node {
            DeclKind::Binding { name, value: Some(v), .. } => {
                let (o1, n1) = expr_occs(v, sc, n);
                (
                    o1.push(Occ { span: d.span, name: name@, lookup: Lookup::Bind(LocalId(n1)) }),
                    sc.push((name@, n1)),
                    bump(n1),
                )
            },
            _ => (seq![], sc, n),
        },
        BlockItem::Expr(x) => {
            let (o1, n1) = expr_occs(x, sc, n);
            (o1, sc, n1)
        },
    }
}

pub open spec fn items_occs(s: Seq<BlockItem>, sc: Seq<(Seq<char>, u32)>, n: u32) -> (Seq<Occ>, Seq<(Seq<char>, u32)>, u32)
    decreases s, 1nat,
{
    if s.len() == 0 {
        (seq![], sc, n)
    } else {
        let (o1, sc1, n1) = items_occs(s.drop_last(), sc, n);
        let (o2, sc2, n2) = item_occs(s.last(), sc1, n1);
        (o1 + o2, sc2, n2)
    }
}

/// The type names of an annotation that need a definition: all but the
/// primitive types and the type variables.
pub open spec fn type_occs(t: Type) -> Seq<Occ>
    decreases t, 0nat,
{
    match t.node {
        TypeKind::Named { name, args } => (if prim_named(name@) is Some {
            Seq::<Occ>::empty()
        } else {
            seq![Occ { span: t.span, name: name@, lookup: Lookup::Type }]
        }) + types_occs(args@),
        TypeKind::Function { params, result, .. } => types_occs(params@) + type_occs(*result),
        TypeKind::Tuple(ts) => types_occs(ts@),
        TypeKind::Var(_) => seq![],
    }
}

pub open spec fn types_occs(s: Seq<Type>) -> Seq<Occ>
    decreases s, 1nat,
{
    if s.len() == 0 {
        seq![]
    } else {
        types_occs(s.drop_last()) + type_occs(s.last())
    }
}

/// The type names of the fields among `ms`.
pub open spec fn field_types_occs(ms: Seq<TypeMember>) -> Seq<Occ>
    decreases ms.len(),
{
    if ms.len() == 0 {
        seq![]
    } else {
        field_types_occs(ms.drop_last()) + match ms.last() {
            TypeMember::Field { ty, .. } => type_occs(ty),
            _ => seq![],
        }
    }
}

/// A member of a type: the type names of a field or a variant's payload;
/// a method binds `self` at its span for its value.
pub open spec fn member_occs(m: TypeMember, n: u32) -> (Seq<Occ>, u32) {
    match m {
        TypeMember::Field { ty, .. } => (type_occs(ty), n),
        TypeMember::Variant { body, .. } => match body {
            VariantBody::Single(t) => (type_occs(t), n),
            VariantBody::Fields(ms) => (field_types_occs(ms@), n),
            VariantBody::Bare => (seq![], n),
        },
        TypeMember::Method(d) => match d.node {
            DeclKind::Binding { value: Some(v), .. } => {
                let (o1, n1) = expr_occs(v, seq![("self"@, n)], bump(n));
                (seq![Occ { span: d.span, name: "self"@, lookup: Lookup::Bind(LocalId(n)) }] + o1, n1)
            },
            _ => (seq![], n),
        },
        _ => (seq![], n),
    }
}

pub open spec fn members_occs(s: Seq<TypeMember>, n: u32) -> (Seq<Occ>, u32)
    decreases s.len(),
{
    if s.len() == 0 {
        (seq![], n)
    } else {
        let (o1, n1) = members_occs(s.drop_last(), n);
        let (o2, n2) = member_occs(s.last(), n1);
        (o1 + o2, n2)
    }
}

/// The type names of a binding's annotation, where it has one.
pub open spec fn annot_occs(ty: Option<Type>) -> Seq<Occ> {
    match ty {
        Some(t) => type_occs(t),
        None => seq![],
    }
}

/// A declaration: a binding's annotation and value, a newtype's type, or the
/// members of a type.
pub open spec fn decl_occs(d: Decl, n: u32) -> (Seq<Occ>, u32) {
    match d.node {
        DeclKind::Binding { ty, value, .. } => {
            let to = annot_occs(ty);
            match value {
                Some(v) => {
                    let (o, n2) = expr_occs(v, seq![], n);
                    (to + o, n2)
                },
                None => (to, n),
            }
        },
        DeclKind::TypeDecl { body: TypeBody::Newtype(t), .. } => (type_occs(t), n),
        DeclKind::TypeDecl { body: TypeBody::Block(ms), .. } => members_occs(ms@, n),
        _ => (seq![], n),
    }
}

/// The occurrences of the declarations, and the next local id after them.
pub open spec fn decls_walk(s: Seq<Decl>) -> (Seq<Occ>, u32)
    decreases s.len(),
{
    if s.len() == 0 {
        (seq![], 0)
    } else {
        let (o1, n1) = decls_walk(s.drop_last());
        let (o2, n2) = decl_occs(s.last(), n1);
        (o1 + o2, n2)
    }
}

/// The occurrences of the declarations' values and methods, in order.
pub open spec fn decls_occs(s: Seq<Decl>) -> Seq<Occ> {
    decls_walk(s).0
}

/// The references after resolving the occurrences `os` in order.
pub open spec fn refs_after(
    m: Map<Span, ResolvedName>,
    defs: Seq<DefInfo>,
    os: Seq<Occ>,
) -> Map<Span, ResolvedName>
    decreases os.len(),
{
    if os.len() == 0 {
        m
    } else {
        let m1 = refs_after(m, defs, os.drop_last());
        match resolution_of(defs, os.last()) {
            Some(r) => m1.insert(os.last().span, r),
            None => m1,
        }
    }
}

/// The occurrences among `os` that are reported, in order: those that
/// nothing answers, and the repeated bindings.
pub open spec fn faults(defs: Seq<DefInfo>, os: Seq<Occ>) -> Seq<Occ>
    decreases os.len(),
{
    if os.len() == 0 {
        seq![]
    } else {
        let u = faults(defs, os.drop_last());
        if resolution_of(defs, os.last()) is None || os.last().lookup is Rebind {
            u.push(os.last())
        } else {
            u
        }
    }
}

/// `e` reports occurrence `o`: a repeated binding, or a name that nothing
/// answers.
pub open spec fn reports(e: Error, o: Occ) -> bool {
    &&& e.span == o.span
    &&& if o.lookup is Rebind {
        e.kind matches ErrorKind::DuplicateLocal { name } && name@ == o.name
    } else {
        e.kind matches ErrorKind::Unresolved { name } && name@ == o.name
    }
}

/// `errs` is `old` followed by one report per occurrence of `os`.
pub open spec fn reported(errs: Seq<Error>, old: Seq<Error>, os: Seq<Occ>) -> bool {
    &&& errs.len() == old.len() + os.len()
    &&& errs.take(old.len() as int) == old
    &&& forall|j: int| 0 <= j < os.len() ==> reports(#[trigger] errs[old.len() + j], os[j])
}

proof fn lemma_reported_concat(
    e1: Seq<Error>,
    e2: Seq<Error>,
    e3: Seq<Error>,
    a: Seq<Occ>,
    b: Seq<Occ>,
)
    requires
        reported(e2, e1, a),
        reported(e3, e2, b),
    ensures
        reported(e3, e1, a + b),
{
    assert(e3.take(e1.len() as int) =~= e2.take(e1.len() as int));
    assert forall|j: int| 0 <= j < (a + b).len() implies reports(
        #[trigger] e3[e1.len() + j],
        (a + b)[j],
    ) by {
        if j < a.len() {
            assert(e3[e1.len() + j] == e2[e1.len() + j]);
        } else {
            assert(e3[e2.len() + (j - a.len())] == e3[e1.len() + j]);
        }
    }
}

proof fn lemma_reported_refl(errs: Seq<Error>)
    ensures
        reported(errs, errs, seq![]),
{
    assert(errs.take(errs.len() as int) =~= errs);
}

proof fn lemma_after_concat(m: Map<Span, ResolvedName>, defs: Seq<DefInfo>, a: Seq<Occ>, b: Seq<Occ>)
    ensures
        refs_after(m, defs, a + b) == refs_after(refs_after(m, defs, a), defs, b),
        faults(defs, a + b) == faults(defs, a) + faults(defs, b),
    decreases b.len(),
{
    if b.len() == 0 {
        assert(a + b =~= a);
        assert(faults(defs, a) + faults(defs, b) =~= faults(defs, a));
    } else {
        lemma_after_concat(m, defs, a, b.drop_last());
        assert((a + b).drop_last() =~= a + b.drop_last());
        assert((a + b).last() == b.last());
        let u = faults(defs, a) + faults(defs, b.drop_last());
        assert(u.push(b.last()) =~= faults(defs, a) + faults(defs, b.drop_last()).push(
            b.last(),
        ));
    }
}

/// The facts for a single occurrence.
proof fn one_occ(r0: Map<Span, ResolvedName>, defs: Seq<DefInfo>, e0: Seq<Error>, o: Occ)
    ensures
        refs_after(r0, defs, seq![o]) == match resolution_of(defs, o) {
            Some(r) => r0.insert(o.span, r),
            None => r0,
        },
        faults(defs, seq![o]) == if resolution_of(defs, o) is None || o.lookup is Rebind {
            seq![o]
        } else {
            Seq::<Occ>::empty()
        },
{
    assert(seq![o].drop_last() =~= Seq::<Occ>::empty());
    assert(Seq::<Occ>::empty().push(o) =~= seq![o]);
    assert(seq![o].last() == o);
    assert(refs_after(r0, defs, Seq::<Occ>::empty()) == r0);
    assert(faults(defs, Seq::<Occ>::empty()) == Seq::<Occ>::empty());
    assert(refs_after(r0, defs, seq![o].drop_last()) == r0);
    assert(faults(defs, seq![o].drop_last()) == Seq::<Occ>::empty());
}

/// The id of the innermost local named `name` among `scope[from..]`.
fn find_local(scope: &Vec<(String, u32)>, from: usize, name: &str) -> (r: Option<u32>)
    requires
        from <= scope@.len(),
    ensures
        r == local_of(scope_v(scope@).subrange(from as int, scope@.len() as int), name@),
{
    let mut j = scope.len();
    while j > from
        invariant
            from <= j <= scope@.len(),
            local_of(scope_v(scope@).subrange(from as int, scope@.len() as int), name@) == local_of(
                scope_v(scope@).subrange(from as int, j as int),
                name@,
            ),
        decreases j,
    {
        let ghost sub = scope_v(scope@).subrange(from as int, j as int);
        assert(sub.drop_last() =~= scope_v(scope@).subrange(from as int, j - 1));
        assert(sub.last() == (scope@[j - 1].0@, scope@[j - 1].1));
        if str_eq(scope[j - 1].0.as_str(), name) {
            return Some(scope[j - 1].1);
        }
        j = j - 1;
    }
    assert(scope_v(scope@).subrange(from as int, from as int) =~= Seq::<(Seq<char>, u32)>::empty());
    None
}

fn next_id(n: u32) -> (r: u32)
    ensures
        r == bump(n),
{
    if n < u32::MAX {
        n + 1
    } else {
        n
    }
}

/// Records a binding of a local at `span`, reporting it when `dup`.
fn bind_local(name: &String, span: Span, id: u32, dup: bool, res: &mut Resolution, errors: &mut Vec<Error>)
    ensures
        ({
            let o = Occ {
                span,
                name: name@,
                lookup: if dup { Lookup::Rebind(LocalId(id)) } else { Lookup::Bind(LocalId(id)) },
            };
            &&& final(res).defs@ == old(res).defs@
            &&& final(res).refs@ == refs_after(old(res).refs@, old(res).defs@, seq![o])
            &&& reported(final(errors)@, old(errors)@, faults(old(res).defs@, seq![o]))
        }),
{
    let ghost o = Occ {
        span,
        name: name@,
        lookup: if dup { Lookup::Rebind(LocalId(id)) } else { Lookup::Bind(LocalId(id)) },
    };
    let ghost e0 = errors@;
    proof { one_occ(res.refs@, res.defs@, errors@, o); }
    res.refs.insert(span, ResolvedName::Local(LocalId(id)));
    if dup {
        let n = name.clone();
        errors.push(Error { span, kind: ErrorKind::DuplicateLocal { name: n } });
        proof {
            assert(errors@.drop_last() =~= e0);
            assert(o.lookup is Rebind);
            assert(reports(errors@.last(), o));
        }
    }
    proof { report_one(e0, errors@, o, dup); }
}

/// Records a use of the local with id `id` at `span`.
fn use_local(name: &String, span: Span, id: u32, res: &mut Resolution, errors: &Vec<Error>)
    ensures
        ({
            let o = Occ { span, name: name@, lookup: Lookup::Local(LocalId(id)) };
            &&& final(res).defs@ == old(res).defs@
            &&& final(res).refs@ == refs_after(old(res).refs@, old(res).defs@, seq![o])
            &&& reported(errors@, errors@, faults(old(res).defs@, seq![o]))
        }),
{
    let ghost o = Occ { span, name: name@, lookup: Lookup::Local(LocalId(id)) };
    proof {
        one_occ(res.refs@, res.defs@, errors@, o);
        report_one(errors@, errors@, o, false);
    }
    res.refs.insert(span, ResolvedName::Local(LocalId(id)));
}

/// Resolves every name the file's values and methods use.
pub fn walk_file(file: &File, res: &mut Resolution, errors: &mut Vec<Error>)
    ensures
        final(res).defs@ == old(res).defs@,
        final(res).refs@ == refs_after(old(res).refs@, old(res).defs@, decls_occs(file.decls@)),
        reported(final(errors)@, old(errors)@, faults(old(res).defs@, decls_occs(file.decls@))),
{
    let ghost defs = res.defs@;
    proof { lemma_reported_refl(errors@); }
    let mut next: u32 = 0;
    let mut i: usize = 0;
    while i < file.decls.len()
        invariant
            i <= file.decls@.len(),
            res.defs@ == defs,
            defs == old(res).defs@,
            next == decls_walk(file.decls@.take(i as int)).1,
            res.refs@ == refs_after(old(res).refs@, defs, decls_walk(file.decls@.take(i as int)).0),
            reported(errors@, old(errors)@, faults(defs, decls_walk(file.decls@.take(i as int)).0)),
        decreases file.decls@.len() - i,
    {
        let ghost e0 = errors@;
        let ghost prev = decls_walk(file.decls@.take(i as int)).0;
        let ghost n0 = next;
        walk_decl(&file.decls[i], &mut next, res, errors);
        proof {
            let here = decl_occs(file.decls@[i as int], n0).0;
            assert(file.decls@.take(i + 1).drop_last() =~= file.decls@.take(i as int));
            lemma_after_concat(old(res).refs@, defs, prev, here);
            lemma_reported_concat(old(errors)@, e0, errors@, faults(defs, prev), faults(defs, here));
        }
        i = i + 1;
    }
    assert(file.decls@.take(file.decls@.len() as int) =~= file.decls@);
}

fn walk_decl(decl: &Decl, next: &mut u32, res: &mut Resolution, errors: &mut Vec<Error>)
    ensures
        final(res).defs@ == old(res).defs@,
        ({
            let (os, n2) = decl_occs(*decl, *old(next));
            &&& final(res).refs@ == refs_after(old(res).refs@, old(res).defs@, os)
            &&& reported(final(errors)@, old(errors)@, faults(old(res).defs@, os))
            &&& *final(next) == n2
        }),
{
    match &decl.node {
        DeclKind::Binding { ty, value, .. } => {
            let ghost defs = res.defs@;
            let ghost r0 = res.refs@;
            let ghost e0 = errors@;
            let ghost to = annot_occs(*ty);
            match ty {
                Some(t) => walk_type(t, res, errors),
                None => {
                    proof { lemma_reported_refl(errors@); }
                },
            }
            match value {
                Some(v) => {
                    let ghost e1 = errors@;
                    let mut scope: Vec<(String, u32)> = Vec::new();
                    proof { assert(scope_v(scope@) =~= Seq::<(Seq<char>, u32)>::empty()); }
                    let ghost n0 = *next;
                    walk_expr(v, &mut scope, next, res, errors);
                    proof {
                        let body = expr_occs(*v, seq![], n0).0;
                        lemma_after_concat(r0, defs, to, body);
                        lemma_reported_concat(e0, e1, errors@, faults(defs, to), faults(defs, body));
                    }
                },
                None => {},
            }
        },
        DeclKind::TypeDecl { body: TypeBody::Newtype(t), .. } => {
            walk_type(t, res, errors);
        },
        DeclKind::TypeDecl { body: TypeBody::Block(ms), .. } => {
            walk_members(ms, next, res, errors);
        },
        _ => {
            proof { lemma_reported_refl(errors@); }
        },
    }
}

fn walk_members(ms: &Vec<TypeMember>, next: &mut u32, res: &mut Resolution, errors: &mut Vec<Error>)
    ensures
        final(res).defs@ == old(res).defs@,
        ({
            let (os, n2) = members_occs(ms@, *old(next));
            &&& final(res).refs@ == refs_after(old(res).refs@, old(res).defs@, os)
            &&& reported(final(errors)@, old(errors)@, faults(old(res).defs@, os))
            &&& *final(next) == n2
        }),
{
    let ghost defs = res.defs@;
    proof { lemma_reported_refl(errors@); }
    let mut i: usize = 0;
    while i < ms.len()
        invariant
            i <= ms@.len(),
            res.defs@ == defs,
            defs == old(res).defs@,
            *next == members_occs(ms@.take(i as int), *old(next)).1,
            res.refs@ == refs_after(old(res).refs@, defs, members_occs(ms@.take(i as int), *old(next)).0),
            reported(errors@, old(errors)@, faults(defs, members_occs(ms@.take(i as int), *old(next)).0)),
        decreases ms@.len() - i,
    {
        let ghost e0 = errors@;
        let ghost r0 = res.refs@;
        let ghost prev = members_occs(ms@.take(i as int), *old(next)).0;
        let ghost n0 = *next;
        proof { assert(ms@.take(i + 1).drop_last() =~= ms@.take(i as int)); }
        match &ms[i] {
            TypeMember::Method(d) => match &d.node {
                DeclKind::Binding { value: Some(v), .. } => {
                    let mut me = String::new();
                    crate::text::push_str(&mut me, "self");
                    proof { assert(me@ =~= "self"@); }
                    let id = *next;
                    bind_local(&me, d.span, id, false, res, errors);
                    let ghost e1 = errors@;
                    let ghost r1 = res.refs@;
                    let mut scope: Vec<(String, u32)> = Vec::new();
                    scope.push((me, id));
                    proof { assert(scope_v(scope@) =~= seq![("self"@, id)]); }
                    *next = next_id(id);
                    walk_expr(v, &mut scope, next, res, errors);
                    proof {
                        let o = Occ { span: d.span, name: "self"@, lookup: Lookup::Bind(LocalId(id)) };
                        let body = expr_occs(*v, seq![("self"@, id)], bump(id)).0;
                        lemma_after_concat(r0, defs, seq![o], body);
                        lemma_reported_concat(e0, e1, errors@, faults(defs, seq![o]), faults(defs, body));
                    }
                },
                _ => {
                    proof { lemma_reported_refl(errors@); }
                },
            },
            TypeMember::Field { ty, .. } => walk_type(ty, res, errors),
            TypeMember::Variant { body, .. } => match body {
                VariantBody::Single(t) => walk_type(t, res, errors),
                VariantBody::Fields(fs) => walk_field_types(fs, res, errors),
                VariantBody::Bare => {
                    proof { lemma_reported_refl(errors@); }
                },
            },
        }
        proof {
            let here = member_occs(ms@[i as int], n0).0;
            lemma_after_concat(old(res).refs@, defs, prev, here);
            lemma_reported_concat(old(errors)@, e0, errors@, faults(defs, prev), faults(defs, here));
        }
        i = i + 1;
    }
    assert(ms@.take(ms@.len() as int) =~= ms@);
}

/// Resolves the type names of an annotation.
fn walk_type(t: &Type, res: &mut Resolution, errors: &mut Vec<Error>)
    ensures
        final(res).defs@ == old(res).defs@,
        final(res).refs@ == refs_after(old(res).refs@, old(res).defs@, type_occs(*t)),
        reported(final(errors)@, old(errors)@, faults(old(res).defs@, type_occs(*t))),
    decreases t, 0nat,
{
    let ghost defs = res.defs@;
    let ghost r0 = res.refs@;
    let ghost e0 = errors@;
    match &t.node {
        TypeKind::Named { name, args } => {
            let ghost o = Occ { span: t.span, name: name@, lookup: Lookup::Type };
            let ghost head: Seq<Occ> = if prim_named(name@) is Some {
                Seq::<Occ>::empty()
            } else {
                seq![o]
            };
            if prim_of_name(name.as_str()).is_none() {
                resolve_occ(name.as_str(), t.span, Lookup::Type, res, errors);
                proof {
                    one_occ(r0, defs, e0, o);
                    report_one(e0, errors@, o, resolution_of(defs, o) is None);
                }
            } else {
                proof {
                    lemma_reported_refl(errors@);
                    assert(refs_after(r0, defs, head) == r0);
                }
            }
            let ghost e1 = errors@;
            walk_types(args, res, errors);
            proof {
                lemma_after_concat(r0, defs, head, types_occs(args@));
                lemma_reported_concat(e0, e1, errors@, faults(defs, head), faults(defs, types_occs(args@)));
            }
        },
        TypeKind::Function { params, result, .. } => {
            walk_types(params, res, errors);
            let ghost e1 = errors@;
            walk_type(result, res, errors);
            proof {
                lemma_after_concat(r0, defs, types_occs(params@), type_occs(**result));
                lemma_reported_concat(e0, e1, errors@, faults(defs, types_occs(params@)), faults(defs, type_occs(**result)));
            }
        },
        TypeKind::Tuple(ts) => walk_types(ts, res, errors),
        TypeKind::Var(_) => {
            proof { lemma_reported_refl(errors@); }
        },
    }
}

fn walk_types(ts: &Vec<Type>, res: &mut Resolution, errors: &mut Vec<Error>)
    ensures
        final(res).defs@ == old(res).defs@,
        final(res).refs@ == refs_after(old(res).refs@, old(res).defs@, types_occs(ts@)),
        reported(final(errors)@, old(errors)@, faults(old(res).defs@, types_occs(ts@))),
    decreases ts@, 1nat,
{
    let ghost defs = res.defs@;
    proof { lemma_reported_refl(errors@); }
    let mut i: usize = 0;
    while i < ts.len()
        invariant
            i <= ts@.len(),
            res.defs@ == defs,
            defs == old(res).defs@,
            res.refs@ == refs_after(old(res).refs@, defs, types_occs(ts@.take(i as int))),
            reported(errors@, old(errors)@, faults(defs, types_occs(ts@.take(i as int)))),
        decreases ts@.len() - i,
    {
        let ghost e0 = errors@;
        let ghost prev = types_occs(ts@.take(i as int));
        proof { assert(ts@.take(i + 1).drop_last() =~= ts@.take(i as int)); }
        walk_type(&ts[i], res, errors);
        proof {
            let here = type_occs(ts@[i as int]);
            lemma_after_concat(old(res).refs@, defs, prev, here);
            lemma_reported_concat(old(errors)@, e0, errors@, faults(defs, prev), faults(defs, here));
        }
        i = i + 1;
    }
    assert(ts@.take(ts@.len() as int) =~= ts@);
}

/// Resolves the type names of the fields among `ms`.
fn walk_field_types(ms: &Vec<TypeMember>, res: &mut Resolution, errors: &mut Vec<Error>)
    ensures
        final(res).defs@ == old(res).defs@,
        final(res).refs@ == refs_after(old(res).refs@, old(res).defs@, field_types_occs(ms@)),
        reported(final(errors)@, old(errors)@, faults(old(res).defs@, field_types_occs(ms@))),
{
    let ghost defs = res.defs@;
    proof { lemma_reported_refl(errors@); }
    let mut i: usize = 0;
    while i < ms.len()
        invariant
            i <= ms@.len(),
            res.defs@ == defs,
            defs == old(res).defs@,
            res.refs@ == refs_after(old(res).refs@, defs, field_types_occs(ms@.take(i as int))),
            reported(errors@, old(errors)@, faults(defs, field_types_occs(ms@.take(i as int)))),
        decreases ms@.len() - i,
    {
        let ghost e0 = errors@;
        let ghost prev = field_types_occs(ms@.take(i as int));
        proof { assert(ms@.take(i + 1).drop_last() =~= ms@.take(i as int)); }
        match &ms[i] {
            TypeMember::Field { ty, .. } => walk_type(ty, res, errors),
            _ => {
                proof { lemma_reported_refl(errors@); }
            },
        }
        proof {
            let here = match ms@[i as int] {
                TypeMember::Field { ty, .. } => type_occs(ty),
                _ => Seq::<Occ>::empty(),
            };
            lemma_after_concat(old(res).refs@, defs, prev, here);
            lemma_reported_concat(old(errors)@, e0, errors@, faults(defs, prev), faults(defs, here));
        }
        i = i + 1;
    }
    assert(ms@.take(ms@.len() as int) =~= ms@);
}

/// Binds the locals of a pattern; `scope[k..]` holds those its parameter
/// list or arm bound before it.
fn walk_pattern(
    p: &Pattern,
    k: usize,
    scope: &mut Vec<(String, u32)>,
    next: &mut u32,
    res: &mut Resolution,
    errors: &mut Vec<Error>,
)
    requires
        k <= old(scope)@.len(),
    ensures
        final(res).defs@ == old(res).defs@,
        final(scope)@.len() >= k,
        final(scope)@.subrange(0, k as int) == old(scope)@.subrange(0, k as int),
        ({
            let (os, adds, n2) = pat_occs(
                *p,
                scope_v(old(scope)@).subrange(k as int, old(scope)@.len() as int),
                *old(next),
            );
            &&& scope_v(final(scope)@).subrange(k as int, final(scope)@.len() as int) == adds
            &&& final(res).refs@ == refs_after(old(res).refs@, old(res).defs@, os)
            &&& reported(final(errors)@, old(errors)@, faults(old(res).defs@, os))
            &&& *final(next) == n2
        }),
    decreases p, 0nat,
{
    let ghost s0 = scope@;
    match &p.node {
        PatternKind::Var(name) => {
            let dup = find_local(scope, k, name.as_str()).is_some();
            let id = *next;
            bind_local(name, p.span, id, dup, res, errors);
            scope.push((name.clone(), id));
            *next = next_id(id);
            proof {
                assert(scope_v(scope@).subrange(k as int, scope@.len() as int) =~= scope_v(s0).subrange(
                    k as int,
                    s0.len() as int,
                ).push((name@, id)));
                assert(scope@.subrange(0, k as int) =~= s0.subrange(0, k as int));
            }
        },
        PatternKind::Ctor { name, args } => {
            let ghost r0 = res.refs@;
            let ghost e0 = errors@;
            let ghost defs = res.defs@;
            resolve_ctor(name.as_str(), p.span, res, errors);
            let ghost e1 = errors@;
            walk_patterns(args, k, scope, next, res, errors);
            proof {
                let o = Occ { span: p.span, name: name@, lookup: Lookup::Ctor };
                let rest = pats_occs(args@, scope_v(s0).subrange(k as int, s0.len() as int), *old(next)).0;
                one_occ(r0, defs, e0, o);
                lemma_after_concat(r0, defs, seq![o], rest);
                lemma_reported_concat(e0, e1, errors@, faults(defs, seq![o]), faults(defs, rest));
            }
        },
        PatternKind::Tuple(ps) => walk_patterns(ps, k, scope, next, res, errors),
        PatternKind::List(ps) => walk_patterns(ps, k, scope, next, res, errors),
        PatternKind::Record { ty_name, fields } => {
            let ghost r0 = res.refs@;
            let ghost e0 = errors@;
            let ghost defs = res.defs@;
            resolve_type_or_ctor(ty_name.as_str(), p.span, res, errors);
            let ghost e1 = errors@;
            walk_fieldpats(fields, k, scope, next, res, errors);
            proof {
                let o = Occ { span: p.span, name: ty_name@, lookup: Lookup::TypeOrCtor };
                let rest = fieldpats_occs(fields@, scope_v(s0).subrange(k as int, s0.len() as int), *old(next)).0;
                one_occ(r0, defs, e0, o);
                lemma_after_concat(r0, defs, seq![o], rest);
                lemma_reported_concat(e0, e1, errors@, faults(defs, seq![o]), faults(defs, rest));
            }
        },
        _ => {
            proof { lemma_reported_refl(errors@); }
        },
    }
}

fn walk_patterns(
    ps: &Vec<Pattern>,
    k: usize,
    scope: &mut Vec<(String, u32)>,
    next: &mut u32,
    res: &mut Resolution,
    errors: &mut Vec<Error>,
)
    requires
        k <= old(scope)@.len(),
    ensures
        final(res).defs@ == old(res).defs@,
        final(scope)@.len() >= k,
        final(scope)@.subrange(0, k as int) == old(scope)@.subrange(0, k as int),
        ({
            let (os, adds, n2) = pats_occs(
                ps@,
                scope_v(old(scope)@).subrange(k as int, old(scope)@.len() as int),
                *old(next),
            );
            &&& scope_v(final(scope)@).subrange(k as int, final(scope)@.len() as int) == adds
            &&& final(res).refs@ == refs_after(old(res).refs@, old(res).defs@, os)
            &&& reported(final(errors)@, old(errors)@, faults(old(res).defs@, os))
            &&& *final(next) == n2
        }),
    decreases ps@, 1nat,
{
    let ghost defs = res.defs@;
    let ghost a0 = scope_v(scope@).subrange(k as int, scope@.len() as int);
    proof { lemma_reported_refl(errors@); }
    let mut i: usize = 0;
    while i < ps.len()
        invariant
            i <= ps@.len(),
            k <= scope@.len(),
            res.defs@ == defs,
            defs == old(res).defs@,
            a0 == scope_v(old(scope)@).subrange(k as int, old(scope)@.len() as int),
            scope@.subrange(0, k as int) == old(scope)@.subrange(0, k as int),
            scope_v(scope@).subrange(k as int, scope@.len() as int) == pats_occs(ps@.take(i as int), a0, *old(next)).1,
            *next == pats_occs(ps@.take(i as int), a0, *old(next)).2,
            res.refs@ == refs_after(old(res).refs@, defs, pats_occs(ps@.take(i as int), a0, *old(next)).0),
            reported(errors@, old(errors)@, faults(defs, pats_occs(ps@.take(i as int), a0, *old(next)).0)),
        decreases ps@.len() - i,
    {
        let ghost e0 = errors@;
        let ghost prev = pats_occs(ps@.take(i as int), a0, *old(next));
        let ghost sc0 = scope@;
        walk_pattern(&ps[i], k, scope, next, res, errors);
        proof {
            assert(ps@.take(i + 1).drop_last() =~= ps@.take(i as int));
            assert(scope@.subrange(0, k as int) =~= sc0.subrange(0, k as int));
            let here = pat_occs(ps@[i as int], prev.1, prev.2).0;
            lemma_after_concat(old(res).refs@, defs, prev.0, here);
            lemma_reported_concat(old(errors)@, e0, errors@, faults(defs, prev.0), faults(defs, here));
        }
        i = i + 1;
    }
    assert(ps@.take(ps@.len() as int) =~= ps@);
}

fn walk_fieldpats(
    fs: &Vec<FieldPat>,
    k: usize,
    scope: &mut Vec<(String, u32)>,
    next: &mut u32,
    res: &mut Resolution,
    errors: &mut Vec<Error>,
)
    requires
        k <= old(scope)@.len(),
    ensures
        final(res).defs@ == old(res).defs@,
        final(scope)@.len() >= k,
        final(scope)@.subrange(0, k as int) == old(scope)@.subrange(0, k as int),
        ({
            let (os, adds, n2) = fieldpats_occs(
                fs@,
                scope_v(old(scope)@).subrange(k as int, old(scope)@.len() as int),
                *old(next),
            );
            &&& scope_v(final(scope)@).subrange(k as int, final(scope)@.len() as int) == adds
            &&& final(res).refs@ == refs_after(old(res).refs@, old(res).defs@, os)
            &&& reported(final(errors)@, old(errors)@, faults(old(res).defs@, os))
            &&& *final(next) == n2
        }),
    decreases fs@, 1nat,
{
    let ghost defs = res.defs@;
    let ghost a0 = scope_v(scope@).subrange(k as int, scope@.len() as int);
    proof { lemma_reported_refl(errors@); }
    let mut i: usize = 0;
    while i < fs.len()
        invariant
            i <= fs@.len(),
            k <= scope@.len(),
            res.defs@ == defs,
            defs == old(res).defs@,
            a0 == scope_v(old(scope)@).subrange(k as int, old(scope)@.len() as int),
            scope@.subrange(0, k as int) == old(scope)@.subrange(0, k as int),
            scope_v(scope@).subrange(k as int, scope@.len() as int) == fieldpats_occs(fs@.take(i as int), a0, *old(next)).1,
            *next == fieldpats_occs(fs@.take(i as int), a0, *old(next)).2,
            res.refs@ == refs_after(old(res).refs@, defs, fieldpats_occs(fs@.take(i as int), a0, *old(next)).0),
            reported(errors@, old(errors)@, faults(defs, fieldpats_occs(fs@.take(i as int), a0, *old(next)).0)),
        decreases fs@.len() - i,
    {
        let ghost e0 = errors@;
        let ghost prev = fieldpats_occs(fs@.take(i as int), a0, *old(next));
        let ghost sc0 = scope@;
        walk_pattern(&fs[i].pattern, k, scope, next, res, errors);
        proof {
            assert(fs@.take(i + 1).drop_last() =~= fs@.take(i as int));
            assert(scope@.subrange(0, k as int) =~= sc0.subrange(0, k as int));
            let here = pat_occs(fs@[i as int].pattern, prev.1, prev.2).0;
            lemma_after_concat(old(res).refs@, defs, prev.0, here);
            lemma_reported_concat(old(errors)@, e0, errors@, faults(defs, prev.0), faults(defs, here));
        }
        i = i + 1;
    }
    assert(fs@.take(fs@.len() as int) =~= fs@);
}

/// The scope after binding a group of locals at the end of `scope`, cut back
/// to its first `k` entries: the scope before.
proof fn lemma_scope_split(before: Seq<(String, u32)>, after: Seq<(String, u32)>, k: int)
    requires
        k == before.len(),
        after.len() >= k,
        after.subrange(0, k) == before.subrange(0, k),
    ensures
        scope_v(after) == scope_v(before) + scope_v(after).subrange(k, after.len() as int),
        after.subrange(0, k) == before,
{
    assert(before.subrange(0, k) =~= before);
    assert forall|j: int| 0 <= j < k implies #[trigger] scope_v(after)[j] == scope_v(before)[j] by {
        assert(after[j] == after.subrange(0, k)[j]);
    }
    assert(scope_v(after) =~= scope_v(before) + scope_v(after).subrange(k, after.len() as int));
}

/// Resolves the names an expression uses, with the locals of `scope` in
/// scope: each is recorded in the references or reported.
pub fn walk_expr(e: &Expr, scope: &mut Vec<(String, u32)>, next: &mut u32, res: &mut Resolution, errors: &mut Vec<Error>)
    ensures
        final(res).defs@ == old(res).defs@,
        final(scope)@ == old(scope)@,
        ({
            let (os, n2) = expr_occs(*e, scope_v(old(scope)@), *old(next));
            &&& final(res).refs@ == refs_after(old(res).refs@, old(res).defs@, os)
            &&& reported(final(errors)@, old(errors)@, faults(old(res).defs@, os))
            &&& *final(next) == n2
        }),
    decreases e, 0nat,
{
    let ghost defs = res.defs@;
    let ghost r0 = res.refs@;
    let ghost e0 = errors@;
    let ghost sc = scope_v(scope@);
    let ghost n0 = *next;
    match &e.node {
        ExprKind::Var(name) => {
            proof { assert(scope_v(scope@).subrange(0, scope@.len() as int) =~= sc); }
            match find_local(scope, 0, name.as_str()) {
                Some(id) => use_local(name, e.span, id, res, errors),
                None => {
                    resolve_var(name.as_str(), e.span, res, errors);
                    proof { one_occ(r0, defs, e0, Occ { span: e.span, name: name@, lookup: Lookup::Var }); }
                },
            }
        },
        ExprKind::Ctor(name) => {
            resolve_ctor(name.as_str(), e.span, res, errors);
            proof { one_occ(r0, defs, e0, Occ { span: e.span, name: name@, lookup: Lookup::Ctor }); }
        },
        ExprKind::Paren(inner) => walk_expr(inner, scope, next, res, errors),
        ExprKind::UnaryOp { expr, .. } => walk_expr(expr, scope, next, res, errors),
        ExprKind::Bang(inner) => walk_expr(inner, scope, next, res, errors),
        ExprKind::Question(inner) => walk_expr(inner, scope, next, res, errors),
        ExprKind::FieldAccess { receiver, .. } => walk_expr(receiver, scope, next, res, errors),
        ExprKind::MethodCall { receiver, .. } => walk_expr(receiver, scope, next, res, errors),
        ExprKind::List(items) => walk_exprs(items, scope, next, res, errors),
        ExprKind::BinOp { lhs, rhs, .. } => {
            walk_expr(lhs, scope, next, res, errors);
            let ghost e1 = errors@;
            let ghost n1 = *next;
            walk_expr(rhs, scope, next, res, errors);
            proof {
                let a = expr_occs(**lhs, sc, n0).0;
                let b = expr_occs(**rhs, sc, n1).0;
                lemma_after_concat(r0, defs, a, b);
                lemma_reported_concat(e0, e1, errors@, faults(defs, a), faults(defs, b));
            }
        },
        ExprKind::Call { func, args } => {
            walk_expr(func, scope, next, res, errors);
            let ghost e1 = errors@;
            let ghost n1 = *next;
            walk_exprs(args, scope, next, res, errors);
            proof {
                let a = expr_occs(**func, sc, n0).0;
                let b = exprs_occs(args@, sc, n1).0;
                lemma_after_concat(r0, defs, a, b);
                lemma_reported_concat(e0, e1, errors@, faults(defs, a), faults(defs, b));
            }
        },
        ExprKind::Construct { ty_name, fields } => {
            let ghost o = Occ { span: e.span, name: ty_name@, lookup: Lookup::TypeOrCtor };
            resolve_type_or_ctor(ty_name.as_str(), e.span, res, errors);
            proof { one_occ(r0, defs, e0, o); }
            let ghost e1 = errors@;
            walk_kwargs(fields, scope, next, res, errors);
            proof {
                let b = kwargs_occs(fields@, sc, n0).0;
                lemma_after_concat(r0, defs, seq![o], b);
                lemma_reported_concat(e0, e1, errors@, faults(defs, seq![o]), faults(defs, b));
            }
        },
        ExprKind::Update { value, fields } => {
            walk_expr(value, scope, next, res, errors);
            let ghost e1 = errors@;
            let ghost n1 = *next;
            walk_kwargs(fields, scope, next, res, errors);
            proof {
                let a = expr_occs(**value, sc, n0).0;
                let b = kwargs_occs(fields@, sc, n1).0;
                lemma_after_concat(r0, defs, a, b);
                lemma_reported_concat(e0, e1, errors@, faults(defs, a), faults(defs, b));
            }
        },
        ExprKind::Lambda { params, body } => {
            let ghost s0 = scope@;
            let k = scope.len();
            proof { assert(scope_v(scope@).subrange(k as int, k as int) =~= Seq::<(Seq<char>, u32)>::empty()); }
            walk_patterns(params, k, scope, next, res, errors);
            let ghost e1 = errors@;
            let ghost n1 = *next;
            let ghost adds = pats_occs(params@, seq![], n0).1;
            proof { lemma_scope_split(s0, scope@, k as int); }
            walk_expr(body, scope, next, res, errors);
            scope.truncate(k);
            proof {
                let a = pats_occs(params@, seq![], n0).0;
                let b = expr_occs(**body, sc + adds, n1).0;
                lemma_after_concat(r0, defs, a, b);
                lemma_reported_concat(e0, e1, errors@, faults(defs, a), faults(defs, b));
            }
        },
        ExprKind::Match { scrutinee, arms } => {
            walk_expr(scrutinee, scope, next, res, errors);
            let ghost e1 = errors@;
            let ghost n1 = *next;
            walk_arms(arms, scope, next, res, errors);
            proof {
                let a = expr_occs(**scrutinee, sc, n0).0;
                let b = arms_occs(arms@, sc, n1).0;
                lemma_after_concat(r0, defs, a, b);
                lemma_reported_concat(e0, e1, errors@, faults(defs, a), faults(defs, b));
            }
        },
        ExprKind::Block(items) => walk_items(items, scope, next, res, errors),
        _ => {
            proof { lemma_reported_refl(errors@); }
        },
    }
}

fn walk_exprs(items: &Vec<Expr>, scope: &mut Vec<(String, u32)>, next: &mut u32, res: &mut Resolution, errors: &mut Vec<Error>)
    ensures
        final(res).defs@ == old(res).defs@,
        final(scope)@ == old(scope)@,
        ({
            let (os, n2) = exprs_occs(items@, scope_v(old(scope)@), *old(next));
            &&& final(res).refs@ == refs_after(old(res).refs@, old(res).defs@, os)
            &&& reported(final(errors)@, old(errors)@, faults(old(res).defs@, os))
            &&& *final(next) == n2
        }),
    decreases items@, 1nat,
{
    let ghost defs = res.defs@;
    let ghost sc = scope_v(scope@);
    proof { lemma_reported_refl(errors@); }
    let mut i: usize = 0;
    while i < items.len()
        invariant
            i <= items@.len(),
            res.defs@ == defs,
            defs == old(res).defs@,
            scope@ == old(scope)@,
            sc == scope_v(old(scope)@),
            *next == exprs_occs(items@.take(i as int), sc, *old(next)).1,
            res.refs@ == refs_after(old(res).refs@, defs, exprs_occs(items@.take(i as int), sc, *old(next)).0),
            reported(errors@, old(errors)@, faults(defs, exprs_occs(items@.take(i as int), sc, *old(next)).0)),
        decreases items@.len() - i,
    {
        let ghost e0 = errors@;
        let ghost prev = exprs_occs(items@.take(i as int), sc, *old(next));
        walk_expr(&items[i], scope, next, res, errors);
        proof {
            assert(items@.take(i + 1).drop_last() =~= items@.take(i as int));
            let here = expr_occs(items@[i as int], sc, prev.1).0;
            lemma_after_concat(old(res).refs@, defs, prev.0, here);
            lemma_reported_concat(old(errors)@, e0, errors@, faults(defs, prev.0), faults(defs, here));
        }
        i = i + 1;
    }
    assert(items@.take(items@.len() as int) =~= items@);
}

fn walk_kwargs(fields: &Vec<KwArg>, scope: &mut Vec<(String, u32)>, next: &mut u32, res: &mut Resolution, errors: &mut Vec<Error>)
    ensures
        final(res).defs@ == old(res).defs@,
        final(scope)@ == old(scope)@,
        ({
            let (os, n2) = kwargs_occs(fields@, scope_v(old(scope)@), *old(next));
            &&& final(res).refs@ == refs_after(old(res).refs@, old(res).defs@, os)
            &&& reported(final(errors)@, old(errors)@, faults(old(res).defs@, os))
            &&& *final(next) == n2
        }),
    decreases fields@, 1nat,
{
    let ghost defs = res.defs@;
    let ghost sc = scope_v(scope@);
    proof { lemma_reported_refl(errors@); }
    let mut i: usize = 0;
    while i < fields.len()
        invariant
            i <= fields@.len(),
            res.defs@ == defs,
            defs == old(res).defs@,
            scope@ == old(scope)@,
            sc == scope_v(old(scope)@),
            *next == kwargs_occs(fields@.take(i as int), sc, *old(next)).1,
            res.refs@ == refs_after(old(res).refs@, defs, kwargs_occs(fields@.take(i as int), sc, *old(next)).0),
            reported(errors@, old(errors)@, faults(defs, kwargs_occs(fields@.take(i as int), sc, *old(next)).0)),
        decreases fields@.len() - i,
    {
        let ghost e0 = errors@;
        let ghost prev = kwargs_occs(fields@.take(i as int), sc, *old(next));
        walk_expr(&fields[i].value, scope, next, res, errors);
        proof {
            assert(fields@.take(i + 1).drop_last() =~= fields@.take(i as int));
            let here = expr_occs(fields@[i as int].value, sc, prev.1).0;
            lemma_after_concat(old(res).refs@, defs, prev.0, here);
            lemma_reported_concat(old(errors)@, e0, errors@, faults(defs, prev.0), faults(defs, here));
        }
        i = i + 1;
    }
    assert(fields@.take(fields@.len() as int) =~= fields@);
}

fn walk_arms(arms: &Vec<MatchArm>, scope: &mut Vec<(String, u32)>, next: &mut u32, res: &mut Resolution, errors: &mut Vec<Error>)
    ensures
        final(res).defs@ == old(res).defs@,
        final(scope)@ == old(scope)@,
        ({
            let (os, n2) = arms_occs(arms@, scope_v(old(scope)@), *old(next));
            &&& final(res).refs@ == refs_after(old(res).refs@, old(res).defs@, os)
            &&& reported(final(errors)@, old(errors)@, faults(old(res).defs@, os))
            &&& *final(next) == n2
        }),
    decreases arms@, 1nat,
{
    let ghost defs = res.defs@;
    let ghost sc = scope_v(scope@);
    proof { lemma_reported_refl(errors@); }
    let mut i: usize = 0;
    while i < arms.len()
        invariant
            i <= arms@.len(),
            res.defs@ == defs,
            defs == old(res).defs@,
            scope@ == old(scope)@,
            sc == scope_v(old(scope)@),
            *next == arms_occs(arms@.take(i as int), sc, *old(next)).1,
            res.refs@ == refs_after(old(res).refs@, defs, arms_occs(arms@.take(i as int), sc, *old(next)).0),
            reported(errors@, old(errors)@, faults(defs, arms_occs(arms@.take(i as int), sc, *old(next)).0)),
        decreases arms@.len() - i,
    {
        let ghost e0 = errors@;
        let ghost r0 = res.refs@;
        let ghost prev = arms_occs(arms@.take(i as int), sc, *old(next));
        let arm = &arms[i];
        let ghost s0 = scope@;
        let k = scope.len();
        proof { assert(scope_v(scope@).subrange(k as int, k as int) =~= Seq::<(Seq<char>, u32)>::empty()); }
        walk_pattern(&arm.pattern, k, scope, next, res, errors);
        let ghost e1 = errors@;
        let ghost n1 = *next;
        let ghost adds = pat_occs(arm.pattern, seq![], prev.1).1;
        proof { lemma_scope_split(s0, scope@, k as int); }
        walk_expr(&arm.body, scope, next, res, errors);
        scope.truncate(k);
        proof {
            let a = pat_occs(arm.pattern, seq![], prev.1).0;
            let b = expr_occs(arm.body, sc + adds, n1).0;
            lemma_after_concat(r0, defs, a, b);
            lemma_reported_concat(e0, e1, errors@, faults(defs, a), faults(defs, b));
            assert(arms@.take(i + 1).drop_last() =~= arms@.take(i as int));
            let here = arm_occs(arms@[i as int], sc, prev.1).0;
            lemma_after_concat(old(res).refs@, defs, prev.0, here);
            lemma_reported_concat(old(errors)@, e0, errors@, faults(defs, prev.0), faults(defs, here));
        }
        i = i + 1;
    }
    assert(arms@.take(arms@.len() as int) =~= arms@);
}

fn walk_items(items: &Vec<BlockItem>, scope: &mut Vec<(String, u32)>, next: &mut u32, res: &mut Resolution, errors: &mut Vec<Error>)
    ensures
        final(res).defs@ == old(res).defs@,
        final(scope)@ == old(scope)@,
        ({
            let (os, _, n2) = items_occs(items@, scope_v(old(scope)@), *old(next));
            &&& final(res).refs@ == refs_after(old(res).refs@, old(res).defs@, os)
            &&& reported(final(errors)@, old(errors)@, faults(old(res).defs@, os))
            &&& *final(next) == n2
        }),
    decreases items@, 1nat,
{
    let ghost defs = res.defs@;
    let ghost sc = scope_v(scope@);
    let ghost s0 = scope@;
    let k = scope.len();
    proof { lemma_reported_refl(errors@); }
    let mut i: usize = 0;
    while i < items.len()
        invariant
            i <= items@.len(),
            k == s0.len(),
            s0 == old(scope)@,
            scope@.len() >= k,
            scope@.subrange(0, k as int) == s0,
            res.defs@ == defs,
            defs == old(res).defs@,
            sc == scope_v(old(scope)@),
            scope_v(scope@) == items_occs(items@.take(i as int), sc, *old(next)).1,
            *next == items_occs(items@.take(i as int), sc, *old(next)).2,
            res.refs@ == refs_after(old(res).refs@, defs, items_occs(items@.take(i as int), sc, *old(next)).0),
            reported(errors@, old(errors)@, faults(defs, items_occs(items@.take(i as int), sc, *old(next)).0)),
        decreases items@.len() - i,
    {
        let ghost e0 = errors@;
        let ghost r0 = res.refs@;
        let ghost prev = items_occs(items@.take(i as int), sc, *old(next));
        let ghost sc1 = scope@;
        proof { assert(items@.take(i + 1).drop_last() =~= items@.take(i as int)); }
        match &items[i] {
            BlockItem::Binding(d) => match &d.node {
                DeclKind::Binding { name, value: Some(v), .. } => {
                    walk_expr(v, scope, next, res, errors);
                    let ghost e1 = errors@;
                    let id = *next;
                    bind_local(name, d.span, id, false, res, errors);
                    scope.push((name.clone(), id));
                    *next = next_id(id);
                    proof {
                        let a = expr_occs(*v, prev.1, prev.2).0;
                        let o = Occ { span: d.span, name: name@, lookup: Lookup::Bind(LocalId(id)) };
                        lemma_after_concat(r0, defs, a, seq![o]);
                        lemma_reported_concat(e0, e1, errors@, faults(defs, a), faults(defs, seq![o]));
                        assert(a + seq![o] =~= a.push(o));
                        assert(scope_v(scope@) =~= scope_v(sc1).push((name@, id)));
                        assert(scope@.subrange(0, k as int) =~= sc1.subrange(0, k as int));
                    }
                },
                _ => {
                    proof { lemma_reported_refl(errors@); }
                },
            },
            BlockItem::Expr(x) => walk_expr(x, scope, next, res, errors),
        }
        proof {
            let here = item_occs(items@[i as int], prev.1, prev.2).0;
            lemma_after_concat(old(res).refs@, defs, prev.0, here);
            lemma_reported_concat(old(errors)@, e0, errors@, faults(defs, prev.0), faults(defs, here));
        }
        i = i + 1;
    }
    assert(items@.take(items@.len() as int) =~= items@);
    scope.truncate(k);
}

/// Finds the first definition that answers the occurrence of `name`.
fn find_answer(defs: &Vec<DefInfo>, name: &str, lookup: &Lookup) -> (r: Option<usize>)
    ensures
        r matches Some(i) ==> i as int == first_answer(
            defs@,
            Occ { span: Span { start: 0, end: 0 }, name: name@, lookup: *lookup },
        ),
        r is None ==> first_answer(
            defs@,
            Occ { span: Span { start: 0, end: 0 }, name: name@, lookup: *lookup },
        ) == -1,
{
    let ghost o = Occ { span: Span { start: 0, end: 0 }, name: name@, lookup: *lookup };
    proof { lemma_first_answer(defs@, o); }
    let mut i: usize = 0;
    while i < defs.len()
        invariant
            i <= defs@.len(),
            o == (Occ { span: Span { start: 0, end: 0 }, name: name@, lookup: *lookup }),
            forall|m: int| 0 <= m < i ==> !answers(#[trigger] defs@[m], o),
            -1 <= first_answer(defs@, o) < defs@.len(),
            first_answer(defs@, o) >= 0 ==> answers(defs@[first_answer(defs@, o)], o),
            forall|m: int|
                0 <= m < defs@.len() && (first_answer(defs@, o) == -1 || m < first_answer(defs@, o))
                    ==> !answers(#[trigger] defs@[m], o),
        decreases defs@.len() - i,
    {
        let d = &defs[i];
        let kind_ok = match lookup {
            Lookup::Var => match d.kind {
                DefKind::Value => true,
                _ => false,
            },
            Lookup::Ctor => match d.kind {
                DefKind::Ctor { .. } => true,
                _ => false,
            },
            Lookup::TypeOrCtor => true,
            Lookup::Type => match d.kind {
                DefKind::Type => true,
                _ => false,
            },
            _ => false,
        };
        if kind_ok && str_eq(d.name.as_str(), name) {
            return Some(i);
        }
        i = i + 1;
    }
    None
}

proof fn lemma_answer_span(defs: Seq<DefInfo>, o: Occ, span: Span)
    ensures
        first_answer(defs, o) == first_answer(defs, Occ { span, name: o.name, lookup: o.lookup }),
    decreases defs.len(),
{
    if defs.len() > 0 {
        lemma_answer_span(defs.drop_last(), o, span);
    }
}

/// Resolves an occurrence: records what it refers to or reports it.
fn resolve_occ(name: &str, span: Span, lookup: Lookup, res: &mut Resolution, errors: &mut Vec<Error>)
    requires
        lookup is Var || lookup is Ctor || lookup is TypeOrCtor || lookup is Type,
    ensures
        ({
            let o = Occ { span, name: name@, lookup };
            &&& final(res).defs@ == old(res).defs@
            &&& final(res).refs@ == match resolution_of(old(res).defs@, o) {
                Some(r) => old(res).refs@.insert(span, r),
                None => old(res).refs@,
            }
            &&& resolution_of(old(res).defs@, o) is None ==> final(errors)@.len() == old(errors)@.len()
                + 1 && final(errors)@.drop_last() == old(errors)@ && reports(final(errors)@.last(), o)
            &&& resolution_of(old(res).defs@, o) is Some ==> final(errors)@ == old(errors)@
        }),
{
    proof {
        lemma_answer_span(res.defs@, Occ { span: Span { start: 0, end: 0 }, name: name@, lookup }, span);
        lemma_first_answer(res.defs@, Occ { span, name: name@, lookup });
    }
    match find_answer(&res.defs, name, &lookup) {
        Some(i) => {
            let id = res.defs[i].id;
            let resolved = match res.defs[i].kind {
                DefKind::Ctor { .. } => ResolvedName::Ctor(id),
                _ => ResolvedName::TopLevel(id),
            };
            res.refs.insert(span, resolved);
        },
        None => {
            let mut n = String::new();
            crate::text::push_str(&mut n, name);
            errors.push(Error { span, kind: ErrorKind::Unresolved { name: n } });
        },
    }
}

/// Looks up a value name.
pub fn resolve_var(name: &str, span: Span, res: &mut Resolution, errors: &mut Vec<Error>)
    ensures
        ({
            let o = Occ { span, name: name@, lookup: Lookup::Var };
            &&& final(res).defs@ == old(res).defs@
            &&& final(res).refs@ == match resolution_of(old(res).defs@, o) {
                Some(r) => old(res).refs@.insert(span, r),
                None => old(res).refs@,
            }
            &&& reported(final(errors)@, old(errors)@, if resolution_of(old(res).defs@, o) is None {
                seq![o]
            } else {
                Seq::<Occ>::empty()
            })
        }),
{
    let ghost e0 = errors@;
    resolve_occ(name, span, Lookup::Var, res, errors);
    proof { report_one(e0, errors@, Occ { span, name: name@, lookup: Lookup::Var }, resolution_of(old(res).defs@, Occ { span, name: name@, lookup: Lookup::Var }) is None); }
}

/// Looks up a constructor name.
pub fn resolve_ctor(name: &str, span: Span, res: &mut Resolution, errors: &mut Vec<Error>)
    ensures
        ({
            let o = Occ { span, name: name@, lookup: Lookup::Ctor };
            &&& final(res).defs@ == old(res).defs@
            &&& final(res).refs@ == match resolution_of(old(res).defs@, o) {
                Some(r) => old(res).refs@.insert(span, r),
                None => old(res).refs@,
            }
            &&& reported(final(errors)@, old(errors)@, if resolution_of(old(res).defs@, o) is None {
                seq![o]
            } else {
                Seq::<Occ>::empty()
            })
        }),
{
    let ghost e0 = errors@;
    resolve_occ(name, span, Lookup::Ctor, res, errors);
    proof { report_one(e0, errors@, Occ { span, name: name@, lookup: Lookup::Ctor }, resolution_of(old(res).defs@, Occ { span, name: name@, lookup: Lookup::Ctor }) is None); }
}

/// Looks up the type name of a construction: any definition of that name.
pub fn resolve_type_or_ctor(name: &str, span: Span, res: &mut Resolution, errors: &mut Vec<Error>)
    ensures
        ({
            let o = Occ { span, name: name@, lookup: Lookup::TypeOrCtor };
            &&& final(res).defs@ == old(res).defs@
            &&& final(res).refs@ == match resolution_of(old(res).defs@, o) {
                Some(r) => old(res).refs@.insert(span, r),
                None => old(res).refs@,
            }
            &&& reported(final(errors)@, old(errors)@, if resolution_of(old(res).defs@, o) is None {
                seq![o]
            } else {
                Seq::<Occ>::empty()
            })
        }),
{
    let ghost e0 = errors@;
    resolve_occ(name, span, Lookup::TypeOrCtor, res, errors);
    proof { report_one(e0, errors@, Occ { span, name: name@, lookup: Lookup::TypeOrCtor }, resolution_of(old(res).defs@, Occ { span, name: name@, lookup: Lookup::TypeOrCtor }) is None); }
}

proof fn report_one(e0: Seq<Error>, e1: Seq<Error>, o: Occ, missing: bool)
    requires
        missing ==> e1.len() == e0.len() + 1 && e1.drop_last() == e0 && reports(e1.last(), o),
        !missing ==> e1 == e0,
    ensures
        reported(e1, e0, if missing { seq![o] } else { Seq::<Occ>::empty() }),
{
    if missing {
        assert(e1.take(e0.len() as int) =~= e1.drop_last());
        assert(e1[e0.len() as int] == e1.last());
    } else {
        assert(e1.take(e0.len() as int) =~= e1);
    }
}

} // verus!
