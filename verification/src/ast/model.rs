//! The syntax tree as a mathematical value: the same shape, with sequences
//! in place of vectors. Each node's view is its model.
use vstd::prelude::*;
use crate::ast::{
    BinOp, BlockItem, Decl, DeclKind, EffectRow, Expose, Expr, ExprKind, FieldPat, File, KwArg,
    LitPat, MatchArm, ModuleHeader, Pattern, PatternKind, Type, TypeBody, TypeKind, TypeMember,
    UnaryOp, UseKind, VariantBody,
};
use crate::span::Span;

verus! {

pub struct SExpr {
    pub span: Span,
    pub node: SExprKind,
}

pub enum SExprKind {
    IntLit(i64),
    FloatLit(String),
    StringLit(String),
    Var(String),
    Ctor(String),
    List(Seq<SExpr>),
    Paren(Box<SExpr>),
    BinOp { op: BinOp, lhs: Box<SExpr>, rhs: Box<SExpr> },
    UnaryOp { op: UnaryOp, expr: Box<SExpr> },
    Lambda { params: Seq<SPattern>, body: Box<SExpr> },
    Call { func: Box<SExpr>, args: Seq<SExpr> },
    MethodCall { receiver: Box<SExpr>, method: String },
    FieldAccess { receiver: Box<SExpr>, field: String },
    Construct { ty_name: String, fields: Seq<SKwArg> },
    Update { value: Box<SExpr>, fields: Seq<SKwArg> },
    Bang(Box<SExpr>),
    Question(Box<SExpr>),
    Match { scrutinee: Box<SExpr>, arms: Seq<SArm> },
    Block(Seq<SBlockItem>),
}

pub struct SKwArg {
    pub name: String,
    pub value: SExpr,
}

pub struct SArm {
    pub pattern: SPattern,
    pub body: SExpr,
}

pub enum SBlockItem {
    Binding(SDecl),
    Expr(SExpr),
}

pub struct SPattern {
    pub span: Span,
    pub node: SPatternKind,
}

pub enum SPatternKind {
    Wildcard,
    Var(String),
    Lit(LitPat),
    Ctor { name: String, args: Seq<SPattern> },
    Record { ty_name: String, fields: Seq<SFieldPat> },
    Tuple(Seq<SPattern>),
    List(Seq<SPattern>),
}

pub struct SFieldPat {
    pub field: String,
    pub pattern: SPattern,
}

pub struct SType {
    pub span: Span,
    pub node: STypeKind,
}

pub enum STypeKind {
    Var(String),
    Named { name: String, args: Seq<SType> },
    Function { params: Seq<SType>, effect: Option<SEffectRow>, result: Box<SType> },
    Tuple(Seq<SType>),
}

pub enum SEffectRow {
    Empty,
    Named(Seq<String>),
}

pub struct SDecl {
    pub span: Span,
    pub node: SDeclKind,
}

pub enum SDeclKind {
    Binding { name: String, ty: Option<SType>, value: Option<SExpr> },
    TypeDecl { name: String, params: Seq<String>, body: STypeBody },
    TraitDecl { name: String, type_var: String, methods: Seq<SDecl> },
    ImplDecl { trait_name: String, target: SType, methods: Seq<SDecl> },
    Use { path: Seq<String>, kind: SUseKind },
}

pub enum STypeBody {
    Newtype(SType),
    Block(Seq<SMember>),
}

pub enum SMember {
    Field { name: String, ty: SType },
    Method(SDecl),
    Variant { name: String, body: SVariantBody },
}

pub enum SVariantBody {
    Bare,
    Single(SType),
    Fields(Seq<SMember>),
}

pub enum SUseKind {
    Whole,
    Cherry(Seq<String>),
    Alias(String),
}

pub struct SHeader {
    pub name: Seq<String>,
    pub exposes: Seq<Expose>,
}

pub struct SFile {
    pub module: Option<SHeader>,
    pub decls: Seq<SDecl>,
}

// ---------------------------------------------------------------------------
// Types and patterns

pub open spec fn type_m(t: Type) -> SType
    decreases t, 0nat,
{
    SType {
        span: t.span,
        node: match t.node {
            TypeKind::Var(n) => STypeKind::Var(n),
            TypeKind::Named { name, args } => STypeKind::Named { name, args: types_m(args@) },
            TypeKind::Function { params, effect, result } => STypeKind::Function {
                params: types_m(params@),
                effect: match effect {
                    Some(e) => Some(effect_m(e)),
                    None => None,
                },
                result: Box::new(type_m(*result)),
            },
            TypeKind::Tuple(ts) => STypeKind::Tuple(types_m(ts@)),
        },
    }
}

pub open spec fn types_m(s: Seq<Type>) -> Seq<SType>
    decreases s, 1nat,
{
    if s.len() == 0 {
        seq![]
    } else {
        types_m(s.drop_last()).push(type_m(s.last()))
    }
}

pub open spec fn effect_m(e: EffectRow) -> SEffectRow {
    match e {
        EffectRow::Empty => SEffectRow::Empty,
        EffectRow::Named(v) => SEffectRow::Named(v@),
    }
}

pub open spec fn pattern_m(p: Pattern) -> SPattern
    decreases p, 0nat,
{
    SPattern {
        span: p.span,
        node: match p.node {
            PatternKind::Wildcard => SPatternKind::Wildcard,
            PatternKind::Var(n) => SPatternKind::Var(n),
            PatternKind::Lit(l) => SPatternKind::Lit(l),
            PatternKind::Ctor { name, args } => SPatternKind::Ctor { name, args: patterns_m(args@) },
            PatternKind::Record { ty_name, fields } => SPatternKind::Record {
                ty_name,
                fields: field_pats_m(fields@),
            },
            PatternKind::Tuple(ps) => SPatternKind::Tuple(patterns_m(ps@)),
            PatternKind::List(ps) => SPatternKind::List(patterns_m(ps@)),
        },
    }
}

pub open spec fn patterns_m(s: Seq<Pattern>) -> Seq<SPattern>
    decreases s, 1nat,
{
    if s.len() == 0 {
        seq![]
    } else {
        patterns_m(s.drop_last()).push(pattern_m(s.last()))
    }
}

pub open spec fn field_pats_m(s: Seq<FieldPat>) -> Seq<SFieldPat>
    decreases s, 1nat,
{
    if s.len() == 0 {
        seq![]
    } else {
        field_pats_m(s.drop_last()).push(
            SFieldPat { field: s.last().field, pattern: pattern_m(s.last().pattern) },
        )
    }
}

// ---------------------------------------------------------------------------
// Expressions and declarations

pub open spec fn expr_m(e: Expr) -> SExpr
    decreases e, 0nat,
{
    SExpr {
        span: e.span,
        node: match e.node {
            ExprKind::IntLit(n) => SExprKind::IntLit(n),
            ExprKind::FloatLit(f) => SExprKind::FloatLit(f),
            ExprKind::StringLit(s) => SExprKind::StringLit(s),
            ExprKind::Var(s) => SExprKind::Var(s),
            ExprKind::Ctor(s) => SExprKind::Ctor(s),
            ExprKind::List(v) => SExprKind::List(exprs_m(v@)),
            ExprKind::Paren(b) => SExprKind::Paren(Box::new(expr_m(*b))),
            ExprKind::BinOp { op, lhs, rhs } => SExprKind::BinOp {
                op,
                lhs: Box::new(expr_m(*lhs)),
                rhs: Box::new(expr_m(*rhs)),
            },
            ExprKind::UnaryOp { op, expr } => SExprKind::UnaryOp {
                op,
                expr: Box::new(expr_m(*expr)),
            },
            ExprKind::Lambda { params, body } => SExprKind::Lambda {
                params: patterns_m(params@),
                body: Box::new(expr_m(*body)),
            },
            ExprKind::Call { func, args } => SExprKind::Call {
                func: Box::new(expr_m(*func)),
                args: exprs_m(args@),
            },
            ExprKind::MethodCall { receiver, method } => SExprKind::MethodCall {
                receiver: Box::new(expr_m(*receiver)),
                method,
            },
            ExprKind::FieldAccess { receiver, field } => SExprKind::FieldAccess {
                receiver: Box::new(expr_m(*receiver)),
                field,
            },
            ExprKind::Construct { ty_name, fields } => SExprKind::Construct {
                ty_name,
                fields: kwargs_m(fields@),
            },
            ExprKind::Update { value, fields } => SExprKind::Update {
                value: Box::new(expr_m(*value)),
                fields: kwargs_m(fields@),
            },
            ExprKind::Bang(b) => SExprKind::Bang(Box::new(expr_m(*b))),
            ExprKind::Question(b) => SExprKind::Question(Box::new(expr_m(*b))),
            ExprKind::Match { scrutinee, arms } => SExprKind::Match {
                scrutinee: Box::new(expr_m(*scrutinee)),
                arms: arms_m(arms@),
            },
            ExprKind::Block(items) => SExprKind::Block(items_m(items@)),
        },
    }
}

pub open spec fn exprs_m(s: Seq<Expr>) -> Seq<SExpr>
    decreases s, 1nat,
{
    if s.len() == 0 {
        seq![]
    } else {
        exprs_m(s.drop_last()).push(expr_m(s.last()))
    }
}

pub open spec fn kwargs_m(s: Seq<KwArg>) -> Seq<SKwArg>
    decreases s, 1nat,
{
    if s.len() == 0 {
        seq![]
    } else {
        kwargs_m(s.drop_last()).push(SKwArg { name: s.last().name, value: expr_m(s.last().value) })
    }
}

pub open spec fn arms_m(s: Seq<MatchArm>) -> Seq<SArm>
    decreases s, 1nat,
{
    if s.len() == 0 {
        seq![]
    } else {
        arms_m(s.drop_last()).push(
            SArm { pattern: pattern_m(s.last().pattern), body: expr_m(s.last().body) },
        )
    }
}

pub open spec fn items_m(s: Seq<BlockItem>) -> Seq<SBlockItem>
    decreases s, 1nat,
{
    if s.len() == 0 {
        seq![]
    } else {
        items_m(s.drop_last()).push(
            match s.last() {
                BlockItem::Binding(d) => SBlockItem::Binding(decl_m(d)),
                BlockItem::Expr(e) => SBlockItem::Expr(expr_m(e)),
            },
        )
    }
}

pub open spec fn decl_m(d: Decl) -> SDecl
    decreases d, 0nat,
{
    SDecl {
        span: d.span,
        node: match d.node {
            DeclKind::Binding { name, ty, value } => SDeclKind::Binding {
                name,
                ty: match ty {
                    Some(t) => Some(type_m(t)),
                    None => None,
                },
                value: match value {
                    Some(v) => Some(expr_m(v)),
                    None => None,
                },
            },
            DeclKind::TypeDecl { name, params, body } => SDeclKind::TypeDecl {
                name,
                params: params@,
                body: match body {
                    TypeBody::Newtype(t) => STypeBody::Newtype(type_m(t)),
                    TypeBody::Block(ms) => STypeBody::Block(members_m(ms@)),
                },
            },
            DeclKind::TraitDecl { name, type_var, methods } => SDeclKind::TraitDecl {
                name,
                type_var,
                methods: decls_m(methods@),
            },
            DeclKind::ImplDecl { trait_name, target, methods } => SDeclKind::ImplDecl {
                trait_name,
                target: type_m(target),
                methods: decls_m(methods@),
            },
            DeclKind::Use { path, kind } => SDeclKind::Use {
                path: path@,
                kind: match kind {
                    UseKind::Whole => SUseKind::Whole,
                    UseKind::Cherry(v) => SUseKind::Cherry(v@),
                    UseKind::Alias(a) => SUseKind::Alias(a),
                },
            },
        },
    }
}

pub open spec fn decls_m(s: Seq<Decl>) -> Seq<SDecl>
    decreases s, 1nat,
{
    if s.len() == 0 {
        seq![]
    } else {
        decls_m(s.drop_last()).push(decl_m(s.last()))
    }
}

pub open spec fn member_m(m: TypeMember) -> SMember
    decreases m, 0nat,
{
    match m {
        TypeMember::Field { name, ty } => SMember::Field { name, ty: type_m(ty) },
        TypeMember::Method(d) => SMember::Method(decl_m(d)),
        TypeMember::Variant { name, body } => SMember::Variant {
            name,
            body: match body {
                VariantBody::Bare => SVariantBody::Bare,
                VariantBody::Single(t) => SVariantBody::Single(type_m(t)),
                VariantBody::Fields(ms) => SVariantBody::Fields(members_m(ms@)),
            },
        },
    }
}

pub open spec fn members_m(s: Seq<TypeMember>) -> Seq<SMember>
    decreases s, 1nat,
{
    if s.len() == 0 {
        seq![]
    } else {
        members_m(s.drop_last()).push(member_m(s.last()))
    }
}

pub open spec fn header_m(h: ModuleHeader) -> SHeader {
    SHeader { name: h.name@, exposes: h.exposes@ }
}

pub open spec fn file_m(f: File) -> SFile {
    SFile {
        module: match f.module {
            Some(h) => Some(header_m(h)),
            None => None,
        },
        decls: decls_m(f.decls@),
    }
}

// ---------------------------------------------------------------------------
// The sequence views grow with the vectors they view.

pub broadcast proof fn lemma_types_push(s: Seq<Type>, x: Type)
    ensures
        #[trigger] types_m(s.push(x)) == types_m(s).push(type_m(x)),
{
    assert(s.push(x).drop_last() =~= s);
}

pub broadcast proof fn lemma_patterns_push(s: Seq<Pattern>, x: Pattern)
    ensures
        #[trigger] patterns_m(s.push(x)) == patterns_m(s).push(pattern_m(x)),
{
    assert(s.push(x).drop_last() =~= s);
}

pub broadcast proof fn lemma_field_pats_push(s: Seq<FieldPat>, x: FieldPat)
    ensures
        #[trigger] field_pats_m(s.push(x)) == field_pats_m(s).push(
            SFieldPat { field: x.field, pattern: pattern_m(x.pattern) },
        ),
{
    assert(s.push(x).drop_last() =~= s);
}

pub broadcast proof fn lemma_exprs_push(s: Seq<Expr>, x: Expr)
    ensures
        #[trigger] exprs_m(s.push(x)) == exprs_m(s).push(expr_m(x)),
{
    assert(s.push(x).drop_last() =~= s);
}

pub broadcast proof fn lemma_kwargs_push(s: Seq<KwArg>, x: KwArg)
    ensures
        #[trigger] kwargs_m(s.push(x)) == kwargs_m(s).push(SKwArg { name: x.name, value: expr_m(x.value) }),
{
    assert(s.push(x).drop_last() =~= s);
}

pub broadcast proof fn lemma_arms_push(s: Seq<MatchArm>, x: MatchArm)
    ensures
        #[trigger] arms_m(s.push(x)) == arms_m(s).push(
            SArm { pattern: pattern_m(x.pattern), body: expr_m(x.body) },
        ),
{
    assert(s.push(x).drop_last() =~= s);
}

pub broadcast proof fn lemma_items_push(s: Seq<BlockItem>, x: BlockItem)
    ensures
        #[trigger] items_m(s.push(x)) == items_m(s).push(
            match x {
                BlockItem::Binding(d) => SBlockItem::Binding(decl_m(d)),
                BlockItem::Expr(e) => SBlockItem::Expr(expr_m(e)),
            },
        ),
{
    assert(s.push(x).drop_last() =~= s);
}

pub broadcast proof fn lemma_decls_push(s: Seq<Decl>, x: Decl)
    ensures
        #[trigger] decls_m(s.push(x)) == decls_m(s).push(decl_m(x)),
{
    assert(s.push(x).drop_last() =~= s);
}

pub broadcast proof fn lemma_members_push(s: Seq<TypeMember>, x: TypeMember)
    ensures
        #[trigger] members_m(s.push(x)) == members_m(s).push(member_m(x)),
{
    assert(s.push(x).drop_last() =~= s);
}

pub broadcast group group_model_push {
    lemma_types_push,
    lemma_patterns_push,
    lemma_field_pats_push,
    lemma_exprs_push,
    lemma_kwargs_push,
    lemma_arms_push,
    lemma_items_push,
    lemma_decls_push,
    lemma_members_push,
}

impl View for Expr {
    type V = SExpr;

    open spec fn view(&self) -> SExpr {
        expr_m(*self)
    }
}

impl View for Pattern {
    type V = SPattern;

    open spec fn view(&self) -> SPattern {
        pattern_m(*self)
    }
}

impl View for Type {
    type V = SType;

    open spec fn view(&self) -> SType {
        type_m(*self)
    }
}

impl View for EffectRow {
    type V = SEffectRow;

    open spec fn view(&self) -> SEffectRow {
        effect_m(*self)
    }
}

impl View for Decl {
    type V = SDecl;

    open spec fn view(&self) -> SDecl {
        decl_m(*self)
    }
}

impl View for TypeMember {
    type V = SMember;

    open spec fn view(&self) -> SMember {
        member_m(*self)
    }
}

impl View for ModuleHeader {
    type V = SHeader;

    open spec fn view(&self) -> SHeader {
        header_m(*self)
    }
}

impl View for File {
    type V = SFile;

    open spec fn view(&self) -> SFile {
        file_m(*self)
    }
}

} // verus!
