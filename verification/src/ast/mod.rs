use vstd::prelude::*;
use crate::span::Span;

pub mod model;
pub mod print;

verus! {

/// A parsed source file: an optional module header and the declarations.
#[derive(Debug, PartialEq)]
pub struct File {
    pub module: Option<ModuleHeader>,
    pub decls: Vec<Decl>,
}

/// `module A.B` followed by an indented `expose` list.
#[derive(Debug, PartialEq)]
pub struct ModuleHeader {
    pub name: Vec<String>,
    pub exposes: Vec<Expose>,
}

/// One item of an `expose` list.
#[derive(Debug, PartialEq)]
pub enum Expose {
    Value(String),
    Type { name: String, with_constructors: bool },
}

/// An expression with its source span.
#[derive(Debug, PartialEq)]
pub struct Expr {
    pub span: Span,
    pub node: ExprKind,
}

/// The expression forms. A float literal holds its normalized decimal
/// notation (see `crate::lex`).
#[derive(Debug, PartialEq)]
pub enum ExprKind {
    IntLit(i64),
    FloatLit(String),
    StringLit(String),
    Var(String),
    Ctor(String),
    List(Vec<Expr>),
    Paren(Box<Expr>),
    BinOp { op: BinOp, lhs: Box<Expr>, rhs: Box<Expr> },
    UnaryOp { op: UnaryOp, expr: Box<Expr> },
    Lambda { params: Vec<Pattern>, body: Box<Expr> },
    Call { func: Box<Expr>, args: Vec<Expr> },
    MethodCall { receiver: Box<Expr>, method: String },
    FieldAccess { receiver: Box<Expr>, field: String },
    Construct { ty_name: String, fields: Vec<KwArg> },
    Update { value: Box<Expr>, fields: Vec<KwArg> },
    Bang(Box<Expr>),
    Question(Box<Expr>),
    Match { scrutinee: Box<Expr>, arms: Vec<MatchArm> },
    Block(Vec<BlockItem>),
}

#[derive(Clone, Copy, Debug, PartialEq, Eq, Structural)]
pub enum BinOp {
    Add,
    Sub,
    Mul,
    Div,
    Pow,
    Eq,
    Ne,
    Lt,
    Le,
    Gt,
    Ge,
    Concat,
    And,
    Or,
    Xor,
}

#[derive(Clone, Copy, Debug, PartialEq, Eq, Structural)]
pub enum UnaryOp {
    Neg,
    Not,
}

/// `name = value` inside a construction or an update.
#[derive(Debug, PartialEq)]
pub struct KwArg {
    pub name: String,
    pub value: Expr,
}

/// `pattern -> body`.
#[derive(Debug, PartialEq)]
pub struct MatchArm {
    pub pattern: Pattern,
    pub body: Expr,
}

/// One line of a block.
#[derive(Debug, PartialEq)]
pub enum BlockItem {
    Binding(Decl),
    Expr(Expr),
}

/// A pattern with its source span.
#[derive(Debug, PartialEq)]
pub struct Pattern {
    pub span: Span,
    pub node: PatternKind,
}

#[derive(Debug, PartialEq)]
pub enum PatternKind {
    Wildcard,
    Var(String),
    Lit(LitPat),
    Ctor { name: String, args: Vec<Pattern> },
    Record { ty_name: String, fields: Vec<FieldPat> },
    Tuple(Vec<Pattern>),
    List(Vec<Pattern>),
}

/// A literal pattern. A float holds its normalized decimal notation.
#[derive(Debug, PartialEq)]
pub enum LitPat {
    Int(i64),
    Float(String),
    Str(String),
}

/// `field = pattern` inside a record pattern.
#[derive(Debug, PartialEq)]
pub struct FieldPat {
    pub field: String,
    pub pattern: Pattern,
}

/// A type expression with its source span.
#[derive(Debug, PartialEq)]
pub struct Type {
    pub span: Span,
    pub node: TypeKind,
}

#[derive(Debug, PartialEq)]
pub enum TypeKind {
    Var(String),
    Named { name: String, args: Vec<Type> },
    Function { params: Vec<Type>, effect: Option<EffectRow>, result: Box<Type> },
    Tuple(Vec<Type>),
}

/// An effect annotation `! ()` or `! A, B`.
#[derive(Debug, PartialEq)]
pub enum EffectRow {
    Empty,
    Named(Vec<String>),
}

/// A declaration with its source span.
#[derive(Debug, PartialEq)]
pub struct Decl {
    pub span: Span,
    pub node: DeclKind,
}

#[derive(Debug, PartialEq)]
pub enum DeclKind {
    Binding { name: String, ty: Option<Type>, value: Option<Expr> },
    TypeDecl { name: String, params: Vec<String>, body: TypeBody },
    TraitDecl { name: String, type_var: String, methods: Vec<Decl> },
    ImplDecl { trait_name: String, target: Type, methods: Vec<Decl> },
    Use { path: Vec<String>, kind: UseKind },
}

#[derive(Debug, PartialEq)]
pub enum TypeBody {
    Newtype(Type),
    Block(Vec<TypeMember>),
}

#[derive(Debug, PartialEq)]
pub enum TypeMember {
    Field { name: String, ty: Type },
    Method(Decl),
    Variant { name: String, body: VariantBody },
}

#[derive(Debug, PartialEq)]
pub enum VariantBody {
    Bare,
    Single(Type),
    Fields(Vec<TypeMember>),
}

#[derive(Debug, PartialEq)]
pub enum UseKind {
    Whole,
    Cherry(Vec<String>),
    Alias(String),
}

} // verus!
