use vstd::prelude::*;
use crate::span::Span;

verus! {

/// A diagnostic: what went wrong and where.
#[derive(Debug, Clone, PartialEq)]
pub struct Error {
    pub span: Span,
    pub kind: ErrorKind,
}

/// Every diagnostic the front end can report.
#[derive(Debug, Clone, PartialEq)]
pub enum ErrorKind {
    UnexpectedChar(char),
    UnderscoreInIdentifier { name: String, suggestion: String },
    InvalidNumber(String),
    UnterminatedString,
    InvalidEscape(char),
    InconsistentDedent,
    MixedTabsAndSpaces,
    Unexpected { found: String, expected: &'static str },
    ChainedComparison,
    DuplicateDefinition { name: String, first_span: Span },
    Unresolved { name: String },
    DuplicateLocal { name: String },
    UnknownModule { path: Vec<String> },
    ModuleCycle { members: Vec<Vec<String>> },
    NotExposed { module: Vec<String>, name: String },
    TypeMismatch { expected: String, found: String },
    OccursCheck { var: String },
    ArityMismatch { expected: usize, found: usize },
    EffectsNotYetImplemented,
    TuplesNotYetImplemented,
    MixedFieldsAndVariants { name: String },
    UnknownType { name: String },
    UnknownField { ty_name: String, field: String },
    MissingField { ty_name: String, field: String },
    NonExhaustiveMatch { missing: Vec<String> },
    CannotAccessMember { ty: String, member: String },
    MissingImpl { trait_name: String, ty: String },
    DuplicateImpl { trait_name: String, ty: String },
    UnknownTrait { name: String },
    MissingMethod { trait_name: String, method: String },
    UnknownMethod { trait_name: String, method: String },
    AmbiguousConstraint { trait_name: String },
}

} // verus!
