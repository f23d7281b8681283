pub mod token;
pub mod ast;
pub mod text;
pub mod assoc;
pub mod span;
pub mod resolve;
pub mod check;
pub mod error;
pub mod lex;
pub mod parse;
pub mod pretty;
pub mod grouping;
