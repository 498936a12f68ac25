//! A typed symbolic expression tree: a term language of constants, variables
//! and applications of named operators, together with the type algebra that
//! classifies the terms.

pub mod func;
pub mod ident;
pub mod signature;
pub mod types;
