use vstd::prelude::*;

pub mod api;
pub mod config;
pub mod dict;
pub mod error;
pub mod hibi;
pub mod jmdict;
pub mod library;
pub mod llm;
pub mod media;
pub mod mining;
pub mod paths;
pub mod subtitle;
pub mod text;
pub mod tokenize;

verus! {

} // verus!
