//! Semantic checking for the Tyu language: type atoms, word signatures,
//! the effect-context stack, declaration databases, MMIO register maps
//! and the stack-effect checker helpers.

pub mod types;
pub mod effects;
pub mod error;
pub mod lit;
pub mod numbers;
pub mod parse;
pub mod context;
pub mod ast;
pub mod db;
pub mod tokens;
pub mod mmio;
pub mod regmap;
pub mod typeops;
pub mod output;
pub mod builtins;
pub mod mmiodb;
pub mod value;
pub mod borrow;
pub mod names;
pub mod stackcheck;
pub mod trace;
pub mod wordcheck;
pub mod irtypes;
pub mod scopes;
pub mod arena;
