//! A compiler for a declarative finite-state-machine description.
//!
//! The source text names one or more machines. Each machine lists its initial
//! states and, per event, the rules `from, ... => to`. From that text the
//! library derives, for every machine, the ordered set of its states, the
//! arrival labels of each state and the operations that leave it.

pub mod casing;
pub mod compile;
pub mod dedup;
pub mod error;
pub mod event;
pub mod grammar;
pub mod initial_state;
pub mod label;
pub mod lexer;
pub mod machine;
pub mod model;
pub mod parser;
pub mod profile;
pub mod state;
pub mod syntax;
pub mod transition;

pub use compile::compile;
