//! The errors of a compilation.

use vstd::prelude::*;

verus! {

/// What was wrong at the place where the text stopped being a machine
/// description.
#[derive(Clone, Copy, Debug, PartialEq, Eq, Structural)]
pub enum GrammarErrorKind {
    /// A character that begins no token.
    UnexpectedCharacter,
    /// A name was required.
    ExpectedIdentifier,
    /// A `{` was required.
    ExpectedOpenBrace,
    /// A `}` was required.
    ExpectedCloseBrace,
    /// A `=>` was required.
    ExpectedArrow,
    /// The block of a machine must begin with `InitialStates`.
    ExpectedInitialStates,
    /// The text goes on after the end of what was to be read.
    UnexpectedToken,
}

/// Malformed source text: what was wrong, and where. The place is given in
/// characters from the start of the text, `start` included and `end`
/// excluded; where the text ended too early, both are its length.
#[derive(Clone, Copy, Debug, PartialEq, Eq, Structural)]
pub struct GrammarError {
    pub kind: GrammarErrorKind,
    pub start: usize,
    pub end: usize,
}

/// Why a compilation failed.
#[derive(Clone, Copy, Debug, PartialEq, Eq, Structural)]
pub enum CompileError {
    /// The source text is malformed.
    Grammar(GrammarError),
}

} // verus!
