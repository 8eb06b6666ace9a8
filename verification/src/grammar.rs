//! The grammar of machine descriptions, as functions on tokens.
//!
//! ```text
//! Machines      := Machine*
//! Machine       := Name '{' InitialStates Block* '}'
//! InitialStates := "InitialStates" '{' Names '}'
//! Block         := Name '{' Rule+ '}'
//! Rule          := Names "=>" Name
//! Names         := Name (',' Name)* ','?
//! ```
//!
//! Each function reads one production from a place in the tokens and gives
//! what it read and the place behind it, or the error at the first token that
//! does not fit.

use vstd::prelude::*;
use crate::error::{GrammarError, GrammarErrorKind};
use crate::lexer::{tokens_of, KindView, TokenView};
use crate::machine::MachineView;
use crate::transition::TransitionView;

verus! {

/// The tokens of a text, and the length of the text in characters.
pub struct Input {
    pub tokens: Seq<TokenView>,
    pub end: usize,
}

/// The kind of the token at `pos`, if there is one.
pub open spec fn kind_at(input: Input, pos: int) -> Option<KindView> {
    if 0 <= pos < input.tokens.len() {
        Some(input.tokens[pos].kind)
    } else {
        None
    }
}

/// Whether the token at `pos` is a name.
pub open spec fn is_name_at(input: Input, pos: int) -> bool {
    kind_at(input, pos) matches Some(KindView::Ident(_))
}

/// The error of the given kind for the token at `pos`, or for the end of the
/// text if no token is there.
pub open spec fn error_at(input: Input, pos: int, kind: GrammarErrorKind) -> GrammarError {
    if 0 <= pos < input.tokens.len() {
        GrammarError { kind, start: input.tokens[pos].start, end: input.tokens[pos].end }
    } else {
        GrammarError { kind, start: input.end, end: input.end }
    }
}

/// Reads a name.
pub open spec fn expect_name(input: Input, pos: int) -> Result<(Seq<char>, int), GrammarError> {
    match kind_at(input, pos) {
        Some(KindView::Ident(name)) => Ok((name, pos + 1)),
        _ => Err(error_at(input, pos, GrammarErrorKind::ExpectedIdentifier)),
    }
}

/// Reads the given mark; where another token stands, the error is of the
/// given kind.
pub open spec fn expect_mark(
    input: Input,
    pos: int,
    mark: KindView,
    kind: GrammarErrorKind,
) -> Result<int, GrammarError> {
    if kind_at(input, pos) == Some(mark) {
        Ok(pos + 1)
    } else {
        Err(error_at(input, pos, kind))
    }
}

/// Reads names separated by commas, at least one, and adds them to `found`.
/// A comma may follow the last name.
pub open spec fn parse_names(input: Input, pos: int, found: Seq<Seq<char>>) -> Result<
    (Seq<Seq<char>>, int),
    GrammarError,
>
    decreases input.tokens.len() - pos,
{
    match expect_name(input, pos) {
        Err(error) => Err(error),
        Ok((name, next)) => {
            if kind_at(input, next) == Some(KindView::Comma) {
                if is_name_at(input, next + 1) {
                    parse_names(input, next + 1, found.push(name))
                } else {
                    Ok((found.push(name), next + 1))
                }
            } else {
                Ok((found.push(name), next))
            }
        },
    }
}

/// The transitions of one rule: one for each source, in the order of the
/// sources, all under the same event and into the same target.
pub open spec fn expand(event: Seq<char>, sources: Seq<Seq<char>>, target: Seq<char>) -> Seq<
    TransitionView,
> {
    sources.map_values(|from: Seq<char>| TransitionView { event, from, to: target })
}

/// Reads one rule of the block of `event`: the sources, `=>`, the target.
pub open spec fn parse_rule(input: Input, pos: int, event: Seq<char>) -> Result<
    (Seq<TransitionView>, int),
    GrammarError,
> {
    match parse_names(input, pos, Seq::empty()) {
        Err(error) => Err(error),
        Ok((sources, arrow)) => match expect_mark(
            input,
            arrow,
            KindView::Arrow,
            GrammarErrorKind::ExpectedArrow,
        ) {
            Err(error) => Err(error),
            Ok(after) => match expect_name(input, after) {
                Err(error) => Err(error),
                Ok((target, next)) => Ok((expand(event, sources, target), next)),
            },
        },
    }
}

/// Reads the rules of the block of `event`, at least one, and adds their
/// transitions to `found`. The rules follow each other with nothing between
/// them; they end where no name follows.
pub open spec fn parse_rules(
    input: Input,
    pos: int,
    event: Seq<char>,
    found: Seq<TransitionView>,
) -> Result<(Seq<TransitionView>, int), GrammarError>
    decreases input.tokens.len() - pos,
{
    match parse_rule(input, pos, event) {
        Err(error) => Err(error),
        Ok((transitions, next)) => {
            proof {
                lemma_rule_advances(input, pos, event);
            }
            if is_name_at(input, next) {
                parse_rules(input, next, event, found + transitions)
            } else {
                Ok((found + transitions, next))
            }
        },
    }
}

/// Reads the block of one event: its name and, in braces, its rules. The
/// transitions are added to `found`.
pub open spec fn parse_block(input: Input, pos: int, found: Seq<TransitionView>) -> Result<
    (Seq<TransitionView>, int),
    GrammarError,
> {
    match expect_name(input, pos) {
        Err(error) => Err(error),
        Ok((event, open)) => match expect_mark(
            input,
            open,
            KindView::OpenBrace,
            GrammarErrorKind::ExpectedOpenBrace,
        ) {
            Err(error) => Err(error),
            Ok(first) => match parse_rules(input, first, event, found) {
                Err(error) => Err(error),
                Ok((transitions, close)) => match expect_mark(
                    input,
                    close,
                    KindView::CloseBrace,
                    GrammarErrorKind::ExpectedCloseBrace,
                ) {
                    Err(error) => Err(error),
                    Ok(next) => Ok((transitions, next)),
                },
            },
        },
    }
}

/// Reads the blocks of events, as many as there are, and adds their
/// transitions to `found`. The blocks end where no name follows.
pub open spec fn parse_blocks(input: Input, pos: int, found: Seq<TransitionView>) -> Result<
    (Seq<TransitionView>, int),
    GrammarError,
>
    decreases input.tokens.len() - pos,
{
    if is_name_at(input, pos) {
        match parse_block(input, pos, found) {
            Err(error) => Err(error),
            Ok((transitions, next)) => {
                proof {
                    lemma_block_advances(input, pos, found);
                }
                parse_blocks(input, next, transitions)
            },
        }
    } else {
        Ok((found, pos))
    }
}

/// The word that opens the block of the initial states.
pub open spec fn initial_states_keyword() -> Seq<char> {
    "InitialStates"@
}

/// Reads the block of the initial states: the keyword and, in braces, the
/// names of the states, at least one.
pub open spec fn parse_initial_states(input: Input, pos: int) -> Result<
    (Seq<Seq<char>>, int),
    GrammarError,
> {
    if kind_at(input, pos) == Some(KindView::Ident(initial_states_keyword())) {
        match expect_mark(
            input,
            pos + 1,
            KindView::OpenBrace,
            GrammarErrorKind::ExpectedOpenBrace,
        ) {
            Err(error) => Err(error),
            Ok(first) => match parse_names(input, first, Seq::empty()) {
                Err(error) => Err(error),
                Ok((names, close)) => match expect_mark(
                    input,
                    close,
                    KindView::CloseBrace,
                    GrammarErrorKind::ExpectedCloseBrace,
                ) {
                    Err(error) => Err(error),
                    Ok(next) => Ok((names, next)),
                },
            },
        }
    } else {
        Err(error_at(input, pos, GrammarErrorKind::ExpectedInitialStates))
    }
}

/// Reads one machine: its name and, in braces, the block of the initial
/// states and the blocks of the events.
pub open spec fn parse_machine(input: Input, pos: int) -> Result<(MachineView, int), GrammarError> {
    match expect_name(input, pos) {
        Err(error) => Err(error),
        Ok((name, open)) => match expect_mark(
            input,
            open,
            KindView::OpenBrace,
            GrammarErrorKind::ExpectedOpenBrace,
        ) {
            Err(error) => Err(error),
            Ok(first) => match parse_initial_states(input, first) {
                Err(error) => Err(error),
                Ok((initial_states, blocks)) => match parse_blocks(input, blocks, Seq::empty()) {
                    Err(error) => Err(error),
                    Ok((transitions, close)) => match expect_mark(
                        input,
                        close,
                        KindView::CloseBrace,
                        GrammarErrorKind::ExpectedCloseBrace,
                    ) {
                        Err(error) => Err(error),
                        Ok(next) => Ok((MachineView { name, initial_states, transitions }, next)),
                    },
                },
            },
        },
    }
}

/// Reads machines, as many as there are, and adds them to `found`. The
/// machines end where no name follows.
pub open spec fn parse_machines(input: Input, pos: int, found: Seq<MachineView>) -> Result<
    (Seq<MachineView>, int),
    GrammarError,
>
    decreases input.tokens.len() - pos,
{
    if is_name_at(input, pos) {
        match parse_machine(input, pos) {
            Err(error) => Err(error),
            Ok((machine, next)) => {
                proof {
                    lemma_machine_advances(input, pos);
                }
                parse_machines(input, next, found.push(machine))
            },
        }
    } else {
        Ok((found, pos))
    }
}

/// What was read, if the tokens end behind it; else the error for the token
/// that follows.
pub open spec fn complete<T>(input: Input, read: Result<(T, int), GrammarError>) -> Result<
    T,
    GrammarError,
> {
    match read {
        Err(error) => Err(error),
        Ok((value, next)) => if next == input.tokens.len() {
            Ok(value)
        } else {
            Err(error_at(input, next, GrammarErrorKind::UnexpectedToken))
        },
    }
}

/// The tokens of a text that has tokens, ready to be read.
pub open spec fn input_of(text: Seq<char>, tokens: Seq<TokenView>) -> Input {
    Input { tokens, end: text.len() as usize }
}

/// The name that is the whole text.
pub open spec fn name_of_text(text: Seq<char>) -> Result<Seq<char>, GrammarError> {
    match tokens_of(text) {
        Err(error) => Err(error),
        Ok(tokens) => complete(input_of(text, tokens), expect_name(input_of(text, tokens), 0)),
    }
}

/// The initial states that the whole text declares.
pub open spec fn initial_states_of_text(text: Seq<char>) -> Result<Seq<Seq<char>>, GrammarError> {
    match tokens_of(text) {
        Err(error) => Err(error),
        Ok(tokens) => complete(
            input_of(text, tokens),
            parse_initial_states(input_of(text, tokens), 0),
        ),
    }
}

/// The transitions that the whole text declares, a run of blocks of events.
pub open spec fn transitions_of_text(text: Seq<char>) -> Result<Seq<TransitionView>, GrammarError> {
    match tokens_of(text) {
        Err(error) => Err(error),
        Ok(tokens) => complete(
            input_of(text, tokens),
            parse_blocks(input_of(text, tokens), 0, Seq::empty()),
        ),
    }
}

/// The machine that the whole text declares.
pub open spec fn machine_of_text(text: Seq<char>) -> Result<MachineView, GrammarError> {
    match tokens_of(text) {
        Err(error) => Err(error),
        Ok(tokens) => complete(input_of(text, tokens), parse_machine(input_of(text, tokens), 0)),
    }
}

/// The machines that the whole text declares, in the order of the text.
pub open spec fn machines_of_text(text: Seq<char>) -> Result<Seq<MachineView>, GrammarError> {
    match tokens_of(text) {
        Err(error) => Err(error),
        Ok(tokens) => complete(
            input_of(text, tokens),
            parse_machines(input_of(text, tokens), 0, Seq::empty()),
        ),
    }
}

/// Names that were read end behind their start and inside the tokens, and
/// those found before are kept in front of them.
pub proof fn lemma_names_advance(input: Input, pos: int, found: Seq<Seq<char>>)
    ensures
        match parse_names(input, pos, found) {
            Ok((names, next)) => 0 <= pos < next <= input.tokens.len() && found.len() < names.len()
                && names.take(found.len() as int) == found,
            Err(_) => true,
        },
    decreases input.tokens.len() - pos,
{
    match expect_name(input, pos) {
        Err(_) => {},
        Ok((name, next)) => {
            if kind_at(input, next) == Some(KindView::Comma) && is_name_at(input, next + 1) {
                lemma_names_advance(input, next + 1, found.push(name));
                if let Ok((names, _)) = parse_names(input, pos, found) {
                    let longer = found.push(name);
                    assert(names.take(longer.len() as int) == longer);
                    assert(names.take(found.len() as int) =~= longer.take(found.len() as int));
                    assert(longer.take(found.len() as int) =~= found);
                }
            } else {
                assert(found.push(name).take(found.len() as int) =~= found);
            }
        },
    }
}

/// A rule that was read ends behind its start and inside the tokens.
pub proof fn lemma_rule_advances(input: Input, pos: int, event: Seq<char>)
    ensures
        match parse_rule(input, pos, event) {
            Ok((_, next)) => 0 <= pos < next <= input.tokens.len(),
            Err(_) => true,
        },
{
    lemma_names_advance(input, pos, Seq::empty());
}

/// Rules that were read end behind their start and inside the tokens.
pub proof fn lemma_rules_advance(
    input: Input,
    pos: int,
    event: Seq<char>,
    found: Seq<TransitionView>,
)
    ensures
        match parse_rules(input, pos, event, found) {
            Ok((_, next)) => 0 <= pos < next <= input.tokens.len(),
            Err(_) => true,
        },
    decreases input.tokens.len() - pos,
{
    lemma_rule_advances(input, pos, event);
    match parse_rule(input, pos, event) {
        Err(_) => {},
        Ok((transitions, next)) => {
            if is_name_at(input, next) {
                lemma_rules_advance(input, next, event, found + transitions);
            }
        },
    }
}

/// A block that was read ends behind its start and inside the tokens.
pub proof fn lemma_block_advances(input: Input, pos: int, found: Seq<TransitionView>)
    ensures
        match parse_block(input, pos, found) {
            Ok((_, next)) => 0 <= pos < next <= input.tokens.len(),
            Err(_) => true,
        },
{
    match expect_name(input, pos) {
        Err(_) => {},
        Ok((event, open)) => {
            lemma_rules_advance(input, open + 1, event, found);
        },
    }
}

/// Blocks that were read end inside the tokens, at or behind their start.
pub proof fn lemma_blocks_advance(input: Input, pos: int, found: Seq<TransitionView>)
    requires
        0 <= pos <= input.tokens.len(),
    ensures
        match parse_blocks(input, pos, found) {
            Ok((_, next)) => pos <= next <= input.tokens.len(),
            Err(_) => true,
        },
    decreases input.tokens.len() - pos,
{
    if is_name_at(input, pos) {
        lemma_block_advances(input, pos, found);
        match parse_block(input, pos, found) {
            Err(_) => {},
            Ok((transitions, next)) => {
                lemma_blocks_advance(input, next, transitions);
            },
        }
    }
}

/// A machine that was read ends behind its start and inside the tokens.
pub proof fn lemma_machine_advances(input: Input, pos: int)
    ensures
        match parse_machine(input, pos) {
            Ok((_, next)) => 0 <= pos < next <= input.tokens.len(),
            Err(_) => true,
        },
{
    match expect_name(input, pos) {
        Err(_) => {},
        Ok((name, open)) => {
            if kind_at(input, open) == Some(KindView::OpenBrace) {
                let first = open + 1;
                if kind_at(input, first) == Some(KindView::Ident(initial_states_keyword())) {
                    lemma_names_advance(input, first + 2, Seq::empty());
                    match parse_initial_states(input, first) {
                        Err(_) => {},
                        Ok((_, blocks)) => {
                            lemma_blocks_advance(input, blocks, Seq::empty());
                        },
                    }
                }
            }
        },
    }
}

} // verus!
