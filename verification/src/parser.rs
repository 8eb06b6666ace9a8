//! The parser: from tokens to machines, as the grammar says.

use vstd::prelude::*;
use vstd::string::*;
use crate::error::{GrammarError, GrammarErrorKind};
use crate::event::Event;
use crate::grammar::{
    error_at, expand, expect_mark, expect_name, initial_states_of_text, is_name_at, kind_at,
    lemma_block_advances, lemma_machine_advances, lemma_rule_advances, machine_of_text,
    machines_of_text, name_of_text, parse_block, parse_blocks, parse_initial_states, parse_machine,
    parse_machines, parse_names, parse_rule, parse_rules, transitions_of_text, Input,
};
use crate::initial_state::{InitialState, InitialStates};
use crate::lexer::{lex, token_views, Token, TokenKind};
use crate::machine::{Machine, MachineView, Machines};
use crate::state::State;
use crate::transition::{Transition, TransitionView, Transitions};

verus! {

/// The tokens of a text, and the length of the text in characters.
pub struct Parser<'a> {
    pub tokens: &'a Vec<Token>,
    pub end: usize,
}

impl<'a> View for Parser<'a> {
    type V = Input;

    open spec fn view(&self) -> Input {
        Input { tokens: token_views(self.tokens@), end: self.end }
    }
}

/// What a list of names stands for.
pub open spec fn name_views(names: Seq<String>) -> Seq<Seq<char>> {
    names.map_values(|name: String| name@)
}

/// What a list of transitions stands for.
pub open spec fn transition_views(transitions: Seq<Transition>) -> Seq<TransitionView> {
    transitions.map_values(|t: Transition| t@)
}

/// What a list of machines stands for.
pub open spec fn machine_views(machines: Seq<Machine>) -> Seq<MachineView> {
    machines.map_values(|m: Machine| m@)
}

/// Whether the place that was reached is the one that the grammar gives.
pub open spec fn place_read(read: Result<usize, GrammarError>, due: Result<int, GrammarError>) -> bool {
    match (read, due) {
        (Ok(next), Ok(due_next)) => next == due_next,
        (Err(error), Err(due_error)) => error == due_error,
        _ => false,
    }
}

/// Whether the name that was read is the one that the grammar gives.
pub open spec fn name_read(
    read: Result<(String, usize), GrammarError>,
    due: Result<(Seq<char>, int), GrammarError>,
) -> bool {
    match (read, due) {
        (Ok((name, next)), Ok((due_name, due_next))) => name@ == due_name && next == due_next,
        (Err(error), Err(due_error)) => error == due_error,
        _ => false,
    }
}

/// Whether the names that were read are those that the grammar gives.
pub open spec fn names_read(
    read: Result<(Vec<String>, usize), GrammarError>,
    due: Result<(Seq<Seq<char>>, int), GrammarError>,
) -> bool {
    match (read, due) {
        (Ok((names, next)), Ok((due_names, due_next))) => name_views(names@) == due_names && next
            == due_next,
        (Err(error), Err(due_error)) => error == due_error,
        _ => false,
    }
}

/// Whether the transitions that were read are those that the grammar gives.
pub open spec fn transitions_read(
    read: Result<(Vec<Transition>, usize), GrammarError>,
    due: Result<(Seq<TransitionView>, int), GrammarError>,
) -> bool {
    match (read, due) {
        (Ok((transitions, next)), Ok((due_transitions, due_next))) => transition_views(
            transitions@,
        ) == due_transitions && next == due_next,
        (Err(error), Err(due_error)) => error == due_error,
        _ => false,
    }
}

/// Whether the machine that was read is the one that the grammar gives.
pub open spec fn machine_read(
    read: Result<(Machine, usize), GrammarError>,
    due: Result<(MachineView, int), GrammarError>,
) -> bool {
    match (read, due) {
        (Ok((machine, next)), Ok((due_machine, due_next))) => machine@ == due_machine && next
            == due_next,
        (Err(error), Err(due_error)) => error == due_error,
        _ => false,
    }
}

/// Whether the machines that were read are those that the grammar gives.
pub open spec fn machines_read(
    read: Result<(Vec<Machine>, usize), GrammarError>,
    due: Result<(Seq<MachineView>, int), GrammarError>,
) -> bool {
    match (read, due) {
        (Ok((machines, next)), Ok((due_machines, due_next))) => machine_views(machines@)
            == due_machines && next == due_next,
        (Err(error), Err(due_error)) => error == due_error,
        _ => false,
    }
}

impl<'a> Parser<'a> {
    /// The error of the given kind for the token at `pos`, or for the end of
    /// the text if no token is there.
    pub fn error_at(&self, pos: usize, kind: GrammarErrorKind) -> (error: GrammarError)
        ensures
            error == error_at(self@, pos as int, kind),
    {
        if pos < self.tokens.len() {
            GrammarError { kind, start: self.tokens[pos].start, end: self.tokens[pos].end }
        } else {
            GrammarError { kind, start: self.end, end: self.end }
        }
    }

    /// Whether the token at `pos` is a name.
    pub fn is_name(&self, pos: usize) -> (yes: bool)
        ensures
            yes == is_name_at(self@, pos as int),
    {
        if pos < self.tokens.len() {
            match &self.tokens[pos].kind {
                TokenKind::Ident(_) => true,
                _ => false,
            }
        } else {
            false
        }
    }

    /// Whether the token at `pos` is of the given kind.
    pub fn is_mark(&self, pos: usize, mark: &TokenKind) -> (yes: bool)
        ensures
            yes == (kind_at(self@, pos as int) == Some(mark@)),
    {
        if pos < self.tokens.len() {
            match (&self.tokens[pos].kind, mark) {
                (TokenKind::Ident(name), TokenKind::Ident(other)) => *name == *other,
                (TokenKind::OpenBrace, TokenKind::OpenBrace) => true,
                (TokenKind::CloseBrace, TokenKind::CloseBrace) => true,
                (TokenKind::Comma, TokenKind::Comma) => true,
                (TokenKind::Arrow, TokenKind::Arrow) => true,
                _ => false,
            }
        } else {
            false
        }
    }

    /// Reads the given mark at `pos`; where another token stands, the error
    /// is of the given kind.
    pub fn mark(&self, pos: usize, mark: &TokenKind, kind: GrammarErrorKind) -> (read: Result<
        usize,
        GrammarError,
    >)
        ensures
            place_read(read, expect_mark(self@, pos as int, mark@, kind)),
    {
        if self.is_mark(pos, mark) {
            assert(pos < self.tokens.len());
            Ok(pos + 1)
        } else {
            Err(self.error_at(pos, kind))
        }
    }

    /// Reads a name at `pos`.
    pub fn name(&self, pos: usize) -> (read: Result<(String, usize), GrammarError>)
        ensures
            name_read(read, expect_name(self@, pos as int)),
    {
        if pos < self.tokens.len() {
            match &self.tokens[pos].kind {
                TokenKind::Ident(name) => {
                    return Ok((name.clone(), pos + 1));
                },
                _ => {},
            }
        }
        Err(self.error_at(pos, GrammarErrorKind::ExpectedIdentifier))
    }

    /// Reads names separated by commas from `pos` on, at least one. A comma
    /// may follow the last name.
    pub fn names(&self, pos: usize) -> (read: Result<(Vec<String>, usize), GrammarError>)
        ensures
            names_read(read, parse_names(self@, pos as int, Seq::empty())),
    {
        let mut found: Vec<String> = Vec::new();
        let mut at: usize = pos;
        assert(name_views(found@) =~= Seq::empty());
        loop
            invariant
                parse_names(self@, at as int, name_views(found@)) == parse_names(
                    self@,
                    pos as int,
                    Seq::empty(),
                ),
            decreases self.tokens@.len() - at,
        {
            let ghost before = name_views(found@);
            match self.name(at) {
                Err(error) => {
                    return Err(error);
                },
                Ok((name, next)) => {
                    found.push(name);
                    assert(name_views(found@) =~= before.push(name@));
                    if self.is_mark(next, &TokenKind::Comma) {
                        assert(next < self.tokens.len());
                        if self.is_name(next + 1) {
                            at = next + 1;
                        } else {
                            return Ok((found, next + 1));
                        }
                    } else {
                        return Ok((found, next));
                    }
                },
            }
        }
    }

    /// Reads one rule of the block of `event` at `pos`: the sources, `=>`,
    /// the target. The rule gives one transition for each source, in the
    /// order of the sources.
    pub fn rule(&self, pos: usize, event: &Event) -> (read: Result<
        (Vec<Transition>, usize),
        GrammarError,
    >)
        ensures
            transitions_read(read, parse_rule(self@, pos as int, event@)),
    {
        let (sources, arrow) = match self.names(pos) {
            Err(error) => {
                return Err(error);
            },
            Ok(read) => read,
        };
        let after = match self.mark(arrow, &TokenKind::Arrow, GrammarErrorKind::ExpectedArrow) {
            Err(error) => {
                return Err(error);
            },
            Ok(after) => after,
        };
        let (target, next) = match self.name(after) {
            Err(error) => {
                return Err(error);
            },
            Ok(read) => read,
        };
        let mut transitions: Vec<Transition> = Vec::new();
        let mut i: usize = 0;
        while i < sources.len()
            invariant
                i <= sources.len(),
                transitions@.len() == i,
                forall|k: int|
                    0 <= k < i ==> (#[trigger] transitions@[k])@ == (TransitionView {
                        event: event@,
                        from: sources@[k]@,
                        to: target@,
                    }),
            decreases sources.len() - i,
        {
            transitions.push(
                Transition {
                    event: event.clone(),
                    from: State { name: sources[i].clone() },
                    to: State { name: target.clone() },
                },
            );
            i += 1;
        }
        assert(transition_views(transitions@) =~= expand(event@, name_views(sources@), target@));
        Ok((transitions, next))
    }

    /// Reads the rules of the block of `event` from `pos` on, at least one.
    /// The rules end where no name follows. Their transitions are added to
    /// `found`.
    pub fn rules(&self, pos: usize, event: &Event, found: Vec<Transition>) -> (read: Result<
        (Vec<Transition>, usize),
        GrammarError,
    >)
        ensures
            transitions_read(
                read,
                parse_rules(self@, pos as int, event@, transition_views(found@)),
            ),
    {
        let ghost start = transition_views(found@);
        let mut all = found;
        let mut at: usize = pos;
        loop
            invariant
                start == transition_views(found@),
                parse_rules(self@, at as int, event@, transition_views(all@)) == parse_rules(
                    self@,
                    pos as int,
                    event@,
                    start,
                ),
            decreases self.tokens@.len() - at,
        {
            let ghost before = transition_views(all@);
            proof {
                lemma_rule_advances(self@, at as int, event@);
            }
            match self.rule(at, event) {
                Err(error) => {
                    return Err(error);
                },
                Ok((transitions, next)) => {
                    let mut transitions = transitions;
                    let ghost added = transition_views(transitions@);
                    all.append(&mut transitions);
                    assert(transition_views(all@) =~= before + added);
                    if self.is_name(next) {
                        at = next;
                    } else {
                        return Ok((all, next));
                    }
                },
            }
        }
    }

    /// Reads the block of one event at `pos`: its name and, in braces, its
    /// rules. The transitions are added to `found`.
    pub fn block(&self, pos: usize, found: Vec<Transition>) -> (read: Result<
        (Vec<Transition>, usize),
        GrammarError,
    >)
        ensures
            transitions_read(read, parse_block(self@, pos as int, transition_views(found@))),
    {
        let (name, open) = match self.name(pos) {
            Err(error) => {
                return Err(error);
            },
            Ok(read) => read,
        };
        let event = Event { name };
        let first = match self.mark(
            open,
            &TokenKind::OpenBrace,
            GrammarErrorKind::ExpectedOpenBrace,
        ) {
            Err(error) => {
                return Err(error);
            },
            Ok(first) => first,
        };
        let (transitions, close) = match self.rules(first, &event, found) {
            Err(error) => {
                return Err(error);
            },
            Ok(read) => read,
        };
        match self.mark(close, &TokenKind::CloseBrace, GrammarErrorKind::ExpectedCloseBrace) {
            Err(error) => Err(error),
            Ok(next) => Ok((transitions, next)),
        }
    }

    /// Reads the blocks of events from `pos` on, as many as there are. The
    /// blocks end where no name follows. Their transitions are added to
    /// `found`.
    pub fn blocks(&self, pos: usize, found: Vec<Transition>) -> (read: Result<
        (Vec<Transition>, usize),
        GrammarError,
    >)
        ensures
            transitions_read(read, parse_blocks(self@, pos as int, transition_views(found@))),
    {
        let ghost start = transition_views(found@);
        let mut all = found;
        let mut at: usize = pos;
        while self.is_name(at)
            invariant
                start == transition_views(found@),
                parse_blocks(self@, at as int, transition_views(all@)) == parse_blocks(
                    self@,
                    pos as int,
                    start,
                ),
            decreases self.tokens@.len() - at,
        {
            proof {
                lemma_block_advances(self@, at as int, transition_views(all@));
            }
            match self.block(at, all) {
                Err(error) => {
                    return Err(error);
                },
                Ok((transitions, next)) => {
                    all = transitions;
                    at = next;
                },
            }
        }
        Ok((all, at))
    }

    /// Reads the block of the initial states at `pos`: the keyword and, in
    /// braces, the names of the states, at least one.
    pub fn initial_states(&self, pos: usize) -> (read: Result<(Vec<String>, usize), GrammarError>)
        ensures
            names_read(read, parse_initial_states(self@, pos as int)),
    {
        let keyword = match self.name(pos) {
            Err(_) => {
                return Err(self.error_at(pos, GrammarErrorKind::ExpectedInitialStates));
            },
            Ok((name, _)) => name,
        };
        if keyword != "InitialStates".to_owned() {
            return Err(self.error_at(pos, GrammarErrorKind::ExpectedInitialStates));
        }
        let first = match self.mark(
            pos + 1,
            &TokenKind::OpenBrace,
            GrammarErrorKind::ExpectedOpenBrace,
        ) {
            Err(error) => {
                return Err(error);
            },
            Ok(first) => first,
        };
        let (names, close) = match self.names(first) {
            Err(error) => {
                return Err(error);
            },
            Ok(read) => read,
        };
        match self.mark(close, &TokenKind::CloseBrace, GrammarErrorKind::ExpectedCloseBrace) {
            Err(error) => Err(error),
            Ok(next) => Ok((names, next)),
        }
    }

    /// Reads one machine at `pos`: its name and, in braces, the block of the
    /// initial states and the blocks of the events.
    pub fn machine(&self, pos: usize) -> (read: Result<(Machine, usize), GrammarError>)
        ensures
            machine_read(read, parse_machine(self@, pos as int)),
    {
        let (name, open) = match self.name(pos) {
            Err(error) => {
                return Err(error);
            },
            Ok(read) => read,
        };
        let first = match self.mark(
            open,
            &TokenKind::OpenBrace,
            GrammarErrorKind::ExpectedOpenBrace,
        ) {
            Err(error) => {
                return Err(error);
            },
            Ok(first) => first,
        };
        let (names, blocks) = match self.initial_states(first) {
            Err(error) => {
                return Err(error);
            },
            Ok(read) => read,
        };
        let start: Vec<Transition> = Vec::new();
        assert(transition_views(start@) =~= Seq::empty());
        let (transitions, close) = match self.blocks(blocks, start) {
            Err(error) => {
                return Err(error);
            },
            Ok(read) => read,
        };
        let next = match self.mark(
            close,
            &TokenKind::CloseBrace,
            GrammarErrorKind::ExpectedCloseBrace,
        ) {
            Err(error) => {
                return Err(error);
            },
            Ok(next) => next,
        };
        let initial_states = initial_states_named(names);
        Ok((Machine { name, initial_states, transitions: Transitions(transitions) }, next))
    }

    /// Reads machines from `pos` on, as many as there are. The machines end
    /// where no name follows.
    pub fn machines(&self, pos: usize) -> (read: Result<(Vec<Machine>, usize), GrammarError>)
        ensures
            machines_read(read, parse_machines(self@, pos as int, Seq::empty())),
    {
        let mut found: Vec<Machine> = Vec::new();
        let mut at: usize = pos;
        assert(machine_views(found@) =~= Seq::empty());
        while self.is_name(at)
            invariant
                parse_machines(self@, at as int, machine_views(found@)) == parse_machines(
                    self@,
                    pos as int,
                    Seq::empty(),
                ),
            decreases self.tokens@.len() - at,
        {
            proof {
                lemma_machine_advances(self@, at as int);
            }
            let ghost before = machine_views(found@);
            match self.machine(at) {
                Err(error) => {
                    return Err(error);
                },
                Ok((machine, next)) => {
                    found.push(machine);
                    assert(machine_views(found@) =~= before.push(machine@));
                    at = next;
                },
            }
        }
        Ok((found, at))
    }
}

/// The initial states of the given names, in their order.
pub fn initial_states_named(names: Vec<String>) -> (states: InitialStates)
    ensures
        states@ == name_views(names@),
{
    let mut states: Vec<InitialState> = Vec::new();
    let mut i: usize = 0;
    while i < names.len()
        invariant
            i <= names.len(),
            states@.len() == i,
            forall|k: int| 0 <= k < i ==> (#[trigger] states@[k])@ == names@[k]@,
        decreases names.len() - i,
    {
        states.push(InitialState { name: names[i].clone() });
        i += 1;
    }
    let states = InitialStates(states);
    assert(states@ =~= name_views(names@));
    states
}

impl<'a> Parser<'a> {
    /// What was read, if the tokens end at `read`'s place; else the error for
    /// the token that follows.
    pub fn finish<T>(&self, read: Result<(T, usize), GrammarError>) -> (done: Result<
        T,
        GrammarError,
    >)
        ensures
            match read {
                Err(error) => done == Err::<T, GrammarError>(error),
                Ok((value, next)) => if next == self.tokens@.len() {
                    done == Ok::<T, GrammarError>(value)
                } else {
                    done == Err::<T, GrammarError>(
                        error_at(self@, next as int, GrammarErrorKind::UnexpectedToken),
                    )
                },
            },
    {
        match read {
            Err(error) => Err(error),
            Ok((value, next)) => {
                if next == self.tokens.len() {
                    Ok(value)
                } else {
                    Err(self.error_at(next, GrammarErrorKind::UnexpectedToken))
                }
            },
        }
    }
}

/// Reads a text that is one name.
pub fn parse_name(source: &str) -> (read: Result<String, GrammarError>)
    ensures
        match read {
            Ok(name) => name_of_text(source@) == Ok::<Seq<char>, GrammarError>(name@),
            Err(error) => name_of_text(source@) == Err::<Seq<char>, GrammarError>(error),
        },
{
    let tokens = match lex(source) {
        Err(error) => {
            return Err(error);
        },
        Ok(tokens) => tokens,
    };
    let parser = Parser { tokens: &tokens, end: source.unicode_len() };
    parser.finish(parser.name(0))
}

impl State {
    /// Reads a text that is the name of a state.
    pub fn parse(source: &str) -> (read: Result<State, GrammarError>)
        ensures
            match read {
                Ok(state) => name_of_text(source@) == Ok::<Seq<char>, GrammarError>(state@),
                Err(error) => name_of_text(source@) == Err::<Seq<char>, GrammarError>(error),
            },
    {
        match parse_name(source) {
            Err(error) => Err(error),
            Ok(name) => Ok(State { name }),
        }
    }
}

impl Event {
    /// Reads a text that is the name of an event.
    pub fn parse(source: &str) -> (read: Result<Event, GrammarError>)
        ensures
            match read {
                Ok(event) => name_of_text(source@) == Ok::<Seq<char>, GrammarError>(event@),
                Err(error) => name_of_text(source@) == Err::<Seq<char>, GrammarError>(error),
            },
    {
        match parse_name(source) {
            Err(error) => Err(error),
            Ok(name) => Ok(Event { name }),
        }
    }
}

impl InitialState {
    /// Reads a text that is the name of an initial state.
    pub fn parse(source: &str) -> (read: Result<InitialState, GrammarError>)
        ensures
            match read {
                Ok(state) => name_of_text(source@) == Ok::<Seq<char>, GrammarError>(state@),
                Err(error) => name_of_text(source@) == Err::<Seq<char>, GrammarError>(error),
            },
    {
        match parse_name(source) {
            Err(error) => Err(error),
            Ok(name) => Ok(InitialState { name }),
        }
    }
}

impl InitialStates {
    /// Reads a text that is the block of the initial states of a machine:
    /// `InitialStates { Locked, Unlocked }`.
    pub fn parse(source: &str) -> (read: Result<InitialStates, GrammarError>)
        ensures
            match read {
                Ok(states) => initial_states_of_text(source@) == Ok::<
                    Seq<Seq<char>>,
                    GrammarError,
                >(states@),
                Err(error) => initial_states_of_text(source@) == Err::<
                    Seq<Seq<char>>,
                    GrammarError,
                >(error),
            },
    {
        let tokens = match lex(source) {
            Err(error) => {
                return Err(error);
            },
            Ok(tokens) => tokens,
        };
        let parser = Parser { tokens: &tokens, end: source.unicode_len() };
        match parser.finish(parser.initial_states(0)) {
            Err(error) => Err(error),
            Ok(names) => Ok(initial_states_named(names)),
        }
    }
}

impl Transitions {
    /// Reads a text that is a run of blocks of events, each with its rules:
    /// `Push { Locked, Unlocked => Locked } Coin { Locked => Unlocked }`.
    /// A rule with several sources gives one transition for each of them.
    pub fn parse(source: &str) -> (read: Result<Transitions, GrammarError>)
        ensures
            match read {
                Ok(transitions) => transitions_of_text(source@) == Ok::<
                    Seq<TransitionView>,
                    GrammarError,
                >(transitions@),
                Err(error) => transitions_of_text(source@) == Err::<
                    Seq<TransitionView>,
                    GrammarError,
                >(error),
            },
    {
        let tokens = match lex(source) {
            Err(error) => {
                return Err(error);
            },
            Ok(tokens) => tokens,
        };
        let parser = Parser { tokens: &tokens, end: source.unicode_len() };
        let start: Vec<Transition> = Vec::new();
        assert(transition_views(start@) =~= Seq::empty());
        match parser.finish(parser.blocks(0, start)) {
            Err(error) => Err(error),
            Ok(transitions) => Ok(Transitions(transitions)),
        }
    }
}

impl Machine {
    /// Reads a text that declares one machine.
    pub fn parse(source: &str) -> (read: Result<Machine, GrammarError>)
        ensures
            match read {
                Ok(machine) => machine_of_text(source@) == Ok::<MachineView, GrammarError>(
                    machine@,
                ),
                Err(error) => machine_of_text(source@) == Err::<MachineView, GrammarError>(error),
            },
    {
        let tokens = match lex(source) {
            Err(error) => {
                return Err(error);
            },
            Ok(tokens) => tokens,
        };
        let parser = Parser { tokens: &tokens, end: source.unicode_len() };
        parser.finish(parser.machine(0))
    }
}

impl Machines {
    /// Reads a text that declares machines, one after the other. A text
    /// without tokens declares none.
    pub fn parse(source: &str) -> (read: Result<Machines, GrammarError>)
        ensures
            match read {
                Ok(machines) => machines_of_text(source@) == Ok::<
                    Seq<MachineView>,
                    GrammarError,
                >(machines@),
                Err(error) => machines_of_text(source@) == Err::<
                    Seq<MachineView>,
                    GrammarError,
                >(error),
            },
    {
        let tokens = match lex(source) {
            Err(error) => {
                return Err(error);
            },
            Ok(tokens) => tokens,
        };
        let parser = Parser { tokens: &tokens, end: source.unicode_len() };
        match parser.finish(parser.machines(0)) {
            Err(error) => Err(error),
            Ok(machines) => Ok(Machines(machines)),
        }
    }
}

} // verus!
