use sad_machine::error::{GrammarError, GrammarErrorKind};
use sad_machine::event::Event;
use sad_machine::initial_state::{InitialState, InitialStates};
use sad_machine::machine::{Machine, Machines};
use sad_machine::state::State;
use sad_machine::transition::{Transition, Transitions};

fn initial(name: &str) -> InitialState {
    InitialState { name: name.to_string() }
}

fn transition(event: &str, from: &str, to: &str) -> Transition {
    Transition {
        event: Event { name: event.to_string() },
        from: State { name: from.to_string() },
        to: State { name: to.to_string() },
    }
}

fn error(kind: GrammarErrorKind, start: usize, end: usize) -> GrammarError {
    GrammarError { kind, start, end }
}

#[test]
fn test_initial_state_parse() {
    let left = InitialState::parse("Unlocked").unwrap();
    let right = InitialState { name: "Unlocked".to_string() };

    assert_eq!(left, right);
}

#[test]
fn test_initial_states_parse() {
    let left = InitialStates::parse("InitialStates { Locked, Unlocked }").unwrap();

    let right = InitialStates(vec![initial("Locked"), initial("Unlocked")]);

    assert_eq!(left, right);
}

#[test]
fn test_event_parse() {
    let left = Event::parse("Push").unwrap();
    let right = Event { name: "Push".to_string() };

    assert_eq!(left, right);
}

#[test]
fn test_state_parse() {
    let left = State::parse("Unlocked").unwrap();
    let right = State { name: "Unlocked".to_string() };

    assert_eq!(left, right);
}

#[test]
fn test_transitions_parse() {
    let left = Transitions::parse(
        "Push { Locked, Unlocked => Locked }
         Coin { Locked, Unlocked => Unlocked }",
    )
    .unwrap();

    let right = Transitions(vec![
        transition("Push", "Locked", "Locked"),
        transition("Push", "Unlocked", "Locked"),
        transition("Coin", "Locked", "Unlocked"),
        transition("Coin", "Unlocked", "Unlocked"),
    ]);

    assert_eq!(left, right);
}

#[test]
fn test_machine_parse() {
    let left = Machine::parse(
        "TurnStile {
            InitialStates { Locked, Unlocked }

            Coin { Locked => Unlocked }
            Push { Unlocked => Locked }
        }",
    )
    .unwrap();

    let right = Machine {
        name: "TurnStile".to_string(),
        initial_states: InitialStates(vec![initial("Locked"), initial("Unlocked")]),
        transitions: Transitions(vec![
            transition("Coin", "Locked", "Unlocked"),
            transition("Push", "Unlocked", "Locked"),
        ]),
    };

    assert_eq!(left, right);
}

#[test]
fn machine_test_machine_parse() {
    let left = Machine::parse(
        "turn_stile {
            InitialStates { Locked, Unlocked }

            Coin { Locked => Unlocked }
            Push { Unlocked => Locked }
        }",
    )
    .unwrap();

    let right = Machine {
        name: "turn_stile".to_string(),
        initial_states: InitialStates(vec![initial("Locked"), initial("Unlocked")]),
        transitions: Transitions(vec![
            transition("Coin", "Locked", "Unlocked"),
            transition("Push", "Unlocked", "Locked"),
        ]),
    };

    assert_eq!(left, right);
}

#[test]
fn test_machines_parse() {
    let left = Machines::parse(
        "turn_stile {
            InitialStates { Locked, Unlocked }

            Coin { Locked => Unlocked }
            Push { Unlocked => Locked }
        }

        Lock {
            InitialStates { Locked, Unlocked }

            TurnKey {
                Locked => Unlocked
                Unlocked => Locked
             }
        }",
    )
    .unwrap();

    let right = Machines(vec![
        Machine {
            name: "turn_stile".to_string(),
            initial_states: InitialStates(vec![initial("Locked"), initial("Unlocked")]),
            transitions: Transitions(vec![
                transition("Coin", "Locked", "Unlocked"),
                transition("Push", "Unlocked", "Locked"),
            ]),
        },
        Machine {
            name: "Lock".to_string(),
            initial_states: InitialStates(vec![initial("Locked"), initial("Unlocked")]),
            transitions: Transitions(vec![
                transition("TurnKey", "Locked", "Unlocked"),
                transition("TurnKey", "Unlocked", "Locked"),
            ]),
        },
    ]);

    assert_eq!(left, right);
}

#[test]
fn source_list_expands_to_one_transition_per_source() {
    let left = Transitions::parse("E { A, B => C }").unwrap();

    let right = Transitions(vec![transition("E", "A", "C"), transition("E", "B", "C")]);

    assert_eq!(left, right);
}

#[test]
fn repeated_rules_are_all_kept() {
    let left = Transitions::parse("Coin { Locked => Unlocked Locked => Unlocked }").unwrap();

    let right = Transitions(vec![
        transition("Coin", "Locked", "Unlocked"),
        transition("Coin", "Locked", "Unlocked"),
    ]);

    assert_eq!(left, right);
}

#[test]
fn trailing_commas_are_tolerated() {
    let states = InitialStates::parse("InitialStates { A, B, }").unwrap();
    assert_eq!(states, InitialStates(vec![initial("A"), initial("B")]));

    let transitions = Transitions::parse("E { A, B, => C }").unwrap();
    assert_eq!(
        transitions,
        Transitions(vec![transition("E", "A", "C"), transition("E", "B", "C")])
    );
}

#[test]
fn layout_does_not_matter() {
    let tight = Machine::parse("M{InitialStates{A}E{A=>B}}").unwrap();
    let loose = Machine::parse("\n M \t{\r\n InitialStates { A }\n E {\n A\n =>\n B }\n }\n").unwrap();

    assert_eq!(tight, loose);
    assert_eq!(
        tight,
        Machine {
            name: "M".to_string(),
            initial_states: InitialStates(vec![initial("A")]),
            transitions: Transitions(vec![transition("E", "A", "B")]),
        }
    );
}

#[test]
fn text_without_tokens_declares_no_machine() {
    assert_eq!(Machines::parse("").unwrap(), Machines(vec![]));
    assert_eq!(Machines::parse(" \n\t ").unwrap(), Machines(vec![]));
}

#[test]
fn machine_without_blocks_is_read() {
    let left = Machine::parse("M { InitialStates { A } }").unwrap();

    let right = Machine {
        name: "M".to_string(),
        initial_states: InitialStates(vec![initial("A")]),
        transitions: Transitions(vec![]),
    };

    assert_eq!(left, right);
}

#[test]
fn names_hold_letters_digits_and_underscores() {
    assert_eq!(State::parse("_a1_B2").unwrap(), State { name: "_a1_B2".to_string() });
    assert_eq!(
        State::parse("1a"),
        Err(error(GrammarErrorKind::UnexpectedCharacter, 0, 1))
    );
}

#[test]
fn unknown_character_is_refused_where_it_stands() {
    assert_eq!(
        Machines::parse("M { InitialStates { A } E { A -> B } }"),
        Err(error(GrammarErrorKind::UnexpectedCharacter, 30, 31))
    );
    assert_eq!(
        Machines::parse("M { InitialStates { A } E { A = B } }"),
        Err(error(GrammarErrorKind::UnexpectedCharacter, 30, 31))
    );
    assert_eq!(
        State::parse("é"),
        Err(error(GrammarErrorKind::UnexpectedCharacter, 0, 1))
    );
}

#[test]
fn places_count_characters() {
    assert_eq!(
        Machines::parse("M { é"),
        Err(error(GrammarErrorKind::UnexpectedCharacter, 4, 5))
    );
}

#[test]
fn missing_name_is_an_error() {
    assert_eq!(
        Machine::parse("{ InitialStates { A } }"),
        Err(error(GrammarErrorKind::ExpectedIdentifier, 0, 1))
    );
    assert_eq!(State::parse(""), Err(error(GrammarErrorKind::ExpectedIdentifier, 0, 0)));
    assert_eq!(
        Transitions::parse("E { A => }"),
        Err(error(GrammarErrorKind::ExpectedIdentifier, 9, 10))
    );
    assert_eq!(
        Transitions::parse("E { => B }"),
        Err(error(GrammarErrorKind::ExpectedIdentifier, 4, 6))
    );
}

#[test]
fn empty_initial_states_are_an_error() {
    assert_eq!(
        InitialStates::parse("InitialStates { }"),
        Err(error(GrammarErrorKind::ExpectedIdentifier, 16, 17))
    );
}

#[test]
fn empty_event_block_is_an_error() {
    assert_eq!(
        Transitions::parse("E { }"),
        Err(error(GrammarErrorKind::ExpectedIdentifier, 4, 5))
    );
}

#[test]
fn missing_open_brace_is_an_error() {
    assert_eq!(
        Machine::parse("M InitialStates { A } }"),
        Err(error(GrammarErrorKind::ExpectedOpenBrace, 2, 15))
    );
    assert_eq!(
        InitialStates::parse("InitialStates A }"),
        Err(error(GrammarErrorKind::ExpectedOpenBrace, 14, 15))
    );
    assert_eq!(
        Transitions::parse("E A => B }"),
        Err(error(GrammarErrorKind::ExpectedOpenBrace, 2, 3))
    );
}

#[test]
fn unbalanced_braces_are_an_error() {
    assert_eq!(
        Machine::parse("M { InitialStates { A } E { A => B }"),
        Err(error(GrammarErrorKind::ExpectedCloseBrace, 36, 36))
    );
    assert_eq!(
        Machine::parse("M { InitialStates { A  E { A => B } }"),
        Err(error(GrammarErrorKind::ExpectedCloseBrace, 23, 24))
    );
    assert_eq!(
        Transitions::parse("E { A => B"),
        Err(error(GrammarErrorKind::ExpectedCloseBrace, 10, 10))
    );
    assert_eq!(
        Machine::parse("M { InitialStates { A } , }"),
        Err(error(GrammarErrorKind::ExpectedCloseBrace, 24, 25))
    );
}

#[test]
fn source_where_an_arrow_is_due_is_an_error() {
    assert_eq!(
        Transitions::parse("E { A B => C }"),
        Err(error(GrammarErrorKind::ExpectedArrow, 6, 7))
    );
    assert_eq!(
        Transitions::parse("E { A }"),
        Err(error(GrammarErrorKind::ExpectedArrow, 6, 7))
    );
    assert_eq!(
        Transitions::parse("E { A, , => C }"),
        Err(error(GrammarErrorKind::ExpectedArrow, 7, 8))
    );
}

#[test]
fn missing_initial_states_block_is_an_error() {
    assert_eq!(
        Machine::parse("M { E { A => B } }"),
        Err(error(GrammarErrorKind::ExpectedInitialStates, 4, 5))
    );
    assert_eq!(
        Machine::parse("M { }"),
        Err(error(GrammarErrorKind::ExpectedInitialStates, 4, 5))
    );
    assert_eq!(
        Machine::parse("M {"),
        Err(error(GrammarErrorKind::ExpectedInitialStates, 3, 3))
    );
    assert_eq!(
        InitialStates::parse("initialStates { A }"),
        Err(error(GrammarErrorKind::ExpectedInitialStates, 0, 13))
    );
}

#[test]
fn text_after_the_end_is_an_error() {
    assert_eq!(
        State::parse("Locked Unlocked"),
        Err(error(GrammarErrorKind::UnexpectedToken, 7, 15))
    );
    assert_eq!(
        Machines::parse("M { InitialStates { A } } }"),
        Err(error(GrammarErrorKind::UnexpectedToken, 26, 27))
    );
    assert_eq!(
        Machine::parse("M { InitialStates { A } } N { InitialStates { A } }"),
        Err(error(GrammarErrorKind::UnexpectedToken, 26, 27))
    );
}
