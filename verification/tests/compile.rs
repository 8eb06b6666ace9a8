use sad_machine::compile;
use sad_machine::error::{CompileError, GrammarError, GrammarErrorKind};
use sad_machine::event::{Event, Events};
use sad_machine::initial_state::{InitialConstructor, InitialState, InitialStates};
use sad_machine::label::ArrivalLabel;
use sad_machine::lexer::{lex, Token, TokenKind};
use sad_machine::machine::Machine;
use sad_machine::model::{MachineModel, StateProfile};
use sad_machine::state::{State, States};
use sad_machine::transition::{Operation, Transition, Transitions};

fn state(name: &str) -> State {
    State { name: name.to_string() }
}

fn initial(name: &str) -> InitialState {
    InitialState { name: name.to_string() }
}

fn transition(event: &str, from: &str, to: &str) -> Transition {
    Transition { event: Event { name: event.to_string() }, from: state(from), to: state(to) }
}

fn from_event(name: &str) -> ArrivalLabel {
    ArrivalLabel::FromEvent(Event { name: name.to_string() })
}

fn operation(name: &str, machine: &str, target: &str, event: &str) -> Operation {
    Operation {
        name: name.to_string(),
        machine: machine.to_string(),
        target: state(target),
        label: from_event(event),
    }
}

fn constructor(name: &str, machine: &str, target: &str) -> InitialConstructor {
    InitialConstructor {
        name: name.to_string(),
        machine: machine.to_string(),
        state: state(target),
        label: ArrivalLabel::FromInit,
    }
}

const LOCK: &str = "Lock {
    InitialStates { Locked, Unlocked }

    TurnKey {
        Locked => Unlocked
        Unlocked => Locked
    }

    BreakKeyhole {
        Locked, Unlocked => Broken
    }

    Repair {
        Broken => Locked
    }
}";

#[test]
fn lock_is_compiled_to_its_model() {
    let models = compile(LOCK).unwrap();

    let expected = vec![MachineModel {
        name: "Lock".to_string(),
        states: vec![
            StateProfile {
                state: state("Locked"),
                arrival_labels: vec![
                    from_event("TurnKey"),
                    from_event("Repair"),
                    ArrivalLabel::FromInit,
                ],
                outgoing: vec![
                    operation("turn_key", "Lock", "Unlocked", "TurnKey"),
                    operation("break_keyhole", "Lock", "Broken", "BreakKeyhole"),
                ],
            },
            StateProfile {
                state: state("Unlocked"),
                arrival_labels: vec![from_event("TurnKey"), ArrivalLabel::FromInit],
                outgoing: vec![
                    operation("turn_key", "Lock", "Locked", "TurnKey"),
                    operation("break_keyhole", "Lock", "Broken", "BreakKeyhole"),
                ],
            },
            StateProfile {
                state: state("Broken"),
                arrival_labels: vec![from_event("BreakKeyhole")],
                outgoing: vec![operation("repair", "Lock", "Locked", "Repair")],
            },
        ],
        initial_constructors: vec![
            constructor("locked", "Lock", "Locked"),
            constructor("unlocked", "Lock", "Unlocked"),
        ],
    }];

    assert_eq!(models, expected);
}

#[test]
fn lock_states_come_in_the_order_of_the_transitions() {
    let machine = Machine::parse(LOCK).unwrap();

    assert_eq!(
        machine.states(),
        States(vec![state("Locked"), state("Unlocked"), state("Broken")])
    );
}

#[test]
fn machine_without_transitions_has_its_initial_states() {
    let models = compile("M { InitialStates { A } }").unwrap();

    let expected = vec![MachineModel {
        name: "M".to_string(),
        states: vec![StateProfile {
            state: state("A"),
            arrival_labels: vec![ArrivalLabel::FromInit],
            outgoing: vec![],
        }],
        initial_constructors: vec![constructor("a", "M", "A")],
    }];

    assert_eq!(models, expected);
}

#[test]
fn rule_declared_twice_gives_two_operations() {
    let models = compile(
        "Gate { InitialStates { Locked } Coin { Locked => Unlocked Locked => Unlocked } }",
    )
    .unwrap();

    assert_eq!(models.len(), 1);
    let locked = &models[0].states[0];
    assert_eq!(locked.state, state("Locked"));
    assert_eq!(
        locked.outgoing,
        vec![
            operation("coin", "Gate", "Unlocked", "Coin"),
            operation("coin", "Gate", "Unlocked", "Coin"),
        ]
    );
    let unlocked = &models[0].states[1];
    assert_eq!(unlocked.state, state("Unlocked"));
    assert_eq!(unlocked.arrival_labels, vec![from_event("Coin")]);
}

#[test]
fn same_pair_with_other_target_is_kept_apart() {
    let machine = Machine {
        name: "M".to_string(),
        initial_states: InitialStates(vec![initial("A")]),
        transitions: Transitions(vec![
            transition("E", "A", "B"),
            transition("F", "B", "A"),
            transition("E", "A", "C"),
        ]),
    };

    assert_eq!(
        machine.outgoing(&state("A")),
        Transitions(vec![transition("E", "A", "B"), transition("E", "A", "C")])
    );
    assert_eq!(
        machine.profile(&state("A")).outgoing,
        vec![operation("e", "M", "B", "E"), operation("e", "M", "C", "E")]
    );
}

#[test]
fn outgoing_operations_are_as_many_as_the_transitions_from_the_state() {
    let machine = Machine::parse(LOCK).unwrap();

    for s in machine.states().0.iter() {
        let count = machine.transitions.0.iter().filter(|t| t.from == *s).count();
        assert_eq!(machine.profile(s).outgoing.len(), count);
        assert_eq!(machine.outgoing(s).0.len(), count);
    }
    assert_eq!(machine.outgoing(&state("Locked")).0.len(), 2);
    assert_eq!(machine.outgoing(&state("Nowhere")).0.len(), 0);
}

#[test]
fn initial_state_declared_twice_gives_one_label() {
    let machine = Machine::parse("M { InitialStates { A, A } E { B => A } }").unwrap();

    assert_eq!(
        machine.arrival_labels(&state("A")),
        vec![from_event("E"), ArrivalLabel::FromInit]
    );
    assert_eq!(machine.arrival_labels(&state("B")), vec![]);
    assert_eq!(machine.states(), States(vec![state("B"), state("A")]));
    assert_eq!(
        machine.model().initial_constructors,
        vec![constructor("a", "M", "A"), constructor("a", "M", "A")]
    );
}

#[test]
fn event_that_arrives_twice_gives_one_label() {
    let machine = Machine::parse(
        "M { InitialStates { A } E { A => C } F { B => C } E { B => C } G { C => A } }",
    )
    .unwrap();

    assert_eq!(
        machine.arriving_events(&state("C")),
        Events(vec![Event { name: "E".to_string() }, Event { name: "F".to_string() }])
    );
    assert_eq!(
        machine.arrival_labels(&state("C")),
        vec![from_event("E"), from_event("F")]
    );
    assert_eq!(
        machine.arrival_labels(&state("A")),
        vec![from_event("G"), ArrivalLabel::FromInit]
    );
}

#[test]
fn every_mentioned_state_is_derived_once() {
    let machine = Machine::parse(
        "M { InitialStates { Z, A, Y } E { A => B, C => A } F { B => B } }",
    );
    assert!(machine.is_err());

    let machine = Machine::parse(
        "M { InitialStates { Z, A, Y } E { A => B C => A } F { B => B } }",
    )
    .unwrap();
    let states = machine.states();

    assert_eq!(
        states,
        States(vec![state("A"), state("B"), state("C"), state("Z"), state("Y")])
    );
    for t in machine.transitions.0.iter() {
        assert!(states.contains(&t.from.name));
        assert!(states.contains(&t.to.name));
    }
    for i in machine.initial_states.0.iter() {
        assert!(states.contains(&i.name));
    }
    assert!(!states.contains(&"X".to_string()));
    assert!(machine.initial_states.contains(&"Y".to_string()));
    assert!(!machine.initial_states.contains(&"B".to_string()));
}

#[test]
fn compiling_twice_gives_the_same_models() {
    assert_eq!(compile(LOCK), compile(LOCK));
    assert_eq!(compile("M { InitialStates { A } E { }"), compile("M { InitialStates { A } E { }"));
}

#[test]
fn machines_are_compiled_in_the_order_of_the_text() {
    let models = compile("B { InitialStates { X } } A { InitialStates { Y } }").unwrap();

    let names: Vec<String> = models.into_iter().map(|m| m.name).collect();

    assert_eq!(names, vec!["B".to_string(), "A".to_string()]);
}

#[test]
fn malformed_text_gives_no_model() {
    assert_eq!(
        compile("M { InitialStates { A } } N { E { A => B } }"),
        Err(CompileError::Grammar(GrammarError {
            kind: GrammarErrorKind::ExpectedInitialStates,
            start: 30,
            end: 31,
        }))
    );
    assert_eq!(
        compile("M { InitialStates { A } E { A => B # } }"),
        Err(CompileError::Grammar(GrammarError {
            kind: GrammarErrorKind::UnexpectedCharacter,
            start: 35,
            end: 36,
        }))
    );
}

#[test]
fn operation_names_are_in_snake_case() {
    let op = transition("BreakKeyhole", "Locked", "Broken").operation(&"Lock".to_string());
    assert_eq!(op, operation("break_keyhole", "Lock", "Broken", "BreakKeyhole"));

    let made = initial("HalfOpen").constructor(&"Door".to_string());
    assert_eq!(made, constructor("half_open", "Door", "HalfOpen"));
}

#[test]
fn named_operation_keeps_the_given_name() {
    let op = Operation::named(
        "go".to_string(),
        &"M".to_string(),
        &transition("Advance", "A", "B"),
    );
    assert_eq!(op, operation("go", "M", "B", "Advance"));

    let made = InitialConstructor::named("start".to_string(), &"M".to_string(), &initial("A"));
    assert_eq!(made, constructor("start", "M", "A"));
}

#[test]
fn text_is_cut_into_tokens() {
    let tokens = lex("Ab{ x_1,=>}\n").unwrap();

    assert_eq!(
        tokens,
        vec![
            Token { kind: TokenKind::Ident("Ab".to_string()), start: 0, end: 2 },
            Token { kind: TokenKind::OpenBrace, start: 2, end: 3 },
            Token { kind: TokenKind::Ident("x_1".to_string()), start: 4, end: 7 },
            Token { kind: TokenKind::Comma, start: 7, end: 8 },
            Token { kind: TokenKind::Arrow, start: 8, end: 10 },
            Token { kind: TokenKind::CloseBrace, start: 10, end: 11 },
        ]
    );
    assert_eq!(lex("").unwrap(), vec![]);
    assert_eq!(
        lex("a => b =").unwrap_err(),
        GrammarError { kind: GrammarErrorKind::UnexpectedCharacter, start: 7, end: 8 }
    );
}
