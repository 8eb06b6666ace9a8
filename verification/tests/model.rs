use sad_machine::event::Event;
use sad_machine::initial_state::{InitialConstructor, InitialState, InitialStates};
use sad_machine::label::ArrivalLabel;
use sad_machine::machine::{Machine, Machines};
use sad_machine::model::{MachineModel, StateProfile};
use sad_machine::state::{State, States};
use sad_machine::transition::{Operation, Transition, Transitions};

fn state(name: &str) -> State {
    State { name: name.to_string() }
}

fn initial(name: &str) -> InitialState {
    InitialState { name: name.to_string() }
}

fn transition(event: &str, from: &str, to: &str) -> Transition {
    Transition { event: Event { name: event.to_string() }, from: state(from), to: state(to) }
}

fn from_event(name: &str) -> ArrivalLabel {
    ArrivalLabel::FromEvent(Event { name: name.to_string() })
}

fn operation(name: &str, machine: &str, target: &str, event: &str) -> Operation {
    Operation {
        name: name.to_string(),
        machine: machine.to_string(),
        target: state(target),
        label: from_event(event),
    }
}

fn constructor(name: &str, machine: &str, target: &str) -> InitialConstructor {
    InitialConstructor {
        name: name.to_string(),
        machine: machine.to_string(),
        state: state(target),
        label: ArrivalLabel::FromInit,
    }
}

fn turn_stile(name: &str) -> Machine {
    Machine {
        name: name.to_string(),
        initial_states: InitialStates(vec![initial("Locked"), initial("Unlocked")]),
        transitions: Transitions(vec![
            transition("Coin", "Locked", "Unlocked"),
            transition("Push", "Unlocked", "Locked"),
        ]),
    }
}

fn turn_stile_model(name: &str) -> MachineModel {
    MachineModel {
        name: name.to_string(),
        states: vec![
            StateProfile {
                state: state("Locked"),
                arrival_labels: vec![from_event("Push"), ArrivalLabel::FromInit],
                outgoing: vec![operation("coin", name, "Unlocked", "Coin")],
            },
            StateProfile {
                state: state("Unlocked"),
                arrival_labels: vec![from_event("Coin"), ArrivalLabel::FromInit],
                outgoing: vec![operation("push", name, "Locked", "Push")],
            },
        ],
        initial_constructors: vec![
            constructor("locked", name, "Locked"),
            constructor("unlocked", name, "Unlocked"),
        ],
    }
}

#[test]
fn test_initial_states_to_tokens() {
    let initial_states = InitialStates(vec![initial("Locked"), initial("Unlocked")])
        .to_fn(&"Door".to_string());

    assert_eq!(initial_states.enum_name, "Door");
    assert_eq!(initial_states.initial_states, vec![initial("Locked"), initial("Unlocked")]);

    let left = vec![
        constructor("locked", "Door", "Locked"),
        constructor("unlocked", "Door", "Unlocked"),
    ];

    assert_eq!(left, initial_states.constructors());
}

#[test]
fn test_transitions_to_tokens() {
    let transitions = Transitions(vec![
        transition("Push", "Locked", "Locked"),
        transition("Push", "Unlocked", "Locked"),
        transition("Coin", "Locked", "Unlocked"),
        transition("Coin", "Unlocked", "Unlocked"),
    ])
    .to_fns(&"TurnStile".to_string());

    assert_eq!(transitions.enum_name, "TurnStile");
    assert_eq!(transitions.transitions.len(), 4);

    let left = vec![
        operation("push", "TurnStile", "Locked", "Push"),
        operation("push", "TurnStile", "Locked", "Push"),
        operation("coin", "TurnStile", "Unlocked", "Coin"),
        operation("coin", "TurnStile", "Unlocked", "Coin"),
    ];

    assert_eq!(left, transitions.operations());
}

#[test]
fn test_machine_to_tokens() {
    let machine = Machine {
        name: "TurnStile".to_string(),
        initial_states: InitialStates(vec![initial("Unlocked"), initial("Locked")]),
        transitions: Transitions(vec![transition("Push", "Unlocked", "Locked")]),
    };

    let left = MachineModel {
        name: "TurnStile".to_string(),
        states: vec![
            StateProfile {
                state: state("Unlocked"),
                arrival_labels: vec![ArrivalLabel::FromInit],
                outgoing: vec![operation("push", "TurnStile", "Locked", "Push")],
            },
            StateProfile {
                state: state("Locked"),
                arrival_labels: vec![from_event("Push"), ArrivalLabel::FromInit],
                outgoing: vec![],
            },
        ],
        initial_constructors: vec![
            constructor("unlocked", "TurnStile", "Unlocked"),
            constructor("locked", "TurnStile", "Locked"),
        ],
    };

    assert_eq!(left, machine.model());
}

#[test]
fn machine_test_machine_to_tokens() {
    let machine = Machine {
        name: "turn_stile".to_string(),
        initial_states: InitialStates(vec![initial("Unlocked"), initial("Locked")]),
        transitions: Transitions(vec![transition("Push", "Unlocked", "Locked")]),
    };

    let left = MachineModel {
        name: "turn_stile".to_string(),
        states: vec![
            StateProfile {
                state: state("Unlocked"),
                arrival_labels: vec![ArrivalLabel::FromInit],
                outgoing: vec![operation("push", "turn_stile", "Locked", "Push")],
            },
            StateProfile {
                state: state("Locked"),
                arrival_labels: vec![from_event("Push"), ArrivalLabel::FromInit],
                outgoing: vec![],
            },
        ],
        initial_constructors: vec![
            constructor("unlocked", "turn_stile", "Unlocked"),
            constructor("locked", "turn_stile", "Locked"),
        ],
    };

    assert_eq!(left, machine.model());
}

#[test]
fn test_machines_to_tokens() {
    let machines = Machines(vec![
        turn_stile("turn_stile"),
        Machine {
            name: "lock".to_string(),
            initial_states: InitialStates(vec![initial("Locked"), initial("Unlocked")]),
            transitions: Transitions(vec![
                transition("TurnKey", "Locked", "Unlocked"),
                transition("TurnKey", "Unlocked", "Locked"),
            ]),
        },
    ]);

    let left = vec![
        turn_stile_model("turn_stile"),
        MachineModel {
            name: "lock".to_string(),
            states: vec![
                StateProfile {
                    state: state("Locked"),
                    arrival_labels: vec![from_event("TurnKey"), ArrivalLabel::FromInit],
                    outgoing: vec![operation("turn_key", "lock", "Unlocked", "TurnKey")],
                },
                StateProfile {
                    state: state("Unlocked"),
                    arrival_labels: vec![from_event("TurnKey"), ArrivalLabel::FromInit],
                    outgoing: vec![operation("turn_key", "lock", "Locked", "TurnKey")],
                },
            ],
            initial_constructors: vec![
                constructor("locked", "lock", "Locked"),
                constructor("unlocked", "lock", "Unlocked"),
            ],
        },
    ];

    assert_eq!(left, machines.models());
}

#[test]
fn test_machine_enum_to_tokens() {
    let machine = turn_stile("turn_stile");

    assert_eq!(machine.states(), States(vec![state("Locked"), state("Unlocked")]));
    assert_eq!(
        machine.arrival_labels(&state("Locked")),
        vec![from_event("Push"), ArrivalLabel::FromInit]
    );
    assert_eq!(
        machine.arrival_labels(&state("Unlocked")),
        vec![from_event("Coin"), ArrivalLabel::FromInit]
    );
}

#[test]
fn machine_test_machine_enum_to_tokens() {
    let model = turn_stile("turn_stile").model();

    let labels: Vec<(State, Vec<ArrivalLabel>)> =
        model.states.into_iter().map(|p| (p.state, p.arrival_labels)).collect();

    assert_eq!(
        labels,
        vec![
            (state("Locked"), vec![from_event("Push"), ArrivalLabel::FromInit]),
            (state("Unlocked"), vec![from_event("Coin"), ArrivalLabel::FromInit]),
        ]
    );
}

#[test]
fn state_transition_tokens() {
    let machine = turn_stile("TurnStile");

    assert_eq!(
        machine.outgoing(&state("Locked")),
        Transitions(vec![transition("Coin", "Locked", "Unlocked")])
    );
    assert_eq!(
        machine.outgoing(&state("Unlocked")),
        Transitions(vec![transition("Push", "Unlocked", "Locked")])
    );
    assert_eq!(
        machine.profile(&state("Locked")).outgoing,
        vec![operation("coin", "TurnStile", "Unlocked", "Coin")]
    );
    assert_eq!(
        machine.profile(&state("Unlocked")).outgoing,
        vec![operation("push", "TurnStile", "Locked", "Push")]
    );
}

#[test]
fn state_transition_state_transition_tokens() {
    let model = turn_stile("State").model();

    let operations: Vec<(State, Vec<Operation>)> =
        model.states.into_iter().map(|p| (p.state, p.outgoing)).collect();

    assert_eq!(
        operations,
        vec![
            (state("Locked"), vec![operation("coin", "State", "Unlocked", "Coin")]),
            (state("Unlocked"), vec![operation("push", "State", "Locked", "Push")]),
        ]
    );
}

#[test]
fn initial_states_alone_are_the_states() {
    let machine = Machine {
        name: "M".to_string(),
        initial_states: InitialStates(vec![initial("Locked"), initial("Unlocked")]),
        transitions: Transitions(vec![]),
    };

    assert_eq!(machine.states(), States(vec![state("Locked"), state("Unlocked")]));
}
