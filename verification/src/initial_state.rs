//! Initial states: the states in which a machine may be constructed.

use vstd::prelude::*;
use crate::casing::{snake_case, to_snake_case};
use crate::label::{ArrivalLabel, LabelView};
use crate::state::State;

verus! {

/// The name of a state in which the machine may start.
#[derive(Debug, PartialEq, Eq)]
pub struct InitialState {
    pub name: String,
}

impl View for InitialState {
    type V = Seq<char>;

    open spec fn view(&self) -> Seq<char> {
        self.name@
    }
}

impl Clone for InitialState {
    fn clone(&self) -> (copy: Self)
        ensures
            copy == *self,
    {
        InitialState { name: self.name.clone() }
    }
}

/// The initial states of one machine, in the order of their declaration.
#[derive(Debug, PartialEq, Eq)]
pub struct InitialStates(pub Vec<InitialState>);

impl View for InitialStates {
    type V = Seq<Seq<char>>;

    open spec fn view(&self) -> Seq<Seq<char>> {
        self.0@.map_values(|s: InitialState| s@)
    }
}

/// A constructor of the generated interface: a call that makes the machine in
/// `state`, which it enters under `label`.
#[derive(Debug, PartialEq, Eq)]
pub struct InitialConstructor {
    /// The constructor's name: the state's name in snake case.
    pub name: String,
    /// The name of the machine, the type that the constructor returns.
    pub machine: String,
    /// The state that the machine starts in.
    pub state: State,
    /// The label under which `state` is entered: always `FromInit`.
    pub label: ArrivalLabel,
}

/// What an `InitialConstructor` stands for.
pub struct ConstructorView {
    pub name: Seq<char>,
    pub machine: Seq<char>,
    pub state: Seq<char>,
    pub label: LabelView,
}

impl View for InitialConstructor {
    type V = ConstructorView;

    open spec fn view(&self) -> ConstructorView {
        ConstructorView {
            name: self.name@,
            machine: self.machine@,
            state: self.state@,
            label: self.label@,
        }
    }
}

/// What a list of constructors stands for.
pub open spec fn constructor_views(made: Seq<InitialConstructor>) -> Seq<ConstructorView> {
    made.map_values(|c: InitialConstructor| c@)
}

/// The constructors that make `machine` in the states `initial`, one for each
/// entry and in their order.
pub open spec fn constructors_of(machine: Seq<char>, initial: Seq<Seq<char>>) -> Seq<
    ConstructorView,
> {
    initial.map_values(|s: Seq<char>| constructor_of(machine, s))
}

/// The constructor under the given name that makes `machine` in `state`.
pub open spec fn named_constructor(
    name: Seq<char>,
    machine: Seq<char>,
    state: Seq<char>,
) -> ConstructorView {
    ConstructorView { name, machine, state, label: LabelView::FromInit }
}

/// The constructor that makes `machine` in `state`, named by the state in
/// snake case.
pub open spec fn constructor_of(machine: Seq<char>, state: Seq<char>) -> ConstructorView {
    named_constructor(snake_case(state), machine, state)
}

impl InitialConstructor {
    /// The constructor called `name` that makes the machine called `machine`
    /// in the state `initial`.
    pub fn named(name: String, machine: &String, initial: &InitialState) -> (made:
        InitialConstructor)
        ensures
            made@ == named_constructor(name@, machine@, initial@),
    {
        InitialConstructor {
            name,
            machine: machine.clone(),
            state: State { name: initial.name.clone() },
            label: ArrivalLabel::FromInit,
        }
    }
}

impl InitialState {
    /// The constructor that makes the machine called `machine` in this state.
    pub fn constructor(&self, machine: &String) -> (made: InitialConstructor)
        ensures
            made@ == constructor_of(machine@, self@),
    {
        let name = to_snake_case(self.name.as_str());
        InitialConstructor::named(name, machine, self)
    }
}

/// The initial states of a machine together with the machine's name: what the
/// constructors are made from.
#[derive(Debug, PartialEq, Eq)]
pub struct InitialStateFns {
    pub enum_name: String,
    pub initial_states: Vec<InitialState>,
}

impl InitialStates {
    /// Whether a state of the given name is declared initial.
    pub fn contains(&self, name: &String) -> (found: bool)
        ensures
            found == self@.contains(name@),
    {
        let mut i: usize = 0;
        while i < self.0.len()
            invariant
                i <= self.0.len(),
                forall|k: int| 0 <= k < i ==> self@[k] != name@,
            decreases self.0.len() - i,
        {
            if self.0[i].name == *name {
                assert(self@[i as int] == name@);
                return true;
            }
            i += 1;
        }
        false
    }

    /// A copy of the initial states.
    pub fn to_vec(&self) -> (copy: Vec<InitialState>)
        ensures
            copy@ == self.0@,
    {
        let mut copy: Vec<InitialState> = Vec::new();
        let mut i: usize = 0;
        while i < self.0.len()
            invariant
                i <= self.0.len(),
                copy@ == self.0@.take(i as int),
            decreases self.0.len() - i,
        {
            copy.push(self.0[i].clone());
            assert(self.0@.take(i + 1) == self.0@.take(i as int).push(self.0@[i as int]));
            i += 1;
        }
        assert(self.0@.take(self.0.len() as int) == self.0@);
        copy
    }

    /// Pairs the initial states with the name of their machine.
    pub fn to_fn(&self, enum_name: &String) -> (fns: InitialStateFns)
        ensures
            fns.enum_name@ == enum_name@,
            fns.initial_states@ == self.0@,
    {
        InitialStateFns { enum_name: enum_name.clone(), initial_states: self.to_vec() }
    }
}

impl InitialStateFns {
    /// One constructor for each declared initial state, in the order of the
    /// declarations.
    pub fn constructors(&self) -> (made: Vec<InitialConstructor>)
        ensures
            constructor_views(made@) == constructors_of(
                self.enum_name@,
                self.initial_states@.map_values(|s: InitialState| s@),
            ),
    {
        let mut made: Vec<InitialConstructor> = Vec::new();
        let mut i: usize = 0;
        while i < self.initial_states.len()
            invariant
                i <= self.initial_states.len(),
                made@.len() == i,
                forall|k: int|
                    0 <= k < i ==> (#[trigger] made@[k])@ == constructor_of(
                        self.enum_name@,
                        self.initial_states@[k]@,
                    ),
            decreases self.initial_states.len() - i,
        {
            made.push(self.initial_states[i].constructor(&self.enum_name));
            i += 1;
        }
        assert(constructor_views(made@) =~= constructors_of(
            self.enum_name@,
            self.initial_states@.map_values(|s: InitialState| s@),
        ));
        made
    }
}

} // verus!
