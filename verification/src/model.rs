//! The finished model of a machine: all that is needed to write out its
//! interface, with nothing left to analyse.

use vstd::prelude::*;
use crate::initial_state::{
    constructor_views, constructors_of, ConstructorView, InitialConstructor, InitialState,
};
use crate::label::{label_views, ArrivalLabel, LabelView};
use crate::machine::{derived_states, lemma_derived_states_complete, Machine, MachineView};
use crate::profile::{arrival_labels, leaving_positions, lemma_outgoing_count, outgoing};
use crate::state::State;
use crate::transition::{
    operation_of, operation_views, operations_of, Operation, OperationView, Transition,
};

verus! {

/// One state of a machine with the labels under which it is entered and the
/// operations that leave it.
#[derive(Debug, PartialEq, Eq)]
pub struct StateProfile {
    pub state: State,
    pub arrival_labels: Vec<ArrivalLabel>,
    pub outgoing: Vec<Operation>,
}

/// What a `StateProfile` stands for.
pub struct ProfileView {
    pub state: Seq<char>,
    pub arrival_labels: Seq<LabelView>,
    pub outgoing: Seq<OperationView>,
}

impl View for StateProfile {
    type V = ProfileView;

    open spec fn view(&self) -> ProfileView {
        ProfileView {
            state: self.state@,
            arrival_labels: label_views(self.arrival_labels@),
            outgoing: operation_views(self.outgoing@),
        }
    }
}

/// The model of one machine: its states in order, each with its profile, and
/// one constructor for each declared initial state.
#[derive(Debug, PartialEq, Eq)]
pub struct MachineModel {
    pub name: String,
    pub states: Vec<StateProfile>,
    pub initial_constructors: Vec<InitialConstructor>,
}

/// What a `MachineModel` stands for.
pub struct ModelView {
    pub name: Seq<char>,
    pub states: Seq<ProfileView>,
    pub initial_constructors: Seq<ConstructorView>,
}

impl View for MachineModel {
    type V = ModelView;

    open spec fn view(&self) -> ModelView {
        ModelView {
            name: self.name@,
            states: self.states@.map_values(|p: StateProfile| p@),
            initial_constructors: constructor_views(self.initial_constructors@),
        }
    }
}

/// The profile of `state` in the machine `m`.
pub open spec fn profile_of(m: MachineView, state: Seq<char>) -> ProfileView {
    ProfileView {
        state,
        arrival_labels: arrival_labels(m, state),
        outgoing: operations_of(m.name, outgoing(m.transitions, state)),
    }
}

/// The model of the machine `m`.
pub open spec fn model_of(m: MachineView) -> ModelView {
    ModelView {
        name: m.name,
        states: derived_states(m).map_values(|state: Seq<char>| profile_of(m, state)),
        initial_constructors: constructors_of(m.name, m.initial_states),
    }
}

/// No operation is merged with another: the operations of a state are as
/// many as the places in the declaration at which a transition leaves it,
/// and each carries out the transition at its place.
pub proof fn lemma_operations_not_merged(m: MachineView, state: Seq<char>)
    ensures
        leaving_positions(m.transitions, state).finite(),
        profile_of(m, state).outgoing.len() == leaving_positions(m.transitions, state).len(),
        forall|k: int|
            0 <= k < profile_of(m, state).outgoing.len() ==> #[trigger] profile_of(
                m,
                state,
            ).outgoing[k] == operation_of(m.name, outgoing(m.transitions, state)[k]),
{
    lemma_outgoing_count(m.transitions, state);
}

/// The model has one profile for each state of the machine, in the order of
/// the states, and no two profiles are of the same state.
pub proof fn lemma_model_states(m: MachineView)
    ensures
        model_of(m).states.len() == derived_states(m).len(),
        forall|k: int|
            0 <= k < derived_states(m).len() ==> (#[trigger] model_of(m).states[k]).state
                == derived_states(m)[k],
        forall|i: int, j: int|
            0 <= i < j < model_of(m).states.len() ==> (#[trigger] model_of(m).states[i]).state != (
            #[trigger] model_of(m).states[j]).state,
{
    lemma_derived_states_complete(m);
}

impl Machine {
    /// The profile of `state` in this machine.
    pub fn profile(&self, state: &State) -> (profile: StateProfile)
        ensures
            profile@ == profile_of(self@, state@),
    {
        let labels = self.arrival_labels(state);
        let leaving = self.outgoing(state);
        let ops = leaving.to_fns(&self.name).operations();
        assert(leaving.0@.map_values(|t: Transition| t@) == leaving@);
        StateProfile { state: state.clone(), arrival_labels: labels, outgoing: ops }
    }

    /// The model of this machine.
    pub fn model(&self) -> (model: MachineModel)
        ensures
            model@ == model_of(self@),
    {
        let states = self.states();
        let mut profiles: Vec<StateProfile> = Vec::new();
        let mut i: usize = 0;
        while i < states.0.len()
            invariant
                i <= states.0.len(),
                profiles@.len() == i,
                forall|k: int|
                    0 <= k < i ==> (#[trigger] profiles@[k])@ == profile_of(self@, states@[k]),
            decreases states.0.len() - i,
        {
            profiles.push(self.profile(&states.0[i]));
            i += 1;
        }
        let made = self.initial_states.to_fn(&self.name).constructors();
        let model = MachineModel {
            name: self.name.clone(),
            states: profiles,
            initial_constructors: made,
        };
        assert(model@.states =~= model_of(self@).states);
        assert(self.initial_states.0@.map_values(|s: InitialState| s@) == self.initial_states@);
        model
    }
}

} // verus!
