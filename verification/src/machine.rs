//! Machines: a name, the initial states and the transitions, and the states
//! that are derived from them.

use vstd::prelude::*;
use crate::dedup::{
    first_position, lemma_stable_dedup_distinct, lemma_stable_dedup_members,
    lemma_stable_dedup_order, lemma_stable_dedup_push, stable_dedup,
};
use crate::initial_state::InitialStates;
use crate::state::{State, States};
use crate::transition::{TransitionView, Transitions};

verus! {

/// One machine as it was declared.
#[derive(Debug, PartialEq, Eq)]
pub struct Machine {
    pub name: String,
    pub initial_states: InitialStates,
    pub transitions: Transitions,
}

/// What a `Machine` stands for.
pub struct MachineView {
    pub name: Seq<char>,
    pub initial_states: Seq<Seq<char>>,
    pub transitions: Seq<TransitionView>,
}

impl View for Machine {
    type V = MachineView;

    open spec fn view(&self) -> MachineView {
        MachineView {
            name: self.name@,
            initial_states: self.initial_states@,
            transitions: self.transitions@,
        }
    }
}

/// The machines of one source text, in the order of their declaration. No
/// machine refers to another.
#[derive(Debug, PartialEq, Eq)]
pub struct Machines(pub Vec<Machine>);

impl View for Machines {
    type V = Seq<MachineView>;

    open spec fn view(&self) -> Seq<MachineView> {
        self.0@.map_values(|m: Machine| m@)
    }
}

/// The states that the transitions name, in the order of the text: the source
/// of the first transition, its target, the source of the second, and so on.
pub open spec fn endpoints(ts: Seq<TransitionView>) -> Seq<Seq<char>> {
    Seq::new(
        2 * ts.len(),
        |i: int|
            if i % 2 == 0 {
                ts[i / 2].from
            } else {
                ts[i / 2].to
            },
    )
}

/// Every mention of a state in the machine: the ends of the transitions
/// first, then the initial states.
pub open spec fn mentions(m: MachineView) -> Seq<Seq<char>> {
    endpoints(m.transitions) + m.initial_states
}

/// The states of the machine: each state that is mentioned, once, in the
/// order of the first mentions.
pub open spec fn derived_states(m: MachineView) -> Seq<Seq<char>> {
    stable_dedup(mentions(m))
}

/// One more transition adds its source and its target to the endpoints.
pub proof fn lemma_endpoints_push(ts: Seq<TransitionView>, t: TransitionView)
    ensures
        endpoints(ts.push(t)) == endpoints(ts).push(t.from).push(t.to),
{
    assert(endpoints(ts.push(t)) =~= endpoints(ts).push(t.from).push(t.to));
}

/// The derived states are complete and hold no state twice: both ends of
/// every transition and every initial state are among them, every one of them
/// is such an end or an initial state, and no two of them have the same name.
pub proof fn lemma_derived_states_complete(m: MachineView)
    ensures
        forall|i: int|
            0 <= i < m.transitions.len() ==> derived_states(m).contains(
                (#[trigger] m.transitions[i]).from,
            ) && derived_states(m).contains(m.transitions[i].to),
        forall|j: int|
            0 <= j < m.initial_states.len() ==> derived_states(m).contains(
                #[trigger] m.initial_states[j],
            ),
        forall|state: Seq<char>| #[trigger]
            derived_states(m).contains(state) ==> m.initial_states.contains(state) || exists|
                i: int,
            |
                0 <= i < m.transitions.len() && ((#[trigger] m.transitions[i]).from == state
                    || m.transitions[i].to == state),
        derived_states(m).no_duplicates(),
{
    let ts = m.transitions;
    let all = mentions(m);
    lemma_stable_dedup_members(all);
    lemma_stable_dedup_distinct(all);
    assert forall|i: int| 0 <= i < ts.len() implies derived_states(m).contains(
        (#[trigger] ts[i]).from,
    ) && derived_states(m).contains(ts[i].to) by {
        assert(all[2 * i] == ts[i].from);
        assert(all[2 * i + 1] == ts[i].to);
    }
    assert forall|j: int| 0 <= j < m.initial_states.len() implies derived_states(m).contains(
        #[trigger] m.initial_states[j],
    ) by {
        assert(all[2 * ts.len() + j] == m.initial_states[j]);
    }
    assert forall|state: Seq<char>| #[trigger]
        derived_states(m).contains(state) implies m.initial_states.contains(state) || exists|
        i: int,
    |
        0 <= i < ts.len() && ((#[trigger] ts[i]).from == state || ts[i].to == state) by {
        assert(all.contains(state));
        let k = choose|k: int| 0 <= k < all.len() && all[k] == state;
        if k < 2 * ts.len() {
            let i = k / 2;
            assert(0 <= i < ts.len() && (ts[i].from == state || ts[i].to == state));
        } else {
            assert(m.initial_states[k - 2 * ts.len()] == state);
        }
    }
}

/// The derived states stand in the order in which they are first mentioned:
/// of two of them, the one that stands first is the one that the ends of the
/// transitions, followed by the initial states, name first.
pub proof fn lemma_derived_states_order(m: MachineView)
    ensures
        forall|i: int, j: int|
            0 <= i < j < derived_states(m).len() ==> first_position(
                mentions(m),
                #[trigger] derived_states(m)[i],
            ) < first_position(mentions(m), #[trigger] derived_states(m)[j]),
{
    lemma_stable_dedup_order(mentions(m));
}

/// A machine without transitions has its initial states for states, each
/// once, in the order of their declaration.
pub proof fn lemma_derived_states_without_transitions(m: MachineView)
    requires
        m.transitions.len() == 0,
    ensures
        derived_states(m) == stable_dedup(m.initial_states),
{
    assert(mentions(m) =~= m.initial_states);
}

impl Machine {
    /// The states of the machine.
    ///
    /// The transitions are read in the order of their declaration, the source
    /// of each before its target; the initial states follow. A state enters
    /// the result where it is first met, and only there.
    pub fn states(&self) -> (states: States)
        ensures
            states@ == derived_states(self@),
    {
        let mut states = States(Vec::new());
        let ghost ts = self.transitions@;
        let ghost inits = self.initial_states@;
        assert(states@ =~= stable_dedup(endpoints(ts.take(0)))) by {
            assert(endpoints(ts.take(0)) =~= Seq::empty());
        }
        let mut i: usize = 0;
        while i < self.transitions.0.len()
            invariant
                ts == self.transitions@,
                i <= self.transitions.0.len(),
                states@ == stable_dedup(endpoints(ts.take(i as int))),
            decreases self.transitions.0.len() - i,
        {
            let t = &self.transitions.0[i];
            let ghost before = endpoints(ts.take(i as int));
            proof {
                assert(ts.take(i + 1) =~= ts.take(i as int).push(ts[i as int]));
                lemma_endpoints_push(ts.take(i as int), ts[i as int]);
                lemma_stable_dedup_push(before, t@.from);
                lemma_stable_dedup_push(before.push(t@.from), t@.to);
            }
            if !states.contains(&t.from.name) {
                let ghost old_view = states@;
                states.0.push(t.from.clone());
                assert(states@ =~= old_view.push(t@.from));
            }
            if !states.contains(&t.to.name) {
                let ghost old_view = states@;
                states.0.push(t.to.clone());
                assert(states@ =~= old_view.push(t@.to));
            }
            i += 1;
        }
        assert(ts.take(self.transitions.0.len() as int) =~= ts);
        assert(endpoints(ts) + inits.take(0) =~= endpoints(ts));
        let mut j: usize = 0;
        while j < self.initial_states.0.len()
            invariant
                ts == self.transitions@,
                inits == self.initial_states@,
                j <= self.initial_states.0.len(),
                states@ == stable_dedup(endpoints(ts) + inits.take(j as int)),
            decreases self.initial_states.0.len() - j,
        {
            let initial = &self.initial_states.0[j];
            proof {
                assert(endpoints(ts) + inits.take(j + 1) =~= (endpoints(ts) + inits.take(
                    j as int,
                )).push(inits[j as int]));
                lemma_stable_dedup_push(endpoints(ts) + inits.take(j as int), initial@);
            }
            if !states.contains(&initial.name) {
                let ghost old_view = states@;
                states.0.push(State { name: initial.name.clone() });
                assert(states@ =~= old_view.push(initial@));
            }
            j += 1;
        }
        assert(inits.take(self.initial_states.0.len() as int) =~= inits);
        states
    }
}

} // verus!
