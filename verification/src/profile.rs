//! What holds of one state of a machine: the labels under which it is
//! entered, and the transitions that leave it.

use vstd::prelude::*;
use crate::dedup::{
    lemma_stable_dedup_distinct, lemma_stable_dedup_members, lemma_stable_dedup_push, stable_dedup,
};
use crate::event::Events;
use crate::label::{label_views, ArrivalLabel, LabelView};
use crate::machine::{Machine, MachineView};
use crate::state::State;
use crate::transition::{TransitionView, Transitions};

verus! {

/// The test "this transition leads into `state`".
pub open spec fn leads_into(state: Seq<char>) -> spec_fn(TransitionView) -> bool {
    |t: TransitionView| t.to == state
}

/// The test "this transition leaves `state`".
pub open spec fn leaves(state: Seq<char>) -> spec_fn(TransitionView) -> bool {
    |t: TransitionView| t.from == state
}

/// The event of a transition.
pub open spec fn event_of() -> spec_fn(TransitionView) -> Seq<char> {
    |t: TransitionView| t.event
}

/// The label that an event gives.
pub open spec fn from_event() -> spec_fn(Seq<char>) -> LabelView {
    |event: Seq<char>| LabelView::FromEvent(event)
}

/// The transitions that lead into `state`, in the order of their declaration.
pub open spec fn incoming(ts: Seq<TransitionView>, state: Seq<char>) -> Seq<TransitionView> {
    ts.filter(leads_into(state))
}

/// The transitions that leave `state`, in the order of their declaration.
/// Transitions that are declared twice are here twice.
pub open spec fn outgoing(ts: Seq<TransitionView>, state: Seq<char>) -> Seq<TransitionView> {
    ts.filter(leaves(state))
}

/// The events that lead into `state`, each once, in the order in which they
/// first do so.
pub open spec fn arriving_events(ts: Seq<TransitionView>, state: Seq<char>) -> Seq<Seq<char>> {
    stable_dedup(incoming(ts, state).map_values(event_of()))
}

/// The arrival labels of `state`: one label for each event that leads into
/// it, and after them `FromInit` if the state is an initial state.
pub open spec fn arrival_labels(m: MachineView, state: Seq<char>) -> Seq<LabelView> {
    let from_events = arriving_events(m.transitions, state).map_values(from_event());
    if m.initial_states.contains(state) {
        from_events.push(LabelView::FromInit)
    } else {
        from_events
    }
}

/// One more transition adds its event to the arriving events of its target,
/// unless the event is there already, and changes nothing for other states.
pub proof fn lemma_arriving_events_push(ts: Seq<TransitionView>, t: TransitionView, state: Seq<char>)
    ensures
        arriving_events(ts.push(t), state) == if t.to == state {
            crate::dedup::push_unique(arriving_events(ts, state), t.event)
        } else {
            arriving_events(ts, state)
        },
{
    ts.lemma_filter_push(t, leads_into(state));
    if t.to == state {
        let before = incoming(ts, state);
        assert(before.push(t).map_values(event_of()) =~= before.map_values(event_of()).push(
            t.event,
        ));
        lemma_stable_dedup_push(before.map_values(event_of()), t.event);
    }
}

/// The arrival labels are exactly those that are due: `FromInit` is among the
/// labels of a state if and only if the state is declared initial, and the
/// label of an event is among them if and only if some transition under that
/// event leads into the state.
pub proof fn lemma_arrival_labels_correct(m: MachineView, state: Seq<char>)
    ensures
        arrival_labels(m, state).contains(LabelView::FromInit) <==> m.initial_states.contains(
            state,
        ),
        forall|event: Seq<char>| #[trigger]
            arrival_labels(m, state).contains(LabelView::FromEvent(event)) <==> exists|i: int|
                0 <= i < m.transitions.len() && (#[trigger] m.transitions[i]).to == state
                    && m.transitions[i].event == event,
{
    broadcast use vstd::seq_lib::group_filter_ensures;

    let ts = m.transitions;
    let into = incoming(ts, state);
    let events = arriving_events(ts, state);
    let from_events = events.map_values(from_event());
    let labels = arrival_labels(m, state);
    lemma_stable_dedup_members(into.map_values(event_of()));
    if m.initial_states.contains(state) {
        assert(labels[labels.len() - 1] == LabelView::FromInit);
    }
    assert forall|event: Seq<char>| #[trigger]
        labels.contains(LabelView::FromEvent(event)) <==> exists|i: int|
            0 <= i < ts.len() && (#[trigger] ts[i]).to == state && ts[i].event == event by {
        if labels.contains(LabelView::FromEvent(event)) {
            let k = choose|k: int| 0 <= k < labels.len() && labels[k] == LabelView::FromEvent(event);
            assert(k < from_events.len());
            assert(events[k] == event);
            assert(events.contains(event));
            assert(into.map_values(event_of()).contains(event));
            let j = choose|j: int|
                0 <= j < into.len() && into.map_values(event_of())[j] == event;
            assert(into.contains(into[j]));
            ts.lemma_filter_contains_rev(leads_into(state), into[j]);
            let i = choose|i: int| 0 <= i < ts.len() && ts[i] == into[j];
            assert(leads_into(state)(into[j]));
            assert(ts[i].to == state && ts[i].event == event);
        }
        if exists|i: int| 0 <= i < ts.len() && (#[trigger] ts[i]).to == state && ts[i].event == event {
            let i = choose|i: int|
                0 <= i < ts.len() && (#[trigger] ts[i]).to == state && ts[i].event == event;
            assert(leads_into(state)(ts[i]));
            assert(into.contains(ts[i]));
            let j = choose|j: int| 0 <= j < into.len() && into[j] == ts[i];
            assert(into.map_values(event_of())[j] == event);
            assert(into.map_values(event_of()).contains(event));
            assert(events.contains(event));
            let k = choose|k: int| 0 <= k < events.len() && events[k] == event;
            assert(from_events[k] == LabelView::FromEvent(event));
            assert(labels[k] == LabelView::FromEvent(event));
        }
    }
}

/// A state has an arrival label if and only if it can be reached: it is
/// declared initial, or some transition leads into it. A state that is only
/// ever left has none.
pub proof fn lemma_arrival_labels_nonempty(m: MachineView, state: Seq<char>)
    ensures
        arrival_labels(m, state).len() > 0 <==> m.initial_states.contains(state) || exists|i: int|
            0 <= i < m.transitions.len() && (#[trigger] m.transitions[i]).to == state,
{
    lemma_arrival_labels_correct(m, state);
    let labels = arrival_labels(m, state);
    if labels.len() > 0 {
        assert(labels.contains(labels[0]));
        match labels[0] {
            LabelView::FromInit => {},
            LabelView::FromEvent(event) => {
                assert(labels.contains(LabelView::FromEvent(event)));
            },
        }
    }
    if exists|i: int| 0 <= i < m.transitions.len() && (#[trigger] m.transitions[i]).to == state {
        let i = choose|i: int| 0 <= i < m.transitions.len() && (#[trigger] m.transitions[i]).to
            == state;
        assert(labels.contains(LabelView::FromEvent(m.transitions[i].event)));
    }
}

/// No arrival label stands twice. However often a state is declared initial,
/// its labels hold `FromInit` once, in the last place, and however often an
/// event leads into it, they hold the event's label once.
pub proof fn lemma_arrival_labels_distinct(m: MachineView, state: Seq<char>)
    ensures
        arrival_labels(m, state).no_duplicates(),
        forall|k: int|
            0 <= k < arrival_labels(m, state).len() && #[trigger] arrival_labels(m, state)[k]
                == LabelView::FromInit ==> k == arrival_labels(m, state).len() - 1,
{
    let events = arriving_events(m.transitions, state);
    lemma_stable_dedup_distinct(incoming(m.transitions, state).map_values(event_of()));
    let from_events = events.map_values(from_event());
    assert forall|a: int, b: int|
        0 <= a < from_events.len() && 0 <= b < from_events.len() && a != b implies from_events[a]
        != from_events[b] by {
        assert(events[a] != events[b]);
    }
}

/// The positions of the transitions that leave `state`.
pub open spec fn leaving_positions(ts: Seq<TransitionView>, state: Seq<char>) -> Set<int> {
    Set::new(|i: int| 0 <= i < ts.len() && ts[i].from == state)
}

/// No transition is merged with another: the transitions that leave a state
/// are as many as the places in the declaration at which a transition leaves
/// it.
pub proof fn lemma_outgoing_count(ts: Seq<TransitionView>, state: Seq<char>)
    ensures
        leaving_positions(ts, state).finite(),
        outgoing(ts, state).len() == leaving_positions(ts, state).len(),
    decreases ts.len(),
{
    if ts.len() == 0 {
        reveal(Seq::filter);
        assert(leaving_positions(ts, state) =~= Set::empty());
    } else {
        let front = ts.drop_last();
        let last = ts.last();
        lemma_outgoing_count(front, state);
        assert(front.push(last) =~= ts);
        front.lemma_filter_push(last, leaves(state));
        if last.from == state {
            assert(leaving_positions(ts, state) =~= leaving_positions(front, state).insert(
                ts.len() - 1,
            ));
        } else {
            assert(leaving_positions(ts, state) =~= leaving_positions(front, state));
        }
    }
}

impl Machine {
    /// The events that lead into `state`, each once, in the order in which
    /// they first do so.
    pub fn arriving_events(&self, state: &State) -> (events: Events)
        ensures
            events@ == arriving_events(self@.transitions, state@),
    {
        let mut events = Events(Vec::new());
        let ghost ts = self.transitions@;
        proof {
            reveal(Seq::filter);
            assert(ts.take(0) =~= Seq::empty());
            assert(events@ =~= arriving_events(ts.take(0), state@));
        }
        let mut i: usize = 0;
        while i < self.transitions.0.len()
            invariant
                ts == self.transitions@,
                i <= self.transitions.0.len(),
                events@ == arriving_events(ts.take(i as int), state@),
            decreases self.transitions.0.len() - i,
        {
            let t = &self.transitions.0[i];
            proof {
                assert(ts.take(i + 1) =~= ts.take(i as int).push(ts[i as int]));
                lemma_arriving_events_push(ts.take(i as int), ts[i as int], state@);
            }
            if t.to.same_as(state) && !events.contains(&t.event.name) {
                let ghost old_view = events@;
                events.0.push(t.event.clone());
                assert(events@ =~= old_view.push(t@.event));
            }
            i += 1;
        }
        assert(ts.take(self.transitions.0.len() as int) =~= ts);
        events
    }

    /// The arrival labels of `state`: one label for each event that leads
    /// into it, and last `FromInit` if the state is declared initial. However
    /// often an event leads into the state or the state is declared initial,
    /// the label stands once.
    pub fn arrival_labels(&self, state: &State) -> (labels: Vec<ArrivalLabel>)
        ensures
            label_views(labels@) == arrival_labels(self@, state@),
    {
        let events = self.arriving_events(state);
        let mut labels: Vec<ArrivalLabel> = Vec::new();
        let mut i: usize = 0;
        while i < events.0.len()
            invariant
                i <= events.0.len(),
                labels@.len() == i,
                forall|k: int|
                    0 <= k < i ==> (#[trigger] labels@[k])@ == LabelView::FromEvent(events@[k]),
            decreases events.0.len() - i,
        {
            labels.push(ArrivalLabel::FromEvent(events.0[i].clone()));
            i += 1;
        }
        assert(label_views(labels@) =~= events@.map_values(from_event()));
        if self.initial_states.contains(&state.name) {
            let ghost old_view = label_views(labels@);
            labels.push(ArrivalLabel::FromInit);
            assert(label_views(labels@) =~= old_view.push(LabelView::FromInit));
        }
        labels
    }

    /// The transitions that leave `state`, in the order of their
    /// declaration. None is dropped and none is merged with another: a
    /// transition that is declared twice is returned twice.
    pub fn outgoing(&self, state: &State) -> (leaving: Transitions)
        ensures
            leaving@ == outgoing(self@.transitions, state@),
    {
        let mut leaving = Transitions(Vec::new());
        let ghost ts = self.transitions@;
        proof {
            reveal(Seq::filter);
            assert(ts.take(0) =~= Seq::empty());
            assert(leaving@ =~= outgoing(ts.take(0), state@));
        }
        let mut i: usize = 0;
        while i < self.transitions.0.len()
            invariant
                ts == self.transitions@,
                i <= self.transitions.0.len(),
                leaving@ == outgoing(ts.take(i as int), state@),
            decreases self.transitions.0.len() - i,
        {
            let t = &self.transitions.0[i];
            proof {
                assert(ts.take(i + 1) =~= ts.take(i as int).push(ts[i as int]));
                ts.take(i as int).lemma_filter_push(ts[i as int], leaves(state@));
            }
            if t.from.same_as(state) {
                let ghost old_view = leaving@;
                leaving.0.push(t.clone());
                assert(leaving@ =~= old_view.push(t@));
            }
            i += 1;
        }
        assert(ts.take(self.transitions.0.len() as int) =~= ts);
        leaving
    }
}

} // verus!
