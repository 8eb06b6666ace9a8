//! Transitions: the edges of a machine, and the operations made from them.

use vstd::prelude::*;
use crate::casing::{snake_case, to_snake_case};
use crate::event::Event;
use crate::label::{ArrivalLabel, LabelView};
use crate::state::State;

verus! {

/// One edge of a machine: under `event`, the machine goes from `from` to `to`.
#[derive(Debug, PartialEq, Eq)]
pub struct Transition {
    pub event: Event,
    pub from: State,
    pub to: State,
}

/// What a `Transition` stands for: the three names.
pub struct TransitionView {
    pub event: Seq<char>,
    pub from: Seq<char>,
    pub to: Seq<char>,
}

impl View for Transition {
    type V = TransitionView;

    open spec fn view(&self) -> TransitionView {
        TransitionView { event: self.event@, from: self.from@, to: self.to@ }
    }
}

impl Clone for Transition {
    fn clone(&self) -> (copy: Self)
        ensures
            copy == *self,
    {
        Transition { event: self.event.clone(), from: self.from.clone(), to: self.to.clone() }
    }
}

/// The transitions of one machine, in the order of their declaration.
#[derive(Debug, PartialEq, Eq)]
pub struct Transitions(pub Vec<Transition>);

impl View for Transitions {
    type V = Seq<TransitionView>;

    open spec fn view(&self) -> Seq<TransitionView> {
        self.0@.map_values(|t: Transition| t@)
    }
}

/// An operation of the generated interface: a call that takes a machine from
/// one state into `target`, which it enters under `label`.
#[derive(Debug, PartialEq, Eq)]
pub struct Operation {
    /// The operation's name: the event's name in snake case.
    pub name: String,
    /// The name of the machine, the type that the operation returns.
    pub machine: String,
    /// The state that the machine is in afterwards.
    pub target: State,
    /// The label under which `target` is entered.
    pub label: ArrivalLabel,
}

/// What an `Operation` stands for.
pub struct OperationView {
    pub name: Seq<char>,
    pub machine: Seq<char>,
    pub target: Seq<char>,
    pub label: LabelView,
}

impl View for Operation {
    type V = OperationView;

    open spec fn view(&self) -> OperationView {
        OperationView {
            name: self.name@,
            machine: self.machine@,
            target: self.target@,
            label: self.label@,
        }
    }
}

/// What a list of operations stands for.
pub open spec fn operation_views(ops: Seq<Operation>) -> Seq<OperationView> {
    ops.map_values(|op: Operation| op@)
}

/// The operations that carry out the transitions `ts` on `machine`, one for
/// each transition and in their order.
pub open spec fn operations_of(machine: Seq<char>, ts: Seq<TransitionView>) -> Seq<OperationView> {
    ts.map_values(|t: TransitionView| operation_of(machine, t))
}

/// The operation under the given name that carries out `t` on `machine`.
pub open spec fn named_operation(
    name: Seq<char>,
    machine: Seq<char>,
    t: TransitionView,
) -> OperationView {
    OperationView { name, machine, target: t.to, label: LabelView::FromEvent(t.event) }
}

/// The operation that carries out `t` on `machine`, named by the event in
/// snake case.
pub open spec fn operation_of(machine: Seq<char>, t: TransitionView) -> OperationView {
    named_operation(snake_case(t.event), machine, t)
}

impl Operation {
    /// The operation called `name` that carries out `transition` on the
    /// machine called `machine`.
    pub fn named(name: String, machine: &String, transition: &Transition) -> (op: Operation)
        ensures
            op@ == named_operation(name@, machine@, transition@),
    {
        Operation {
            name,
            machine: machine.clone(),
            target: transition.to.clone(),
            label: ArrivalLabel::FromEvent(transition.event.clone()),
        }
    }
}

impl Transition {
    /// The operation that carries out this transition on the machine called
    /// `machine`.
    pub fn operation(&self, machine: &String) -> (op: Operation)
        ensures
            op@ == operation_of(machine@, self@),
    {
        let name = to_snake_case(self.event.name.as_str());
        Operation::named(name, machine, self)
    }
}

/// The transitions of a machine together with the machine's name: what the
/// operations are made from.
#[derive(Debug, PartialEq, Eq)]
pub struct TransitionFns {
    pub enum_name: String,
    pub transitions: Vec<Transition>,
}

impl Transitions {
    /// A copy of the transitions.
    pub fn to_vec(&self) -> (copy: Vec<Transition>)
        ensures
            copy@ == self.0@,
    {
        let mut copy: Vec<Transition> = Vec::new();
        let mut i: usize = 0;
        while i < self.0.len()
            invariant
                i <= self.0.len(),
                copy@ == self.0@.take(i as int),
            decreases self.0.len() - i,
        {
            copy.push(self.0[i].clone());
            assert(self.0@.take(i + 1) == self.0@.take(i as int).push(self.0@[i as int]));
            i += 1;
        }
        assert(self.0@.take(self.0.len() as int) == self.0@);
        copy
    }

    /// Pairs the transitions with the name of their machine.
    pub fn to_fns(&self, enum_name: &String) -> (fns: TransitionFns)
        ensures
            fns.enum_name@ == enum_name@,
            fns.transitions@ == self.0@,
    {
        TransitionFns { enum_name: enum_name.clone(), transitions: self.to_vec() }
    }
}

impl TransitionFns {
    /// One operation for each transition, in the order of the transitions.
    /// Transitions that agree in every name still give one operation each.
    pub fn operations(&self) -> (ops: Vec<Operation>)
        ensures
            operation_views(ops@) == operations_of(
                self.enum_name@,
                self.transitions@.map_values(|t: Transition| t@),
            ),
    {
        let mut ops: Vec<Operation> = Vec::new();
        let mut i: usize = 0;
        while i < self.transitions.len()
            invariant
                i <= self.transitions.len(),
                ops@.len() == i,
                forall|k: int|
                    0 <= k < i ==> (#[trigger] ops@[k])@ == operation_of(
                        self.enum_name@,
                        self.transitions@[k]@,
                    ),
            decreases self.transitions.len() - i,
        {
            ops.push(self.transitions[i].operation(&self.enum_name));
            i += 1;
        }
        assert(operation_views(ops@) =~= operations_of(
            self.enum_name@,
            self.transitions@.map_values(|t: Transition| t@),
        ));
        ops
    }
}

} // verus!
