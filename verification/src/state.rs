//! States: the nodes of a machine, identified by name.

use vstd::prelude::*;

verus! {

/// A state of a machine. Two states are the same state when their names are
/// equal, character for character.
#[derive(Debug, PartialEq, Eq)]
pub struct State {
    pub name: String,
}

impl View for State {
    type V = Seq<char>;

    open spec fn view(&self) -> Seq<char> {
        self.name@
    }
}

impl Clone for State {
    fn clone(&self) -> (copy: Self)
        ensures
            copy == *self,
    {
        State { name: self.name.clone() }
    }
}

impl State {
    /// Whether `self` and `other` are the same state.
    pub fn same_as(&self, other: &State) -> (same: bool)
        ensures
            same == (self@ == other@),
    {
        self.name == other.name
    }
}

/// The states of one machine, in the order in which they were found.
#[derive(Debug, PartialEq, Eq)]
pub struct States(pub Vec<State>);

impl View for States {
    type V = Seq<Seq<char>>;

    open spec fn view(&self) -> Seq<Seq<char>> {
        self.0@.map_values(|s: State| s@)
    }
}

impl States {
    /// Whether a state of the given name is among these.
    pub fn contains(&self, name: &String) -> (found: bool)
        ensures
            found == self@.contains(name@),
    {
        let mut i: usize = 0;
        while i < self.0.len()
            invariant
                i <= self.0.len(),
                forall|k: int| 0 <= k < i ==> self@[k] != name@,
            decreases self.0.len() - i,
        {
            if self.0[i].name == *name {
                assert(self@[i as int] == name@);
                return true;
            }
            i += 1;
        }
        false
    }
}

} // verus!
