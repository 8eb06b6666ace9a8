//! Events: the named triggers of transitions.

use vstd::prelude::*;

verus! {

/// An event of a machine, identified by name.
#[derive(Debug, PartialEq, Eq)]
pub struct Event {
    pub name: String,
}

impl View for Event {
    type V = Seq<char>;

    open spec fn view(&self) -> Seq<char> {
        self.name@
    }
}

impl Clone for Event {
    fn clone(&self) -> (copy: Self)
        ensures
            copy == *self,
    {
        Event { name: self.name.clone() }
    }
}

/// Events in a fixed order.
#[derive(Debug, PartialEq, Eq)]
pub struct Events(pub Vec<Event>);

impl View for Events {
    type V = Seq<Seq<char>>;

    open spec fn view(&self) -> Seq<Seq<char>> {
        self.0@.map_values(|e: Event| e@)
    }
}

impl Events {
    /// Whether an event of the given name is among these.
    pub fn contains(&self, name: &String) -> (found: bool)
        ensures
            found == self@.contains(name@),
    {
        let mut i: usize = 0;
        while i < self.0.len()
            invariant
                i <= self.0.len(),
                forall|k: int| 0 <= k < i ==> self@[k] != name@,
            decreases self.0.len() - i,
        {
            if self.0[i].name == *name {
                assert(self@[i as int] == name@);
                return true;
            }
            i += 1;
        }
        false
    }
}

} // verus!
