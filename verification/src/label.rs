//! Arrival labels: how a state was reached.

use vstd::prelude::*;
use crate::event::Event;

verus! {

/// The way in which a machine came to be in a state: through an event, or by
/// being constructed in it.
#[derive(Debug, PartialEq, Eq)]
pub enum ArrivalLabel {
    /// Some transition under this event leads into the state.
    FromEvent(Event),
    /// The state is one of the machine's initial states.
    FromInit,
}

/// What an `ArrivalLabel` stands for.
pub enum LabelView {
    FromEvent(Seq<char>),
    FromInit,
}

impl View for ArrivalLabel {
    type V = LabelView;

    open spec fn view(&self) -> LabelView {
        match self {
            ArrivalLabel::FromEvent(event) => LabelView::FromEvent(event@),
            ArrivalLabel::FromInit => LabelView::FromInit,
        }
    }
}

impl Clone for ArrivalLabel {
    fn clone(&self) -> (copy: Self)
        ensures
            copy == *self,
    {
        match self {
            ArrivalLabel::FromEvent(event) => ArrivalLabel::FromEvent(event.clone()),
            ArrivalLabel::FromInit => ArrivalLabel::FromInit,
        }
    }
}

/// What a list of labels stands for.
pub open spec fn label_views(labels: Seq<ArrivalLabel>) -> Seq<LabelView> {
    labels.map_values(|l: ArrivalLabel| l@)
}

} // verus!
