//! The compilation: from the source text to the models of its machines.

use vstd::prelude::*;
use crate::error::CompileError;
use crate::grammar::machines_of_text;
use crate::machine::{MachineView, Machines};
use crate::model::{model_of, MachineModel, ModelView};

verus! {

/// What a list of models stands for.
pub open spec fn model_views(models: Seq<MachineModel>) -> Seq<ModelView> {
    models.map_values(|m: MachineModel| m@)
}

/// The models of the given machines, one for each and in their order.
pub open spec fn models_of(machines: Seq<MachineView>) -> Seq<ModelView> {
    machines.map_values(|m: MachineView| model_of(m))
}

/// What compiling `text` gives: the models of the machines that the text
/// declares, or the error at the first place where the text is malformed.
pub open spec fn compiled(text: Seq<char>) -> Result<Seq<ModelView>, CompileError> {
    match machines_of_text(text) {
        Err(error) => Err(CompileError::Grammar(error)),
        Ok(machines) => Ok(models_of(machines)),
    }
}

/// What the result of a compilation stands for.
pub open spec fn outcome(result: Result<Vec<MachineModel>, CompileError>) -> Result<
    Seq<ModelView>,
    CompileError,
> {
    match result {
        Ok(models) => Ok(model_views(models@)),
        Err(error) => Err(error),
    }
}

impl Machines {
    /// The models of the machines, one for each and in their order.
    pub fn models(&self) -> (models: Vec<MachineModel>)
        ensures
            model_views(models@) == models_of(self@),
    {
        let mut models: Vec<MachineModel> = Vec::new();
        let mut i: usize = 0;
        while i < self.0.len()
            invariant
                i <= self.0.len(),
                models@.len() == i,
                forall|k: int| 0 <= k < i ==> (#[trigger] models@[k])@ == model_of(self.0@[k]@),
            decreases self.0.len() - i,
        {
            models.push(self.0[i].model());
            i += 1;
        }
        assert(model_views(models@) =~= models_of(self@));
        models
    }
}

/// Compiles a source text: reads the machines that it declares and gives the
/// model of each, in the order of the text. A malformed text gives the error
/// at its first fault, and no model.
pub fn compile(source: &str) -> (result: Result<Vec<MachineModel>, CompileError>)
    ensures
        outcome(result) == compiled(source@),
{
    match Machines::parse(source) {
        Err(error) => Err(CompileError::Grammar(error)),
        Ok(machines) => Ok(machines.models()),
    }
}

/// Compiling is a function of the text: two compilations of the same text
/// give the same models, state for state, label for label and operation for
/// operation, or the same error.
pub proof fn lemma_compile_deterministic(
    text: Seq<char>,
    first: Result<Vec<MachineModel>, CompileError>,
    second: Result<Vec<MachineModel>, CompileError>,
)
    requires
        outcome(first) == compiled(text),
        outcome(second) == compiled(text),
    ensures
        outcome(first) == outcome(second),
{
}

} // verus!
