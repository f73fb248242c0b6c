use vstd::prelude::*;

use crate::numberinput::NumberInputId;
use crate::numbersource::NumberSourceId;
use crate::soundinput::SoundInputId;
use crate::soundprocessor::SoundProcessorId;

verus! {

/// Identifies any item of a sound graph.
#[derive(Debug, Copy, Clone, PartialEq, Eq, Structural, Hash)]
pub enum GraphId {
    SoundProcessor(SoundProcessorId),
    SoundInput(SoundInputId),
    NumberSource(NumberSourceId),
    NumberInput(NumberInputId),
}

/// Identifies an object of a sound graph that has its own ui.
#[derive(Debug, Copy, Clone, PartialEq, Eq, Structural, Hash)]
pub enum ObjectId {
    Sound(SoundProcessorId),
}

impl ObjectId {
    /// The graph item this object is.
    pub fn as_graph_id(&self) -> (g: GraphId)
        ensures
            g == match *self {
                ObjectId::Sound(p) => GraphId::SoundProcessor(p),
            },
    {
        match self {
            ObjectId::Sound(p) => GraphId::SoundProcessor(*p),
        }
    }
}

} // verus!
