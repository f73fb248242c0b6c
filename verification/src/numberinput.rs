use vstd::prelude::*;

use crate::numbersource::NumberSourceId;
use crate::soundinput::SoundInputId;
use crate::soundprocessor::SoundProcessorId;
use crate::uniqueid::UniqueId;

verus! {

/// Identifies a number input within a sound graph.
#[derive(Debug, Copy, Clone, PartialEq, Eq, Structural, Hash)]
pub struct NumberInputId(pub usize);

impl NumberInputId {
    /// The identifier with the given integer.
    pub fn new(value: usize) -> (id: NumberInputId)
        ensures
            id.0 == value,
    {
        NumberInputId(value)
    }
}

impl Default for NumberInputId {
    /// The first identifier, 1.
    fn default() -> (id: NumberInputId)
        ensures
            id.0 == 1,
    {
        NumberInputId(1)
    }
}

impl UniqueId for NumberInputId {
    open spec fn id_value(&self) -> int {
        self.0 as int
    }

    fn with_value(value: usize) -> (id: NumberInputId) {
        NumberInputId(value)
    }

    fn value(&self) -> (v: usize) {
        self.0
    }

    fn next(&self) -> (n: NumberInputId) {
        NumberInputId(self.0 + 1)
    }
}

/// What a number input belongs to.
#[derive(Debug, Copy, Clone, PartialEq, Eq, Structural)]
pub enum NumberInputOwner {
    SoundProcessor(SoundProcessorId),
    SoundInput(SoundInputId),
    NumberSource(NumberSourceId),
}

impl NumberInputOwner {
    /// Whether the owner carries per-state data: sound processors and
    /// sound inputs do, number sources do not.
    pub open spec fn spec_is_stateful(self) -> bool {
        !(self is NumberSource)
    }

    /// Whether the owner carries per-state data.
    pub fn is_stateful(&self) -> (b: bool)
        ensures
            b == self.spec_is_stateful(),
    {
        match self {
            NumberInputOwner::SoundProcessor(_) => true,
            NumberInputOwner::SoundInput(_) => true,
            NumberInputOwner::NumberSource(_) => false,
        }
    }
}

} // verus!
