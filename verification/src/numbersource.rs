use vstd::prelude::*;

use crate::soundinput::SoundInputId;
use crate::soundprocessor::SoundProcessorId;
use crate::uniqueid::UniqueId;

verus! {

/// Identifies a number source within a sound graph.
#[derive(Debug, Copy, Clone, PartialEq, Eq, Structural, Hash)]
pub struct NumberSourceId(pub usize);

impl NumberSourceId {
    /// The identifier with the given integer.
    pub fn new(value: usize) -> (id: NumberSourceId)
        ensures
            id.0 == value,
    {
        NumberSourceId(value)
    }
}

impl Default for NumberSourceId {
    /// The first identifier, 1.
    fn default() -> (id: NumberSourceId)
        ensures
            id.0 == 1,
    {
        NumberSourceId(1)
    }
}

impl UniqueId for NumberSourceId {
    open spec fn id_value(&self) -> int {
        self.0 as int
    }

    fn with_value(value: usize) -> (id: NumberSourceId) {
        NumberSourceId(value)
    }

    fn value(&self) -> (v: usize) {
        self.0
    }

    fn next(&self) -> (n: NumberSourceId) {
        NumberSourceId(self.0 + 1)
    }
}

/// What a number source belongs to, if anything.
#[derive(Debug, Copy, Clone, PartialEq, Eq, Structural)]
pub enum NumberSourceOwner {
    Nothing,
    SoundProcessor(SoundProcessorId),
    SoundInput(SoundInputId),
}

} // verus!
