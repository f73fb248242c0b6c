use vstd::prelude::*;

use crate::numberinput::NumberInputId;
use crate::numbersource::NumberSourceId;
use crate::path::{NumberPath, SoundPath};
use crate::soundinput::SoundInputId;
use crate::soundprocessor::SoundProcessorId;

verus! {

/// Why a change to the sound connections of a graph was refused.
#[derive(Debug)]
pub enum SoundConnectionError {
    NoChange,
    CircularDependency { cycle: SoundPath },
    StaticTooManyStates(SoundProcessorId),
    StaticNotRealtime(SoundProcessorId),
    ProcessorNotFound(SoundProcessorId),
    InputNotFound(SoundInputId),
    InputOccupied { input_id: SoundInputId, current_target: SoundProcessorId },
}

/// Why a change to the number connections of a graph was refused.
#[derive(Debug)]
pub enum NumberConnectionError {
    NoChange,
    CircularDependency { cycle: NumberPath },
    InputNotFound(NumberInputId),
    InputOccupied(NumberInputId, NumberSourceId),
    SourceNotFound(NumberSourceId),
    StateNotInScope { path: NumberPath },
}

/// Either kind of connection error.
#[derive(Debug)]
pub enum ConnectionError {
    Number(NumberConnectionError),
    Sound(SoundConnectionError),
}

impl From<SoundConnectionError> for ConnectionError {
    fn from(e: SoundConnectionError) -> (r: ConnectionError) {
        ConnectionError::Sound(e)
    }
}

impl vstd::std_specs::convert::FromSpecImpl<SoundConnectionError> for ConnectionError {
    open spec fn obeys_from_spec() -> bool {
        true
    }

    open spec fn from_spec(e: SoundConnectionError) -> ConnectionError {
        ConnectionError::Sound(e)
    }
}

impl From<NumberConnectionError> for ConnectionError {
    fn from(e: NumberConnectionError) -> (r: ConnectionError) {
        ConnectionError::Number(e)
    }
}

impl vstd::std_specs::convert::FromSpecImpl<NumberConnectionError> for ConnectionError {
    open spec fn obeys_from_spec() -> bool {
        true
    }

    open spec fn from_spec(e: NumberConnectionError) -> ConnectionError {
        ConnectionError::Number(e)
    }
}

} // verus!
