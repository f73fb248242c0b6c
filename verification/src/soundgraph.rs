use vstd::prelude::*;

verus! {

/// Why starting or stopping audio was refused.
#[derive(Copy, Clone, Debug, PartialEq, Eq, Structural)]
pub enum AudioError {
    AlreadyStarted,
    AlreadyStopped,
}

} // verus!
