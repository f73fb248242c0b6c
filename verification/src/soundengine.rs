use vstd::prelude::*;

verus! {

/// Whether states are being added or taken away.
#[derive(Copy, Clone, Debug, PartialEq, Eq, Structural)]
pub enum StateOperation {
    Insert,
    Erase,
}

/// Whether the sound engine goes on playing after handling its messages.
#[derive(Copy, Clone, Debug, PartialEq, Eq, Structural)]
pub enum PlaybackStatus {
    Continue,
    Stop,
}

} // verus!
