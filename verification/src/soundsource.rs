use vstd::prelude::*;

verus! {

/// Identifies a sound source.
#[derive(Debug, Copy, Clone, PartialEq, Eq, Structural, Hash)]
pub struct SoundSourceId {
    pub id: usize,
}

} // verus!
