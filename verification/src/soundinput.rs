use vstd::prelude::*;

use crate::uniqueid::UniqueId;

use crate::gridspan::GridSpan;
use crate::statetable::{SoundState, StateTable};

verus! {

/// Identifies a sound input within a sound graph.
#[derive(Debug, Copy, Clone, PartialEq, Eq, Structural, Hash)]
pub struct SoundInputId(pub usize);

impl SoundInputId {
    /// The identifier with the given integer.
    pub fn new(value: usize) -> (id: SoundInputId)
        ensures
            id.0 == value,
    {
        SoundInputId(value)
    }
}

impl Default for SoundInputId {
    /// The first identifier, 1.
    fn default() -> (id: SoundInputId)
        ensures
            id.0 == 1,
    {
        SoundInputId(1)
    }
}

impl UniqueId for SoundInputId {
    open spec fn id_value(&self) -> int {
        self.0 as int
    }

    fn with_value(value: usize) -> (id: SoundInputId) {
        SoundInputId(value)
    }

    fn value(&self) -> (v: usize) {
        self.0
    }

    fn next(&self) -> (n: SoundInputId) {
        SoundInputId(self.0 + 1)
    }
}

/// How a sound processor promises to drive one of its inputs.
#[derive(Debug, Copy, Clone, PartialEq, Eq, Structural)]
pub struct InputOptions {
    /// Will the input ever be paused or reset by the sound processor?
    pub interruptible: bool,
    /// Will the input's speed of time always be the same as the sound processor's?
    pub realtime: bool,
}

/// A change requested of a keyed sound input.
#[derive(Debug, Copy, Clone, PartialEq, Eq, Structural)]
pub enum KeyedSoundInputMessage {
    /// Insert a key into the input's key range.
    AddKey(u64),
    /// Erase the key at the given position of the input's key range.
    RemoveKey(usize),
}

/// The handle through which a sound processor refers to one of its
/// single (unkeyed) inputs.
pub struct SingleSoundInputHandle {
    id: SoundInputId,
}

impl SingleSoundInputHandle {
    /// The input's identifier, as given when the handle was made.
    pub closed spec fn spec_id(&self) -> SoundInputId {
        self.id
    }

    /// A handle for the input with the given identifier.
    pub fn new(id: SoundInputId) -> (h: SingleSoundInputHandle)
        ensures
            h.spec_id() == id,
    {
        SingleSoundInputHandle { id }
    }

    /// The identifier of the input this handle refers to.
    pub fn id(&self) -> (id: SoundInputId)
        ensures
            id == self.spec_id(),
    {
        self.id
    }
}

/// A sound input without keys: one state for each state of the processor
/// it belongs to.
pub struct SingleSoundInput<T> {
    state_table: StateTable<T>,
    options: InputOptions,
    id: SoundInputId,
}

impl<T: SoundState> SingleSoundInput<T> {
    pub closed spec fn spec_id(&self) -> SoundInputId {
        self.id
    }

    pub closed spec fn spec_options(&self) -> InputOptions {
        self.options
    }

    /// The input's states.
    pub closed spec fn spec_states(&self) -> Seq<T> {
        self.state_table.spec_states()
    }

    /// A new input with no states, and the handle to it.
    pub fn new(id: SoundInputId, options: InputOptions) -> (r: (Box<SingleSoundInput<T>>, SingleSoundInputHandle))
        ensures
            r.0.spec_id() == id,
            r.0.spec_options() == options,
            r.0.spec_states() == Seq::<T>::empty(),
            r.1.spec_id() == id,
    {
        let input = Box::new(SingleSoundInput { state_table: StateTable::new(), options, id });
        let handle = SingleSoundInputHandle::new(input.id);
        (input, handle)
    }

    pub fn id(&self) -> (r: SoundInputId)
        ensures
            r == self.spec_id(),
    {
        self.id
    }

    pub fn options(&self) -> (r: InputOptions)
        ensures
            r == self.spec_options(),
    {
        self.options
    }

    /// An input without keys counts as having one key.
    pub fn num_keys(&self) -> (r: usize)
        ensures
            r == 1,
    {
        1
    }

    /// Adds fresh states at the span's indices, and returns the span.
    pub fn insert_states(&mut self, gs: GridSpan) -> (r: GridSpan)
        requires
            gs.wf(),
            gs.can_insert_into(old(self).spec_states().len() as int),
            old(self).spec_states().len() + gs.spec_num_items() <= usize::MAX,
        ensures
            r == gs,
            final(self).spec_states().len() == old(self).spec_states().len() + gs.spec_num_items(),
            gs.spec_erase(final(self).spec_states()) == old(self).spec_states(),
            final(self).spec_id() == old(self).spec_id(),
            final(self).spec_options() == old(self).spec_options(),
    {
        self.state_table.insert_states(gs);
        gs
    }

    /// Takes out the states at the span's indices, and returns the span.
    pub fn erase_states(&mut self, gs: GridSpan) -> (r: GridSpan)
        requires
            gs.wf(),
            gs.fits_within(old(self).spec_states().len() as int),
        ensures
            r == gs,
            final(self).spec_states() == gs.spec_erase(old(self).spec_states()),
            final(self).spec_id() == old(self).spec_id(),
            final(self).spec_options() == old(self).spec_options(),
    {
        self.state_table.erase_states(gs);
        gs
    }

    /// The input's state `index`.
    pub fn get_state(&self, index: usize) -> (r: &T)
        requires
            index < self.spec_states().len(),
        ensures
            *r == self.spec_states()[index as int],
    {
        self.state_table.get_state(index)
    }
}

} // verus!
