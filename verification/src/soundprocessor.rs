use vstd::prelude::*;

use crate::gridspan::{gaps_fit, GridSpan};
use crate::statetable::{
    grow_slice, has_slice, lemma_partition_total_push, lemma_partition_totals,
    lemma_slice_position_valid, partition_wf, prefix_total, remove_slice, slice_position,
    PartitionModel, SoundState, StateTable, StateTablePartition,
};
use crate::soundinput::SoundInputId;
use crate::uniqueid::UniqueId;

verus! {

/// Identifies a sound processor within a sound graph.
#[derive(Debug, Copy, Clone, PartialEq, Eq, Structural, Hash)]
pub struct SoundProcessorId(pub usize);

impl SoundProcessorId {
    /// The identifier with the given integer.
    pub fn new(value: usize) -> (id: SoundProcessorId)
        ensures
            id.0 == value,
    {
        SoundProcessorId(value)
    }
}

impl Default for SoundProcessorId {
    /// The first identifier, 1.
    fn default() -> (id: SoundProcessorId)
        ensures
            id.0 == 1,
    {
        SoundProcessorId(1)
    }
}

impl UniqueId for SoundProcessorId {
    open spec fn id_value(&self) -> int {
        self.0 as int
    }

    fn with_value(value: usize) -> (id: SoundProcessorId) {
        SoundProcessorId(value)
    }

    fn value(&self) -> (v: usize) {
        self.0
    }

    fn next(&self) -> (n: SoundProcessorId) {
        SoundProcessorId(self.0 + 1)
    }
}

/// How many states a static processor holds for one input it feeds.
#[derive(Clone, Copy)]
struct StaticInputStates {
    input_id: SoundInputId,
    num_states: usize,
}

/// An entry for `id` stands at `i`.
spec fn entry_at(v: Seq<StaticInputStates>, id: SoundInputId, i: int) -> bool {
    0 <= i < v.len() && v[i].input_id == id
}

/// No input has two entries.
spec fn entries_distinct(v: Seq<StaticInputStates>) -> bool {
    forall|i: int, j: int|
        0 <= i < v.len() && 0 <= j < v.len() && i != j ==> v[i].input_id != v[j].input_id
}

/// The inputs of the entries, each with its number of states.
spec fn entries_map(v: Seq<StaticInputStates>) -> Map<SoundInputId, int> {
    Map::new(
        |id: SoundInputId| exists|i: int| entry_at(v, id, i),
        |id: SoundInputId| v[choose|i: int| entry_at(v, id, i)].num_states as int,
    )
}

proof fn lemma_entry_unique(v: Seq<StaticInputStates>, id: SoundInputId, i: int, j: int)
    requires
        entries_distinct(v),
        entry_at(v, id, i),
        entry_at(v, id, j),
    ensures
        i == j,
{
}

/// The state of a static sound processor, which has one state ever, and
/// the inputs it feeds, each holding no state or that one.
pub struct StaticSoundProcessorData<T> {
    id: SoundProcessorId,
    state: T,
    dst_inputs: Vec<StaticInputStates>,
}

impl<T> StaticSoundProcessorData<T> {
    /// The inputs the processor feeds, each with the number of states it
    /// holds.
    pub closed spec fn spec_dst_inputs(&self) -> Map<SoundInputId, int> {
        entries_map(self.dst_inputs@)
    }

    pub closed spec fn spec_id(&self) -> SoundProcessorId {
        self.id
    }

    pub closed spec fn spec_state(&self) -> T {
        self.state
    }

    /// No input is listed twice, and each holds no state or one.
    pub closed spec fn wf(&self) -> bool {
        &&& entries_distinct(self.dst_inputs@)
        &&& forall|i: int| 0 <= i < self.dst_inputs@.len() ==> #[trigger] self.dst_inputs@[i].num_states <= 1
    }

    /// A processor feeding no input yet, with `state` as its one state.
    pub fn new(id: SoundProcessorId, state: T) -> (r: StaticSoundProcessorData<T>)
        ensures
            r.wf(),
            r.spec_id() == id,
            r.spec_state() == state,
            r.spec_dst_inputs() == Map::<SoundInputId, int>::empty(),
    {
        let r = StaticSoundProcessorData { id, state, dst_inputs: Vec::new() };
        assert(r.spec_dst_inputs() =~= Map::<SoundInputId, int>::empty());
        r
    }

    pub fn id(&self) -> (r: SoundProcessorId)
        ensures
            r == self.spec_id(),
    {
        self.id
    }

    pub fn get_state(&self) -> (r: &T)
        ensures
            *r == self.spec_state(),
    {
        &self.state
    }

    /// The index of the entry of `dst_input`, if it has one.
    fn position(&self, dst_input: SoundInputId) -> (r: Option<usize>)
        requires
            self.wf(),
        ensures
            match r {
                Some(i) => entry_at(self.dst_inputs@, dst_input, i as int),
                None => !self.spec_dst_inputs().contains_key(dst_input),
            },
    {
        let mut i: usize = 0;
        while i < self.dst_inputs.len()
            invariant
                i <= self.dst_inputs.len(),
                forall|j: int| 0 <= j < i ==> !entry_at(self.dst_inputs@, dst_input, j),
            decreases self.dst_inputs.len() - i,
        {
            if self.dst_inputs[i].input_id == dst_input {
                return Some(i);
            }
            i = i + 1;
        }
        None
    }

    /// Which state an input's state stands for: the one state, index 0.
    /// The input must hold its state.
    pub fn find_state_index(&self, dst_input: SoundInputId, dst_state_index: usize) -> (r: usize)
        requires
            self.wf(),
            self.spec_dst_inputs().contains_key(dst_input),
            self.spec_dst_inputs()[dst_input] == 1,
            dst_state_index == 0,
        ensures
            r == 0,
    {
        0
    }

    /// Registers an input that the processor now feeds, holding no state.
    pub fn add_dst(&mut self, dst_input: SoundInputId)
        requires
            old(self).wf(),
            !old(self).spec_dst_inputs().contains_key(dst_input),
        ensures
            final(self).wf(),
            final(self).spec_dst_inputs() == old(self).spec_dst_inputs().insert(dst_input, 0),
            final(self).spec_id() == old(self).spec_id(),
            final(self).spec_state() == old(self).spec_state(),
    {
        let ghost before = self.dst_inputs@;
        self.dst_inputs.push(StaticInputStates { input_id: dst_input, num_states: 0 });
        proof {
            let after = self.dst_inputs@;
            assert(after == before.push(StaticInputStates { input_id: dst_input, num_states: 0 }));
            assert forall|i: int, j: int|
                0 <= i < after.len() && 0 <= j < after.len() && i != j implies after[i].input_id
                != after[j].input_id by {
                if i < before.len() && j < before.len() {
                    assert(before[i].input_id != before[j].input_id);
                } else if i < before.len() {
                    assert(!entry_at(before, dst_input, i));
                } else {
                    assert(!entry_at(before, dst_input, j));
                }
            }
            assert forall|id: SoundInputId| #[trigger] entries_map(after).contains_key(id)
                == entries_map(before).insert(dst_input, 0).contains_key(id) by {
                if id != dst_input && entries_map(after).contains_key(id) {
                    let i = choose|i: int| entry_at(after, id, i);
                    assert(entry_at(before, id, i));
                }
                if id != dst_input && entries_map(before).contains_key(id) {
                    let i = choose|i: int| entry_at(before, id, i);
                    assert(entry_at(after, id, i));
                }
                if id == dst_input {
                    assert(entry_at(after, id, before.len() as int));
                }
            }
            assert forall|id: SoundInputId| #[trigger] entries_map(after).contains_key(id) implies entries_map(
                after,
            )[id] == entries_map(before).insert(dst_input, 0)[id] by {
                let i = choose|i: int| entry_at(after, id, i);
                if id == dst_input {
                    lemma_entry_unique(after, id, i, before.len() as int);
                } else {
                    let j = choose|j: int| entry_at(before, id, j);
                    assert(entry_at(after, id, j));
                    lemma_entry_unique(after, id, i, j);
                }
            }
            assert(entries_map(after) =~= entries_map(before).insert(dst_input, 0));
        }
    }

    /// Unregisters an input that holds no state.
    pub fn remove_dst(&mut self, dst_input: SoundInputId)
        requires
            old(self).wf(),
            old(self).spec_dst_inputs().contains_key(dst_input),
            old(self).spec_dst_inputs()[dst_input] == 0,
        ensures
            final(self).wf(),
            final(self).spec_dst_inputs() == old(self).spec_dst_inputs().remove(dst_input),
            final(self).spec_id() == old(self).spec_id(),
            final(self).spec_state() == old(self).spec_state(),
    {
        let ghost before = self.dst_inputs@;
        let i = self.position(dst_input).unwrap();
        let _ = self.dst_inputs.remove(i);
        proof {
            let after = self.dst_inputs@;
            assert(after == before.remove(i as int));
            assert forall|a: int, b: int|
                0 <= a < after.len() && 0 <= b < after.len() && a != b implies after[a].input_id
                != after[b].input_id by {
                let aa = if a < i { a } else { a + 1 };
                let bb = if b < i { b } else { b + 1 };
                assert(after[a] == before[aa] && after[b] == before[bb]);
            }
            assert forall|k: int| 0 <= k < after.len() implies #[trigger] after[k].num_states <= 1 by {
                let kk = if k < i { k } else { k + 1 };
                assert(after[k] == before[kk]);
            }
            assert forall|id: SoundInputId| #[trigger] entries_map(after).contains_key(id)
                == entries_map(before).remove(dst_input).contains_key(id) by {
                if entries_map(after).contains_key(id) {
                    let k = choose|k: int| entry_at(after, id, k);
                    let kk = if k < i { k } else { k + 1 };
                    assert(entry_at(before, id, kk));
                    if id == dst_input {
                        lemma_entry_unique(before, id, kk, i as int);
                    }
                }
                if id != dst_input && entries_map(before).contains_key(id) {
                    let k = choose|k: int| entry_at(before, id, k);
                    assert(k != i);
                    if k < i {
                        assert(entry_at(after, id, k));
                    } else {
                        assert(entry_at(after, id, k - 1));
                    }
                }
            }
            assert forall|id: SoundInputId| #[trigger] entries_map(after).contains_key(id) implies entries_map(
                after,
            )[id] == entries_map(before).remove(dst_input)[id] by {
                let k = choose|k: int| entry_at(after, id, k);
                let kk = if k < i { k } else { k + 1 };
                assert(entry_at(before, id, kk));
                let c = choose|c: int| entry_at(before, id, c);
                lemma_entry_unique(before, id, kk, c);
            }
            assert(entries_map(after) =~= entries_map(before).remove(dst_input));
        }
    }

    /// Sets the number of states of the entry at `i` to `n`.
    fn set_states(&mut self, i: usize, n: usize)
        requires
            old(self).wf(),
            i < old(self).dst_inputs@.len(),
            n <= 1,
        ensures
            final(self).wf(),
            final(self).spec_dst_inputs() == old(self).spec_dst_inputs().insert(
                old(self).dst_inputs@[i as int].input_id,
                n as int,
            ),
            final(self).dst_inputs@.len() == old(self).dst_inputs@.len(),
            final(self).spec_id() == old(self).spec_id(),
            final(self).spec_state() == old(self).spec_state(),
    {
        let ghost before = self.dst_inputs@;
        let id = self.dst_inputs[i].input_id;
        self.dst_inputs.set(i, StaticInputStates { input_id: id, num_states: n });
        proof {
            let after = self.dst_inputs@;
            assert forall|a: int, b: int|
                0 <= a < after.len() && 0 <= b < after.len() && a != b implies after[a].input_id
                != after[b].input_id by {
                assert(before[a].input_id != before[b].input_id);
            }
            assert forall|x: SoundInputId| #[trigger] entries_map(after).contains_key(x)
                == entries_map(before).insert(id, n as int).contains_key(x) by {
                if entries_map(after).contains_key(x) {
                    let k = choose|k: int| entry_at(after, x, k);
                    assert(entry_at(before, x, k));
                }
                if entries_map(before).contains_key(x) {
                    let k = choose|k: int| entry_at(before, x, k);
                    assert(entry_at(after, x, k));
                }
                if x == id {
                    assert(entry_at(after, x, i as int));
                }
            }
            assert forall|x: SoundInputId| #[trigger] entries_map(after).contains_key(x) implies entries_map(
                after,
            )[x] == entries_map(before).insert(id, n as int)[x] by {
                let k = choose|k: int| entry_at(after, x, k);
                if x == id {
                    lemma_entry_unique(after, x, k, i as int);
                } else {
                    let c = choose|c: int| entry_at(before, x, c);
                    assert(entry_at(after, x, c));
                    lemma_entry_unique(after, x, k, c);
                }
            }
            assert(entries_map(after) =~= entries_map(before).insert(id, n as int));
        }
    }

    /// Gives a registered input that holds no state the processor's one
    /// state; `span` is the input's request, the single state at index 0.
    /// Returns the empty span: no input of a static processor gains states.
    pub fn insert_dst_states(&mut self, dst_input: SoundInputId, span: GridSpan) -> (r: GridSpan)
        requires
            old(self).wf(),
            old(self).spec_dst_inputs().contains_key(dst_input),
            span.wf(),
            span.spec_start() == 0,
            span.spec_num_items() == 1,
            old(self).spec_dst_inputs()[dst_input] != 1,
        ensures
            final(self).wf(),
            final(self).spec_dst_inputs() == old(self).spec_dst_inputs().insert(dst_input, 1),
            final(self).spec_id() == old(self).spec_id(),
            final(self).spec_state() == old(self).spec_state(),
            r.spec_start() == 0 && r.spec_items_per_row() == 0 && r.spec_row_stride() == 0
                && r.spec_num_rows() == 0,
    {
        let i = self.position(dst_input).unwrap();
        self.set_states(i, 1);
        GridSpan::new_empty()
    }

    /// Takes the one state from a registered input that holds it; `span`
    /// is the single state at index 0. Returns the empty span.
    pub fn erase_dst_states(&mut self, dst_input: SoundInputId, span: GridSpan) -> (r: GridSpan)
        requires
            old(self).wf(),
            old(self).spec_dst_inputs().contains_key(dst_input),
            span.wf(),
            span.spec_start() == 0,
            span.spec_num_items() == 1,
            old(self).spec_dst_inputs()[dst_input] != 0,
        ensures
            final(self).wf(),
            final(self).spec_dst_inputs() == old(self).spec_dst_inputs().insert(dst_input, 0),
            final(self).spec_id() == old(self).spec_id(),
            final(self).spec_state() == old(self).spec_state(),
            r.spec_start() == 0 && r.spec_items_per_row() == 0 && r.spec_row_stride() == 0
                && r.spec_num_rows() == 0,
    {
        let i = self.position(dst_input).unwrap();
        self.set_states(i, 0);
        GridSpan::new_empty()
    }
}

/// The states of a dynamic sound processor, one for each state of each
/// input it feeds, and the partition of its state table among those inputs.
pub struct DynamicSoundProcessorData<T> {
    id: SoundProcessorId,
    state_table: StateTable<T>,
    state_partition: StateTablePartition,
}

impl<T: SoundState> DynamicSoundProcessorData<T> {
    pub closed spec fn spec_id(&self) -> SoundProcessorId {
        self.id
    }

    /// For each input the processor feeds, in order: the input, where its
    /// states start in the table, and how many it has.
    pub closed spec fn spec_partition(&self) -> PartitionModel {
        self.state_partition.slices()
    }

    /// The processor's states.
    pub closed spec fn spec_states(&self) -> Seq<T> {
        self.state_table.spec_states()
    }

    /// The partition covers the state table exactly.
    pub open spec fn wf(&self) -> bool {
        &&& partition_wf(self.spec_partition())
        &&& prefix_total(self.spec_partition(), self.spec_partition().len() as int)
            == self.spec_states().len()
    }

    pub fn new(id: SoundProcessorId) -> (r: DynamicSoundProcessorData<T>)
        ensures
            r.wf(),
            r.spec_id() == id,
            r.spec_partition() == Seq::<(SoundInputId, int, int)>::empty(),
            r.spec_states() == Seq::<T>::empty(),
    {
        let r = DynamicSoundProcessorData {
            id,
            state_table: StateTable::new(),
            state_partition: StateTablePartition::new(),
        };
        proof {
            reveal(prefix_total);
        }
        r
    }

    pub fn id(&self) -> (r: SoundProcessorId)
        ensures
            r == self.spec_id(),
    {
        self.id
    }

    /// How many states the processor has.
    pub fn num_states(&self) -> (r: usize)
        requires
            self.wf(),
        ensures
            r == self.spec_states().len(),
            r == prefix_total(self.spec_partition(), self.spec_partition().len() as int),
    {
        self.state_table.total_size()
    }

    /// The index in the state table of state `dst_state_index` of the input
    /// `dst_input`.
    pub fn find_state_index(&self, dst_input: SoundInputId, dst_state_index: usize) -> (r: usize)
        requires
            self.wf(),
            has_slice(self.spec_partition(), dst_input),
            dst_state_index < self.spec_partition()[slice_position(self.spec_partition(), dst_input)].2,
        ensures
            r == self.spec_partition()[slice_position(self.spec_partition(), dst_input)].1
                + dst_state_index,
    {
        self.state_partition.get_index(dst_input, dst_state_index)
    }

    pub fn get_state(&self, state_index: usize) -> (r: &T)
        requires
            state_index < self.spec_states().len(),
        ensures
            *r == self.spec_states()[state_index as int],
    {
        self.state_table.get_state(state_index)
    }

    /// Registers an input that the processor now feeds, with no states yet.
    pub fn add_dst(&mut self, dst_input: SoundInputId)
        requires
            old(self).wf(),
        ensures
            final(self).wf(),
            final(self).spec_partition() == old(self).spec_partition().push(
                (dst_input, old(self).spec_states().len() as int, 0),
            ),
            final(self).spec_states() == old(self).spec_states(),
            final(self).spec_id() == old(self).spec_id(),
    {
        let ghost e = self.spec_partition();
        let _ = self.state_partition.add_dst(dst_input, 0);
        proof {
            lemma_partition_total_push(e, (dst_input, e.len() as int, 0));
            lemma_partition_total_push(e, (dst_input, prefix_total(e, e.len() as int), 0));
        }
    }

    /// Unregisters an input that has no states left.
    pub fn remove_dst(&mut self, dst_input: SoundInputId)
        requires
            old(self).wf(),
            has_slice(old(self).spec_partition(), dst_input),
            old(self).spec_partition()[slice_position(old(self).spec_partition(), dst_input)].2 == 0,
        ensures
            final(self).wf(),
            final(self).spec_partition() == remove_slice(
                old(self).spec_partition(),
                slice_position(old(self).spec_partition(), dst_input),
            ),
            final(self).spec_states() == old(self).spec_states(),
            final(self).spec_id() == old(self).spec_id(),
    {
        let ghost e = self.spec_partition();
        let _ = self.state_partition.remove_dst(dst_input);
        proof {
            lemma_slice_position_valid(e, dst_input);
            let k = slice_position(e, dst_input);
            lemma_partition_totals(e, k, 0, (dst_input, 0, 0));
        }
    }

    /// Adds states for the input `dst_input` at the indices `span` of its
    /// own states, and returns where they went in the state table.
    pub fn insert_dst_states(&mut self, dst_input: SoundInputId, span: GridSpan) -> (r: GridSpan)
        requires
            old(self).wf(),
            has_slice(old(self).spec_partition(), dst_input),
            span.wf(),
            old(self).spec_states().len() + span.spec_num_items() <= usize::MAX,
            span.spec_end_bound() + old(self).spec_partition()[slice_position(
                old(self).spec_partition(),
                dst_input,
            )].1 <= usize::MAX,
            ({
                let start = span.spec_start() + old(self).spec_partition()[slice_position(
                    old(self).spec_partition(),
                    dst_input,
                )].1;
                &&& start <= old(self).spec_states().len()
                &&& gaps_fit(
                    old(self).spec_states().len() - start,
                    span.spec_row_stride() - span.spec_items_per_row(),
                    span.spec_num_rows() as nat,
                )
            }),
        ensures
            final(self).wf(),
            final(self).spec_partition() == grow_slice(
                old(self).spec_partition(),
                slice_position(old(self).spec_partition(), dst_input),
                span.spec_num_items(),
            ),
            r.spec_start() == span.spec_start() + old(self).spec_partition()[slice_position(
                old(self).spec_partition(),
                dst_input,
            )].1,
            r.spec_items_per_row() == span.spec_items_per_row(),
            r.spec_row_stride() == span.spec_row_stride(),
            r.spec_num_rows() == span.spec_num_rows(),
            final(self).spec_states().len() == old(self).spec_states().len() + span.spec_num_items(),
            r.spec_erase(final(self).spec_states()) == old(self).spec_states(),
            final(self).spec_id() == old(self).spec_id(),
    {
        let ghost e = self.spec_partition();
        let s = self.state_partition.add_dst_states(dst_input, span);
        self.state_table.insert_states(s);
        proof {
            lemma_slice_position_valid(e, dst_input);
            let k = slice_position(e, dst_input);
            lemma_partition_totals(e, k, span.spec_num_items(), (dst_input, 0, 0));
        }
        s
    }

    /// Takes out the states of the input `dst_input` at the indices `span`
    /// of its own states, and returns where they were in the state table.
    pub fn erase_dst_states(&mut self, dst_input: SoundInputId, span: GridSpan) -> (r: GridSpan)
        requires
            old(self).wf(),
            has_slice(old(self).spec_partition(), dst_input),
            span.wf(),
            span.spec_num_items() <= old(self).spec_partition()[slice_position(
                old(self).spec_partition(),
                dst_input,
            )].2,
            span.spec_end_bound() + old(self).spec_partition()[slice_position(
                old(self).spec_partition(),
                dst_input,
            )].1 <= usize::MAX,
            ({
                let start = span.spec_start() + old(self).spec_partition()[slice_position(
                    old(self).spec_partition(),
                    dst_input,
                )].1;
                &&& start <= old(self).spec_states().len()
                &&& crate::gridspan::rows_fit(
                    old(self).spec_states().len() - start,
                    span.spec_items_per_row(),
                    span.spec_row_stride(),
                    span.spec_num_rows() as nat,
                )
            }),
        ensures
            final(self).wf(),
            final(self).spec_partition() == grow_slice(
                old(self).spec_partition(),
                slice_position(old(self).spec_partition(), dst_input),
                -span.spec_num_items(),
            ),
            r.spec_start() == span.spec_start() + old(self).spec_partition()[slice_position(
                old(self).spec_partition(),
                dst_input,
            )].1,
            r.spec_items_per_row() == span.spec_items_per_row(),
            r.spec_row_stride() == span.spec_row_stride(),
            r.spec_num_rows() == span.spec_num_rows(),
            final(self).spec_states() == r.spec_erase(old(self).spec_states()),
            final(self).spec_id() == old(self).spec_id(),
    {
        let ghost e = self.spec_partition();
        let s = self.state_partition.remove_dst_states(dst_input, span);
        self.state_table.erase_states(s);
        proof {
            lemma_slice_position_valid(e, dst_input);
            let k = slice_position(e, dst_input);
            lemma_partition_totals(e, k, -span.spec_num_items(), (dst_input, 0, 0));
        }
        s
    }

    /// Resets the states of the input `dst_input` at the indices `span` of
    /// its own states, and returns where they are in the state table.
    pub fn reset_states(&mut self, dst_input: SoundInputId, span: GridSpan) -> (r: GridSpan)
        requires
            old(self).wf(),
            has_slice(old(self).spec_partition(), dst_input),
            span.wf(),
            span.spec_num_items() > 0,
            span.spec_start() < old(self).spec_partition()[slice_position(
                old(self).spec_partition(),
                dst_input,
            )].2,
            span.spec_last_index() < old(self).spec_partition()[slice_position(
                old(self).spec_partition(),
                dst_input,
            )].2,
            span.spec_end_bound() + old(self).spec_partition()[slice_position(
                old(self).spec_partition(),
                dst_input,
            )].1 <= usize::MAX,
            ({
                let start = span.spec_start() + old(self).spec_partition()[slice_position(
                    old(self).spec_partition(),
                    dst_input,
                )].1;
                &&& start <= old(self).spec_states().len()
                &&& crate::gridspan::rows_fit(
                    old(self).spec_states().len() - start,
                    span.spec_items_per_row(),
                    span.spec_row_stride(),
                    span.spec_num_rows() as nat,
                )
            }),
        ensures
            final(self).wf(),
            final(self).spec_partition() == old(self).spec_partition(),
            r.spec_start() == span.spec_start() + old(self).spec_partition()[slice_position(
                old(self).spec_partition(),
                dst_input,
            )].1,
            r.spec_items_per_row() == span.spec_items_per_row(),
            r.spec_row_stride() == span.spec_row_stride(),
            r.spec_num_rows() == span.spec_num_rows(),
            final(self).spec_states().len() == old(self).spec_states().len(),
            r.spec_erase(final(self).spec_states()) == r.spec_erase(old(self).spec_states()),
            forall|row: int, c: int|
                #![trigger crate::statetable::span_index(r, row, c)]
                crate::statetable::in_span(r, row, c) ==> crate::statetable::is_reset_of(
                    old(self).spec_states()[crate::statetable::span_index(r, row, c)],
                    final(self).spec_states()[crate::statetable::span_index(r, row, c)],
                ),
            final(self).spec_id() == old(self).spec_id(),
    {
        let s = self.state_partition.get_span(dst_input, span);
        self.state_table.reset_states(s);
        s
    }
}

/// Giving an input the state and taking it back leaves the processor's
/// inputs as they were.
pub proof fn law_insert_then_erase_dst_states(m: Map<SoundInputId, int>, id: SoundInputId)
    requires
        m.contains_key(id),
        m[id] == 0,
    ensures
        m.insert(id, 1).insert(id, 0) == m,
{
    assert(m.insert(id, 1).insert(id, 0) =~= m);
}

/// Registering an input and unregistering it leaves the processor's inputs
/// as they were.
pub proof fn law_add_then_remove_dst(m: Map<SoundInputId, int>, id: SoundInputId)
    requires
        !m.contains_key(id),
    ensures
        m.insert(id, 0).remove(id) == m,
{
    assert(m.insert(id, 0).remove(id) =~= m);
}

} // verus!
