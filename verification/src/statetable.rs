use vstd::prelude::*;

use crate::gridspan::{gaps_fit, lemma_erase_rows_update, lemma_row_index_fits, rows_fit, GridSpan};
use crate::keyrange::{insertion_index, KeyRange};
use crate::soundinput::SoundInputId;

verus! {

/// A slice of a sound processor's state table: where it starts and how
/// many states it holds.
#[derive(Copy, Clone)]
struct StateTableSlice {
    index: usize,
    count: usize,
}

/// The model of a partition: for each destination input, in order, the
/// input, the index where its states start, and how many there are.
pub type PartitionModel = Seq<(SoundInputId, int, int)>;

/// The number of states held by the first `k` slices.
#[verifier::opaque]
pub open spec fn prefix_total(e: PartitionModel, k: int) -> int
    decreases k,
{
    if k <= 0 || k > e.len() {
        0
    } else {
        prefix_total(e, k - 1) + e[k - 1].2
    }
}

/// The slices lie one after another from index 0, and all indices fit in
/// a `usize`.
pub open spec fn partition_wf(e: PartitionModel) -> bool {
    &&& forall|k: int| 0 <= k < e.len() ==> #[trigger] e[k].1 == prefix_total(e, k)
    &&& forall|k: int| 0 <= k < e.len() ==> 0 <= #[trigger] e[k].2
    &&& prefix_total(e, e.len() as int) <= usize::MAX
}

/// Some slice belongs to input `id`.
pub open spec fn has_slice(e: PartitionModel, id: SoundInputId) -> bool {
    exists|k: int| 0 <= k < e.len() && #[trigger] e[k].0 == id
}

/// The position of the first slice that belongs to input `id`.
pub open spec fn slice_position(e: PartitionModel, id: SoundInputId) -> int {
    choose|k: int| 0 <= k < e.len() && e[k].0 == id && forall|j: int| 0 <= j < k ==> e[j].0 != id
}

/// Slice `k` grows by `n` states, and every later slice moves `n` further.
pub open spec fn grow_slice(e: PartitionModel, k: int, n: int) -> PartitionModel {
    Seq::new(
        e.len(),
        |j: int|
            if j < k {
                e[j]
            } else if j == k {
                (e[j].0, e[j].1, e[j].2 + n)
            } else {
                (e[j].0, e[j].1 + n, e[j].2)
            },
    )
}

/// Slice `k` is taken out, and every later slice moves back by its size.
pub open spec fn remove_slice(e: PartitionModel, k: int) -> PartitionModel {
    Seq::new(
        (e.len() - 1) as nat,
        |j: int|
            if j < k {
                e[j]
            } else {
                (e[j + 1].0, e[j + 1].1 - e[k].2, e[j + 1].2)
            },
    )
}

proof fn lemma_prefix_total_monotonic(e: PartitionModel, j: int, k: int)
    requires
        forall|m: int| 0 <= m < e.len() ==> 0 <= #[trigger] e[m].2,
        0 <= j <= k <= e.len(),
    ensures
        prefix_total(e, j) <= prefix_total(e, k),
    decreases k - j,
{
    reveal(prefix_total);
    if j < k {
        lemma_prefix_total_monotonic(e, j, k - 1);
    }
}

proof fn lemma_prefix_total_step(e: PartitionModel, k: int)
    requires
        0 <= k < e.len(),
    ensures
        prefix_total(e, k + 1) == prefix_total(e, k) + e[k].2,
        prefix_total(e, 0) == 0,
{
    reveal(prefix_total);
}

proof fn lemma_slice_fits(e: PartitionModel, k: int)
    requires
        partition_wf(e),
        0 <= k < e.len(),
    ensures
        e[k].1 == prefix_total(e, k),
        e[k].1 + e[k].2 == prefix_total(e, k + 1),
        prefix_total(e, k + 1) <= usize::MAX,
        0 <= e[k].1,
        0 <= e[k].2,
{
    lemma_prefix_total_monotonic(e, k + 1, e.len() as int);
    lemma_prefix_total_monotonic(e, 0, k);
    lemma_prefix_total_step(e, k);
}

proof fn lemma_prefix_total_grow(e: PartitionModel, k: int, n: int, j: int)
    requires
        0 <= k < e.len(),
        0 <= j <= e.len(),
    ensures
        prefix_total(grow_slice(e, k, n), j) == if j <= k {
            prefix_total(e, j)
        } else {
            prefix_total(e, j) + n
        },
    decreases j,
{
    reveal(prefix_total);
    if j > 0 {
        lemma_prefix_total_grow(e, k, n, j - 1);
    }
}

proof fn lemma_prefix_total_remove(e: PartitionModel, k: int, j: int)
    requires
        0 <= k < e.len(),
        0 <= j <= e.len() - 1,
    ensures
        prefix_total(remove_slice(e, k), j) == if j <= k {
            prefix_total(e, j)
        } else {
            prefix_total(e, j + 1) - e[k].2
        },
    decreases j,
{
    reveal(prefix_total);
    if j > 0 {
        lemma_prefix_total_remove(e, k, j - 1);
        assert(prefix_total(e, j + 1) == prefix_total(e, j) + e[j].2);
        assert(prefix_total(e, j) == prefix_total(e, j - 1) + e[j - 1].2);
    }
}

proof fn lemma_prefix_total_push(e: PartitionModel, x: (SoundInputId, int, int), j: int)
    requires
        0 <= j <= e.len(),
    ensures
        prefix_total(e.push(x), j) == prefix_total(e, j),
    decreases j,
{
    reveal(prefix_total);
    if j > 0 {
        lemma_prefix_total_push(e, x, j - 1);
    }
}

proof fn lemma_grow_keeps_wf(e: PartitionModel, k: int, n: int)
    requires
        partition_wf(e),
        0 <= k < e.len(),
        0 <= e[k].2 + n,
        prefix_total(e, e.len() as int) + n <= usize::MAX,
    ensures
        partition_wf(grow_slice(e, k, n)),
        prefix_total(grow_slice(e, k, n), e.len() as int) == prefix_total(e, e.len() as int) + n,
{
    let g = grow_slice(e, k, n);
    assert forall|j: int| 0 <= j < g.len() implies #[trigger] g[j].1 == prefix_total(g, j) by {
        lemma_prefix_total_grow(e, k, n, j);
    }
    lemma_prefix_total_grow(e, k, n, e.len() as int);
}

proof fn lemma_first_slice_exists(e: PartitionModel, id: SoundInputId, k: int)
    requires
        0 <= k < e.len(),
        e[k].0 == id,
    ensures
        exists|m: int| 0 <= m < e.len() && e[m].0 == id && forall|j: int| 0 <= j < m ==> e[j].0 != id,
    decreases k,
{
    if exists|j: int| 0 <= j < k && e[j].0 == id {
        let j = choose|j: int| 0 <= j < k && e[j].0 == id;
        lemma_first_slice_exists(e, id, j);
    } else {
        assert(0 <= k < e.len() && e[k].0 == id && forall|j: int| 0 <= j < k ==> e[j].0 != id);
    }
}

proof fn lemma_slice_position(e: PartitionModel, id: SoundInputId)
    requires
        has_slice(e, id),
    ensures
        0 <= slice_position(e, id) < e.len(),
        e[slice_position(e, id)].0 == id,
        forall|j: int| 0 <= j < slice_position(e, id) ==> e[j].0 != id,
{
    let k = choose|k: int| 0 <= k < e.len() && #[trigger] e[k].0 == id;
    lemma_first_slice_exists(e, id, k);
}

/// Adding states to a destination input's slice and then removing as many
/// from the same input gives back the partition as it was: the input keeps
/// its position, and every slice its place and size. Its slice still
/// starts where it did, so both calls place the same span of states at the
/// same indices of the table.
pub proof fn law_add_then_remove_dst_states(e: PartitionModel, id: SoundInputId, n: int)
    requires
        has_slice(e, id),
    ensures
        has_slice(grow_slice(e, slice_position(e, id), n), id),
        slice_position(grow_slice(e, slice_position(e, id), n), id) == slice_position(e, id),
        grow_slice(e, slice_position(e, id), n)[slice_position(e, id)].1 == e[slice_position(e, id)].1,
        grow_slice(grow_slice(e, slice_position(e, id), n), slice_position(e, id), -n) == e,
{
    let p = slice_position(e, id);
    let g = grow_slice(e, p, n);
    lemma_slice_position(e, id);
    assert(g[p].0 == id);
    lemma_slice_position(g, id);
    let q = slice_position(g, id);
    if q < p {
        assert(g[q].0 == e[q].0);
    } else if q > p {
        assert(g[p].0 != id);
    }
    assert(grow_slice(g, p, -n) =~= e);
}

/// Adding a slice for an input that has none and then removing that
/// input's slice gives back the partition as it was. The slice taken out is
/// the one added, so the span of states to erase is the span that was
/// inserted: it starts at the old total and holds `n` states.
pub proof fn law_add_then_remove_dst(e: PartitionModel, id: SoundInputId, n: int)
    requires
        !has_slice(e, id),
    ensures
        has_slice(e.push((id, prefix_total(e, e.len() as int), n)), id),
        slice_position(e.push((id, prefix_total(e, e.len() as int), n)), id) == e.len(),
        e.push((id, prefix_total(e, e.len() as int), n))[e.len() as int] == (
            id,
            prefix_total(e, e.len() as int),
            n,
        ),
        remove_slice(
            e.push((id, prefix_total(e, e.len() as int), n)),
            e.len() as int,
        ) == e,
        prefix_total(e.push((id, prefix_total(e, e.len() as int), n)), e.len() + 1int)
            == prefix_total(e, e.len() as int) + n,
{
    let e2 = e.push((id, prefix_total(e, e.len() as int), n));
    lemma_partition_total_push(e, (id, prefix_total(e, e.len() as int), n));
    assert(e2[e.len() as int].0 == id);
    lemma_slice_position(e2, id);
    let q = slice_position(e2, id);
    if q < e.len() {
        assert(e[q].0 == id);
    }
    assert(remove_slice(e2, e.len() as int) =~= e);
}

/// Every change to a partition keeps its slices one after another:
/// growing or shrinking a slice within its size, appending a slice at the
/// end, and taking one out.
pub proof fn law_partition_changes_keep_wf(e: PartitionModel, k: int, n: int, x: (SoundInputId, int, int))
    requires
        partition_wf(e),
        0 <= k < e.len(),
    ensures
        0 <= e[k].2 + n && prefix_total(e, e.len() as int) + n <= usize::MAX ==> partition_wf(grow_slice(e, k, n)),
        partition_wf(remove_slice(e, k)),
        x.1 == prefix_total(e, e.len() as int) && 0 <= x.2 && x.1 + x.2 <= usize::MAX ==> partition_wf(e.push(x)),
{
    if 0 <= e[k].2 + n && prefix_total(e, e.len() as int) + n <= usize::MAX {
        lemma_grow_keeps_wf(e, k, n);
    }
    let r = remove_slice(e, k);
    assert forall|m: int| 0 <= m < r.len() implies #[trigger] r[m].1 == prefix_total(r, m) by {
        lemma_prefix_total_remove(e, k, m);
        lemma_slice_fits(e, k);
        if m < k {
            lemma_slice_fits(e, m);
        } else {
            lemma_slice_fits(e, m + 1);
        }
    }
    lemma_prefix_total_remove(e, k, r.len() as int);
    lemma_prefix_total_monotonic(e, k + 1, e.len() as int);
    lemma_slice_fits(e, k);
    if x.1 == prefix_total(e, e.len() as int) && 0 <= x.2 && x.1 + x.2 <= usize::MAX {
        let e2 = e.push(x);
        assert forall|j: int| 0 <= j < e2.len() implies #[trigger] e2[j].1 == prefix_total(e2, j) by {
            lemma_prefix_total_push(e, x, j);
            if j < e.len() {
                assert(e2[j] == e[j]);
            }
        }
        lemma_prefix_total_push(e, x, e.len() as int);
        lemma_prefix_total_step(e2, e.len() as int);
    }
}

/// How the number of states a partition covers changes: growing a slice by
/// `n` adds `n`, taking a slice out takes its size away, and a slice added
/// at the end adds its size.
pub proof fn lemma_partition_totals(e: PartitionModel, k: int, n: int, x: (SoundInputId, int, int))
    requires
        0 <= k < e.len(),
    ensures
        prefix_total(grow_slice(e, k, n), e.len() as int) == prefix_total(e, e.len() as int) + n,
        prefix_total(remove_slice(e, k), e.len() - 1) == prefix_total(e, e.len() as int) - e[k].2,
        prefix_total(e.push(x), e.len() + 1int) == prefix_total(e, e.len() as int) + x.2,
{
    lemma_prefix_total_grow(e, k, n, e.len() as int);
    lemma_prefix_total_remove(e, k, e.len() - 1);
    lemma_prefix_total_step(e, k);
    lemma_prefix_total_push(e, x, e.len() as int);
    lemma_prefix_total_step(e.push(x), e.len() as int);
}

/// A slice added at the end of a partition adds its size to the states it covers.
pub proof fn lemma_partition_total_push(e: PartitionModel, x: (SoundInputId, int, int))
    ensures
        prefix_total(e.push(x), e.len() + 1int) == prefix_total(e, e.len() as int) + x.2,
{
    lemma_prefix_total_push(e, x, e.len() as int);
    lemma_prefix_total_step(e.push(x), e.len() as int);
}

/// The position of an input's slice, and that the slice is its.
pub proof fn lemma_slice_position_valid(e: PartitionModel, id: SoundInputId)
    requires
        has_slice(e, id),
    ensures
        0 <= slice_position(e, id) < e.len(),
        e[slice_position(e, id)].0 == id,
{
    lemma_slice_position(e, id);
}

/// Where the states of a sound processor's destination inputs lie in its
/// state table: one slice per destination input, one after another.
pub struct StateTablePartition {
    offsets: Vec<(SoundInputId, StateTableSlice)>,
}

impl StateTablePartition {
    /// The slices of the partition, in order.
    pub closed spec fn slices(&self) -> PartitionModel {
        self.offsets@.map_values(
            |o: (SoundInputId, StateTableSlice)| (o.0, o.1.index as int, o.1.count as int),
        )
    }

    /// An empty partition.
    pub fn new() -> (p: StateTablePartition)
        ensures
            p.slices() == Seq::<(SoundInputId, int, int)>::empty(),
            partition_wf(p.slices()),
    {
        let p = StateTablePartition { offsets: Vec::new() };
        proof {
            assert(p.slices() =~= Seq::<(SoundInputId, int, int)>::empty());
            reveal(prefix_total);
        }
        p
    }

    fn position_of(&self, input_id: SoundInputId) -> (k: usize)
        requires
            has_slice(self.slices(), input_id),
        ensures
            k == slice_position(self.slices(), input_id),
            k < self.offsets@.len(),
            self.slices()[k as int].0 == input_id,
    {
        let ghost e = self.slices();
        let mut k: usize = 0;
        loop
            invariant
                e == self.slices(),
                k <= self.offsets.len(),
                has_slice(e, input_id),
                forall|j: int| 0 <= j < k ==> e[j].0 != input_id,
            ensures
                k < self.offsets.len(),
                e[k as int].0 == input_id,
                forall|j: int| 0 <= j < k ==> e[j].0 != input_id,
            decreases self.offsets.len() - k,
        {
            if k == self.offsets.len() {
                proof {
                    let w = choose|w: int| 0 <= w < e.len() && #[trigger] e[w].0 == input_id;
                    assert(e[w].0 != input_id);
                }
            }
            if self.offsets[k].0 == input_id {
                break;
            }
            k = k + 1;
        }
        proof {
            let p = slice_position(e, input_id);
            let ki = k as int;
            assert(0 <= ki < e.len() && e[ki].0 == input_id && forall|j: int| 0 <= j < ki ==> e[j].0 != input_id);
            if p < ki {
                assert(e[p].0 != input_id);
            } else if p > ki {
                assert(e[ki].0 != input_id);
            }
        }
        k
    }

    /// The index in the state table of state `input_state_index` of the
    /// destination input `input_id`.
    pub fn get_index(&self, input_id: SoundInputId, input_state_index: usize) -> (r: usize)
        requires
            partition_wf(self.slices()),
            has_slice(self.slices(), input_id),
            input_state_index < self.slices()[slice_position(self.slices(), input_id)].2,
        ensures
            r == self.slices()[slice_position(self.slices(), input_id)].1 + input_state_index,
    {
        let k = self.position_of(input_id);
        let s = self.offsets[k].1;
        proof {
            let e = self.slices();
            assert(e[k as int] == (input_id, s.index as int, s.count as int));
            lemma_slice_fits(e, k as int);
        }
        s.index + input_state_index
    }

    /// The span of the state table that holds the states `input_span` of
    /// the destination input `input_id`.
    pub fn get_span(&self, input_id: SoundInputId, input_span: GridSpan) -> (r: GridSpan)
        requires
            partition_wf(self.slices()),
            has_slice(self.slices(), input_id),
            input_span.wf(),
            input_span.spec_num_items() > 0,
            input_span.spec_start() < self.slices()[slice_position(self.slices(), input_id)].2,
            input_span.spec_last_index() < self.slices()[slice_position(self.slices(), input_id)].2,
            input_span.spec_end_bound() + self.slices()[slice_position(self.slices(), input_id)].1
                <= usize::MAX,
        ensures
            r.spec_start() == input_span.spec_start() + self.slices()[slice_position(
                self.slices(),
                input_id,
            )].1,
            r.spec_items_per_row() == input_span.spec_items_per_row(),
            r.spec_row_stride() == input_span.spec_row_stride(),
            r.spec_num_rows() == input_span.spec_num_rows(),
    {
        let k = self.position_of(input_id);
        let s = self.offsets[k].1;
        input_span.offset(s.index)
    }

    /// The number of states the partition covers.
    pub fn total_size(&self) -> (r: usize)
        requires
            partition_wf(self.slices()),
        ensures
            r == prefix_total(self.slices(), self.slices().len() as int),
    {
        let ghost e = self.slices();
        proof {
            reveal(prefix_total);
        }
        let mut acc: usize = 0;
        let mut k: usize = 0;
        while k < self.offsets.len()
            invariant
                e == self.slices(),
                partition_wf(e),
                k <= self.offsets.len(),
                acc == prefix_total(e, k as int),
            decreases self.offsets.len() - k,
        {
            proof {
                lemma_slice_fits(e, k as int);
                lemma_prefix_total_step(e, k as int);
            }
            acc = acc + self.offsets[k].1.count;
            k = k + 1;
        }
        acc
    }

    /// Adds a slice of `dst_num_states` states for the destination input
    /// `input_id` at the end of the partition, and returns the span of the
    /// states to insert for it.
    #[verifier::spinoff_prover]
    #[verifier::rlimit(40)]
    pub fn add_dst(&mut self, input_id: SoundInputId, dst_num_states: usize) -> (r: GridSpan)
        requires
            partition_wf(old(self).slices()),
            prefix_total(old(self).slices(), old(self).slices().len() as int) + dst_num_states
                <= usize::MAX,
        ensures
            final(self).slices() == old(self).slices().push(
                (
                    input_id,
                    prefix_total(old(self).slices(), old(self).slices().len() as int),
                    dst_num_states as int,
                ),
            ),
            partition_wf(final(self).slices()),
            r.spec_start() == prefix_total(old(self).slices(), old(self).slices().len() as int),
            r.spec_num_items() == dst_num_states,
            r.spec_items_per_row() == dst_num_states,
            r.spec_row_stride() == dst_num_states,
            r.spec_num_rows() == 1,
    {
        let ghost e = self.slices();
        let total = self.total_size();
        let s = StateTableSlice { index: total, count: dst_num_states };
        self.offsets.push((input_id, s));
        proof {
            let x = (input_id, total as int, dst_num_states as int);
            assert(self.slices() =~= e.push(x));
            let e2 = e.push(x);
            assert forall|j: int| 0 <= j < e2.len() implies #[trigger] e2[j].1 == prefix_total(e2, j) by {
                lemma_prefix_total_push(e, x, j);
                if j < e.len() {
                    assert(e2[j] == e[j]);
                }
            }
            lemma_prefix_total_push(e, x, e.len() as int);
            lemma_prefix_total_step(e2, e.len() as int);
        }
        GridSpan::new_contiguous(total, dst_num_states)
    }

    /// Takes out the slice of the destination input `input_id`, moving the
    /// later slices back, and returns the span of the states to erase.
    #[verifier::spinoff_prover]
    #[verifier::rlimit(40)]
    pub fn remove_dst(&mut self, input_id: SoundInputId) -> (r: GridSpan)
        requires
            partition_wf(old(self).slices()),
            has_slice(old(self).slices(), input_id),
        ensures
            final(self).slices() == remove_slice(
                old(self).slices(),
                slice_position(old(self).slices(), input_id),
            ),
            partition_wf(final(self).slices()),
            r.spec_start() == old(self).slices()[slice_position(old(self).slices(), input_id)].1,
            r.spec_num_items() == old(self).slices()[slice_position(old(self).slices(), input_id)].2,
            r.spec_items_per_row() == r.spec_num_items(),
            r.spec_row_stride() == r.spec_num_items(),
            r.spec_num_rows() == 1,
    {
        let ghost e = self.slices();
        let index = self.position_of(input_id);
        let o = self.offsets.remove(index);
        let ghost removed = e[index as int];
        proof {
            lemma_prefix_total_monotonic(e, index + 1, e.len() as int);
        }
        let mut j: usize = index;
        while j < self.offsets.len()
            invariant
                index <= j <= self.offsets.len(),
                self.offsets.len() == e.len() - 1,
                partition_wf(e),
                0 <= index < e.len(),
                o.1.count == e[index as int].2,
                o.1.index == e[index as int].1,
                forall|m: int| 0 <= m < self.offsets.len() ==> #[trigger] self.slices()[m] == if m < index {
                    e[m]
                } else if m < j {
                    (e[m + 1].0, e[m + 1].1 - e[index as int].2, e[m + 1].2)
                } else {
                    e[m + 1]
                },
            decreases self.offsets.len() - j,
        {
            let cur = self.offsets[j];
            proof {
                assert(self.slices()[j as int] == e[j + 1]);
                lemma_prefix_total_monotonic(e, index + 1, j + 1);
                assert(e[j + 1].1 == prefix_total(e, j + 1));
                lemma_slice_fits(e, index as int);
            }
            let ghost before = self.slices();
            self.offsets.set(j, (cur.0, StateTableSlice { index: cur.1.index - o.1.count, count: cur.1.count }));
            proof {
                assert(self.slices() =~= before.update(j as int, (cur.0, cur.1.index - o.1.count, cur.1.count as int)));
            }
            j = j + 1;
        }
        proof {
            let r = remove_slice(e, index as int);
            assert(self.slices() =~= r);
            assert forall|m: int| 0 <= m < r.len() implies #[trigger] r[m].1 == prefix_total(r, m) by {
                lemma_prefix_total_remove(e, index as int, m);
                if m < index {
                    lemma_slice_fits(e, m);
                } else {
                    lemma_slice_fits(e, m + 1);
                    lemma_slice_fits(e, index as int);
                }
            }
            lemma_prefix_total_remove(e, index as int, r.len() as int);
            lemma_prefix_total_monotonic(e, index + 1, e.len() as int);
            lemma_slice_fits(e, index as int);
            assert(e[index as int] == (o.0, o.1.index as int, o.1.count as int));
        }
        GridSpan::new_contiguous(o.1.index, o.1.count)
    }

    #[verifier::spinoff_prover]
    #[verifier::rlimit(40)]
    fn shift_after(&mut self, index: usize, amount: usize, up: bool)
        requires
            index < old(self).offsets@.len(),
            forall|m: int|
                index < m < old(self).offsets@.len() ==> if up {
                    old(self).offsets@[m].1.index + amount <= usize::MAX
                } else {
                    old(self).offsets@[m].1.index >= amount
                },
        ensures
            final(self).offsets@.len() == old(self).offsets@.len(),
            forall|m: int| 0 <= m < final(self).offsets@.len() ==> #[trigger] final(self).slices()[m] == if m <= index {
                old(self).slices()[m]
            } else if up {
                (old(self).slices()[m].0, old(self).slices()[m].1 + amount, old(self).slices()[m].2)
            } else {
                (old(self).slices()[m].0, old(self).slices()[m].1 - amount, old(self).slices()[m].2)
            },
    {
        let ghost e = self.slices();
        let n = self.offsets.len();
        let mut j: usize = index + 1;
        while j < self.offsets.len()
            invariant
                index + 1 <= j <= self.offsets.len(),
                self.offsets@.len() == old(self).offsets@.len(),
                e == old(self).slices(),
                forall|m: int|
                    j <= m < self.offsets@.len() ==> self.offsets@[m] == old(self).offsets@[m],
                forall|m: int|
                    index < m < old(self).offsets@.len() ==> if up {
                        old(self).offsets@[m].1.index + amount <= usize::MAX
                    } else {
                        old(self).offsets@[m].1.index >= amount
                    },
                forall|m: int| 0 <= m < self.offsets.len() ==> #[trigger] self.slices()[m] == if m <= index {
                    e[m]
                } else if m < j {
                    if up {
                        (e[m].0, e[m].1 + amount, e[m].2)
                    } else {
                        (e[m].0, e[m].1 - amount, e[m].2)
                    }
                } else {
                    e[m]
                },
            decreases self.offsets.len() - j,
        {
            let cur = self.offsets[j];
            let new_index = if up {
                cur.1.index + amount
            } else {
                cur.1.index - amount
            };
            let ghost before = self.slices();
            proof {
                assert(before[j as int] == e[j as int]);
            }
            self.offsets.set(j, (cur.0, StateTableSlice { index: new_index, count: cur.1.count }));
            proof {
                assert(self.slices() =~= before.update(j as int, (cur.0, new_index as int, cur.1.count as int)));
            }
            j = j + 1;
        }
    }

    /// Grows the slice of the destination input `input_id` by the states of
    /// `span`, moving the later slices on, and returns where those new
    /// states go in the state table.
    #[verifier::spinoff_prover]
    #[verifier::rlimit(40)]
    pub fn add_dst_states(&mut self, input_id: SoundInputId, span: GridSpan) -> (r: GridSpan)
        requires
            partition_wf(old(self).slices()),
            has_slice(old(self).slices(), input_id),
            span.wf(),
            prefix_total(old(self).slices(), old(self).slices().len() as int) + span.spec_num_items()
                <= usize::MAX,
            span.spec_end_bound() + old(self).slices()[slice_position(old(self).slices(), input_id)].1
                <= usize::MAX,
        ensures
            final(self).slices() == grow_slice(
                old(self).slices(),
                slice_position(old(self).slices(), input_id),
                span.spec_num_items(),
            ),
            partition_wf(final(self).slices()),
            r.spec_start() == span.spec_start() + old(self).slices()[slice_position(
                old(self).slices(),
                input_id,
            )].1,
            r.spec_items_per_row() == span.spec_items_per_row(),
            r.spec_row_stride() == span.spec_row_stride(),
            r.spec_num_rows() == span.spec_num_rows(),
    {
        let ghost e = self.slices();
        let index = self.position_of(input_id);
        let new_items = span.num_items();
        let o = self.offsets[index];
        proof {
            lemma_prefix_total_monotonic(e, index + 1, e.len() as int);
            lemma_slice_fits(e, index as int);
        }
        let new_span = span.offset(o.1.index);
        let n = self.offsets.len();
        self.offsets.set(index, (o.0, StateTableSlice { index: o.1.index, count: o.1.count + new_items }));
        proof {
            assert(self.slices() =~= e.update(index as int, (o.0, o.1.index as int, o.1.count + new_items)));
            assert forall|m: int| index < m < self.offsets@.len() implies self.offsets@[m].1.index + new_items <= usize::MAX by {
                assert(self.slices()[m] == (self.offsets@[m].0, self.offsets@[m].1.index as int, self.offsets@[m].1.count as int));
                assert(self.slices()[m] == e[m]);
                lemma_slice_fits(e, m);
                lemma_prefix_total_monotonic(e, m, e.len() as int);
            }
        }
        if index + 1 < n {
            self.shift_after(index, new_items, true);
        }
        proof {
            assert(self.slices() =~= grow_slice(e, index as int, new_items as int));
            lemma_grow_keeps_wf(e, index as int, new_items as int);
        }
        new_span
    }

    /// Shrinks the slice of the destination input `input_id` by the states
    /// of `span`, moving the later slices back, and returns where the
    /// states to erase lie in the state table.
    #[verifier::spinoff_prover]
    #[verifier::rlimit(40)]
    pub fn remove_dst_states(&mut self, input_id: SoundInputId, span: GridSpan) -> (r: GridSpan)
        requires
            partition_wf(old(self).slices()),
            has_slice(old(self).slices(), input_id),
            span.wf(),
            span.spec_num_items() <= old(self).slices()[slice_position(old(self).slices(), input_id)].2,
            span.spec_end_bound() + old(self).slices()[slice_position(old(self).slices(), input_id)].1
                <= usize::MAX,
        ensures
            final(self).slices() == grow_slice(
                old(self).slices(),
                slice_position(old(self).slices(), input_id),
                -span.spec_num_items(),
            ),
            partition_wf(final(self).slices()),
            r.spec_start() == span.spec_start() + old(self).slices()[slice_position(
                old(self).slices(),
                input_id,
            )].1,
            r.spec_items_per_row() == span.spec_items_per_row(),
            r.spec_row_stride() == span.spec_row_stride(),
            r.spec_num_rows() == span.spec_num_rows(),
    {
        let ghost e = self.slices();
        let index = self.position_of(input_id);
        let new_items = span.num_items();
        let o = self.offsets[index];
        let new_span = span.offset(o.1.index);
        let n = self.offsets.len();
        self.offsets.set(index, (o.0, StateTableSlice { index: o.1.index, count: o.1.count - new_items }));
        proof {
            assert(self.slices() =~= e.update(index as int, (o.0, o.1.index as int, o.1.count - new_items)));
            assert forall|m: int| index < m < self.offsets@.len() implies self.offsets@[m].1.index >= new_items by {
                assert(self.slices()[m] == (self.offsets@[m].0, self.offsets@[m].1.index as int, self.offsets@[m].1.count as int));
                assert(self.slices()[m] == e[m]);
                lemma_slice_fits(e, m);
                lemma_slice_fits(e, index as int);
                lemma_prefix_total_monotonic(e, index + 1, m);
            }
        }
        if index + 1 < n {
            self.shift_after(index, new_items, false);
        }
        proof {
            assert(self.slices() =~= grow_slice(e, index as int, -(new_items as int)));
            lemma_prefix_total_monotonic(e, index + 1, e.len() as int);
            lemma_grow_keeps_wf(e, index as int, -(new_items as int));
        }
        new_span
    }
}

/// What a sound processor or input keeps for each of its states.
pub trait SoundState: Default {
    /// Puts the state back as it was when it began.
    fn reset(&mut self);
}

/// The state that `reset` makes of `state`.
pub fn reset_value<T: SoundState>(state: T) -> T {
    let mut s = state;
    s.reset();
    s
}

/// `after` is what `reset` makes of `before`: a result that resetting
/// `before` can give.
pub open spec fn is_reset_of<T: SoundState>(before: T, after: T) -> bool {
    call_ensures(reset_value::<T>, (before,), after)
}

/// The index of state `c` of row `r` of `span`.
pub open spec fn span_index(span: GridSpan, r: int, c: int) -> int {
    span.spec_start() + r * span.spec_row_stride() + c
}

/// `(r, c)` names a state of `span`: a row of it and a place in that row.
pub open spec fn in_span(span: GridSpan, r: int, c: int) -> bool {
    0 <= r < span.spec_num_rows() && 0 <= c < span.spec_items_per_row()
}

proof fn lemma_span_index_distinct(span: GridSpan, r1: int, c1: int, r2: int, c2: int)
    requires
        span.wf(),
        in_span(span, r1, c1),
        in_span(span, r2, c2),
        r1 != r2 || c1 != c2,
    ensures
        span_index(span, r1, c1) != span_index(span, r2, c2),
{
    let b = span.spec_row_stride();
    let a = span.spec_items_per_row();
    assert(r1 * b + c1 != r2 * b + c2) by (nonlinear_arith)
        requires
            0 <= c1 < a,
            0 <= c2 < a,
            a <= b,
            0 <= r1,
            0 <= r2,
            r1 != r2 || c1 != c2,
    {
        if r1 < r2 {
            assert(r1 * b + b <= r2 * b);
        } else if r2 < r1 {
            assert(r2 * b + b <= r1 * b);
        }
    }
}

/// Resets the states of `data` at the span's indices; the others stay as they are.
fn reset_span<T: SoundState>(data: &mut Vec<T>, span: GridSpan)
    requires
        span.wf(),
        span.fits_within(old(data)@.len() as int),
    ensures
        final(data)@.len() == old(data)@.len(),
        span.spec_erase(final(data)@) == span.spec_erase(old(data)@),
        forall|r: int, c: int|
            #![trigger span_index(span, r, c)]
            in_span(span, r, c) ==> is_reset_of(
                old(data)@[span_index(span, r, c)],
                final(data)@[span_index(span, r, c)],
            ),
{
    let ghost initial = data@;
    let start = span.start_index();
    let items = span.items_per_row();
    let stride = span.row_stride();
    let rows = span.num_rows();
    if items == 0 {
        return;
    }
    assert(data.len() == initial.len());
    let mut r: usize = 0;
    while r < rows
        invariant
            r <= rows,
            0 < items,
            initial.len() <= usize::MAX,
            span.wf(),
            span.spec_start() == start,
            span.spec_items_per_row() == items,
            span.spec_row_stride() == stride,
            span.spec_num_rows() == rows,
            span.fits_within(initial.len() as int),
            data@.len() == initial.len(),
            span.spec_erase(data@) == span.spec_erase(initial),
            forall|r2: int, c2: int|
                #![trigger span_index(span, r2, c2)]
                in_span(span, r2, c2) ==> if r2 < r {
                    is_reset_of(initial[span_index(span, r2, c2)], data@[span_index(span, r2, c2)])
                } else {
                    data@[span_index(span, r2, c2)] == initial[span_index(span, r2, c2)]
                },
        decreases rows - r,
    {
        proof {
            lemma_row_index_fits(
                initial.len() - start,
                items as int,
                stride as int,
                rows as nat,
                r as int,
                0,
            );
        }
        let row_begin = start + r * stride;
        let mut c: usize = 0;
        while c < items
            invariant
                c <= items,
                r < rows,
                initial.len() <= usize::MAX,
                row_begin == start + r * stride,
                span.wf(),
                span.spec_start() == start,
                span.spec_items_per_row() == items,
                span.spec_row_stride() == stride,
                span.spec_num_rows() == rows,
                span.fits_within(initial.len() as int),
                data@.len() == initial.len(),
                span.spec_erase(data@) == span.spec_erase(initial),
                forall|r2: int, c2: int|
                    #![trigger span_index(span, r2, c2)]
                    in_span(span, r2, c2) ==> if r2 < r || (r2 == r && c2 < c) {
                        is_reset_of(initial[span_index(span, r2, c2)], data@[span_index(span, r2, c2)])
                    } else {
                        data@[span_index(span, r2, c2)] == initial[span_index(span, r2, c2)]
                    },
            decreases items - c,
        {
            let ghost before = data@;
            proof {
                lemma_row_index_fits(
                    initial.len() - start,
                    items as int,
                    stride as int,
                    rows as nat,
                    r as int,
                    c as int,
                );
            }
            let idx = row_begin + c;
            proof {
                assert(idx == span_index(span, r as int, c as int));
                assert(before[idx as int] == initial[idx as int]);
            }
            let mut old_state = T::default();
            std::mem::swap(&mut old_state, &mut data[idx]);
            let ghost taken = old_state;
            let reset_fn = reset_value::<T>;
            let new_state = reset_fn(old_state);
            data.set(idx, new_state);
            proof {
                assert(taken == before[idx as int]);
                assert forall|r2: int, c2: int|
                    #![trigger span_index(span, r2, c2)]
                    in_span(span, r2, c2) implies if r2 < r || (r2 == r && c2 < c + 1) {
                        is_reset_of(initial[span_index(span, r2, c2)], data@[span_index(span, r2, c2)])
                    } else {
                        data@[span_index(span, r2, c2)] == initial[span_index(span, r2, c2)]
                    } by {
                    lemma_row_index_fits(
                        initial.len() - start,
                        items as int,
                        stride as int,
                        rows as nat,
                        r2,
                        c2,
                    );
                    if r2 != r || c2 != c {
                        lemma_span_index_distinct(span, r2, c2, r as int, c as int);
                        assert(data@[span_index(span, r2, c2)] == before[span_index(span, r2, c2)]);
                    } else {
                        assert(data@[idx as int] == new_state);
                    }
                }
                let v = data@[idx as int];
                assert(data@ == before.update(idx as int, v));
                assert(before.skip(start as int).update(r * stride + c, v) =~= data@.skip(
                    start as int,
                ));
                assert(before.take(start as int) =~= data@.take(start as int));
                lemma_erase_rows_update(
                    before.skip(start as int),
                    items as int,
                    stride as int,
                    rows as nat,
                    r as int,
                    c as int,
                    v,
                );
            }
            c = c + 1;
        }
        r = r + 1;
    }
}

/// The states of a sound processor or input, in one table.
pub struct StateTable<T> {
    data: Vec<T>,
}

impl<T: SoundState> StateTable<T> {
    /// The states, in order.
    pub closed spec fn spec_states(&self) -> Seq<T> {
        self.data@
    }

    pub fn new() -> (t: StateTable<T>)
        ensures
            t.spec_states() == Seq::<T>::empty(),
    {
        StateTable { data: Vec::new() }
    }

    pub fn total_size(&self) -> (r: usize)
        ensures
            r == self.spec_states().len(),
    {
        self.data.len()
    }

    /// Adds fresh states at the span's indices, the others keeping their
    /// order around them.
    pub fn insert_states(&mut self, span: GridSpan)
        requires
            span.wf(),
            span.can_insert_into(old(self).spec_states().len() as int),
            old(self).spec_states().len() + span.spec_num_items() <= usize::MAX,
        ensures
            final(self).spec_states().len() == old(self).spec_states().len() + span.spec_num_items(),
            span.spec_erase(final(self).spec_states()) == old(self).spec_states(),
            span.fits_within(final(self).spec_states().len() as int),
    {
        let mut data: Vec<T> = Vec::new();
        std::mem::swap(&mut data, &mut self.data);
        self.data = span.insert_with(data, || T::default());
    }

    /// Takes out the states at the span's indices, keeping the others in order.
    pub fn erase_states(&mut self, span: GridSpan)
        requires
            span.wf(),
            span.fits_within(old(self).spec_states().len() as int),
        ensures
            final(self).spec_states() == span.spec_erase(old(self).spec_states()),
            final(self).spec_states().len() == old(self).spec_states().len() - span.spec_num_items(),
    {
        let mut data: Vec<T> = Vec::new();
        std::mem::swap(&mut data, &mut self.data);
        self.data = span.erase(data);
    }

    /// Resets the states at the span's indices; the others stay as they are.
    pub fn reset_states(&mut self, span: GridSpan)
        requires
            span.wf(),
            span.fits_within(old(self).spec_states().len() as int),
        ensures
            final(self).spec_states().len() == old(self).spec_states().len(),
            span.spec_erase(final(self).spec_states()) == span.spec_erase(old(self).spec_states()),
            forall|r: int, c: int|
                #![trigger span_index(span, r, c)]
                in_span(span, r, c) ==> is_reset_of(
                    old(self).spec_states()[span_index(span, r, c)],
                    final(self).spec_states()[span_index(span, r, c)],
                ),
    {
        reset_span(&mut self.data, span);
    }

    pub fn get_state(&self, index: usize) -> (r: &T)
        requires
            index < self.spec_states().len(),
        ensures
            *r == self.spec_states()[index as int],
    {
        &self.data[index]
    }

    pub fn get_state_mut(&mut self, index: usize) -> (r: &mut T)
        requires
            index < old(self).spec_states().len(),
        ensures
            *r == old(self).spec_states()[index as int],
            final(self).spec_states() == old(self).spec_states().update(index as int, *final(r)),
    {
        &mut self.data[index]
    }
}

/// The position of the first `key` in `keys`.
pub open spec fn key_position(keys: Seq<u64>, key: u64) -> int {
    choose|i: int| 0 <= i < keys.len() && keys[i] == key && forall|j: int| 0 <= j < i ==> keys[j] != key
}

/// The states of a keyed sound input: for each state of the processor
/// above it, one state per key, the keys of a state side by side.
pub struct KeyedStateTable<T> {
    keys: KeyRange,
    data: Vec<T>,
    num_parent_states: usize,
}

impl<T: SoundState> KeyedStateTable<T> {
    pub closed spec fn spec_keys(&self) -> Seq<u64> {
        self.keys@
    }

    pub closed spec fn spec_states(&self) -> Seq<T> {
        self.data@
    }

    /// How many states of the processor above the table counts.
    pub closed spec fn spec_num_parent_states(&self) -> int {
        self.num_parent_states as int
    }

    pub fn new() -> (t: KeyedStateTable<T>)
        ensures
            t.spec_keys() == Seq::<u64>::empty(),
            t.spec_states() == Seq::<T>::empty(),
            t.spec_num_parent_states() == 0,
    {
        KeyedStateTable { keys: KeyRange::new(), data: Vec::new(), num_parent_states: 0 }
    }

    /// Adds `key` before the first greater key, and makes room in the
    /// states by the span `GridSpan::new(index, old_num_keys,
    /// old_num_keys + 1, num_parent_states)`, which it returns.
    pub fn add_key(&mut self, key: u64) -> (r: GridSpan)
        requires
            old(self).spec_keys().len() < usize::MAX,
            ({
                let idx = insertion_index(old(self).spec_keys(), key);
                let n = old(self).spec_keys().len();
                let p = old(self).spec_num_parent_states();
                &&& idx + (n + 1) * p <= usize::MAX
                &&& p == 0 || (idx <= old(self).spec_states().len() && gaps_fit(
                    old(self).spec_states().len() - idx,
                    1,
                    p as nat,
                ))
                &&& old(self).spec_states().len() + n * p <= usize::MAX
            }),
        ensures
            final(self).spec_keys() == old(self).spec_keys().insert(
                insertion_index(old(self).spec_keys(), key),
                key,
            ),
            r.spec_start() == insertion_index(old(self).spec_keys(), key),
            r.spec_items_per_row() == old(self).spec_keys().len(),
            r.spec_row_stride() == old(self).spec_keys().len() + 1,
            r.spec_num_rows() == old(self).spec_num_parent_states(),
            final(self).spec_states().len() == old(self).spec_states().len() + old(
                self,
            ).spec_keys().len() * old(self).spec_num_parent_states(),
            r.spec_erase(final(self).spec_states()) == old(self).spec_states(),
            final(self).spec_num_parent_states() == old(self).spec_num_parent_states(),
    {
        let old_num_keys = self.keys.keys().len();
        let index = self.keys.insert_key(key);
        let gs = GridSpan::new(index, old_num_keys, old_num_keys + 1, self.num_parent_states);
        let mut data: Vec<T> = Vec::new();
        std::mem::swap(&mut data, &mut self.data);
        self.data = gs.insert_with(data, || T::default());
        gs
    }

    /// Removes the first `key`, and takes out of the states the span
    /// `GridSpan::new(index, 1, old_num_keys, num_parent_states)`, which it
    /// returns.
    pub fn remove_key(&mut self, key: u64) -> (r: GridSpan)
        requires
            old(self).spec_keys().contains(key),
            ({
                let idx = key_position(old(self).spec_keys(), key);
                let n = old(self).spec_keys().len();
                let p = old(self).spec_num_parent_states();
                &&& idx + n * p <= usize::MAX
                &&& p == 0 || (idx <= old(self).spec_states().len() && rows_fit(
                    old(self).spec_states().len() - idx,
                    1,
                    n as int,
                    p as nat,
                ))
            }),
        ensures
            final(self).spec_keys() == old(self).spec_keys().remove(
                key_position(old(self).spec_keys(), key),
            ),
            r.spec_start() == key_position(old(self).spec_keys(), key),
            r.spec_items_per_row() == 1,
            r.spec_row_stride() == old(self).spec_keys().len(),
            r.spec_num_rows() == old(self).spec_num_parent_states(),
            final(self).spec_states() == r.spec_erase(old(self).spec_states()),
            final(self).spec_num_parent_states() == old(self).spec_num_parent_states(),
    {
        let old_num_keys = self.keys.keys().len();
        let ghost ks = self.keys@;
        let mut index: usize = 0;
        while index < old_num_keys && self.keys.keys()[index] != key
            invariant
                ks == self.keys@,
                old_num_keys == ks.len(),
                ks.contains(key),
                index <= ks.len(),
                forall|j: int| 0 <= j < index ==> ks[j] != key,
            decreases ks.len() - index,
        {
            index = index + 1;
        }
        proof {
            if index == ks.len() {
                let w = choose|w: int| 0 <= w < ks.len() && ks[w] == key;
                assert(ks[w] != key);
            }
            let c = key_position(ks, key);
            assert(0 <= index < ks.len() && ks[index as int] == key && forall|j: int|
                0 <= j < index ==> ks[j] != key);
            if c < index {
                assert(ks[c] != key);
            } else if c > index {
                assert(ks[index as int] != key);
            }
        }
        self.keys.erase_key(index);
        let gs = GridSpan::new(index, 1, old_num_keys, self.num_parent_states);
        let mut data: Vec<T> = Vec::new();
        std::mem::swap(&mut data, &mut self.data);
        self.data = gs.erase(data);
        gs
    }

    /// Adds fresh states for the processor states `span`, one per key each,
    /// and returns where they went.
    pub fn insert_states(&mut self, span: GridSpan) -> (r: GridSpan)
        requires
            span.wf(),
            span.spec_end_bound() * old(self).spec_keys().len() <= usize::MAX,
            span.spec_row_stride() * old(self).spec_keys().len() <= usize::MAX,
            ({
                let n = old(self).spec_keys().len();
                let len = old(self).spec_states().len();
                &&& span.spec_num_rows() == 0 || (span.spec_start() * n <= len && gaps_fit(
                    len - span.spec_start() * n,
                    span.spec_row_stride() * n - span.spec_items_per_row() * n,
                    span.spec_num_rows() as nat,
                ))
                &&& len + span.spec_num_items() * n <= usize::MAX
            }),
        ensures
            r.spec_start() == span.spec_start() * old(self).spec_keys().len(),
            r.spec_items_per_row() == span.spec_items_per_row() * old(self).spec_keys().len(),
            r.spec_row_stride() == span.spec_row_stride() * old(self).spec_keys().len(),
            r.spec_num_rows() == span.spec_num_rows(),
            final(self).spec_states().len() == old(self).spec_states().len() + span.spec_num_items()
                * old(self).spec_keys().len(),
            r.spec_erase(final(self).spec_states()) == old(self).spec_states(),
            final(self).spec_keys() == old(self).spec_keys(),
            final(self).spec_num_parent_states() == old(self).spec_num_parent_states(),
    {
        let n = self.keys.keys().len();
        let s = span.inflate(n);
        let mut data: Vec<T> = Vec::new();
        std::mem::swap(&mut data, &mut self.data);
        self.data = s.insert_with(data, || T::default());
        s
    }

    /// Takes out the states for the processor states `span`, one per key
    /// each, and returns where they were.
    pub fn erase_states(&mut self, span: GridSpan) -> (r: GridSpan)
        requires
            span.wf(),
            span.spec_end_bound() * old(self).spec_keys().len() <= usize::MAX,
            span.spec_row_stride() * old(self).spec_keys().len() <= usize::MAX,
            ({
                let n = old(self).spec_keys().len();
                let len = old(self).spec_states().len();
                span.spec_num_rows() == 0 || (span.spec_start() * n <= len && rows_fit(
                    len - span.spec_start() * n,
                    span.spec_items_per_row() * n,
                    span.spec_row_stride() * n,
                    span.spec_num_rows() as nat,
                ))
            }),
        ensures
            r.spec_start() == span.spec_start() * old(self).spec_keys().len(),
            r.spec_items_per_row() == span.spec_items_per_row() * old(self).spec_keys().len(),
            r.spec_row_stride() == span.spec_row_stride() * old(self).spec_keys().len(),
            r.spec_num_rows() == span.spec_num_rows(),
            final(self).spec_states() == r.spec_erase(old(self).spec_states()),
            final(self).spec_keys() == old(self).spec_keys(),
            final(self).spec_num_parent_states() == old(self).spec_num_parent_states(),
    {
        let n = self.keys.keys().len();
        let s = span.inflate(n);
        let mut data: Vec<T> = Vec::new();
        std::mem::swap(&mut data, &mut self.data);
        self.data = s.erase(data);
        s
    }

    /// Resets the states for the processor states `span`, one per key each,
    /// and returns where they are; the other states stay as they are.
    pub fn reset_states(&mut self, span: GridSpan) -> (r: GridSpan)
        requires
            span.wf(),
            span.spec_end_bound() * old(self).spec_keys().len() <= usize::MAX,
            span.spec_row_stride() * old(self).spec_keys().len() <= usize::MAX,
            ({
                let n = old(self).spec_keys().len();
                let len = old(self).spec_states().len();
                span.spec_num_rows() == 0 || (span.spec_start() * n <= len && rows_fit(
                    len - span.spec_start() * n,
                    span.spec_items_per_row() * n,
                    span.spec_row_stride() * n,
                    span.spec_num_rows() as nat,
                ))
            }),
        ensures
            r.spec_start() == span.spec_start() * old(self).spec_keys().len(),
            r.spec_items_per_row() == span.spec_items_per_row() * old(self).spec_keys().len(),
            r.spec_row_stride() == span.spec_row_stride() * old(self).spec_keys().len(),
            r.spec_num_rows() == span.spec_num_rows(),
            final(self).spec_states().len() == old(self).spec_states().len(),
            r.spec_erase(final(self).spec_states()) == r.spec_erase(old(self).spec_states()),
            forall|row: int, c: int|
                #![trigger span_index(r, row, c)]
                in_span(r, row, c) ==> is_reset_of(
                    old(self).spec_states()[span_index(r, row, c)],
                    final(self).spec_states()[span_index(r, row, c)],
                ),
            final(self).spec_keys() == old(self).spec_keys(),
            final(self).spec_num_parent_states() == old(self).spec_num_parent_states(),
    {
        let n = self.keys.keys().len();
        let s = span.inflate(n);
        reset_span(&mut self.data, s);
        s
    }

    /// The state of key `key_index` for processor state `state_index`.
    pub fn get_state(&self, state_index: usize, key_index: usize) -> (r: &T)
        requires
            key_index < self.spec_keys().len(),
            self.spec_keys().len() * state_index + key_index < self.spec_states().len(),
        ensures
            *r == self.spec_states()[self.spec_keys().len() * state_index + key_index],
    {
        let n = self.keys.keys().len();
        assert(self.data.len() == self.data@.len());
        &self.data[n * state_index + key_index]
    }

    /// The state of key `key_index` for processor state `state_index`, to
    /// change.
    pub fn get_state_mut(&mut self, state_index: usize, key_index: usize) -> (r: &mut T)
        requires
            key_index < old(self).spec_keys().len(),
            old(self).spec_keys().len() * state_index + key_index < old(self).spec_states().len(),
        ensures
            *r == old(self).spec_states()[old(self).spec_keys().len() * state_index + key_index],
            final(self).spec_states() == old(self).spec_states().update(
                old(self).spec_keys().len() * state_index + key_index,
                *final(r),
            ),
            final(self).spec_keys() == old(self).spec_keys(),
            final(self).spec_num_parent_states() == old(self).spec_num_parent_states(),
    {
        let n = self.keys.keys().len();
        assert(self.data.len() == self.data@.len());
        &mut self.data[n * state_index + key_index]
    }
}

} // verus!
