use std::collections::HashMap;

use vstd::prelude::*;

use crate::connectionerror::{ConnectionError, NumberConnectionError, SoundConnectionError};
use crate::numberinput::{NumberInputId, NumberInputOwner};
use crate::numbersource::{NumberSourceId, NumberSourceOwner};
use crate::path::{first_number_input_index, first_sound_input_index, NumberPath, SoundPath};
use crate::soundinput::{InputOptions, SoundInputId};
use crate::soundprocessor::SoundProcessorId;

verus! {

broadcast use vstd::std_specs::hash::group_hash_axioms;

/// A snapshot of one sound input: its options, how many keys it has,
/// and the sound processor it is connected to, if any.
#[derive(Copy, Clone)]
pub struct SoundInputDescription {
    id: SoundInputId,
    options: InputOptions,
    num_keys: usize,
    target: Option<SoundProcessorId>,
}

impl SoundInputDescription {
    pub closed spec fn spec_id(self) -> SoundInputId {
        self.id
    }

    pub closed spec fn spec_options(self) -> InputOptions {
        self.options
    }

    pub closed spec fn spec_num_keys(self) -> usize {
        self.num_keys
    }

    pub closed spec fn spec_target(self) -> Option<SoundProcessorId> {
        self.target
    }

    pub fn new(
        id: SoundInputId,
        options: InputOptions,
        num_keys: usize,
        target: Option<SoundProcessorId>,
    ) -> (d: SoundInputDescription)
        ensures
            d.spec_id() == id,
            d.spec_options() == options,
            d.spec_num_keys() == num_keys,
            d.spec_target() == target,
    {
        SoundInputDescription { id, options, num_keys, target }
    }
}

/// A snapshot of one sound processor: whether it is static, and its
/// inputs in order.
pub struct SoundProcessorDescription {
    id: SoundProcessorId,
    is_static: bool,
    inputs: Vec<SoundInputId>,
}

impl SoundProcessorDescription {
    pub closed spec fn spec_id(self) -> SoundProcessorId {
        self.id
    }

    pub closed spec fn spec_is_static(self) -> bool {
        self.is_static
    }

    pub closed spec fn spec_inputs(self) -> Seq<SoundInputId> {
        self.inputs@
    }

    pub fn new(id: SoundProcessorId, is_static: bool, inputs: Vec<SoundInputId>) -> (d:
        SoundProcessorDescription)
        ensures
            d.spec_id() == id,
            d.spec_is_static() == is_static,
            d.spec_inputs() == inputs@,
    {
        SoundProcessorDescription { id, is_static, inputs }
    }
}

/// A snapshot of one number source: its inputs in order and its owner.
pub struct NumberSourceDescription {
    id: NumberSourceId,
    inputs: Vec<NumberInputId>,
    owner: NumberSourceOwner,
}

impl NumberSourceDescription {
    pub closed spec fn spec_id(self) -> NumberSourceId {
        self.id
    }

    pub closed spec fn spec_inputs(self) -> Seq<NumberInputId> {
        self.inputs@
    }

    pub closed spec fn spec_owner(self) -> NumberSourceOwner {
        self.owner
    }

    pub fn new(id: NumberSourceId, inputs: Vec<NumberInputId>, owner: NumberSourceOwner) -> (d:
        NumberSourceDescription)
        ensures
            d.spec_id() == id,
            d.spec_inputs() == inputs@,
            d.spec_owner() == owner,
    {
        NumberSourceDescription { id, inputs, owner }
    }
}

/// A snapshot of one number input: the number source it is connected
/// to, if any, and its owner.
#[derive(Copy, Clone)]
pub struct NumberInputDescription {
    id: NumberInputId,
    target: Option<NumberSourceId>,
    owner: NumberInputOwner,
}

impl NumberInputDescription {
    pub closed spec fn spec_id(self) -> NumberInputId {
        self.id
    }

    pub closed spec fn spec_target(self) -> Option<NumberSourceId> {
        self.target
    }

    pub closed spec fn spec_owner(self) -> NumberInputOwner {
        self.owner
    }

    pub fn new(id: NumberInputId, target: Option<NumberSourceId>, owner: NumberInputOwner) -> (d:
        NumberInputDescription)
        ensures
            d.spec_id() == id,
            d.spec_target() == target,
            d.spec_owner() == owner,
    {
        NumberInputDescription { id, target, owner }
    }
}

/// The inputs of a path of sound connections, in order.
pub open spec fn sound_path_inputs(conns: Seq<(SoundProcessorId, SoundInputId)>) -> Seq<
    SoundInputId,
> {
    conns.map_values(|c: (SoundProcessorId, SoundInputId)| c.1)
}

/// A snapshot of the connections of a whole sound graph, each table
/// keyed by the integer of the identifier of its entries.
pub struct SoundGraphDescription {
    sound_processors: HashMap<usize, SoundProcessorDescription>,
    sound_inputs: HashMap<usize, SoundInputDescription>,
    number_sources: HashMap<usize, NumberSourceDescription>,
    number_inputs: HashMap<usize, NumberInputDescription>,
}

impl SoundGraphDescription {
    pub closed spec fn processors(self) -> Map<usize, SoundProcessorDescription> {
        self.sound_processors@
    }

    pub closed spec fn inputs(self) -> Map<usize, SoundInputDescription> {
        self.sound_inputs@
    }

    pub closed spec fn sources(self) -> Map<usize, NumberSourceDescription> {
        self.number_sources@
    }

    pub closed spec fn number_inputs(self) -> Map<usize, NumberInputDescription> {
        self.number_inputs@
    }

    // ---------------------------------------------------------------
    // The sound connection graph
    // ---------------------------------------------------------------
    /// The processor that a sound input is connected to, if the input
    /// exists and is connected.
    pub open spec fn sound_input_target(self, i: SoundInputId) -> Option<SoundProcessorId> {
        if self.inputs().contains_key(i.0) {
            self.inputs()[i.0].spec_target()
        } else {
            None
        }
    }

    /// The processor `p` exists and has `i` among its inputs.
    pub open spec fn processor_has_input(self, p: SoundProcessorId, i: SoundInputId) -> bool {
        self.processors().contains_key(p.0) && self.processors()[p.0].spec_inputs().contains(i)
    }

    /// Sound input `a` is connected to a processor that has `b` as an input.
    pub open spec fn sound_step(self, a: SoundInputId, b: SoundInputId) -> bool {
        match self.sound_input_target(a) {
            Some(p) => self.processor_has_input(p, b),
            None => false,
        }
    }

    /// A walk along sound connections, listed by the inputs it passes.
    pub open spec fn sound_walk(self, w: Seq<SoundInputId>) -> bool {
        &&& w.len() >= 1
        &&& self.inputs().contains_key(w[0].0)
        &&& forall|k: int| 0 <= k < w.len() - 1 ==> #[trigger] self.sound_walk_step(w, k)
    }

    /// The walk `w` goes on from its `k`-th input to its next one.
    pub open spec fn sound_walk_step(self, w: Seq<SoundInputId>, k: int) -> bool {
        self.sound_step(w[k], w[k + 1])
    }

    /// The connections `c` form a closed loop: each input is connected to
    /// the processor beside it, and that processor has the next input.
    pub open spec fn is_sound_cycle(self, c: Seq<(SoundProcessorId, SoundInputId)>) -> bool {
        &&& c.len() > 0
        &&& forall|k: int|
            0 <= k < c.len() ==> #[trigger] self.sound_input_target(c[k].1) == Some(c[k].0)
        &&& forall|k: int|
            0 <= k < c.len() - 1 ==> #[trigger] self.processor_has_input(c[k].0, c[k + 1].1)
        &&& self.processor_has_input(c[c.len() - 1].0, c[0].1)
    }

    /// Some sound connections form a closed loop.
    pub open spec fn has_sound_cycle(self) -> bool {
        exists|c: Seq<(SoundProcessorId, SoundInputId)>| self.is_sound_cycle(c)
    }

    /// No walk from `i` ends at an input that is in `prefix` or that it
    /// passed before.
    pub open spec fn sound_escapes(self, i: SoundInputId, prefix: Seq<SoundInputId>) -> bool {
        forall|w: Seq<SoundInputId>|
            #![trigger self.sound_walk(w)]
            self.sound_walk(w) && w[0] == i ==> !(prefix + w.drop_last()).contains(w.last())
    }

    /// Every connected sound input points at an existing processor whose
    /// inputs all exist.
    pub open spec fn sound_targets_wf(self) -> bool {
        forall|k: usize|
            #![trigger self.inputs()[k]]
            self.inputs().contains_key(k) ==> match self.inputs()[k].spec_target() {
                Some(p) => self.processors().contains_key(p.0) && forall|j: int|
                    0 <= j < self.processors()[p.0].spec_inputs().len() ==> self.inputs().contains_key(
                        #[trigger] self.processors()[p.0].spec_inputs()[j].0,
                    ),
                None => true,
            }
    }

    /// `conns` is a path of sound connections leading up to `next`, with no
    /// input passed twice.
    pub open spec fn sound_chain(
        self,
        conns: Seq<(SoundProcessorId, SoundInputId)>,
        next: SoundInputId,
    ) -> bool {
        &&& forall|k: int|
            0 <= k < conns.len() ==> #[trigger] self.sound_input_target(conns[k].1) == Some(
                conns[k].0,
            )
        &&& forall|k: int|
            0 <= k < conns.len() - 1 ==> #[trigger] self.processor_has_input(
                conns[k].0,
                conns[k + 1].1,
            )
        &&& conns.len() > 0 ==> self.processor_has_input(conns[conns.len() - 1].0, next)
        &&& forall|j: int, k: int|
            0 <= j < k < conns.len() ==> (#[trigger] conns[j].1).0 != (#[trigger] conns[k].1).0
    }

    /// The input `i` is connected to an existing static processor.
    pub open spec fn targets_static(self, i: SoundInputId) -> bool {
        match self.sound_input_target(i) {
            Some(p) => self.processors().contains_key(p.0) && self.processors()[p.0].spec_is_static(),
            None => false,
        }
    }

    /// The walk `v` goes on from its `k`-th input through a processor that
    /// is not static.
    pub open spec fn static_walk_step(self, v: Seq<SoundInputId>, k: int) -> bool {
        !self.targets_static(v[k]) && self.sound_step(v[k], v[k + 1])
    }

    /// Some static processor of the description carries the identifier `s`.
    pub open spec fn is_static_root(self, s: SoundProcessorId) -> bool {
        exists|k: usize|
            self.processors().contains_key(k) && (#[trigger] self.processors()[k]).spec_is_static()
                && self.processors()[k].spec_id() == s
    }

    /// A walk that starts at an input of the processor filed under `s`, the
    /// identifier of a static processor, passes only connected inputs, and
    /// goes on only through processors that are not static: the inputs that
    /// share the states of `s`.
    pub open spec fn static_walk(self, s: SoundProcessorId, v: Seq<SoundInputId>) -> bool {
        &&& v.len() >= 1
        &&& self.processors().contains_key(s.0)
        &&& self.is_static_root(s)
        &&& self.processor_has_input(s, v[0])
        &&& forall|k: int| 0 <= k < v.len() ==> (#[trigger] self.sound_input_target(v[k])) is Some
        &&& forall|k: int| 0 <= k < v.len() - 1 ==> #[trigger] self.static_walk_step(v, k)
    }

    /// How many states the inputs of `v` multiply a state into: the
    /// product of their key counts.
    pub open spec fn keys_product(self, v: Seq<SoundInputId>) -> int
        decreases v.len(),
    {
        if v.len() == 0 {
            1
        } else {
            self.keys_product(v.drop_last()) * self.inputs()[v.last().0].spec_num_keys()
        }
    }

    /// Every input of `v` runs in real time.
    pub open spec fn all_realtime(self, v: Seq<SoundInputId>) -> bool {
        forall|k: int| 0 <= k < v.len() ==> (#[trigger] self.inputs()[v[k].0]).spec_options().realtime
    }

    /// The walk `v` from static processor `s` reaches another static
    /// processor, which would then need more than one state or be driven
    /// out of real time.
    pub open spec fn static_violation(self, s: SoundProcessorId, v: Seq<SoundInputId>) -> bool {
        &&& self.static_walk(s, v)
        &&& self.targets_static(v.last())
        &&& (self.keys_product(v) > 1 || !self.all_realtime(v))
    }

    /// Some walk that begins with `w` is a violation from `s`.
    pub open spec fn static_violation_from(self, s: SoundProcessorId, w: Seq<SoundInputId>) -> bool {
        exists|v: Seq<SoundInputId>|
            v.len() >= w.len() && v.subrange(0, w.len() as int) == w && #[trigger] self.static_violation(s, v)
    }

    /// No static processor reaches another static processor in a way
    /// that the latter cannot serve.
    pub open spec fn sound_connections_valid(self) -> bool {
        forall|s: SoundProcessorId, v: Seq<SoundInputId>| !#[trigger] self.static_violation(s, v)
    }

    /// What an error reported by the static-processor check says: it
    /// names the static processor at the end of a violating walk, with the
    /// kind of the violation, too many states first.
    pub open spec fn is_static_error(self, e: SoundConnectionError) -> bool {
        match e {
            SoundConnectionError::StaticTooManyStates(q) => exists|s: SoundProcessorId, v: Seq<SoundInputId>|
                #[trigger] self.static_violation(s, v) && self.sound_input_target(v.last()) == Some(q)
                    && self.keys_product(v) > 1,
            SoundConnectionError::StaticNotRealtime(q) => exists|s: SoundProcessorId, v: Seq<SoundInputId>|
                #[trigger] self.static_violation(s, v) && self.sound_input_target(v.last()) == Some(q)
                    && self.keys_product(v) <= 1 && !self.all_realtime(v),
            _ => false,
        }
    }

    /// The identifier of each static processor names a processor of the
    /// description, whose inputs are all present.
    pub open spec fn static_processors_wf(self) -> bool {
        forall|k: usize|
            #![trigger self.processors()[k]]
            self.processors().contains_key(k) && self.processors()[k].spec_is_static() ==> {
                &&& self.processors().contains_key(self.processors()[k].spec_id().0)
                &&& self.root_inputs_present(self.processors()[k].spec_id())
            }
    }

    /// Every input of the processor filed under `s` is present.
    pub open spec fn root_inputs_present(self, s: SoundProcessorId) -> bool {
        forall|j: int|
            0 <= j < self.processors()[s.0].spec_inputs().len() ==> self.inputs().contains_key(
                #[trigger] self.processors()[s.0].spec_inputs()[j].0,
            )
    }

    /// No walk from a static processor passes an input twice: following
    /// the states of a static processor comes to an end.
    pub open spec fn static_walks_simple(self) -> bool {
        forall|s: SoundProcessorId, v: Seq<SoundInputId>|
            #[trigger] self.static_walk(s, v) ==> forall|j: int, k: int|
                0 <= j < k < v.len() ==> (#[trigger] v[j]).0 != (#[trigger] v[k]).0
    }

    /// Along each walk from a static processor, the number of states stays
    /// between 1 and the largest `usize`.
    pub open spec fn static_walk_products_fit(self) -> bool {
        forall|s: SoundProcessorId, v: Seq<SoundInputId>|
            #[trigger] self.static_walk(s, v) ==> 1 <= self.keys_product(v) <= usize::MAX
    }

    /// What checking the static processors requires of the description.
    pub open spec fn static_check_wf(self) -> bool {
        &&& self.sound_targets_wf()
        &&& self.static_processors_wf()
        &&& self.static_walks_simple()
        &&& self.static_walk_products_fit()
    }
}

proof fn lemma_distinct_keys_bounded(s: Seq<usize>, dom: Set<usize>)
    requires
        dom.finite(),
        forall|j: int, k: int| 0 <= j < k < s.len() ==> s[j] != s[k],
        forall|j: int| 0 <= j < s.len() ==> dom.contains(#[trigger] s[j]),
    ensures
        s.len() <= dom.len(),
{
    assert(s.no_duplicates());
    s.unique_seq_to_set();
    assert(s.to_set().subset_of(dom));
    vstd::set_lib::lemma_len_subset(s.to_set(), dom);
}

impl SoundGraphDescription {
    proof fn lemma_sound_chain_bounded(self, conns: Seq<(SoundProcessorId, SoundInputId)>, next: SoundInputId)
        requires
            self.sound_chain(conns, next),
        ensures
            conns.len() <= self.inputs().dom().len(),
    {
        let s = conns.map_values(|c: (SoundProcessorId, SoundInputId)| c.1.0);
        assert forall|j: int| 0 <= j < s.len() implies self.inputs().dom().contains(#[trigger] s[j]) by {
            assert(self.sound_input_target(conns[j].1) == Some(conns[j].0));
        }
        assert forall|j: int, k: int| 0 <= j < k < s.len() implies s[j] != s[k] by {
            assert(conns[j].1.0 != conns[k].1.0);
        }
        lemma_distinct_keys_bounded(s, self.inputs().dom());
    }

    proof fn lemma_escapes_weaken(self, i: SoundInputId, prefix: Seq<SoundInputId>)
        requires
            self.sound_escapes(i, prefix),
        ensures
            self.sound_escapes(i, Seq::empty()),
    {
        assert forall|w: Seq<SoundInputId>|
            #![trigger self.sound_walk(w)]
            self.sound_walk(w) && w[0] == i implies !(Seq::<SoundInputId>::empty()
            + w.drop_last()).contains(w.last()) by {
            assert(Seq::<SoundInputId>::empty() + w.drop_last() =~= w.drop_last());
            if w.drop_last().contains(w.last()) {
                let j = choose|j: int| 0 <= j < w.drop_last().len() && w.drop_last()[j] == w.last();
                assert((prefix + w.drop_last())[prefix.len() + j] == w.last());
            }
        }
    }

    proof fn lemma_cycle_does_not_escape(self, c: Seq<(SoundProcessorId, SoundInputId)>)
        requires
            self.is_sound_cycle(c),
        ensures
            self.inputs().contains_key(c[0].1.0),
            !self.sound_escapes(c[0].1, Seq::empty()),
    {
        assert(self.sound_input_target(c[0].1) == Some(c[0].0));
        let w = sound_path_inputs(c).push(c[0].1);
        assert forall|k: int| 0 <= k < w.len() - 1 implies #[trigger] self.sound_walk_step(w, k) by {
            assert(self.sound_input_target(c[k].1) == Some(c[k].0));
            if k < c.len() - 1 {
                assert(self.processor_has_input(c[k].0, c[k + 1].1));
            }
        }
        assert(self.sound_walk(w));
        assert(w.drop_last() =~= sound_path_inputs(c));
        assert(Seq::<SoundInputId>::empty() + w.drop_last() =~= w.drop_last());
        assert(w.drop_last()[0] == w.last());
    }

    fn dfs_find_sound_cycle(
        input_id: SoundInputId,
        visited: &mut Vec<SoundInputId>,
        path: &mut SoundPath,
        graph_description: &SoundGraphDescription,
    ) -> (r: Option<SoundPath>)
        requires
            graph_description.sound_targets_wf(),
            graph_description.inputs().contains_key(input_id.0),
            graph_description.sound_chain(old(path).connections@, input_id),
        ensures
            r is None ==> final(path).connections@ == old(path).connections@
                && graph_description.sound_escapes(
                input_id,
                sound_path_inputs(old(path).connections@),
            ) && forall|v: SoundInputId| #[trigger]
                final(visited)@.contains(v) ==> old(visited)@.contains(v)
                    || graph_description.sound_escapes(v, Seq::empty()),
            r matches Some(c) ==> graph_description.is_sound_cycle(c.connections@),
        decreases graph_description.inputs().dom().len() - old(path).connections@.len(),
    {
        let ghost g = *graph_description;
        let ghost p0 = path.connections@;
        let ghost pin = sound_path_inputs(p0);
        proof {
            g.lemma_sound_chain_bounded(p0, input_id);
        }
        if !contains_sound_input(visited, input_id) {
            visited.push(input_id);
        }
        let ghost visited1 = visited@;
        if path.contains_input(input_id) {
            let trimmed = path.trim_until_input(input_id);
            proof {
                let f = first_sound_input_index(p0, input_id);
                let c = trimmed.connections@;
                assert forall|k: int| 0 <= k < c.len() implies #[trigger] g.sound_input_target(c[k].1) == Some(c[k].0) by {
                    assert(c[k] == p0[f + k]);
                }
                assert forall|k: int| 0 <= k < c.len() - 1 implies #[trigger] g.processor_has_input(c[k].0, c[k + 1].1) by {
                    assert(c[k] == p0[f + k]);
                    assert(c[k + 1] == p0[f + k + 1]);
                }
                assert(c[c.len() - 1] == p0[p0.len() - 1]);
            }
            return Some(trimmed);
        }
        let input_desc = graph_description.sound_inputs.get(&input_id.0).unwrap();
        let target_id = match input_desc.target {
            Some(spid) => spid,
            None => {
                proof {
                    assert forall|w: Seq<SoundInputId>|
                        #![trigger g.sound_walk(w)]
                        g.sound_walk(w) && w[0] == input_id implies !(pin + w.drop_last()).contains(w.last()) by {
                        if w.len() >= 2 {
                            assert(g.sound_walk_step(w, 0));
                        } else {
                            assert(pin + w.drop_last() =~= pin);
                            if pin.contains(input_id) {
                                let k = choose|k: int| 0 <= k < pin.len() && pin[k] == input_id;
                                assert(p0[k].1 == input_id);
                            }
                        }
                    }
                    assert forall|v: SoundInputId| #[trigger] visited@.contains(v) implies old(visited)@.contains(v)
                        || g.sound_escapes(v, Seq::empty()) by {
                        if !old(visited)@.contains(v) {
                            assert(v == input_id);
                            g.lemma_escapes_weaken(input_id, pin);
                        }
                    }
                }
                return None;
            },
        };
        let proc_desc = graph_description.sound_processors.get(&target_id.0).unwrap();
        path.push(target_id, input_id);
        let ghost p1 = path.connections@;
        let ghost pin1 = sound_path_inputs(p1);
        proof {
            assert(pin1 =~= pin.push(input_id));
            assert forall|j: int, k: int| 0 <= j < k < p1.len() implies (#[trigger] p1[j].1).0 != (#[trigger] p1[k].1).0 by {
                if k == p1.len() - 1 && p1[j].1.0 == input_id.0 {
                    assert(p0[j].1 == input_id);
                }
            }
        }
        let mut idx: usize = 0;
        while idx < proc_desc.inputs.len()
            invariant
                g == *graph_description,
                g.sound_targets_wf(),
                g.processors().contains_key(target_id.0),
                *proc_desc == g.processors()[target_id.0],
                g.sound_input_target(input_id) == Some(target_id),
                idx <= proc_desc.inputs.len(),
                path.connections@ == p1,
                p1 == p0.push((target_id, input_id)),
                pin1 == pin.push(input_id),
                pin1 == sound_path_inputs(p1),
                pin == sound_path_inputs(p0),
                p0 == old(path).connections@,
                forall|j: int, k: int| 0 <= j < k < p1.len() ==> (#[trigger] p1[j].1).0 != (#[trigger] p1[k].1).0,
                g.sound_chain(p0, input_id),
                forall|j: int| 0 <= j < idx ==> g.sound_escapes(#[trigger] proc_desc.inputs@[j], pin1),
                forall|v: SoundInputId| #[trigger]
                    visited@.contains(v) ==> old(visited)@.contains(v) || v == input_id
                        || g.sound_escapes(v, Seq::empty()),
            decreases proc_desc.inputs.len() - idx,
        {
            let target_proc_input = proc_desc.inputs[idx];
            proof {
                assert(g.processors()[target_id.0].spec_inputs()[idx as int] == target_proc_input);
                assert(g.inputs().contains_key(target_proc_input.0));
                assert(g.processor_has_input(target_id, target_proc_input));
                assert forall|k: int| 0 <= k < p1.len() implies #[trigger] g.sound_input_target(p1[k].1) == Some(p1[k].0) by {
                    if k < p0.len() {
                        assert(p1[k] == p0[k]);
                    }
                }
                assert forall|k: int| 0 <= k < p1.len() - 1 implies #[trigger] g.processor_has_input(p1[k].0, p1[k + 1].1) by {
                    assert(p1[k] == p0[k]);
                    if k + 1 < p0.len() {
                        assert(p1[k + 1] == p0[k + 1]);
                    }
                }
                assert(g.sound_chain(p1, target_proc_input));
                g.lemma_sound_chain_bounded(p1, target_proc_input);
            }
            let ghost visited_before = visited@;
            proof {
                assert(g.inputs().dom().len() - p1.len() < g.inputs().dom().len() - p0.len());
                assert(0 <= g.inputs().dom().len() - p1.len());
            }
            let r = Self::dfs_find_sound_cycle(target_proc_input, visited, path, graph_description);
            if let Some(p) = r {
                return Some(p);
            }
            proof {
                assert forall|v: SoundInputId| #[trigger] visited@.contains(v) implies old(visited)@.contains(v) || v == input_id
                        || g.sound_escapes(v, Seq::empty()) by {
                    if !visited_before.contains(v) {
                    }
                }
            }
            idx = idx + 1;
        }
        let _ = path.pop();
        proof {
            assert(path.connections@ =~= p0);
            assert forall|w: Seq<SoundInputId>|
                #![trigger g.sound_walk(w)]
                g.sound_walk(w) && w[0] == input_id implies !(pin + w.drop_last()).contains(w.last()) by {
                if w.len() >= 2 {
                    assert(g.sound_walk_step(w, 0));
                    let c = w[1];
                    assert(g.processors()[target_id.0].spec_inputs().contains(c));
                    let j = choose|j: int| 0 <= j < proc_desc.inputs@.len() && proc_desc.inputs@[j] == c;
                    assert(g.sound_escapes(proc_desc.inputs@[j], pin1));
                    let w2 = w.drop_first();
                    assert forall|k: int| 0 <= k < w2.len() - 1 implies #[trigger] g.sound_walk_step(w2, k) by {
                        assert(g.sound_walk_step(w, k + 1));
                    }
                    assert(g.sound_walk(w2));
                    assert(pin1 + w2.drop_last() =~= pin + w.drop_last());
                    assert(w2.last() == w.last());
                } else {
                    assert(pin + w.drop_last() =~= pin);
                    if pin.contains(input_id) {
                        let k = choose|k: int| 0 <= k < pin.len() && pin[k] == input_id;
                        assert(p0[k].1 == input_id);
                    }
                }
            }
            g.lemma_escapes_weaken(input_id, pin);
        }
        None
    }
}

impl SoundGraphDescription {
    /// Looks for a closed loop of sound connections. Returns one if
    /// there is any, and `None` exactly when there is none.
    pub fn find_sound_cycle(&self) -> (r: Option<SoundPath>)
        requires
            self.sound_targets_wf(),
        ensures
            r is None <==> !self.has_sound_cycle(),
            r matches Some(c) ==> self.is_sound_cycle(c.connections@),
    {
        let mut visited: Vec<SoundInputId> = Vec::new();
        let mut path: SoundPath = SoundPath::new(Vec::new());
        let ghost g = *self;
        let ghost mut covered: Set<usize> = Set::empty();
        for key in it: self.sound_inputs.keys()
            invariant
                g == *self,
                g.sound_targets_wf(),
                path.connections@.len() == 0,
                forall|v: SoundInputId| #[trigger] visited@.contains(v) ==> g.sound_escapes(v, Seq::empty()),
                forall|k: usize| #[trigger] covered.contains(k) ==> g.sound_escapes(SoundInputId(k), Seq::empty()),
                forall|j: int| 0 <= j < it.index() ==> covered.contains(*#[trigger] it.seq()[j]),
                it.seq().unref().to_set() == g.inputs().dom(),
                it.index() == it.seq().len() ==> g.inputs().dom().subset_of(covered),
        {
            let pid = SoundInputId(*key);
            proof {
                assert(it.seq().unref()[it.index() as int] == *key);
                assert(g.inputs().dom().contains(*key));
            }
            if !contains_sound_input(&visited, pid) {
                proof {
                    assert(path.connections@ =~= Seq::empty());
                }
                if let Some(p) = Self::dfs_find_sound_cycle(pid, &mut visited, &mut path, self) {
                    return Some(p);
                }
            }
            proof {
                assert(visited@.contains(pid) || g.sound_escapes(pid, Seq::empty()));
                covered = covered.insert(*key);
            }
            assert forall|x: usize| it.index() + 1 == it.seq().len() && g.inputs().dom().contains(x) implies covered.contains(x) by {
                assert(it.seq().unref().to_set().contains(x));
                let j = choose|j: int| 0 <= j < it.seq().len() && #[trigger] it.seq().unref()[j] == x;
                if j < it.index() {
                    assert(covered.contains(*it.seq()[j]));
                }
            }
        }
        proof {
            if g.has_sound_cycle() {
                let c = choose|c: Seq<(SoundProcessorId, SoundInputId)>| g.is_sound_cycle(c);
                g.lemma_cycle_does_not_escape(c);
                assert(covered.contains(c[0].1.0));
            }
        }
        None
    }
}

impl SoundGraphDescription {
    fn visit_static(
        proc_id: SoundProcessorId,
        states_to_add: usize,
        is_realtime: bool,
        graph_description: &SoundGraphDescription,
        init: bool,
        Ghost(root): Ghost<SoundProcessorId>,
        Ghost(w): Ghost<Seq<SoundInputId>>,
    ) -> (r: Option<SoundConnectionError>)
        requires
            graph_description.static_check_wf(),
            init <==> w.len() == 0,
            w.len() == 0 ==> proc_id == root && graph_description.processors().contains_key(root.0)
                && graph_description.is_static_root(root),
            w.len() > 0 ==> graph_description.static_walk(root, w)
                && graph_description.sound_input_target(w.last()) == Some(proc_id),
            states_to_add == graph_description.keys_product(w),
            is_realtime == graph_description.all_realtime(w),
        ensures
            r is None <==> !graph_description.static_violation_from(root, w),
            r matches Some(e) ==> graph_description.is_static_error(e),
        decreases graph_description.inputs().dom().len() - w.len(),
    {
        let ghost g = *graph_description;
        proof {
            if w.len() > 0 {
                let ks = w.map_values(|x: SoundInputId| x.0);
                assert forall|j: int| 0 <= j < ks.len() implies g.inputs().dom().contains(#[trigger] ks[j]) by {
                    assert(g.sound_input_target(w[j]) is Some);
                }
                lemma_distinct_keys_bounded(ks, g.inputs().dom());
                assert(g.processors().contains_key(proc_id.0));
            }
        }
        let proc_desc = graph_description.sound_processors.get(&proc_id.0).unwrap();
        if proc_desc.is_static {
            if states_to_add > 1 {
                proof {
                    assert(w.subrange(0, w.len() as int) =~= w);
                    assert(g.static_violation(root, w));
                }
                return Some(SoundConnectionError::StaticTooManyStates(proc_id));
            }
            if !is_realtime {
                proof {
                    assert(w.subrange(0, w.len() as int) =~= w);
                    assert(g.static_violation(root, w));
                }
                return Some(SoundConnectionError::StaticNotRealtime(proc_id));
            }
            if !init {
                proof {
                    assert forall|v: Seq<SoundInputId>|
                        v.len() >= w.len() && v.subrange(0, w.len() as int) == w implies !#[trigger] g.static_violation(root, v) by {
                        if v.len() == w.len() {
                            assert(v =~= w);
                        } else {
                            assert(v[w.len() - 1] == w.last());
                            assert(g.static_walk(root, v) ==> g.static_walk_step(v, w.len() - 1));
                        }
                    }
                }
                return None;
            }
        }
        proof {
            if w.len() == 0 {
                let k = choose|k: usize|
                    g.processors().contains_key(k) && (#[trigger] g.processors()[k]).spec_is_static()
                        && g.processors()[k].spec_id() == root;
                assert(g.root_inputs_present(root));
            } else {
                assert(g.inputs()[w.last().0].spec_target() == Some(proc_id));
            }
            assert forall|j: int| 0 <= j < proc_desc.inputs@.len() implies g.inputs().contains_key(#[trigger] proc_desc.inputs@[j].0) by {
                assert(g.processors()[proc_id.0].spec_inputs()[j] == proc_desc.inputs@[j]);
            }
        }
        let mut idx: usize = 0;
        while idx < proc_desc.inputs.len()
            invariant
                g == *graph_description,
                g.static_check_wf(),
                init <==> w.len() == 0,
                w.len() == 0 ==> proc_id == root && g.processors().contains_key(root.0)
                    && g.is_static_root(root),
                w.len() > 0 ==> g.static_walk(root, w) && g.sound_input_target(w.last()) == Some(proc_id),
                w.len() > 0 ==> !proc_desc.spec_is_static(),
                g.processors().contains_key(proc_id.0),
                *proc_desc == g.processors()[proc_id.0],
                forall|j: int| 0 <= j < proc_desc.inputs@.len() ==> g.inputs().contains_key(#[trigger] proc_desc.inputs@[j].0),
                states_to_add == g.keys_product(w),
                is_realtime == g.all_realtime(w),
                w.len() <= g.inputs().dom().len(),
                idx <= proc_desc.inputs.len(),
                forall|j: int| 0 <= j < idx ==> (g.sound_input_target(#[trigger] proc_desc.inputs@[j]) is Some
                    ==> !g.static_violation_from(root, w.push(proc_desc.inputs@[j]))),
            decreases proc_desc.inputs.len() - idx,
        {
            let input_id = proc_desc.inputs[idx];
            let input_desc = graph_description.sound_inputs.get(&input_id.0).unwrap();
            if let Some(t) = input_desc.target {
                let ghost w2 = w.push(input_id);
                proof {
                    assert(g.processor_has_input(proc_id, input_id));
                    assert forall|k: int| 0 <= k < w2.len() implies (#[trigger] g.sound_input_target(w2[k])) is Some by {
                        if k < w.len() {
                            assert(w2[k] == w[k]);
                        }
                    }
                    assert forall|k: int| 0 <= k < w2.len() - 1 implies #[trigger] g.static_walk_step(w2, k) by {
                        if k < w.len() - 1 {
                            assert(g.static_walk_step(w, k));
                        }
                    }
                    if w.len() > 0 {
                        assert(w2[0] == w[0]);
                    }
                    assert(g.static_walk(root, w2));
                    assert(w2.drop_last() =~= w);
                    assert(g.all_realtime(w2) == (g.all_realtime(w) && input_desc.options.realtime)) by {
                        if g.all_realtime(w2) {
                            assert forall|k: int| 0 <= k < w.len() implies (#[trigger] g.inputs()[w[k].0]).spec_options().realtime by {
                                assert(w2[k] == w[k]);
                            }
                            assert(g.inputs()[w2[w.len() as int].0].spec_options().realtime);
                        }
                        if g.all_realtime(w) && input_desc.options.realtime {
                            assert forall|k: int| 0 <= k < w2.len() implies (#[trigger] g.inputs()[w2[k].0]).spec_options().realtime by {
                                if k < w.len() {
                                    assert(w2[k] == w[k]);
                                }
                            }
                        }
                    }
                    assert(g.keys_product(w2) == g.keys_product(w) * input_desc.num_keys);
                    assert(g.keys_product(w2) <= usize::MAX);
                    let ks = w2.map_values(|x: SoundInputId| x.0);
                    assert forall|j: int| 0 <= j < ks.len() implies g.inputs().dom().contains(#[trigger] ks[j]) by {
                        assert(g.sound_input_target(w2[j]) is Some);
                    }
                    assert forall|j: int, k: int| 0 <= j < k < ks.len() implies ks[j] != ks[k] by {
                        assert(w2[j].0 != w2[k].0);
                    }
                    lemma_distinct_keys_bounded(ks, g.inputs().dom());
                }
                let r = Self::visit_static(
                    t,
                    states_to_add * input_desc.num_keys,
                    is_realtime && input_desc.options.realtime,
                    graph_description,
                    false,
                    Ghost(root),
                    Ghost(w2),
                );
                if let Some(err) = r {
                    proof {
                        let v = choose|v: Seq<SoundInputId>|
                            v.len() >= w2.len() && v.subrange(0, w2.len() as int) == w2 && #[trigger] g.static_violation(root, v);
                        assert(v.subrange(0, w.len() as int) =~= w2.subrange(0, w.len() as int));
                        assert(w2.subrange(0, w.len() as int) =~= w);
                    }
                    return Some(err);
                }
            }
            idx = idx + 1;
        }
        proof {
            assert forall|v: Seq<SoundInputId>|
                v.len() >= w.len() && v.subrange(0, w.len() as int) == w implies !#[trigger] g.static_violation(root, v) by {
                if g.static_violation(root, v) {
                    if v.len() == w.len() {
                        assert(v =~= w);
                    } else {
                        let i = v[w.len() as int];
                        if w.len() == 0 {
                            assert(g.processor_has_input(root, v[0]));
                        } else {
                            assert(v[w.len() - 1] == w.last());
                            assert(g.static_walk_step(v, w.len() - 1));
                        }
                        assert(g.processors()[proc_id.0].spec_inputs().contains(i));
                        let j = choose|j: int| 0 <= j < proc_desc.inputs@.len() && proc_desc.inputs@[j] == i;
                        assert(g.sound_input_target(v[w.len() as int]) is Some);
                        assert(v.subrange(0, w.len() + 1int) =~= w.push(i));
                        assert(g.static_violation_from(root, w.push(proc_desc.inputs@[j])));
                    }
                }
            }
        }
        None
    }

    /// Checks that every static processor gets what it can serve: each
    /// static processor reached from another one through processors that
    /// are not static must receive a single state, in real time.
    pub fn validate_sound_connections(&self) -> (r: Option<SoundConnectionError>)
        requires
            self.static_check_wf(),
        ensures
            r is None <==> self.sound_connections_valid(),
            r matches Some(e) ==> self.is_static_error(e),
    {
        let ghost g = *self;
        let ghost mut covered: Set<SoundProcessorId> = Set::empty();
        for proc_desc in it: self.sound_processors.values()
            invariant
                g == *self,
                g.static_check_wf(),
                forall|s: SoundProcessorId| #[trigger] covered.contains(s) ==> !g.static_violation_from(s, Seq::empty()),
                forall|j: int| 0 <= j < it.index() && (#[trigger] it.seq()[j]).spec_is_static() ==> covered.contains(it.seq()[j].spec_id()),
                it.seq().unref().to_set() == g.processors().values(),
                it.index() == it.seq().len() ==> forall|k: usize|
                    #![trigger g.processors()[k]]
                    g.processors().contains_key(k) && g.processors()[k].spec_is_static() ==> covered.contains(g.processors()[k].spec_id()),
        {
            proof {
                assert(it.seq().unref()[it.index() as int] == *proc_desc);
                assert(g.processors().values().contains(*proc_desc));
            }
            if proc_desc.is_static {
                proof {
                    let k = choose|k: usize| g.processors().contains_key(k) && g.processors()[k] == *proc_desc;
                    assert(g.processors()[k].spec_is_static());
                    assert(g.is_static_root(proc_desc.spec_id()));
                }
                let r = Self::visit_static(proc_desc.id, 1, true, self, true, Ghost(proc_desc.id), Ghost(Seq::empty()));
                if let Some(err) = r {
                    return Some(err);
                }
                proof {
                    covered = covered.insert(proc_desc.id);
                }
            }
            assert forall|k: usize|
                it.index() + 1 == it.seq().len() && g.processors().contains_key(k) && #[trigger] g.processors()[k].spec_is_static()
                implies covered.contains(g.processors()[k].spec_id()) by {
                assert(g.processors().values().contains(g.processors()[k]));
                assert(it.seq().unref().to_set().contains(g.processors()[k]));
                let j = choose|j: int| 0 <= j < it.seq().len() && #[trigger] it.seq().unref()[j] == g.processors()[k];
                if j < it.index() {
                    assert(covered.contains(it.seq()[j].spec_id()));
                }
            }
        }
        proof {
            assert forall|s: SoundProcessorId, v: Seq<SoundInputId>| !#[trigger] g.static_violation(s, v) by {
                if g.static_violation(s, v) {
                    let k = choose|k: usize|
                        g.processors().contains_key(k) && (#[trigger] g.processors()[k]).spec_is_static()
                            && g.processors()[k].spec_id() == s;
                    assert(covered.contains(s));
                    assert(v.subrange(0, 0) =~= Seq::<SoundInputId>::empty());
                }
            }
        }
        None
    }
}

fn contains_sound_input(v: &Vec<SoundInputId>, x: SoundInputId) -> (b: bool)
    ensures
        b == v@.contains(x),
{
    let mut k: usize = 0;
    while k < v.len()
        invariant
            k <= v.len(),
            forall|j: int| 0 <= j < k ==> v@[j] != x,
        decreases v.len() - k,
    {
        if v[k] == x {
            return true;
        }
        k = k + 1;
    }
    false
}

/// The inputs of a path of number connections, in order.
pub open spec fn number_path_inputs(conns: Seq<(NumberSourceId, NumberInputId)>) -> Seq<
    NumberInputId,
> {
    conns.map_values(|c: (NumberSourceId, NumberInputId)| c.1)
}

impl SoundGraphDescription {
    /// The number source that a number input is connected to, if the input
    /// exists and is connected.
    pub open spec fn number_input_target(self, i: NumberInputId) -> Option<NumberSourceId> {
        if self.number_inputs().contains_key(i.0) {
            self.number_inputs()[i.0].spec_target()
        } else {
            None
        }
    }

    /// The number source `p` exists and has `i` among its inputs.
    pub open spec fn source_has_input(self, p: NumberSourceId, i: NumberInputId) -> bool {
        self.sources().contains_key(p.0) && self.sources()[p.0].spec_inputs().contains(i)
    }

    /// Number input `a` is connected to a number source that has `b` as an input.
    pub open spec fn number_step(self, a: NumberInputId, b: NumberInputId) -> bool {
        match self.number_input_target(a) {
            Some(p) => self.source_has_input(p, b),
            None => false,
        }
    }

    /// A walk along number connections, listed by the inputs it passes.
    pub open spec fn number_walk(self, w: Seq<NumberInputId>) -> bool {
        &&& w.len() >= 1
        &&& self.number_inputs().contains_key(w[0].0)
        &&& forall|k: int| 0 <= k < w.len() - 1 ==> #[trigger] self.number_walk_step(w, k)
    }

    /// The walk `w` goes on from its `k`-th input to its next one.
    pub open spec fn number_walk_step(self, w: Seq<NumberInputId>, k: int) -> bool {
        self.number_step(w[k], w[k + 1])
    }

    /// Some walk along number connections leads from input `a` to input `b`
    /// (`a` reaches itself).
    pub open spec fn number_reaches(self, a: NumberInputId, b: NumberInputId) -> bool {
        exists|v: Seq<NumberInputId>| #[trigger] self.number_walk(v) && v[0] == a && v.last() == b
    }

    /// The connections `c` form a closed loop: each input is connected to
    /// the source beside it, and that source has the next input.
    pub open spec fn is_number_cycle(self, c: Seq<(NumberSourceId, NumberInputId)>) -> bool {
        &&& c.len() > 0
        &&& forall|k: int|
            0 <= k < c.len() ==> #[trigger] self.number_input_target(c[k].1) == Some(c[k].0)
        &&& forall|k: int|
            0 <= k < c.len() - 1 ==> #[trigger] self.source_has_input(c[k].0, c[k + 1].1)
        &&& self.source_has_input(c[c.len() - 1].0, c[0].1)
    }

    /// Some number connections form a closed loop.
    pub open spec fn has_number_cycle(self) -> bool {
        exists|c: Seq<(NumberSourceId, NumberInputId)>| self.is_number_cycle(c)
    }

    /// No walk from `i` ends at an input that is in `prefix` or that it
    /// passed before.
    pub open spec fn number_escapes(self, i: NumberInputId, prefix: Seq<NumberInputId>) -> bool {
        forall|w: Seq<NumberInputId>|
            #![trigger self.number_walk(w)]
            self.number_walk(w) && w[0] == i ==> !(prefix + w.drop_last()).contains(w.last())
    }

    /// Every connected number input points at an existing number source whose
    /// inputs all exist.
    pub open spec fn number_targets_wf(self) -> bool {
        forall|k: usize|
            #![trigger self.number_inputs()[k]]
            self.number_inputs().contains_key(k) ==> match self.number_inputs()[k].spec_target() {
                Some(p) => self.sources().contains_key(p.0) && forall|j: int|
                    0 <= j < self.sources()[p.0].spec_inputs().len() ==> self.number_inputs().contains_key(
                        #[trigger] self.sources()[p.0].spec_inputs()[j].0,
                    ),
                None => true,
            }
    }

    /// `conns` is a path of number connections leading up to `next`, with no
    /// input passed twice.
    pub open spec fn number_chain(
        self,
        conns: Seq<(NumberSourceId, NumberInputId)>,
        next: NumberInputId,
    ) -> bool {
        &&& forall|k: int|
            0 <= k < conns.len() ==> #[trigger] self.number_input_target(conns[k].1) == Some(
                conns[k].0,
            )
        &&& forall|k: int|
            0 <= k < conns.len() - 1 ==> #[trigger] self.source_has_input(
                conns[k].0,
                conns[k + 1].1,
            )
        &&& conns.len() > 0 ==> self.source_has_input(conns[conns.len() - 1].0, next)
        &&& forall|j: int, k: int|
            0 <= j < k < conns.len() ==> (#[trigger] conns[j].1).0 != (#[trigger] conns[k].1).0
    }

}

impl SoundGraphDescription {
    proof fn lemma_number_chain_bounded(self, conns: Seq<(NumberSourceId, NumberInputId)>, next: NumberInputId)
        requires
            self.number_chain(conns, next),
        ensures
            conns.len() <= self.number_inputs().dom().len(),
    {
        let s = conns.map_values(|c: (NumberSourceId, NumberInputId)| c.1.0);
        assert forall|j: int| 0 <= j < s.len() implies self.number_inputs().dom().contains(#[trigger] s[j]) by {
            assert(self.number_input_target(conns[j].1) == Some(conns[j].0));
        }
        assert forall|j: int, k: int| 0 <= j < k < s.len() implies s[j] != s[k] by {
            assert(conns[j].1.0 != conns[k].1.0);
        }
        lemma_distinct_keys_bounded(s, self.number_inputs().dom());
    }

    proof fn lemma_number_escapes_weaken(self, i: NumberInputId, prefix: Seq<NumberInputId>)
        requires
            self.number_escapes(i, prefix),
        ensures
            self.number_escapes(i, Seq::empty()),
    {
        assert forall|w: Seq<NumberInputId>|
            #![trigger self.number_walk(w)]
            self.number_walk(w) && w[0] == i implies !(Seq::<NumberInputId>::empty()
            + w.drop_last()).contains(w.last()) by {
            assert(Seq::<NumberInputId>::empty() + w.drop_last() =~= w.drop_last());
            if w.drop_last().contains(w.last()) {
                let j = choose|j: int| 0 <= j < w.drop_last().len() && w.drop_last()[j] == w.last();
                assert((prefix + w.drop_last())[prefix.len() + j] == w.last());
            }
        }
    }

    proof fn lemma_number_cycle_does_not_escape(self, c: Seq<(NumberSourceId, NumberInputId)>)
        requires
            self.is_number_cycle(c),
        ensures
            self.number_inputs().contains_key(c[0].1.0),
            !self.number_escapes(c[0].1, Seq::empty()),
    {
        assert(self.number_input_target(c[0].1) == Some(c[0].0));
        let w = number_path_inputs(c).push(c[0].1);
        assert forall|k: int| 0 <= k < w.len() - 1 implies #[trigger] self.number_walk_step(w, k) by {
            assert(self.number_input_target(c[k].1) == Some(c[k].0));
            if k < c.len() - 1 {
                assert(self.source_has_input(c[k].0, c[k + 1].1));
            }
        }
        assert(self.number_walk(w));
        assert(w.drop_last() =~= number_path_inputs(c));
        assert(Seq::<NumberInputId>::empty() + w.drop_last() =~= w.drop_last());
        assert(w.drop_last()[0] == w.last());
    }

    fn dfs_find_number_cycle(
        input_id: NumberInputId,
        visited: &mut Vec<NumberInputId>,
        path: &mut NumberPath,
        graph_description: &SoundGraphDescription,
    ) -> (r: Option<NumberPath>)
        requires
            graph_description.number_targets_wf(),
            graph_description.number_inputs().contains_key(input_id.0),
            graph_description.number_chain(old(path).connections@, input_id),
        ensures
            r is None ==> final(path).connections@ == old(path).connections@
                && graph_description.number_escapes(
                input_id,
                number_path_inputs(old(path).connections@),
            ) && forall|v: NumberInputId| #[trigger]
                final(visited)@.contains(v) ==> old(visited)@.contains(v)
                    || graph_description.number_escapes(v, Seq::empty()),
            r matches Some(c) ==> graph_description.is_number_cycle(c.connections@),
        decreases graph_description.number_inputs().dom().len() - old(path).connections@.len(),
    {
        let ghost g = *graph_description;
        let ghost p0 = path.connections@;
        let ghost pin = number_path_inputs(p0);
        proof {
            g.lemma_number_chain_bounded(p0, input_id);
        }
        if !contains_number_input(visited, input_id) {
            visited.push(input_id);
        }
        let ghost visited1 = visited@;
        if path.contains_input(input_id) {
            let trimmed = path.trim_until_input(input_id);
            proof {
                let f = first_number_input_index(p0, input_id);
                let c = trimmed.connections@;
                assert forall|k: int| 0 <= k < c.len() implies #[trigger] g.number_input_target(c[k].1) == Some(c[k].0) by {
                    assert(c[k] == p0[f + k]);
                }
                assert forall|k: int| 0 <= k < c.len() - 1 implies #[trigger] g.source_has_input(c[k].0, c[k + 1].1) by {
                    assert(c[k] == p0[f + k]);
                    assert(c[k + 1] == p0[f + k + 1]);
                }
                assert(c[c.len() - 1] == p0[p0.len() - 1]);
            }
            return Some(trimmed);
        }
        let input_desc = graph_description.number_inputs.get(&input_id.0).unwrap();
        let target_id = match input_desc.target {
            Some(spid) => spid,
            None => {
                proof {
                    assert forall|w: Seq<NumberInputId>|
                        #![trigger g.number_walk(w)]
                        g.number_walk(w) && w[0] == input_id implies !(pin + w.drop_last()).contains(w.last()) by {
                        if w.len() >= 2 {
                            assert(g.number_walk_step(w, 0));
                        } else {
                            assert(pin + w.drop_last() =~= pin);
                            if pin.contains(input_id) {
                                let k = choose|k: int| 0 <= k < pin.len() && pin[k] == input_id;
                                assert(p0[k].1 == input_id);
                            }
                        }
                    }
                    assert forall|v: NumberInputId| #[trigger] visited@.contains(v) implies old(visited)@.contains(v)
                        || g.number_escapes(v, Seq::empty()) by {
                        if !old(visited)@.contains(v) {
                            assert(v == input_id);
                            g.lemma_number_escapes_weaken(input_id, pin);
                        }
                    }
                }
                return None;
            },
        };
        let proc_desc = graph_description.number_sources.get(&target_id.0).unwrap();
        path.push(target_id, input_id);
        let ghost p1 = path.connections@;
        let ghost pin1 = number_path_inputs(p1);
        proof {
            assert(pin1 =~= pin.push(input_id));
            assert forall|j: int, k: int| 0 <= j < k < p1.len() implies (#[trigger] p1[j].1).0 != (#[trigger] p1[k].1).0 by {
                if k == p1.len() - 1 && p1[j].1.0 == input_id.0 {
                    assert(p0[j].1 == input_id);
                }
            }
        }
        let mut idx: usize = 0;
        while idx < proc_desc.inputs.len()
            invariant
                g == *graph_description,
                g.number_targets_wf(),
                g.sources().contains_key(target_id.0),
                *proc_desc == g.sources()[target_id.0],
                g.number_input_target(input_id) == Some(target_id),
                idx <= proc_desc.inputs.len(),
                path.connections@ == p1,
                p1 == p0.push((target_id, input_id)),
                pin1 == pin.push(input_id),
                pin1 == number_path_inputs(p1),
                pin == number_path_inputs(p0),
                p0 == old(path).connections@,
                forall|j: int, k: int| 0 <= j < k < p1.len() ==> (#[trigger] p1[j].1).0 != (#[trigger] p1[k].1).0,
                g.number_chain(p0, input_id),
                forall|j: int| 0 <= j < idx ==> g.number_escapes(#[trigger] proc_desc.inputs@[j], pin1),
                forall|v: NumberInputId| #[trigger]
                    visited@.contains(v) ==> old(visited)@.contains(v) || v == input_id
                        || g.number_escapes(v, Seq::empty()),
            decreases proc_desc.inputs.len() - idx,
        {
            let target_proc_input = proc_desc.inputs[idx];
            proof {
                assert(g.sources()[target_id.0].spec_inputs()[idx as int] == target_proc_input);
                assert(g.number_inputs().contains_key(target_proc_input.0));
                assert(g.source_has_input(target_id, target_proc_input));
                assert forall|k: int| 0 <= k < p1.len() implies #[trigger] g.number_input_target(p1[k].1) == Some(p1[k].0) by {
                    if k < p0.len() {
                        assert(p1[k] == p0[k]);
                    }
                }
                assert forall|k: int| 0 <= k < p1.len() - 1 implies #[trigger] g.source_has_input(p1[k].0, p1[k + 1].1) by {
                    assert(p1[k] == p0[k]);
                    if k + 1 < p0.len() {
                        assert(p1[k + 1] == p0[k + 1]);
                    }
                }
                assert(g.number_chain(p1, target_proc_input));
                g.lemma_number_chain_bounded(p1, target_proc_input);
            }
            let ghost visited_before = visited@;
            proof {
                assert(g.number_inputs().dom().len() - p1.len() < g.number_inputs().dom().len() - p0.len());
                assert(0 <= g.number_inputs().dom().len() - p1.len());
            }
            let r = Self::dfs_find_number_cycle(target_proc_input, visited, path, graph_description);
            if let Some(p) = r {
                return Some(p);
            }
            proof {
                assert forall|v: NumberInputId| #[trigger] visited@.contains(v) implies old(visited)@.contains(v) || v == input_id
                        || g.number_escapes(v, Seq::empty()) by {
                    if !visited_before.contains(v) {
                    }
                }
            }
            idx = idx + 1;
        }
        let _ = path.pop();
        proof {
            assert(path.connections@ =~= p0);
            assert forall|w: Seq<NumberInputId>|
                #![trigger g.number_walk(w)]
                g.number_walk(w) && w[0] == input_id implies !(pin + w.drop_last()).contains(w.last()) by {
                if w.len() >= 2 {
                    assert(g.number_walk_step(w, 0));
                    let c = w[1];
                    assert(g.sources()[target_id.0].spec_inputs().contains(c));
                    let j = choose|j: int| 0 <= j < proc_desc.inputs@.len() && proc_desc.inputs@[j] == c;
                    assert(g.number_escapes(proc_desc.inputs@[j], pin1));
                    let w2 = w.drop_first();
                    assert forall|k: int| 0 <= k < w2.len() - 1 implies #[trigger] g.number_walk_step(w2, k) by {
                        assert(g.number_walk_step(w, k + 1));
                    }
                    assert(g.number_walk(w2));
                    assert(pin1 + w2.drop_last() =~= pin + w.drop_last());
                    assert(w2.last() == w.last());
                } else {
                    assert(pin + w.drop_last() =~= pin);
                    if pin.contains(input_id) {
                        let k = choose|k: int| 0 <= k < pin.len() && pin[k] == input_id;
                        assert(p0[k].1 == input_id);
                    }
                }
            }
            g.lemma_number_escapes_weaken(input_id, pin);
        }
        None
    }
}

impl SoundGraphDescription {
    /// Looks for a closed loop of number connections. Returns one if
    /// there is any, and `None` exactly when there is none.
    pub fn find_number_cycle(&self) -> (r: Option<NumberPath>)
        requires
            self.number_targets_wf(),
        ensures
            r is None <==> !self.has_number_cycle(),
            r matches Some(c) ==> self.is_number_cycle(c.connections@),
    {
        let mut visited: Vec<NumberInputId> = Vec::new();
        let mut path: NumberPath = NumberPath::new(Vec::new());
        let ghost g = *self;
        let ghost mut covered: Set<usize> = Set::empty();
        for key in it: self.number_inputs.keys()
            invariant
                g == *self,
                g.number_targets_wf(),
                path.connections@.len() == 0,
                forall|v: NumberInputId| #[trigger] visited@.contains(v) ==> g.number_escapes(v, Seq::empty()),
                forall|k: usize| #[trigger] covered.contains(k) ==> g.number_escapes(NumberInputId(k), Seq::empty()),
                forall|j: int| 0 <= j < it.index() ==> covered.contains(*#[trigger] it.seq()[j]),
                it.seq().unref().to_set() == g.number_inputs().dom(),
                it.index() == it.seq().len() ==> g.number_inputs().dom().subset_of(covered),
        {
            let pid = NumberInputId(*key);
            proof {
                assert(it.seq().unref()[it.index() as int] == *key);
                assert(g.number_inputs().dom().contains(*key));
            }
            if !contains_number_input(&visited, pid) {
                proof {
                    assert(path.connections@ =~= Seq::empty());
                }
                if let Some(p) = Self::dfs_find_number_cycle(pid, &mut visited, &mut path, self) {
                    return Some(p);
                }
            }
            proof {
                assert(visited@.contains(pid) || g.number_escapes(pid, Seq::empty()));
                covered = covered.insert(*key);
            }
            assert forall|x: usize| it.index() + 1 == it.seq().len() && g.number_inputs().dom().contains(x) implies covered.contains(x) by {
                assert(it.seq().unref().to_set().contains(x));
                let j = choose|j: int| 0 <= j < it.seq().len() && #[trigger] it.seq().unref()[j] == x;
                if j < it.index() {
                    assert(covered.contains(*it.seq()[j]));
                }
            }
        }
        proof {
            if g.has_number_cycle() {
                let c = choose|c: Seq<(NumberSourceId, NumberInputId)>| g.is_number_cycle(c);
                g.lemma_number_cycle_does_not_escape(c);
                assert(covered.contains(c[0].1.0));
            }
        }
        None
    }
}

fn contains_number_input(v: &Vec<NumberInputId>, x: NumberInputId) -> (b: bool)
    ensures
        b == v@.contains(x),
{
    let mut k: usize = 0;
    while k < v.len()
        invariant
            k <= v.len(),
            forall|j: int| 0 <= j < k ==> v@[j] != x,
        decreases v.len() - k,
    {
        if v[k] == x {
            return true;
        }
        k = k + 1;
    }
    false
}

impl SoundGraphDescription {
    /// The number input `i` exists and belongs to something with states.
    pub open spec fn stateful_number_input(self, i: NumberInputId) -> bool {
        self.number_inputs().contains_key(i.0) && self.number_inputs()[i.0].spec_owner().spec_is_stateful()
    }

    /// Some walk of number connections from a stateful number input reaches
    /// a number source that belongs to a sound processor or sound input.
    pub open spec fn stateful_source_reachable(self) -> bool {
        exists|w: Seq<NumberInputId>|
            #[trigger] self.number_walk(w) && self.stateful_number_input(w[0]) && match self.number_input_target(
                w.last(),
            ) {
                Some(t) => !(self.sources()[t.0].spec_owner() is Nothing),
                None => false,
            }
    }

    /// No walk of number connections from a stateful number input passes
    /// an input twice.
    pub open spec fn stateful_number_walks_simple(self) -> bool {
        forall|w: Seq<NumberInputId>|
            #[trigger] self.number_walk(w) && self.stateful_number_input(w[0]) ==> forall|j: int, k: int|
                0 <= j < k < w.len() ==> (#[trigger] w[j]).0 != (#[trigger] w[k]).0
    }

    proof fn lemma_number_walk_in_dom(self, w: Seq<NumberInputId>)
        requires
            self.number_targets_wf(),
            self.number_walk(w),
        ensures
            forall|j: int| 0 <= j < w.len() ==> self.number_inputs().contains_key(#[trigger] w[j].0),
    {
        assert forall|j: int| 0 <= j < w.len() implies self.number_inputs().contains_key(#[trigger] w[j].0) by {
            if j > 0 {
                assert(self.number_walk_step(w, j - 1));
                let t = self.number_input_target(w[j - 1]).unwrap();
                assert(self.source_has_input(t, w[j]));
                assert(self.number_inputs()[w[j - 1].0].spec_target() == Some(t));
                let m = choose|m: int| 0 <= m < self.sources()[t.0].spec_inputs().len() && self.sources()[t.0].spec_inputs()[m] == w[j];
                assert(self.number_inputs().contains_key(self.sources()[t.0].spec_inputs()[m].0));
            }
        }
    }

    /// A walk from an input's connected source's input, with that input put
    /// in front, is a walk from that input.
    proof fn lemma_number_reaches_through(self, a: NumberInputId, c: NumberInputId, x: NumberInputId)
        requires
            self.number_inputs().contains_key(a.0),
            self.number_step(a, c),
            self.number_reaches(c, x),
        ensures
            self.number_reaches(a, x),
    {
        let v = choose|v: Seq<NumberInputId>| #[trigger] self.number_walk(v) && v[0] == c && v.last() == x;
        let u = seq![a] + v;
        assert forall|k: int| 0 <= k < u.len() - 1 implies #[trigger] self.number_walk_step(u, k) by {
            if k > 0 {
                assert(self.number_walk_step(v, k - 1));
                assert(u[k] == v[k - 1] && u[k + 1] == v[k]);
            } else {
                assert(u[0] == a && u[1] == c);
            }
        }
        assert(self.number_walk(u));
        assert(u.last() == x);
    }

    /// A walk of more than one input from `a` goes on through an input of
    /// the source `a` is connected to, which reaches the walk's end.
    proof fn lemma_number_reaches_split(self, v: Seq<NumberInputId>)
        requires
            self.number_targets_wf(),
            self.number_walk(v),
            v.len() > 1,
        ensures
            self.number_step(v[0], v[1]),
            self.number_reaches(v[1], v.last()),
    {
        assert(self.number_walk_step(v, 0));
        self.lemma_number_walk_in_dom(v);
        let u = v.skip(1);
        assert forall|k: int| 0 <= k < u.len() - 1 implies #[trigger] self.number_walk_step(u, k) by {
            assert(self.number_walk_step(v, k + 1));
        }
        assert(self.number_walk(u));
    }

    /// An input reaches itself.
    proof fn lemma_number_reaches_self(self, a: NumberInputId)
        requires
            self.number_inputs().contains_key(a.0),
        ensures
            self.number_reaches(a, a),
    {
        assert(self.number_walk(seq![a]));
    }

    fn dfs_check_number_states(
        input_id: NumberInputId,
        visited: &mut Vec<NumberInputId>,
        path: &mut NumberPath,
        graph_description: &SoundGraphDescription,
        Ghost(w): Ghost<Seq<NumberInputId>>,
    ) -> (r: Option<NumberConnectionError>)
        requires
            graph_description.number_targets_wf(),
            !graph_description.stateful_source_reachable(),
            graph_description.stateful_number_walks_simple(),
            graph_description.number_walk(w),
            graph_description.stateful_number_input(w[0]),
            w.last() == input_id,
        ensures
            r is None,
            final(path).connections@ == old(path).connections@,
            old(visited)@.is_prefix_of(final(visited)@),
            forall|x: NumberInputId|
                #![trigger final(visited)@.contains(x)]
                #![trigger graph_description.number_reaches(input_id, x)]
                final(visited)@.contains(x) <==> (old(visited)@.contains(x)
                    || graph_description.number_reaches(input_id, x)),
        decreases graph_description.number_inputs().dom().len() - w.len(),
    {
        let ghost g = *graph_description;
        let ghost v0 = visited@;
        proof {
            g.lemma_number_walk_in_dom(w);
            g.lemma_number_reaches_self(input_id);
        }
        if !contains_number_input(visited, input_id) {
            visited.push(input_id);
            assert(visited@[visited@.len() - 1] == input_id);
        }
        proof {
            assert(v0.is_prefix_of(visited@));
            assert forall|x: NumberInputId| visited@.contains(x) implies (v0.contains(x) || g.number_reaches(input_id, x)) by {
                if !v0.contains(x) {
                    let k = choose|k: int| 0 <= k < visited@.len() && visited@[k] == x;
                    if k < v0.len() {
                        assert(v0[k] == x);
                    }
                }
            }
            assert(visited@.contains(input_id));
        }
        let input_desc = graph_description.number_inputs.get(&input_id.0).unwrap();
        proof {
            if w.len() > 1 {
                assert(g.number_walk_step(w, w.len() - 2));
            }
        }
        let target_id = match input_desc.target {
            Some(spid) => spid,
            None => {
                proof {
                    assert forall|x: NumberInputId| #[trigger] g.number_reaches(input_id, x) implies visited@.contains(x) by {
                        let v = choose|v: Seq<NumberInputId>| #[trigger] g.number_walk(v) && v[0] == input_id && v.last() == x;
                        if v.len() > 1 {
                            assert(g.number_walk_step(v, 0));
                        }
                    }
                }
                return None;
            },
        };
        let target_desc = graph_description.number_sources.get(&target_id.0).unwrap();
        proof {
            assert(g.number_input_target(w.last()) == Some(target_id));
            assert(g.sources()[target_id.0].spec_owner() is Nothing);
            assert(g.number_inputs()[input_id.0].spec_target() == Some(target_id));
            assert forall|j: int| 0 <= j < target_desc.inputs@.len() implies g.number_inputs().contains_key(#[trigger] target_desc.inputs@[j].0) by {
                assert(g.sources()[target_id.0].spec_inputs()[j] == target_desc.inputs@[j]);
            }
        }
        let ghost p0 = path.connections@;
        let mut idx: usize = 0;
        while idx < target_desc.inputs.len()
            invariant
                g == *graph_description,
                g.number_targets_wf(),
                !g.stateful_source_reachable(),
                g.stateful_number_walks_simple(),
                g.number_walk(w),
                g.stateful_number_input(w[0]),
                w.last() == input_id,
                g.number_input_target(input_id) == Some(target_id),
                g.sources().contains_key(target_id.0),
                *target_desc == g.sources()[target_id.0],
                forall|j: int| 0 <= j < target_desc.inputs@.len() ==> g.number_inputs().contains_key(#[trigger] target_desc.inputs@[j].0),
                path.connections@ == p0,
                p0 == old(path).connections@,
                idx <= target_desc.inputs.len(),
                v0 == old(visited)@,
                v0.is_prefix_of(visited@),
                visited@.contains(input_id),
                g.number_inputs().contains_key(input_id.0),
                forall|x: NumberInputId| visited@.contains(x) ==> (v0.contains(x) || g.number_reaches(input_id, x)),
                forall|j: int, x: NumberInputId|
                    0 <= j < idx && #[trigger] g.number_reaches(target_desc.inputs@[j], x) ==> visited@.contains(x),
            decreases target_desc.inputs.len() - idx,
        {
            let target_source_input = target_desc.inputs[idx];
            path.push(target_id, input_id);
            let ghost w2 = w.push(target_source_input);
            proof {
                assert(g.source_has_input(target_id, target_source_input));
                assert forall|k: int| 0 <= k < w2.len() - 1 implies #[trigger] g.number_walk_step(w2, k) by {
                    if k < w.len() - 1 {
                        assert(g.number_walk_step(w, k));
                    }
                }
                assert(w2[0] == w[0]);
                assert(g.number_walk(w2));
                let ks = w2.map_values(|x: NumberInputId| x.0);
                g.lemma_number_walk_in_dom(w2);
                assert forall|j: int| 0 <= j < ks.len() implies g.number_inputs().dom().contains(#[trigger] ks[j]) by {
                    assert(g.number_inputs().contains_key(w2[j].0));
                }
                assert forall|j: int, k: int| 0 <= j < k < ks.len() implies ks[j] != ks[k] by {
                    assert(w2[j].0 != w2[k].0);
                }
                lemma_distinct_keys_bounded(ks, g.number_inputs().dom());
            }
            let ghost before = visited@;
            if let Some(x) = Self::dfs_check_number_states(
                target_source_input,
                visited,
                path,
                graph_description,
                Ghost(w2),
            ) {
                return Some(x);
            }
            let _ = path.pop();
            proof {
                assert(path.connections@ =~= p0);
                assert(g.number_step(input_id, target_source_input));
                assert(v0.is_prefix_of(visited@)) by {
                    assert forall|k: int| 0 <= k < v0.len() implies v0[k] == visited@[k] by {
                        assert(before[k] == visited@[k]);
                    }
                }
                assert forall|x: NumberInputId| visited@.contains(x) implies (v0.contains(x) || g.number_reaches(input_id, x)) by {
                    if !before.contains(x) {
                        g.lemma_number_reaches_through(input_id, target_source_input, x);
                    }
                }
                assert(visited@.contains(input_id)) by {
                    let k = choose|k: int| 0 <= k < before.len() && before[k] == input_id;
                    assert(visited@[k] == input_id);
                }
                assert forall|j: int, x: NumberInputId|
                    0 <= j < idx + 1 && #[trigger] g.number_reaches(target_desc.inputs@[j], x) implies visited@.contains(x) by {
                    if j < idx {
                        assert(before.contains(x));
                        let k = choose|k: int| 0 <= k < before.len() && before[k] == x;
                        assert(visited@[k] == x);
                    }
                }
            }
            idx = idx + 1;
        }
        proof {
            assert forall|x: NumberInputId| #[trigger] g.number_reaches(input_id, x) implies visited@.contains(x) by {
                let v = choose|v: Seq<NumberInputId>| #[trigger] g.number_walk(v) && v[0] == input_id && v.last() == x;
                if v.len() > 1 {
                    g.lemma_number_reaches_split(v);
                    assert(g.source_has_input(target_id, v[1]));
                    let j = choose|j: int| 0 <= j < g.sources()[target_id.0].spec_inputs().len() && g.sources()[target_id.0].spec_inputs()[j] == v[1];
                    assert(target_desc.inputs@[j] == v[1]);
                    assert(g.number_reaches(target_desc.inputs@[j], x));
                }
            }
        }
        None
    }

    /// Checks that every number source with states that a stateful number
    /// input depends on is in scope. Which states are in scope is not yet
    /// decided by this model, so the check is only made where no such
    /// number source is reached, and there it finds nothing wrong.
    pub fn validate_number_connections(&self) -> (r: Option<NumberConnectionError>)
        requires
            self.number_targets_wf(),
            !self.stateful_source_reachable(),
            self.stateful_number_walks_simple(),
        ensures
            r is None,
    {
        let ghost g = *self;
        let mut visited: Vec<NumberInputId> = Vec::new();
        let mut path: NumberPath = NumberPath::new(Vec::new());
        for key in it: self.number_inputs.keys()
            invariant
                g == *self,
                g.number_targets_wf(),
                !g.stateful_source_reachable(),
                g.stateful_number_walks_simple(),
                path.connections@.len() == 0,
                it.seq().unref().to_set() == g.number_inputs().dom(),
        {
            proof {
                assert(it.seq().unref()[it.index() as int] == *key);
                assert(g.number_inputs().dom().contains(*key));
            }
            let input_to_visit = NumberInputId(*key);
            let desc = self.number_inputs.get(key).unwrap();
            if !contains_number_input(&visited, input_to_visit) && desc.owner.is_stateful() {
                let ghost w = seq![input_to_visit];
                proof {
                    assert(g.number_walk(w));
                }
                if let Some(x) = Self::dfs_check_number_states(
                    input_to_visit,
                    &mut visited,
                    &mut path,
                    self,
                    Ghost(w),
                ) {
                    return Some(x);
                }
            }
        }
        None
    }
}

impl SoundGraphDescription {
    proof fn lemma_sound_repeat_makes_cycle(self, v: Seq<SoundInputId>, j: int, k: int)
        requires
            0 <= j < k < v.len(),
            v[j] == v[k],
            forall|m: int| j <= m < k ==> #[trigger] self.sound_step(v[m], v[m + 1]),
        ensures
            self.has_sound_cycle(),
    {
        let c = Seq::new(
            (k - j) as nat,
            |m: int| (self.sound_input_target(v[j + m]).unwrap(), v[j + m]),
        );
        assert forall|m: int| 0 <= m < c.len() implies #[trigger] self.sound_input_target(c[m].1) == Some(c[m].0) by {
            assert(self.sound_step(v[j + m], v[j + m + 1]));
        }
        assert forall|m: int| 0 <= m < c.len() - 1 implies #[trigger] self.processor_has_input(c[m].0, c[m + 1].1) by {
            assert(self.sound_step(v[j + m], v[j + m + 1]));
        }
        let last = k - 1;
        assert(self.sound_step(v[last], v[last + 1]));
        assert(v[last + 1] == v[j]);
        assert(self.is_sound_cycle(c));
    }

    /// Without sound cycles, no walk from a static processor passes an
    /// input twice.
    proof fn lemma_acyclic_static_walks_simple(self)
        requires
            !self.has_sound_cycle(),
        ensures
            self.static_walks_simple(),
    {
        assert forall|s: SoundProcessorId, v: Seq<SoundInputId>| #[trigger] self.static_walk(s, v) implies forall|j: int, k: int|
            0 <= j < k < v.len() ==> (#[trigger] v[j]).0 != (#[trigger] v[k]).0 by {
            assert forall|j: int, k: int| 0 <= j < k < v.len() implies (#[trigger] v[j]).0 != (#[trigger] v[k]).0 by {
                if v[j].0 == v[k].0 {
                    assert(v[j] == v[k]);
                    assert forall|m: int| j <= m < k implies #[trigger] self.sound_step(v[m], v[m + 1]) by {
                        assert(self.static_walk_step(v, m));
                    }
                    self.lemma_sound_repeat_makes_cycle(v, j, k);
                }
            }
        }
    }

    proof fn lemma_number_repeat_makes_cycle(self, v: Seq<NumberInputId>, j: int, k: int)
        requires
            0 <= j < k < v.len(),
            v[j] == v[k],
            forall|m: int| j <= m < k ==> #[trigger] self.number_step(v[m], v[m + 1]),
        ensures
            self.has_number_cycle(),
    {
        let c = Seq::new(
            (k - j) as nat,
            |m: int| (self.number_input_target(v[j + m]).unwrap(), v[j + m]),
        );
        assert forall|m: int| 0 <= m < c.len() implies #[trigger] self.number_input_target(c[m].1) == Some(c[m].0) by {
            assert(self.number_step(v[j + m], v[j + m + 1]));
        }
        assert forall|m: int| 0 <= m < c.len() - 1 implies #[trigger] self.source_has_input(c[m].0, c[m + 1].1) by {
            assert(self.number_step(v[j + m], v[j + m + 1]));
        }
        let last = k - 1;
        assert(self.number_step(v[last], v[last + 1]));
        assert(v[last + 1] == v[j]);
        assert(self.is_number_cycle(c));
    }

    /// Without number cycles, no walk from a stateful number input passes
    /// an input twice.
    proof fn lemma_acyclic_number_walks_simple(self)
        requires
            !self.has_number_cycle(),
        ensures
            self.stateful_number_walks_simple(),
    {
        assert forall|w: Seq<NumberInputId>| #[trigger] self.number_walk(w) && self.stateful_number_input(w[0]) implies forall|j: int, k: int|
            0 <= j < k < w.len() ==> (#[trigger] w[j]).0 != (#[trigger] w[k]).0 by {
            assert forall|j: int, k: int| 0 <= j < k < w.len() implies (#[trigger] w[j]).0 != (#[trigger] w[k]).0 by {
                if w[j].0 == w[k].0 {
                    assert(w[j] == w[k]);
                    assert forall|m: int| j <= m < k implies #[trigger] self.number_step(w[m], w[m + 1]) by {
                        assert(self.number_walk_step(w, m));
                    }
                    self.lemma_number_repeat_makes_cycle(w, j, k);
                }
            }
        }
    }

    /// A description made of the given tables.
    pub fn new(
        sound_processors: HashMap<usize, SoundProcessorDescription>,
        sound_inputs: HashMap<usize, SoundInputDescription>,
        number_sources: HashMap<usize, NumberSourceDescription>,
        number_inputs: HashMap<usize, NumberInputDescription>,
    ) -> (d: SoundGraphDescription)
        ensures
            d.processors() == sound_processors@,
            d.inputs() == sound_inputs@,
            d.sources() == number_sources@,
            d.number_inputs() == number_inputs@,
    {
        SoundGraphDescription { sound_processors, sound_inputs, number_sources, number_inputs }
    }

    /// Finds the first problem with the described graph, checking in
    /// turn for a cycle of sound connections, for static processors that
    /// cannot serve what they are connected to, for a cycle of number
    /// connections, and for number sources whose states are out of scope.
    pub fn find_error(&self) -> (r: Option<ConnectionError>)
        requires
            self.sound_targets_wf(),
            !self.has_sound_cycle() ==> self.static_processors_wf() && self.static_walk_products_fit(),
            !self.has_sound_cycle() && self.sound_connections_valid() ==> self.number_targets_wf(),
            !self.has_sound_cycle() && self.sound_connections_valid() && !self.has_number_cycle()
                ==> !self.stateful_source_reachable(),
        ensures
            self.has_sound_cycle() ==> (r matches Some(
                ConnectionError::Sound(SoundConnectionError::CircularDependency { cycle }),
            ) && self.is_sound_cycle(cycle.connections@)),
            !self.has_sound_cycle() && !self.sound_connections_valid() ==> (r matches Some(
                ConnectionError::Sound(e),
            ) && self.is_static_error(e)),
            !self.has_sound_cycle() && self.sound_connections_valid() && self.has_number_cycle()
                ==> (r matches Some(
                ConnectionError::Number(NumberConnectionError::CircularDependency { cycle }),
            ) && self.is_number_cycle(cycle.connections@)),
            r is None <==> !self.has_sound_cycle() && self.sound_connections_valid()
                && !self.has_number_cycle(),
    {
        if let Some(path) = self.find_sound_cycle() {
            return Some(
                ConnectionError::Sound(SoundConnectionError::CircularDependency { cycle: path }),
            );
        }
        proof {
            self.lemma_acyclic_static_walks_simple();
        }
        if let Some(err) = self.validate_sound_connections() {
            return Some(ConnectionError::Sound(err));
        }
        if let Some(path) = self.find_number_cycle() {
            return Some(
                ConnectionError::Number(NumberConnectionError::CircularDependency { cycle: path }),
            );
        }
        proof {
            self.lemma_acyclic_number_walks_simple();
        }
        if let Some(err) = self.validate_number_connections() {
            return Some(ConnectionError::Number(err));
        }
        None
    }

    /// Connects a sound input to a sound processor in the description.
    /// Fails, changing nothing, when the processor or the input is not
    /// there, or when the input is already connected.
    pub fn add_connection(&mut self, input_id: SoundInputId, processor_id: SoundProcessorId) -> (r:
        Option<SoundConnectionError>)
        ensures
            final(self).processors() == old(self).processors(),
            final(self).sources() == old(self).sources(),
            final(self).number_inputs() == old(self).number_inputs(),
            !old(self).processors().contains_key(processor_id.0) ==> r == Some(
                SoundConnectionError::ProcessorNotFound(processor_id),
            ),
            old(self).processors().contains_key(processor_id.0) && !old(self).inputs().contains_key(
                input_id.0,
            ) ==> r == Some(SoundConnectionError::InputNotFound(input_id)),
            old(self).processors().contains_key(processor_id.0) && old(self).inputs().contains_key(
                input_id.0,
            ) ==> match old(self).inputs()[input_id.0].spec_target() {
                Some(current_target) => if current_target == processor_id {
                    r == Some(SoundConnectionError::NoChange)
                } else {
                    r == Some(
                        SoundConnectionError::InputOccupied { input_id, current_target },
                    )
                },
                None => r is None,
            },
            r is None ==> final(self).inputs().dom() == old(self).inputs().dom() && (forall|k: usize|
                k != input_id.0 && #[trigger] old(self).inputs().contains_key(k)
                    ==> final(self).inputs()[k] == old(self).inputs()[k])
                && final(self).inputs()[input_id.0].spec_id() == old(self).inputs()[input_id.0].spec_id()
                && final(self).inputs()[input_id.0].spec_options() == old(self).inputs()[input_id.0].spec_options()
                && final(self).inputs()[input_id.0].spec_num_keys() == old(self).inputs()[input_id.0].spec_num_keys()
                && final(self).inputs()[input_id.0].spec_target() == Some(processor_id),
            r is Some ==> final(self).inputs() == old(self).inputs(),
    {
        if !self.sound_processors.contains_key(&processor_id.0) {
            return Some(SoundConnectionError::ProcessorNotFound(processor_id));
        }
        let input_desc = match self.sound_inputs.get(&input_id.0) {
            Some(d) => *d,
            None => {
                return Some(SoundConnectionError::InputNotFound(input_id));
            },
        };
        if let Some(current_target) = input_desc.target {
            if current_target == processor_id {
                return Some(SoundConnectionError::NoChange);
            }
            return Some(SoundConnectionError::InputOccupied { input_id, current_target });
        }
        let mut updated = input_desc;
        updated.target = Some(processor_id);
        self.sound_inputs.insert(input_id.0, updated);
        proof {
            assert(self.sound_inputs@.dom() =~= old(self).sound_inputs@.dom());
        }
        None
    }

    /// Looks up the connection of a sound input in the description. Fails
    /// when the input is not there, when it is not connected, or when the
    /// processor it is connected to is not there; otherwise it writes the
    /// input's current target back, so that the description is left as
    /// it was.
    pub fn remove_connection(&mut self, input_id: SoundInputId) -> (r: Option<SoundConnectionError>)
        ensures
            final(self).processors() == old(self).processors(),
            final(self).inputs() == old(self).inputs(),
            final(self).sources() == old(self).sources(),
            final(self).number_inputs() == old(self).number_inputs(),
            !old(self).inputs().contains_key(input_id.0) ==> r == Some(
                SoundConnectionError::InputNotFound(input_id),
            ),
            old(self).inputs().contains_key(input_id.0) ==> match old(self).inputs()[input_id.0].spec_target() {
                None => r == Some(SoundConnectionError::NoChange),
                Some(p) => if old(self).processors().contains_key(p.0) {
                    r is None
                } else {
                    r == Some(SoundConnectionError::ProcessorNotFound(p))
                },
            },
    {
        let input_desc = match self.sound_inputs.get(&input_id.0) {
            Some(d) => *d,
            None => {
                return Some(SoundConnectionError::InputNotFound(input_id));
            },
        };
        let processor_id = match input_desc.target {
            Some(pid) => pid,
            None => {
                return Some(SoundConnectionError::NoChange);
            },
        };
        if !self.sound_processors.contains_key(&processor_id.0) {
            return Some(SoundConnectionError::ProcessorNotFound(processor_id));
        }
        if input_desc.target.is_none() {
            return Some(SoundConnectionError::NoChange);
        }
        let mut updated = input_desc;
        updated.target = Some(processor_id);
        self.sound_inputs.insert(input_id.0, updated);
        proof {
            assert(updated == old(self).sound_inputs@[input_id.0]);
            assert(self.sound_inputs@ =~= old(self).sound_inputs@);
        }
        None
    }
}

} // verus!
