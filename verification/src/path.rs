use vstd::prelude::*;

use crate::numberinput::NumberInputId;
use crate::numbersource::NumberSourceId;
use crate::soundinput::SoundInputId;
use crate::soundprocessor::SoundProcessorId;

verus! {

/// A chain of sound connections, each a sound processor together with the
/// sound input that it is connected to, in the order they were followed.
#[derive(Debug)]
pub struct SoundPath {
    pub connections: Vec<(SoundProcessorId, SoundInputId)>,
}

/// The position of the first connection in `conns` whose input is `input`.
pub open spec fn first_sound_input_index(conns: Seq<(SoundProcessorId, SoundInputId)>, input: SoundInputId) -> int
    recommends
        exists|k: int| 0 <= k < conns.len() && conns[k].1 == input,
{
    choose|k: int|
        0 <= k < conns.len() && conns[k].1 == input && forall|j: int|
            0 <= j < k ==> conns[j].1 != input
}

/// Whether some connection in `conns` goes through `input`.
pub open spec fn sound_path_contains_input(conns: Seq<(SoundProcessorId, SoundInputId)>, input: SoundInputId) -> bool {
    exists|k: int| 0 <= k < conns.len() && #[trigger] conns[k].1 == input
}

impl SoundPath {
    /// A path made of the given connections.
    pub fn new(connections: Vec<(SoundProcessorId, SoundInputId)>) -> (p: SoundPath)
        ensures
            p.connections@ == connections@,
    {
        SoundPath { connections }
    }

    /// Whether some connection of the path goes through `input_id`.
    pub fn contains_input(&self, input_id: SoundInputId) -> (b: bool)
        ensures
            b == sound_path_contains_input(self.connections@, input_id),
    {
        let mut k: usize = 0;
        while k < self.connections.len()
            invariant
                k <= self.connections.len(),
                forall|j: int| 0 <= j < k ==> self.connections@[j].1 != input_id,
            decreases self.connections.len() - k,
        {
            if self.connections[k].1 == input_id {
                return true;
            }
            k = k + 1;
        }
        false
    }

    /// The part of the path from the first connection through
    /// `input_id` to its end.
    pub fn trim_until_input(&self, input_id: SoundInputId) -> (p: SoundPath)
        requires
            sound_path_contains_input(self.connections@, input_id),
        ensures
            p.connections@ == self.connections@.subrange(
                first_sound_input_index(self.connections@, input_id),
                self.connections@.len() as int,
            ),
            0 <= first_sound_input_index(self.connections@, input_id) < self.connections@.len(),
            self.connections@[first_sound_input_index(self.connections@, input_id)].1 == input_id,
    {
        let mut k: usize = 0;
        loop
            invariant
                k <= self.connections.len(),
                sound_path_contains_input(self.connections@, input_id),
                forall|j: int| 0 <= j < k ==> self.connections@[j].1 != input_id,
            ensures
                k < self.connections.len(),
                self.connections@[k as int].1 == input_id,
                forall|j: int| 0 <= j < k ==> self.connections@[j].1 != input_id,
            decreases self.connections.len() - k,
        {
            if k == self.connections.len() {
                proof {
                    let w = choose|w: int|
                        0 <= w < self.connections@.len() && #[trigger] self.connections@[w].1
                            == input_id;
                    assert(self.connections@[w].1 != input_id);
                }
            }
            if self.connections[k].1 == input_id {
                break;
            }
            k = k + 1;
        }
        proof {
            let ki = k as int;
            let f = first_sound_input_index(self.connections@, input_id);
            assert(0 <= ki < self.connections@.len() && self.connections@[ki].1 == input_id
                && forall|j: int| 0 <= j < ki ==> self.connections@[j].1 != input_id);
            if f < ki {
                assert(self.connections@[f].1 != input_id);
            } else if f > ki {
                assert(self.connections@[ki].1 != input_id);
            }
        }
        let mut out: Vec<(SoundProcessorId, SoundInputId)> = Vec::new();
        let mut m: usize = k;
        while m < self.connections.len()
            invariant
                k <= m <= self.connections.len(),
                out@ == self.connections@.subrange(k as int, m as int),
            decreases self.connections.len() - m,
        {
            out.push(self.connections[m]);
            m = m + 1;
            proof {
                assert(out@ =~= self.connections@.subrange(k as int, m as int));
            }
        }
        SoundPath { connections: out }
    }

    /// Appends a connection to the end of the path.
    pub fn push(&mut self, node: SoundProcessorId, input: SoundInputId)
        ensures
            final(self).connections@ == old(self).connections@.push((node, input)),
    {
        self.connections.push((node, input));
    }

    /// Removes the last connection of the path, if any, and returns it.
    pub fn pop(&mut self) -> (c: Option<(SoundProcessorId, SoundInputId)>)
        ensures
            old(self).connections@.len() == 0 ==> c is None && final(self).connections@
                == old(self).connections@,
            old(self).connections@.len() > 0 ==> c == Some(old(self).connections@.last())
                && final(self).connections@ == old(self).connections@.drop_last(),
    {
        self.connections.pop()
    }
}

/// A chain of number connections, each a number source together with the
/// number input that it is connected to, in the order they were followed.
#[derive(Debug)]
pub struct NumberPath {
    pub connections: Vec<(NumberSourceId, NumberInputId)>,
}

/// The position of the first connection in `conns` whose input is `input`.
pub open spec fn first_number_input_index(conns: Seq<(NumberSourceId, NumberInputId)>, input: NumberInputId) -> int
    recommends
        exists|k: int| 0 <= k < conns.len() && conns[k].1 == input,
{
    choose|k: int|
        0 <= k < conns.len() && conns[k].1 == input && forall|j: int|
            0 <= j < k ==> conns[j].1 != input
}

/// Whether some connection in `conns` goes through `input`.
pub open spec fn number_path_contains_input(conns: Seq<(NumberSourceId, NumberInputId)>, input: NumberInputId) -> bool {
    exists|k: int| 0 <= k < conns.len() && #[trigger] conns[k].1 == input
}

impl NumberPath {
    /// A path made of the given connections.
    pub fn new(connections: Vec<(NumberSourceId, NumberInputId)>) -> (p: NumberPath)
        ensures
            p.connections@ == connections@,
    {
        NumberPath { connections }
    }

    /// Whether some connection of the path goes through `input_id`.
    pub fn contains_input(&self, input_id: NumberInputId) -> (b: bool)
        ensures
            b == number_path_contains_input(self.connections@, input_id),
    {
        let mut k: usize = 0;
        while k < self.connections.len()
            invariant
                k <= self.connections.len(),
                forall|j: int| 0 <= j < k ==> self.connections@[j].1 != input_id,
            decreases self.connections.len() - k,
        {
            if self.connections[k].1 == input_id {
                return true;
            }
            k = k + 1;
        }
        false
    }

    /// The part of the path from the first connection through
    /// `input_id` to its end.
    pub fn trim_until_input(&self, input_id: NumberInputId) -> (p: NumberPath)
        requires
            number_path_contains_input(self.connections@, input_id),
        ensures
            p.connections@ == self.connections@.subrange(
                first_number_input_index(self.connections@, input_id),
                self.connections@.len() as int,
            ),
            0 <= first_number_input_index(self.connections@, input_id) < self.connections@.len(),
            self.connections@[first_number_input_index(self.connections@, input_id)].1 == input_id,
    {
        let mut k: usize = 0;
        loop
            invariant
                k <= self.connections.len(),
                number_path_contains_input(self.connections@, input_id),
                forall|j: int| 0 <= j < k ==> self.connections@[j].1 != input_id,
            ensures
                k < self.connections.len(),
                self.connections@[k as int].1 == input_id,
                forall|j: int| 0 <= j < k ==> self.connections@[j].1 != input_id,
            decreases self.connections.len() - k,
        {
            if k == self.connections.len() {
                proof {
                    let w = choose|w: int|
                        0 <= w < self.connections@.len() && #[trigger] self.connections@[w].1
                            == input_id;
                    assert(self.connections@[w].1 != input_id);
                }
            }
            if self.connections[k].1 == input_id {
                break;
            }
            k = k + 1;
        }
        proof {
            let ki = k as int;
            let f = first_number_input_index(self.connections@, input_id);
            assert(0 <= ki < self.connections@.len() && self.connections@[ki].1 == input_id
                && forall|j: int| 0 <= j < ki ==> self.connections@[j].1 != input_id);
            if f < ki {
                assert(self.connections@[f].1 != input_id);
            } else if f > ki {
                assert(self.connections@[ki].1 != input_id);
            }
        }
        let mut out: Vec<(NumberSourceId, NumberInputId)> = Vec::new();
        let mut m: usize = k;
        while m < self.connections.len()
            invariant
                k <= m <= self.connections.len(),
                out@ == self.connections@.subrange(k as int, m as int),
            decreases self.connections.len() - m,
        {
            out.push(self.connections[m]);
            m = m + 1;
            proof {
                assert(out@ =~= self.connections@.subrange(k as int, m as int));
            }
        }
        NumberPath { connections: out }
    }

    /// Appends a connection to the end of the path.
    pub fn push(&mut self, node: NumberSourceId, input: NumberInputId)
        ensures
            final(self).connections@ == old(self).connections@.push((node, input)),
    {
        self.connections.push((node, input));
    }

    /// Removes the last connection of the path, if any, and returns it.
    pub fn pop(&mut self) -> (c: Option<(NumberSourceId, NumberInputId)>)
        ensures
            old(self).connections@.len() == 0 ==> c is None && final(self).connections@
                == old(self).connections@,
            old(self).connections@.len() > 0 ==> c == Some(old(self).connections@.last())
                && final(self).connections@ == old(self).connections@.drop_last(),
    {
        self.connections.pop()
    }
}

} // verus!
