use vstd::prelude::*;

verus! {

/// The keys of a keyed sound input, kept in ascending order.
pub struct KeyRange {
    keys: Vec<u64>,
}

/// The keys are in ascending order.
pub open spec fn keys_sorted(s: Seq<u64>) -> bool {
    forall|j: int, k: int| 0 <= j < k < s.len() ==> s[j] <= s[k]
}

/// The position at which `key` goes into `s`: before the first key that
/// is greater than it, or at the end.
pub open spec fn insertion_index(s: Seq<u64>, key: u64) -> int {
    if exists|j: int| 0 <= j < s.len() && s[j] > key {
        choose|j: int|
            0 <= j < s.len() && s[j] > key && forall|m: int| 0 <= m < j ==> s[m] <= key
    } else {
        s.len() as int
    }
}

impl View for KeyRange {
    type V = Seq<u64>;

    closed spec fn view(&self) -> Seq<u64> {
        self.keys@
    }
}

impl KeyRange {
    /// An empty key range.
    pub fn new() -> (r: KeyRange)
        ensures
            r@ == Seq::<u64>::empty(),
    {
        KeyRange { keys: Vec::new() }
    }

    /// Inserts `key` before the first key greater than it and returns the
    /// position it went to. Keys that were in ascending order stay so.
    pub fn insert_key(&mut self, key: u64) -> (index: usize)
        ensures
            index == insertion_index(old(self)@, key),
            final(self)@ == old(self)@.insert(index as int, key),
            forall|m: int| 0 <= m < index ==> old(self)@[m] <= key,
            index < old(self)@.len() ==> old(self)@[index as int] > key,
            keys_sorted(old(self)@) ==> keys_sorted(final(self)@),
    {
        let ghost s = self.keys@;
        let mut index: usize = 0;
        loop
            invariant
                s == self.keys@,
                index <= self.keys.len(),
                forall|m: int| 0 <= m < index ==> s[m] <= key,
            ensures
                index <= self.keys.len(),
                forall|m: int| 0 <= m < index ==> s[m] <= key,
                index < self.keys.len() ==> s[index as int] > key,
            decreases self.keys.len() - index,
        {
            if index == self.keys.len() {
                break;
            }
            if self.keys[index] > key {
                break;
            }
            index = index + 1;
        }
        proof {
            let ii = index as int;
            if ii < s.len() && s[ii] > key {
                assert(exists|j: int| 0 <= j < s.len() && s[j] > key);
                let c = insertion_index(s, key);
                assert(0 <= c < s.len() && s[c] > key && forall|m: int| 0 <= m < c ==> s[m] <= key);
                if c < ii {
                    assert(s[c] <= key);
                } else if c > ii {
                    assert(s[ii] <= key);
                }
            } else {
                assert(ii == s.len());
                assert(!exists|j: int| 0 <= j < s.len() && s[j] > key);
            }
        }
        self.keys.insert(index, key);
        proof {
            let n = self.keys@;
            if keys_sorted(s) {
                assert forall|j: int, k: int| 0 <= j < k < n.len() implies n[j] <= n[k] by {
                    if j < index && k < index {
                        assert(n[j] == s[j] && n[k] == s[k]);
                    } else if j < index && k == index {
                        assert(n[j] == s[j]);
                    } else if j < index {
                        assert(n[j] == s[j] && n[k] == s[k - 1]);
                    } else if j == index {
                        assert(n[k] == s[k - 1]);
                        assert(s[index as int] > key);
                    } else {
                        assert(n[j] == s[j - 1] && n[k] == s[k - 1]);
                    }
                }
            }
        }
        index
    }

    /// Removes the key at position `index`.
    pub fn erase_key(&mut self, index: usize)
        requires
            index < old(self)@.len(),
        ensures
            final(self)@ == old(self)@.remove(index as int),
            keys_sorted(old(self)@) ==> keys_sorted(final(self)@),
    {
        let ghost s = self.keys@;
        self.keys.remove(index);
        proof {
            let n = self.keys@;
            if keys_sorted(s) {
                assert forall|j: int, k: int| 0 <= j < k < n.len() implies n[j] <= n[k] by {
                    if k < index {
                        assert(n[j] == s[j] && n[k] == s[k]);
                    } else if j < index {
                        assert(n[j] == s[j] && n[k] == s[k + 1]);
                    } else {
                        assert(n[j] == s[j + 1] && n[k] == s[k + 1]);
                    }
                }
            }
        }
    }

    /// The keys, in order.
    pub fn keys(&self) -> (k: &[u64])
        ensures
            k@ == self@,
    {
        self.keys.as_slice()
    }
}

impl Clone for KeyRange {
    fn clone(&self) -> (r: KeyRange)
        ensures
            r@ == self@,
    {
        let mut keys: Vec<u64> = Vec::new();
        let mut k: usize = 0;
        while k < self.keys.len()
            invariant
                k <= self.keys.len(),
                keys@ == self.keys@.subrange(0, k as int),
            decreases self.keys.len() - k,
        {
            keys.push(self.keys[k]);
            k = k + 1;
            proof {
                assert(keys@ =~= self.keys@.subrange(0, k as int));
            }
        }
        proof {
            assert(keys@ =~= self.keys@);
        }
        KeyRange { keys }
    }
}

} // verus!
