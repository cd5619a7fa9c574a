//! Frequency tables: a count for each key, kept in key order.
use vstd::prelude::*;
use crate::chars::{chars_of, copy_chars, string_of};
use crate::order::{find_key, key_lt, lemma_insert_sorted, lemma_key_lt_irreflexive, sorted_keys};

verus! {

/// The sum of a sequence of counts.
pub open spec fn sum_counts(s: Seq<u64>) -> nat
    decreases s.len(),
{
    if s.len() == 0 {
        0
    } else {
        sum_counts(s.drop_last()) + s.last() as nat
    }
}

proof fn lemma_sum_update(s: Seq<u64>, i: int, v: u64)
    requires
        0 <= i < s.len(),
    ensures
        sum_counts(s.update(i, v)) + s[i] as nat == sum_counts(s) + v as nat,
    decreases s.len(),
{
    if i < s.len() - 1 {
        lemma_sum_update(s.drop_last(), i, v);
        assert(s.update(i, v).drop_last() =~= s.drop_last().update(i, v));
    } else {
        assert(s.update(i, v).drop_last() =~= s.drop_last());
    }
}

proof fn lemma_sum_insert(s: Seq<u64>, i: int, v: u64)
    requires
        0 <= i <= s.len(),
    ensures
        sum_counts(s.insert(i, v)) == sum_counts(s) + v as nat,
    decreases s.len(),
{
    if i < s.len() {
        lemma_sum_insert(s.drop_last(), i, v);
        assert(s.insert(i, v).drop_last() =~= s.drop_last().insert(i, v));
    } else {
        assert(s.insert(i, v).drop_last() =~= s);
    }
}

proof fn lemma_count_le_sum(s: Seq<u64>, i: int)
    requires
        0 <= i < s.len(),
    ensures
        s[i] as nat <= sum_counts(s),
    decreases s.len(),
{
    if i < s.len() - 1 {
        lemma_count_le_sum(s.drop_last(), i);
    }
}

/// Keys with their counts, in strictly increasing key order.
pub struct FreqTable {
    keys: Vec<Vec<char>>,
    counts: Vec<u64>,
    total: u64,
    model: Ghost<Map<Seq<char>, nat>>,
}

impl View for FreqTable {
    type V = Map<Seq<char>, nat>;

    closed spec fn view(&self) -> Map<Seq<char>, nat> {
        self.model@
    }
}

impl FreqTable {
    /// The table's internal invariant: keys in strictly increasing order, each
    /// with a positive count, matching the map view; the total is the sum.
    pub closed spec fn wf(&self) -> bool {
        &&& self.keys@.len() == self.counts@.len()
        &&& sorted_keys(self.keys@)
        &&& forall|i: int| 0 <= i < self.keys@.len() ==> self.model@.contains_key(#[trigger] self.keys@[i]@)
        &&& forall|i: int| 0 <= i < self.keys@.len() ==> self.model@[#[trigger] self.keys@[i]@] == self.counts@[i] as nat
        &&& forall|i: int| 0 <= i < self.counts@.len() ==> #[trigger] self.counts@[i] > 0
        &&& forall|k: Seq<char>| #[trigger] self.model@.contains_key(k) ==> exists|i: int| 0 <= i < self.keys@.len() && self.keys@[i]@ == k
        &&& self.total as nat == sum_counts(self.counts@)
    }

    /// The sum of all counts.
    pub closed spec fn total_count(&self) -> nat {
        self.total as nat
    }

    /// The keys in table order.
    pub closed spec fn key_seq(&self) -> Seq<Seq<char>> {
        self.keys@.map_values(|k: Vec<char>| k@)
    }

    /// The counts in table order.
    pub closed spec fn count_seq(&self) -> Seq<u64> {
        self.counts@
    }

    /// The order and contents that the table's listing shows.
    pub proof fn lemma_listing(&self)
        requires
            self.wf(),
        ensures
            self.key_seq().len() == self.count_seq().len(),
            forall|i: int, j: int|
                0 <= i < j < self.key_seq().len() ==> key_lt(#[trigger] self.key_seq()[i], #[trigger] self.key_seq()[j]),
            forall|i: int|
                0 <= i < self.key_seq().len() ==> self@.contains_key(#[trigger] self.key_seq()[i])
                    && self@[self.key_seq()[i]] == self.count_seq()[i] as nat,
            forall|k: Seq<char>| #[trigger] self@.contains_key(k) ==> self.key_seq().contains(k),
            self.total_count() == sum_counts(self.count_seq()),
    {
        assert forall|k: Seq<char>| #[trigger] self@.contains_key(k) implies self.key_seq().contains(k) by {
            let i = choose|i: int| 0 <= i < self.keys@.len() && self.keys@[i]@ == k;
            assert(self.key_seq()[i] == k);
        }
    }

    /// An empty table.
    pub fn new() -> (r: FreqTable)
        ensures
            r.wf(),
            r@ == Map::<Seq<char>, nat>::empty(),
            r.total_count() == 0,
    {
        FreqTable { keys: Vec::new(), counts: Vec::new(), total: 0, model: Ghost(Map::empty()) }
    }

    /// The number of distinct keys.
    pub fn len(&self) -> (r: usize)
        requires
            self.wf(),
        ensures
            r as nat == self@.dom().len(),
    {
        proof { self.lemma_dom_len(); }
        self.keys.len()
    }

    proof fn lemma_dom_len(&self)
        requires
            self.wf(),
        ensures
            self@.dom().len() == self.keys@.len(),
            self@.dom().finite(),
    {
        let ks = self.key_seq();
        assert(ks.no_duplicates()) by {
            assert forall|i: int, j: int| 0 <= i < ks.len() && 0 <= j < ks.len() && i != j implies ks[i] != ks[j] by {
                if i < j {
                    assert(key_lt(self.keys@[i]@, self.keys@[j]@));
                    lemma_key_lt_irreflexive(ks[i]);
                } else {
                    assert(key_lt(self.keys@[j]@, self.keys@[i]@));
                    lemma_key_lt_irreflexive(ks[j]);
                }
            }
        }
        assert(self@.dom() =~= ks.to_set()) by {
            assert forall|k: Seq<char>| self@.dom().contains(k) implies ks.to_set().contains(k) by {
                let i = choose|i: int| 0 <= i < self.keys@.len() && self.keys@[i]@ == k;
                assert(ks[i] == k);
            }
            assert forall|k: Seq<char>| ks.to_set().contains(k) implies self@.dom().contains(k) by {
                let i = choose|i: int| 0 <= i < ks.len() && ks[i] == k;
                assert(self.keys@[i]@ == k);
            }
        }
        ks.unique_seq_to_set();
    }

    /// The sum of all counts.
    pub fn total(&self) -> (r: u64)
        ensures
            r as nat == self.total_count(),
    {
        self.total
    }

    proof fn lemma_distinct(&self, i: int, k: Seq<char>)
        requires
            self.wf(),
            0 <= i < self.keys@.len(),
            self.keys@[i]@ == k,
        ensures
            forall|j: int| 0 <= j < self.keys@.len() && j != i ==> #[trigger] self.keys@[j]@ != k,
    {
        assert forall|j: int| 0 <= j < self.keys@.len() && j != i implies #[trigger] self.keys@[j]@ != k by {
            lemma_key_lt_irreflexive(k);
        }
    }

    /// The count of `key`, zero where the table lacks it.
    pub fn count(&self, key: &Vec<char>) -> (r: u64)
        requires
            self.wf(),
        ensures
            self@.contains_key(key@) ==> r as nat == self@[key@],
            !self@.contains_key(key@) ==> r == 0,
    {
        let (found, i) = find_key(&self.keys, key);
        if found {
            self.counts[i]
        } else {
            0
        }
    }

    /// The count of the key held in a string, zero where the table lacks it.
    pub fn get(&self, key: &str) -> (r: u64)
        requires
            self.wf(),
        ensures
            self@.contains_key(key@) ==> r as nat == self@[key@],
            !self@.contains_key(key@) ==> r == 0,
    {
        let k = chars_of(key);
        self.count(&k)
    }

    /// The number of entries, as the key sequence counts them.
    pub fn len_entries(&self) -> (r: usize)
        requires
            self.wf(),
        ensures
            r as nat == self.key_seq().len(),
            r as nat == self.count_seq().len(),
    {
        self.keys.len()
    }

    /// The key and count at position `i` of the table order.
    pub fn entry(&self, i: usize) -> (r: (Vec<char>, u64))
        requires
            self.wf(),
            i < self.key_seq().len(),
        ensures
            r.0@ == self.key_seq()[i as int],
            r.1 == self.count_seq()[i as int],
    {
        (copy_chars(&self.keys[i]), self.counts[i])
    }

    /// The entries as strings with their counts, in key order.
    pub fn entries(&self) -> (r: Vec<(String, u64)>)
        requires
            self.wf(),
        ensures
            r@.len() == self.key_seq().len(),
            forall|i: int| 0 <= i < r@.len() ==> (#[trigger] r@[i]).0@ == self.key_seq()[i] && r@[i].1 == self.count_seq()[i],
    {
        let mut r: Vec<(String, u64)> = Vec::new();
        let mut i: usize = 0;
        while i < self.keys.len()
            invariant
                self.wf(),
                i <= self.keys@.len(),
                r@.len() == i,
                forall|j: int| 0 <= j < i ==> (#[trigger] r@[j]).0@ == self.key_seq()[j] && r@[j].1 == self.count_seq()[j],
            decreases self.keys@.len() - i,
        {
            r.push((string_of(&self.keys[i]), self.counts[i]));
            i = i + 1;
        }
        r
    }

    /// Adds one occurrence of `key`.
    pub fn add(&mut self, key: &Vec<char>)
        requires
            old(self).wf(),
            old(self).total_count() < u64::MAX,
        ensures
            final(self).wf(),
            final(self)@ == old(self)@.insert(
                key@,
                if old(self)@.contains_key(key@) { old(self)@[key@] + 1 } else { 1 },
            ),
            final(self).total_count() == old(self).total_count() + 1,
    {
        let (found, i) = find_key(&self.keys, key);
        let ghost old_counts = self.counts@;
        if found {
            let c = self.counts[i];
            proof {
                lemma_count_le_sum(old_counts, i as int);
                self.lemma_distinct(i as int, key@);
                lemma_sum_update(old_counts, i as int, (c + 1) as u64);
            }
            self.counts.set(i, c + 1);
            self.model = Ghost(self.model@.insert(key@, (c + 1) as nat));
        } else {
            proof {
                lemma_sum_insert(old_counts, i as int, 1);
            }
            let ghost old_keys = self.keys@;
            let k = copy_chars(key);
            proof { lemma_insert_sorted(old_keys, i as int, k); }
            self.keys.insert(i, k);
            self.counts.insert(i, 1);
            self.model = Ghost(self.model@.insert(key@, 1));
            proof {
                assert forall|a: int| 0 <= a < self.keys@.len() && a != i implies #[trigger] self.keys@[a]@ != key@ by {
                    lemma_key_lt_irreflexive(key@);
                    if a < i {
                        assert(self.keys@[a] == old_keys[a]);
                    } else {
                        assert(self.keys@[a] == old_keys[a - 1]);
                    }
                }
                assert forall|k: Seq<char>| #[trigger] self.model@.contains_key(k) implies exists|a: int| 0 <= a < self.keys@.len() && self.keys@[a]@ == k by {
                    if k == key@ {
                        assert(self.keys@[i as int]@ == k);
                    } else {
                        let j = choose|j: int| 0 <= j < old_keys.len() && old_keys[j]@ == k;
                        if j < i {
                            assert(self.keys@[j] == old_keys[j]);
                        } else {
                            assert(self.keys@[j + 1] == old_keys[j]);
                        }
                    }
                }
            }
        }
        self.total = self.total + 1;
    }
}

} // verus!
