//! The correction cache: for each out-of-vocabulary word, the outcome of its
//! first resolution, never replaced.
use vstd::prelude::*;
use crate::chars::copy_chars;
use crate::correction::{correct_word, correction, words_view, AccentTable};
use crate::order::{find_key, lemma_insert_sorted, sorted_keys};

verus! {

/// A cached outcome: the replacement that a heuristic found, or the
/// suggestion list that none matched.
pub enum CacheEntry {
    Resolved(Vec<char>),
    Unresolved(Vec<Vec<char>>),
}

/// What a cache entry holds, as sequences.
pub enum EntryModel {
    Resolved(Seq<char>),
    Unresolved(Seq<Seq<char>>),
}

impl CacheEntry {
    /// The entry's contents as sequences.
    pub open spec fn model(&self) -> EntryModel {
        match self {
            CacheEntry::Resolved(r) => EntryModel::Resolved(r@),
            CacheEntry::Unresolved(s) => EntryModel::Unresolved(words_view(s@)),
        }
    }

    /// A copy of the entry.
    pub fn duplicate(&self) -> (r: CacheEntry)
        ensures
            r.model() == self.model(),
    {
        match self {
            CacheEntry::Resolved(r) => CacheEntry::Resolved(copy_chars(r)),
            CacheEntry::Unresolved(s) => CacheEntry::Unresolved(copy_words(s)),
        }
    }
}

/// A fresh vector holding the same words.
pub fn copy_words(v: &Vec<Vec<char>>) -> (r: Vec<Vec<char>>)
    ensures
        words_view(r@) == words_view(v@),
{
    let mut r: Vec<Vec<char>> = Vec::new();
    let mut i: usize = 0;
    while i < v.len()
        invariant
            i <= v@.len(),
            words_view(r@) == words_view(v@.subrange(0, i as int)),
        decreases v@.len() - i,
    {
        let ghost old_r = r@;
        r.push(copy_chars(&v[i]));
        assert(words_view(r@) =~= words_view(old_r).push(v@[i as int]@));
        assert(words_view(v@.subrange(0, i + 1)) =~= words_view(v@.subrange(0, i as int)).push(v@[i as int]@));
        i = i + 1;
    }
    assert(v@.subrange(0, v@.len() as int) =~= v@);
    r
}

/// The resolution of a word.
pub enum Outcome {
    Valid(Vec<char>),
    Corrected(Vec<char>),
    Unresolved(Vec<Vec<char>>),
}

/// What a resolution holds, as sequences.
pub enum OutcomeModel {
    Valid(Seq<char>),
    Corrected(Seq<char>),
    Unresolved(Seq<Seq<char>>),
}

impl Outcome {
    pub open spec fn model(&self) -> OutcomeModel {
        match self {
            Outcome::Valid(w) => OutcomeModel::Valid(w@),
            Outcome::Corrected(w) => OutcomeModel::Corrected(w@),
            Outcome::Unresolved(s) => OutcomeModel::Unresolved(words_view(s@)),
        }
    }
}

/// The cache entry that a fresh resolution stores.
pub open spec fn fresh_entry(w: Seq<char>, sugg: Seq<Seq<char>>, t: Seq<(char, char)>) -> EntryModel {
    match correction(w, sugg, t) {
        Some(r) => EntryModel::Resolved(r),
        None => EntryModel::Unresolved(sugg),
    }
}

/// The outcome that a cache entry gives.
pub open spec fn entry_outcome(e: EntryModel) -> OutcomeModel {
    match e {
        EntryModel::Resolved(r) => OutcomeModel::Corrected(r),
        EntryModel::Unresolved(s) => OutcomeModel::Unresolved(s),
    }
}

/// Resolution of `w` given the oracle's answers (`known`: the word is in the
/// lexicon; `sugg`: its suggestions, asked for only when the word is neither
/// known nor cached): the outcome and the cache after it.
pub open spec fn resolve_model(
    cache: Map<Seq<char>, EntryModel>,
    w: Seq<char>,
    known: bool,
    sugg: Seq<Seq<char>>,
    t: Seq<(char, char)>,
) -> (OutcomeModel, Map<Seq<char>, EntryModel>) {
    if known {
        (OutcomeModel::Valid(w), cache)
    } else if cache.contains_key(w) {
        (entry_outcome(cache[w]), cache)
    } else {
        (entry_outcome(fresh_entry(w, sugg, t)), cache.insert(w, fresh_entry(w, sugg, t)))
    }
}

/// The cache: words in strictly increasing order, each with its entry.
pub struct CorrectionCache {
    keys: Vec<Vec<char>>,
    entries: Vec<CacheEntry>,
    model: Ghost<Map<Seq<char>, EntryModel>>,
}

impl View for CorrectionCache {
    type V = Map<Seq<char>, EntryModel>;

    closed spec fn view(&self) -> Map<Seq<char>, EntryModel> {
        self.model@
    }
}

impl CorrectionCache {
    /// The internal invariant: sorted keys whose entries match the map view.
    pub closed spec fn wf(&self) -> bool {
        &&& self.keys@.len() == self.entries@.len()
        &&& sorted_keys(self.keys@)
        &&& forall|i: int| 0 <= i < self.keys@.len() ==> self.model@.contains_key(#[trigger] self.keys@[i]@)
        &&& forall|i: int| 0 <= i < self.keys@.len() ==> self.model@[#[trigger] self.keys@[i]@] == self.entries@[i].model()
        &&& forall|k: Seq<char>| #[trigger] self.model@.contains_key(k) ==> exists|i: int| 0 <= i < self.keys@.len() && self.keys@[i]@ == k
    }

    /// An empty cache.
    pub fn new() -> (r: CorrectionCache)
        ensures
            r.wf(),
            r@ == Map::<Seq<char>, EntryModel>::empty(),
    {
        CorrectionCache { keys: Vec::new(), entries: Vec::new(), model: Ghost(Map::empty()) }
    }

    /// The number of cached words.
    pub fn len(&self) -> (r: usize)
        requires
            self.wf(),
        ensures
            r as nat == self@.dom().len(),
            self@.dom().finite(),
    {
        proof {
            let ks = self.keys@.map_values(|k: Vec<char>| k@);
            assert(ks.no_duplicates()) by {
                assert forall|i: int, j: int| 0 <= i < ks.len() && 0 <= j < ks.len() && i != j implies ks[i] != ks[j] by {
                    if i < j {
                        assert(crate::order::key_lt(self.keys@[i]@, self.keys@[j]@));
                        crate::order::lemma_key_lt_irreflexive(ks[i]);
                    } else {
                        assert(crate::order::key_lt(self.keys@[j]@, self.keys@[i]@));
                        crate::order::lemma_key_lt_irreflexive(ks[j]);
                    }
                }
            }
            assert(self@.dom() =~= ks.to_set()) by {
                assert forall|k: Seq<char>| self@.dom().contains(k) implies ks.to_set().contains(k) by {
                    let i = choose|i: int| 0 <= i < self.keys@.len() && self.keys@[i]@ == k;
                    assert(ks[i] == k);
                }
                assert forall|k: Seq<char>| ks.to_set().contains(k) implies self@.dom().contains(k) by {
                    let i = choose|i: int| 0 <= i < ks.len() && ks[i] == k;
                    assert(self.keys@[i]@ == k);
                }
            }
            ks.unique_seq_to_set();
        }
        self.keys.len()
    }

    /// The cached entry of `w`, if any.
    pub fn lookup(&self, w: &Vec<char>) -> (r: Option<CacheEntry>)
        requires
            self.wf(),
        ensures
            r is Some == self@.contains_key(w@),
            r matches Some(e) ==> e.model() == self@[w@],
    {
        let (found, i) = find_key(&self.keys, w);
        if found {
            Some(self.entries[i].duplicate())
        } else {
            proof {
                if self@.contains_key(w@) {
                    let j = choose|j: int| 0 <= j < self.keys@.len() && self.keys@[j]@ == w@;
                }
            }
            None
        }
    }

    /// Records the outcome of a word that the cache does not hold yet.
    pub fn insert_new(&mut self, w: &Vec<char>, e: CacheEntry)
        requires
            old(self).wf(),
            !old(self)@.contains_key(w@),
        ensures
            final(self).wf(),
            final(self)@ == old(self)@.insert(w@, e.model()),
    {
        let (found, i) = find_key(&self.keys, w);
        proof {
            if found {
                assert(self@.contains_key(self.keys@[i as int]@));
            }
        }
        let ghost old_keys = self.keys@;
        let ghost old_entries = self.entries@;
        let k = copy_chars(w);
        proof { lemma_insert_sorted(old_keys, i as int, k); }
        let ghost em = e.model();
        self.keys.insert(i, k);
        self.entries.insert(i, e);
        self.model = Ghost(self.model@.insert(w@, em));
        proof {
            assert forall|a: int| 0 <= a < self.keys@.len() implies #[trigger] self.model@.contains_key(self.keys@[a]@)
                && self.model@[self.keys@[a]@] == self.entries@[a].model() by {
                if a < i {
                    assert(self.keys@[a] == old_keys[a]);
                    assert(self.entries@[a] == old_entries[a]);
                } else if a > i {
                    assert(self.keys@[a] == old_keys[a - 1]);
                    assert(self.entries@[a] == old_entries[a - 1]);
                }
            }
            assert forall|k2: Seq<char>| #[trigger] self.model@.contains_key(k2) implies exists|a: int| 0 <= a < self.keys@.len() && self.keys@[a]@ == k2 by {
                if k2 == w@ {
                    assert(self.keys@[i as int]@ == k2);
                } else {
                    let j = choose|j: int| 0 <= j < old_keys.len() && old_keys[j]@ == k2;
                    if j < i {
                        assert(self.keys@[j] == old_keys[j]);
                    } else {
                        assert(self.keys@[j + 1] == old_keys[j]);
                    }
                }
            }
        }
    }
    /// Resolution of `w` given the oracle's answers: `known` says whether the
    /// lexicon has the word, `sugg` is its suggestion list (consulted only
    /// when the word is neither known nor cached). A fresh outcome is cached;
    /// a cached one is never replaced.
    pub fn resolve_with(
        &mut self,
        w: &Vec<char>,
        known: bool,
        sugg: &Vec<Vec<char>>,
        accents: &AccentTable,
    ) -> (r: Outcome)
        requires
            old(self).wf(),
        ensures
            final(self).wf(),
            (r.model(), final(self)@) == resolve_model(old(self)@, w@, known, words_view(sugg@), accents@),
    {
        if known {
            return Outcome::Valid(copy_chars(w));
        }
        match self.lookup(w) {
            Some(CacheEntry::Resolved(v)) => Outcome::Corrected(v),
            Some(CacheEntry::Unresolved(s)) => Outcome::Unresolved(s),
            None => {
                match correct_word(w, sugg, accents) {
                    Some(v) => {
                        self.insert_new(w, CacheEntry::Resolved(copy_chars(&v)));
                        Outcome::Corrected(v)
                    },
                    None => {
                        self.insert_new(w, CacheEntry::Unresolved(copy_words(sugg)));
                        Outcome::Unresolved(copy_words(sugg))
                    },
                }
            },
        }
    }
}

} // verus!
