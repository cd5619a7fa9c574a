//! One pass over a corpus: each token resolved against the oracle through the
//! correction cache, and counted in the unigram, digram and diagnostic tables.
use vstd::prelude::*;
use unicode_normalization::UnicodeNormalization;
use crate::cache::{resolve_model, CacheEntry, CorrectionCache, EntryModel, Outcome, OutcomeModel};
use crate::chars::{chars_of, copy_chars, push_all, string_of};
use crate::correction::{words_of_strings, words_view, AccentTable};
use crate::lang::{flush, is_white_char, pieces, scan, Piece, WordPattern};
use crate::table::FreqTable;

verus! {

/// The text in Unicode normalization form KC.
pub uninterp spec fn nfkc_of(s: Seq<char>) -> Seq<char>;

/// Relies on `unicode_normalization`'s `nfkc`: the compatibility composition
/// of the text, a function of its characters alone.
#[verifier::external_body]
fn normalize(s: &str) -> (r: Vec<char>)
    ensures
        r@ == nfkc_of(s@),
{
    s.nfkc().collect()
}

/// The lexical oracle: whether a word is in the lexicon, and the lexicon's
/// words close to it. Nothing is assumed of the answers.
pub trait Lexicon {
    fn check(&self, word: &str) -> bool;

    fn suggest(&self, word: &str) -> Vec<String>;
}

/// What happened to one piece of the text.
pub enum Event {
    Stop,
    NotWord(Seq<char>),
    Unresolved(Seq<char>),
    Accepted(Seq<char>),
}

/// Counts of each key in a sequence of keys.
pub open spec fn tally(keys: Seq<Seq<char>>) -> Map<Seq<char>, nat>
    decreases keys.len(),
{
    if keys.len() == 0 {
        Map::empty()
    } else {
        let m = tally(keys.drop_last());
        let k = keys.last();
        m.insert(k, if m.contains_key(k) { m[k] + 1 } else { 1 })
    }
}

/// The words accepted (valid or corrected), in order.
pub open spec fn accepted_words(h: Seq<Event>) -> Seq<Seq<char>>
    decreases h.len(),
{
    if h.len() == 0 {
        Seq::empty()
    } else {
        match h.last() {
            Event::Accepted(w) => accepted_words(h.drop_last()).push(w),
            _ => accepted_words(h.drop_last()),
        }
    }
}

/// The chunks that did not match the word pattern, in order.
pub open spec fn not_word_keys(h: Seq<Event>) -> Seq<Seq<char>>
    decreases h.len(),
{
    if h.len() == 0 {
        Seq::empty()
    } else {
        match h.last() {
            Event::NotWord(c) => not_word_keys(h.drop_last()).push(c),
            _ => not_word_keys(h.drop_last()),
        }
    }
}

/// The keys of the unresolved words, in order.
pub open spec fn unresolved_keys(h: Seq<Event>) -> Seq<Seq<char>>
    decreases h.len(),
{
    if h.len() == 0 {
        Seq::empty()
    } else {
        match h.last() {
            Event::Unresolved(k) => unresolved_keys(h.drop_last()).push(k),
            _ => unresolved_keys(h.drop_last()),
        }
    }
}

/// The key of a digram: the two words joined by a space.
pub open spec fn pair_key(p: Seq<char>, w: Seq<char>) -> Seq<char> {
    p + seq![' '] + w
}

/// The digrams: each accepted word with the accepted word right before it.
pub open spec fn pair_keys(h: Seq<Event>) -> Seq<Seq<char>>
    decreases h.len(),
{
    if h.len() == 0 {
        Seq::empty()
    } else if h.len() >= 2 && h[h.len() - 2] is Accepted && h.last() is Accepted {
        pair_keys(h.drop_last()).push(pair_key(h[h.len() - 2]->Accepted_0, h.last()->Accepted_0))
    } else {
        pair_keys(h.drop_last())
    }
}

/// The word that the next accepted word pairs with, if any.
pub open spec fn last_accepted(h: Seq<Event>) -> Option<Seq<char>> {
    if h.len() > 0 && h.last() is Accepted {
        Some(h.last()->Accepted_0)
    } else {
        None
    }
}

/// Suggestions joined by single spaces.
pub open spec fn joined(s: Seq<Seq<char>>) -> Seq<char>
    decreases s.len(),
{
    if s.len() == 0 {
        Seq::empty()
    } else if s.len() == 1 {
        s[0]
    } else {
        joined(s.drop_last()) + seq![' '] + s.last()
    }
}

/// The key of an unresolved word: `"<word> -> <suggestions>"`.
pub open spec fn unresolved_key(w: Seq<char>, s: Seq<Seq<char>>) -> Seq<char> {
    w + seq![' ', '-', '>', ' '] + joined(s)
}

/// What the oracle answered for one piece: nothing was asked (a stop, or a
/// chunk that is no word); the check alone was asked, with its answer; or the
/// check answered no and the suggestions were asked for, with the list
/// that came back.
pub enum Answer {
    Skipped,
    Checked(bool),
    Asked(Seq<Seq<char>>),
}

/// Whether the answer says the lexicon has the word.
pub open spec fn answer_known(a: Answer) -> bool {
    match a {
        Answer::Skipped => true,
        Answer::Checked(k) => k,
        Answer::Asked(_) => false,
    }
}

/// The suggestion list in the answer (empty where none was asked for).
pub open spec fn answer_sugg(a: Answer) -> Seq<Seq<char>> {
    match a {
        Answer::Asked(s) => s,
        _ => Seq::empty(),
    }
}

/// The event of a resolved word.
pub open spec fn event_of(w: Seq<char>, o: OutcomeModel) -> Event {
    match o {
        OutcomeModel::Valid(v) => Event::Accepted(v),
        OutcomeModel::Corrected(v) => Event::Accepted(v),
        OutcomeModel::Unresolved(s) => Event::Unresolved(unresolved_key(w, s)),
    }
}

/// One piece processed with the oracle's answer: its event and the cache
/// after it. A word (the chunk lowercased) is resolved with `resolve_model`.
pub open spec fn step_model(
    pat: WordPattern,
    t: Seq<(char, char)>,
    p: Piece,
    a: Answer,
    cache: Map<Seq<char>, EntryModel>,
) -> (Event, Map<Seq<char>, EntryModel>) {
    match p {
        Piece::Stop => (Event::Stop, cache),
        Piece::Chunk(c) => if !pat.matches(c) {
            (Event::NotWord(c), cache)
        } else {
            let w = pat.fold(c);
            let r = resolve_model(cache, w, answer_known(a), answer_sugg(a), t);
            (event_of(w, r.0), r.1)
        },
    }
}

/// Whether the answer is one that the pass obtains for the piece, given the
/// cache before it: nothing for a stop or a chunk that is no word; for a
/// word, the check's answer, and the suggestions exactly when the check said
/// no and the cache lacked the word.
pub open spec fn answer_fits(pat: WordPattern, p: Piece, a: Answer, cache: Map<Seq<char>, EntryModel>) -> bool {
    match p {
        Piece::Stop => a is Skipped,
        Piece::Chunk(c) => if !pat.matches(c) {
            a is Skipped
        } else {
            match a {
                Answer::Skipped => false,
                Answer::Checked(k) => k || cache.contains_key(pat.fold(c)),
                Answer::Asked(_) => !cache.contains_key(pat.fold(c)),
            }
        },
    }
}

/// The pass over pieces with the oracle's answers, one per piece, from an
/// empty cache: the events and the final cache.
pub open spec fn run(pat: WordPattern, t: Seq<(char, char)>, ps: Seq<Piece>, ans: Seq<Answer>) -> (
    Seq<Event>,
    Map<Seq<char>, EntryModel>,
)
    decreases ps.len(),
{
    if ps.len() == 0 {
        (Seq::empty(), Map::empty())
    } else {
        let prior = run(pat, t, ps.drop_last(), ans.drop_last());
        let step = step_model(pat, t, ps.last(), ans.last(), prior.1);
        (prior.0.push(step.0), step.1)
    }
}

/// Whether the answers stand one for one with the pieces, each as the pass
/// obtains it.
pub open spec fn answers_fit(pat: WordPattern, t: Seq<(char, char)>, ps: Seq<Piece>, ans: Seq<Answer>) -> bool
    decreases ps.len(),
{
    if ps.len() == 0 {
        ans.len() == 0
    } else {
        &&& ans.len() == ps.len()
        &&& answers_fit(pat, t, ps.drop_last(), ans.drop_last())
        &&& answer_fits(pat, ps.last(), ans.last(), run(pat, t, ps.drop_last(), ans.drop_last()).1)
    }
}

/// The words sent for suggestions, in order.
pub open spec fn asked(pat: WordPattern, ps: Seq<Piece>, ans: Seq<Answer>) -> Seq<Seq<char>>
    decreases ps.len(),
{
    if ps.len() == 0 || ans.len() == 0 {
        Seq::empty()
    } else if ans.last() is Asked && ps.last() is Chunk {
        asked(pat, ps.drop_last(), ans.drop_last()).push(pat.fold(ps.last()->Chunk_0))
    } else {
        asked(pat, ps.drop_last(), ans.drop_last())
    }
}

/// The state of a pass: configuration, cache, the four tables, the word
/// that the next accepted word pairs with, and (as ghost state) the pieces
/// seen with the oracle's answers for them.
pub struct Pass {
    pattern: WordPattern,
    accents: AccentTable,
    cache: CorrectionCache,
    words: FreqTable,
    pairs: FreqTable,
    not_words: FreqTable,
    unresolved: FreqTable,
    prev: Option<Vec<char>>,
    suggest_calls: u64,
    history: Ghost<Seq<Event>>,
    seen: Ghost<Seq<Piece>>,
    answers: Ghost<Seq<Answer>>,
}

/// The number of pieces that were counted in one of the three word tables.
pub open spec fn counted(h: Seq<Event>) -> nat {
    accepted_words(h).len() + not_word_keys(h).len() + unresolved_keys(h).len()
}

/// The words joined by single spaces.
fn join_words(s: &Vec<Vec<char>>) -> (r: Vec<char>)
    ensures
        r@ == joined(words_view(s@)),
{
    let mut r: Vec<char> = Vec::new();
    let mut i: usize = 0;
    while i < s.len()
        invariant
            i <= s@.len(),
            r@ == joined(words_view(s@.subrange(0, i as int))),
        decreases s@.len() - i,
    {
        let ghost before = words_view(s@.subrange(0, i as int));
        let ghost after = words_view(s@.subrange(0, i + 1));
        assert(after.drop_last() =~= before);
        assert(after.last() == s@[i as int]@);
        if i > 0 {
            r.push(' ');
        } else {
            assert(after =~= seq![s@[0]@]);
        }
        push_all(&mut r, &s[i]);
        i = i + 1;
    }
    assert(s@.subrange(0, s@.len() as int) =~= s@);
    r
}

impl Pass {
    /// The tables are the tallies of the events, and `prev` the word that the
    /// next accepted word pairs with.
    pub closed spec fn tables_ok(&self) -> bool {
        let h = self.history@;
        &&& self.words.wf()
        &&& self.pairs.wf()
        &&& self.not_words.wf()
        &&& self.unresolved.wf()
        &&& self.words@ == tally(accepted_words(h))
        &&& self.words.total_count() == accepted_words(h).len()
        &&& self.pairs@ == tally(pair_keys(h))
        &&& self.pairs.total_count() == pair_keys(h).len()
        &&& self.not_words@ == tally(not_word_keys(h))
        &&& self.not_words.total_count() == not_word_keys(h).len()
        &&& self.unresolved@ == tally(unresolved_keys(h))
        &&& self.unresolved.total_count() == unresolved_keys(h).len()
        &&& pair_keys(h).len() <= accepted_words(h).len()
        &&& match self.prev {
            Some(p) => last_accepted(h) == Some(p@),
            None => last_accepted(h) is None,
        }
    }

    /// The events and the cache are what `run` makes of the pieces seen and
    /// the oracle's answers; the suggestion requests are counted.
    pub closed spec fn trace_ok(&self) -> bool {
        &&& self.pattern.wf()
        &&& self.cache.wf()
        &&& self.cache@.dom().finite()
        &&& answers_fit(self.pattern, self.accents@, self.seen@, self.answers@)
        &&& run(self.pattern, self.accents@, self.seen@, self.answers@) == (self.history@, self.cache@)
        &&& self.suggest_calls as nat == asked(self.pattern, self.seen@, self.answers@).len()
        &&& asked(self.pattern, self.seen@, self.answers@).len() == self.cache@.dom().len()
    }

    /// Everything but the tables, the events and `prev` is as in `other`.
    closed spec fn keeps_trace(&self, other: &Pass) -> bool {
        &&& self.pattern == other.pattern
        &&& self.accents == other.accents
        &&& self.cache == other.cache
        &&& self.suggest_calls == other.suggest_calls
        &&& self.seen == other.seen
        &&& self.answers == other.answers
    }

    /// The internal invariant: also, no more cached words than words resolved.
    pub closed spec fn wf(&self) -> bool {
        &&& self.tables_ok()
        &&& self.trace_ok()
        &&& self.cache@.dom().len() <= accepted_words(self.history@).len() + unresolved_keys(self.history@).len()
    }

    /// What happened to each piece so far.
    pub closed spec fn history(&self) -> Seq<Event> {
        self.history@
    }

    /// The pieces processed so far.
    pub closed spec fn pieces_seen(&self) -> Seq<Piece> {
        self.seen@
    }

    /// The oracle's answers, one per piece processed.
    pub closed spec fn answers(&self) -> Seq<Answer> {
        self.answers@
    }

    /// The word pattern in use.
    pub closed spec fn pattern_model(&self) -> WordPattern {
        self.pattern
    }

    /// The accent table in use.
    pub closed spec fn accents_model(&self) -> Seq<(char, char)> {
        self.accents@
    }

    /// The cache's contents.
    pub closed spec fn cache_model(&self) -> Map<Seq<char>, EntryModel> {
        self.cache@
    }

    /// The unigram table.
    pub closed spec fn words_table(&self) -> FreqTable {
        self.words
    }

    /// The digram table.
    pub closed spec fn pairs_table(&self) -> FreqTable {
        self.pairs
    }

    /// The table of chunks that are no words.
    pub closed spec fn not_words_table(&self) -> FreqTable {
        self.not_words
    }

    /// The table of unresolved words with their suggestions.
    pub closed spec fn unresolved_table(&self) -> FreqTable {
        self.unresolved
    }

    /// The number of times the oracle was asked for suggestions.
    pub closed spec fn suggest_count(&self) -> nat {
        self.suggest_calls as nat
    }

    /// What the invariant states, for callers.
    pub proof fn lemma_wf(&self)
        requires
            self.wf(),
        ensures
            self.words_table().wf(),
            self.pairs_table().wf(),
            self.not_words_table().wf(),
            self.unresolved_table().wf(),
            self.words_table()@ == tally(accepted_words(self.history())),
            self.words_table().total_count() == accepted_words(self.history()).len(),
            self.pairs_table()@ == tally(pair_keys(self.history())),
            self.pairs_table().total_count() == pair_keys(self.history()).len(),
            self.not_words_table()@ == tally(not_word_keys(self.history())),
            self.not_words_table().total_count() == not_word_keys(self.history()).len(),
            self.unresolved_table()@ == tally(unresolved_keys(self.history())),
            self.unresolved_table().total_count() == unresolved_keys(self.history()).len(),
            answers_fit(self.pattern_model(), self.accents_model(), self.pieces_seen(), self.answers()),
            run(self.pattern_model(), self.accents_model(), self.pieces_seen(), self.answers()) == (
                self.history(),
                self.cache_model(),
            ),
            self.suggest_count() == asked(self.pattern_model(), self.pieces_seen(), self.answers()).len(),
    {
    }

    /// A pass with empty cache and tables.
    pub fn new(pattern: WordPattern, accents: AccentTable) -> (r: Pass)
        requires
            pattern.wf(),
        ensures
            r.wf(),
            r.history() == Seq::<Event>::empty(),
            r.pieces_seen() == Seq::<Piece>::empty(),
            r.answers() == Seq::<Answer>::empty(),
            r.pattern_model() == pattern,
            r.accents_model() == accents@,
            r.cache_model() == Map::<Seq<char>, EntryModel>::empty(),
    {
        let r = Pass {
            pattern,
            accents,
            cache: CorrectionCache::new(),
            words: FreqTable::new(),
            pairs: FreqTable::new(),
            not_words: FreqTable::new(),
            unresolved: FreqTable::new(),
            prev: None,
            suggest_calls: 0,
            history: Ghost(Seq::empty()),
            seen: Ghost(Seq::empty()),
            answers: Ghost(Seq::empty()),
        };
        proof {
            assert(r.cache@.dom() =~= Set::<Seq<char>>::empty());
        }
        r
    }

    /// Ends the sentence: the next accepted word pairs with nothing.
    pub fn stop(&mut self)
        requires
            old(self).wf(),
        ensures
            final(self).wf(),
            final(self).history() == old(self).history().push(Event::Stop),
            final(self).pieces_seen() == old(self).pieces_seen().push(Piece::Stop),
            final(self).answers() == old(self).answers().push(Answer::Skipped),
            final(self).cache_model() == old(self).cache_model(),
            final(self).pattern_model() == old(self).pattern_model(),
            final(self).accents_model() == old(self).accents_model(),
    {
        let ghost h = self.history@;
        let ghost ps = self.seen@;
        let ghost ans = self.answers@;
        self.prev = None;
        self.history = Ghost(h.push(Event::Stop));
        self.seen = Ghost(ps.push(Piece::Stop));
        self.answers = Ghost(ans.push(Answer::Skipped));
        proof {
            assert(self.history@.drop_last() =~= h);
            assert(self.seen@.drop_last() =~= ps);
            assert(self.answers@.drop_last() =~= ans);
            let h2 = self.history@;
            assert(accepted_words(h2) == accepted_words(h));
            assert(not_word_keys(h2) == not_word_keys(h));
            assert(unresolved_keys(h2) == unresolved_keys(h));
            assert(pair_keys(h2) == pair_keys(h));
            assert(asked(self.pattern, self.seen@, self.answers@) == asked(self.pattern, ps, ans));
        }
    }

    /// Counts a chunk that is no word.
    fn record_not_word(&mut self, chunk: &Vec<char>)
        requires
            old(self).tables_ok(),
            counted(old(self).history()) < u64::MAX,
        ensures
            final(self).tables_ok(),
            final(self).keeps_trace(old(self)),
            final(self).history() == old(self).history().push(Event::NotWord(chunk@)),
    {
        let ghost h = self.history@;
        let ghost h2 = h.push(Event::NotWord(chunk@));
        proof {
            assert(h2.drop_last() =~= h);
            assert(not_word_keys(h2) == not_word_keys(h).push(chunk@));
            assert(not_word_keys(h).push(chunk@).drop_last() =~= not_word_keys(h));
            assert(accepted_words(h2) == accepted_words(h));
            assert(unresolved_keys(h2) == unresolved_keys(h));
            assert(pair_keys(h2) == pair_keys(h));
        }
        self.not_words.add(chunk);
        self.prev = None;
        self.history = Ghost(h2);
    }

    /// Counts a word that no heuristic resolved, keyed with its suggestions.
    fn record_unresolved(&mut self, w: &Vec<char>, sugg: &Vec<Vec<char>>)
        requires
            old(self).tables_ok(),
            counted(old(self).history()) < u64::MAX,
        ensures
            final(self).tables_ok(),
            final(self).keeps_trace(old(self)),
            final(self).history() == old(self).history().push(
                Event::Unresolved(unresolved_key(w@, words_view(sugg@))),
            ),
    {
        let ghost h = self.history@;
        let mut key = copy_chars(w);
        key.push(' ');
        key.push('-');
        key.push('>');
        key.push(' ');
        let j = join_words(sugg);
        push_all(&mut key, &j);
        assert(key@ =~= unresolved_key(w@, words_view(sugg@)));
        let ghost h2 = h.push(Event::Unresolved(key@));
        proof {
            assert(h2.drop_last() =~= h);
            assert(unresolved_keys(h2) == unresolved_keys(h).push(key@));
            assert(unresolved_keys(h).push(key@).drop_last() =~= unresolved_keys(h));
            assert(accepted_words(h2) == accepted_words(h));
            assert(not_word_keys(h2) == not_word_keys(h));
            assert(pair_keys(h2) == pair_keys(h));
        }
        self.unresolved.add(&key);
        self.prev = None;
        self.history = Ghost(h2);
    }

    /// Counts an accepted word, and the digram it forms with the word before
    /// it, if that one was accepted too.
    fn record_word(&mut self, v: &Vec<char>)
        requires
            old(self).tables_ok(),
            counted(old(self).history()) < u64::MAX,
        ensures
            final(self).tables_ok(),
            final(self).keeps_trace(old(self)),
            final(self).history() == old(self).history().push(Event::Accepted(v@)),
    {
        let ghost h = self.history@;
        let ghost h2 = h.push(Event::Accepted(v@));
        proof {
            assert(h2.drop_last() =~= h);
            assert(accepted_words(h2) == accepted_words(h).push(v@));
            assert(accepted_words(h).push(v@).drop_last() =~= accepted_words(h));
            assert(unresolved_keys(h2) == unresolved_keys(h));
            assert(not_word_keys(h2) == not_word_keys(h));
            if h.len() > 0 {
                assert(h2[h2.len() - 2] == h.last());
            }
        }
        self.words.add(v);
        match &self.prev {
            Some(p) => {
                let mut key = copy_chars(p);
                key.push(' ');
                push_all(&mut key, v);
                assert(key@ =~= pair_key(p@, v@));
                proof {
                    assert(pair_keys(h2) == pair_keys(h).push(key@));
                    assert(pair_keys(h).push(key@).drop_last() =~= pair_keys(h));
                }
                self.pairs.add(&key);
            },
            None => {
                assert(pair_keys(h2) == pair_keys(h));
            },
        }
        self.prev = Some(copy_chars(v));
        self.history = Ghost(h2);
    }


    /// Resolves a word: as it is if the oracle knows it, else from the cache,
    /// else by correcting it against the oracle's suggestions, which are asked
    /// for only then, and cached. The ghost answer records what the oracle
    /// said.
    fn resolve<L: Lexicon>(&mut self, oracle: &L, w: &Vec<char>) -> (r: (Outcome, Ghost<Answer>))
        requires
            old(self).cache.wf(),
            old(self).suggest_calls < u64::MAX,
        ensures
            final(self).cache.wf(),
            final(self).words == old(self).words,
            final(self).pairs == old(self).pairs,
            final(self).not_words == old(self).not_words,
            final(self).unresolved == old(self).unresolved,
            final(self).prev == old(self).prev,
            final(self).history == old(self).history,
            final(self).seen == old(self).seen,
            final(self).answers == old(self).answers,
            final(self).pattern == old(self).pattern,
            final(self).accents == old(self).accents,
            !(r.1@ is Skipped),
            (r.0.model(), final(self).cache@) == resolve_model(
                old(self).cache@,
                w@,
                answer_known(r.1@),
                answer_sugg(r.1@),
                old(self).accents@,
            ),
            r.1@ is Checked ==> (r.1@->Checked_0 || old(self).cache@.contains_key(w@))
                && final(self).suggest_calls == old(self).suggest_calls,
            r.1@ is Asked ==> !old(self).cache@.contains_key(w@) && final(self).suggest_calls
                == old(self).suggest_calls + 1,
    {
        let ws = string_of(w);
        let known = oracle.check(ws.as_str());
        if known || self.cache.lookup(w).is_some() {
            let none: Vec<Vec<char>> = Vec::new();
            let r = self.cache.resolve_with(w, known, &none, &self.accents);
            assert(words_view(none@) =~= Seq::<Seq<char>>::empty());
            return (r, Ghost(Answer::Checked(known)));
        }
        let found = oracle.suggest(ws.as_str());
        self.suggest_calls = self.suggest_calls + 1;
        let sugg = words_of_strings(&found);
        let r = self.cache.resolve_with(w, false, &sugg, &self.accents);
        (r, Ghost(Answer::Asked(words_view(sugg@))))
    }

    /// Classifies, resolves and counts one chunk of a sentence.
    pub fn process_chunk<L: Lexicon>(&mut self, oracle: &L, chunk: &Vec<char>)
        requires
            old(self).wf(),
            counted(old(self).history()) < u64::MAX,
        ensures
            final(self).wf(),
            final(self).pattern_model() == old(self).pattern_model(),
            final(self).accents_model() == old(self).accents_model(),
            final(self).pieces_seen() == old(self).pieces_seen().push(Piece::Chunk(chunk@)),
            final(self).answers().len() == old(self).answers().len() + 1,
            final(self).answers().drop_last() == old(self).answers(),
            counted(final(self).history()) == counted(old(self).history()) + 1,
    {
        let ghost h = self.history@;
        let ghost c0 = self.cache@;
        let ghost ps = self.seen@;
        let ghost ans = self.answers@;
        let ghost a: Answer;
        match self.pattern.classify(chunk) {
            None => {
                self.record_not_word(chunk);
                proof { a = Answer::Skipped; }
            },
            Some(w) => {
                proof {
                    // No more requests than cached words, and no more of those than counted pieces.
                    assert(self.suggest_calls as nat <= counted(h));
                }
                let (r, ga) = self.resolve(oracle, &w);
                proof { a = ga@; }
                match r {
                    Outcome::Valid(v) => {
                        self.record_word(&v);
                    },
                    Outcome::Corrected(v) => {
                        self.record_word(&v);
                    },
                    Outcome::Unresolved(s) => {
                        self.record_unresolved(&w, &s);
                    },
                }
                proof {
                    if answer_known(a) || c0.contains_key(w@) {
                        assert(self.cache@ == c0);
                    } else {
                        assert(self.cache@.dom() =~= c0.dom().insert(w@));
                    }
                }
            },
        }
        self.seen = Ghost(ps.push(Piece::Chunk(chunk@)));
        self.answers = Ghost(ans.push(a));
        proof {
            assert(self.history@.drop_last() =~= h);
            assert(self.seen@.drop_last() =~= ps);
            assert(self.answers@.drop_last() =~= ans);
        }
    }

    /// The unigram table.
    pub fn words(&self) -> (r: &FreqTable)
        requires
            self.wf(),
        ensures
            *r == self.words_table(),
            r.wf(),
    {
        &self.words
    }

    /// The digram table.
    pub fn pairs(&self) -> (r: &FreqTable)
        requires
            self.wf(),
        ensures
            *r == self.pairs_table(),
            r.wf(),
    {
        &self.pairs
    }

    /// The table of chunks that are no words.
    pub fn not_words(&self) -> (r: &FreqTable)
        requires
            self.wf(),
        ensures
            *r == self.not_words_table(),
            r.wf(),
    {
        &self.not_words
    }

    /// The table of unresolved words with their suggestions.
    pub fn unresolved(&self) -> (r: &FreqTable)
        requires
            self.wf(),
        ensures
            *r == self.unresolved_table(),
            r.wf(),
    {
        &self.unresolved
    }

    /// The number of times the oracle was asked for suggestions.
    pub fn suggest_calls(&self) -> (r: u64)
        ensures
            r as nat == self.suggest_count(),
    {
        self.suggest_calls
    }

    /// The number of words in the correction cache.
    pub fn cached_words(&self) -> (r: usize)
        requires
            self.wf(),
        ensures
            r as nat == self.cache_model().dom().len(),
    {
        self.cache.len()
    }

    /// The cached outcome of a word, if any.
    pub fn cached(&self, w: &str) -> (r: Option<CacheEntry>)
        requires
            self.wf(),
        ensures
            r is Some == self.cache_model().contains_key(w@),
            r matches Some(e) ==> e.model() == self.cache_model()[w@],
    {
        let v = chars_of(w);
        self.cache.lookup(&v)
    }
}

/// Processes an already normalized text: every piece of it is classified,
/// resolved through the oracle and the cache, and counted. The events and
/// the cache are exactly what `run` makes of the text's pieces with the
/// oracle's answers as they came back.
pub fn count_normalized<L: Lexicon>(
    oracle: &L,
    text: &Vec<char>,
    pattern: WordPattern,
    accents: AccentTable,
) -> (r: Pass)
    requires
        pattern.wf(),
    ensures
        r.wf(),
        r.pattern_model() == pattern,
        r.accents_model() == accents@,
        r.pieces_seen() == pieces(text@),
        answers_fit(pattern, accents@, pieces(text@), r.answers()),
        run(pattern, accents@, pieces(text@), r.answers()) == (r.history(), r.cache_model()),
        r.suggest_count() == asked(pattern, pieces(text@), r.answers()).len(),
        r.words_table()@ == tally(accepted_words(r.history())),
        r.words_table().total_count() == accepted_words(r.history()).len(),
        r.pairs_table()@ == tally(pair_keys(r.history())),
        r.pairs_table().total_count() == pair_keys(r.history()).len(),
        r.not_words_table()@ == tally(not_word_keys(r.history())),
        r.not_words_table().total_count() == not_word_keys(r.history()).len(),
        r.unresolved_table()@ == tally(unresolved_keys(r.history())),
        r.unresolved_table().total_count() == unresolved_keys(r.history()).len(),
{
    let mut pass = Pass::new(pattern, accents);
    let mut cur: Vec<char> = Vec::new();
    let n = text.len();
    let mut i: usize = 0;
    while i < n
        invariant
            n == text@.len(),
            i <= n,
            pass.wf(),
            pass.pattern_model() == pattern,
            pass.accents_model() == accents@,
            scan(text@, i as int).1 == cur@,
            pass.pieces_seen() == scan(text@, i as int).0,
            counted(pass.history()) + cur@.len() <= i,
        decreases n - i,
    {
        let c = text[i];
        let ghost ps = scan(text@, i as int).0;
        assert(scan(text@, i + 1) == if c == '.' {
            (flush(ps, cur@).push(Piece::Stop), Seq::<char>::empty())
        } else if crate::lang::is_white(c) {
            (flush(ps, cur@), Seq::<char>::empty())
        } else {
            (ps, cur@.push(c))
        });
        let white = is_white_char(c);
        if c == '.' || white {
            if cur.len() > 0 {
                pass.process_chunk(oracle, &cur);
            }
            if c == '.' {
                let ghost h1 = pass.history();
                pass.stop();
                proof {
                    let h2 = pass.history();
                    assert(h2.drop_last() =~= h1);
                    assert(accepted_words(h2) == accepted_words(h1));
                    assert(not_word_keys(h2) == not_word_keys(h1));
                    assert(unresolved_keys(h2) == unresolved_keys(h1));
                }
            }
            cur = Vec::new();
        } else {
            cur.push(c);
        }
        i = i + 1;
    }
    if cur.len() > 0 {
        pass.process_chunk(oracle, &cur);
    }
    proof { pass.lemma_wf(); }
    pass
}

/// Normalizes the text and processes it: every piece of the normalized text
/// is classified, resolved through the oracle and the cache, and counted.
pub fn count_words<L: Lexicon>(oracle: &L, text: &str, pattern: WordPattern, accents: AccentTable) -> (r: Pass)
    requires
        pattern.wf(),
    ensures
        r.wf(),
        r.pattern_model() == pattern,
        r.accents_model() == accents@,
        r.pieces_seen() == pieces(nfkc_of(text@)),
        answers_fit(pattern, accents@, pieces(nfkc_of(text@)), r.answers()),
        run(pattern, accents@, pieces(nfkc_of(text@)), r.answers()) == (r.history(), r.cache_model()),
        r.suggest_count() == asked(pattern, pieces(nfkc_of(text@)), r.answers()).len(),
        r.words_table()@ == tally(accepted_words(r.history())),
        r.words_table().total_count() == accepted_words(r.history()).len(),
        r.pairs_table()@ == tally(pair_keys(r.history())),
        r.pairs_table().total_count() == pair_keys(r.history()).len(),
        r.not_words_table()@ == tally(not_word_keys(r.history())),
        r.not_words_table().total_count() == not_word_keys(r.history()).len(),
        r.unresolved_table()@ == tally(unresolved_keys(r.history())),
        r.unresolved_table().total_count() == unresolved_keys(r.history()).len(),
{
    let chars = normalize(text);
    count_normalized(oracle, &chars, pattern, accents)
}

} // verus!
