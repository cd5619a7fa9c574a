//! Properties of the correction engine, the cache and the digram counting,
//! stated over the models and proved.
use vstd::prelude::*;
use crate::cache::EntryModel;
use crate::correction::{
    accent_lookup, all_upper, capitalized, correction, first_accent, first_elision, is_muted,
};
use crate::cache::resolve_model;
use crate::lang::{Piece, WordPattern};
use crate::pass::{answer_fits, answer_known, answers_fit, asked, event_of, pair_keys, run, Answer, Event};

verus! {

/// Resolves `w` once for each suggestion list in `ss`, the oracle rejecting
/// it each time: the cache after all of them.
pub open spec fn resolve_all(
    cache: Map<Seq<char>, EntryModel>,
    w: Seq<char>,
    ss: Seq<Seq<Seq<char>>>,
    t: Seq<(char, char)>,
) -> Map<Seq<char>, EntryModel>
    decreases ss.len(),
{
    if ss.len() == 0 {
        cache
    } else {
        resolve_model(resolve_all(cache, w, ss.drop_last(), t), w, false, ss.last(), t).1
    }
}

/// How many of those resolutions found `w` missing from the cache, and so
/// asked the oracle for suggestions.
pub open spec fn queries(
    cache: Map<Seq<char>, EntryModel>,
    w: Seq<char>,
    ss: Seq<Seq<Seq<char>>>,
    t: Seq<(char, char)>,
) -> nat
    decreases ss.len(),
{
    if ss.len() == 0 {
        0
    } else {
        queries(cache, w, ss.drop_last(), t) + if resolve_all(cache, w, ss.drop_last(), t).contains_key(w) {
            0nat
        } else {
            1nat
        }
    }
}

/// An out-of-vocabulary word met N times (N at least one) is looked up in the
/// oracle's suggestions exactly once, whatever the suggestions are.
pub proof fn lemma_single_query(
    cache: Map<Seq<char>, EntryModel>,
    w: Seq<char>,
    ss: Seq<Seq<Seq<char>>>,
    t: Seq<(char, char)>,
)
    requires
        !cache.contains_key(w),
        ss.len() >= 1,
    ensures
        queries(cache, w, ss, t) == 1,
        resolve_all(cache, w, ss, t).contains_key(w),
    decreases ss.len(),
{
    let prior = resolve_all(cache, w, ss.drop_last(), t);
    if ss.len() > 1 {
        lemma_single_query(cache, w, ss.drop_last(), t);
        assert(prior.contains_key(w));
        assert(resolve_model(prior, w, false, ss.last(), t).1 == prior);
    } else {
        assert(ss.drop_last().len() == 0);
        assert(prior == cache);
        assert(queries(cache, w, ss.drop_last(), t) == 0);
    }
}

/// Once a word's outcome is cached, resolving it again with any other
/// suggestion list gives the same outcome and leaves the cache unchanged.
pub proof fn lemma_first_writer_wins(
    cache: Map<Seq<char>, EntryModel>,
    w: Seq<char>,
    s1: Seq<Seq<char>>,
    s2: Seq<Seq<char>>,
    t: Seq<(char, char)>,
)
    ensures
        resolve_model(resolve_model(cache, w, false, s1, t).1, w, false, s2, t) == resolve_model(
            cache,
            w,
            false,
            s1,
            t,
        ),
{
}

/// Where the suggestions hold the capitalized word, that is the correction,
/// whatever the other heuristics would give.
pub proof fn lemma_capitalization_first(w: Seq<char>, sugg: Seq<Seq<char>>, t: Seq<(char, char)>)
    requires
        sugg.contains(capitalized(w)),
    ensures
        correction(w, sugg, t) == Some(capitalized(w)),
{
}

/// Whether `r` comes from `w` by removing one muted interior letter, from
/// position `i` on.
pub open spec fn one_elision_from(w: Seq<char>, r: Seq<char>, i: int) -> bool {
    exists|j: int| i <= j && 1 <= j < w.len() - 1 && is_muted(w[j]) && r == w.remove(j)
}

/// Whether `r` comes from `w` by one accent substitution, from position `i` on.
pub open spec fn one_accent_from(w: Seq<char>, r: Seq<char>, t: Seq<(char, char)>, i: int) -> bool {
    exists|j: int|
        i <= j < w.len() && #[trigger] accent_lookup(t, w[j]) is Some && r == w.update(j, accent_lookup(t, w[j])->0)
}

proof fn lemma_elision_single(w: Seq<char>, sugg: Seq<Seq<char>>, i: int)
    requires
        first_elision(w, sugg, i) is Some,
    ensures
        sugg.contains(first_elision(w, sugg, i)->0),
        one_elision_from(w, first_elision(w, sugg, i)->0, i),
    decreases w.len() - i,
{
    if i < 1 || i + 1 >= w.len() {
    } else if is_muted(w[i]) && sugg.contains(w.remove(i)) {
    } else {
        lemma_elision_single(w, sugg, i + 1);
        let j = choose|j: int| i + 1 <= j && 1 <= j < w.len() - 1 && is_muted(w[j]) && first_elision(w, sugg, i)->0 == w.remove(j);
        assert(i <= j);
    }
}

proof fn lemma_accent_single(w: Seq<char>, sugg: Seq<Seq<char>>, t: Seq<(char, char)>, i: int)
    requires
        first_accent(w, sugg, t, i) is Some,
    ensures
        sugg.contains(first_accent(w, sugg, t, i)->0),
        one_accent_from(w, first_accent(w, sugg, t, i)->0, t, i),
    decreases w.len() - i,
{
    if i < 0 || i >= w.len() {
    } else if accent_lookup(t, w[i]) is Some && sugg.contains(w.update(i, accent_lookup(t, w[i])->0)) {
    } else {
        lemma_accent_single(w, sugg, t, i + 1);
        let j = choose|j: int|
            i + 1 <= j < w.len() && #[trigger] accent_lookup(t, w[j]) is Some && first_accent(w, sugg, t, i)->0 == w.update(j, accent_lookup(t, w[j])->0);
        assert(i <= j);
    }
}

/// A correction is a suggestion reached from the word by a single rewrite:
/// capitalization, all-uppercase, one removal of a muted interior letter, or
/// one accent substitution. No combination of two rewrites is ever tried.
pub proof fn lemma_single_rewrite(w: Seq<char>, sugg: Seq<Seq<char>>, t: Seq<(char, char)>)
    requires
        correction(w, sugg, t) is Some,
    ensures
        sugg.contains(correction(w, sugg, t)->0),
        ({
            let r = correction(w, sugg, t)->0;
            r == capitalized(w) || r == all_upper(w) || one_elision_from(w, r, 1) || one_accent_from(w, r, t, 0)
        }),
{
    if sugg.contains(capitalized(w)) {
    } else if sugg.contains(all_upper(w)) {
    } else if first_elision(w, sugg, 1) is Some {
        lemma_elision_single(w, sugg, 1);
    } else {
        lemma_accent_single(w, sugg, t, 0);
    }
}

/// A sentence end, a chunk that is no word, or an unresolved word breaks the
/// chain: the next accepted word forms no digram.
pub proof fn lemma_chain_reset(h: Seq<Event>, e: Event, w: Seq<char>)
    requires
        !(e is Accepted),
    ensures
        pair_keys(h.push(e).push(Event::Accepted(w))) == pair_keys(h),
{
    let h1 = h.push(e);
    let h2 = h1.push(Event::Accepted(w));
    assert(h2.drop_last() =~= h1);
    assert(h1.drop_last() =~= h);
    assert(h2[h2.len() - 2] == e);
    assert(h1.last() == e);
    assert(pair_keys(h2) == pair_keys(h1));
    if h.len() > 0 {
        assert(h1[h1.len() - 2] == h.last());
    }
    assert(pair_keys(h1) == pair_keys(h));
}

/// The events of a run of accepted words.
pub open spec fn accepted_run(ws: Seq<Seq<char>>) -> Seq<Event> {
    ws.map_values(|w: Seq<char>| Event::Accepted(w))
}

/// A run of k consecutive accepted words after a break (or at the start)
/// adds exactly k - 1 digrams.
pub proof fn lemma_run_pairs(h: Seq<Event>, ws: Seq<Seq<char>>)
    requires
        h.len() == 0 || !(h.last() is Accepted),
        ws.len() >= 1,
    ensures
        pair_keys(h + accepted_run(ws)).len() == pair_keys(h).len() + ws.len() - 1,
    decreases ws.len(),
{
    let all = h + accepted_run(ws);
    if ws.len() == 1 {
        assert(all.drop_last() =~= h);
        if h.len() > 0 {
            assert(all[all.len() - 2] == h.last());
        }
    } else {
        lemma_run_pairs(h, ws.drop_last());
        assert(all.drop_last() =~= h + accepted_run(ws.drop_last()));
        assert(all[all.len() - 2] == Event::Accepted(ws[ws.len() - 2]));
    }
}

/// Whether the piece is a chunk that matches the pattern, and so a word.
pub open spec fn is_word_piece(pat: WordPattern, p: Piece) -> bool {
    p is Chunk && pat.matches(p->Chunk_0)
}

/// The suggestion requests of a pass are distinct, and they are exactly the
/// words in the final cache; every word whose check said no was requested.
/// So a rejected word, however often it recurs, is sent for suggestions
/// exactly once.
pub proof fn lemma_requests(pat: WordPattern, t: Seq<(char, char)>, ps: Seq<Piece>, ans: Seq<Answer>)
    requires
        answers_fit(pat, t, ps, ans),
    ensures
        asked(pat, ps, ans).no_duplicates(),
        forall|w: Seq<char>| asked(pat, ps, ans).contains(w) <==> #[trigger] run(pat, t, ps, ans).1.contains_key(w),
        forall|i: int|
            0 <= i < ps.len() && is_word_piece(pat, ps[i]) && !answer_known(#[trigger] ans[i]) ==> asked(pat, ps, ans).contains(
                pat.fold(ps[i]->Chunk_0),
            ),
    decreases ps.len(),
{
    if ps.len() > 0 {
        let pps = ps.drop_last();
        let pans = ans.drop_last();
        lemma_requests(pat, t, pps, pans);
        let prior = run(pat, t, pps, pans);
        let pa = asked(pat, pps, pans);
        let a = ans.last();
        let p = ps.last();
        assert(answer_fits(pat, p, a, prior.1));
        let full = asked(pat, ps, ans);
        let cache = run(pat, t, ps, ans).1;
        if a is Asked {
            let w = pat.fold(p->Chunk_0);
            assert(!prior.1.contains_key(w));
            assert(!pa.contains(w));
            assert(full == pa.push(w));
            assert(cache == prior.1.insert(w, crate::cache::fresh_entry(w, a->Asked_0, t)));
            assert forall|x: Seq<char>| full.contains(x) <==> #[trigger] cache.contains_key(x) by {
                if full.contains(x) && x != w {
                    let k = choose|k: int| 0 <= k < full.len() && full[k] == x;
                    assert(pa[k] == x);
                }
                if pa.contains(x) {
                    let k = choose|k: int| 0 <= k < pa.len() && pa[k] == x;
                    assert(full[k] == x);
                }
                if x == w {
                    assert(full[full.len() - 1] == w);
                }
            }
            assert forall|i: int, j: int| 0 <= i < full.len() && 0 <= j < full.len() && i != j implies full[i] != full[j] by {
                if i < pa.len() && j < pa.len() {
                } else if i < pa.len() {
                    assert(pa.contains(full[i]));
                } else if j < pa.len() {
                    assert(pa.contains(full[j]));
                }
            }
            assert forall|i: int| 0 <= i < ps.len() && is_word_piece(pat, ps[i]) && !answer_known(#[trigger] ans[i]) implies full.contains(pat.fold(ps[i]->Chunk_0)) by {
                if i < pps.len() {
                    assert(pps[i] == ps[i] && pans[i] == ans[i]);
                    let x = pat.fold(ps[i]->Chunk_0);
                    let k = choose|k: int| 0 <= k < pa.len() && pa[k] == x;
                    assert(full[k] == x);
                } else {
                    assert(full[full.len() - 1] == w);
                }
            }
        } else {
            assert(full == pa);
            assert(cache == prior.1) by {
                if is_word_piece(pat, p) {
                    let w = pat.fold(p->Chunk_0);
                    assert(answer_known(a) || prior.1.contains_key(w));
                }
            }
            assert forall|i: int| 0 <= i < ps.len() && is_word_piece(pat, ps[i]) && !answer_known(#[trigger] ans[i]) implies full.contains(pat.fold(ps[i]->Chunk_0)) by {
                if i < pps.len() {
                    assert(pps[i] == ps[i] && pans[i] == ans[i]);
                } else {
                    assert(prior.1.contains_key(pat.fold(p->Chunk_0)));
                }
            }
        }
    }
}

/// Whether the logged answers agree with an oracle whose check is `known`
/// and whose suggestions are `sugg`, both functions of the word alone.
pub open spec fn answers_agree(
    pat: WordPattern,
    ps: Seq<Piece>,
    ans: Seq<Answer>,
    known: spec_fn(Seq<char>) -> bool,
    sugg: spec_fn(Seq<char>) -> Seq<Seq<char>>,
) -> bool {
    forall|i: int|
        0 <= i < ps.len() && is_word_piece(pat, ps[i]) ==> match #[trigger] ans[i] {
            Answer::Skipped => true,
            Answer::Checked(k) => k == known(pat.fold(ps[i]->Chunk_0)),
            Answer::Asked(s) => !known(pat.fold(ps[i]->Chunk_0)) && s == sugg(pat.fold(ps[i]->Chunk_0)),
        }
}

/// The pass with an oracle that answers by `known` and `sugg`: each word is
/// resolved with that oracle's answers.
pub open spec fn run_with(
    pat: WordPattern,
    t: Seq<(char, char)>,
    ps: Seq<Piece>,
    known: spec_fn(Seq<char>) -> bool,
    sugg: spec_fn(Seq<char>) -> Seq<Seq<char>>,
) -> (Seq<Event>, Map<Seq<char>, EntryModel>)
    decreases ps.len(),
{
    if ps.len() == 0 {
        (Seq::empty(), Map::empty())
    } else {
        let prior = run_with(pat, t, ps.drop_last(), known, sugg);
        let step = match ps.last() {
            Piece::Stop => (Event::Stop, prior.1),
            Piece::Chunk(c) => if !pat.matches(c) {
                (Event::NotWord(c), prior.1)
            } else {
                let w = pat.fold(c);
                let r = resolve_model(prior.1, w, known(w), sugg(w), t);
                (event_of(w, r.0), r.1)
            },
        };
        (prior.0.push(step.0), step.1)
    }
}

/// With an oracle whose answers depend on the word alone, the events and the
/// cache of a pass are those of `run_with`, whatever order the answers came in:
/// a first cached outcome stays authoritative for every later occurrence.
pub proof fn lemma_deterministic_oracle(
    pat: WordPattern,
    t: Seq<(char, char)>,
    ps: Seq<Piece>,
    ans: Seq<Answer>,
    known: spec_fn(Seq<char>) -> bool,
    sugg: spec_fn(Seq<char>) -> Seq<Seq<char>>,
)
    requires
        answers_fit(pat, t, ps, ans),
        answers_agree(pat, ps, ans, known, sugg),
    ensures
        run(pat, t, ps, ans) == run_with(pat, t, ps, known, sugg),
    decreases ps.len(),
{
    if ps.len() > 0 {
        let pps = ps.drop_last();
        let pans = ans.drop_last();
        assert(answers_agree(pat, pps, pans, known, sugg)) by {
            assert forall|i: int| 0 <= i < pps.len() && is_word_piece(pat, pps[i]) implies match #[trigger] pans[i] {
                Answer::Skipped => true,
                Answer::Checked(k) => k == known(pat.fold(pps[i]->Chunk_0)),
                Answer::Asked(s) => !known(pat.fold(pps[i]->Chunk_0)) && s == sugg(pat.fold(pps[i]->Chunk_0)),
            } by {
                assert(pps[i] == ps[i] && pans[i] == ans[i]);
            }
        }
        lemma_deterministic_oracle(pat, t, pps, pans, known, sugg);
        let prior = run(pat, t, pps, pans);
        let a = ans.last();
        let p = ps.last();
        assert(answer_fits(pat, p, a, prior.1));
        if is_word_piece(pat, p) {
            assert(ans[ps.len() - 1] == a && ps[ps.len() - 1] == p);
        }
    }
}

} // verus!
