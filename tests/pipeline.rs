use std::cell::Cell;

use digrams::cache::CacheEntry;
use digrams::lang::Lang;
use digrams::{count_words, map_accents, Lexicon, Pass, WordPattern};

struct FakeOracle {
    known: Vec<&'static str>,
    suggestions: Vec<(&'static str, Vec<&'static str>)>,
    calls: Cell<usize>,
    alternative: Option<Vec<&'static str>>,
}

impl FakeOracle {
    fn new(known: &[&'static str], suggestions: &[(&'static str, &[&'static str])]) -> FakeOracle {
        FakeOracle {
            known: known.to_vec(),
            suggestions: suggestions.iter().map(|(w, s)| (*w, s.to_vec())).collect(),
            calls: Cell::new(0),
            alternative: None,
        }
    }
}

impl Lexicon for FakeOracle {
    fn check(&self, word: &str) -> bool {
        self.known.contains(&word)
    }

    fn suggest(&self, word: &str) -> Vec<String> {
        self.calls.set(self.calls.get() + 1);
        if self.calls.get() > 1 {
            if let Some(alt) = &self.alternative {
                return alt.iter().map(|s| s.to_string()).collect();
            }
        }
        for (w, s) in &self.suggestions {
            if *w == word {
                return s.iter().map(|x| x.to_string()).collect();
            }
        }
        Vec::new()
    }
}

fn run(oracle: &FakeOracle, text: &str) -> Pass {
    count_words(oracle, text, WordPattern::new(Lang::PT), map_accents())
}

#[test]
fn end_to_end_sentence() {
    let oracle = FakeOracle::new(
        &["a", "e", "Alemanha", "OPEC"],
        &[("alemanha", &["Alemanha", "alemã"]), ("opec", &["OPEC"])],
    );
    let pass = run(&oracle, "A alemanha e a opec.");
    let w = pass.words();
    assert_eq!(w.get("a"), 2);
    assert_eq!(w.get("e"), 1);
    assert_eq!(w.get("Alemanha"), 1);
    assert_eq!(w.get("OPEC"), 1);
    assert_eq!(w.total(), 5);
    let p = pass.pairs();
    assert_eq!(p.get("a Alemanha"), 1);
    assert_eq!(p.get("Alemanha e"), 1);
    assert_eq!(p.get("e a"), 1);
    assert_eq!(p.get("a OPEC"), 1);
    assert_eq!(p.total(), 4);
    assert_eq!(pass.not_words().total(), 0);
    assert_eq!(pass.unresolved().total(), 0);
}

#[test]
fn repeated_unknown_word_is_suggested_once() {
    let oracle = FakeOracle::new(&["casa"], &[("acto", &["ato"])]);
    let pass = run(&oracle, "acto casa acto. acto acto");
    assert_eq!(oracle.calls.get(), 1);
    assert_eq!(pass.suggest_calls(), 1);
    assert_eq!(pass.cached_words(), 1);
    assert_eq!(pass.words().get("ato"), 4);
}

#[test]
fn repeated_unresolved_word_is_suggested_once() {
    let oracle = FakeOracle::new(&[], &[("xpto", &["ponto", "xeque"])]);
    let pass = run(&oracle, "xpto xpto xpto");
    assert_eq!(oracle.calls.get(), 1);
    assert_eq!(pass.unresolved().get("xpto -> ponto xeque"), 3);
    assert_eq!(pass.words().total(), 0);
}

#[test]
fn first_resolution_is_kept() {
    let mut oracle = FakeOracle::new(&[], &[("acto", &["ato"])]);
    oracle.alternative = Some(vec!["acto"]);
    let pass = run(&oracle, "acto rua acto");
    assert_eq!(pass.words().get("ato"), 2);
    assert!(matches!(pass.cached("acto"), Some(CacheEntry::Resolved(v)) if v == vec!['a', 't', 'o']));
    assert!(pass.cached("rua").is_some());
    assert!(pass.cached("nada").is_none());
}

#[test]
fn known_words_are_not_cached() {
    let oracle = FakeOracle::new(&["casa", "rua"], &[]);
    let pass = run(&oracle, "casa rua casa");
    assert_eq!(oracle.calls.get(), 0);
    assert_eq!(pass.cached_words(), 0);
}

#[test]
fn sentence_end_breaks_digrams() {
    let oracle = FakeOracle::new(&["casa", "rua"], &[]);
    let pass = run(&oracle, "casa. rua");
    assert_eq!(pass.pairs().get("casa rua"), 0);
    assert_eq!(pass.pairs().total(), 0);
    assert_eq!(pass.words().total(), 2);
}

#[test]
fn not_a_word_breaks_digrams() {
    let oracle = FakeOracle::new(&["casa", "rua"], &[]);
    let pass = run(&oracle, "casa xyz123 rua");
    assert_eq!(pass.pairs().get("casa rua"), 0);
    assert_eq!(pass.pairs().total(), 0);
    assert_eq!(pass.not_words().get("xyz123"), 1);
    assert_eq!(pass.not_words().total(), 1);
}

#[test]
fn unresolved_word_breaks_digrams() {
    let oracle = FakeOracle::new(&["casa", "rua"], &[("xpto", &[])]);
    let pass = run(&oracle, "casa xpto rua");
    assert_eq!(pass.pairs().total(), 0);
    assert_eq!(pass.unresolved().get("xpto -> "), 1);
}

#[test]
fn run_of_valid_words_gives_one_digram_less() {
    let oracle = FakeOracle::new(&["um", "dois", "tres", "quatro"], &[]);
    let pass = run(&oracle, "um dois tres quatro");
    assert_eq!(pass.words().total(), 4);
    assert_eq!(pass.pairs().total(), 3);
    assert_eq!(pass.pairs().get("dois tres"), 1);
}

#[test]
fn white_space_and_empty_sentences() {
    let oracle = FakeOracle::new(&["casa", "rua"], &[]);
    let pass = run(&oracle, "  casa\t\nrua\u{3000}casa ..  ");
    assert_eq!(pass.words().get("casa"), 2);
    assert_eq!(pass.pairs().get("casa rua"), 1);
    assert_eq!(pass.pairs().get("rua casa"), 1);
    let empty = run(&oracle, "");
    assert_eq!(empty.words().total(), 0);
}

#[test]
fn text_is_normalized_before_tokenizing() {
    // "e" followed by a combining acute accent composes to "é"; the "ﬁ" ligature decomposes.
    let oracle = FakeOracle::new(&["é", "fim"], &[]);
    let pass = run(&oracle, "e\u{301} \u{FB01}m");
    assert_eq!(pass.words().get("é"), 1);
    assert_eq!(pass.words().get("fim"), 1);
    assert_eq!(pass.not_words().total(), 0);
}

#[test]
fn first_cached_outcome_is_authoritative() {
    let mut oracle = FakeOracle::new(&[], &[("opec", &["OPEC"])]);
    oracle.alternative = Some(vec![]);
    let pass = run(&oracle, "opec opec opec.");
    assert_eq!(oracle.calls.get(), 1);
    assert_eq!(pass.words().get("OPEC"), 3);
    assert_eq!(pass.words().total(), 3);
    assert_eq!(pass.unresolved().total(), 0);
}

#[test]
fn partial_match_is_not_a_word() {
    let oracle = FakeOracle::new(&["casa"], &[]);
    let pass = run(&oracle, "casa xyz123.");
    assert_eq!(pass.words().get("casa"), 1);
    assert_eq!(pass.words().total(), 1);
    assert_eq!(pass.not_words().get("xyz123"), 1);
    assert_eq!(pass.unresolved().total(), 0);
    assert_eq!(oracle.calls.get(), 0);
}

#[test]
fn uppercase_accented_word_is_folded() {
    let oracle = FakeOracle::new(&["áfrica"], &[]);
    let pass = run(&oracle, "ÁFRICA.");
    assert_eq!(pass.words().get("áfrica"), 1);
    assert_eq!(pass.words().total(), 1);
}

#[test]
fn two_encodings_count_as_one_word() {
    let oracle = FakeOracle::new(&["café"], &[]);
    let pass = run(&oracle, "café cafe\u{301}.");
    assert_eq!(pass.words().get("café"), 2);
    assert_eq!(pass.words().total(), 2);
}

#[test]
fn unresolved_word_counted_each_time_and_breaks_chain() {
    let oracle = FakeOracle::new(&["casa", "rua"], &[("qwz", &["quiz"])]);
    let pass = run(&oracle, "qwz casa qwz rua.");
    assert_eq!(oracle.calls.get(), 1);
    assert_eq!(pass.unresolved().get("qwz -> quiz"), 2);
    assert_eq!(pass.words().total(), 2);
    assert_eq!(pass.words().get("qwz"), 0);
    assert_eq!(pass.pairs().total(), 0);
}

#[test]
fn long_s_and_kelvin_sign_fold_to_latin_letters() {
    let p = WordPattern::new(Lang::PT);
    let w: Vec<char> = "\u{17F}aber\u{212A}".chars().collect();
    assert_eq!(p.classify(&w), Some("saberk".chars().collect()));
}
