use digrams::cache::{CacheEntry, CorrectionCache, Outcome};
use digrams::correction::correct_word;
use digrams::{from_old_treaty_to_new_treaty_orthographic, map_accents, AccentTable};

fn strings(v: &[&str]) -> Vec<String> {
    v.iter().map(|s| s.to_string()).collect()
}

fn correct(word: &str, sugg: &[&str]) -> Option<String> {
    from_old_treaty_to_new_treaty_orthographic(word, &strings(sugg), &map_accents())
}

#[test]
fn capitalized_suggestion_is_taken() {
    assert_eq!(correct("alemanha", &["Alemanha", "alemã"]), Some("Alemanha".to_string()));
}

#[test]
fn all_uppercase_suggestion_is_taken() {
    assert_eq!(correct("opec", &["open", "OPEC"]), Some("OPEC".to_string()));
}

#[test]
fn capitalization_wins_over_accent() {
    // "ana" -> "Ana" (capitalization) and "ana" -> "aná" (accent) are both offered.
    assert_eq!(correct("ana", &["aná", "Ana"]), Some("Ana".to_string()));
}

#[test]
fn single_muted_letter_is_removed() {
    assert_eq!(correct("acto", &["ato", "acho"]), Some("ato".to_string()));
    assert_eq!(correct("adopção", &["adoção"]), Some("adoção".to_string()));
}

#[test]
fn two_muted_letters_are_not_removed_together() {
    assert_eq!(correct("acpto", &["ato"]), None);
}

#[test]
fn first_and_last_letters_are_not_removed() {
    assert_eq!(correct("cato", &["ato"]), None);
    assert_eq!(correct("atop", &["ato"]), None);
}

#[test]
fn single_accent_is_substituted() {
    assert_eq!(correct("voce", &["você", "vocé"]), Some("vocé".to_string()));
    assert_eq!(correct("nação", &["nacão"]), Some("nacão".to_string()));
}

#[test]
fn two_accents_are_not_substituted_together() {
    assert_eq!(correct("acao", &["ação"]), None);
}

#[test]
fn no_heuristic_matches() {
    assert_eq!(correct("xpto", &["xeque", "ponto"]), None);
    assert_eq!(correct("xpto", &[]), None);
}

#[test]
fn empty_word_has_no_correction() {
    assert_eq!(correct("", &["a"]), None);
}

#[test]
fn uppercase_mapping_of_non_ascii_letters() {
    assert_eq!(correct("ávila", &["Ávila"]), Some("Ávila".to_string()));
    assert_eq!(correct("ção", &["ÇÃO"]), Some("ÇÃO".to_string()));
}

#[test]
fn accent_table_lookup() {
    let t = map_accents();
    assert_eq!(t.lookup('ê'), Some('e'));
    assert_eq!(t.lookup('c'), Some('ç'));
    assert_eq!(t.lookup('u'), None);
    let mut own = AccentTable::new();
    own.add('u', 'ú');
    own.add('u', 'ü');
    assert_eq!(own.lookup('u'), Some('ú'));
}

#[test]
fn correct_word_on_character_vectors() {
    let w: Vec<char> = "opec".chars().collect();
    let s: Vec<Vec<char>> = vec!["OPEC".chars().collect()];
    assert_eq!(correct_word(&w, &s, &map_accents()), Some("OPEC".chars().collect()));
    let e = CacheEntry::Resolved("x".chars().collect());
    assert!(matches!(e.duplicate(), CacheEntry::Resolved(v) if v == vec!['x']));
}

#[test]
fn cache_resolution_with_given_answers() {
    let mut cache = CorrectionCache::new();
    let t = map_accents();
    let w: Vec<char> = "acto".chars().collect();
    let ato: Vec<char> = "ato".chars().collect();
    let r = cache.resolve_with(&w, true, &vec![], &t);
    assert!(matches!(r, Outcome::Valid(v) if v == w));
    assert_eq!(cache.len(), 0);
    let r = cache.resolve_with(&w, false, &vec![ato.clone()], &t);
    assert!(matches!(r, Outcome::Corrected(v) if v == ato));
    assert_eq!(cache.len(), 1);
    // A later, different suggestion list does not change the cached outcome.
    let r = cache.resolve_with(&w, false, &vec![], &t);
    assert!(matches!(r, Outcome::Corrected(v) if v == ato));
    let x: Vec<char> = "xpto".chars().collect();
    let r = cache.resolve_with(&x, false, &vec!["ponto".chars().collect()], &t);
    assert!(matches!(r, Outcome::Unresolved(s) if s == vec!["ponto".chars().collect::<Vec<char>>()]));
    assert_eq!(cache.len(), 2);
}
