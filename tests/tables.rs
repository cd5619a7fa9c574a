use digrams::lang::Lang;
use digrams::{decimal_mark2, make_string_from_BTreeHap, time_it, FreqTable, WordPattern};

fn key(s: &str) -> Vec<char> {
    s.chars().collect()
}

#[test]
fn table_counts_and_orders_keys() {
    let mut t = FreqTable::new();
    t.add(&key("rua"));
    t.add(&key("casa"));
    t.add(&key("rua"));
    t.add(&key("árvore"));
    t.add(&key("Casa"));
    assert_eq!(t.get("rua"), 2);
    assert_eq!(t.get("casa"), 1);
    assert_eq!(t.get("nada"), 0);
    assert_eq!(t.total(), 5);
    assert_eq!(t.len(), 4);
    let keys: Vec<String> = t.entries().into_iter().map(|(k, _)| k).collect();
    assert_eq!(keys, vec!["Casa", "casa", "rua", "árvore"]);
}

#[test]
fn table_text_lines() {
    let mut t = FreqTable::new();
    t.add(&key("b"));
    t.add(&key("a"));
    t.add(&key("b"));
    for _ in 0..12 {
        t.add(&key("c d"));
    }
    assert_eq!(make_string_from_BTreeHap(&t), "a 1\nb 2\nc d 12\n");
    assert_eq!(make_string_from_BTreeHap(&FreqTable::new()), "");
}

#[test]
fn digit_grouping() {
    assert_eq!(decimal_mark2("1234567".to_string()), "1.234.567");
    assert_eq!(decimal_mark2("1234".to_string()), "1.234");
    assert_eq!(decimal_mark2("123".to_string()), "123");
    assert_eq!(decimal_mark2("123456".to_string()), "123.456");
    assert_eq!(decimal_mark2("".to_string()), "");
}

#[test]
fn word_pattern_portuguese() {
    let p = WordPattern::new(Lang::PT);
    assert_eq!(p.classify(&key("Ação")), Some(key("ação")));
    assert_eq!(p.classify(&key("AÇÃO")), Some(key("ação")));
    assert_eq!(p.classify(&key("guarda-chuva")), Some(key("guarda-chuva")));
    assert_eq!(p.classify(&key("bem-vindo-seja")), Some(key("bem-vindo-seja")));
    assert_eq!(p.classify(&key("xyz123")), None);
    assert_eq!(p.classify(&key("-ab")), None);
    assert_eq!(p.classify(&key("ab-")), None);
    assert_eq!(p.classify(&key("a--b")), None);
    assert_eq!(p.classify(&key("don't")), None);
    assert_eq!(p.classify(&key("")), None);
}

#[test]
fn word_pattern_english() {
    let p = WordPattern::new(Lang::EN);
    assert_eq!(p.classify(&key("Don't")), Some(key("don't")));
    assert_eq!(p.classify(&key("well-known")), None);
    assert_eq!(p.classify(&key("ação")), None);
}

#[test]
fn time_it_returns_the_result() {
    let (r, _elapsed) = time_it(|| 6 * 7);
    assert_eq!(r, 42);
}
