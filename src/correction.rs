//! The correction engine: four heuristic rewrites of an out-of-vocabulary
//! word, tried in a fixed order against the oracle's suggestion list.
use vstd::prelude::*;
use crate::chars::{chars_of, copy_chars, same_chars, string_of};

verus! {

/// The uppercase mapping of a character (one or more characters).
pub uninterp spec fn upper_of(c: char) -> Seq<char>;

/// Relies on `char::to_uppercase`: the uppercase mapping of `c`, which is fixed
/// by the Unicode tables and holds one or more characters.
#[verifier::external_body]
fn uppercase_char(c: char) -> (r: Vec<char>)
    ensures
        r@ == upper_of(c),
        r@.len() >= 1,
{
    c.to_uppercase().collect()
}

/// The word with its first character replaced by the first character of its
/// uppercase mapping.
pub open spec fn capitalized(w: Seq<char>) -> Seq<char> {
    if w.len() == 0 || upper_of(w[0]).len() == 0 {
        w
    } else {
        w.update(0, upper_of(w[0])[0])
    }
}

/// Every character of the word replaced by its uppercase mapping.
pub open spec fn all_upper(w: Seq<char>) -> Seq<char>
    decreases w.len(),
{
    if w.len() == 0 {
        Seq::empty()
    } else {
        all_upper(w.drop_last()) + upper_of(w.last())
    }
}

/// The letters that an older spelling may still carry where the modern one
/// has dropped them.
pub open spec fn is_muted(c: char) -> bool {
    c == 'c' || c == 'p'
}

/// The accent table as a sequence of (from, to) pairs.
pub struct AccentTable {
    pub pairs: Vec<(char, char)>,
}

impl View for AccentTable {
    type V = Seq<(char, char)>;

    open spec fn view(&self) -> Seq<(char, char)> {
        self.pairs@
    }
}

/// The replacement that the first pair with key `c` gives, if any.
pub open spec fn accent_lookup(t: Seq<(char, char)>, c: char) -> Option<char>
    decreases t.len(),
{
    if t.len() == 0 {
        None
    } else if t[0].0 == c {
        Some(t[0].1)
    } else {
        accent_lookup(t.drop_first(), c)
    }
}

/// The first single removal of a muted interior letter, from position `i`
/// on, that the suggestions hold.
pub open spec fn first_elision(w: Seq<char>, sugg: Seq<Seq<char>>, i: int) -> Option<Seq<char>>
    decreases w.len() - i,
{
    if i < 1 || i + 1 >= w.len() {
        None
    } else if is_muted(w[i]) && sugg.contains(w.remove(i)) {
        Some(w.remove(i))
    } else {
        first_elision(w, sugg, i + 1)
    }
}

/// The first single accent substitution, from position `i` on, that the
/// suggestions hold.
pub open spec fn first_accent(
    w: Seq<char>,
    sugg: Seq<Seq<char>>,
    t: Seq<(char, char)>,
    i: int,
) -> Option<Seq<char>>
    decreases w.len() - i,
{
    if i < 0 || i >= w.len() {
        None
    } else if accent_lookup(t, w[i]) is Some && sugg.contains(
        w.update(i, accent_lookup(t, w[i])->0),
    ) {
        Some(w.update(i, accent_lookup(t, w[i])->0))
    } else {
        first_accent(w, sugg, t, i + 1)
    }
}

/// The correction given the capitalized and all-uppercase forms of the word:
/// the first heuristic whose rewrite the suggestions hold.
pub open spec fn correction_from(
    w: Seq<char>,
    cap: Seq<char>,
    upper: Seq<char>,
    sugg: Seq<Seq<char>>,
    t: Seq<(char, char)>,
) -> Option<Seq<char>> {
    if sugg.contains(cap) {
        Some(cap)
    } else if sugg.contains(upper) {
        Some(upper)
    } else if first_elision(w, sugg, 1) is Some {
        first_elision(w, sugg, 1)
    } else {
        first_accent(w, sugg, t, 0)
    }
}

/// The correction of a word against a suggestion list.
pub open spec fn correction(w: Seq<char>, sugg: Seq<Seq<char>>, t: Seq<(char, char)>) -> Option<
    Seq<char>,
> {
    correction_from(w, capitalized(w), all_upper(w), sugg, t)
}

/// The views of a list of words.
pub open spec fn words_view(v: Seq<Vec<char>>) -> Seq<Seq<char>> {
    v.map_values(|x: Vec<char>| x@)
}

/// The views of a list of strings.
pub open spec fn strings_view(v: Seq<String>) -> Seq<Seq<char>> {
    v.map_values(|x: String| x@)
}

/// Whether the suggestion list holds the word.
pub fn in_suggestions(w: &Vec<char>, sugg: &Vec<Vec<char>>) -> (r: bool)
    ensures
        r == words_view(sugg@).contains(w@),
{
    let mut i: usize = 0;
    while i < sugg.len()
        invariant
            i <= sugg@.len(),
            forall|k: int| 0 <= k < i ==> sugg@[k]@ != w@,
        decreases sugg@.len() - i,
    {
        if same_chars(&sugg[i], w) {
            assert(words_view(sugg@)[i as int] == w@);
            return true;
        }
        i = i + 1;
    }
    proof {
        if words_view(sugg@).contains(w@) {
            let k = choose|k: int| 0 <= k < words_view(sugg@).len() && words_view(sugg@)[k] == w@;
            assert(sugg@[k]@ == w@);
        }
    }
    false
}

impl AccentTable {
    /// An empty table.
    pub fn new() -> (r: AccentTable)
        ensures
            r@ == Seq::<(char, char)>::empty(),
    {
        AccentTable { pairs: Vec::new() }
    }

    /// Adds a substitution; an earlier pair for the same key takes precedence.
    pub fn add(&mut self, from: char, to: char)
        ensures
            final(self)@ == old(self)@.push((from, to)),
    {
        self.pairs.push((from, to));
    }

    /// The replacement for `c`, if the table has one.
    pub fn lookup(&self, c: char) -> (r: Option<char>)
        ensures
            r == accent_lookup(self@, c),
    {
        let mut i: usize = 0;
        assert(self@.subrange(0, self@.len() as int) =~= self@);
        while i < self.pairs.len()
            invariant
                i <= self@.len(),
                accent_lookup(self@, c) == accent_lookup(self@.subrange(i as int, self@.len() as int), c),
            decreases self@.len() - i,
        {
            let ghost rest = self@.subrange(i as int, self@.len() as int);
            assert(rest.drop_first() =~= self@.subrange(i + 1, self@.len() as int));
            if self.pairs[i].0 == c {
                return Some(self.pairs[i].1);
            }
            i = i + 1;
        }
        None
    }
}

/// The accent substitutions used for Portuguese text: accented vowels and
/// cedilla to their base letter, and some base letters to an accented form.
pub fn map_accents() -> (r: AccentTable)
    ensures
        r@ == seq![
            ('ê', 'e'), ('á', 'a'), ('à', 'a'), ('é', 'e'), ('e', 'é'), ('ã', 'a'), ('a', 'á'),
            ('â', 'a'), ('õ', 'o'), ('o', 'õ'), ('í', 'i'), ('i', 'í'), ('ç', 'c'), ('c', 'ç'),
        ],
{
    let mut t = AccentTable::new();
    t.add('ê', 'e');
    t.add('á', 'a');
    t.add('à', 'a');
    t.add('é', 'e');
    t.add('e', 'é');
    t.add('ã', 'a');
    t.add('a', 'á');
    t.add('â', 'a');
    t.add('õ', 'o');
    t.add('o', 'õ');
    t.add('í', 'i');
    t.add('i', 'í');
    t.add('ç', 'c');
    t.add('c', 'ç');
    assert(t@ =~= seq![
        ('ê', 'e'), ('á', 'a'), ('à', 'a'), ('é', 'e'), ('e', 'é'), ('ã', 'a'), ('a', 'á'),
        ('â', 'a'), ('õ', 'o'), ('o', 'õ'), ('í', 'i'), ('i', 'í'), ('ç', 'c'), ('c', 'ç'),
    ]);
    t
}

/// The word with its first character uppercased, as `capitalized` states.
fn capitalize(w: &Vec<char>) -> (r: Vec<char>)
    ensures
        r@ == capitalized(w@),
{
    let mut r = copy_chars(w);
    if r.len() > 0 {
        let up = uppercase_char(w[0]);
        r.set(0, up[0]);
    }
    r
}

/// Every character of the word uppercased, as `all_upper` states.
fn uppercase_all(w: &Vec<char>) -> (r: Vec<char>)
    ensures
        r@ == all_upper(w@),
{
    let mut r: Vec<char> = Vec::new();
    let mut i: usize = 0;
    while i < w.len()
        invariant
            i <= w@.len(),
            r@ == all_upper(w@.subrange(0, i as int)),
        decreases w@.len() - i,
    {
        let up = uppercase_char(w[i]);
        let mut j: usize = 0;
        let ghost before = r@;
        while j < up.len()
            invariant
                j <= up@.len(),
                r@ == before + up@.subrange(0, j as int),
            decreases up@.len() - j,
        {
            r.push(up[j]);
            j = j + 1;
            assert(r@ =~= before + up@.subrange(0, j as int));
        }
        assert(up@.subrange(0, up@.len() as int) =~= up@);
        assert(w@.subrange(0, i + 1).drop_last() =~= w@.subrange(0, i as int));
        i = i + 1;
    }
    assert(w@.subrange(0, w@.len() as int) =~= w@);
    r
}

/// The elision heuristic: the first single removal of a muted interior letter
/// that the suggestions hold.
fn try_elision(w: &Vec<char>, sugg: &Vec<Vec<char>>) -> (r: Option<Vec<char>>)
    ensures
        r matches Some(v) ==> first_elision(w@, words_view(sugg@), 1) == Some(v@),
        r is None ==> first_elision(w@, words_view(sugg@), 1) is None,
{
    let mut i: usize = 1;
    while i < w.len() && i + 1 < w.len()
        invariant
            1 <= i,
            first_elision(w@, words_view(sugg@), 1) == first_elision(w@, words_view(sugg@), i as int),
        decreases w@.len() - i,
    {
        if w[i] == 'c' || w[i] == 'p' {
            let mut cand = copy_chars(w);
            cand.remove(i);
            if in_suggestions(&cand, sugg) {
                return Some(cand);
            }
        }
        i = i + 1;
    }
    None
}

/// The accent heuristic: the first single accent substitution that the
/// suggestions hold.
fn try_accents(w: &Vec<char>, sugg: &Vec<Vec<char>>, accents: &AccentTable) -> (r: Option<Vec<char>>)
    ensures
        r matches Some(v) ==> first_accent(w@, words_view(sugg@), accents@, 0) == Some(v@),
        r is None ==> first_accent(w@, words_view(sugg@), accents@, 0) is None,
{
    let mut i: usize = 0;
    while i < w.len()
        invariant
            i <= w@.len(),
            first_accent(w@, words_view(sugg@), accents@, 0) == first_accent(w@, words_view(sugg@), accents@, i as int),
        decreases w@.len() - i,
    {
        if let Some(to) = accents.lookup(w[i]) {
            let mut cand = copy_chars(w);
            cand.set(i, to);
            if in_suggestions(&cand, sugg) {
                return Some(cand);
            }
        }
        i = i + 1;
    }
    None
}

/// The correction of `w`, given its capitalized form `cap` and its
/// all-uppercase form `upper`: the rewrite of the first heuristic that the
/// suggestions hold, or `None`.
pub fn correct_with_forms(
    w: &Vec<char>,
    cap: &Vec<char>,
    upper: &Vec<char>,
    sugg: &Vec<Vec<char>>,
    accents: &AccentTable,
) -> (r: Option<Vec<char>>)
    ensures
        r matches Some(v) ==> correction_from(w@, cap@, upper@, words_view(sugg@), accents@) == Some(v@),
        r is None ==> correction_from(w@, cap@, upper@, words_view(sugg@), accents@) is None,
{
    if in_suggestions(cap, sugg) {
        return Some(copy_chars(cap));
    }
    if in_suggestions(upper, sugg) {
        return Some(copy_chars(upper));
    }
    let e = try_elision(w, sugg);
    if e.is_some() {
        return e;
    }
    try_accents(w, sugg, accents)
}

/// The correction of an out-of-vocabulary word against the oracle's
/// suggestions, as `correction` states.
pub fn correct_word(w: &Vec<char>, sugg: &Vec<Vec<char>>, accents: &AccentTable) -> (r: Option<Vec<char>>)
    ensures
        r matches Some(v) ==> correction(w@, words_view(sugg@), accents@) == Some(v@),
        r is None ==> correction(w@, words_view(sugg@), accents@) is None,
{
    let cap = capitalize(w);
    let upper = uppercase_all(w);
    correct_with_forms(w, &cap, &upper, sugg, accents)
}

/// The suggestion strings as character vectors.
pub fn words_of_strings(v: &Vec<String>) -> (r: Vec<Vec<char>>)
    ensures
        words_view(r@) == strings_view(v@),
{
    let mut r: Vec<Vec<char>> = Vec::new();
    let mut i: usize = 0;
    while i < v.len()
        invariant
            i <= v@.len(),
            words_view(r@) == strings_view(v@.subrange(0, i as int)),
        decreases v@.len() - i,
    {
        let c = chars_of(v[i].as_str());
        assert(c@ == v@[i as int]@);
        let ghost old_r = r@;
        r.push(c);
        assert(words_view(r@) =~= words_view(old_r).push(c@));
        assert(strings_view(v@.subrange(0, i + 1)) =~= strings_view(v@.subrange(0, i as int)).push(v@[i as int]@));
        i = i + 1;
    }
    assert(v@.subrange(0, v@.len() as int) =~= v@);
    r
}

/// Spelling correction of an out-of-vocabulary word from an older
/// orthography: the capitalized word, the all-uppercase word, the word
/// with one muted interior `c` or `p` removed, or the word with one accent
/// substituted, whichever the suggestions hold first.
pub fn from_old_treaty_to_new_treaty_orthographic(
    word: &str,
    suggestion_vec: &Vec<String>,
    map_accents_p: &AccentTable,
) -> (r: Option<String>)
    ensures
        r matches Some(s) ==> correction(word@, strings_view(suggestion_vec@), map_accents_p@) == Some(s@),
        r is None ==> correction(word@, strings_view(suggestion_vec@), map_accents_p@) is None,
{
    let w = chars_of(word);
    let sugg = words_of_strings(suggestion_vec);
    match correct_word(&w, &sugg, map_accents_p) {
        Some(v) => Some(string_of(&v)),
        None => None,
    }
}

} // verus!
