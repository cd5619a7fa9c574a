//! The tokenizer: sentences split on '.', chunks split on white space, and a
//! per-language word pattern (a letter set and an interior delimiter).
use vstd::prelude::*;
use crate::chars::chars_of;

verus! {

/// The language variants that have a word pattern.
pub enum Lang {
    PT,
    EN,
}

/// Lowercase letters of the Portuguese word pattern.
pub open spec fn pt_lower() -> Seq<char> {
    "abcdefghijklmnopqrstuvwxyzãõàáéíóúâêôçsk"@
}

/// Their other-case counterparts, position by position (the long s and the
/// Kelvin sign fold to 's' and 'k', as Unicode simple case folding has it).
pub open spec fn pt_upper() -> Seq<char> {
    "ABCDEFGHIJKLMNOPQRSTUVWXYZÃÕÀÁÉÍÓÚÂÊÔÇſK"@
}

/// Lowercase letters of the English word pattern.
pub open spec fn en_lower() -> Seq<char> {
    "abcdefghijklmnopqrstuvwxyzsk"@
}

/// Their other-case counterparts, position by position (the long s and the
/// Kelvin sign fold to 's' and 'k', as Unicode simple case folding has it).
pub open spec fn en_upper() -> Seq<char> {
    "ABCDEFGHIJKLMNOPQRSTUVWXYZſK"@
}

/// A word pattern: runs of letters, matched without regard to case, joined
/// by single interior delimiters. `lower[i]` and `upper[i]` are the two cases
/// of one letter.
pub struct WordPattern {
    pub lower: Vec<char>,
    pub upper: Vec<char>,
    pub delimiter: char,
}

/// Whether `c` is a letter of the pattern, in either case.
pub open spec fn is_letter(lower: Seq<char>, upper: Seq<char>, c: char) -> bool {
    lower.contains(c) || upper.contains(c)
}

/// The counterpart of the first uppercase letter, from position `i` on, that
/// equals `c`; `c` itself where there is none.
pub open spec fn lower_from(lower: Seq<char>, upper: Seq<char>, c: char, i: int) -> char
    decreases upper.len() - i,
{
    if i < 0 || i >= upper.len() || i >= lower.len() {
        c
    } else if upper[i] == c {
        lower[i]
    } else {
        lower_from(lower, upper, c, i + 1)
    }
}

/// The lowercase form of a character of a word: a lowercase letter stays, an
/// uppercase letter becomes its counterpart, anything else stays.
pub open spec fn fold_char(lower: Seq<char>, upper: Seq<char>, c: char) -> char {
    if lower.contains(c) {
        c
    } else {
        lower_from(lower, upper, c, 0)
    }
}

/// Whether the whole chunk matches the pattern: non-empty, every character a
/// letter or a delimiter that stands between two letters.
pub open spec fn is_word(lower: Seq<char>, upper: Seq<char>, delim: char, w: Seq<char>) -> bool {
    &&& w.len() > 0
    &&& forall|i: int|
        0 <= i < w.len() ==> is_letter(lower, upper, #[trigger] w[i]) || (w[i] == delim && 0 < i
            < w.len() - 1 && is_letter(lower, upper, w[i - 1]) && is_letter(lower, upper, w[i + 1]))
}

/// The chunk with every character folded to lowercase.
pub open spec fn folded(lower: Seq<char>, upper: Seq<char>, w: Seq<char>) -> Seq<char> {
    w.map_values(|c: char| fold_char(lower, upper, c))
}

/// Unicode white space (the `White_Space` property), which separates chunks.
pub open spec fn is_white(c: char) -> bool {
    let u = c as u32;
    (9 <= u <= 13) || u == 32 || u == 0x85 || u == 0xA0 || u == 0x1680 || (0x2000 <= u <= 0x200A)
        || u == 0x2028 || u == 0x2029 || u == 0x202F || u == 0x205F || u == 0x3000
}

/// Whether `c` separates chunks.
pub fn is_white_char(c: char) -> (r: bool)
    ensures
        r == is_white(c),
{
    let u = c as u32;
    (9 <= u && u <= 13) || u == 32 || u == 0x85 || u == 0xA0 || u == 0x1680 || (0x2000 <= u && u
        <= 0x200A) || u == 0x2028 || u == 0x2029 || u == 0x202F || u == 0x205F || u == 0x3000
}

/// A piece of the text: a chunk between separators, or the end of a sentence.
pub enum Piece {
    Chunk(Seq<char>),
    Stop,
}

/// The pieces so far, with the pending chunk appended if it is not empty.
pub open spec fn flush(ps: Seq<Piece>, cur: Seq<char>) -> Seq<Piece> {
    if cur.len() == 0 {
        ps
    } else {
        ps.push(Piece::Chunk(cur))
    }
}

/// The pieces of the first `i` characters of the text, and the chunk still
/// pending after them. A '.' ends the pending chunk and the sentence; white
/// space ends the pending chunk; any other character extends it.
pub open spec fn scan(text: Seq<char>, i: int) -> (Seq<Piece>, Seq<char>)
    decreases i,
{
    if i <= 0 {
        (Seq::empty(), Seq::empty())
    } else {
        let (ps, cur) = scan(text, i - 1);
        let c = text[i - 1];
        if c == '.' {
            (flush(ps, cur).push(Piece::Stop), Seq::empty())
        } else if is_white(c) {
            (flush(ps, cur), Seq::empty())
        } else {
            (ps, cur.push(c))
        }
    }
}

/// The pieces of the whole text: its sentences split on '.', each split into
/// chunks on white space, with a `Stop` after each '.'.
pub open spec fn pieces(text: Seq<char>) -> Seq<Piece> {
    flush(scan(text, text.len() as int).0, scan(text, text.len() as int).1)
}

/// Whether the vector holds `c`.
pub fn contains_char(v: &Vec<char>, c: char) -> (r: bool)
    ensures
        r == v@.contains(c),
{
    let mut i: usize = 0;
    while i < v.len()
        invariant
            i <= v@.len(),
            forall|k: int| 0 <= k < i ==> v@[k] != c,
        decreases v@.len() - i,
    {
        if v[i] == c {
            assert(v@[i as int] == c);
            return true;
        }
        i = i + 1;
    }
    false
}

impl WordPattern {
    /// Both cases are given for each letter.
    pub open spec fn wf(&self) -> bool {
        self.lower@.len() == self.upper@.len()
    }

    /// Whether `w` matches this pattern as a whole.
    pub open spec fn matches(&self, w: Seq<char>) -> bool {
        is_word(self.lower@, self.upper@, self.delimiter, w)
    }

    /// The lowercase form of `w` under this pattern's letters.
    pub open spec fn fold(&self, w: Seq<char>) -> Seq<char> {
        folded(self.lower@, self.upper@, w)
    }

    /// Whether `c` is a letter of this pattern.
    pub fn is_letter_char(&self, c: char) -> (r: bool)
        ensures
            r == is_letter(self.lower@, self.upper@, c),
    {
        contains_char(&self.lower, c) || contains_char(&self.upper, c)
    }

    /// The lowercase form of one character.
    pub fn fold_one(&self, c: char) -> (r: char)
        ensures
            r == fold_char(self.lower@, self.upper@, c),
    {
        if contains_char(&self.lower, c) {
            return c;
        }
        let mut i: usize = 0;
        while i < self.upper.len() && i < self.lower.len()
            invariant
                !self.lower@.contains(c),
                lower_from(self.lower@, self.upper@, c, 0) == lower_from(self.lower@, self.upper@, c, i as int),
            decreases self.upper@.len() - i,
        {
            if self.upper[i] == c {
                return self.lower[i];
            }
            i = i + 1;
        }
        c
    }

    /// The lowercase form of a chunk that matches the pattern, or `None` for
    /// a chunk that does not match it as a whole.
    pub fn classify(&self, chunk: &Vec<char>) -> (r: Option<Vec<char>>)
        ensures
            r is Some == self.matches(chunk@),
            r matches Some(w) ==> w@ == self.fold(chunk@),
    {
        let n = chunk.len();
        if n == 0 {
            return None;
        }
        let mut out: Vec<char> = Vec::new();
        let mut i: usize = 0;
        while i < n
            invariant
                n == chunk@.len(),
                i <= n,
                out@ == folded(self.lower@, self.upper@, chunk@.subrange(0, i as int)),
                forall|k: int|
                    0 <= k < i ==> is_letter(self.lower@, self.upper@, #[trigger] chunk@[k]) || (chunk@[k]
                        == self.delimiter && 0 < k < n - 1 && is_letter(self.lower@, self.upper@, chunk@[k - 1])
                        && is_letter(self.lower@, self.upper@, chunk@[k + 1])),
            decreases n - i,
        {
            let c = chunk[i];
            if !self.is_letter_char(c) {
                let ok = c == self.delimiter && i > 0 && i + 1 < n && self.is_letter_char(chunk[i - 1])
                    && self.is_letter_char(chunk[i + 1]);
                if !ok {
                    assert(!is_word(self.lower@, self.upper@, self.delimiter, chunk@) ) by {
                        assert(!(is_letter(self.lower@, self.upper@, chunk@[i as int]) || (chunk@[i as int]
                            == self.delimiter && 0 < i < n - 1 && is_letter(self.lower@, self.upper@, chunk@[i - 1])
                            && is_letter(self.lower@, self.upper@, chunk@[i + 1]))));
                    }
                    return None;
                }
            }
            out.push(self.fold_one(c));
            proof {
                assert(folded(self.lower@, self.upper@, chunk@.subrange(0, i + 1)) =~= folded(self.lower@, self.upper@, chunk@.subrange(0, i as int)).push(fold_char(self.lower@, self.upper@, c)));
            }
            i = i + 1;
        }
        assert(chunk@.subrange(0, n as int) =~= chunk@);
        Some(out)
    }

    /// The word pattern of a language: for Portuguese the Latin letters with
    /// the Portuguese accented letters, joined by '-'; for English the Latin
    /// letters, joined by '\''.
    pub fn new(lang: Lang) -> (r: WordPattern)
        ensures
            r.wf(),
            lang is PT ==> r.lower@ == pt_lower() && r.upper@ == pt_upper() && r.delimiter == '-',
            lang is EN ==> r.lower@ == en_lower() && r.upper@ == en_upper() && r.delimiter == '\'',
    {
        match lang {
            Lang::PT => {
                proof {
                    reveal_strlit("abcdefghijklmnopqrstuvwxyzãõàáéíóúâêôçsk");
                    reveal_strlit("ABCDEFGHIJKLMNOPQRSTUVWXYZÃÕÀÁÉÍÓÚÂÊÔÇſK");
                }
                WordPattern { lower: chars_of("abcdefghijklmnopqrstuvwxyzãõàáéíóúâêôçsk"), upper: chars_of("ABCDEFGHIJKLMNOPQRSTUVWXYZÃÕÀÁÉÍÓÚÂÊÔÇſK"), delimiter: '-' }
            },
            Lang::EN => {
                proof {
                    reveal_strlit("abcdefghijklmnopqrstuvwxyzsk");
                    reveal_strlit("ABCDEFGHIJKLMNOPQRSTUVWXYZſK");
                }
                WordPattern { lower: chars_of("abcdefghijklmnopqrstuvwxyzsk"), upper: chars_of("ABCDEFGHIJKLMNOPQRSTUVWXYZſK"), delimiter: '\'' }
            },
        }
    }
}

} // verus!
