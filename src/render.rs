//! Decimal rendering of counts, the line format of a frequency table, and
//! digit grouping.
use vstd::prelude::*;
use crate::chars::{chars_of, push_all, string_of};
use crate::table::FreqTable;

verus! {

/// The character of a decimal digit.
pub open spec fn digit_char(d: nat) -> char {
    if d == 0 { '0' }
    else if d == 1 { '1' }
    else if d == 2 { '2' }
    else if d == 3 { '3' }
    else if d == 4 { '4' }
    else if d == 5 { '5' }
    else if d == 6 { '6' }
    else if d == 7 { '7' }
    else if d == 8 { '8' }
    else { '9' }
}

/// The decimal notation of `n`, without leading zeros.
pub open spec fn decimal(n: nat) -> Seq<char>
    decreases n,
{
    if n < 10 {
        seq![digit_char(n)]
    } else {
        decimal(n / 10).push(digit_char(n % 10))
    }
}

fn digit(d: u64) -> (r: char)
    requires
        d < 10,
    ensures
        r == digit_char(d as nat),
{
    if d == 0 { '0' }
    else if d == 1 { '1' }
    else if d == 2 { '2' }
    else if d == 3 { '3' }
    else if d == 4 { '4' }
    else if d == 5 { '5' }
    else if d == 6 { '6' }
    else if d == 7 { '7' }
    else if d == 8 { '8' }
    else { '9' }
}

/// The decimal notation of `n`.
pub fn decimal_chars(n: u64) -> (r: Vec<char>)
    ensures
        r@ == decimal(n as nat),
    decreases n,
{
    if n < 10 {
        let mut v: Vec<char> = Vec::new();
        v.push(digit(n));
        assert(v@ =~= seq![digit_char(n as nat)]);
        v
    } else {
        let mut v = decimal_chars(n / 10);
        v.push(digit(n % 10));
        v
    }
}

/// One line of a table listing: the key, a space, the count, a newline.
pub open spec fn table_line(key: Seq<char>, count: u64) -> Seq<char> {
    key + seq![' '] + decimal(count as nat) + seq!['\n']
}

/// The lines of a table listing, one per entry, in order.
pub open spec fn listing(keys: Seq<Seq<char>>, counts: Seq<u64>) -> Seq<char>
    decreases keys.len(),
{
    if keys.len() == 0 {
        Seq::empty()
    } else {
        listing(keys.drop_last(), counts.drop_last()) + table_line(keys.last(), counts[keys.len() - 1])
    }
}

/// The table as text: one `"<key> <count>\n"` line per entry, in key order.
#[allow(non_snake_case)]
pub fn make_string_from_BTreeHap(dic_word_freq: &FreqTable) -> (r: String)
    requires
        dic_word_freq.wf(),
    ensures
        r@ == listing(dic_word_freq.key_seq(), dic_word_freq.count_seq()),
{
    let n = dic_word_freq.len_entries();
    let mut out: Vec<char> = Vec::new();
    let mut i: usize = 0;
    while i < n
        invariant
            dic_word_freq.wf(),
            n == dic_word_freq.key_seq().len(),
            n == dic_word_freq.count_seq().len(),
            i <= n,
            out@ == listing(dic_word_freq.key_seq().subrange(0, i as int), dic_word_freq.count_seq().subrange(0, i as int)),
        decreases n - i,
    {
        let ghost ks = dic_word_freq.key_seq();
        let ghost cs = dic_word_freq.count_seq();
        let (k, c) = dic_word_freq.entry(i);
        push_all(&mut out, &k);
        out.push(' ');
        let d = decimal_chars(c);
        push_all(&mut out, &d);
        out.push('\n');
        proof {
            assert(ks.subrange(0, i + 1).drop_last() =~= ks.subrange(0, i as int));
            assert(cs.subrange(0, i + 1).drop_last() =~= cs.subrange(0, i as int));
            assert(out@ =~= listing(ks.subrange(0, i as int), cs.subrange(0, i as int)) + table_line(ks[i as int], cs[i as int]));
        }
        i = i + 1;
    }
    proof {
        assert(dic_word_freq.key_seq().subrange(0, i as int) =~= dic_word_freq.key_seq());
        assert(dic_word_freq.count_seq().subrange(0, i as int) =~= dic_word_freq.count_seq());
    }
    string_of(&out)
}

/// The first `j` characters of `s`, each followed by a '.' where a group of
/// three characters counted from the end begins after it.
pub open spec fn grouped(s: Seq<char>, j: int) -> Seq<char>
    decreases j,
{
    if j <= 0 {
        Seq::empty()
    } else {
        let rest = s.len() - j;
        let with_char = grouped(s, j - 1).push(s[j - 1]);
        if rest > 0 && rest % 3 == 0 {
            with_char.push('.')
        } else {
            with_char
        }
    }
}

/// Digit grouping: a '.' after every third character counted from the end,
/// none at the end (`"1234567"` gives `"1.234.567"`).
pub fn decimal_mark2(s: String) -> (r: String)
    ensures
        r@ == grouped(s@, s@.len() as int),
{
    let v = chars_of(s.as_str());
    let n = v.len();
    let mut out: Vec<char> = Vec::new();
    let mut j: usize = 0;
    while j < n
        invariant
            n == v@.len(),
            v@ == s@,
            j <= n,
            out@ == grouped(s@, j as int),
        decreases n - j,
    {
        out.push(v[j]);
        let rest = n - (j + 1);
        if rest > 0 && rest % 3 == 0 {
            out.push('.');
        }
        j = j + 1;
    }
    string_of(&out)
}

} // verus!
