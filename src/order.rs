//! Lexicographic order on character sequences, by code point: the order in
//! which `String` keys sort.
use vstd::prelude::*;

verus! {

/// Whether `a` sorts strictly before `b`.
pub open spec fn key_lt(a: Seq<char>, b: Seq<char>) -> bool
    decreases a.len(),
{
    if a.len() == 0 {
        b.len() > 0
    } else if b.len() == 0 {
        false
    } else if a[0] != b[0] {
        (a[0] as u32) < (b[0] as u32)
    } else {
        key_lt(a.drop_first(), b.drop_first())
    }
}

/// No sequence sorts before itself.
pub proof fn lemma_key_lt_irreflexive(a: Seq<char>)
    ensures
        !key_lt(a, a),
    decreases a.len(),
{
    if a.len() > 0 {
        lemma_key_lt_irreflexive(a.drop_first());
    }
}

/// The order is transitive.
pub proof fn lemma_key_lt_transitive(a: Seq<char>, b: Seq<char>, c: Seq<char>)
    requires
        key_lt(a, b),
        key_lt(b, c),
    ensures
        key_lt(a, c),
    decreases a.len(),
{
    if a.len() > 0 && b.len() > 0 && c.len() > 0 {
        if a[0] == b[0] && b[0] == c[0] {
            lemma_key_lt_transitive(a.drop_first(), b.drop_first(), c.drop_first());
        }
    }
}

/// Any two distinct sequences are ordered one way or the other.
pub proof fn lemma_key_lt_total(a: Seq<char>, b: Seq<char>)
    requires
        !key_lt(a, b),
        !key_lt(b, a),
    ensures
        a == b,
    decreases a.len(),
{
    if a.len() > 0 && b.len() > 0 {
        if a[0] == b[0] {
            lemma_key_lt_total(a.drop_first(), b.drop_first());
            assert(a =~= seq![a[0]] + a.drop_first());
            assert(b =~= seq![b[0]] + b.drop_first());
        } else {
            vstd::utf8::char_u32_cast(a[0], a[0] as u32);
            vstd::utf8::char_u32_cast(b[0], b[0] as u32);
        }
    } else {
        assert(a =~= b);
    }
}

/// Compares two keys: negative when `a` sorts first, zero when equal,
/// positive when `b` sorts first.
pub fn compare_keys(a: &Vec<char>, b: &Vec<char>) -> (r: i8)
    ensures
        (r < 0) == key_lt(a@, b@),
        (r == 0) == (a@ == b@),
        (r > 0) == key_lt(b@, a@),
{
    let mut i: usize = 0;
    assert(a@.skip(0) =~= a@);
    assert(b@.skip(0) =~= b@);
    while i < a.len() && i < b.len()
        invariant
            i <= a@.len(),
            i <= b@.len(),
            a@.subrange(0, i as int) == b@.subrange(0, i as int),
            key_lt(a@, b@) == key_lt(a@.skip(i as int), b@.skip(i as int)),
            key_lt(b@, a@) == key_lt(b@.skip(i as int), a@.skip(i as int)),
        decreases a@.len() - i,
    {
        let x = a[i];
        let y = b[i];
        assert(a@.skip(i as int)[0] == x);
        assert(b@.skip(i as int)[0] == y);
        if x != y {
            assert(a@ != b@ ) by {
                if a@ == b@ {
                    assert(a@[i as int] == b@[i as int]);
                }
            }
            if (x as u32) < (y as u32) {
                return -1;
            } else {
                proof {
                    vstd::utf8::char_u32_cast(x, x as u32);
                    vstd::utf8::char_u32_cast(y, y as u32);
                }
                return 1;
            }
        }
        assert(a@.skip(i as int).drop_first() =~= a@.skip(i + 1));
        assert(b@.skip(i as int).drop_first() =~= b@.skip(i + 1));
        assert(a@.subrange(0, i + 1) =~= a@.subrange(0, i as int).push(x));
        assert(b@.subrange(0, i + 1) =~= b@.subrange(0, i as int).push(y));
        i = i + 1;
    }
    if a.len() == b.len() {
        assert(a@ =~= a@.subrange(0, i as int));
        assert(b@ =~= b@.subrange(0, i as int));
        proof { lemma_key_lt_irreflexive(a@); }
        0
    } else if a.len() < b.len() {
        assert(a@.skip(i as int).len() == 0);
        assert(a@ != b@);
        -1
    } else {
        assert(b@.skip(i as int).len() == 0);
        assert(a@ != b@);
        1
    }
}

/// Whether the keys stand in strictly increasing order.
pub open spec fn sorted_keys(keys: Seq<Vec<char>>) -> bool {
    forall|i: int, j: int| 0 <= i < j < keys.len() ==> key_lt(#[trigger] keys[i]@, #[trigger] keys[j]@)
}

/// Where `key` stands among sorted keys: `(true, i)` if it is the key at `i`,
/// else `(false, i)` with `i` the position that keeps the order.
pub fn find_key(keys: &Vec<Vec<char>>, key: &Vec<char>) -> (r: (bool, usize))
    requires
        sorted_keys(keys@),
    ensures
        r.1 <= keys@.len(),
        r.0 ==> r.1 < keys@.len() && keys@[r.1 as int]@ == key@,
        !r.0 ==> forall|i: int| 0 <= i < r.1 ==> key_lt(#[trigger] keys@[i]@, key@),
        !r.0 ==> forall|i: int| r.1 <= i < keys@.len() ==> key_lt(key@, #[trigger] keys@[i]@),
        !r.0 ==> forall|i: int| 0 <= i < keys@.len() ==> #[trigger] keys@[i]@ != key@,
{
    let mut lo: usize = 0;
    let mut hi: usize = keys.len();
    while lo < hi
        invariant
            sorted_keys(keys@),
            lo <= hi <= keys@.len(),
            forall|i: int| 0 <= i < lo ==> key_lt(#[trigger] keys@[i]@, key@),
            forall|i: int| hi <= i < keys@.len() ==> key_lt(key@, #[trigger] keys@[i]@),
        decreases hi - lo,
    {
        let mid = lo + (hi - lo) / 2;
        let c = compare_keys(&keys[mid], key);
        if c == 0 {
            return (true, mid);
        } else if c < 0 {
            assert forall|i: int| 0 <= i < mid + 1 implies key_lt(#[trigger] keys@[i]@, key@) by {
                if i < mid {
                    lemma_key_lt_transitive(keys@[i]@, keys@[mid as int]@, key@);
                }
            }
            lo = mid + 1;
        } else {
            assert forall|i: int| mid <= i < keys@.len() implies key_lt(key@, #[trigger] keys@[i]@) by {
                if i > mid {
                    lemma_key_lt_transitive(key@, keys@[mid as int]@, keys@[i]@);
                }
            }
            hi = mid;
        }
    }
    assert forall|i: int| 0 <= i < keys@.len() implies #[trigger] keys@[i]@ != key@ by {
        lemma_key_lt_irreflexive(key@);
    }
    (false, lo)
}

/// Inserting a key at the position that `find_key` gives keeps the order.
pub proof fn lemma_insert_sorted(keys: Seq<Vec<char>>, i: int, k: Vec<char>)
    requires
        sorted_keys(keys),
        0 <= i <= keys.len(),
        forall|j: int| 0 <= j < i ==> key_lt(#[trigger] keys[j]@, k@),
        forall|j: int| i <= j < keys.len() ==> key_lt(k@, #[trigger] keys[j]@),
    ensures
        sorted_keys(keys.insert(i, k)),
{
    let nk = keys.insert(i, k);
    assert forall|a: int, b: int| 0 <= a < b < nk.len() implies key_lt(#[trigger] nk[a]@, #[trigger] nk[b]@) by {
        if a < i && b > i {
            assert(nk[a] == keys[a]);
            assert(nk[b] == keys[b - 1]);
        } else if a < i && b < i {
            assert(nk[a] == keys[a]);
            assert(nk[b] == keys[b]);
        } else if a > i {
            assert(nk[a] == keys[a - 1]);
            assert(nk[b] == keys[b - 1]);
        } else if a == i {
            assert(nk[b] == keys[b - 1]);
        } else {
            assert(nk[a] == keys[a]);
        }
    }
}

} // verus!
