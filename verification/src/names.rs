use vstd::prelude::*;
use vstd::std_specs::iter::IteratorSpec;

verus! {

/// Outcome of comparing two names.
#[derive(Debug, Clone, Copy, PartialEq, Eq, Structural)]
pub enum NameOrder {
    Less,
    Equal,
    Greater,
}

/// Strict lexicographic order on names, char by char by code point; for UTF-8 text this is
/// the byte-wise order that `String`'s `Ord` uses.
pub open spec fn name_lt(a: Seq<char>, b: Seq<char>) -> bool {
    exists|k: int|
        #![trigger a.take(k), b.take(k)]
        0 <= k <= a.len() && k <= b.len() && a.take(k) == b.take(k) && (
        (k == a.len() && k < b.len()) || (k < a.len() && k < b.len() && a[k] < b[k]))
}

/// Non-strict version of [`name_lt`].
pub open spec fn name_le(a: Seq<char>, b: Seq<char>) -> bool {
    a == b || name_lt(a, b)
}

proof fn lemma_common_prefix(a: Seq<char>, b: Seq<char>, k: int, j: int)
    requires
        0 <= j <= k <= a.len(),
        k <= b.len(),
        a.take(k) == b.take(k),
    ensures
        a.take(j) == b.take(j),
        forall|i: int| 0 <= i < k ==> a[i] == b[i],
{
    assert forall|i: int| 0 <= i < k implies a[i] == b[i] by {
        assert(a.take(k)[i] == a[i]);
        assert(b.take(k)[i] == b[i]);
        assert(a.take(k)[i] == b.take(k)[i]);
    }
    assert(a.take(j) =~= b.take(j));
}

/// The order is irreflexive, total and transitive.
pub proof fn lemma_name_order(a: Seq<char>, b: Seq<char>, c: Seq<char>)
    ensures
        !name_lt(a, a),
        a == b || name_lt(a, b) || name_lt(b, a),
        !(name_lt(a, b) && name_lt(b, a)),
        name_lt(a, b) && name_lt(b, c) ==> name_lt(a, c),
{
    lemma_name_trichotomy(a, b);
    if name_lt(a, a) {
        let k = choose|k: int|
            #![trigger a.take(k), a.take(k)]
            0 <= k <= a.len() && k <= a.len() && a.take(k) == a.take(k) && ((k == a.len() && k
                < a.len()) || (k < a.len() && k < a.len() && a[k] < a[k]));
        assert(false);
    }
    if name_lt(a, b) && name_lt(b, a) {
        let k1 = choose|k: int|
            #![trigger a.take(k), b.take(k)]
            0 <= k <= a.len() && k <= b.len() && a.take(k) == b.take(k) && ((k == a.len() && k
                < b.len()) || (k < a.len() && k < b.len() && a[k] < b[k]));
        let k2 = choose|k: int|
            #![trigger b.take(k), a.take(k)]
            0 <= k <= b.len() && k <= a.len() && b.take(k) == a.take(k) && ((k == b.len() && k
                < a.len()) || (k < b.len() && k < a.len() && b[k] < a[k]));
        if k1 < k2 {
            lemma_common_prefix(b, a, k2, k2);
            assert(a[k1] == b[k1]);
        } else if k2 < k1 {
            lemma_common_prefix(a, b, k1, k1);
            assert(a[k2] == b[k2]);
        }
    }
    if name_lt(a, b) && name_lt(b, c) {
        let k1 = choose|k: int|
            #![trigger a.take(k), b.take(k)]
            0 <= k <= a.len() && k <= b.len() && a.take(k) == b.take(k) && ((k == a.len() && k
                < b.len()) || (k < a.len() && k < b.len() && a[k] < b[k]));
        let k2 = choose|k: int|
            #![trigger b.take(k), c.take(k)]
            0 <= k <= b.len() && k <= c.len() && b.take(k) == c.take(k) && ((k == b.len() && k
                < c.len()) || (k < b.len() && k < c.len() && b[k] < c[k]));
        let k = if k1 < k2 { k1 } else { k2 };
        lemma_common_prefix(a, b, k1, k);
        lemma_common_prefix(b, c, k2, k);
        assert(a.take(k) =~= c.take(k));
        if k1 < k2 {
            lemma_common_prefix(b, c, k2, k2);
        } else if k2 < k1 {
            lemma_common_prefix(a, b, k1, k1);
        }
        assert(name_lt(a, c));
    }
}

proof fn lemma_name_trichotomy(a: Seq<char>, b: Seq<char>)
    ensures
        a == b || name_lt(a, b) || name_lt(b, a),
{
    if a != b {
        // the first position where they differ, or the shorter length
        let m = if a.len() < b.len() { a.len() as int } else { b.len() as int };
        if exists|i: int| 0 <= i < m && a[i] != b[i] {
            let i0 = choose|i: int| 0 <= i < m && a[i] != b[i];
            let k = first_difference(a, b, i0);
            assert(a.take(k) =~= b.take(k));
            if a[k] < b[k] {
                assert(name_lt(a, b));
            } else {
                assert(b.take(k) == a.take(k));
                assert(name_lt(b, a));
            }
        } else {
            assert(a.take(m) =~= b.take(m));
            if a.len() == b.len() {
                assert(a =~= b);
            } else if a.len() < b.len() {
                assert(name_lt(a, b));
            } else {
                assert(b.take(m) == a.take(m));
                assert(name_lt(b, a));
            }
        }
    }
}

/// The least index at which `a` and `b` differ, given that they differ at `i`.
proof fn first_difference(a: Seq<char>, b: Seq<char>, i: int) -> (k: int)
    requires
        0 <= i < a.len(),
        i < b.len(),
        a[i] != b[i],
    ensures
        0 <= k <= i,
        a[k] != b[k],
        forall|j: int| 0 <= j < k ==> a[j] == b[j],
    decreases i,
{
    if exists|j: int| 0 <= j < i && a[j] != b[j] {
        let j = choose|j: int| 0 <= j < i && a[j] != b[j];
        first_difference(a, b, j)
    } else {
        i
    }
}

/// Compares two names in the order of [`name_lt`].
pub fn compare_names(a: &str, b: &str) -> (r: NameOrder)
    ensures
        r is Less <==> name_lt(a@, b@),
        r is Equal <==> a@ == b@,
        r is Greater <==> name_lt(b@, a@),
{
    proof {
        lemma_name_order(a@, b@, b@);
    }
    let mut ia = a.chars();
    let mut ib = b.chars();
    let ghost mut k: int = 0;
    loop
        invariant
            0 <= k <= a@.len(),
            k <= b@.len(),
            a@.take(k) == b@.take(k),
            ia.remaining() == a@.skip(k),
            ib.remaining() == b@.skip(k),
            ia.obeys_prophetic_iter_laws(),
            ib.obeys_prophetic_iter_laws(),
            !name_lt(a@, b@) || !name_lt(b@, a@),
            a@ == b@ || name_lt(a@, b@) || name_lt(b@, a@),
        decreases a@.len() - k,
    {
        let ca = ia.next();
        let cb = ib.next();
        match (ca, cb) {
            (None, None) => {
                assert(a@ =~= a@.take(k));
                assert(b@ =~= b@.take(k));
                return NameOrder::Equal;
            },
            (None, Some(_)) => {
                assert(a@ =~= a@.take(k));
                assert(name_lt(a@, b@));
                return NameOrder::Less;
            },
            (Some(_), None) => {
                assert(b@ =~= b@.take(k));
                assert(b@.take(k) == a@.take(k));
                assert(name_lt(b@, a@));
                return NameOrder::Greater;
            },
            (Some(x), Some(y)) => {
                assert(x == a@[k]);
                assert(y == b@[k]);
                if x < y {
                    assert(name_lt(a@, b@));
                    return NameOrder::Less;
                } else if y < x {
                    assert(b@.take(k) == a@.take(k));
                    assert(name_lt(b@, a@));
                    return NameOrder::Greater;
                }
                proof {
                    assert(x == y);
                    assert(a@.take(k + 1) =~= a@.take(k).push(x));
                    assert(b@.take(k + 1) =~= b@.take(k).push(y));
                    assert(a@.skip(k).drop_first() =~= a@.skip(k + 1));
                    assert(b@.skip(k).drop_first() =~= b@.skip(k + 1));
                    k = k + 1;
                }
            },
        }
    }
}

/// Whether two names are the same text.
pub fn same_name(a: &str, b: &str) -> (r: bool)
    ensures
        r == (a@ == b@),
{
    let o = compare_names(a, b);
    matches!(o, NameOrder::Equal)
}

} // verus!
