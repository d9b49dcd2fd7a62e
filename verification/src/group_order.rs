use vstd::prelude::*;

use crate::names::{compare_names, lemma_name_order, name_le, same_name, NameOrder};
use crate::tree::ProxyGroup;

verus! {

/// How often the group named `n` was used: the first entry of `freq` with that name.
pub open spec fn freq_of(freq: Seq<(String, usize)>, n: Seq<char>) -> Option<usize>
    decreases freq.len(),
{
    if freq.len() == 0 {
        None
    } else {
        match freq_of(freq.drop_last(), n) {
            Some(f) => Some(f),
            None => if freq.last().0@ == n {
                Some(freq.last().1)
            } else {
                None
            },
        }
    }
}

/// Whether `a` may come before `b`: groups with a frequency come first, the more frequent
/// before the less frequent; groups without one follow in name order.
pub open spec fn group_le(freq: Seq<(String, usize)>, a: ProxyGroup, b: ProxyGroup) -> bool {
    match (freq_of(freq, a.name@), freq_of(freq, b.name@)) {
        (Some(x), Some(y)) => x >= y,
        (Some(_), None) => true,
        (None, Some(_)) => false,
        (None, None) => name_le(a.name@, b.name@),
    }
}

/// `perm` lists, for each position of `out`, the position in `inp` that it came from.
pub open spec fn is_permutation(inp: Seq<ProxyGroup>, out: Seq<ProxyGroup>, perm: Seq<int>) -> bool {
    &&& out.len() == inp.len()
    &&& perm.len() == out.len()
    &&& forall|k: int| 0 <= k < perm.len() ==> 0 <= #[trigger] perm[k] < inp.len()
    &&& forall|k: int, l: int| 0 <= k < l < perm.len() ==> perm[k] != perm[l]
    &&& forall|k: int| 0 <= k < out.len() ==> #[trigger] out[k] == inp[perm[k]]
}

/// `out` is `inp` sorted by [`group_le`], groups that compare equal keeping their order.
pub open spec fn stably_sorted(
    freq: Seq<(String, usize)>,
    inp: Seq<ProxyGroup>,
    out: Seq<ProxyGroup>,
    perm: Seq<int>,
) -> bool {
    &&& is_permutation(inp, out, perm)
    &&& forall|k: int, l: int|
        0 <= k < l < out.len() ==> group_le(freq, #[trigger] out[k], #[trigger] out[l])
    &&& forall|k: int, l: int|
        0 <= k < l < out.len() && group_le(freq, out[l], out[k]) ==> #[trigger] perm[k]
            < #[trigger] perm[l]
}

/// [`group_le`] is a total preorder.
pub proof fn lemma_group_le(
    freq: Seq<(String, usize)>,
    a: ProxyGroup,
    b: ProxyGroup,
    c: ProxyGroup,
)
    ensures
        group_le(freq, a, a),
        group_le(freq, a, b) || group_le(freq, b, a),
        group_le(freq, a, b) && group_le(freq, b, c) ==> group_le(freq, a, c),
{
    lemma_name_order(a.name@, b.name@, c.name@);
}

/// The frequency of the group named `name`.
fn lookup_frequency(freq: &[(String, usize)], name: &str) -> (r: Option<usize>)
    ensures
        r == freq_of(freq@, name@),
{
    let mut i: usize = 0;
    while i < freq.len()
        invariant
            i <= freq@.len(),
            freq_of(freq@.take(i as int), name@) is None,
        decreases freq@.len() - i,
    {
        proof {
            assert(freq@.take(i + 1).drop_last() =~= freq@.take(i as int));
        }
        if same_name(freq[i].0.as_str(), name) {
            proof {
                lemma_freq_of_prefix(freq@, i as int + 1, name@);
            }
            return Some(freq[i].1);
        }
        i = i + 1;
    }
    assert(freq@.take(freq@.len() as int) =~= freq@);
    None
}

/// A frequency found in a prefix is the frequency of the whole list.
proof fn lemma_freq_of_prefix(freq: Seq<(String, usize)>, n: int, name: Seq<char>)
    requires
        0 <= n <= freq.len(),
        freq_of(freq.take(n), name) is Some,
    ensures
        freq_of(freq, name) == freq_of(freq.take(n), name),
    decreases freq.len(),
{
    if n < freq.len() {
        assert(freq.drop_last().take(n) =~= freq.take(n));
        lemma_freq_of_prefix(freq.drop_last(), n, name);
    } else {
        assert(freq.take(n) =~= freq);
    }
}

/// Whether `a` may come before `b`, as [`group_le`] says.
fn group_le_exec(freq: &[(String, usize)], a: &ProxyGroup, b: &ProxyGroup) -> (r: bool)
    ensures
        r == group_le(freq@, *a, *b),
{
    match (lookup_frequency(freq, a.name.as_str()), lookup_frequency(freq, b.name.as_str())) {
        (Some(x), Some(y)) => x >= y,
        (Some(_), None) => true,
        (None, Some(_)) => false,
        (None, None) => !matches!(compare_names(a.name.as_str(), b.name.as_str()), NameOrder::Greater),
    }
}

/// Sorts `groups` by [`group_le`], keeping groups that compare equal in their order.
pub fn sort_groups(groups: Vec<ProxyGroup>, freq: &[(String, usize)]) -> (r: Vec<ProxyGroup>)
    ensures
        exists|perm: Seq<int>| stably_sorted(freq@, groups@, r@, perm),
{
    let ghost inp = groups@;
    let mut rest = groups;
    let mut out: Vec<ProxyGroup> = Vec::new();
    let ghost mut perm: Seq<int> = Seq::empty();
    let mut t: usize = 0;
    assert(inp.len() == rest.len());
    while rest.len() > 0
        invariant
            inp.len() <= usize::MAX,
            t + rest@.len() == inp.len(),
            rest@ == inp.skip(t as int),
            stably_sorted(freq@, inp.take(t as int), out@, perm),
        decreases rest@.len(),
    {
        let x = rest.remove(0);
        proof {
            assert(x == inp[t as int]);
            assert(rest@ =~= inp.skip(t + 1));
        }
        // first position whose group must come after `x`
        let mut p: usize = 0;
        while p < out.len()
            invariant
                p <= out@.len(),
                forall|k: int| 0 <= k < p ==> group_le(freq@, #[trigger] out@[k], x),
            ensures
                p <= out@.len(),
                forall|k: int| 0 <= k < p ==> group_le(freq@, #[trigger] out@[k], x),
                p < out@.len() ==> !group_le(freq@, out@[p as int], x),
            decreases out@.len() - p,
        {
            if !group_le_exec(freq, &out[p], &x) {
                break ;
            }
            p = p + 1;
        }
        let ghost old_out = out@;
        let ghost old_perm = perm;
        out.insert(p, x);
        proof {
            perm = old_perm.insert(p as int, t as int);
            let inp1 = inp.take(t + 1);
            let o = out@;
            assert(o =~= old_out.insert(p as int, x));
            assert forall|k: int| 0 <= k < o.len() implies #[trigger] o[k] == inp1[perm[k]] by {
                if k < p {
                    assert(o[k] == old_out[k]);
                    assert(perm[k] == old_perm[k]);
                } else if k > p {
                    assert(o[k] == old_out[k - 1]);
                    assert(perm[k] == old_perm[k - 1]);
                }
            }
            assert forall|k: int| 0 <= k < perm.len() implies 0 <= #[trigger] perm[k] < inp1.len() by {
                if k < p {
                    assert(perm[k] == old_perm[k]);
                } else if k > p {
                    assert(perm[k] == old_perm[k - 1]);
                }
            }
            assert forall|k: int, l: int| 0 <= k < l < perm.len() implies perm[k] != perm[l] by {
                if k < p && l < p {
                    assert(perm[k] == old_perm[k] && perm[l] == old_perm[l]);
                } else if k < p && l > p {
                    assert(perm[k] == old_perm[k] && perm[l] == old_perm[l - 1]);
                } else if k > p && l > p {
                    assert(perm[k] == old_perm[k - 1] && perm[l] == old_perm[l - 1]);
                } else if k == p {
                    assert(perm[l] == old_perm[l - 1]);
                } else {
                    assert(perm[k] == old_perm[k]);
                }
            }
            // every group after the new one must come after it
            assert forall|k: int| p < k < o.len() implies group_le(freq@, x, o[k])
                && !group_le(freq@, o[k], x) by {
                lemma_group_le(freq@, old_out[p as int], x, x);
                if k - 1 > p {
                    assert(group_le(freq@, old_out[p as int], old_out[k - 1]));
                }
                lemma_group_le(freq@, x, old_out[p as int], old_out[k - 1]);
                lemma_group_le(freq@, old_out[p as int], old_out[k - 1], x);
            }
            assert forall|k: int, l: int| 0 <= k < l < o.len() implies group_le(
                freq@,
                #[trigger] o[k],
                #[trigger] o[l],
            ) by {
                if l < p {
                    assert(o[k] == old_out[k] && o[l] == old_out[l]);
                } else if k < p && l == p {
                    assert(o[k] == old_out[k]);
                } else if k < p && l > p {
                    assert(o[k] == old_out[k] && o[l] == old_out[l - 1]);
                    lemma_group_le(freq@, old_out[k], x, old_out[l - 1]);
                } else if k == p {
                } else {
                    assert(o[k] == old_out[k - 1] && o[l] == old_out[l - 1]);
                }
            }
            assert forall|k: int, l: int|
                0 <= k < l < o.len() && group_le(freq@, o[l], o[k]) implies #[trigger] perm[k]
                < #[trigger] perm[l] by {
                if l < p {
                    assert(o[k] == old_out[k] && o[l] == old_out[l]);
                    assert(perm[k] == old_perm[k] && perm[l] == old_perm[l]);
                } else if k < p && l == p {
                    assert(perm[k] == old_perm[k]);
                } else if k < p && l > p {
                    assert(o[k] == old_out[k] && o[l] == old_out[l - 1]);
                    assert(perm[k] == old_perm[k] && perm[l] == old_perm[l - 1]);
                } else if k == p {
                } else {
                    assert(o[k] == old_out[k - 1] && o[l] == old_out[l - 1]);
                    assert(perm[k] == old_perm[k - 1] && perm[l] == old_perm[l - 1]);
                }
            }
            assert(stably_sorted(freq@, inp1, o, perm));
        }
        t = t + 1;
    }
    assert(inp.take(inp.len() as int) =~= inp);
    out
}

/// After sorting, every group with a frequency comes before every group without one.
pub proof fn lemma_frequent_first(
    freq: Seq<(String, usize)>,
    inp: Seq<ProxyGroup>,
    out: Seq<ProxyGroup>,
    perm: Seq<int>,
)
    requires
        stably_sorted(freq, inp, out, perm),
    ensures
        forall|k: int, l: int|
            0 <= k < l < out.len() && freq_of(freq, (#[trigger] out[l]).name@) is Some
                ==> freq_of(freq, (#[trigger] out[k]).name@) is Some,
{
    assert forall|k: int, l: int|
        0 <= k < l < out.len() && freq_of(freq, (#[trigger] out[l]).name@) is Some
            implies freq_of(freq, (#[trigger] out[k]).name@) is Some by {
        assert(group_le(freq, out[k], out[l]));
    }
}

} // verus!
