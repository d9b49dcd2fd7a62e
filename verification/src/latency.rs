use vstd::prelude::*;

verus! {

/// The outcome of a latency test over several proxies.
#[derive(Debug, Clone, Copy, PartialEq, Eq, Structural)]
pub struct LatencySummary {
    pub succeeded: usize,
    pub failed: usize,
    /// The mean delay of the successful measurements, rounded down; none if none succeeded.
    pub average_delay: Option<u64>,
}

/// The delays that were measured, in order.
pub open spec fn measured(results: Seq<Option<u64>>) -> Seq<u64>
    decreases results.len(),
{
    if results.len() == 0 {
        Seq::empty()
    } else {
        measured(results.drop_last()) + match results.last() {
            Some(d) => seq![d],
            None => Seq::empty(),
        }
    }
}

/// The sum of `s`.
pub open spec fn total(s: Seq<u64>) -> nat
    decreases s.len(),
{
    if s.len() == 0 {
        0
    } else {
        total(s.drop_last()) + (s.last() as nat)
    }
}

proof fn lemma_total_prefix(s: Seq<u64>, n: int)
    requires
        0 <= n <= s.len(),
    ensures
        total(s.take(n)) <= total(s),
    decreases s.len() - n,
{
    if n < s.len() {
        lemma_total_prefix(s, n + 1);
        assert(s.take(n + 1).drop_last() =~= s.take(n));
    } else {
        assert(s.take(n) =~= s);
    }
}

proof fn lemma_measured_prefix(results: Seq<Option<u64>>, n: int)
    requires
        0 <= n <= results.len(),
    ensures
        measured(results.take(n)).len() <= measured(results).len(),
        measured(results.take(n)) == measured(results).take(measured(results.take(n)).len() as int),
    decreases results.len() - n,
{
    if n < results.len() {
        lemma_measured_prefix(results, n + 1);
        assert(results.take(n + 1).drop_last() =~= results.take(n));
        let a = measured(results.take(n));
        let b = measured(results.take(n + 1));
        assert(b.take(a.len() as int) =~= a);
        assert(measured(results).take(a.len() as int) =~= measured(results).take(
            b.len() as int,
        ).take(a.len() as int));
    } else {
        assert(results.take(n) =~= results);
        assert(measured(results).take(measured(results).len() as int) =~= measured(results));
    }
}

/// Counts the successful and failed measurements of a latency test (`None` is a failure)
/// and averages the successful delays.
pub fn summarize_latency(results: &[Option<u64>]) -> (r: LatencySummary)
    requires
        total(measured(results@)) <= u64::MAX,
    ensures
        r.succeeded == measured(results@).len(),
        r.failed == results@.len() - measured(results@).len(),
        r.average_delay == if measured(results@).len() == 0 {
            None::<u64>
        } else {
            Some((total(measured(results@)) / measured(results@).len()) as u64)
        },
{
    let mut succeeded: usize = 0;
    let mut sum: u64 = 0;
    let mut i: usize = 0;
    while i < results.len()
        invariant
            i <= results@.len(),
            total(measured(results@)) <= u64::MAX,
            succeeded == measured(results@.take(i as int)).len(),
            succeeded <= i,
            sum == total(measured(results@.take(i as int))),
        decreases results@.len() - i,
    {
        proof {
            assert(results@.take(i + 1).drop_last() =~= results@.take(i as int));
            assert(results@.take(i + 1).last() == results@[i as int]);
            lemma_measured_prefix(results@, i + 1);
            lemma_total_prefix(
                measured(results@),
                measured(results@.take(i + 1)).len() as int,
            );
        }
        match results[i] {
            Some(d) => {
                proof {
                    let m = measured(results@.take(i as int));
                    assert(measured(results@.take(i + 1)) == m.push(d));
                    assert(m.push(d).drop_last() =~= m);
                }
                sum = sum + d;
                succeeded = succeeded + 1;
            },
            None => {
                proof {
                    assert(measured(results@.take(i + 1)) =~= measured(results@.take(i as int)));
                }
            },
        }
        i = i + 1;
    }
    assert(results@.take(results@.len() as int) =~= results@);
    let average_delay = if succeeded == 0 {
        None
    } else {
        Some(sum / (succeeded as u64))
    };
    LatencySummary { succeeded, failed: results.len() - succeeded, average_delay }
}

} // verus!
