//! Timestamp bookkeeping of the scheduler benchmarks: timestamps are taken in
//! pairs (one per network function) and each pair gives one latency.
use vstd::prelude::*;

verus! {

/// The latency of one pair: the second stamp minus the first, or 0 if the
/// clock went backwards.
pub open spec fn pair_gap(first: u64, second: u64) -> u64 {
    if first > second {
        0
    } else {
        (second - first) as u64
    }
}

/// The latencies of consecutive pairs `(ts[0], ts[1]), (ts[2], ts[3]), ...`;
/// a last unpaired stamp is ignored.
pub fn timestamp_diffs(timestamps: &Vec<u64>) -> (diffs: Vec<u64>)
    ensures
        diffs@.len() == timestamps@.len() / 2,
        forall|i: int|
            0 <= i < diffs@.len() ==> #[trigger] diffs@[i] == pair_gap(
                timestamps@[2 * i],
                timestamps@[2 * i + 1],
            ),
{
    let len = timestamps.len();
    let pairs = len / 2;
    let mut diffs: Vec<u64> = Vec::new();
    let mut k: usize = 0;
    while k < pairs
        invariant
            len == timestamps@.len(),
            pairs == len / 2,
            k <= pairs,
            diffs@.len() == k,
            forall|i: int|
                0 <= i < k ==> #[trigger] diffs@[i] == pair_gap(
                    timestamps@[2 * i],
                    timestamps@[2 * i + 1],
                ),
        decreases pairs - k,
    {
        let a = timestamps[2 * k];
        let b = timestamps[2 * k + 1];
        let d: u64 = if a > b {
            0
        } else {
            b - a
        };
        diffs.push(d);
        k = k + 1;
    }
    diffs
}

/// The sum of the values, as a mathematical integer.
pub open spec fn sum(values: Seq<u64>) -> int
    decreases values.len(),
{
    if values.len() == 0 {
        0
    } else {
        sum(values.drop_last()) + values.last()
    }
}

/// The total of the latencies, the numerator of their mean: `None` when it
/// does not fit in a `u64` (summing them as `u64` overflows).
pub fn checked_total(data: &Vec<u64>) -> (total: Option<u64>)
    ensures
        total == (if sum(data@) <= u64::MAX {
            Some(sum(data@) as u64)
        } else {
            None
        }),
{
    let n = data.len();
    let mut acc: u64 = 0;
    let mut i: usize = 0;
    while i < n
        invariant
            n == data@.len(),
            i <= n,
            acc == sum(data@.take(i as int)),
        decreases n - i,
    {
        assert(data@.take(i + 1).drop_last() =~= data@.take(i as int));
        let x = data[i];
        match acc.checked_add(x) {
            Some(a) => {
                acc = a;
            },
            None => {
                proof {
                    lemma_sum_prefix_bounded(data@, i + 1);
                }
                return None;
            },
        }
        i = i + 1;
    }
    assert(data@.take(n as int) =~= data@);
    Some(acc)
}

/// A prefix never sums to more than the whole.
pub proof fn lemma_sum_prefix_bounded(values: Seq<u64>, k: int)
    requires
        0 <= k <= values.len(),
    ensures
        sum(values.take(k)) <= sum(values),
    decreases values.len() - k,
{
    if k < values.len() {
        lemma_sum_prefix_bounded(values, k + 1);
        assert(values.take(k + 1).drop_last() =~= values.take(k));
    } else {
        assert(values.take(k) =~= values);
    }
}

/// A latency added to the first stamp gives the second when the clock went
/// forwards; when it went backwards the latency is 0.
pub proof fn lemma_pair_gap(first: u64, second: u64)
    ensures
        first <= second ==> first + pair_gap(first, second) == second,
        first > second ==> pair_gap(first, second) == 0,
{
}

/// The sum of two sequences one after the other is the sum of their sums;
/// a single value sums to itself.
pub proof fn lemma_sum_concat(a: Seq<u64>, b: Seq<u64>)
    ensures
        sum(a + b) == sum(a) + sum(b),
        sum(Seq::<u64>::empty()) == 0,
    decreases b.len(),
{
    if b.len() > 0 {
        lemma_sum_concat(a, b.drop_last());
        assert((a + b).drop_last() =~= a + b.drop_last());
    } else {
        assert(a + b =~= a);
    }
}

/// A single value sums to itself.
pub proof fn lemma_sum_single(x: u64)
    ensures
        sum(seq![x]) == x,
{
    assert(seq![x].drop_last() =~= Seq::<u64>::empty());
    assert(sum(Seq::<u64>::empty()) == 0);
    assert(seq![x].last() == x);
}

} // verus!
