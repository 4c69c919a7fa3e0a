use vstd::prelude::*;

use crate::engine::Batch;

verus! {

/// `s` followed by copies of `zero` up to length `n` (unchanged when it is
/// already at least that long).
pub open spec fn padded<T>(s: Seq<T>, n: nat, zero: T) -> Seq<T> {
    if s.len() >= n {
        s
    } else {
        s + Seq::new((n - s.len()) as nat, |i: int| zero)
    }
}

/// The larger of two lengths.
pub open spec fn common_len(a: nat, b: nat) -> nat {
    if a >= b {
        a
    } else {
        b
    }
}

/// Appends copies of `zero` to `v` until it holds `n` values.
fn pad_to<T: Copy>(v: &mut Vec<T>, n: usize, zero: T)
    ensures
        final(v)@ == padded(old(v)@, n as nat, zero),
{
    if v.len() >= n {
        return;
    }
    let start: usize = v.len();
    let ghost orig = v@;
    while v.len() < n
        invariant
            start == orig.len(),
            start < n,
            start <= v@.len() <= n,
            v@ == orig + Seq::new((v@.len() - start) as nat, |i: int| zero),
        decreases n - v@.len(),
    {
        v.push(zero);
        assert(v@ =~= orig + Seq::new((v@.len() - start) as nat, |i: int| zero));
    }
}

/// Zero-pads the shorter of the two buffers at its end, so that both have
/// the length of the longer one. A transform of equal-length signals then
/// gives the correlation at every lag from zero up to that length.
pub fn align<T: Copy>(batch: Batch<T>, zero: T) -> (r: Batch<T>)
    ensures
        r.reference@ == padded(
            batch.reference@,
            common_len(batch.reference@.len(), batch.captured@.len()),
            zero,
        ),
        r.captured@ == padded(
            batch.captured@,
            common_len(batch.reference@.len(), batch.captured@.len()),
            zero,
        ),
        r.reference@.len() == r.captured@.len(),
        r.reference@.len() == common_len(batch.reference@.len(), batch.captured@.len()),
{
    let Batch { mut reference, mut captured } = batch;
    let n = if reference.len() >= captured.len() {
        reference.len()
    } else {
        captured.len()
    };
    pad_to(&mut reference, n, zero);
    pad_to(&mut captured, n, zero);
    Batch { reference, captured }
}

/// The value at lag `k` of a correlation sequence of `points`-point signals,
/// laid out with lag zero at index `points - 1`.
pub open spec fn at_lag(keys: Seq<i32>, points: nat, k: int) -> i32 {
    keys[points - 1 + k]
}

/// Whether `l` is the first non-negative lag where the correlation takes its
/// largest value over the non-negative lags, and that value is above zero.
pub open spec fn is_peak_lag(keys: Seq<i32>, points: nat, l: int) -> bool {
    &&& 0 <= l < points
    &&& at_lag(keys, points, l) > 0
    &&& forall|k: int| 0 <= k < points ==> at_lag(keys, points, k) <= at_lag(keys, points, l)
    &&& forall|k: int| 0 <= k < l ==> at_lag(keys, points, k) < at_lag(keys, points, l)
}

/// Where the correlation is above zero at lag `d` and strictly smaller at
/// every other non-negative lag, `d` is the one peak lag. This is the shape of
/// a signal's correlation with itself (`d` zero) or with a copy of itself
/// delayed by `d` samples; that the transform gives this shape is a property
/// of its floating-point values, which this statement takes as given.
pub proof fn lemma_strict_maximum_is_peak(keys: Seq<i32>, points: nat, d: int)
    requires
        0 <= d < points,
        at_lag(keys, points, d) > 0,
        forall|k: int| 0 <= k < points && k != d ==> at_lag(keys, points, k) < at_lag(keys, points, d),
    ensures
        forall|l: int| is_peak_lag(keys, points, l) <==> l == d,
{
    assert forall|l: int| is_peak_lag(keys, points, l) implies l == d by {
        if l != d {
            assert(at_lag(keys, points, d) <= at_lag(keys, points, l));
        }
    }
}

/// Finds the lag of the strongest match in a correlation sequence of
/// `2 * points - 1` values whose order is that of `keys`, lag zero standing
/// at index `points - 1`. Only lags from zero to `points - 1` are searched.
/// Ties go to the smallest lag. `None` when no value there is above zero.
pub fn peak_lag(keys: &Vec<i32>, points: usize) -> (r: Option<usize>)
    requires
        points >= 1,
        keys@.len() == 2 * points - 1,
    ensures
        r is None <==> forall|k: int| 0 <= k < points ==> at_lag(keys@, points as nat, k) <= 0,
        r matches Some(l) ==> is_peak_lag(keys@, points as nat, l as int),
{
    let base: usize = points - 1;
    let n: usize = keys.len();
    let mut best: Option<usize> = None;
    let mut best_key: i32 = 0;
    let mut k: usize = 0;
    while k < points
        invariant
            base == points - 1,
            n == keys@.len(),
            keys@.len() == 2 * points - 1,
            0 <= k <= points,
            best is None ==> best_key == 0 && forall|j: int| 0 <= j < k ==> at_lag(keys@, points as nat, j) <= 0,
            best matches Some(l) ==> {
                &&& l < k
                &&& best_key == at_lag(keys@, points as nat, l as int)
                &&& best_key > 0
                &&& forall|j: int| 0 <= j < k ==> at_lag(keys@, points as nat, j) <= best_key
                &&& forall|j: int| 0 <= j < l ==> at_lag(keys@, points as nat, j) < best_key
            },
        decreases points - k,
    {
        let v = keys[base + k];
        if v > best_key {
            best = Some(k);
            best_key = v;
        }
        k = k + 1;
    }
    best
}

} // verus!
