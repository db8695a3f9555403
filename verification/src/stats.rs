//! Statistics over a sequence of samples: minimum, maximum, average, median and
//! jitter.
//!
//! Samples are measured on an unsigned integer scale (their magnitude). Averages
//! are exact fractions, so no statistic is rounded.

use vstd::prelude::*;
use vstd::relations::{sorted_by, total_ordering};
use vstd::seq_lib::{lemma_sorted_unique, to_multiset_build, to_multiset_insert, to_multiset_len};

verus! {

/// A sample type: a value with a magnitude on a common unsigned scale.
pub trait Measurable: Copy {
    /// The magnitude by which samples are ordered and added.
    spec fn magnitude(&self) -> u64;

    /// The magnitude, computed.
    fn measure(&self) -> (m: u64)
        ensures
            m == self.magnitude(),
    ;

    /// A value that no sample lies below.
    fn min_value() -> (r: Self)
        ensures
            forall|x: Self| r.magnitude() <= #[trigger] x.magnitude(),
    ;

    /// A value that no sample lies above.
    fn max_value() -> (r: Self)
        ensures
            forall|x: Self| #[trigger] x.magnitude() <= r.magnitude(),
    ;

    /// The value of magnitude zero.
    fn zero_value() -> (r: Self)
        ensures
            r.magnitude() == 0,
    ;
}

impl Measurable for u64 {
    open spec fn magnitude(&self) -> u64 {
        *self
    }

    fn measure(&self) -> (m: u64) {
        *self
    }

    fn min_value() -> (r: Self) {
        0u64
    }

    fn max_value() -> (r: Self) {
        u64::MAX
    }

    fn zero_value() -> (r: Self) {
        0u64
    }
}

impl Measurable for u32 {
    open spec fn magnitude(&self) -> u64 {
        *self as u64
    }

    fn measure(&self) -> (m: u64) {
        *self as u64
    }

    fn min_value() -> (r: Self) {
        0u32
    }

    fn max_value() -> (r: Self) {
        u32::MAX
    }

    fn zero_value() -> (r: Self) {
        0u32
    }
}

/// An exact non-negative fraction, `numerator / denominator`.
#[derive(Clone, Copy, Debug, PartialEq, Eq, Structural)]
pub struct Ratio {
    pub numerator: u128,
    pub denominator: u64,
}

impl Ratio {
    /// A fraction has a positive denominator.
    pub open spec fn wf(self) -> bool {
        self.denominator > 0
    }

    /// The fraction is no smaller than the integer `v`.
    pub open spec fn at_least(self, v: int) -> bool {
        v * self.denominator <= self.numerator
    }

    /// The fraction is no larger than the integer `v`.
    pub open spec fn at_most(self, v: int) -> bool {
        self.numerator <= v * self.denominator
    }

    /// The fraction in hundredths of `unit`, rounded to the nearest, halves
    /// upwards.
    pub open spec fn hundredths(self, unit: u32) -> nat {
        ((200 * self.numerator + self.denominator * unit) / (2 * self.denominator * unit)) as nat
    }

    /// The rounding of `hundredths` can be computed in 128 bits.
    pub open spec fn roundable(self, unit: u32) -> bool {
        200 * self.numerator + self.denominator * unit <= u128::MAX
    }

    /// The fraction in hundredths of `unit`, rounded to the nearest; `None`
    /// where the numerator is too large for the rounding.
    pub fn rounded_hundredths(&self, unit: u32) -> (r: Option<u128>)
        requires
            self.wf(),
            unit > 0,
        ensures
            r is Some <==> self.roundable(unit),
            r matches Some(h) ==> h == self.hundredths(unit),
    {
        proof {
            assert(0 < self.denominator * unit <= 0xffff_ffff_ffff_ffff * 0xffff_ffff)
                by (nonlinear_arith)
                requires
                    0 < self.denominator <= 0xffff_ffff_ffff_ffff,
                    0 < unit <= 0xffff_ffff,
            ;
        }
        let d: u128 = self.denominator as u128 * unit as u128;
        if self.numerator > (u128::MAX - d) / 200 {
            return None;
        }
        let doubled: u128 = 2 * d;
        proof {
            assert(2 * self.denominator * unit == 2 * (self.denominator * unit))
                by (nonlinear_arith);
        }
        Some((200 * self.numerator + d) / doubled)
    }
}

/// The magnitudes of a sequence of samples, in order.
pub open spec fn magnitudes<T: Measurable>(s: Seq<T>) -> Seq<u64> {
    Seq::new(s.len(), |i: int| s[i].magnitude())
}

/// `m` occurs in `s` and nothing in `s` is smaller.
pub open spec fn is_lowest(s: Seq<u64>, m: u64) -> bool {
    &&& exists|i: int| 0 <= i < s.len() && s[i] == m
    &&& forall|j: int| 0 <= j < s.len() ==> m <= s[j]
}

/// `m` occurs in `s` and nothing in `s` is larger.
pub open spec fn is_highest(s: Seq<u64>, m: u64) -> bool {
    &&& exists|i: int| 0 <= i < s.len() && s[i] == m
    &&& forall|j: int| 0 <= j < s.len() ==> s[j] <= m
}

/// `i` is the first place at which `s` holds `m`.
pub open spec fn first_at(s: Seq<u64>, m: u64, i: int) -> bool {
    &&& 0 <= i < s.len()
    &&& s[i] == m
    &&& forall|j: int| 0 <= j < i ==> s[j] != m
}

/// The sum of a sequence.
pub open spec fn total(s: Seq<u64>) -> nat
    decreases s.len(),
{
    if s.len() == 0 {
        0
    } else {
        total(s.drop_last()) + s.last() as nat
    }
}

/// The sequence in ascending order.
pub open spec fn ascending(s: Seq<u64>) -> Seq<u64> {
    s.sort_by(leq())
}

/// The order `<=` of magnitudes, as a relation.
pub open spec fn leq() -> spec_fn(u64, u64) -> bool {
    |a: u64, b: u64| a <= b
}

/// The absolute differences between neighbours, in order.
pub open spec fn steps(s: Seq<u64>) -> Seq<u64> {
    Seq::new(
        if s.len() >= 1 { (s.len() - 1) as nat } else { 0 },
        |i: int| if s[i] > s[i + 1] { (s[i] - s[i + 1]) as u64 } else { (s[i + 1] - s[i]) as u64 },
    )
}

/// `q` is the sum of `s` over its length.
pub open spec fn is_average(s: Seq<u64>, q: Ratio) -> bool {
    &&& q.numerator == total(s)
    &&& q.denominator == s.len()
}

/// `q` is the middle of `s` in ascending order: the central element of an odd
/// number, half the sum of the two central elements of an even number.
pub open spec fn is_median(s: Seq<u64>, q: Ratio) -> bool {
    let a = ascending(s);
    let n = s.len() as int;
    if n % 2 == 1 {
        q.numerator == a[n / 2] && q.denominator == 1
    } else {
        q.numerator == a[n / 2 - 1] + a[n / 2] && q.denominator == 2
    }
}

/// `q` is the average of the absolute differences between neighbours in `s`.
pub open spec fn is_jitter(s: Seq<u64>, q: Ratio) -> bool {
    is_average(steps(s), q)
}

/// The smallest sample, the first of them where several are equal; `None`
/// where there is no sample.
pub fn minimum<T: Measurable>(iterable: Vec<T>) -> (r: Option<T>)
    ensures
        r is None <==> iterable@.len() == 0,
        r matches Some(m) ==> is_lowest(magnitudes(iterable@), m.magnitude()) && exists|i: int|
            first_at(magnitudes(iterable@), m.magnitude(), i) && iterable@[i] == m,
{
    if iterable.len() == 0 {
        return None;
    }
    let ghost mags = magnitudes(iterable@);
    let mut at: usize = 0;
    let mut md: T = iterable[0];
    let mut i: usize = 1;
    while i < iterable.len()
        invariant
            1 <= i <= iterable@.len(),
            mags == magnitudes(iterable@),
            0 <= at < i,
            md == iterable@[at as int],
            forall|j: int| 0 <= j < i ==> mags[at as int] <= mags[j],
            forall|j: int| 0 <= j < at ==> mags[j] != mags[at as int],
        decreases iterable@.len() - i,
    {
        let d: T = iterable[i];
        if d.measure() < md.measure() {
            md = d;
            at = i;
        }
        i += 1;
    }
    proof {
        assert(first_at(mags, md.magnitude(), at as int));
    }
    Some(md)
}

/// The largest sample, the first of them where several are equal; `None` where
/// there is no sample.
pub fn maximum<T: Measurable>(iterable: Vec<T>) -> (r: Option<T>)
    ensures
        r is None <==> iterable@.len() == 0,
        r matches Some(m) ==> is_highest(magnitudes(iterable@), m.magnitude()) && exists|i: int|
            first_at(magnitudes(iterable@), m.magnitude(), i) && iterable@[i] == m,
{
    if iterable.len() == 0 {
        return None;
    }
    let ghost mags = magnitudes(iterable@);
    let mut at: usize = 0;
    let mut md: T = iterable[0];
    let mut i: usize = 1;
    while i < iterable.len()
        invariant
            1 <= i <= iterable@.len(),
            mags == magnitudes(iterable@),
            0 <= at < i,
            md == iterable@[at as int],
            forall|j: int| 0 <= j < i ==> mags[j] <= mags[at as int],
            forall|j: int| 0 <= j < at ==> mags[j] != mags[at as int],
        decreases iterable@.len() - i,
    {
        let d: T = iterable[i];
        if d.measure() > md.measure() {
            md = d;
            at = i;
        }
        i += 1;
    }
    proof {
        assert(first_at(mags, md.magnitude(), at as int));
    }
    Some(md)
}

/// A sum lies between its length times a lower bound of its elements and its
/// length times an upper bound of them.
pub proof fn lemma_total_bounds(s: Seq<u64>, lo: int, hi: int)
    requires
        forall|j: int| 0 <= j < s.len() ==> lo <= #[trigger] s[j] && s[j] <= hi,
    ensures
        lo * s.len() <= total(s) <= hi * s.len(),
    decreases s.len(),
{
    if s.len() > 0 {
        let rest = s.drop_last();
        lemma_total_bounds(rest, lo, hi);
        assert(lo * s.len() == lo * rest.len() + lo) by (nonlinear_arith)
            requires
                s.len() == rest.len() + 1,
        ;
        assert(hi * s.len() == hi * rest.len() + hi) by (nonlinear_arith)
            requires
                s.len() == rest.len() + 1,
        ;
    }
}

/// The sum of all samples over their number; `None` where there is no sample.
pub fn average<T: Measurable>(iterable: Vec<T>) -> (r: Option<Ratio>)
    ensures
        r is None <==> iterable@.len() == 0,
        r matches Some(q) ==> q.wf() && is_average(magnitudes(iterable@), q),
{
    let n: usize = iterable.len();
    if n == 0 {
        return None;
    }
    let ghost mags = magnitudes(iterable@);
    let mut sum: u128 = 0;
    let mut i: usize = 0;
    while i < n
        invariant
            0 <= i <= n,
            n == iterable@.len(),
            mags == magnitudes(iterable@),
            sum == total(mags.take(i as int)),
            sum <= i * u64::MAX,
        decreases n - i,
    {
        let m: u64 = iterable[i].measure();
        proof {
            assert(mags.take(i + 1).drop_last() == mags.take(i as int));
            assert((i + 1) * u64::MAX == i * u64::MAX + u64::MAX) by (nonlinear_arith);
            assert(i * u64::MAX <= usize::MAX * u64::MAX) by (nonlinear_arith)
                requires
                    i <= usize::MAX,
            ;
        }
        sum = sum + m as u128;
        i += 1;
    }
    proof {
        assert(mags.take(n as int) == mags);
    }
    Some(Ratio { numerator: sum, denominator: n as u64 })
}

/// The magnitudes of the samples, in order.
fn measures<T: Measurable>(v: &Vec<T>) -> (out: Vec<u64>)
    ensures
        out@ == magnitudes(v@),
{
    let mut out: Vec<u64> = Vec::new();
    let mut i: usize = 0;
    while i < v.len()
        invariant
            0 <= i <= v@.len(),
            out@.len() == i,
            forall|j: int| 0 <= j < i ==> out@[j] == (#[trigger] v@[j]).magnitude(),
        decreases v@.len() - i,
    {
        out.push(v[i].measure());
        i += 1;
    }
    proof {
        assert(out@ =~= magnitudes(v@));
    }
    out
}

/// The magnitudes of `u64` samples are the samples themselves.
pub proof fn lemma_magnitudes_of_u64(s: Seq<u64>)
    ensures
        magnitudes(s) == s,
{
    assert(magnitudes(s) =~= s);
}

/// A copy in ascending order, built by inserting each element in its place.
fn sorted_copy(v: &Vec<u64>) -> (out: Vec<u64>)
    ensures
        out@ == ascending(v@),
        out@.len() == v@.len(),
{
    let mut out: Vec<u64> = Vec::new();
    let mut k: usize = 0;
    proof {
        assert(out@ =~= v@.take(0));
    }
    while k < v.len()
        invariant
            0 <= k <= v@.len(),
            out@.len() == k,
            sorted_by(out@, leq()),
            out@.to_multiset() == v@.take(k as int).to_multiset(),
        decreases v@.len() - k,
    {
        let x: u64 = v[k];
        let mut pos: usize = 0;
        while pos < out.len() && out[pos] <= x
            invariant
                0 <= pos <= out@.len(),
                forall|j: int| 0 <= j < pos ==> out@[j] <= x,
            decreases out@.len() - pos,
        {
            pos += 1;
        }
        let ghost before = out@;
        out.insert(pos, x);
        proof {
            to_multiset_insert(before, pos as int, x);
            assert(v@.take(k + 1) == v@.take(k as int).push(x));
            to_multiset_build(v@.take(k as int), x);
            assert forall|i: int, j: int| 0 <= i < j < out@.len() implies #[trigger] leq()(
                out@[i],
                out@[j],
            ) by {
                if j < pos {
                    assert(leq()(before[i], before[j]));
                } else if j == pos {
                } else if i < pos {
                    assert(leq()(before[i], before[j - 1]));
                } else if i == pos {
                    if j - 1 > pos {
                        assert(leq()(before[pos as int], before[j - 1]));
                    }
                } else {
                    assert(leq()(before[i - 1], before[j - 1]));
                }
            }
        }
        k += 1;
    }
    proof {
        assert(v@.take(v@.len() as int) == v@);
        assert(total_ordering(leq()));
        v@.lemma_sort_by_ensures(leq());
        lemma_sorted_unique(out@, ascending(v@), leq());
    }
    out
}

/// The middle sample in ascending order, as a fraction: the central one of an
/// odd number of samples, half the sum of the two central ones of an even
/// number; `None` where there is no sample.
pub fn median<T: Measurable>(iterable: Vec<T>) -> (r: Option<Ratio>)
    ensures
        r is None <==> iterable@.len() == 0,
        r matches Some(q) ==> q.wf() && is_median(magnitudes(iterable@), q),
{
    let l: usize = iterable.len();
    if l == 0 {
        return None;
    }
    let mags = measures(&iterable);
    let dd = sorted_copy(&mags);
    if l % 2 == 0 {
        Some(Ratio { numerator: dd[l / 2 - 1] as u128 + dd[l / 2] as u128, denominator: 2 })
    } else {
        Some(Ratio { numerator: dd[l / 2] as u128, denominator: 1 })
    }
}

/// The average absolute difference between neighbouring samples, in the order
/// in which they were taken; `None` where there are fewer than two samples.
pub fn jitter<T: Measurable>(iterable: Vec<T>) -> (r: Option<Ratio>)
    ensures
        r is None <==> iterable@.len() < 2,
        r matches Some(q) ==> q.wf() && is_jitter(magnitudes(iterable@), q),
{
    let mags = measures(&iterable);
    if mags.len() < 2 {
        return None;
    }
    let mut jj: Vec<u64> = Vec::new();
    let mut i: usize = 1;
    while i < mags.len()
        invariant
            1 <= i <= mags@.len(),
            jj@.len() == i - 1,
            forall|k: int| 0 <= k < i - 1 ==> jj@[k] == steps(mags@)[k],
        decreases mags@.len() - i,
    {
        if mags[i - 1] > mags[i] {
            jj.push(mags[i - 1] - mags[i]);
        } else {
            jj.push(mags[i] - mags[i - 1]);
        }
        i += 1;
    }
    proof {
        assert(jj@ =~= steps(mags@));
        lemma_magnitudes_of_u64(jj@);
    }
    average(jj)
}

/// The average lies between the smallest and the largest sample.
pub proof fn lemma_average_between(s: Seq<u64>, lo: u64, hi: u64, q: Ratio)
    requires
        s.len() > 0,
        is_lowest(s, lo),
        is_highest(s, hi),
        is_average(s, q),
    ensures
        q.at_least(lo as int),
        q.at_most(hi as int),
{
    lemma_total_bounds(s, lo as int, hi as int);
}

/// The median lies between the smallest and the largest sample.
pub proof fn lemma_median_between(s: Seq<u64>, lo: u64, hi: u64, q: Ratio)
    requires
        s.len() > 0,
        is_lowest(s, lo),
        is_highest(s, hi),
        is_median(s, q),
    ensures
        q.at_least(lo as int),
        q.at_most(hi as int),
{
    let a = ascending(s);
    s.lemma_sort_by_ensures(leq());
    to_multiset_len(s);
    to_multiset_len(a);
    assert forall|k: int| 0 <= k < a.len() implies lo <= #[trigger] a[k] && a[k] <= hi by {
        assert(a.contains(a[k]));
        assert(s.contains(a[k]));
    }
    let n = s.len() as int;
    if n % 2 == 1 {
        assert(lo <= a[n / 2] && a[n / 2] <= hi);
    } else {
        assert(lo <= a[n / 2] && a[n / 2] <= hi);
        assert(lo <= a[n / 2 - 1] && a[n / 2 - 1] <= hi);
    }
}

/// The smallest sample is no larger than the largest.
pub proof fn lemma_lowest_below_highest(s: Seq<u64>, lo: u64, hi: u64)
    requires
        is_lowest(s, lo),
        is_highest(s, hi),
    ensures
        lo <= hi,
{
}

/// Samples that are all equal have no jitter.
pub proof fn lemma_jitter_of_constant(s: Seq<u64>, q: Ratio)
    requires
        forall|i: int, j: int| 0 <= i < s.len() && 0 <= j < s.len() ==> s[i] == s[j],
        is_jitter(s, q),
    ensures
        q.numerator == 0,
{
    let d = steps(s);
    assert forall|j: int| 0 <= j < d.len() implies 0 <= #[trigger] d[j] && d[j] <= 0 by {
        assert(s[j] == s[j + 1]);
    }
    lemma_total_bounds(d, 0, 0);
}

} // verus!
