//! The triangular layout of the mel filterbank, in exact arithmetic.
//!
//! A mel band is a triangle over three boundary bins of the spectrum,
//! `start <= center <= end`: its weight rises linearly from 0 at `start` to 1
//! at `center`, and falls linearly back to 0 at `end`. Band `i` of a bank
//! takes its three bins from positions `i`, `i + 1` and `i + 2` of one list of
//! boundary bins, so neighbouring bands overlap by half. Where two boundary
//! bins coincide the ramp between them is empty.
//!
//! Placing the boundary bins on the mel scale is the caller's part. Weights
//! are kept as exact ratios; the caller rounds them as it needs.

use crate::config::ConfigurationError;
use vstd::prelude::*;

verus! {

/// A filter weight, held as the exact ratio `num / den`.
#[derive(Debug, Clone, Copy, PartialEq, Eq, Structural)]
pub struct Weight {
    pub num: usize,
    pub den: usize,
}

impl Weight {
    /// The number that the ratio stands for.
    pub open spec fn value(self) -> real {
        self.num as real / self.den as real
    }
}

/// The weight that a triangle over `start <= center <= end` gives to bin `j`.
pub open spec fn triangle(start: usize, center: usize, end: usize, j: usize) -> Weight {
    if start <= j < center {
        Weight { num: (j - start) as usize, den: (center - start) as usize }
    } else if center <= j < end {
        Weight { num: (end - j) as usize, den: (end - center) as usize }
    } else {
        Weight { num: 0, den: 1 }
    }
}

/// The bin at which a triangle is highest: `center`, or the bin before it
/// when the falling ramp is empty.
pub open spec fn peak(start: usize, center: usize, end: usize) -> int {
    if center < end {
        center as int
    } else {
        center - 1
    }
}

/// The boundary bins fit a bank of `n_mels` bands over a transform of
/// `n_fft` samples: there are `n_mels + 2` of them, they never decrease, and
/// none lies above the Nyquist bin.
pub open spec fn valid_bins(bins: Seq<usize>, n_fft: nat, n_mels: nat) -> bool {
    &&& bins.len() == n_mels + 2
    &&& forall|a: int, b: int| 0 <= a <= b < bins.len() ==> bins[a] <= bins[b]
    &&& forall|a: int| 0 <= a < bins.len() ==> #[trigger] bins[a] <= n_fft / 2
}

/// The weight that band `i` of the bank gives to bin `j`.
pub open spec fn band_weight(bins: Seq<usize>, i: int, j: int) -> Weight {
    triangle(bins[i], bins[i + 1], bins[i + 2], j as usize)
}

/// Why no bank can be built from these arguments, or `None` if one can.
pub open spec fn basis_violation(bins: Seq<usize>, n_fft: usize, n_mels: usize) -> Option<
    ConfigurationError,
> {
    if n_fft == 0 || n_fft % 2 != 0 {
        Some(ConfigurationError::FftSize)
    } else if n_mels == 0 {
        Some(ConfigurationError::MelBands)
    } else if !valid_bins(bins, n_fft as nat, n_mels as nat) {
        Some(ConfigurationError::BinLayout)
    } else {
        None
    }
}

fn triangle_weight(start: usize, center: usize, end: usize, j: usize) -> (w: Weight)
    ensures
        w == triangle(start, center, end, j),
{
    if start <= j && j < center {
        Weight { num: j - start, den: center - start }
    } else if center <= j && j < end {
        Weight { num: end - j, den: end - center }
    } else {
        Weight { num: 0, den: 1 }
    }
}

fn check_bins(bins: &Vec<usize>, n_fft: usize, n_mels: usize) -> (ok: bool)
    ensures
        ok == valid_bins(bins@, n_fft as nat, n_mels as nat),
{
    if bins.len() < 2 || bins.len() - 2 != n_mels {
        return false;
    }
    let top: usize = n_fft / 2;
    if bins[0] > top {
        return false;
    }
    let mut a: usize = 1;
    while a < bins.len()
        invariant
            1 <= a <= bins.len(),
            top == n_fft / 2,
            forall|x: int, y: int| 0 <= x <= y < a ==> bins[x] <= bins[y],
            forall|x: int| 0 <= x < a ==> #[trigger] bins[x] <= top,
        decreases bins.len() - a,
    {
        if bins[a - 1] > bins[a] || bins[a] > top {
            return false;
        }
        a = a + 1;
    }
    true
}

/// Builds the filterbank for the given boundary bins: a matrix of `n_mels`
/// rows and `n_fft / 2 + 1` columns in which row `i` is the triangle over
/// bins `i`, `i + 1` and `i + 2` of the list.
pub fn create_mel_basis(bins: &Vec<usize>, n_fft: usize, n_mels: usize) -> (result: Result<
    Vec<Vec<Weight>>,
    ConfigurationError,
>)
    ensures
        match result {
            Ok(basis) => {
                &&& basis_violation(bins@, n_fft, n_mels) is None
                &&& basis.len() == n_mels
                &&& forall|i: int| 0 <= i < n_mels ==> (#[trigger] basis[i]).len() == n_fft / 2 + 1
                &&& forall|i: int, j: int|
                    0 <= i < n_mels && 0 <= j <= n_fft / 2 ==> #[trigger] basis[i][j]
                        == band_weight(bins@, i, j)
            },
            Err(e) => basis_violation(bins@, n_fft, n_mels) == Some(e),
        },
{
    if n_fft == 0 || n_fft % 2 != 0 {
        return Err(ConfigurationError::FftSize);
    }
    if n_mels == 0 {
        return Err(ConfigurationError::MelBands);
    }
    if !check_bins(bins, n_fft, n_mels) {
        return Err(ConfigurationError::BinLayout);
    }
    let n_cols: usize = n_fft / 2 + 1;
    let mut basis: Vec<Vec<Weight>> = Vec::with_capacity(n_mels);
    let mut i: usize = 0;
    while i < n_mels
        invariant
            i <= n_mels,
            bins.len() == n_mels + 2,
            n_cols == n_fft / 2 + 1,
            basis.len() == i,
            forall|r: int| 0 <= r < i ==> (#[trigger] basis[r]).len() == n_cols,
            forall|r: int, c: int|
                0 <= r < i && 0 <= c < n_cols ==> #[trigger] basis[r][c] == band_weight(
                    bins@,
                    r,
                    c,
                ),
        decreases n_mels - i,
    {
        let start: usize = bins[i];
        let center: usize = bins[i + 1];
        let end: usize = bins[i + 2];
        let mut row: Vec<Weight> = Vec::with_capacity(n_cols);
        let mut j: usize = 0;
        while j < n_cols
            invariant
                j <= n_cols,
                row.len() == j,
                forall|c: int| 0 <= c < j ==> #[trigger] row[c] == triangle(
                    start,
                    center,
                    end,
                    c as usize,
                ),
            decreases n_cols - j,
        {
            row.push(triangle_weight(start, center, end, j));
            j = j + 1;
        }
        basis.push(row);
        i = i + 1;
    }
    Ok(basis)
}

/// The sum of a sequence of numbers.
pub open spec fn total(values: Seq<real>) -> real
    decreases values.len(),
{
    if values.len() == 0 {
        0real
    } else {
        total(values.drop_last()) + values.last()
    }
}

/// The weights of band `i`, one per bin of the spectrum.
pub open spec fn row_values(bins: Seq<usize>, i: int, n_fft: nat) -> Seq<real> {
    Seq::new(n_fft / 2 + 1, |j: int| band_weight(bins, i, j).value())
}

/// The weights that the bands give to bin `j`, one per band.
pub open spec fn column_values(bins: Seq<usize>, j: int, n_mels: nat) -> Seq<real> {
    Seq::new(n_mels, |i: int| band_weight(bins, i, j).value())
}

/// Every weight of a triangle is a ratio with a positive denominator, and
/// lies between 0 and 1.
pub proof fn lemma_weight_in_unit_interval(start: usize, center: usize, end: usize, j: usize)
    requires
        start <= center <= end,
    ensures
        triangle(start, center, end, j).den >= 1,
        triangle(start, center, end, j).num <= triangle(start, center, end, j).den,
        0real <= triangle(start, center, end, j).value() <= 1real,
{
    let w = triangle(start, center, end, j);
    let num = w.num as int;
    let den = w.den as int;
    assert(0real <= num as real / den as real <= 1real) by (nonlinear_arith)
        requires
            0 <= num <= den,
            den >= 1,
    ;
}

/// A triangle is zero outside `start..end`, rises linearly over
/// `start..center`, is 1 at `center` and falls linearly from there to `end`.
pub proof fn lemma_triangle_shape(start: usize, center: usize, end: usize, j: usize)
    requires
        start <= center <= end,
    ensures
        j < start || j >= end ==> triangle(start, center, end, j).value() == 0real,
        j == start && start < center ==> triangle(start, center, end, j).value() == 0real,
        start <= j < center ==> triangle(start, center, end, j).value() == (j - start) as real / (
        center - start) as real,
        j == center && center < end ==> triangle(start, center, end, j).value() == 1real,
        center <= j < end ==> triangle(start, center, end, j).value() == (end - j) as real / (end
            - center) as real,
{
    let w = triangle(start, center, end, j);
    let num = w.num as int;
    let den = w.den as int;
    if num == 0 {
        assert(num as real / den as real == 0real) by (nonlinear_arith)
            requires
                num == 0,
                den >= 1,
        ;
    }
    if num == den {
        assert(num as real / den as real == 1real) by (nonlinear_arith)
            requires
                num == den,
                den >= 1,
        ;
    }
}

/// A triangle has a single peak: its weights never decrease up to the peak
/// bin and never increase from it on.
pub proof fn lemma_triangle_unimodal(start: usize, center: usize, end: usize, j: usize, k: usize)
    requires
        start <= center <= end,
        j <= k,
    ensures
        k <= peak(start, center, end) ==> triangle(start, center, end, j).value() <= triangle(
            start,
            center,
            end,
            k,
        ).value(),
        peak(start, center, end) <= j ==> triangle(start, center, end, j).value() >= triangle(
            start,
            center,
            end,
            k,
        ).value(),
{
    let wj = triangle(start, center, end, j);
    let wk = triangle(start, center, end, k);
    lemma_weight_in_unit_interval(start, center, end, j);
    lemma_weight_in_unit_interval(start, center, end, k);
    lemma_triangle_shape(start, center, end, j);
    lemma_triangle_shape(start, center, end, k);
    if start <= j && k < center {
        let d = (center - start) as int;
        let a = (j - start) as int;
        let b = (k - start) as int;
        assert(a as real / d as real <= b as real / d as real) by (nonlinear_arith)
            requires
                a <= b,
                d >= 1,
        ;
    }
    if center <= j && k < end {
        let d = (end - center) as int;
        let a = (end - j) as int;
        let b = (end - k) as int;
        assert(a as real / d as real >= b as real / d as real) by (nonlinear_arith)
            requires
                a >= b,
                d >= 1,
        ;
    }
}

/// The sum `0/d + 1/d + ... + (k - 1)/d` of the first `k` steps of a ramp
/// that climbs by `1/d` per bin.
pub open spec fn ramp_sum(k: int, d: int) -> real {
    if d > 0 {
        (k * (k - 1)) as real / (2 * d) as real
    } else {
        0real
    }
}

/// How many of the bins `0..n` lie in `from..to`.
pub open spec fn bins_within(n: int, from: int, to: int) -> int {
    if n <= from {
        0
    } else if n <= to {
        n - from
    } else {
        to - from
    }
}

/// The sum of the weights that a triangle gives to bins `0..n`, in closed
/// form: the rising ramp climbs from 0, the falling ramp descends from 1.
pub open spec fn partial_area(start: usize, center: usize, end: usize, n: int) -> real {
    let risen = bins_within(n, start as int, center as int);
    let fallen = bins_within(n, center as int, end as int);
    ramp_sum(risen, center - start) + fallen as real - ramp_sum(fallen, end - center)
}

/// The weights that a triangle gives to bins `0..n`.
pub open spec fn triangle_values(start: usize, center: usize, end: usize, n: nat) -> Seq<real> {
    Seq::new(n, |j: int| triangle(start, center, end, j as usize).value())
}

/// One more step of a ramp adds `k / d` to its sum.
pub proof fn lemma_ramp_step(k: int, d: int)
    requires
        d > 0,
    ensures
        ramp_sum(k + 1, d) == ramp_sum(k, d) + k as real / d as real,
{
    let before = (k * (k - 1)) as real;
    let after = ((k + 1) * (k + 1 - 1)) as real;
    let step = k as real;
    let width = d as real;
    assert((k + 1) * (k + 1 - 1) == k * (k - 1) + 2 * k) by (nonlinear_arith);
    assert(after == before + 2real * step);
    assert((2 * d) as real == 2real * width);
    assert(after / (2real * width) == before / (2real * width) + step / width)
        by (nonlinear_arith)
        requires
            after == before + 2real * step,
            width > 0real,
    ;
}

/// The weights of a triangle over bins `0..n` add up to `partial_area`.
pub proof fn lemma_partial_area(start: usize, center: usize, end: usize, n: nat)
    requires
        start <= center <= end,
        n <= usize::MAX,
    ensures
        total(triangle_values(start, center, end, n)) == partial_area(
            start,
            center,
            end,
            n as int,
        ),
    decreases n,
{
    if n == 0 {
        assert(0int * (0int - 1) == 0) by (nonlinear_arith);
        assert(ramp_sum(0, center - start) == 0real) by (nonlinear_arith)
            requires
                ramp_sum(0, center - start) == if center - start > 0 {
                    0real / (2 * (center - start)) as real
                } else {
                    0real
                },
        ;
        assert(ramp_sum(0, end - center) == 0real) by (nonlinear_arith)
            requires
                ramp_sum(0, end - center) == if end - center > 0 {
                    0real / (2 * (end - center)) as real
                } else {
                    0real
                },
        ;
    } else {
        let j = (n - 1) as nat;
        lemma_partial_area(start, center, end, j);
        let values = triangle_values(start, center, end, n);
        assert(values.drop_last() =~= triangle_values(start, center, end, j));
        assert(values.last() == triangle(start, center, end, j as usize).value());
        let w = triangle(start, center, end, j as usize).value();
        if start <= j < center {
            lemma_ramp_step(j - start, center - start);
        } else if center <= j < end {
            let m = j - center;
            let fall = end - center;
            lemma_ramp_step(m, fall);
            assert(w == (fall - m) as real / fall as real);
            assert((fall - m) as real / fall as real == 1real - m as real / fall as real)
                by (nonlinear_arith)
                requires
                    fall > 0,
            ;
        } else {
            lemma_triangle_shape(start, center, end, j as usize);
        }
    }
}

/// The weights of a whole triangle add up to half its width: a rising ramp
/// adds `(center - start - 1) / 2`, a falling ramp `(end - center + 1) / 2`,
/// and a triangle that has both adds `(end - start) / 2`.
pub proof fn lemma_triangle_area(start: usize, center: usize, end: usize, n: nat)
    requires
        start <= center <= end < n <= usize::MAX,
    ensures
        start < center < end ==> total(triangle_values(start, center, end, n)) == (end
            - start) as real / 2real,
        start == center < end ==> total(triangle_values(start, center, end, n)) == (end - center
            + 1) as real / 2real,
        start < center == end ==> total(triangle_values(start, center, end, n)) == (center
            - start - 1) as real / 2real,
        start == end ==> total(triangle_values(start, center, end, n)) == 0real,
{
    lemma_partial_area(start, center, end, n);
    lemma_whole_ramp(center - start);
    lemma_whole_ramp(end - center);
    let rise = (center - start) as real;
    let fall = (end - center) as real;
    if start < center < end {
        assert((rise - 1real) / 2real + fall - (fall - 1real) / 2real == (rise + fall) / 2real)
            by (nonlinear_arith);
        assert(rise + fall == (end - start) as real);
    } else if center < end {
        assert(fall - (fall - 1real) / 2real == (fall + 1real) / 2real) by (nonlinear_arith);
    }
}

/// A ramp of `d` steps adds up to `(d - 1) / 2`.
pub proof fn lemma_whole_ramp(d: int)
    requires
        d >= 0,
    ensures
        d > 0 ==> ramp_sum(d, d) == (d as real - 1real) / 2real,
        d == 0 ==> ramp_sum(d, d) == 0real,
{
    if d > 0 {
        let width = d as real;
        assert((d * (d - 1)) as real == width * (width - 1real)) by (nonlinear_arith)
            requires
                width == d as real,
        ;
        assert((2 * d) as real == 2real * width);
        assert(width * (width - 1real) / (2real * width) == (width - 1real) / 2real)
            by (nonlinear_arith)
            requires
                width > 0real,
        ;
    }
}

/// A sum of numbers that are all at least 0 is at least 0.
pub proof fn lemma_total_non_negative(values: Seq<real>)
    requires
        forall|i: int| 0 <= i < values.len() ==> values[i] >= 0real,
    ensures
        total(values) >= 0real,
    decreases values.len(),
{
    if values.len() > 0 {
        lemma_total_non_negative(values.drop_last());
    }
}

/// In a bank over valid boundary bins every weight lies between 0 and 1,
/// every band has a single peak, and the sum of every row and of every
/// column is at least 0.
pub proof fn lemma_bank_is_triangular(bins: Seq<usize>, n_fft: usize, n_mels: usize)
    requires
        valid_bins(bins, n_fft as nat, n_mels as nat),
    ensures
        forall|i: int, j: int|
            0 <= i < n_mels && 0 <= j <= n_fft / 2 ==> 0real <= (#[trigger] band_weight(
                bins,
                i,
                j,
            )).value() <= 1real,
        forall|i: int, j: int, k: int|
            0 <= i < n_mels && 0 <= j <= k <= n_fft / 2 ==> {
                let top = peak(bins[i], bins[i + 1], bins[i + 2]);
                let low = #[trigger] band_weight(bins, i, j).value();
                let high = #[trigger] band_weight(bins, i, k).value();
                &&& k <= top ==> low <= high
                &&& top <= j ==> low >= high
            },
        forall|i: int| 0 <= i < n_mels ==> total(#[trigger] row_values(bins, i, n_fft as nat)) >= 0real,
        forall|j: int|
            0 <= j <= n_fft / 2 ==> total(#[trigger] column_values(bins, j, n_mels as nat)) >= 0real,
{
    assert forall|i: int, j: int| 0 <= i < n_mels && 0 <= j <= n_fft / 2 implies 0real <= (
    #[trigger] band_weight(bins, i, j)).value() <= 1real by {
        lemma_weight_in_unit_interval(bins[i], bins[i + 1], bins[i + 2], j as usize);
    }
    assert forall|i: int, j: int, k: int| 0 <= i < n_mels && 0 <= j <= k <= n_fft / 2 implies {
        let top = peak(bins[i], bins[i + 1], bins[i + 2]);
        let low = #[trigger] band_weight(bins, i, j).value();
        let high = #[trigger] band_weight(bins, i, k).value();
        &&& k <= top ==> low <= high
        &&& top <= j ==> low >= high
    } by {
        assert(bins[i + 2] <= n_fft / 2);
        lemma_triangle_unimodal(bins[i], bins[i + 1], bins[i + 2], j as usize, k as usize);
    }
    assert forall|i: int| 0 <= i < n_mels implies total(#[trigger] row_values(bins, i, n_fft as nat))
        >= 0real by {
        lemma_total_non_negative(row_values(bins, i, n_fft as nat));
    }
    assert forall|j: int| 0 <= j <= n_fft / 2 implies total(
        #[trigger] column_values(bins, j, n_mels as nat),
    ) >= 0real by {
        lemma_total_non_negative(column_values(bins, j, n_mels as nat));
    }
}

/// In a bank over valid boundary bins the weights of every band add up to
/// the area of its triangle: half the distance from its first bin to its
/// last where the three boundary bins differ.
pub proof fn lemma_row_sum(bins: Seq<usize>, n_fft: usize, n_mels: usize, i: int)
    requires
        valid_bins(bins, n_fft as nat, n_mels as nat),
        0 <= i < n_mels,
    ensures
        total(row_values(bins, i, n_fft as nat)) == partial_area(
            bins[i],
            bins[i + 1],
            bins[i + 2],
            n_fft / 2 + 1,
        ),
        bins[i] < bins[i + 1] < bins[i + 2] ==> total(row_values(bins, i, n_fft as nat)) == (bins[i
            + 2] - bins[i]) as real / 2real,
{
    let columns = (n_fft / 2 + 1) as nat;
    assert(bins[i] <= bins[i + 1] <= bins[i + 2] <= n_fft / 2);
    assert(row_values(bins, i, n_fft as nat) =~= triangle_values(
        bins[i],
        bins[i + 1],
        bins[i + 2],
        columns,
    ));
    lemma_partial_area(bins[i], bins[i + 1], bins[i + 2], columns);
    lemma_triangle_area(bins[i], bins[i + 1], bins[i + 2], columns);
}

} // verus!
