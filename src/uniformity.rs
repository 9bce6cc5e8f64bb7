use vstd::prelude::*;

use crate::table::{is_max_of, is_min_of, max_of, min_of, occurrences, Table};
use crate::type_detection::SCALE;

verus! {

/// Field counts and row numbers that the fixed-point arithmetic is sized for.
pub const SIZE_LIMIT: u64 = 0x1_0000_0000;

pub open spec fn counts_fit(fc: Seq<usize>) -> bool {
    fc.len() < SIZE_LIMIT && forall|i: int| 0 <= i < fc.len() ==> #[trigger] fc[i] < SIZE_LIMIT
}

/// `r` is the integer square root of `x`.
pub open spec fn is_isqrt(x: int, r: int) -> bool {
    0 <= r && r * r <= x < (r + 1) * (r + 1)
}

/// The integer square root of `x`.
pub open spec fn spec_isqrt(x: int) -> int {
    choose|r: int| is_isqrt(x, r)
}

proof fn lemma_isqrt_unique(x: int, a: int, b: int)
    requires
        is_isqrt(x, a),
        is_isqrt(x, b),
    ensures
        a == b,
{
    if a < b {
        assert((a + 1) * (a + 1) <= b * b) by (nonlinear_arith)
            requires
                0 <= a < b,
        ;
    }
    if b < a {
        assert((b + 1) * (b + 1) <= a * a) by (nonlinear_arith)
            requires
                0 <= b < a,
        ;
    }
}

/// Integer square root by bisection.
pub fn isqrt(x: u128) -> (r: u64)
    ensures
        is_isqrt(x as int, r as int),
        r as int == spec_isqrt(x as int),
{
    let mut lo: u128 = 0;
    let mut hi: u128 = 0x1_0000_0000_0000_0000;
    assert(hi * hi > x) by (nonlinear_arith)
        requires
            hi == 0x1_0000_0000_0000_0000u128,
            x <= u128::MAX,
    ;
    while hi - lo > 1
        invariant
            lo < hi <= 0x1_0000_0000_0000_0000u128,
            lo * lo <= x,
            x < hi * hi,
        decreases hi - lo,
    {
        let mid = lo + (hi - lo) / 2;
        assert(mid * mid <= u128::MAX) by (nonlinear_arith)
            requires
                mid < 0x1_0000_0000_0000_0000u128,
        ;
        if mid * mid <= x {
            lo = mid;
        } else {
            hi = mid;
        }
    }
    assert(hi == lo + 1);
    proof {
        assert(is_isqrt(x as int, lo as int));
        lemma_isqrt_unique(x as int, lo as int, spec_isqrt(x as int));
    }
    lo as u64
}

pub open spec fn sum_of(s: Seq<usize>) -> int
    decreases s.len(),
{
    if s.len() == 0 {
        0
    } else {
        sum_of(s.drop_last()) + s.last()
    }
}

pub open spec fn sum_of_squares(s: Seq<usize>) -> int
    decreases s.len(),
{
    if s.len() == 0 {
        0
    } else {
        sum_of_squares(s.drop_last()) + s.last() * s.last()
    }
}

/// `n² · variance` of the field counts: `n·Σx² − (Σx)²`.
pub open spec fn scaled_dispersion(s: Seq<usize>) -> int {
    s.len() * sum_of_squares(s) - sum_of(s) * sum_of(s)
}

/// Variance of the field counts, scaled by `SCALE²`.
pub open spec fn spec_variance(s: Seq<usize>) -> int {
    (SCALE * SCALE) as int * scaled_dispersion(s) / (s.len() * s.len()) as int
}

/// Consistency `1 / (1 + 2σ)` of the field counts, scaled by `SCALE`, where σ
/// is their population standard deviation; zero for no rows.
pub open spec fn spec_tau_0(s: Seq<usize>) -> int {
    if s.len() == 0 {
        0
    } else {
        (SCALE * SCALE) as int / (SCALE + 2 * spec_isqrt(spec_variance(s)))
    }
}

/// Number of adjacent rows whose field counts differ.
pub open spec fn transitions(s: Seq<usize>) -> nat
    decreases s.len(),
{
    if s.len() <= 1 {
        0
    } else {
        transitions(s.drop_last()) + (if s.last() != s[s.len() - 2] {
            1nat
        } else {
            0nat
        })
    }
}

/// Dispersion score, scaled by `SCALE`: 0.3 of the range score, 0.3 of the
/// transition score and 0.4 of the share of rows at the modal count. One for a
/// single row, zero for none.
pub open spec fn spec_tau_1(s: Seq<usize>, modal: usize) -> int {
    let n = s.len() as int;
    let min = choose|m: usize| is_min_of(s, m);
    let max = choose|m: usize| is_max_of(s, m);
    if n == 0 {
        0
    } else if n == 1 {
        SCALE as int
    } else {
        let range_score = if max == 0 {
            0
        } else {
            SCALE - (SCALE * (max - min)) / max as int
        };
        let transition_score = SCALE - (SCALE * transitions(s)) / (n - 1);
        let mode_score = (SCALE * occurrences(s, modal)) / n;
        (3 * range_score + 3 * transition_score + 4 * mode_score) / 10
    }
}

proof fn lemma_min_unique(s: Seq<usize>, a: usize, b: usize)
    requires
        is_min_of(s, a),
        is_min_of(s, b),
    ensures
        a == b,
{
    if s.len() > 0 {
        let i = choose|i: int| 0 <= i < s.len() && s[i] == a;
        let j = choose|j: int| 0 <= j < s.len() && s[j] == b;
        assert(b <= s[i] && a <= s[j]);
    }
}

proof fn lemma_max_unique(s: Seq<usize>, a: usize, b: usize)
    requires
        is_max_of(s, a),
        is_max_of(s, b),
    ensures
        a == b,
{
    if s.len() > 0 {
        let i = choose|i: int| 0 <= i < s.len() && s[i] == a;
        let j = choose|j: int| 0 <= j < s.len() && s[j] == b;
        assert(s[i] <= b && s[j] <= a);
    }
}

/// Whether every row has the same field count.
pub open spec fn spec_is_uniform(s: Seq<usize>) -> bool {
    forall|i: int| 0 <= i < s.len() ==> #[trigger] s[i] == s[0]
}

proof fn lemma_sums_bounded(s: Seq<usize>)
    requires
        counts_fit(s),
    ensures
        0 <= sum_of(s) <= s.len() * (SIZE_LIMIT - 1),
        0 <= sum_of_squares(s) <= s.len() * (SIZE_LIMIT - 1) * (SIZE_LIMIT - 1),
    decreases s.len(),
{
    if s.len() > 0 {
        let p = s.drop_last();
        assert(counts_fit(p)) by {
            assert forall|i: int| 0 <= i < p.len() implies #[trigger] p[i] < SIZE_LIMIT by {
                assert(p[i] == s[i]);
            }
        }
        lemma_sums_bounded(p);
        let x = s.last() as int;
        assert(x < SIZE_LIMIT) by {
            assert(s[s.len() - 1] < SIZE_LIMIT);
        }
        assert(x * x <= (SIZE_LIMIT - 1) * (SIZE_LIMIT - 1)) by (nonlinear_arith)
            requires
                0 <= x < SIZE_LIMIT,
        ;
        assert(s.len() * (SIZE_LIMIT - 1) * (SIZE_LIMIT - 1) == p.len() * (SIZE_LIMIT - 1) * (
        SIZE_LIMIT - 1) + (SIZE_LIMIT - 1) * (SIZE_LIMIT - 1)) by (nonlinear_arith)
            requires
                s.len() == p.len() + 1,
        ;
    }
}

/// Cauchy–Schwarz for the field counts: `(Σx)² ≤ n·Σx²`.
proof fn lemma_dispersion_nonneg(s: Seq<usize>)
    ensures
        scaled_dispersion(s) >= 0,
    decreases s.len(),
{
    if s.len() > 0 {
        let p = s.drop_last();
        lemma_dispersion_nonneg(p);
        let n = p.len() as int;
        let a = sum_of(p);
        let q = sum_of_squares(p);
        let x = s.last() as int;
        lemma_sums_of_empty(p);
        // (n+1)(q + x²) − (a + x)² = (n q − a²) + q − 2 a x + n x²
        // and q − 2ax + n x² ≥ 0 because n q ≥ a².
        assert((n + 1) * (q + x * x) - (a + x) * (a + x) >= 0) by (nonlinear_arith)
            requires
                n * q - a * a >= 0,
                n >= 0,
                q >= 0,
                n == 0 ==> a == 0 && q == 0,
        ;
    }
}

proof fn lemma_sums_of_empty(s: Seq<usize>)
    ensures
        s.len() == 0 ==> sum_of(s) == 0 && sum_of_squares(s) == 0,
        sum_of_squares(s) >= 0,
    decreases s.len(),
{
    if s.len() > 0 {
        lemma_sums_of_empty(s.drop_last());
    }
}

/// Population standard deviation of the field counts, scaled by `SCALE`
/// (rounded down); zero for no rows.
pub fn standard_deviation(values: &Vec<usize>) -> (r: u64)
    requires
        counts_fit(values@),
    ensures
        values@.len() == 0 ==> r == 0,
        values@.len() > 0 ==> r == spec_isqrt(spec_variance(values@)),
        r < 0x1_0000_0000_0000_0000,
{
    let ghost s = values@;
    let n = values.len();
    if n == 0 {
        return 0;
    }
    let mut sum: u128 = 0;
    let mut sumsq: u128 = 0;
    let mut i: usize = 0;
    assert(s.take(0) =~= Seq::<usize>::empty());
    while i < n
        invariant
            s == values@,
            n == s.len(),
            counts_fit(s),
            0 <= i <= n,
            sum == sum_of(s.take(i as int)),
            sumsq == sum_of_squares(s.take(i as int)),
        decreases n - i,
    {
        let x = values[i];
        proof {
            assert(s.take(i + 1).drop_last() =~= s.take(i as int));
            assert(counts_fit(s.take(i + 1))) by {
                assert forall|k: int| 0 <= k < s.take(i + 1).len() implies #[trigger] s.take(
                    i + 1,
                )[k] < SIZE_LIMIT by {
                    assert(s.take(i + 1)[k] == s[k]);
                }
            }
            lemma_sums_bounded(s.take(i + 1));
            assert((i + 1) * (SIZE_LIMIT - 1) <= n * (SIZE_LIMIT - 1)) by (nonlinear_arith)
                requires
                    i + 1 <= n,
            ;
            assert((i + 1) * (SIZE_LIMIT - 1) * (SIZE_LIMIT - 1) <= n * (SIZE_LIMIT - 1) * (
            SIZE_LIMIT - 1)) by (nonlinear_arith)
                requires
                    i + 1 <= n,
            ;
            assert(n * (SIZE_LIMIT - 1) * (SIZE_LIMIT - 1) < 0x1_0000_0000_0000_0000_0000_0000)
                by (nonlinear_arith)
                requires
                    n < SIZE_LIMIT,
            ;
        }
        sum = sum + x as u128;
        sumsq = sumsq + (x as u128) * (x as u128);
        i = i + 1;
    }
    assert(s.take(n as int) =~= s);
    proof {
        lemma_sums_bounded(s);
        lemma_dispersion_nonneg(s);
        assert(n * sumsq < 0x1_0000_0000_0000_0000_0000_0000_0000_0000) by (nonlinear_arith)
            requires
                n < SIZE_LIMIT,
                sumsq <= n * (SIZE_LIMIT - 1) * (SIZE_LIMIT - 1),
        ;
        assert(sum * sum <= n * sumsq);
    }
    let nn = n as u128;
    let d = nn * sumsq - sum * sum;
    assert(nn * nn < 0x1_0000_0000_0000_0000) by (nonlinear_arith)
        requires
            nn < SIZE_LIMIT,
    ;
    assert(nn * nn > 0) by (nonlinear_arith)
        requires
            nn > 0,
    ;
    let n2 = nn * nn;
    let a = d / n2;
    let b = d % n2;
    proof {
        let (ai, di, n2i, ni, qi) = (a as int, d as int, n2 as int, n as int, sumsq as int);
        assert(ai <= (SIZE_LIMIT - 1) * (SIZE_LIMIT - 1)) by (nonlinear_arith)
            requires
                ai == di / n2i,
                di <= ni * qi,
                qi <= ni * (SIZE_LIMIT - 1) * (SIZE_LIMIT - 1),
                n2i == ni * ni,
                ni > 0,
        ;
        assert(b < n2);
        assert(n2 < 0x1_0000_0000_0000_0000);
    }
    let ss: u128 = 1_000_000_000_000;
    assert(ss == SCALE * SCALE);
    assert(ss * a <= u128::MAX && ss * b <= u128::MAX) by (nonlinear_arith)
        requires
            ss == 1_000_000_000_000u128,
            a <= (SIZE_LIMIT - 1) * (SIZE_LIMIT - 1),
            b < 0x1_0000_0000_0000_0000u128,
    ;
    let var = ss * a + ss * b / n2;
    proof {
        let (vi, ssi, di, n2i, ai, bi) = (var as int, ss as int, d as int, n2 as int, a as int, b as int);
        assert(vi == ssi * di / n2i) by (nonlinear_arith)
            requires
                vi == ssi * ai + ssi * bi / n2i,
                ai == di / n2i,
                bi == di % n2i,
                n2i > 0,
                ssi >= 0,
        ;
    }
    isqrt(var)
}

/// Consistency of the field counts, scaled by `SCALE`.
pub fn calculate_tau_0(table: &Table) -> (r: u64)
    requires
        counts_fit(table.field_counts@),
    ensures
        r == spec_tau_0(table.field_counts@),
        r <= SCALE,
{
    if table.field_counts.len() == 0 {
        return 0;
    }
    let sigma = standard_deviation(&table.field_counts);
    let ss: u128 = 1_000_000_000_000;
    assert(ss == SCALE * SCALE);
    let r = ss / ((SCALE as u128) + 2 * (sigma as u128));
    proof {
        let den = SCALE as int + 2 * sigma as int;
        assert((ss as int) / den <= SCALE as int) by (nonlinear_arith)
            requires
                den >= SCALE as int,
                ss as int == SCALE as int * SCALE as int,
        ;
    }
    r as u64
}

/// Dispersion of the field counts, scaled by `SCALE`.
pub fn calculate_tau_1(table: &Table) -> (r: u64)
    requires
        counts_fit(table.field_counts@),
    ensures
        r == spec_tau_1(table.field_counts@, table.spec_modal_field_count()),
        r <= SCALE,
{
    let ghost s = table.field_counts@;
    let n = table.field_counts.len();
    let min = min_of(&table.field_counts);
    let max = max_of(&table.field_counts);
    proof {
        lemma_min_unique(s, min, choose|m: usize| is_min_of(s, m));
        lemma_max_unique(s, max, choose|m: usize| is_max_of(s, m));
    }
    if n == 0 {
        return 0;
    }
    if n == 1 {
        return SCALE;
    }
    let range_score: u64 = if max == 0 {
        0
    } else {
        proof {
            assert(min <= max) by {
                assert(min <= s[0] <= max);
            }
        }
        let q = ((SCALE as u128) * ((max - min) as u128) / (max as u128)) as u64;
        proof {
            assert((SCALE as int) * ((max - min) as int) / (max as int) <= SCALE as int)
                by (nonlinear_arith)
                requires
                    max > 0,
                    min <= max,
            ;
        }
        SCALE - q
    };
    let mut trans: u64 = 0;
    let mut modal_rows: u64 = 0;
    let modal = table.modal_field_count();
    let mut i: usize = 1;
    proof {
        assert(s.take(1).drop_last() =~= Seq::<usize>::empty());
    }
    assert(s.take(1).last() == s[0]);
    assert(occurrences(s.take(1).drop_last(), modal) == 0);
    let ghost first_is_modal: nat = if s[0] == modal {
        1nat
    } else {
        0nat
    };
    if table.field_counts[0] == modal {
        modal_rows = 1;
    }
    while i < n
        invariant
            s == table.field_counts@,
            n == s.len(),
            n < SIZE_LIMIT,
            1 <= i <= n,
            modal == table.spec_modal_field_count(),
            trans == transitions(s.take(i as int)),
            modal_rows == occurrences(s.take(i as int), modal),
            trans < i,
            modal_rows <= i,
        decreases n - i,
    {
        assert(s.take(i + 1).drop_last() =~= s.take(i as int));
        assert(s.take(i + 1)[i - 1] == s[i - 1]);
        if table.field_counts[i] != table.field_counts[i - 1] {
            trans = trans + 1;
        }
        if table.field_counts[i] == modal {
            modal_rows = modal_rows + 1;
        }
        i = i + 1;
    }
    assert(s.take(n as int) =~= s);
    let nm1 = (n - 1) as u128;
    let tq = (SCALE as u128) * (trans as u128) / nm1;
    let ms = (SCALE as u128) * (modal_rows as u128) / (n as u128);
    proof {
        assert((SCALE as int) * (trans as int) / (nm1 as int) <= SCALE as int) by (nonlinear_arith)
            requires
                trans <= nm1,
                nm1 > 0,
        ;
        assert((SCALE as int) * (modal_rows as int) / (n as int) <= SCALE as int) by (nonlinear_arith)
            requires
                modal_rows <= n,
                n > 0,
        ;
    }
    let ts = (SCALE as u128) - tq;
    let r = (3 * (range_score as u128) + 3 * ts + 4 * ms) / 10;
    r as u64
}

/// Overall uniformity `sqrt(tau_0 · tau_1)`, scaled by `SCALE`.
pub fn calculate_uniformity(table: &Table) -> (r: u64)
    requires
        counts_fit(table.field_counts@),
    ensures
        r == spec_isqrt(
            spec_tau_0(table.field_counts@) * spec_tau_1(
                table.field_counts@,
                table.spec_modal_field_count(),
            ),
        ),
{
    let t0 = calculate_tau_0(table);
    let t1 = calculate_tau_1(table);
    assert((t0 as int) * (t1 as int) <= u128::MAX) by (nonlinear_arith)
        requires
            t0 <= SCALE,
            t1 <= SCALE,
    ;
    isqrt((t0 as u128) * (t1 as u128))
}

/// Summary of the field counts; mean and standard deviation scaled by `SCALE`.
#[derive(Debug, Clone, Copy)]
pub struct FieldCountStats {
    pub min: usize,
    pub max: usize,
    pub mode: usize,
    pub mean: u64,
    pub std_dev: u64,
    pub is_uniform: bool,
}

impl FieldCountStats {
    pub fn from_table(table: &Table) -> (r: FieldCountStats)
        requires
            counts_fit(table.field_counts@),
        ensures
            is_min_of(table.field_counts@, r.min),
            is_max_of(table.field_counts@, r.max),
            r.mode == table.spec_modal_field_count(),
            table.field_counts@.len() == 0 ==> r.mean == 0 && r.std_dev == 0,
            table.field_counts@.len() > 0 ==> r.mean == SCALE * sum_of(table.field_counts@)
                / table.field_counts@.len() as int && r.std_dev == spec_isqrt(
                spec_variance(table.field_counts@),
            ),
            r.is_uniform == spec_is_uniform(table.field_counts@),
    {
        let ghost s = table.field_counts@;
        let n = table.field_counts.len();
        let mut sum: u128 = 0;
        let mut i: usize = 0;
        assert(s.take(0) =~= Seq::<usize>::empty());
        while i < n
            invariant
                s == table.field_counts@,
                n == s.len(),
                counts_fit(s),
                0 <= i <= n,
                sum == sum_of(s.take(i as int)),
                sum <= i * (SIZE_LIMIT - 1),
            decreases n - i,
        {
            let x = table.field_counts[i];
            proof {
                assert(s.take(i + 1).drop_last() =~= s.take(i as int));
                assert(s[i as int] < SIZE_LIMIT);
                assert(sum + x <= (i + 1) * (SIZE_LIMIT - 1)) by (nonlinear_arith)
                    requires
                        sum <= i * (SIZE_LIMIT - 1),
                        x < SIZE_LIMIT,
                ;
                assert((i + 1) * (SIZE_LIMIT - 1) <= SIZE_LIMIT * SIZE_LIMIT) by (nonlinear_arith)
                    requires
                        i < n,
                        n < SIZE_LIMIT,
                ;
            }
            sum = sum + x as u128;
            i = i + 1;
        }
        assert(s.take(n as int) =~= s);
        let mean: u64 = if n == 0 {
            0
        } else {
            assert((SCALE as int) * (sum as int) / (n as int) <= (SCALE as int) * (SIZE_LIMIT as int)) by (nonlinear_arith)
                requires
                    sum <= n * (SIZE_LIMIT - 1),
                    n > 0,
            ;
            ((SCALE as u128) * sum / (n as u128)) as u64
        };
        FieldCountStats {
            min: table.min_field_count(),
            max: table.max_field_count(),
            mode: table.modal_field_count(),
            mean,
            std_dev: standard_deviation(&table.field_counts),
            is_uniform: is_uniform(table),
        }
    }
}

/// Whether every row has the same field count (true for no rows).
pub fn is_uniform(table: &Table) -> (r: bool)
    ensures
        r == spec_is_uniform(table.field_counts@),
{
    let n = table.field_counts.len();
    if n == 0 {
        return true;
    }
    let first = table.field_counts[0];
    let mut i: usize = 1;
    while i < n
        invariant
            n == table.field_counts@.len(),
            first == table.field_counts@[0],
            1 <= i <= n,
            forall|k: int| 0 <= k < i ==> table.field_counts@[k] == first,
        decreases n - i,
    {
        if table.field_counts[i] != first {
            return false;
        }
        i = i + 1;
    }
    true
}

} // verus!
