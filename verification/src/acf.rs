//! Autocorrelation, autoregression and partial autocorrelation of a series.
//!
//! A series is a vector of IEEE-754 doubles carried as bit patterns (see
//! `scalar`). Each public function's contract pins its result bit for bit as
//! a spec-level composition of the named IEEE operations, in the exact order
//! the code performs them: the autocovariance accumulations, the assembly of
//! the Yule-Walker system, the LDL^T solve, the closed-form variance, and
//! the per-order solves behind the partial autocorrelations.
use vstd::prelude::*;

use crate::ArimaError;
use crate::scalar::{
    ONE_BITS, ZERO_BITS, add_bits, div_bits, from_u32_bits, mul_bits, scalar_add, scalar_div,
    scalar_from_u32, scalar_mul, scalar_sub, sub_bits,
};
use crate::solve::{is_square, mat_view, solve_spd, spd_solution, spd_solvable};

verus! {

/// The number of lags actually computed when `requested` lags are asked for
/// and `ceil` is the largest the data supports: an explicit request is
/// silently clamped, and no request at all means the ceiling.
pub open spec fn clamped_lag(requested: Option<u32>, ceil: int) -> int {
    match requested {
        Some(l) => if l as int <= ceil {
            l as int
        } else {
            ceil
        },
        None => ceil,
    }
}

/// The left-to-right IEEE sum of the series, accumulated from zero.
pub open spec fn sum_bits_seq(x: Seq<u64>) -> u64
    decreases x.len(),
{
    if x.len() == 0 {
        ZERO_BITS
    } else {
        add_bits(sum_bits_seq(x.drop_last()), x.last())
    }
}

/// The sample mean of the series: its sum divided by its length.
pub open spec fn mean_bits(x: Seq<u64>) -> u64 {
    div_bits(sum_bits_seq(x), from_u32_bits(x.len() as u32))
}

/// The first `k` terms of the lag-`t` autocovariance accumulation: each term
/// is `(x[i] - mean) * (x[i + t] - mean) / n`, added left to right from
/// zero. Dividing by `n` — the population estimator — matches the
/// accumulation the code performs, term by term.
pub open spec fn acov_partial(x: Seq<u64>, t: int, k: int) -> u64
    decreases k,
{
    if k <= 0 {
        ZERO_BITS
    } else {
        add_bits(
            acov_partial(x, t, k - 1),
            div_bits(
                mul_bits(
                    sub_bits(x[k - 1], mean_bits(x)),
                    sub_bits(x[k - 1 + t], mean_bits(x)),
                ),
                from_u32_bits(x.len() as u32),
            ),
        )
    }
}

/// The lag-`t` autocovariance of the series, over all valid positions.
pub open spec fn acov_bits(x: Seq<u64>, t: int) -> u64 {
    acov_partial(x, t, x.len() - t)
}

/// The full ACF output: `clamped_lag + 1` entries. In covariance mode entry
/// `t` is the lag-`t` autocovariance. In correlation mode every entry at lag
/// `t > 0` is normalized by the raw lag-0 autocovariance, and only after
/// that normalization is the lag-0 entry replaced by exactly 1.0.
pub open spec fn acf_spec(x: Seq<u64>, max_lag: Option<u32>, covariance: bool) -> Seq<u64> {
    Seq::new(
        (clamped_lag(max_lag, x.len() - 1) + 1) as nat,
        |t: int|
            if covariance {
                acov_bits(x, t)
            } else if t == 0 {
                ONE_BITS
            } else {
                div_bits(acov_bits(x, t), acov_bits(x, 0))
            },
    )
}

/// Entry `(i, j)` of the Yule-Walker matrix: a unit diagonal, and the
/// lag-`|i - j|` correlation off it.
pub open spec fn yw_entry(rho: Seq<u64>, i: int, j: int) -> u64 {
    if i == j {
        ONE_BITS
    } else if i < j {
        rho[j - i]
    } else {
        rho[i - j]
    }
}

/// The order-`n` Yule-Walker matrix built from the correlations `rho`.
pub open spec fn yw_matrix(rho: Seq<u64>, n: int) -> Seq<Seq<u64>> {
    Seq::new(n as nat, |i: int| Seq::new(n as nat, |j: int| yw_entry(rho, i, j)))
}

/// The order-`n` Yule-Walker right-hand side: the correlations at lags
/// `1 ..= n`.
pub open spec fn yw_rhs(rho: Seq<u64>, n: int) -> Seq<u64> {
    Seq::new(n as nat, |i: int| rho[i + 1])
}

/// Whether the order-`n` Yule-Walker system built from `rho` passes the
/// solver's positive-definiteness test.
pub open spec fn ar_solvable(rho: Seq<u64>, n: int) -> bool {
    spd_solvable(yw_matrix(rho, n), n)
}

/// The AR coefficients of order `n`: the solution of the order-`n`
/// Yule-Walker system built from `rho`.
pub open spec fn ar_solution(rho: Seq<u64>, n: int) -> Seq<u64> {
    spd_solution(yw_matrix(rho, n), yw_rhs(rho, n), n)
}

/// The lag request the series entry points pass down to the ACF: one more
/// than the requested order, or no request at all.
pub open spec fn series_lag_request(order: Option<u32>) -> Option<u32> {
    match order {
        Some(o) => Some((o + 1) as u32),
        None => None,
    }
}

/// The first `m` terms of the variance estimator's sum
/// `sum_{i < m} phi[i] * rho[i + 1]`, added left to right from zero.
pub open spec fn var_sum_partial(phi: Seq<u64>, rho: Seq<u64>, m: int) -> u64
    decreases m,
{
    if m <= 0 {
        ZERO_BITS
    } else {
        add_bits(var_sum_partial(phi, rho, m - 1), mul_bits(phi[m - 1], rho[m]))
    }
}

/// The closed-form innovation variance
/// `cov0 * (1 - sum_i phi[i] * rho[i + 1])`.
pub open spec fn variance_spec(phi: Seq<u64>, rho: Seq<u64>, cov0: u64) -> u64 {
    mul_bits(cov0, sub_bits(ONE_BITS, var_sum_partial(phi, rho, phi.len() as int)))
}

/// Whether every Yule-Walker solve the PACF needs — one per order
/// `1 ..= clamped_lag` — passes the positive-definiteness test.
pub open spec fn pacf_ok(rho: Seq<u64>, max_lag: Option<u32>) -> bool {
    forall|ord: int|
        1 <= ord <= clamped_lag(max_lag, rho.len() - 1) ==> #[trigger] ar_solvable(rho, ord)
}

/// The partial autocorrelations at lags `1 ..= clamped_lag`: entry `i - 1`
/// is the last coefficient of the order-`i` Yule-Walker solution.
pub open spec fn pacf_spec(rho: Seq<u64>, max_lag: Option<u32>) -> Seq<u64> {
    Seq::new(
        clamped_lag(max_lag, rho.len() - 1) as nat,
        |i: int| ar_solution(rho, i + 1)[i],
    )
}

/// Calculate the auto-correlation function of a time series of length n.
///
/// `max_lag` bounds the number of lags and defaults to `n - 1`; a larger
/// request is silently clamped to `n - 1`. With `covariance` set the raw
/// autocovariances are returned; otherwise autocorrelations, whose lag-0
/// entry is exactly 1.0. The output holds `max_lag + 1` entries and the
/// call always succeeds.
pub fn acf(x: &Vec<u64>, max_lag: Option<u32>, covariance: bool) -> (r: Result<
    Vec<u64>,
    ArimaError,
>)
    requires
        x@.len() >= 1,
        x@.len() <= u32::MAX,
    ensures
        r is Ok,
        r->Ok_0@ == acf_spec(x@, max_lag, covariance),
{
    let n: usize = x.len();
    let max_lag_c: usize = match max_lag {
        Some(ml) => {
            let mlu = ml as usize;
            if mlu <= n - 1 {
                mlu
            } else {
                n - 1
            }
        },
        None => n - 1,
    };
    let m: usize = max_lag_c + 1;

    let mut sum: u64 = ZERO_BITS;
    let mut i: usize = 0;
    while i < n
        invariant
            i <= n,
            n == x@.len(),
            sum == sum_bits_seq(x@.take(i as int)),
        decreases n - i,
    {
        proof {
            assert(x@.take(i as int + 1).drop_last() =~= x@.take(i as int));
            assert(x@.take(i as int + 1).last() == x@[i as int]);
        }
        sum = scalar_add(sum, x[i]);
        i += 1;
    }
    proof {
        assert(x@.take(n as int) =~= x@);
    }
    let len_b: u64 = scalar_from_u32(n as u32);
    let mean: u64 = scalar_div(sum, len_b);

    let mut y: Vec<u64> = Vec::new();
    let mut t: usize = 0;
    while t < m
        invariant
            t <= m,
            1 <= n,
            n == x@.len(),
            n <= u32::MAX,
            m == clamped_lag(max_lag, x@.len() - 1) + 1,
            m <= n,
            len_b == from_u32_bits(x@.len() as u32),
            mean == mean_bits(x@),
            y@.len() == t,
            forall|k: int|
                0 <= k < t ==> #[trigger] y@[k] == if covariance || k == 0 {
                    acov_bits(x@, k)
                } else {
                    div_bits(acov_bits(x@, k), acov_bits(x@, 0))
                },
        decreases m - t,
    {
        let mut acc: u64 = ZERO_BITS;
        let mut i2: usize = 0;
        while i2 < n - t
            invariant
                i2 <= n - t,
                t < m,
                m <= n,
                n == x@.len(),
                n <= u32::MAX,
                len_b == from_u32_bits(x@.len() as u32),
                mean == mean_bits(x@),
                acc == acov_partial(x@, t as int, i2 as int),
            decreases n - t - i2,
        {
            let xi = scalar_sub(x[i2], mean);
            let xit = scalar_sub(x[i2 + t], mean);
            acc = scalar_add(acc, scalar_div(scalar_mul(xi, xit), len_b));
            i2 += 1;
        }
        if !covariance && t > 0 {
            let y0 = y[0];
            acc = scalar_div(acc, y0);
        }
        y.push(acc);
        t += 1;
    }
    if !covariance {
        y.set(0, ONE_BITS);
    }
    proof {
        assert(y@ =~= acf_spec(x@, max_lag, covariance));
    }
    Ok(y)
}

/// Calculate the auto-regressive coefficients of a time series of length n,
/// given the auto-correlation coefficients rho.
///
/// The order defaults to `rho.len() - 1` and a larger request is clamped to
/// it. The order-`n` Yule-Walker system — unit diagonal, lag-`|i - j|`
/// correlations off it, right-hand side `rho[1 ..= n]` — is assembled and
/// solved; a system that fails the solver's positive-definiteness test is
/// reported as `ArimaError`, never as a silently wrong answer.
pub fn ar_coef_rho(rho: &Vec<u64>, order: Option<u32>) -> (r: Result<Vec<u64>, ArimaError>)
    requires
        rho@.len() >= 1,
    ensures
        r is Ok <==> ar_solvable(rho@, clamped_lag(order, rho@.len() - 1)),
        r is Ok ==> r->Ok_0@ == ar_solution(rho@, clamped_lag(order, rho@.len() - 1)),
{
    let n: usize = match order {
        Some(o) => {
            let ou = o as usize;
            if ou <= rho.len() - 1 {
                ou
            } else {
                rho.len() - 1
            }
        },
        None => rho.len() - 1,
    };

    let mut a: Vec<Vec<u64>> = Vec::new();
    let mut i: usize = 0;
    while i < n
        invariant
            i <= n,
            n <= rho@.len() - 1,
            a@.len() == i,
            forall|ii: int| 0 <= ii < i ==> #[trigger] a@[ii]@ == yw_matrix(rho@, n as int)[ii],
        decreases n - i,
    {
        let mut row: Vec<u64> = Vec::new();
        let mut j: usize = 0;
        while j < n
            invariant
                j <= n,
                i < n,
                n <= rho@.len() - 1,
                row@.len() == j,
                forall|q: int| 0 <= q < j ==> #[trigger] row@[q] == yw_entry(rho@, i as int, q),
            decreases n - j,
        {
            let v: u64 = if i == j {
                ONE_BITS
            } else if i < j {
                rho[j - i]
            } else {
                rho[i - j]
            };
            row.push(v);
            j += 1;
        }
        proof {
            assert(row@ =~= yw_matrix(rho@, n as int)[i as int]);
        }
        a.push(row);
        i += 1;
    }
    let mut b: Vec<u64> = Vec::new();
    let mut i2: usize = 0;
    while i2 < n
        invariant
            i2 <= n,
            n <= rho@.len() - 1,
            b@.len() == i2,
            forall|q: int| 0 <= q < i2 ==> #[trigger] b@[q] == rho@[q + 1],
        decreases n - i2,
    {
        b.push(rho[i2 + 1]);
        i2 += 1;
    }
    proof {
        assert(mat_view(a@) =~= yw_matrix(rho@, n as int));
        assert(b@ =~= yw_rhs(rho@, n as int));
        assert(is_square(mat_view(a@), n as int));
    }
    solve_spd(&a, &b, n)
}

/// Calculate the auto-regressive coefficients of a time series of length n.
///
/// The correlations up to lag `order + 1` are computed first and the
/// Yule-Walker system of the requested order is then solved against them,
/// exactly as `ar_coef_rho` would; a solve failure is propagated.
pub fn ar_coef(x: &Vec<u64>, order: Option<u32>) -> (r: Result<Vec<u64>, ArimaError>)
    requires
        x@.len() >= 1,
        x@.len() <= u32::MAX,
        match order {
            Some(o) => o < u32::MAX,
            None => true,
        },
    ensures
        ({
            let rho = acf_spec(x@, series_lag_request(order), false);
            let nord = clamped_lag(order, rho.len() - 1);
            &&& (r is Ok <==> ar_solvable(rho, nord))
            &&& (r is Ok ==> r->Ok_0@ == ar_solution(rho, nord))
        }),
{
    let max_lag: Option<u32> = match order {
        Some(o) => Some(o + 1),
        None => None,
    };
    let rho = match acf(x, max_lag, false) {
        Ok(v) => v,
        Err(e) => {
            return Err(e);
        },
    };
    ar_coef_rho(&rho, order)
}

/// Estimate the variance of a time series of length n, given the AR
/// parameters, auto-correlation coefficients (ACF), and the auto-covariance
/// for lag zero.
///
/// The estimate is `cov0 * (1 - sum_i phi[i] * rho[i + 1])`; the
/// correlations must number at least one more than the coefficients.
pub fn var_phi_rho_cov(phi: &Vec<u64>, rho: &Vec<u64>, cov0: u64) -> (r: Result<u64, ArimaError>)
    requires
        rho@.len() > phi@.len(),
    ensures
        r is Ok,
        r->Ok_0 == variance_spec(phi@, rho@, cov0),
{
    let mut sum: u64 = ZERO_BITS;
    let mut i: usize = 0;
    while i < phi.len()
        invariant
            i <= phi@.len(),
            phi@.len() < rho@.len(),
            sum == var_sum_partial(phi@, rho@, i as int),
        decreases phi@.len() - i,
    {
        sum = scalar_add(sum, scalar_mul(phi[i], rho[i + 1]));
        i += 1;
    }
    Ok(scalar_mul(cov0, scalar_sub(ONE_BITS, sum)))
}

/// Estimate the variance of a time series of length n.
///
/// The correlations, the AR coefficients of the requested order, and the
/// lag-0 autocovariance are computed from the series and combined by the
/// closed form of `var_phi_rho_cov`; a failure of the Yule-Walker solve is
/// propagated.
pub fn var(x: &Vec<u64>, order: Option<u32>) -> (r: Result<u64, ArimaError>)
    requires
        x@.len() >= 1,
        x@.len() <= u32::MAX,
        match order {
            Some(o) => o < u32::MAX,
            None => true,
        },
    ensures
        ({
            let rho = acf_spec(x@, series_lag_request(order), false);
            let nord = clamped_lag(order, rho.len() - 1);
            &&& (r is Ok <==> ar_solvable(rho, nord))
            &&& (r is Ok ==> r->Ok_0 == variance_spec(
                ar_solution(rho, nord),
                rho,
                acov_bits(x@, 0),
            ))
        }),
{
    let max_lag: Option<u32> = match order {
        Some(o) => Some(o + 1),
        None => None,
    };
    let rho = match acf(x, max_lag, false) {
        Ok(v) => v,
        Err(e) => {
            return Err(e);
        },
    };
    let phi = match ar_coef_rho(&rho, order) {
        Ok(v) => v,
        Err(e) => {
            return Err(e);
        },
    };
    let cov0v = match acf(x, Some(0), true) {
        Ok(v) => v,
        Err(e) => {
            return Err(e);
        },
    };
    let cov0 = cov0v[0];
    var_phi_rho_cov(&phi, &rho, cov0)
}

/// Calculate the partial auto-correlation coefficients of a time series of
/// length n, given the auto-correlation coefficients rho.
///
/// For each lag `i` from 1 to `max_lag` (default and ceiling:
/// `rho.len() - 1`) the order-`i` Yule-Walker system is solved anew and the
/// last coefficient of that solution is the partial autocorrelation at lag
/// `i`. The first failing solve aborts the whole computation; no partial
/// result is returned.
pub fn pacf_rho(rho: &Vec<u64>, max_lag: Option<u32>) -> (r: Result<Vec<u64>, ArimaError>)
    requires
        rho@.len() >= 1,
        rho@.len() <= u32::MAX,
    ensures
        r is Ok <==> pacf_ok(rho@, max_lag),
        r is Ok ==> r->Ok_0@ == pacf_spec(rho@, max_lag),
{
    let ml: usize = match max_lag {
        Some(l) => {
            let lu = l as usize;
            if lu <= rho.len() - 1 {
                lu
            } else {
                rho.len() - 1
            }
        },
        None => rho.len() - 1,
    };
    let m: usize = ml + 1;

    let mut y: Vec<u64> = Vec::new();
    let mut i: usize = 1;
    while i < m
        invariant
            1 <= i <= m,
            m == ml + 1,
            ml as int == clamped_lag(max_lag, rho@.len() - 1),
            ml <= rho@.len() - 1,
            1 <= rho@.len() <= u32::MAX,
            y@.len() == i - 1,
            forall|q: int| 0 <= q < i - 1 ==> #[trigger] y@[q] == ar_solution(rho@, q + 1)[q],
            forall|ord: int| 1 <= ord < i ==> #[trigger] ar_solvable(rho@, ord),
        decreases m - i,
    {
        let coef = ar_coef_rho(rho, Some(i as u32));
        proof {
            assert(clamped_lag(Some(i as u32), rho@.len() - 1) == i as int);
        }
        match coef {
            Ok(c) => {
                proof {
                    assert(c@.len() == i as int);
                }
                let last = c[i - 1];
                y.push(last);
            },
            Err(_) => {
                proof {
                    assert(!ar_solvable(rho@, i as int));
                }
                return Err(ArimaError);
            },
        }
        i += 1;
    }
    proof {
        assert(y@ =~= pacf_spec(rho@, max_lag));
    }
    Ok(y)
}

/// Calculate the partial auto-correlation coefficients of a time series of
/// length n.
///
/// The correlations are computed first with the same lag bound, and the
/// per-order Yule-Walker solves of `pacf_rho` are then run against them; a
/// solve failure at any order is propagated.
pub fn pacf(x: &Vec<u64>, max_lag: Option<u32>) -> (r: Result<Vec<u64>, ArimaError>)
    requires
        x@.len() >= 1,
        x@.len() <= u32::MAX,
    ensures
        ({
            let rho = acf_spec(x@, max_lag, false);
            &&& (r is Ok <==> pacf_ok(rho, max_lag))
            &&& (r is Ok ==> r->Ok_0@ == pacf_spec(rho, max_lag))
        }),
{
    let rho = match acf(x, max_lag, false) {
        Ok(v) => v,
        Err(e) => {
            return Err(e);
        },
    };
    pacf_rho(&rho, max_lag)
}

/// In correlation mode the lag-0 entry of the ACF is exactly the bit
/// pattern of 1.0, for every series and every lag request.
pub proof fn lemma_acf_corr_lag0(x: Seq<u64>, max_lag: Option<u32>)
    requires
        x.len() >= 1,
    ensures
        acf_spec(x, max_lag, false).len() >= 1,
        acf_spec(x, max_lag, false)[0] == ONE_BITS,
{
}

/// In covariance mode the lag-0 entry of the ACF is the population variance
/// of the series: the mean-centered sum of squares, each term divided by n,
/// accumulated in IEEE double arithmetic.
pub proof fn lemma_acf_cov_lag0(x: Seq<u64>, max_lag: Option<u32>)
    requires
        x.len() >= 1,
    ensures
        acf_spec(x, max_lag, true)[0] == acov_bits(x, 0),
{
}

/// A lag request beyond what the series supports is clamped, never
/// rejected: the ACF output never holds more than `x.len()` entries, and
/// holds exactly the clamped count plus one.
pub proof fn lemma_acf_clamps(x: Seq<u64>, max_lag: Option<u32>, covariance: bool)
    requires
        x.len() >= 1,
    ensures
        acf_spec(x, max_lag, covariance).len() == clamped_lag(max_lag, x.len() - 1) + 1,
        acf_spec(x, max_lag, covariance).len() <= x.len(),
{
}

/// The ACF is specified as a pure function of its arguments: any two
/// results that meet its contract for identical inputs are bit-identical.
pub proof fn lemma_acf_deterministic(
    x: Seq<u64>,
    max_lag: Option<u32>,
    covariance: bool,
    r1: Seq<u64>,
    r2: Seq<u64>,
)
    requires
        r1 == acf_spec(x, max_lag, covariance),
        r2 == acf_spec(x, max_lag, covariance),
    ensures
        r1 == r2,
{
}

/// The two Yule-Walker entry points agree: the coefficients the series
/// entry point is specified to return are exactly the coefficients
/// `ar_coef_rho` is specified to return for the correlations the series
/// entry point computes, so matching inputs force bit-identical results.
pub proof fn lemma_ar_entry_points_agree(
    x: Seq<u64>,
    order: Option<u32>,
    phi_series: Seq<u64>,
    phi_rho: Seq<u64>,
)
    requires
        phi_series == ar_solution(
            acf_spec(x, series_lag_request(order), false),
            clamped_lag(order, acf_spec(x, series_lag_request(order), false).len() - 1),
        ),
        phi_rho == ar_solution(
            acf_spec(x, series_lag_request(order), false),
            clamped_lag(order, acf_spec(x, series_lag_request(order), false).len() - 1),
        ),
    ensures
        phi_series == phi_rho,
{
}

/// Each partial autocorrelation is, by construction, the last coefficient
/// of the Yule-Walker solution of its order: entry `i - 1` of the PACF is
/// entry `i - 1` of the order-`i` AR coefficient vector.
pub proof fn lemma_pacf_is_last_ar_coef(rho: Seq<u64>, max_lag: Option<u32>, i: int)
    requires
        1 <= i <= clamped_lag(max_lag, rho.len() - 1),
    ensures
        pacf_spec(rho, max_lag)[i - 1] == ar_solution(rho, i)[i - 1],
{
}

/// At maximum lag 1 the PACF is a single value: the order-1 Yule-Walker
/// system is one equation with the unit diagonal as its only coefficient,
/// so the solve degenerates to dividing the lag-1 correlation by 1.0.
pub proof fn lemma_pacf_lag1(rho: Seq<u64>)
    requires
        rho.len() >= 2,
    ensures
        pacf_spec(rho, Some(1u32)).len() == 1,
        pacf_spec(rho, Some(1u32))[0] == div_bits(rho[1], ONE_BITS),
{
    let a = yw_matrix(rho, 1);
    let b = yw_rhs(rho, 1);
    let st0 = crate::solve::ldl_state(a, 1, 0);
    let st = crate::solve::ldl_state(a, 1, 1);
    assert(st0.0 =~= Seq::<Seq<u64>>::empty());
    assert(st0.1 =~= Seq::<u64>::empty());
    assert(a[0][0] == ONE_BITS);
    assert(st.1[0] == crate::solve::pivot_partial(a, st0.0, st0.1, 0, 0));
    assert(st.1[0] == ONE_BITS);
    let z0 = crate::solve::fwd_state(b, st.0, 0);
    assert(z0 =~= Seq::<u64>::empty());
    let z = crate::solve::fwd_state(b, st.0, 1);
    assert(z[0] == crate::solve::fwd_partial(b, st.0, z0, 0, 0));
    assert(z[0] == rho[1]);
    let w = crate::solve::scaled_state(b, st.0, st.1, 1);
    assert(w[0] == div_bits(rho[1], ONE_BITS));
    let tail = crate::solve::back_state(w, st.0, 1, 1);
    assert(crate::solve::back_val(w, st.0, 1, 0) == crate::solve::back_partial(
        w,
        st.0,
        tail,
        0,
        0,
    ));
    assert(ar_solution(rho, 1)[0] == w[0]);
    assert(pacf_spec(rho, Some(1u32))[0] == ar_solution(rho, 1)[0]);
}

} // verus!
