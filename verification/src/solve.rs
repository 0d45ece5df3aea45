//! A symmetric positive-definite linear solve by LDL^T factorization.
//!
//! Given a symmetric matrix `A` (as rows) and a right-hand side `b`, the
//! solver factors `A = L D L^T` with `L` unit lower triangular, column by
//! column, and reports `ArimaError` as soon as a pivot of `D` fails to be
//! strictly positive — exactly the leading-minor test by which a Cholesky
//! routine rejects a system that is not positive definite. On success it
//! returns the solution of `A x = b` obtained by forward substitution,
//! scaling by the pivots, and back substitution.
//!
//! Every value is an IEEE-754 double carried as its bit pattern, and every
//! spec function below mirrors the accumulation order of the executable code
//! exactly, so the contracts pin the result bit for bit.
use vstd::prelude::*;

use crate::ArimaError;
use crate::scalar::{
    ZERO_BITS, div_bits, is_pos_bits, mul_bits, scalar_div, scalar_is_pos, scalar_mul, scalar_sub,
    sub_bits,
};

verus! {

/// The rows of a matrix held as a vector of row vectors, as a sequence of
/// sequences.
pub open spec fn mat_view(a: Seq<Vec<u64>>) -> Seq<Seq<u64>> {
    Seq::new(a.len(), |i: int| a[i]@)
}

/// A well-shaped `n` by `n` matrix of scalars.
pub open spec fn is_square(a: Seq<Seq<u64>>, n: int) -> bool {
    &&& a.len() == n
    &&& forall|i: int| 0 <= i < n ==> #[trigger] a[i].len() == n
}

/// The first `m` subtractions of the pivot accumulation for column `c`:
/// `a[c][c] - sum_{k < m} l[c][k] * l[c][k] * d[k]`, in the order the code
/// performs them. Column `k` of `cols` holds the multipliers `l[i][k]`.
pub open spec fn pivot_partial(
    a: Seq<Seq<u64>>,
    cols: Seq<Seq<u64>>,
    ds: Seq<u64>,
    c: int,
    m: int,
) -> u64
    decreases m,
{
    if m <= 0 {
        a[c][c]
    } else {
        sub_bits(
            pivot_partial(a, cols, ds, c, m - 1),
            mul_bits(mul_bits(cols[m - 1][c], cols[m - 1][c]), ds[m - 1]),
        )
    }
}

/// The first `m` subtractions of the numerator of the multiplier `l[i][c]`:
/// `a[i][c] - sum_{k < m} l[i][k] * l[c][k] * d[k]`, in the order the code
/// performs them.
pub open spec fn entry_partial(
    a: Seq<Seq<u64>>,
    cols: Seq<Seq<u64>>,
    ds: Seq<u64>,
    i: int,
    c: int,
    m: int,
) -> u64
    decreases m,
{
    if m <= 0 {
        a[i][c]
    } else {
        sub_bits(
            entry_partial(a, cols, ds, i, c, m - 1),
            mul_bits(mul_bits(cols[m - 1][i], cols[m - 1][c]), ds[m - 1]),
        )
    }
}

/// The state of the factorization after its first `j` columns: the columns
/// of `L` computed so far (each padded with zeros on and above the
/// diagonal), and the pivots of `D` computed so far.
pub open spec fn ldl_state(a: Seq<Seq<u64>>, n: int, j: int) -> (Seq<Seq<u64>>, Seq<u64>)
    decreases j,
{
    if j <= 0 {
        (Seq::empty(), Seq::empty())
    } else {
        let (cols, ds) = ldl_state(a, n, j - 1);
        let c = j - 1;
        let piv = pivot_partial(a, cols, ds, c, c);
        let col = Seq::new(
            n as nat,
            |i: int|
                if i > c {
                    div_bits(entry_partial(a, cols, ds, i, c, c), piv)
                } else {
                    ZERO_BITS
                },
        );
        (cols.push(col), ds.push(piv))
    }
}

/// Whether the factorization completes: every pivot of `D` is strictly
/// positive. This is the acceptance test of the solver; a system whose
/// matrix is not symmetric positive definite fails it.
pub open spec fn spd_solvable(a: Seq<Seq<u64>>, n: int) -> bool {
    forall|c: int| 0 <= c < n ==> is_pos_bits(#[trigger] ldl_state(a, n, n).1[c])
}

/// The first `m` subtractions of the forward-substitution value `z[i]`:
/// `b[i] - sum_{k < m} l[i][k] * z[k]`, in the order the code performs them.
pub open spec fn fwd_partial(
    b: Seq<u64>,
    cols: Seq<Seq<u64>>,
    zs: Seq<u64>,
    i: int,
    m: int,
) -> u64
    decreases m,
{
    if m <= 0 {
        b[i]
    } else {
        sub_bits(fwd_partial(b, cols, zs, i, m - 1), mul_bits(cols[m - 1][i], zs[m - 1]))
    }
}

/// The first `i` values of the forward substitution `L z = b`.
pub open spec fn fwd_state(b: Seq<u64>, cols: Seq<Seq<u64>>, i: int) -> Seq<u64>
    decreases i,
{
    if i <= 0 {
        Seq::empty()
    } else {
        let zs = fwd_state(b, cols, i - 1);
        zs.push(fwd_partial(b, cols, zs, i - 1, i - 1))
    }
}

/// The scaled intermediate values `w[i] = z[i] / d[i]` solving `D w = z`.
pub open spec fn scaled_state(b: Seq<u64>, cols: Seq<Seq<u64>>, ds: Seq<u64>, n: int) -> Seq<u64> {
    Seq::new(n as nat, |i: int| div_bits(fwd_state(b, cols, n)[i], ds[i]))
}

/// The first `m` subtractions of the back-substitution value `y[i]`:
/// `w[i] - sum_{i < k <= i + m} l[k][i] * y[k]`, in the order the code
/// performs them; `tail` holds `y[i+1] .. y[n-1]`.
pub open spec fn back_partial(
    w: Seq<u64>,
    cols: Seq<Seq<u64>>,
    tail: Seq<u64>,
    i: int,
    m: int,
) -> u64
    decreases m,
{
    if m <= 0 {
        w[i]
    } else {
        sub_bits(back_partial(w, cols, tail, i, m - 1), mul_bits(cols[i][i + m], tail[m - 1]))
    }
}

/// The values `y[i] .. y[n-1]` of the back substitution `L^T y = w`, in
/// index order.
pub open spec fn back_state(w: Seq<u64>, cols: Seq<Seq<u64>>, n: int, i: int) -> Seq<u64>
    decreases n - i,
{
    if i < 0 || i >= n {
        Seq::empty()
    } else {
        let tail = back_state(w, cols, n, i + 1);
        seq![back_partial(w, cols, tail, i, n - 1 - i)] + tail
    }
}

/// The back-substitution value `y[i]` alone.
pub open spec fn back_val(w: Seq<u64>, cols: Seq<Seq<u64>>, n: int, i: int) -> u64 {
    back_partial(w, cols, back_state(w, cols, n, i + 1), i, n - 1 - i)
}

/// The solution of `A x = b` that the solver returns when every pivot is
/// strictly positive.
pub open spec fn spd_solution(a: Seq<Seq<u64>>, b: Seq<u64>, n: int) -> Seq<u64> {
    let cols = ldl_state(a, n, n).0;
    let ds = ldl_state(a, n, n).1;
    let w = scaled_state(b, cols, ds, n);
    Seq::new(n as nat, |i: int| back_val(w, cols, n, i))
}

/// After `j` columns the factorization state holds exactly `j` columns and
/// `j` pivots.
pub proof fn lemma_ldl_state_len(a: Seq<Seq<u64>>, n: int, j: int)
    requires
        j >= 0,
    ensures
        ldl_state(a, n, j).0.len() == j,
        ldl_state(a, n, j).1.len() == j,
    decreases j,
{
    if j > 0 {
        lemma_ldl_state_len(a, n, j - 1);
    }
}

/// Columns and pivots, once computed, are not revisited: the state after
/// `j2` columns agrees with the state after `j1 <= j2` columns on the first
/// `j1` of them.
pub proof fn lemma_ldl_state_prefix(a: Seq<Seq<u64>>, n: int, j1: int, j2: int)
    requires
        0 <= j1 <= j2,
    ensures
        forall|k: int|
            0 <= k < j1 ==> #[trigger] ldl_state(a, n, j2).0[k] == ldl_state(a, n, j1).0[k],
        forall|k: int|
            0 <= k < j1 ==> #[trigger] ldl_state(a, n, j2).1[k] == ldl_state(a, n, j1).1[k],
    decreases j2 - j1,
{
    if j2 > j1 {
        lemma_ldl_state_prefix(a, n, j1, j2 - 1);
        lemma_ldl_state_len(a, n, j2 - 1);
    }
}

/// The back-substitution values, read through `back_state`, are the
/// per-index values `back_val`.
pub proof fn lemma_back_state_index(w: Seq<u64>, cols: Seq<Seq<u64>>, n: int, i: int, k: int)
    requires
        0 <= i,
        0 <= k,
        i + k < n,
    ensures
        back_state(w, cols, n, i).len() == n - i,
        back_state(w, cols, n, i)[k] == back_val(w, cols, n, i + k),
    decreases n - i,
{
    lemma_back_state_len(w, cols, n, i + 1);
    if k > 0 {
        lemma_back_state_index(w, cols, n, i + 1, k - 1);
    }
}

/// The back substitution produces one value per remaining index.
pub proof fn lemma_back_state_len(w: Seq<u64>, cols: Seq<Seq<u64>>, n: int, i: int)
    requires
        0 <= i,
    ensures
        back_state(w, cols, n, i).len() == if i <= n {
            n - i
        } else {
            0
        },
    decreases n - i,
{
    if 0 <= i && i < n {
        lemma_back_state_len(w, cols, n, i + 1);
    }
}

/// Solve `A x = b` for a symmetric matrix `A` given by its rows, by LDL^T
/// factorization with strictly positive pivots. Returns `ArimaError` — and
/// no solution vector — exactly when some pivot fails the positivity test,
/// which is the solver's report that the system is not symmetric positive
/// definite.
pub fn solve_spd(a: &Vec<Vec<u64>>, b: &Vec<u64>, n: usize) -> (r: Result<Vec<u64>, ArimaError>)
    requires
        is_square(mat_view(a@), n as int),
        b@.len() == n,
    ensures
        r is Ok <==> spd_solvable(mat_view(a@), n as int),
        r is Ok ==> r->Ok_0@ == spd_solution(mat_view(a@), b@, n as int),
{
    let ghost av = mat_view(a@);
    let mut cols: Vec<Vec<u64>> = Vec::new();
    let mut ds: Vec<u64> = Vec::new();
    let mut j: usize = 0;
    while j < n
        invariant
            j <= n,
            is_square(av, n as int),
            av == mat_view(a@),
            a@.len() == n,
            b@.len() == n,
            cols@.len() == j,
            ds@.len() == j,
            mat_view(cols@) == ldl_state(av, n as int, j as int).0,
            ds@ == ldl_state(av, n as int, j as int).1,
            forall|c: int| 0 <= c < j ==> #[trigger] cols@[c]@.len() == n,
            forall|c: int| 0 <= c < j ==> is_pos_bits(#[trigger] ds@[c]),
        decreases n - j,
    {
        let ghost colsv = mat_view(cols@);
        let ghost dsv = ds@;
        // the pivot d[j] = a[j][j] - sum_{k < j} l[j][k]^2 d[k]
        proof {
            assert(av[j as int] == a@[j as int]@);
            assert(av[j as int].len() == n);
        }
        let mut piv: u64 = a[j][j];
        let mut k: usize = 0;
        while k < j
            invariant
                k <= j < n,
                a@.len() == n,
                is_square(av, n as int),
                av == mat_view(a@),
                cols@.len() == j,
                ds@.len() == j,
                colsv == mat_view(cols@),
                dsv == ds@,
                forall|c: int| 0 <= c < j ==> #[trigger] cols@[c]@.len() == n,
                piv == pivot_partial(av, colsv, dsv, j as int, k as int),
            decreases j - k,
        {
            let ljk = cols[k][j];
            piv = scalar_sub(piv, scalar_mul(scalar_mul(ljk, ljk), ds[k]));
            k += 1;
        }
        if !scalar_is_pos(piv) {
            proof {
                // this pivot is the one the full factorization records for
                // column j, so the system is not solvable
                lemma_ldl_state_len(av, n as int, j as int);
                lemma_ldl_state_len(av, n as int, j as int + 1);
                lemma_ldl_state_len(av, n as int, n as int);
                lemma_ldl_state_prefix(av, n as int, j as int + 1, n as int);
                assert(ldl_state(av, n as int, n as int).1[j as int] == ldl_state(
                    av,
                    n as int,
                    j as int + 1,
                ).1[j as int]);
                assert(ldl_state(av, n as int, j as int + 1).1[j as int] == piv);
            }
            return Err(ArimaError);
        }
        // the multipliers l[i][j] = (a[i][j] - sum_{k < j} l[i][k] l[j][k] d[k]) / d[j]
        let mut col: Vec<u64> = Vec::new();
        let mut i: usize = 0;
        while i < n
            invariant
                i <= n,
                j < n,
                a@.len() == n,
                is_square(av, n as int),
                av == mat_view(a@),
                cols@.len() == j,
                ds@.len() == j,
                colsv == mat_view(cols@),
                dsv == ds@,
                forall|c: int| 0 <= c < j ==> #[trigger] cols@[c]@.len() == n,
                col@.len() == i,
                forall|ii: int|
                    0 <= ii < i ==> #[trigger] col@[ii] == if ii > j {
                        div_bits(entry_partial(av, colsv, dsv, ii, j as int, j as int), piv)
                    } else {
                        ZERO_BITS
                    },
            decreases n - i,
        {
            if i > j {
                proof {
                    assert(av[i as int] == a@[i as int]@);
                    assert(av[i as int].len() == n);
                }
                let mut num: u64 = a[i][j];
                let mut k2: usize = 0;
                while k2 < j
                    invariant
                        k2 <= j < n,
                        i < n,
                        a@.len() == n,
                        is_square(av, n as int),
                        av == mat_view(a@),
                        cols@.len() == j,
                        ds@.len() == j,
                        colsv == mat_view(cols@),
                        dsv == ds@,
                        forall|c: int| 0 <= c < j ==> #[trigger] cols@[c]@.len() == n,
                        num == entry_partial(av, colsv, dsv, i as int, j as int, k2 as int),
                    decreases j - k2,
                {
                    num = scalar_sub(num, scalar_mul(scalar_mul(cols[k2][i], cols[k2][j]), ds[k2]));
                    k2 += 1;
                }
                col.push(scalar_div(num, piv));
            } else {
                col.push(ZERO_BITS);
            }
            i += 1;
        }
        proof {
            let st = ldl_state(av, n as int, j as int + 1);
            assert(col@ =~= Seq::new(
                n as nat,
                |ii: int|
                    if ii > j {
                        div_bits(entry_partial(av, colsv, dsv, ii, j as int, j as int), piv)
                    } else {
                        ZERO_BITS
                    },
            ));
            assert(mat_view(cols@.push(col)) =~= st.0);
            assert(ds@.push(piv) =~= st.1);
        }
        cols.push(col);
        ds.push(piv);
        j += 1;
    }
    // every pivot was strictly positive: the factorization stands, and with
    // it the forward substitution L z = b
    let ghost colsv = mat_view(cols@);
    let mut z: Vec<u64> = Vec::new();
    let mut i: usize = 0;
    while i < n
        invariant
            i <= n,
            b@.len() == n,
            cols@.len() == n,
            colsv == mat_view(cols@),
            forall|c: int| 0 <= c < n ==> #[trigger] cols@[c]@.len() == n,
            z@ == fwd_state(b@, colsv, i as int),
            z@.len() == i,
        decreases n - i,
    {
        let mut acc: u64 = b[i];
        let mut k: usize = 0;
        while k < i
            invariant
                k <= i < n,
                b@.len() == n,
                cols@.len() == n,
                colsv == mat_view(cols@),
                forall|c: int| 0 <= c < n ==> #[trigger] cols@[c]@.len() == n,
                z@ == fwd_state(b@, colsv, i as int),
                z@.len() == i,
                acc == fwd_partial(b@, colsv, z@, i as int, k as int),
            decreases i - k,
        {
            acc = scalar_sub(acc, scalar_mul(cols[k][i], z[k]));
            k += 1;
        }
        z.push(acc);
        i += 1;
    }
    // the scaling D w = z
    let mut w: Vec<u64> = Vec::new();
    let mut i2: usize = 0;
    while i2 < n
        invariant
            i2 <= n,
            z@.len() == n,
            ds@.len() == n,
            z@ == fwd_state(b@, colsv, n as int),
            w@.len() == i2,
            forall|c: int| 0 <= c < i2 ==> #[trigger] w@[c] == div_bits(z@[c], ds@[c]),
        decreases n - i2,
    {
        w.push(scalar_div(z[i2], ds[i2]));
        i2 += 1;
    }
    let ghost wv = scaled_state(b@, colsv, ds@, n as int);
    proof {
        assert(w@ =~= wv);
    }
    // the back substitution L^T y = w, from the last unknown upward
    let mut yrev: Vec<u64> = Vec::new();
    let mut i3: usize = n;
    while i3 > 0
        invariant
            i3 <= n,
            w@.len() == n,
            w@ == wv,
            cols@.len() == n,
            colsv == mat_view(cols@),
            forall|c: int| 0 <= c < n ==> #[trigger] cols@[c]@.len() == n,
            yrev@.len() == n - i3,
            forall|q: int|
                i3 <= q < n ==> #[trigger] yrev@[n - 1 - q] == back_val(wv, colsv, n as int, q),
        decreases i3,
    {
        i3 -= 1;
        let mut acc: u64 = w[i3];
        let mut m: usize = 0;
        proof {
            lemma_back_state_len(wv, colsv, n as int, i3 as int + 1);
        }
        while m < n - 1 - i3
            invariant
                m <= n - 1 - i3,
                i3 < n,
                w@.len() == n,
                w@ == wv,
                cols@.len() == n,
                colsv == mat_view(cols@),
                forall|c: int| 0 <= c < n ==> #[trigger] cols@[c]@.len() == n,
                yrev@.len() == n - 1 - i3,
                forall|q: int|
                    i3 < q < n ==> #[trigger] yrev@[n - 1 - q] == back_val(wv, colsv, n as int, q),
                acc == back_partial(
                    wv,
                    colsv,
                    back_state(wv, colsv, n as int, i3 as int + 1),
                    i3 as int,
                    m as int,
                ),
            decreases n - 1 - i3 - m,
        {
            let kk: usize = i3 + m + 1;
            proof {
                lemma_back_state_index(wv, colsv, n as int, i3 as int + 1, m as int);
            }
            acc = scalar_sub(acc, scalar_mul(cols[i3][kk], yrev[n - 1 - kk]));
            m += 1;
        }
        yrev.push(acc);
    }
    // assemble the solution back into index order
    let mut y: Vec<u64> = Vec::new();
    let mut i4: usize = 0;
    while i4 < n
        invariant
            i4 <= n,
            yrev@.len() == n,
            forall|q: int| 0 <= q < n ==> #[trigger] yrev@[n - 1 - q] == back_val(wv, colsv, n as int, q),
            y@.len() == i4,
            forall|q: int| 0 <= q < i4 ==> #[trigger] y@[q] == back_val(wv, colsv, n as int, q),
        decreases n - i4,
    {
        y.push(yrev[n - 1 - i4]);
        i4 += 1;
    }
    proof {
        assert(y@ =~= spd_solution(av, b@, n as int));
    }
    Ok(y)
}

} // verus!
