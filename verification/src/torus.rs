//! Mathematical model of a row-major 2D torus: wrap-around coordinates,
//! flat indices, neighbour sums and the Ising bond-energy sum, with the
//! lemmas that relate them.
use vstd::prelude::*;
use vstd::arithmetic::div_mod::{
    lemma_fundamental_div_mod,
    lemma_fundamental_div_mod_converse,
    lemma_mod_bound,
    lemma_div_pos_is_pos,
};

verus! {

/// One step back on a ring of `n` positions, as `(i + n - 1) % n`.
pub open spec fn ring_prev(i: int, n: int) -> int {
    (i + n - 1) % n
}

/// One step forward on a ring of `n` positions, as `(i + 1) % n`.
pub open spec fn ring_next(i: int, n: int) -> int {
    (i + 1) % n
}

/// Row-major flat index of `(row, col)` in a grid with `ncols` columns.
pub open spec fn flat(row: int, col: int, ncols: int) -> int {
    row * ncols + col
}

/// Flat index of the neighbour above `(row, col)`.
pub open spec fn up_of(nrows: int, ncols: int, row: int, col: int) -> int {
    flat(ring_prev(row, nrows), col, ncols)
}

/// Flat index of the neighbour below `(row, col)`.
pub open spec fn down_of(nrows: int, ncols: int, row: int, col: int) -> int {
    flat(ring_next(row, nrows), col, ncols)
}

/// Flat index of the neighbour left of `(row, col)`.
pub open spec fn left_of(nrows: int, ncols: int, row: int, col: int) -> int {
    flat(row, ring_prev(col, ncols), ncols)
}

/// Flat index of the neighbour right of `(row, col)`.
pub open spec fn right_of(nrows: int, ncols: int, row: int, col: int) -> int {
    flat(row, ring_next(col, ncols), ncols)
}

/// The four neighbour indices of `(row, col)` lie below `len`, and
/// computing them in `usize` (`(row + nrows - 1) % nrows` and the like)
/// neither divides by zero nor overflows.
pub open spec fn neighbors_inside(nrows: int, ncols: int, row: int, col: int, len: int) -> bool {
    &&& nrows > 0
    &&& ncols > 0
    &&& row + nrows <= usize::MAX
    &&& col + ncols <= usize::MAX
    &&& up_of(nrows, ncols, row, col) < len
    &&& down_of(nrows, ncols, row, col) < len
    &&& left_of(nrows, ncols, row, col) < len
    &&& right_of(nrows, ncols, row, col) < len
}

/// Sum of the values at the four nearest neighbours of `(row, col)`.
pub open spec fn nn_sum_of(s: Seq<int>, nrows: int, ncols: int, row: int, col: int) -> int {
    s[up_of(nrows, ncols, row, col)] + s[down_of(nrows, ncols, row, col)]
        + s[left_of(nrows, ncols, row, col)] + s[right_of(nrows, ncols, row, col)]
}

/// Energy change (`J = 1`) that flipping the spin at `(row, col)` costs:
/// `2 * s * (sum of the four neighbours)`.
pub open spec fn flip_cost_of(s: Seq<int>, nrows: int, ncols: int, row: int, col: int) -> int {
    2 * s[flat(row, col, ncols)] * nn_sum_of(s, nrows, ncols, row, col)
}

/// `f(0) + f(1) + ... + f(k - 1)`.
pub open spec fn sum_to(f: spec_fn(int) -> int, k: int) -> int
    decreases k,
{
    if k <= 0 {
        0
    } else {
        sum_to(f, k - 1) + f(k - 1)
    }
}

/// Product of the value at flat index `i` with the sum of its four neighbours.
pub open spec fn bond_term(s: Seq<int>, nrows: int, ncols: int, i: int) -> int {
    s[i] * nn_sum_of(s, nrows, ncols, i / ncols, i % ncols)
}

/// `bond_term` summed over the first `k` flat indices.
pub open spec fn bond_sum_to(s: Seq<int>, nrows: int, ncols: int, k: int) -> int {
    sum_to(|i: int| bond_term(s, nrows, ncols, i), k)
}

/// Twice the total Ising energy (`J = 1`, no field) of the configuration
/// `s`: `-(sum over sites of s_i * (sum of its four neighbours))`, which
/// counts each bond once from each end.
pub open spec fn doubled_energy_of(s: Seq<int>, nrows: int, ncols: int) -> int {
    -bond_sum_to(s, nrows, ncols, nrows * ncols)
}

/// The total Ising energy (`J = 1`, no field) of `s` with every bond of
/// the torus counted once: each site bonds with the site below it and the
/// site to its right.
pub open spec fn bond_energy_of(s: Seq<int>, nrows: int, ncols: int) -> int {
    -sum_to(
        |i: int|
            s[i] * (s[down_of(nrows, ncols, i / ncols, i % ncols)] + s[right_of(
                nrows,
                ncols,
                i / ncols,
                i % ncols,
            )]),
        nrows * ncols,
    )
}

/// `f(r, c)` summed over `0 <= r < nrows`, `0 <= c < ncols`.
pub open spec fn grid_sum(f: spec_fn(int, int) -> int, nrows: int, ncols: int) -> int {
    sum_to(|r: int| sum_to(|c: int| f(r, c), ncols), nrows)
}

/// Sum of the first `k` values of `s`.
pub open spec fn value_sum_to(s: Seq<int>, k: int) -> int {
    sum_to(|i: int| s[i], k)
}

/// The configuration `s` with the value at flat index `p` negated.
pub open spec fn negate_at(s: Seq<int>, p: int) -> Seq<int> {
    s.update(p, -s[p])
}

/// Every value is `+1` or `-1`.
pub open spec fn all_unit(s: Seq<int>) -> bool {
    forall|i: int| 0 <= i < s.len() ==> #[trigger] s[i] == 1 || s[i] == -1
}

// ---------------------------------------------------------------------------
// Index arithmetic
// ---------------------------------------------------------------------------

/// An in-range `(row, col)` has an in-range flat index, from which the
/// coordinates are recovered by division and remainder.
pub proof fn lemma_flat_in_range(nrows: int, ncols: int, row: int, col: int)
    requires
        0 <= row < nrows,
        0 <= col < ncols,
    ensures
        0 <= flat(row, col, ncols) < nrows * ncols,
        flat(row, col, ncols) / ncols == row,
        flat(row, col, ncols) % ncols == col,
{
    assert(0 <= row * ncols + col < nrows * ncols) by (nonlinear_arith)
        requires
            0 <= row < nrows,
            0 <= col < ncols,
    ;
    lemma_fundamental_div_mod_converse(flat(row, col, ncols), ncols, row, col);
}

/// The flat index of a pair of natural numbers is a natural number.
pub proof fn lemma_flat_nonneg(row: int, col: int, ncols: int)
    requires
        0 <= row,
        0 <= col,
        0 <= ncols,
    ensures
        0 <= flat(row, col, ncols),
{
    assert(0 <= row * ncols) by (nonlinear_arith)
        requires
            0 <= row,
            0 <= ncols,
    ;
}

/// On a ring of `n >= 1` positions both steps land on a natural number.
pub proof fn lemma_ring_nonneg(i: int, n: int)
    requires
        0 < n,
    ensures
        0 <= ring_prev(i, n) < n,
        0 <= ring_next(i, n) < n,
{
    lemma_mod_bound(i + n - 1, n);
    lemma_mod_bound(i + 1, n);
}

/// Every flat index below `nrows * ncols` is the flat index of an in-range
/// coordinate pair.
pub proof fn lemma_unflat(nrows: int, ncols: int, i: int)
    requires
        0 < ncols,
        0 <= i < nrows * ncols,
    ensures
        0 <= i / ncols < nrows,
        0 <= i % ncols < ncols,
        flat(i / ncols, i % ncols, ncols) == i,
{
    lemma_fundamental_div_mod(i, ncols);
    lemma_mod_bound(i, ncols);
    lemma_div_pos_is_pos(i, ncols);
    let q = i / ncols;
    let r = i % ncols;
    assert(q * ncols == ncols * q) by (nonlinear_arith);
    assert(q < nrows) by (nonlinear_arith)
        requires
            i == q * ncols + r,
            0 <= r,
            i < nrows * ncols,
            0 < ncols,
    ;
}

/// Distinct in-range coordinate pairs have distinct flat indices.
pub proof fn lemma_flat_injective(ncols: int, r1: int, c1: int, r2: int, c2: int)
    requires
        0 <= c1 < ncols,
        0 <= c2 < ncols,
    ensures
        flat(r1, c1, ncols) == flat(r2, c2, ncols) <==> (r1 == r2 && c1 == c2),
{
    if flat(r1, c1, ncols) == flat(r2, c2, ncols) {
        lemma_fundamental_div_mod_converse(flat(r1, c1, ncols), ncols, r1, c1);
        lemma_fundamental_div_mod_converse(flat(r2, c2, ncols), ncols, r2, c2);
    }
}

/// On a ring of `n >= 1` positions, stepping back and forward stay on the
/// ring, in closed form.
pub proof fn lemma_ring_steps(i: int, n: int)
    requires
        0 <= i < n,
    ensures
        ring_prev(i, n) == (if i == 0 { n - 1 } else { i - 1 }),
        ring_next(i, n) == (if i == n - 1 { 0 } else { i + 1 }),
{
    if i == 0 {
        lemma_fundamental_div_mod_converse(i + n - 1, n, 0, n - 1);
    } else {
        lemma_fundamental_div_mod_converse(i + n - 1, n, 1, i - 1);
    }
    if i == n - 1 {
        lemma_fundamental_div_mod_converse(i + 1, n, 1, 0);
    } else {
        lemma_fundamental_div_mod_converse(i + 1, n, 0, i + 1);
    }
}

/// Stepping back undoes stepping forward and vice versa; on a ring of at
/// least two positions neither step stays in place.
pub proof fn lemma_ring_inverse(i: int, j: int, n: int)
    requires
        0 <= i < n,
        0 <= j < n,
    ensures
        0 <= ring_prev(i, n) < n,
        0 <= ring_next(i, n) < n,
        ring_prev(i, n) == j <==> i == ring_next(j, n),
        ring_next(ring_prev(i, n), n) == i,
        ring_prev(ring_next(i, n), n) == i,
        n >= 2 ==> ring_prev(i, n) != i && ring_next(i, n) != i,
{
    lemma_ring_steps(i, n);
    lemma_ring_steps(j, n);
    lemma_ring_steps(ring_prev(i, n), n);
    lemma_ring_steps(ring_next(i, n), n);
}

/// The four neighbour indices of an in-range site are in range; on a torus
/// of at least two rows and two columns none of them is the site itself.
pub proof fn lemma_neighbors_in_range(nrows: int, ncols: int, row: int, col: int)
    requires
        0 <= row < nrows,
        0 <= col < ncols,
    ensures
        0 <= up_of(nrows, ncols, row, col) < nrows * ncols,
        0 <= down_of(nrows, ncols, row, col) < nrows * ncols,
        0 <= left_of(nrows, ncols, row, col) < nrows * ncols,
        0 <= right_of(nrows, ncols, row, col) < nrows * ncols,
        nrows >= 2 && ncols >= 2 ==> {
            &&& up_of(nrows, ncols, row, col) != flat(row, col, ncols)
            &&& down_of(nrows, ncols, row, col) != flat(row, col, ncols)
            &&& left_of(nrows, ncols, row, col) != flat(row, col, ncols)
            &&& right_of(nrows, ncols, row, col) != flat(row, col, ncols)
        },
{
    lemma_ring_inverse(row, row, nrows);
    lemma_ring_inverse(col, col, ncols);
    lemma_flat_in_range(nrows, ncols, ring_prev(row, nrows), col);
    lemma_flat_in_range(nrows, ncols, ring_next(row, nrows), col);
    lemma_flat_in_range(nrows, ncols, row, ring_prev(col, ncols));
    lemma_flat_in_range(nrows, ncols, row, ring_next(col, ncols));
    lemma_flat_injective(ncols, ring_prev(row, nrows), col, row, col);
    lemma_flat_injective(ncols, ring_next(row, nrows), col, row, col);
    lemma_flat_injective(ncols, row, ring_prev(col, ncols), row, col);
    lemma_flat_injective(ncols, row, ring_next(col, ncols), row, col);
}

/// Site `(r, c)` has site `(row, col)` above it exactly when it is the site
/// below `(row, col)`; likewise for the other three directions.
pub proof fn lemma_neighbor_converse(nrows: int, ncols: int, row: int, col: int, r: int, c: int)
    requires
        0 <= row < nrows,
        0 <= col < ncols,
        0 <= r < nrows,
        0 <= c < ncols,
    ensures
        up_of(nrows, ncols, r, c) == flat(row, col, ncols)
            <==> flat(r, c, ncols) == down_of(nrows, ncols, row, col),
        down_of(nrows, ncols, r, c) == flat(row, col, ncols)
            <==> flat(r, c, ncols) == up_of(nrows, ncols, row, col),
        left_of(nrows, ncols, r, c) == flat(row, col, ncols)
            <==> flat(r, c, ncols) == right_of(nrows, ncols, row, col),
        right_of(nrows, ncols, r, c) == flat(row, col, ncols)
            <==> flat(r, c, ncols) == left_of(nrows, ncols, row, col),
{
    lemma_ring_inverse(r, row, nrows);
    lemma_ring_inverse(row, r, nrows);
    lemma_ring_inverse(c, col, ncols);
    lemma_ring_inverse(col, c, ncols);
    lemma_flat_injective(ncols, ring_prev(r, nrows), c, row, col);
    lemma_flat_injective(ncols, r, c, ring_next(row, nrows), col);
    lemma_flat_injective(ncols, ring_next(r, nrows), c, row, col);
    lemma_flat_injective(ncols, r, c, ring_prev(row, nrows), col);
    lemma_flat_injective(ncols, r, ring_prev(c, ncols), row, col);
    lemma_flat_injective(ncols, r, c, row, ring_next(col, ncols));
    lemma_flat_injective(ncols, r, ring_next(c, ncols), row, col);
    lemma_flat_injective(ncols, r, c, row, ring_prev(col, ncols));
}

// ---------------------------------------------------------------------------
// Finite sums
// ---------------------------------------------------------------------------

/// Sums of functions that agree on `0..k` are equal.
pub proof fn lemma_sum_ext(f: spec_fn(int) -> int, g: spec_fn(int) -> int, k: int)
    requires
        forall|i: int| 0 <= i < k ==> #[trigger] f(i) == g(i),
    ensures
        sum_to(f, k) == sum_to(g, k),
    decreases k,
{
    if k > 0 {
        lemma_sum_ext(f, g, k - 1);
    }
}

/// The sum of a difference is the difference of the sums.
pub proof fn lemma_sum_sub(f: spec_fn(int) -> int, g: spec_fn(int) -> int, k: int)
    ensures
        sum_to(f, k) - sum_to(g, k) == sum_to(|i: int| f(i) - g(i), k),
    decreases k,
{
    if k > 0 {
        lemma_sum_sub(f, g, k - 1);
    }
}

/// The sum of a pointwise sum is the sum of the sums.
pub proof fn lemma_sum_add(f: spec_fn(int) -> int, g: spec_fn(int) -> int, k: int)
    ensures
        sum_to(|i: int| f(i) + g(i), k) == sum_to(f, k) + sum_to(g, k),
    decreases k,
{
    if k > 0 {
        lemma_sum_add(f, g, k - 1);
    }
}

/// A function that is zero everywhere but at `q` sums to its value at `q`
/// when `q` lies in `0..k`.
pub proof fn lemma_sum_point(q: int, v: int, k: int)
    ensures
        sum_to(|i: int| if i == q { v } else { 0 }, k) == (if 0 <= q < k { v } else { 0 }),
    decreases k,
{
    if k > 0 {
        lemma_sum_point(q, v, k - 1);
    }
}

// ---------------------------------------------------------------------------
// Energy change of a single flip
// ---------------------------------------------------------------------------

/// How one bond term changes when the value at `(row, col)` is negated:
/// the term of the site itself changes by `-2 s nn`, and the term of each
/// of its neighbours by `-2 s` times that neighbour's value (counted once
/// per direction in which it neighbours the site).
proof fn lemma_bond_term_delta(s: Seq<int>, nrows: int, ncols: int, row: int, col: int, i: int)
    requires
        2 <= nrows,
        2 <= ncols,
        0 <= row < nrows,
        0 <= col < ncols,
        s.len() == nrows * ncols,
        0 <= i < nrows * ncols,
    ensures
        ({
            let p = flat(row, col, ncols);
            let sp = s[p];
            let up = up_of(nrows, ncols, row, col);
            let dn = down_of(nrows, ncols, row, col);
            let lf = left_of(nrows, ncols, row, col);
            let rt = right_of(nrows, ncols, row, col);
            bond_term(negate_at(s, p), nrows, ncols, i) - bond_term(s, nrows, ncols, i)
                == (if i == p { -2 * sp * nn_sum_of(s, nrows, ncols, row, col) } else { 0 })
                + (if i == dn { -2 * sp * s[dn] } else { 0 })
                + (if i == up { -2 * sp * s[up] } else { 0 })
                + (if i == rt { -2 * sp * s[rt] } else { 0 })
                + (if i == lf { -2 * sp * s[lf] } else { 0 })
        }),
{
    let p = flat(row, col, ncols);
    let sp = s[p];
    let s2 = negate_at(s, p);
    let up = up_of(nrows, ncols, row, col);
    let dn = down_of(nrows, ncols, row, col);
    let lf = left_of(nrows, ncols, row, col);
    let rt = right_of(nrows, ncols, row, col);
    lemma_unflat(nrows, ncols, i);
    let r = i / ncols;
    let c = i % ncols;
    lemma_flat_in_range(nrows, ncols, row, col);
    lemma_neighbors_in_range(nrows, ncols, row, col);
    lemma_neighbors_in_range(nrows, ncols, r, c);
    lemma_neighbor_converse(nrows, ncols, row, col, r, c);
    lemma_flat_injective(ncols, r, c, row, col);
    let ui = up_of(nrows, ncols, r, c);
    let di = down_of(nrows, ncols, r, c);
    let li = left_of(nrows, ncols, r, c);
    let ri = right_of(nrows, ncols, r, c);
    let nn1 = nn_sum_of(s, nrows, ncols, r, c);
    let nn2 = nn_sum_of(s2, nrows, ncols, r, c);
    let cu: int = if i == dn { 1 } else { 0 };
    let cd: int = if i == up { 1 } else { 0 };
    let cl: int = if i == rt { 1 } else { 0 };
    let cr: int = if i == lf { 1 } else { 0 };
    assert(s2[ui] == s[ui] - 2 * sp * cu);
    assert(s2[di] == s[di] - 2 * sp * cd);
    assert(s2[li] == s[li] - 2 * sp * cl);
    assert(s2[ri] == s[ri] - 2 * sp * cr);
    assert(nn2 == nn1 - 2 * sp * (cu + cd + cl + cr)) by (nonlinear_arith)
        requires
            nn1 == s[ui] + s[di] + s[li] + s[ri],
            nn2 == s2[ui] + s2[di] + s2[li] + s2[ri],
            s2[ui] == s[ui] - 2 * sp * cu,
            s2[di] == s[di] - 2 * sp * cd,
            s2[li] == s[li] - 2 * sp * cl,
            s2[ri] == s[ri] - 2 * sp * cr,
    ;
    if i == p {
        assert(cu == 0 && cd == 0 && cl == 0 && cr == 0);
        assert(s2[i] == -sp);
        assert(r == row && c == col);
        assert(bond_term(s2, nrows, ncols, i) - bond_term(s, nrows, ncols, i)
            == -2 * sp * nn1) by (nonlinear_arith)
            requires
                bond_term(s2, nrows, ncols, i) == s2[i] * nn2,
                bond_term(s, nrows, ncols, i) == sp * nn1,
                s2[i] == -sp,
                nn2 == nn1,
        ;
    } else {
        let si = s[i];
        assert(s2[i] == si);
        assert(cu == 1 ==> si == s[dn]);
        assert(cd == 1 ==> si == s[up]);
        assert(cl == 1 ==> si == s[rt]);
        assert(cr == 1 ==> si == s[lf]);
        assert(si * nn2 - si * nn1
            == (if cu == 1 { -2 * sp * s[dn] } else { 0 })
            + (if cd == 1 { -2 * sp * s[up] } else { 0 })
            + (if cl == 1 { -2 * sp * s[rt] } else { 0 })
            + (if cr == 1 { -2 * sp * s[lf] } else { 0 })) by (nonlinear_arith)
            requires
                nn2 == nn1 - 2 * sp * (cu + cd + cl + cr),
                cu == 0 || cu == 1,
                cd == 0 || cd == 1,
                cl == 0 || cl == 1,
                cr == 0 || cr == 1,
                cu == 1 ==> si == s[dn],
                cd == 1 ==> si == s[up],
                cl == 1 ==> si == s[rt],
                cr == 1 ==> si == s[lf],
        ;
    }
}

/// The flip cost is the energy change: negating the spin at an in-range
/// site of a torus with at least two rows and two columns changes twice the
/// energy by exactly twice `flip_cost_of` that site.
pub proof fn lemma_flip_cost_is_energy_change(s: Seq<int>, nrows: int, ncols: int, row: int, col: int)
    requires
        2 <= nrows,
        2 <= ncols,
        0 <= row < nrows,
        0 <= col < ncols,
        s.len() == nrows * ncols,
    ensures
        doubled_energy_of(negate_at(s, flat(row, col, ncols)), nrows, ncols)
            - doubled_energy_of(s, nrows, ncols) == 2 * flip_cost_of(s, nrows, ncols, row, col),
{
    let n = nrows * ncols;
    let p = flat(row, col, ncols);
    let sp = s[p];
    let s2 = negate_at(s, p);
    let up = up_of(nrows, ncols, row, col);
    let dn = down_of(nrows, ncols, row, col);
    let lf = left_of(nrows, ncols, row, col);
    let rt = right_of(nrows, ncols, row, col);
    let nnp = nn_sum_of(s, nrows, ncols, row, col);
    lemma_flat_in_range(nrows, ncols, row, col);
    lemma_neighbors_in_range(nrows, ncols, row, col);

    let f2 = |i: int| bond_term(s2, nrows, ncols, i);
    let f1 = |i: int| bond_term(s, nrows, ncols, i);
    let fa = |i: int| if i == p { -2 * sp * nnp } else { 0 };
    let fb = |i: int| if i == dn { -2 * sp * s[dn] } else { 0 };
    let fc = |i: int| if i == up { -2 * sp * s[up] } else { 0 };
    let fd = |i: int| if i == rt { -2 * sp * s[rt] } else { 0 };
    let fe = |i: int| if i == lf { -2 * sp * s[lf] } else { 0 };
    let gab = |i: int| fa(i) + fb(i);
    let gabc = |i: int| gab(i) + fc(i);
    let gabcd = |i: int| gabc(i) + fd(i);
    let gall = |i: int| gabcd(i) + fe(i);
    let delta = |i: int| f2(i) - f1(i);

    assert forall|i: int| 0 <= i < n implies #[trigger] delta(i) == gall(i) by {
        lemma_bond_term_delta(s, nrows, ncols, row, col, i);
    }
    lemma_sum_sub(f2, f1, n);
    lemma_sum_ext(delta, gall, n);
    lemma_sum_add(gabcd, fe, n);
    lemma_sum_add(gabc, fd, n);
    lemma_sum_add(gab, fc, n);
    lemma_sum_add(fa, fb, n);
    lemma_sum_point(p, -2 * sp * nnp, n);
    lemma_sum_point(dn, -2 * sp * s[dn], n);
    lemma_sum_point(up, -2 * sp * s[up], n);
    lemma_sum_point(rt, -2 * sp * s[rt], n);
    lemma_sum_point(lf, -2 * sp * s[lf], n);
    assert(sum_to(fa, n) == -2 * sp * nnp);
    assert(sum_to(fb, n) == -2 * sp * s[dn]);
    assert(sum_to(fc, n) == -2 * sp * s[up]);
    assert(sum_to(fd, n) == -2 * sp * s[rt]);
    assert(sum_to(fe, n) == -2 * sp * s[lf]);
    assert(sum_to(gall, n) == -4 * sp * nnp) by (nonlinear_arith)
        requires
            sum_to(gall, n) == sum_to(fa, n) + sum_to(fb, n) + sum_to(fc, n) + sum_to(fd, n)
                + sum_to(fe, n),
            sum_to(fa, n) == -2 * sp * nnp,
            sum_to(fb, n) == -2 * sp * s[dn],
            sum_to(fc, n) == -2 * sp * s[up],
            sum_to(fd, n) == -2 * sp * s[rt],
            sum_to(fe, n) == -2 * sp * s[lf],
            nnp == s[up] + s[dn] + s[lf] + s[rt],
    ;
    assert(sum_to(f2, n) - sum_to(f1, n) == sum_to(delta, n));
    assert(doubled_energy_of(s2, nrows, ncols) == -sum_to(f2, n));
    assert(doubled_energy_of(s, nrows, ncols) == -sum_to(f1, n));
    assert(flip_cost_of(s, nrows, ncols, row, col) == 2 * sp * nnp);
    let e2 = doubled_energy_of(s2, nrows, ncols);
    let e1 = doubled_energy_of(s, nrows, ncols);
    let fc0 = flip_cost_of(s, nrows, ncols, row, col);
    assert(e2 - e1 == 2 * fc0) by (nonlinear_arith)
        requires
            e2 == -sum_to(f2, n),
            e1 == -sum_to(f1, n),
            sum_to(f2, n) - sum_to(f1, n) == sum_to(delta, n),
            sum_to(delta, n) == sum_to(gall, n),
            sum_to(gall, n) == -4 * sp * nnp,
            fc0 == 2 * sp * nnp,
    ;
}

/// Negating the same value twice gives the configuration back.
pub proof fn lemma_negate_twice(s: Seq<int>, p: int)
    requires
        0 <= p < s.len(),
    ensures
        negate_at(negate_at(s, p), p) == s,
{
    assert(negate_at(negate_at(s, p), p) =~= s);
}

/// On a torus of at least two rows and two columns, flipping a spin
/// negates the cost of flipping it again: the flip back gives the energy
/// back.
pub proof fn lemma_flip_cost_negated(s: Seq<int>, nrows: int, ncols: int, row: int, col: int)
    requires
        2 <= nrows,
        2 <= ncols,
        0 <= row < nrows,
        0 <= col < ncols,
        s.len() == nrows * ncols,
    ensures
        flip_cost_of(negate_at(s, flat(row, col, ncols)), nrows, ncols, row, col)
            == -flip_cost_of(s, nrows, ncols, row, col),
{
    let p = flat(row, col, ncols);
    lemma_flat_in_range(nrows, ncols, row, col);
    lemma_neighbors_in_range(nrows, ncols, row, col);
    let s2 = negate_at(s, p);
    let nn = nn_sum_of(s, nrows, ncols, row, col);
    assert(nn_sum_of(s2, nrows, ncols, row, col) == nn);
    let sp = s[p];
    assert(2 * (-sp) * nn == -(2 * sp * nn)) by (nonlinear_arith);
}

// ---------------------------------------------------------------------------
// Each bond counted twice
// ---------------------------------------------------------------------------

/// A sum over `0..a+b` splits into the sum over `0..a` and the shifted sum
/// over `0..b`.
pub proof fn lemma_sum_split(f: spec_fn(int) -> int, a: int, b: int)
    requires
        0 <= a,
        0 <= b,
    ensures
        sum_to(f, a + b) == sum_to(f, a) + sum_to(|i: int| f(a + i), b),
    decreases b,
{
    if b > 0 {
        lemma_sum_split(f, a, b - 1);
    }
}

/// A sum over the flat indices of an `nrows x ncols` grid is the sum over
/// its rows of the sums over their columns.
pub proof fn lemma_sum_by_rows(f: spec_fn(int) -> int, nrows: int, ncols: int)
    requires
        0 <= nrows,
        0 <= ncols,
    ensures
        sum_to(f, nrows * ncols) == grid_sum(|r: int, c: int| f(flat(r, c, ncols)), nrows, ncols),
    decreases nrows,
{
    let g = |r: int, c: int| f(flat(r, c, ncols));
    let rows = |r: int| sum_to(|c: int| g(r, c), ncols);
    if nrows > 0 {
        lemma_sum_by_rows(f, nrows - 1, ncols);
        assert((nrows - 1) * ncols + ncols == nrows * ncols) by (nonlinear_arith);
        assert(0 <= (nrows - 1) * ncols) by (nonlinear_arith)
            requires
                0 <= nrows - 1,
                0 <= ncols,
        ;
        lemma_sum_split(f, (nrows - 1) * ncols, ncols);
        lemma_sum_ext(
            |i: int| f((nrows - 1) * ncols + i),
            |c: int| g(nrows - 1, c),
            ncols,
        );
        assert(sum_to(rows, nrows) == sum_to(rows, nrows - 1) + rows(nrows - 1));
    } else {
        assert(nrows * ncols == 0) by (nonlinear_arith)
            requires
                nrows == 0,
        ;
    }
}

/// Summing a function around a ring of `n >= 1` positions gives the same
/// total whether or not the positions are first stepped forward by one.
pub proof fn lemma_sum_rotate(g: spec_fn(int) -> int, n: int)
    requires
        1 <= n,
    ensures
        sum_to(|i: int| g(ring_next(i, n)), n) == sum_to(g, n),
{
    let h = |i: int| g(ring_next(i, n));
    assert forall|i: int| 0 <= i < n - 1 implies #[trigger] h(i) == g(1 + i) by {
        lemma_ring_steps(i, n);
    }
    lemma_sum_ext(h, |i: int| g(1 + i), n - 1);
    lemma_ring_steps(n - 1, n);
    assert(sum_to(h, n) == sum_to(h, n - 1) + h(n - 1));
    lemma_sum_split(g, 1, n - 1);
    assert(sum_to(g, 0) == 0);
    assert(sum_to(g, 1) == g(0));
}

/// Grid sums of functions that agree on the grid are equal.
pub proof fn lemma_grid_sum_ext(
    f: spec_fn(int, int) -> int,
    g: spec_fn(int, int) -> int,
    nrows: int,
    ncols: int,
)
    requires
        forall|r: int, c: int| 0 <= r < nrows && 0 <= c < ncols ==> #[trigger] f(r, c) == g(r, c),
    ensures
        grid_sum(f, nrows, ncols) == grid_sum(g, nrows, ncols),
{
    let fr = |r: int| sum_to(|c: int| f(r, c), ncols);
    let gr = |r: int| sum_to(|c: int| g(r, c), ncols);
    assert forall|r: int| 0 <= r < nrows implies #[trigger] fr(r) == gr(r) by {
        lemma_sum_ext(|c: int| f(r, c), |c: int| g(r, c), ncols);
    }
    lemma_sum_ext(fr, gr, nrows);
}

/// The grid sum of a pointwise sum is the sum of the grid sums.
pub proof fn lemma_grid_sum_add(
    f: spec_fn(int, int) -> int,
    g: spec_fn(int, int) -> int,
    nrows: int,
    ncols: int,
)
    ensures
        grid_sum(|r: int, c: int| f(r, c) + g(r, c), nrows, ncols) == grid_sum(f, nrows, ncols)
            + grid_sum(g, nrows, ncols),
{
    let h = |r: int, c: int| f(r, c) + g(r, c);
    let hr = |r: int| sum_to(|c: int| h(r, c), ncols);
    let fr = |r: int| sum_to(|c: int| f(r, c), ncols);
    let gr = |r: int| sum_to(|c: int| g(r, c), ncols);
    assert forall|r: int| 0 <= r < nrows implies #[trigger] hr(r) == fr(r) + gr(r) by {
        let fc = |c: int| f(r, c);
        let gc = |c: int| g(r, c);
        lemma_sum_add(fc, gc, ncols);
        assert((|i: int| fc(i) + gc(i)) =~= (|c: int| h(r, c)));
    }
    lemma_sum_ext(hr, |r: int| fr(r) + gr(r), nrows);
    lemma_sum_add(fr, gr, nrows);
}

/// The bond sum of the torus counts every bond once from each of its two
/// ends: twice the energy with each bond counted once.
pub proof fn lemma_each_bond_counted_twice(s: Seq<int>, nrows: int, ncols: int)
    requires
        1 <= nrows,
        1 <= ncols,
        s.len() == nrows * ncols,
    ensures
        doubled_energy_of(s, nrows, ncols) == 2 * bond_energy_of(s, nrows, ncols),
{
    let at = |r: int, c: int| s[flat(r, c, ncols)];
    let up = |r: int, c: int| at(r, c) * at(ring_prev(r, nrows), c);
    let dn = |r: int, c: int| at(r, c) * at(ring_next(r, nrows), c);
    let lf = |r: int, c: int| at(r, c) * at(r, ring_prev(c, ncols));
    let rt = |r: int, c: int| at(r, c) * at(r, ring_next(c, ncols));
    let ud = |r: int, c: int| up(r, c) + dn(r, c);
    let udl = |r: int, c: int| ud(r, c) + lf(r, c);
    let all4 = |r: int, c: int| udl(r, c) + rt(r, c);
    let dr = |r: int, c: int| dn(r, c) + rt(r, c);
    let bt = |i: int| bond_term(s, nrows, ncols, i);
    let once = |i: int|
        s[i] * (s[down_of(nrows, ncols, i / ncols, i % ncols)] + s[right_of(
            nrows,
            ncols,
            i / ncols,
            i % ncols,
        )]);

    // Both flat sums as grid sums.
    lemma_sum_by_rows(bt, nrows, ncols);
    lemma_sum_by_rows(once, nrows, ncols);
    let bt_grid = |r: int, c: int| bt(flat(r, c, ncols));
    let once_grid = |r: int, c: int| once(flat(r, c, ncols));
    assert forall|r: int, c: int|
        #![trigger bt_grid(r, c)]
        #![trigger once_grid(r, c)]
        0 <= r < nrows && 0 <= c < ncols implies bt_grid(r, c) == all4(r, c) && once_grid(r, c)
            == dr(r, c) by {
        lemma_flat_in_range(nrows, ncols, r, c);
        let a = at(r, c);
        let (pu, pd, pl, pr) = (
            at(ring_prev(r, nrows), c),
            at(ring_next(r, nrows), c),
            at(r, ring_prev(c, ncols)),
            at(r, ring_next(c, ncols)),
        );
        assert(a * (pu + pd + pl + pr) == a * pu + a * pd + a * pl + a * pr) by (nonlinear_arith);
        assert(a * (pd + pr) == a * pd + a * pr) by (nonlinear_arith);
    }
    lemma_grid_sum_ext(bt_grid, all4, nrows, ncols);
    lemma_grid_sum_ext(once_grid, dr, nrows, ncols);

    // Linearity.
    lemma_grid_sum_add(udl, rt, nrows, ncols);
    lemma_grid_sum_add(ud, lf, nrows, ncols);
    lemma_grid_sum_add(up, dn, nrows, ncols);
    lemma_grid_sum_add(dn, rt, nrows, ncols);

    // Vertical bonds: stepping every row forward turns "with the row above"
    // into "with the row below".
    let up_rows = |r: int| sum_to(|c: int| up(r, c), ncols);
    lemma_sum_rotate(up_rows, nrows);
    assert forall|r: int| 0 <= r < nrows implies #[trigger] up_rows(ring_next(r, nrows)) == sum_to(
        |c: int| dn(r, c),
        ncols,
    ) by {
        lemma_ring_inverse(r, r, nrows);
        assert forall|c: int| 0 <= c < ncols implies #[trigger] up(ring_next(r, nrows), c) == dn(
            r,
            c,
        ) by {
            let x = at(ring_next(r, nrows), c);
            let y = at(r, c);
            assert(x * y == y * x) by (nonlinear_arith);
        }
        lemma_sum_ext(|c: int| up(ring_next(r, nrows), c), |c: int| dn(r, c), ncols);
    }
    lemma_sum_ext(
        |r: int| up_rows(ring_next(r, nrows)),
        |r: int| sum_to(|c: int| dn(r, c), ncols),
        nrows,
    );
    assert(grid_sum(up, nrows, ncols) == grid_sum(dn, nrows, ncols));

    // Horizontal bonds: within each row, stepping every column forward turns
    // "with the site to the left" into "with the site to the right".
    let lf_rows = |r: int| sum_to(|c: int| lf(r, c), ncols);
    let rt_rows = |r: int| sum_to(|c: int| rt(r, c), ncols);
    assert forall|r: int| 0 <= r < nrows implies #[trigger] lf_rows(r) == rt_rows(r) by {
        let row_l = |c: int| lf(r, c);
        lemma_sum_rotate(row_l, ncols);
        assert forall|c: int| 0 <= c < ncols implies #[trigger] row_l(ring_next(c, ncols)) == rt(
            r,
            c,
        ) by {
            lemma_ring_inverse(c, c, ncols);
            let x = at(r, ring_next(c, ncols));
            let y = at(r, c);
            assert(x * y == y * x) by (nonlinear_arith);
        }
        lemma_sum_ext(|c: int| row_l(ring_next(c, ncols)), |c: int| rt(r, c), ncols);
    }
    lemma_sum_ext(lf_rows, rt_rows, nrows);
    assert(grid_sum(lf, nrows, ncols) == grid_sum(rt, nrows, ncols));
}

// ---------------------------------------------------------------------------
// Global spin reversal
// ---------------------------------------------------------------------------

/// Every value of `s` negated.
pub open spec fn negate_all(s: Seq<int>) -> Seq<int> {
    s.map_values(|x: int| -x)
}

/// Without an external field the energy does not change when every spin
/// is reversed, while the spin sum changes sign.
pub proof fn lemma_reversal_symmetry(s: Seq<int>, nrows: int, ncols: int)
    requires
        1 <= nrows,
        1 <= ncols,
        s.len() == nrows * ncols,
    ensures
        doubled_energy_of(negate_all(s), nrows, ncols) == doubled_energy_of(s, nrows, ncols),
        value_sum_to(negate_all(s), s.len() as int) == -value_sum_to(s, s.len() as int),
{
    let t = negate_all(s);
    let n = nrows * ncols;
    let f2 = |i: int| bond_term(t, nrows, ncols, i);
    let f1 = |i: int| bond_term(s, nrows, ncols, i);
    assert forall|i: int| 0 <= i < n implies #[trigger] f2(i) == f1(i) by {
        lemma_unflat(nrows, ncols, i);
        lemma_neighbors_in_range(nrows, ncols, i / ncols, i % ncols);
        let a = s[i];
        let b = nn_sum_of(s, nrows, ncols, i / ncols, i % ncols);
        assert(nn_sum_of(t, nrows, ncols, i / ncols, i % ncols) == -b);
        assert((-a) * (-b) == a * b) by (nonlinear_arith);
    }
    lemma_sum_ext(f2, f1, n);
    let g2 = |i: int| t[i];
    let g1 = |i: int| s[i];
    let zero = |i: int| g2(i) + g1(i);
    assert forall|i: int| 0 <= i < n implies #[trigger] zero(i) == (|j: int| 0int)(i) by {}
    lemma_sum_add(g2, g1, n);
    lemma_sum_ext(zero, |j: int| 0int, n);
    lemma_sum_zero(n);
}

/// A sum of zeros is zero.
proof fn lemma_sum_zero(k: int)
    ensures
        sum_to(|j: int| 0int, k) == 0,
    decreases k,
{
    if k > 0 {
        lemma_sum_zero(k - 1);
    }
}

} // verus!
