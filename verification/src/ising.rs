//! Ising model on a 2D toroidal lattice.
use vstd::prelude::*;
use crate::lattice::{LatticeState, neighbors_below, flat_index_below};
use crate::spin::{SpinHalf, spin_values};
use crate::torus::{
    neighbors_inside, flat, nn_sum_of, flip_cost_of, bond_term, bond_sum_to,
    doubled_energy_of, value_sum_to, negate_at, lemma_flat_in_range,
    lemma_neighbors_in_range,
};

verus! {

/// 2D square lattice of spins with periodic (toroidal) boundary
/// conditions.
pub struct IsingLattice {
    state: LatticeState<SpinHalf>,
}

impl View for IsingLattice {
    /// The spins in row-major order.
    type V = Seq<SpinHalf>;

    closed spec fn view(&self) -> Seq<SpinHalf> {
        self.state@
    }
}

impl IsingLattice {
    /// The number of rows.
    pub closed spec fn rows(&self) -> int {
        self.state.rows()
    }

    /// The number of columns.
    pub closed spec fn cols(&self) -> int {
        self.state.cols()
    }

    /// The spins as `-1`/`+1` integers, row-major.
    pub open spec fn values(&self) -> Seq<int> {
        spin_values(self@)
    }

    /// The four neighbour indices of `(row, col)` lie inside the lattice and
    /// computing them does not overflow.
    pub open spec fn neighbors_ok(&self, row: int, col: int) -> bool {
        neighbors_inside(self.rows(), self.cols(), row, col, self@.len() as int)
    }

    /// A lattice whose spins are drawn, in row-major order, by successive
    /// calls of `spin`.
    pub fn new_with<F: FnMut() -> SpinHalf>(nrows: usize, ncols: usize, spin: F) -> (l: Self)
        requires
            nrows * ncols <= usize::MAX,
            call_requires(spin, ()),
        ensures
            l.rows() == nrows,
            l.cols() == ncols,
            l@.len() == nrows * ncols,
            forall|i: int| 0 <= i < l@.len() ==> call_ensures(spin, (), #[trigger] l@[i]),
    {
        IsingLattice { state: LatticeState::new(nrows, ncols, spin) }
    }

    pub fn nrows(&self) -> (n: usize)
        ensures
            n == self.rows(),
            self@.len() == self.rows() * self.cols(),
            self@.len() <= usize::MAX,
    {
        self.state.nrows()
    }

    pub fn ncols(&self) -> (n: usize)
        ensures
            n == self.cols(),
            self@.len() == self.rows() * self.cols(),
            self@.len() <= usize::MAX,
    {
        self.state.ncols()
    }

    /// Row-major spin buffer.
    pub fn spins(&self) -> (s: &[SpinHalf])
        ensures
            s@ == self@,
    {
        self.state.sites()
    }

    /// Whether `(row, col)` and its four neighbours lie inside the lattice,
    /// so that its spin can be read, summed over and flipped.
    pub fn can_attempt(&self, row: usize, col: usize) -> (b: bool)
        ensures
            b == (self.neighbors_ok(row as int, col as int) && flat(
                row as int,
                col as int,
                self.cols(),
            ) < self@.len()),
    {
        let nrows = self.nrows();
        let ncols = self.ncols();
        let len = self.spins().len();
        neighbors_below(nrows, ncols, row, col, len) && flat_index_below(ncols, row, col, len)
    }

    /// Sum of the four nearest-neighbor spins, wrapping toroidally.
    pub fn nn_sum(&self, row: usize, col: usize) -> (n: i32)
        requires
            self.neighbors_ok(row as int, col as int),
        ensures
            n == nn_sum_of(self.values(), self.rows(), self.cols(), row as int, col as int),
            -4 <= n <= 4,
    {
        let nb = self.state.neighbor_values(row, col);
        nb[0].value() + nb[1].value() + nb[2].value() + nb[3].value()
    }

    /// Energy change (`J = 1`) a flip of site `(row, col)` would cost.
    pub fn flip_energy(&self, row: usize, col: usize) -> (e: i32)
        requires
            self.neighbors_ok(row as int, col as int),
            flat(row as int, col as int, self.cols()) < self@.len(),
        ensures
            e == flip_cost_of(self.values(), self.rows(), self.cols(), row as int, col as int),
            -8 <= e <= 8,
    {
        let s = self.state.get(row, col).value();
        let n = self.nn_sum(row, col);
        proof {
            assert(-8 <= 2 * s * n <= 8) by (nonlinear_arith)
                requires
                    s == 1 || s == -1,
                    -4 <= n <= 4,
            ;
        }
        2 * s * n
    }

    /// Flip the spin at `(row, col)`; every other spin is unchanged.
    pub fn flip(&mut self, row: usize, col: usize)
        requires
            flat(row as int, col as int, old(self).cols()) < old(self)@.len(),
        ensures
            final(self).rows() == old(self).rows(),
            final(self).cols() == old(self).cols(),
            final(self)@ == old(self)@.update(
                flat(row as int, col as int, old(self).cols()),
                old(self)@[flat(row as int, col as int, old(self).cols())].opposite(),
            ),
            final(self).values() == negate_at(
                old(self).values(),
                flat(row as int, col as int, old(self).cols()),
            ),
    {
        let flipped = self.state.get(row, col).flipped();
        self.state.set(row, col, flipped);
        proof {
            let p = flat(row as int, col as int, old(self).cols());
            old(self)@[p].lemma_flip_involution();
            let c = old(self).cols();
            old(self).state.lemma_dims_nonneg();
            assert(0 <= p) by (nonlinear_arith)
                requires
                    p == row * c + col,
                    0 <= c,
            ;
            assert(self.values() =~= negate_at(old(self).values(), p));
        }
    }

    /// Overwrite every spin, in row-major order, with successive calls of
    /// `spin`; the dimensions are unchanged.
    pub fn randomize_with<F: FnMut() -> SpinHalf>(&mut self, spin: F)
        requires
            call_requires(spin, ()),
        ensures
            final(self).rows() == old(self).rows(),
            final(self).cols() == old(self).cols(),
            final(self)@.len() == old(self)@.len(),
            forall|i: int|
                0 <= i < final(self)@.len() ==> call_ensures(spin, (), #[trigger] final(self)@[i]),
    {
        self.state.fill(spin);
    }

    /// Sum of all spins; the magnetization is this divided by the number
    /// of sites, and so lies in `[-1, 1]`.
    pub fn spin_total(&self) -> (m: i128)
        ensures
            m == value_sum_to(self.values(), self@.len() as int),
            -self@.len() <= m <= self@.len(),
    {
        let sites = self.state.sites();
        let n = sites.len();
        let mut total: i128 = 0;
        let mut i: usize = 0;
        while i < n
            invariant
                i <= n,
                n == self@.len(),
                sites@ == self@,
                total == value_sum_to(self.values(), i as int),
                -i <= total <= i,
            decreases n - i,
        {
            total = total + sites[i].value() as i128;
            i = i + 1;
        }
        total
    }

    /// Twice the total bond energy (`J = 1`, no external field):
    /// `-(sum over sites of spin * nn_sum)`, which counts each bond once from
    /// each of its ends. The mean bond energy per site is this divided by
    /// twice the number of sites.
    pub fn doubled_energy(&self) -> (e: i128)
        requires
            self@.len() > 0 ==> self.rows() + self.rows() <= usize::MAX + 1 && self.cols()
                + self.cols() <= usize::MAX + 1,
        ensures
            e == doubled_energy_of(self.values(), self.rows(), self.cols()),
            -4 * self@.len() <= e <= 4 * self@.len(),
    {
        let nrows = self.nrows();
        let ncols = self.ncols();
        let ghost vals = self.values();
        let mut total: i128 = 0;
        let mut row: usize = 0;
        while row < nrows
            invariant
                row <= nrows,
                nrows == self.rows(),
                ncols == self.cols(),
                self@.len() == nrows * ncols,
                self@.len() <= usize::MAX,
                vals == self.values(),
                self@.len() > 0 ==> nrows + nrows <= usize::MAX + 1 && ncols + ncols <= usize::MAX + 1,
                total == -bond_sum_to(vals, nrows as int, ncols as int, row * ncols),
                -4 * (row * ncols) <= total <= 4 * (row * ncols),
            decreases nrows - row,
        {
            let mut col: usize = 0;
            while col < ncols
                invariant
                    row < nrows,
                    col <= ncols,
                    nrows == self.rows(),
                    ncols == self.cols(),
                    self@.len() == nrows * ncols,
                    self@.len() <= usize::MAX,
                    vals == self.values(),
                    self@.len() > 0 ==> nrows + nrows <= usize::MAX + 1 && ncols + ncols <= usize::MAX + 1,
                    total == -bond_sum_to(vals, nrows as int, ncols as int, row * ncols + col),
                    -4 * (row * ncols + col) <= total <= 4 * (row * ncols + col),
                decreases ncols - col,
            {
                proof {
                    lemma_flat_in_range(nrows as int, ncols as int, row as int, col as int);
                    lemma_neighbors_in_range(nrows as int, ncols as int, row as int, col as int);
                }
                let s = self.state.get(row, col).value() as i128;
                let n = self.nn_sum(row, col) as i128;
                proof {
                    let k = flat(row as int, col as int, ncols as int);
                    assert(bond_term(vals, nrows as int, ncols as int, k) == s * n);
                    assert(-4 <= s * n <= 4) by (nonlinear_arith)
                        requires
                            s == 1 || s == -1,
                            -4 <= n <= 4,
                    ;
                }
                total = total - s * n;
                col = col + 1;
            }
            proof {
                assert((row + 1) * ncols == row * ncols + ncols) by (nonlinear_arith);
            }
            row = row + 1;
        }
        total
    }
}

} // verus!
