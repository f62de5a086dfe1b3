//! Lattice spin system stored as one `i8` (`+1`/`-1`) per site.
use vstd::prelude::*;
use crate::lattice::{neighbors_below, flat_index_below};
use crate::torus::{
    neighbors_inside, flat, ring_prev, ring_next, nn_sum_of, flip_cost_of, bond_term,
    bond_sum_to, doubled_energy_of, value_sum_to, negate_at, all_unit, lemma_flat_in_range,
    lemma_neighbors_in_range,
};

verus! {

/// 2D square lattice of `+1`/`-1` spins with periodic (toroidal) boundary
/// conditions.
pub struct IsingLattice {
    nrows: usize,
    ncols: usize,
    spins: Vec<i8>,
}

impl View for IsingLattice {
    /// The spins in row-major order.
    type V = Seq<i8>;

    closed spec fn view(&self) -> Seq<i8> {
        self.spins@
    }
}

impl IsingLattice {
    /// The number of rows.
    pub closed spec fn rows(&self) -> int {
        self.nrows as int
    }

    /// The number of columns.
    pub closed spec fn cols(&self) -> int {
        self.ncols as int
    }

    /// The spins as integers, row-major.
    pub open spec fn values(&self) -> Seq<int> {
        self@.map_values(|x: i8| x as int)
    }

    /// One spin per site, each `+1` or `-1`.
    #[verifier::type_invariant]
    closed spec fn well_formed(self) -> bool {
        &&& self.spins@.len() == self.nrows * self.ncols
        &&& self.spins@.len() <= usize::MAX
        &&& forall|i: int| 0 <= i < self.spins@.len() ==> #[trigger] self.spins@[i] == 1
            || self.spins@[i] == -1
    }

    /// The four neighbour indices of `(row, col)` lie inside the lattice and
    /// computing them does not overflow.
    pub open spec fn neighbors_ok(&self, row: int, col: int) -> bool {
        neighbors_inside(self.rows(), self.cols(), row, col, self@.len() as int)
    }

    /// A lattice whose spins are drawn, in row-major order, by successive
    /// calls of `up`: `+1` where it returns `true`, `-1` where it returns
    /// `false`.
    pub fn new_with<F: FnMut() -> bool>(nrows: usize, ncols: usize, up: F) -> (l: Self)
        requires
            nrows * ncols <= usize::MAX,
            call_requires(up, ()),
        ensures
            l.rows() == nrows,
            l.cols() == ncols,
            l@.len() == nrows * ncols,
            forall|i: int|
                0 <= i < l@.len() ==> (#[trigger] l@[i] == 1 && call_ensures(up, (), true)) || (l@[i] == -1
                    && call_ensures(up, (), false)),
    {
        let ghost up0 = up;
        let mut up = up;
        let n = nrows * ncols;
        let mut spins: Vec<i8> = Vec::new();
        let mut i: usize = 0;
        while i < n
            invariant
                i <= n,
                n == nrows * ncols,
                spins@.len() == i,
                up == up0,
                call_requires(up, ()),
                forall|j: int| 0 <= j < i ==> #[trigger] spins@[j] == 1 || spins@[j] == -1,
                forall|j: int|
                    0 <= j < i ==> (#[trigger] spins@[j] == 1 && call_ensures(up0, (), true)) || (spins@[j] == -1
                        && call_ensures(up0, (), false)),
            decreases n - i,
        {
            let ghost prev = spins@;
            let b = up();
            let s: i8 = if b { 1 } else { -1 };
            spins.push(s);
            assert forall|j: int| 0 <= j < i + 1 implies (#[trigger] spins@[j] == 1 && call_ensures(
                up0,
                (),
                true,
            )) || (spins@[j] == -1 && call_ensures(up0, (), false)) by {
                if j < i {
                    assert(spins@[j] == prev[j]);
                }
            }
            i = i + 1;
        }
        IsingLattice { nrows, ncols, spins }
    }

    /// Move the dimensions and the spin buffer out, leaving an empty
    /// `0 x 0` lattice behind.
    fn take_parts(&mut self) -> (parts: (usize, usize, Vec<i8>))
        ensures
            parts.0 == old(self).rows(),
            parts.1 == old(self).cols(),
            parts.2@ == old(self)@,
            parts.2@.len() == parts.0 * parts.1,
            parts.2@.len() <= usize::MAX,
            forall|j: int| 0 <= j < parts.2@.len() ==> #[trigger] parts.2@[j] == 1 || parts.2@[j] == -1,
    {
        let mut tmp = IsingLattice { nrows: 0, ncols: 0, spins: Vec::new() };
        std::mem::swap(self, &mut tmp);
        proof {
            use_type_invariant(&tmp);
        }
        let IsingLattice { nrows, ncols, spins } = tmp;
        (nrows, ncols, spins)
    }

    /// Flat row-major index of `(row, col)`.
    fn idx(&self, row: usize, col: usize) -> (i: usize)
        requires
            flat(row as int, col as int, self.cols()) <= usize::MAX,
        ensures
            i == flat(row as int, col as int, self.cols()),
    {
        proof {
            assert(0 <= row * self.ncols) by (nonlinear_arith);
        }
        row * self.ncols + col
    }

    pub fn nrows(&self) -> (n: usize)
        ensures
            n == self.rows(),
            self@.len() == self.rows() * self.cols(),
            self@.len() <= usize::MAX,
            all_unit(self.values()),
    {
        proof {
            use_type_invariant(self);
        }
        self.nrows
    }

    pub fn ncols(&self) -> (n: usize)
        ensures
            n == self.cols(),
            self@.len() == self.rows() * self.cols(),
            self@.len() <= usize::MAX,
            all_unit(self.values()),
    {
        proof {
            use_type_invariant(self);
        }
        self.ncols
    }

    /// Row-major spin buffer, one `i8` (`+1`/`-1`) per site.
    pub fn spins(&self) -> (s: &[i8])
        ensures
            s@ == self@,
            all_unit(self.values()),
    {
        proof {
            use_type_invariant(self);
        }
        self.spins.as_slice()
    }

    /// Whether `(row, col)` and its four neighbours lie inside the lattice,
    /// so that its spin can be read, summed over and flipped.
    pub fn can_attempt(&self, row: usize, col: usize) -> (b: bool)
        ensures
            b == (self.neighbors_ok(row as int, col as int) && flat(
                row as int,
                col as int,
                self.cols(),
            ) < self@.len()),
    {
        let nrows = self.nrows();
        let ncols = self.ncols();
        let len = self.spins().len();
        neighbors_below(nrows, ncols, row, col, len) && flat_index_below(ncols, row, col, len)
    }

    /// Sum of the four nearest-neighbor spins, wrapping toroidally.
    pub fn nn_sum(&self, row: usize, col: usize) -> (n: i32)
        requires
            self.neighbors_ok(row as int, col as int),
        ensures
            n == nn_sum_of(self.values(), self.rows(), self.cols(), row as int, col as int),
            -4 <= n <= 4,
    {
        proof {
            use_type_invariant(self);
        }
        let up = (row + self.nrows - 1) % self.nrows;
        let down = (row + 1) % self.nrows;
        let left = (col + self.ncols - 1) % self.ncols;
        let right = (col + 1) % self.ncols;
        proof {
            assert(up == ring_prev(row as int, self.rows()));
            assert(down == ring_next(row as int, self.rows()));
            assert(left == ring_prev(col as int, self.cols()));
            assert(right == ring_next(col as int, self.cols()));
        }
        self.spins[self.idx(up, col)] as i32 + self.spins[self.idx(down, col)] as i32
            + self.spins[self.idx(row, left)] as i32 + self.spins[self.idx(row, right)] as i32
    }

    /// Energy change (`J = 1`) a flip of site `(row, col)` would cost.
    pub fn flip_energy(&self, row: usize, col: usize) -> (e: i32)
        requires
            self.neighbors_ok(row as int, col as int),
            flat(row as int, col as int, self.cols()) < self@.len(),
        ensures
            e == flip_cost_of(self.values(), self.rows(), self.cols(), row as int, col as int),
            -8 <= e <= 8,
    {
        proof {
            use_type_invariant(self);
        }
        let s = self.spins[self.idx(row, col)] as i32;
        let n = self.nn_sum(row, col);
        proof {
            assert(-8 <= 2 * s * n <= 8) by (nonlinear_arith)
                requires
                    s == 1 || s == -1,
                    -4 <= n <= 4,
            ;
        }
        2 * s * n
    }

    /// Flip the spin at `(row, col)`; every other spin is unchanged.
    pub fn flip(&mut self, row: usize, col: usize)
        requires
            flat(row as int, col as int, old(self).cols()) < old(self)@.len(),
        ensures
            final(self).rows() == old(self).rows(),
            final(self).cols() == old(self).cols(),
            final(self)@ == old(self)@.update(
                flat(row as int, col as int, old(self).cols()),
                (-old(self)@[flat(row as int, col as int, old(self).cols())]) as i8,
            ),
            final(self).values() == negate_at(
                old(self).values(),
                flat(row as int, col as int, old(self).cols()),
            ),
    {
        proof {
            use_type_invariant(&*self);
        }
        let i = self.idx(row, col);
        let (nrows, ncols, mut spins) = self.take_parts();
        let s = spins[i];
        spins[i] = -s;
        *self = IsingLattice { nrows, ncols, spins };
        proof {
            let p = i as int;
            assert(self.values() =~= negate_at(old(self).values(), p));
        }
    }

    /// Overwrite every spin, in row-major order, with successive draws of
    /// `up`: `+1` where it returns `true`, `-1` where it returns `false`.
    pub fn randomize_with<F: FnMut() -> bool>(&mut self, up: F)
        requires
            call_requires(up, ()),
        ensures
            final(self).rows() == old(self).rows(),
            final(self).cols() == old(self).cols(),
            final(self)@.len() == old(self)@.len(),
            forall|i: int|
                0 <= i < final(self)@.len() ==> (#[trigger] final(self)@[i] == 1 && call_ensures(up, (), true)) || (
                final(self)@[i] == -1 && call_ensures(up, (), false)),
    {
        proof {
            use_type_invariant(&*self);
        }
        let ghost up0 = up;
        let mut up = up;
        let (nrows, ncols, mut spins) = self.take_parts();
        let n = spins.len();
        let mut i: usize = 0;
        while i < n
            invariant
                i <= n,
                n == spins@.len(),
                spins@.len() == nrows * ncols,
                spins@.len() <= usize::MAX,
                nrows == old(self).nrows,
                ncols == old(self).ncols,
                forall|j: int| 0 <= j < n ==> #[trigger] spins@[j] == 1 || spins@[j] == -1,
                up == up0,
                call_requires(up, ()),
                forall|j: int|
                    0 <= j < i ==> (#[trigger] spins@[j] == 1 && call_ensures(up0, (), true)) || (
                        spins@[j] == -1 && call_ensures(up0, (), false)),
            decreases n - i,
        {
            let ghost prev = spins@;
            let b = up();
            let s: i8 = if b { 1 } else { -1 };
            spins[i] = s;
            assert forall|j: int| 0 <= j < i + 1 implies (#[trigger] spins@[j] == 1 && call_ensures(
                up0,
                (),
                true,
            )) || (spins@[j] == -1 && call_ensures(up0, (), false)) by {
                if j < i {
                    assert(spins@[j] == prev[j]);
                }
            }
            i = i + 1;
        }
        *self = IsingLattice { nrows, ncols, spins };
    }

    /// Sum of all spins; the magnetization is this divided by the number
    /// of sites, and so lies in `[-1, 1]`.
    pub fn spin_total(&self) -> (m: i128)
        ensures
            m == value_sum_to(self.values(), self@.len() as int),
            -self@.len() <= m <= self@.len(),
    {
        proof {
            use_type_invariant(self);
        }
        let n = self.spins.len();
        let mut total: i128 = 0;
        let mut i: usize = 0;
        while i < n
            invariant
                i <= n,
                n == self@.len(),
                forall|j: int| 0 <= j < n ==> #[trigger] self.spins@[j] == 1 || self.spins@[j] == -1,
                total == value_sum_to(self.values(), i as int),
                -i <= total <= i,
            decreases n - i,
        {
            total = total + self.spins[i] as i128;
            i = i + 1;
        }
        total
    }

    /// Twice the total bond energy (`J = 1`, no external field):
    /// `-(sum over sites of spin * nn_sum)`, which counts each bond once from
    /// each of its ends. The mean bond energy per site is this divided by
    /// twice the number of sites.
    pub fn doubled_energy(&self) -> (e: i128)
        requires
            self@.len() > 0 ==> self.rows() + self.rows() <= usize::MAX + 1 && self.cols()
                + self.cols() <= usize::MAX + 1,
        ensures
            e == doubled_energy_of(self.values(), self.rows(), self.cols()),
            -4 * self@.len() <= e <= 4 * self@.len(),
    {
        proof {
            use_type_invariant(self);
        }
        let nrows = self.nrows;
        let ncols = self.ncols;
        let ghost vals = self.values();
        let mut total: i128 = 0;
        let mut row: usize = 0;
        while row < nrows
            invariant
                row <= nrows,
                nrows == self.rows(),
                ncols == self.cols(),
                self@.len() == nrows * ncols,
                self@.len() <= usize::MAX,
                forall|j: int| 0 <= j < self@.len() ==> #[trigger] self.spins@[j] == 1 || self.spins@[j] == -1,
                vals == self.values(),
                self@.len() > 0 ==> nrows + nrows <= usize::MAX + 1 && ncols + ncols <= usize::MAX + 1,
                total == -bond_sum_to(vals, nrows as int, ncols as int, row * ncols),
                -4 * (row * ncols) <= total <= 4 * (row * ncols),
            decreases nrows - row,
        {
            let mut col: usize = 0;
            while col < ncols
                invariant
                    row < nrows,
                    col <= ncols,
                    nrows == self.rows(),
                    ncols == self.cols(),
                    self@.len() == nrows * ncols,
                    self@.len() <= usize::MAX,
                    forall|j: int| 0 <= j < self@.len() ==> #[trigger] self.spins@[j] == 1 || self.spins@[j] == -1,
                    vals == self.values(),
                    self@.len() > 0 ==> nrows + nrows <= usize::MAX + 1 && ncols + ncols <= usize::MAX + 1,
                    total == -bond_sum_to(vals, nrows as int, ncols as int, row * ncols + col),
                    -4 * (row * ncols + col) <= total <= 4 * (row * ncols + col),
                decreases ncols - col,
            {
                proof {
                    lemma_flat_in_range(nrows as int, ncols as int, row as int, col as int);
                    lemma_neighbors_in_range(nrows as int, ncols as int, row as int, col as int);
                }
                let s = self.spins[self.idx(row, col)] as i128;
                let n = self.nn_sum(row, col) as i128;
                proof {
                    let k = flat(row as int, col as int, ncols as int);
                    assert(bond_term(vals, nrows as int, ncols as int, k) == s * n);
                    assert(-4 <= s * n <= 4) by (nonlinear_arith)
                        requires
                            s == 1 || s == -1,
                            -4 <= n <= 4,
                    ;
                }
                total = total - s * n;
                col = col + 1;
            }
            proof {
                assert((row + 1) * ncols == row * ncols + ncols) by (nonlinear_arith);
            }
            row = row + 1;
        }
        total
    }
}

} // verus!
