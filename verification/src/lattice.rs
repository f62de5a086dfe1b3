//! Toroidal 2D square-lattice geometry and a generic per-site-state
//! container built on it.
use vstd::prelude::*;
use crate::torus::{
    neighbors_inside, flat, ring_prev, ring_next, up_of, down_of, left_of, right_of, lemma_flat_injective,
};

verus! {

/// Row-major indexing does not alias: writing one in-range site and then
/// reading it gives back the value written, and every other in-range site
/// reads as before.
pub proof fn lemma_read_after_write<T>(
    sites: Seq<T>,
    ncols: int,
    row: int,
    col: int,
    other_row: int,
    other_col: int,
    value: T,
)
    requires
        0 <= col < ncols,
        0 <= other_col < ncols,
        0 <= flat(row, col, ncols) < sites.len(),
        0 <= flat(other_row, other_col, ncols) < sites.len(),
    ensures
        sites.update(flat(row, col, ncols), value)[flat(row, col, ncols)] == value,
        (other_row, other_col) != (row, col) ==> sites.update(flat(row, col, ncols), value)[flat(
            other_row,
            other_col,
            ncols,
        )] == sites[flat(other_row, other_col, ncols)],
{
    lemma_flat_injective(ncols, row, col, other_row, other_col);
}

/// Whether the flat index `row * ncols + col` lies below `len`, decided
/// without overflowing.
pub fn flat_index_below(ncols: usize, row: usize, col: usize, len: usize) -> (b: bool)
    ensures
        b == (flat(row as int, col as int, ncols as int) < len),
{
    match row.checked_mul(ncols) {
        None => false,
        Some(rc) => match rc.checked_add(col) {
            None => false,
            Some(i) => i < len,
        },
    }
}

/// Whether the four toroidal neighbours of `(row, col)` in an
/// `nrows x ncols` grid have flat indices below `len`, and can be computed
/// without dividing by zero or overflowing.
pub fn neighbors_below(nrows: usize, ncols: usize, row: usize, col: usize, len: usize) -> (b: bool)
    ensures
        b == neighbors_inside(nrows as int, ncols as int, row as int, col as int, len as int),
{
    if nrows == 0 || ncols == 0 {
        return false;
    }
    if row > usize::MAX - nrows || col > usize::MAX - ncols {
        return false;
    }
    let up = (row + nrows - 1) % nrows;
    let down = (row + 1) % nrows;
    let left = (col + ncols - 1) % ncols;
    let right = (col + 1) % ncols;
    flat_index_below(ncols, up, col, len) && flat_index_below(ncols, down, col, len)
        && flat_index_below(ncols, row, left, len) && flat_index_below(ncols, row, right, len)
}

/// Dimensions and row-major/toroidal-neighbor indexing for a 2D square
/// lattice with periodic (toroidal) boundary conditions. Holds no
/// per-site data itself; see [`LatticeState`] for that.
#[derive(Debug, Clone, Copy)]
pub struct Grid2D {
    nrows: usize,
    ncols: usize,
}

impl View for Grid2D {
    /// `(nrows, ncols)`.
    type V = (int, int);

    closed spec fn view(&self) -> (int, int) {
        (self.nrows as int, self.ncols as int)
    }
}

impl Grid2D {
    pub fn new(nrows: usize, ncols: usize) -> (g: Self)
        ensures
            g@ == (nrows as int, ncols as int),
    {
        Grid2D { nrows, ncols }
    }

    pub fn nrows(&self) -> (n: usize)
        ensures
            n == self@.0,
    {
        self.nrows
    }

    pub fn ncols(&self) -> (n: usize)
        ensures
            n == self@.1,
    {
        self.ncols
    }

    /// Number of sites, `nrows * ncols`.
    pub fn len(&self) -> (n: usize)
        requires
            self@.0 * self@.1 <= usize::MAX,
        ensures
            n == self@.0 * self@.1,
    {
        self.nrows * self.ncols
    }

    /// Whether the grid has no sites.
    pub fn is_empty(&self) -> (b: bool)
        requires
            self@.0 * self@.1 <= usize::MAX,
        ensures
            b == (self@.0 * self@.1 == 0),
    {
        self.len() == 0
    }

    /// Flat row-major index of `(row, col)`.
    pub fn idx(&self, row: usize, col: usize) -> (i: usize)
        requires
            flat(row as int, col as int, self@.1) <= usize::MAX,
        ensures
            i == flat(row as int, col as int, self@.1),
    {
        proof {
            assert(0 <= row * self.ncols) by (nonlinear_arith);
        }
        row * self.ncols + col
    }

    /// The four nearest-neighbor coordinates of `(row, col)`, wrapping
    /// toroidally, in a fixed order: up, down, left, right.
    pub fn neighbors(&self, row: usize, col: usize) -> (nb: [(usize, usize); 4])
        requires
            self@.0 > 0,
            self@.1 > 0,
            row + self@.0 <= usize::MAX,
            col + self@.1 <= usize::MAX,
        ensures
            nb[0] == (ring_prev(row as int, self@.0) as usize, col),
            nb[1] == (ring_next(row as int, self@.0) as usize, col),
            nb[2] == (row, ring_prev(col as int, self@.1) as usize),
            nb[3] == (row, ring_next(col as int, self@.1) as usize),
            0 <= ring_prev(row as int, self@.0) < self@.0,
            0 <= ring_next(row as int, self@.0) < self@.0,
            0 <= ring_prev(col as int, self@.1) < self@.1,
            0 <= ring_next(col as int, self@.1) < self@.1,
    {
        let up = (row + self.nrows - 1) % self.nrows;
        let down = (row + 1) % self.nrows;
        let left = (col + self.ncols - 1) % self.ncols;
        let right = (col + 1) % self.ncols;
        [(up, col), (down, col), (row, left), (row, right)]
    }
}

/// A [`Grid2D`] plus one `T` per site: the shared container every
/// lattice model in this crate builds on.
pub struct LatticeState<T> {
    grid: Grid2D,
    sites: Vec<T>,
}

impl<T> View for LatticeState<T> {
    /// The per-site values in row-major order.
    type V = Seq<T>;

    closed spec fn view(&self) -> Seq<T> {
        self.sites@
    }
}

impl<T> LatticeState<T> {
    /// The number of rows.
    pub closed spec fn rows(&self) -> int {
        self.grid@.0
    }

    /// The number of columns.
    pub closed spec fn cols(&self) -> int {
        self.grid@.1
    }

    /// The dimensions are natural numbers.
    pub proof fn lemma_dims_nonneg(&self)
        ensures
            0 <= self.rows(),
            0 <= self.cols(),
    {
    }

    /// One value per site, row-major.
    #[verifier::type_invariant]
    closed spec fn sized(self) -> bool {
        &&& self.sites@.len() == self.grid@.0 * self.grid@.1
        &&& self.sites@.len() <= usize::MAX
    }
}

impl<T: Copy> LatticeState<T> {
    /// A lattice whose sites are filled, in row-major order, by successive
    /// calls of `init`.
    pub fn new<F: FnMut() -> T>(nrows: usize, ncols: usize, init: F) -> (s: Self)
        requires
            nrows * ncols <= usize::MAX,
            call_requires(init, ()),
        ensures
            s.rows() == nrows,
            s.cols() == ncols,
            s@.len() == nrows * ncols,
            forall|i: int| 0 <= i < s@.len() ==> call_ensures(init, (), #[trigger] s@[i]),
    {
        let ghost init0 = init;
        let mut init = init;
        let grid = Grid2D::new(nrows, ncols);
        let n = grid.len();
        let mut sites: Vec<T> = Vec::new();
        let mut i: usize = 0;
        while i < n
            invariant
                i <= n,
                n == nrows * ncols,
                sites@.len() == i,
                init == init0,
                call_requires(init, ()),
                forall|j: int| 0 <= j < i ==> call_ensures(init0, (), #[trigger] sites@[j]),
            decreases n - i,
        {
            let ghost prev = sites@;
            let v = init();
            assert(call_ensures(init0, (), v));
            sites.push(v);
            assert forall|j: int| 0 <= j < i + 1 implies call_ensures(init0, (), #[trigger] sites@[j]) by {
                if j < i {
                    assert(sites@[j] == prev[j]);
                } else {
                    assert(call_ensures(init0, (), sites@[j]));
                }
            }
            i = i + 1;
        }
        LatticeState { grid, sites }
    }

    /// The number of rows (with one value per site).
    pub fn nrows(&self) -> (n: usize)
        ensures
            n == self.rows(),
            self@.len() == self.rows() * self.cols(),
            self@.len() <= usize::MAX,
    {
        proof {
            use_type_invariant(self);
        }
        self.grid.nrows()
    }

    /// The number of columns (with one value per site).
    pub fn ncols(&self) -> (n: usize)
        ensures
            n == self.cols(),
            self@.len() == self.rows() * self.cols(),
            self@.len() <= usize::MAX,
    {
        proof {
            use_type_invariant(self);
        }
        self.grid.ncols()
    }

    /// The per-site values, row-major.
    pub fn sites(&self) -> (s: &[T])
        ensures
            s@ == self@,
            self@.len() == self.rows() * self.cols(),
            self@.len() <= usize::MAX,
    {
        proof {
            use_type_invariant(self);
        }
        self.sites.as_slice()
    }

    /// The value at `(row, col)`, that is at flat index `row * ncols + col`.
    pub fn get(&self, row: usize, col: usize) -> (v: T)
        requires
            flat(row as int, col as int, self.cols()) < self@.len(),
        ensures
            v == self@[flat(row as int, col as int, self.cols())],
    {
        proof {
            use_type_invariant(self);
            assert(self.sites.len() == self.sites@.len());
        }
        self.sites[self.grid.idx(row, col)]
    }

    /// Store `value` at `(row, col)`, that is at flat index
    /// `row * ncols + col`; every other site keeps its value.
    pub fn set(&mut self, row: usize, col: usize, value: T)
        requires
            flat(row as int, col as int, old(self).cols()) < old(self)@.len(),
        ensures
            final(self).rows() == old(self).rows(),
            final(self).cols() == old(self).cols(),
            final(self)@ == old(self)@.update(flat(row as int, col as int, old(self).cols()), value),
    {
        proof {
            use_type_invariant(&*self);
            assert(self.sites.len() == self.sites@.len());
        }
        let i = self.grid.idx(row, col);
        self.sites[i] = value;
    }

    /// The values at the four nearest neighbors of `(row, col)`, in the
    /// order up, down, left, right.
    pub fn neighbor_values(&self, row: usize, col: usize) -> (vals: [T; 4])
        requires
            self.rows() > 0,
            self.cols() > 0,
            row + self.rows() <= usize::MAX,
            col + self.cols() <= usize::MAX,
            up_of(self.rows(), self.cols(), row as int, col as int) < self@.len(),
            down_of(self.rows(), self.cols(), row as int, col as int) < self@.len(),
            left_of(self.rows(), self.cols(), row as int, col as int) < self@.len(),
            right_of(self.rows(), self.cols(), row as int, col as int) < self@.len(),
        ensures
            vals[0] == self@[up_of(self.rows(), self.cols(), row as int, col as int)],
            vals[1] == self@[down_of(self.rows(), self.cols(), row as int, col as int)],
            vals[2] == self@[left_of(self.rows(), self.cols(), row as int, col as int)],
            vals[3] == self@[right_of(self.rows(), self.cols(), row as int, col as int)],
    {
        proof {
            use_type_invariant(self);
        }
        let nb = self.grid.neighbors(row, col);
        [
            self.get(nb[0].0, nb[0].1),
            self.get(nb[1].0, nb[1].1),
            self.get(nb[2].0, nb[2].1),
            self.get(nb[3].0, nb[3].1),
        ]
    }

    /// Overwrite every site, in row-major order, with successive calls of
    /// `init`; the dimensions are unchanged.
    pub fn fill<F: FnMut() -> T>(&mut self, init: F)
        requires
            call_requires(init, ()),
        ensures
            final(self).rows() == old(self).rows(),
            final(self).cols() == old(self).cols(),
            final(self)@.len() == old(self)@.len(),
            forall|i: int|
                0 <= i < final(self)@.len() ==> call_ensures(init, (), #[trigger] final(self)@[i]),
    {
        proof {
            use_type_invariant(&*self);
        }
        let ghost init0 = init;
        let mut init = init;
        let n = self.sites.len();
        let mut i: usize = 0;
        while i < n
            invariant
                i <= n,
                n == self.sites@.len(),
                self.sites@.len() == self.grid@.0 * self.grid@.1,
                self.sites@.len() <= usize::MAX,
                self.grid == old(self).grid,
                init == init0,
                call_requires(init, ()),
                forall|j: int| 0 <= j < i ==> call_ensures(init0, (), #[trigger] self.sites@[j]),
            decreases n - i,
        {
            let ghost prev = self.sites@;
            let v = init();
            assert(call_ensures(init0, (), v));
            self.sites[i] = v;
            assert forall|j: int| 0 <= j < i + 1 implies call_ensures(init0, (), #[trigger] self.sites@[j]) by {
                if j < i {
                    assert(self.sites@[j] == prev[j]);
                } else {
                    assert(call_ensures(init0, (), self.sites@[j]));
                }
            }
            i = i + 1;
        }
    }
}

} // verus!
