//! The decision step of single-spin-flip Metropolis sampling.
//!
//! A Metropolis attempt at a site accepts the flip outright when it does
//! not raise the energy, and otherwise accepts it with probability
//! `exp(-beta * delta_e)`. The probabilistic test needs a uniform draw and
//! a real exponential, which are made by the caller; this module decides,
//! for the site, which of the two cases applies.
use vstd::prelude::*;
use crate::ising;
use crate::spin_lattice;
use crate::torus::{flat, flip_cost_of, negate_at, neighbors_inside, lemma_flat_nonneg};

verus! {

/// What a single-spin-flip Metropolis attempt at a site requires.
#[derive(Debug, Clone, Copy, PartialEq, Eq)]
pub enum FlipProposal {
    /// The flip does not raise the energy: flip without drawing.
    Accept,
    /// The flip raises the energy by `delta_e > 0`: flip only if a uniform
    /// draw from `[0, 1)` falls below `exp(-beta * delta_e)`.
    Test(i32),
}

/// The proposal for a flip that costs `delta_e`.
pub open spec fn proposal_for(delta_e: int) -> FlipProposal {
    if delta_e <= 0 {
        FlipProposal::Accept
    } else {
        FlipProposal::Test(delta_e as i32)
    }
}

/// The proposal for a flip that costs `delta_e`: accept every move that
/// does not raise the energy, test every other.
pub fn propose(delta_e: i32) -> (p: FlipProposal)
    ensures
        p == proposal_for(delta_e as int),
{
    if delta_e <= 0 {
        FlipProposal::Accept
    } else {
        FlipProposal::Test(delta_e)
    }
}

/// The values after the recorded attempts (site row, site column,
/// whether it flipped), applied in order, as one sweep applies them.
pub open spec fn flips_result(s: Seq<int>, ncols: int, attempts: Seq<(usize, usize, bool)>) -> Seq<
    int,
>
    decreases attempts.len(),
{
    if attempts.len() == 0 {
        s
    } else {
        let a = attempts.last();
        let prev = flips_result(s, ncols, attempts.drop_last());
        if a.2 {
            negate_at(prev, flat(a.0 as int, a.1 as int, ncols))
        } else {
            prev
        }
    }
}

/// A flip attempt at `(row, col)` stays inside a lattice of `len` sites:
/// the site and its four neighbours are in range.
pub open spec fn flip_inside(nrows: int, ncols: int, row: int, col: int, len: int) -> bool {
    &&& neighbors_inside(nrows, ncols, row, col, len)
    &&& flat(row, col, ncols) < len
}

/// The recorded attempts of a Metropolis sweep from `start` are what its
/// draws could give: each site is a result of `site` and lies inside the
/// lattice; a flip that does not raise the energy is made without calling
/// `accept`, and one that costs `delta_e > 0` is made exactly when
/// `accept(delta_e)` returned `true`.
pub open spec fn metropolis_record<
    S: FnMut(usize, usize) -> (usize, usize),
    A: FnMut(i32) -> bool,
>(
    start: Seq<int>,
    nrows: int,
    ncols: int,
    site: S,
    accept: A,
    attempts: Seq<(usize, usize, bool)>,
) -> bool {
    forall|k: int|
        #![trigger attempts[k]]
        0 <= k < attempts.len() ==> {
            let before = flips_result(start, ncols, attempts.take(k));
            let a = attempts[k];
            let cost = flip_cost_of(before, nrows, ncols, a.0 as int, a.1 as int);
            &&& call_ensures(site, (nrows as usize, ncols as usize), (a.0, a.1))
            &&& flip_inside(nrows, ncols, a.0 as int, a.1 as int, start.len() as int)
            &&& if cost <= 0 {
                a.2
            } else {
                call_ensures(accept, (cost as i32,), a.2)
            }
        }
}

/// A Metropolis sweep from `start` that ended in `end` with result `r`
/// applied the recorded `attempts`: one per site when it returns `Ok`,
/// and, when it returns `Err((row, col))`, fewer, stopping at a drawn site
/// `(row, col)` that does not lie inside the lattice.
pub open spec fn metropolis_sweep_run<
    S: FnMut(usize, usize) -> (usize, usize),
    A: FnMut(i32) -> bool,
>(
    start: Seq<int>,
    end: Seq<int>,
    nrows: int,
    ncols: int,
    site: S,
    accept: A,
    attempts: Seq<(usize, usize, bool)>,
    r: Result<(), (usize, usize)>,
) -> bool {
    &&& metropolis_record(start, nrows, ncols, site, accept, attempts)
    &&& end == flips_result(start, ncols, attempts)
    &&& match r {
        Ok(()) => attempts.len() == start.len(),
        Err((row, col)) => {
            &&& attempts.len() < start.len()
            &&& call_ensures(site, (nrows as usize, ncols as usize), (row, col))
            &&& !flip_inside(nrows, ncols, row as int, col as int, start.len() as int)
        },
    }
}

/// Extending a sweep's record by one attempt made on the values `before`
/// that the record leads to.
proof fn lemma_record_push<
    S: FnMut(usize, usize) -> (usize, usize),
    A: FnMut(i32) -> bool,
>(
    start: Seq<int>,
    nrows: int,
    ncols: int,
    site: S,
    accept: A,
    attempts: Seq<(usize, usize, bool)>,
    a: (usize, usize, bool),
)
    requires
        metropolis_record(start, nrows, ncols, site, accept, attempts),
        call_ensures(site, (nrows as usize, ncols as usize), (a.0, a.1)),
        flip_inside(nrows, ncols, a.0 as int, a.1 as int, start.len() as int),
        ({
            let cost = flip_cost_of(
                flips_result(start, ncols, attempts),
                nrows,
                ncols,
                a.0 as int,
                a.1 as int,
            );
            if cost <= 0 {
                a.2
            } else {
                call_ensures(accept, (cost as i32,), a.2)
            }
        }),
    ensures
        metropolis_record(start, nrows, ncols, site, accept, attempts.push(a)),
        flips_result(start, ncols, attempts.push(a)) == (if a.2 {
            negate_at(flips_result(start, ncols, attempts), flat(a.0 as int, a.1 as int, ncols))
        } else {
            flips_result(start, ncols, attempts)
        }),
{
    let next = attempts.push(a);
    assert(next.drop_last() =~= attempts);
    assert(next.take(attempts.len() as int) =~= attempts);
    assert forall|k: int| 0 <= k < attempts.len() implies #[trigger] next.take(k) =~= attempts.take(
        k,
    ) by {}
    assert forall|k: int| 0 <= k < next.len() implies #[trigger] next[k] == (if k < attempts.len() {
        attempts[k]
    } else {
        a
    }) by {}
}

impl ising::IsingLattice {
    /// The Metropolis proposal for flipping the spin at `(row, col)`.
    pub fn propose_flip(&self, row: usize, col: usize) -> (p: FlipProposal)
        requires
            self.neighbors_ok(row as int, col as int),
            flat(row as int, col as int, self.cols()) < self@.len(),
        ensures
            p == proposal_for(
                flip_cost_of(self.values(), self.rows(), self.cols(), row as int, col as int),
            ),
    {
        propose(self.flip_energy(row, col))
    }

    /// One Metropolis sweep: as many single-spin-flip attempts as there are
    /// sites. Each attempt draws a site `(row, col)` from `site` (given the
    /// dimensions); a flip that does not raise the energy is always made,
    /// and one that costs `delta_e > 0` is made when `accept(delta_e)`
    /// returns `true`. A drawn site that lies outside the lattice stops the
    /// sweep with `Err((row, col))`.
    pub fn metropolis_sweep<S: FnMut(usize, usize) -> (usize, usize), A: FnMut(i32) -> bool>(
        &mut self,
        site: S,
        accept: A,
    ) -> (r: Result<(), (usize, usize)>)
        requires
            call_requires(site, (old(self).rows() as usize, old(self).cols() as usize)),
            forall|delta_e: i32| call_requires(accept, (delta_e,)),
        ensures
            final(self).rows() == old(self).rows(),
            final(self).cols() == old(self).cols(),
            final(self)@.len() == old(self)@.len(),
            exists|attempts: Seq<(usize, usize, bool)>|
                #[trigger] metropolis_sweep_run(
                    old(self).values(),
                    final(self).values(),
                    old(self).rows(),
                    old(self).cols(),
                    site,
                    accept,
                    attempts,
                    r,
                ),
    {
        let ghost start = self.values();
        let ghost site0 = site;
        let ghost accept0 = accept;
        let mut draw_site = site;
        let mut draw_accept = accept;
        let nrows = self.nrows();
        let ncols = self.ncols();
        let n_attempts = nrows * ncols;
        let ghost mut attempts: Seq<(usize, usize, bool)> = Seq::empty();
        let mut i: usize = 0;
        while i < n_attempts
            invariant
                i <= n_attempts,
                n_attempts == start.len(),
                nrows == self.rows(),
                ncols == self.cols(),
                nrows == old(self).rows(),
                ncols == old(self).cols(),
                start == old(self).values(),
                start.len() == old(self)@.len(),
                self@.len() == old(self)@.len(),
                site0 == site,
                accept0 == accept,
                draw_site == site0,
                draw_accept == accept0,
                call_requires(draw_site, (nrows, ncols)),
                forall|delta_e: i32| call_requires(draw_accept, (delta_e,)),
                attempts.len() == i,
                self.values() == flips_result(start, ncols as int, attempts),
                metropolis_record(start, nrows as int, ncols as int, site0, accept0, attempts),
            decreases n_attempts - i,
        {
            let (row, col) = draw_site(nrows, ncols);
            if !self.can_attempt(row, col) {
                proof {
                    assert(metropolis_sweep_run(
                        start,
                        self.values(),
                        nrows as int,
                        ncols as int,
                        site0,
                        accept0,
                        attempts,
                        Err((row, col)),
                    ));
                }
                return Err((row, col));
            }
            let flip = match self.propose_flip(row, col) {
                FlipProposal::Accept => true,
                FlipProposal::Test(delta_e) => draw_accept(delta_e),
            };
            if flip {
                self.flip(row, col);
            }
            proof {
                lemma_flat_nonneg(row as int, col as int, ncols as int);
                lemma_record_push(
                    start,
                    nrows as int,
                    ncols as int,
                    site0,
                    accept0,
                    attempts,
                    (row, col, flip),
                );
                attempts = attempts.push((row, col, flip));
            }
            i = i + 1;
        }
        proof {
            assert(metropolis_sweep_run(
                start,
                self.values(),
                nrows as int,
                ncols as int,
                site0,
                accept0,
                attempts,
                Ok(()),
            ));
        }
        Ok(())
    }
}

impl spin_lattice::IsingLattice {
    /// The Metropolis proposal for flipping the spin at `(row, col)`.
    pub fn propose_flip(&self, row: usize, col: usize) -> (p: FlipProposal)
        requires
            self.neighbors_ok(row as int, col as int),
            flat(row as int, col as int, self.cols()) < self@.len(),
        ensures
            p == proposal_for(
                flip_cost_of(self.values(), self.rows(), self.cols(), row as int, col as int),
            ),
    {
        propose(self.flip_energy(row, col))
    }

    /// One Metropolis sweep: as many single-spin-flip attempts as there are
    /// sites. Each attempt draws a site `(row, col)` from `site` (given the
    /// dimensions); a flip that does not raise the energy is always made,
    /// and one that costs `delta_e > 0` is made when `accept(delta_e)`
    /// returns `true`. A drawn site that lies outside the lattice stops the
    /// sweep with `Err((row, col))`.
    pub fn metropolis_sweep<S: FnMut(usize, usize) -> (usize, usize), A: FnMut(i32) -> bool>(
        &mut self,
        site: S,
        accept: A,
    ) -> (r: Result<(), (usize, usize)>)
        requires
            call_requires(site, (old(self).rows() as usize, old(self).cols() as usize)),
            forall|delta_e: i32| call_requires(accept, (delta_e,)),
        ensures
            final(self).rows() == old(self).rows(),
            final(self).cols() == old(self).cols(),
            final(self)@.len() == old(self)@.len(),
            exists|attempts: Seq<(usize, usize, bool)>|
                #[trigger] metropolis_sweep_run(
                    old(self).values(),
                    final(self).values(),
                    old(self).rows(),
                    old(self).cols(),
                    site,
                    accept,
                    attempts,
                    r,
                ),
    {
        let ghost start = self.values();
        let ghost site0 = site;
        let ghost accept0 = accept;
        let mut draw_site = site;
        let mut draw_accept = accept;
        let nrows = self.nrows();
        let ncols = self.ncols();
        let n_attempts = nrows * ncols;
        let ghost mut attempts: Seq<(usize, usize, bool)> = Seq::empty();
        let mut i: usize = 0;
        while i < n_attempts
            invariant
                i <= n_attempts,
                n_attempts == start.len(),
                nrows == self.rows(),
                ncols == self.cols(),
                nrows == old(self).rows(),
                ncols == old(self).cols(),
                start == old(self).values(),
                start.len() == old(self)@.len(),
                self@.len() == old(self)@.len(),
                site0 == site,
                accept0 == accept,
                draw_site == site0,
                draw_accept == accept0,
                call_requires(draw_site, (nrows, ncols)),
                forall|delta_e: i32| call_requires(draw_accept, (delta_e,)),
                attempts.len() == i,
                self.values() == flips_result(start, ncols as int, attempts),
                metropolis_record(start, nrows as int, ncols as int, site0, accept0, attempts),
            decreases n_attempts - i,
        {
            let (row, col) = draw_site(nrows, ncols);
            if !self.can_attempt(row, col) {
                proof {
                    assert(metropolis_sweep_run(
                        start,
                        self.values(),
                        nrows as int,
                        ncols as int,
                        site0,
                        accept0,
                        attempts,
                        Err((row, col)),
                    ));
                }
                return Err((row, col));
            }
            let flip = match self.propose_flip(row, col) {
                FlipProposal::Accept => true,
                FlipProposal::Test(delta_e) => draw_accept(delta_e),
            };
            if flip {
                self.flip(row, col);
            }
            proof {
                lemma_flat_nonneg(row as int, col as int, ncols as int);
                lemma_record_push(
                    start,
                    nrows as int,
                    ncols as int,
                    site0,
                    accept0,
                    attempts,
                    (row, col, flip),
                );
                attempts = attempts.push((row, col, flip));
            }
            i = i + 1;
        }
        proof {
            assert(metropolis_sweep_run(
                start,
                self.values(),
                nrows as int,
                ncols as int,
                site0,
                accept0,
                attempts,
                Ok(()),
            ));
        }
        Ok(())
    }
}

} // verus!
