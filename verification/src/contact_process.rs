//! Contact process on a 2D toroidal lattice: the directed-percolation
//! universality-class model of spreading/healing activity.
use vstd::prelude::*;
use crate::binary::Binary;
use crate::lattice::{LatticeState, neighbors_below, flat_index_below};
use crate::torus::{
    neighbors_inside, flat, ring_prev, ring_next, up_of, down_of, left_of, right_of, sum_to,
    lemma_flat_in_range, lemma_flat_nonneg, lemma_ring_nonneg, lemma_ring_steps,
    lemma_neighbors_in_range,
};

verus! {

/// Number of Active values among the first `k` of `s`.
pub open spec fn active_count_to(s: Seq<Binary>, k: int) -> int {
    sum_to(|i: int| if s[i] == Binary::Active { 1int } else { 0int }, k)
}

/// Every site is Inactive.
pub open spec fn all_inactive(s: Seq<Binary>) -> bool {
    forall|i: int| 0 <= i < s.len() ==> #[trigger] s[i] == Binary::Inactive
}

/// Flat index of neighbour number `k` of `(row, col)`, in the order up,
/// down, left, right.
pub open spec fn neighbor_index(nrows: int, ncols: int, row: int, col: int, k: int) -> int {
    if k == 0 {
        up_of(nrows, ncols, row, col)
    } else if k == 1 {
        down_of(nrows, ncols, row, col)
    } else if k == 2 {
        left_of(nrows, ncols, row, col)
    } else {
        right_of(nrows, ncols, row, col)
    }
}

/// The random draw that one contact-process attempt at a site needs.
#[derive(Debug, Clone, Copy, PartialEq, Eq)]
pub enum ContactDraw {
    /// The site is Active: draw whether it heals.
    Heal,
    /// The site is Inactive: draw which of its four neighbours it copies.
    Neighbor,
}

/// The outcome of the draw of one contact-process attempt.
#[derive(Debug, Clone, Copy, PartialEq, Eq)]
pub enum ContactOutcome {
    /// An Active site heals to Inactive (`true`) or stays Active (`false`).
    Heal(bool),
    /// An Inactive site adopts the state of its neighbour number
    /// `choice % 4`, in the order up, down, left, right.
    Adopt(usize),
}

/// The site states after one attempt at `(row, col)` with the given
/// outcome: an Active site heals on `Heal(true)`, an Inactive site copies
/// the chosen neighbour on `Adopt`, and an outcome of the other kind
/// changes nothing.
pub open spec fn attempt_result(
    s: Seq<Binary>,
    nrows: int,
    ncols: int,
    row: int,
    col: int,
    outcome: ContactOutcome,
) -> Seq<Binary> {
    let p = flat(row, col, ncols);
    if s[p] == Binary::Active {
        match outcome {
            ContactOutcome::Heal(true) => s.update(p, Binary::Inactive),
            _ => s,
        }
    } else {
        match outcome {
            ContactOutcome::Adopt(choice) => s.update(
                p,
                s[neighbor_index(nrows, ncols, row, col, choice as int % 4)],
            ),
            _ => s,
        }
    }
}

/// The site states after the attempts in `attempts` (site row, site column,
/// outcome), applied in order, as one sweep applies them.
pub open spec fn attempts_result(
    s: Seq<Binary>,
    nrows: int,
    ncols: int,
    attempts: Seq<(usize, usize, ContactOutcome)>,
) -> Seq<Binary>
    decreases attempts.len(),
{
    if attempts.len() == 0 {
        s
    } else {
        let a = attempts.last();
        attempt_result(
            attempts_result(s, nrows, ncols, attempts.drop_last()),
            nrows,
            ncols,
            a.0 as int,
            a.1 as int,
            a.2,
        )
    }
}

/// Every attempt's site, and the neighbour it would copy, lie among the
/// first `len` flat indices.
pub open spec fn attempts_inside(
    nrows: int,
    ncols: int,
    attempts: Seq<(usize, usize, ContactOutcome)>,
    len: int,
) -> bool {
    forall|k: int|
        0 <= k < attempts.len() ==> {
            &&& 0 <= flat(#[trigger] attempts[k].0 as int, attempts[k].1 as int, ncols) < len
            &&& (attempts[k].2 matches ContactOutcome::Adopt(choice) ==> 0 <= neighbor_index(
                nrows,
                ncols,
                attempts[k].0 as int,
                attempts[k].1 as int,
                choice as int % 4,
            ) < len)
        }
}

/// An attempt at `(row, col)` stays inside the lattice `s`: the site is
/// in range and, when it is Inactive (so that it may copy a neighbour), so
/// are its four neighbours.
pub open spec fn attempt_ok(s: Seq<Binary>, nrows: int, ncols: int, row: int, col: int) -> bool {
    &&& flat(row, col, ncols) < s.len()
    &&& s[flat(row, col, ncols)] == Binary::Inactive ==> neighbors_inside(
        nrows,
        ncols,
        row,
        col,
        s.len() as int,
    )
}

/// The recorded attempts of a sweep from `start` are what its draws could
/// give: each site is a result of `site`, lies inside the lattice as it
/// stood before the attempt, and is followed by a healing draw of `heal`
/// when it is Active and by a neighbour draw of `neighbor_choice` when it
/// is Inactive.
pub open spec fn contact_record<
    S: FnMut(usize, usize) -> (usize, usize),
    H: FnMut() -> bool,
    N: FnMut() -> usize,
>(
    start: Seq<Binary>,
    nrows: int,
    ncols: int,
    site: S,
    heal: H,
    neighbor_choice: N,
    attempts: Seq<(usize, usize, ContactOutcome)>,
) -> bool {
    forall|k: int|
        #![trigger attempts[k]]
        0 <= k < attempts.len() ==> {
            let before = attempts_result(start, nrows, ncols, attempts.take(k));
            let a = attempts[k];
            let p = flat(a.0 as int, a.1 as int, ncols);
            &&& call_ensures(site, (nrows as usize, ncols as usize), (a.0, a.1))
            &&& attempt_ok(before, nrows, ncols, a.0 as int, a.1 as int)
            &&& (before[p] == Binary::Active ==> (a.2 matches ContactOutcome::Heal(b)
                && call_ensures(heal, (), b)))
            &&& (before[p] == Binary::Inactive ==> (a.2 matches ContactOutcome::Adopt(c)
                && call_ensures(neighbor_choice, (), c)))
        }
}

/// A contact-process sweep from `start` that ended in `end` with result
/// `r` applied the recorded `attempts`: one per site when it returns `Ok`,
/// and, when it returns `Err((row, col))`, fewer, stopping at a drawn site
/// `(row, col)` that does not lie inside the lattice.
pub open spec fn contact_sweep<
    S: FnMut(usize, usize) -> (usize, usize),
    H: FnMut() -> bool,
    N: FnMut() -> usize,
>(
    start: Seq<Binary>,
    end: Seq<Binary>,
    nrows: int,
    ncols: int,
    site: S,
    heal: H,
    neighbor_choice: N,
    attempts: Seq<(usize, usize, ContactOutcome)>,
    r: Result<(), (usize, usize)>,
) -> bool {
    &&& contact_record(start, nrows, ncols, site, heal, neighbor_choice, attempts)
    &&& attempts_inside(nrows, ncols, attempts, start.len() as int)
    &&& end == attempts_result(start, nrows, ncols, attempts)
    &&& match r {
        Ok(()) => attempts.len() == start.len(),
        Err((row, col)) => {
            &&& attempts.len() < start.len()
            &&& call_ensures(site, (nrows as usize, ncols as usize), (row, col))
            &&& !attempt_ok(end, nrows, ncols, row as int, col as int)
        },
    }
}

/// `heal` never returns `true`: no healing draw succeeds.
pub open spec fn never_heals<H: FnMut() -> bool>(heal: H) -> bool {
    forall|b: bool| call_ensures(heal, (), b) ==> !b
}

/// 2D toroidal lattice of active/inactive sites.
pub struct ContactLattice {
    state: LatticeState<Binary>,
}

impl View for ContactLattice {
    /// The site states in row-major order.
    type V = Seq<Binary>;

    closed spec fn view(&self) -> Seq<Binary> {
        self.state@
    }
}

impl ContactLattice {
    /// The number of rows.
    pub closed spec fn rows(&self) -> int {
        self.state.rows()
    }

    /// The number of columns.
    pub closed spec fn cols(&self) -> int {
        self.state.cols()
    }

    /// The four neighbour indices of `(row, col)` lie inside the lattice and
    /// computing them does not overflow.
    pub open spec fn neighbors_ok(&self, row: int, col: int) -> bool {
        neighbors_inside(self.rows(), self.cols(), row, col, self@.len() as int)
    }

    /// A lattice whose sites are drawn, in row-major order, by successive
    /// calls of `site`.
    pub fn new_with<F: FnMut() -> Binary>(nrows: usize, ncols: usize, site: F) -> (l: Self)
        requires
            nrows * ncols <= usize::MAX,
            call_requires(site, ()),
        ensures
            l.rows() == nrows,
            l.cols() == ncols,
            l@.len() == nrows * ncols,
            forall|i: int| 0 <= i < l@.len() ==> call_ensures(site, (), #[trigger] l@[i]),
    {
        ContactLattice { state: LatticeState::new(nrows, ncols, site) }
    }

    pub fn nrows(&self) -> (n: usize)
        ensures
            n == self.rows(),
            self@.len() == self.rows() * self.cols(),
            self@.len() <= usize::MAX,
    {
        self.state.nrows()
    }

    pub fn ncols(&self) -> (n: usize)
        ensures
            n == self.cols(),
            self@.len() == self.rows() * self.cols(),
            self@.len() <= usize::MAX,
    {
        self.state.ncols()
    }

    /// Row-major active-site buffer.
    pub fn active(&self) -> (s: &[Binary])
        ensures
            s@ == self@,
    {
        self.state.sites()
    }

    /// Whether the site `(row, col)` is Active.
    pub fn is_active(&self, row: usize, col: usize) -> (b: bool)
        requires
            flat(row as int, col as int, self.cols()) < self@.len(),
        ensures
            b == (self@[flat(row as int, col as int, self.cols())] == Binary::Active),
    {
        self.state.get(row, col).is_active()
    }

    /// Make the site `(row, col)` Active or Inactive; every other site is
    /// unchanged.
    pub fn set_active(&mut self, row: usize, col: usize, active: bool)
        requires
            flat(row as int, col as int, old(self).cols()) < old(self)@.len(),
        ensures
            final(self).rows() == old(self).rows(),
            final(self).cols() == old(self).cols(),
            final(self)@ == old(self)@.update(
                flat(row as int, col as int, old(self).cols()),
                Binary::from_bool(active),
            ),
    {
        self.state.set(row, col, if active { Binary::Active } else { Binary::Inactive });
    }

    /// The states of the four nearest neighbors of `(row, col)`, in the
    /// order up, down, left, right.
    pub fn neighbor_states(&self, row: usize, col: usize) -> (nb: [Binary; 4])
        requires
            self.neighbors_ok(row as int, col as int),
        ensures
            nb[0] == self@[up_of(self.rows(), self.cols(), row as int, col as int)],
            nb[1] == self@[down_of(self.rows(), self.cols(), row as int, col as int)],
            nb[2] == self@[left_of(self.rows(), self.cols(), row as int, col as int)],
            nb[3] == self@[right_of(self.rows(), self.cols(), row as int, col as int)],
    {
        self.state.neighbor_values(row, col)
    }

    /// Overwrite every site, in row-major order, with successive calls of
    /// `site`; the dimensions are unchanged.
    pub fn randomize_with<F: FnMut() -> Binary>(&mut self, site: F)
        requires
            call_requires(site, ()),
        ensures
            final(self).rows() == old(self).rows(),
            final(self).cols() == old(self).cols(),
            final(self)@.len() == old(self)@.len(),
            forall|i: int|
                0 <= i < final(self)@.len() ==> call_ensures(site, (), #[trigger] final(self)@[i]),
    {
        self.state.fill(site);
    }

    /// Number of Active sites; the active fraction is this divided by the
    /// number of sites, and so lies in `[0, 1]`.
    pub fn active_count(&self) -> (n: usize)
        ensures
            n == active_count_to(self@, self@.len() as int),
            n <= self@.len(),
    {
        let sites = self.state.sites();
        let len = sites.len();
        let mut count: usize = 0;
        let mut i: usize = 0;
        while i < len
            invariant
                i <= len,
                len == self@.len(),
                sites@ == self@,
                count == active_count_to(self@, i as int),
                count <= i,
            decreases len - i,
        {
            if sites[i].is_active() {
                count = count + 1;
            }
            i = i + 1;
        }
        count
    }

    /// Whether an attempt at `(row, col)` stays inside the lattice: the site
    /// is in range and, when it is Inactive (so that it may copy a
    /// neighbour), so are its four neighbours.
    pub fn can_attempt(&self, row: usize, col: usize) -> (b: bool)
        ensures
            b == attempt_ok(self@, self.rows(), self.cols(), row as int, col as int),
    {
        let nrows = self.nrows();
        let ncols = self.ncols();
        let len = self.active().len();
        if !flat_index_below(ncols, row, col, len) {
            return false;
        }
        if self.is_active(row, col) {
            true
        } else {
            neighbors_below(nrows, ncols, row, col, len)
        }
    }

    /// Which draw one attempt at `(row, col)` needs: whether to heal for an
    /// Active site, which neighbour to copy for an Inactive one.
    pub fn plan_attempt(&self, row: usize, col: usize) -> (d: ContactDraw)
        requires
            flat(row as int, col as int, self.cols()) < self@.len(),
        ensures
            d == (if self@[flat(row as int, col as int, self.cols())] == Binary::Active {
                ContactDraw::Heal
            } else {
                ContactDraw::Neighbor
            }),
    {
        if self.is_active(row, col) {
            ContactDraw::Heal
        } else {
            ContactDraw::Neighbor
        }
    }

    /// One attempt at `(row, col)` with the drawn outcome: an Active site
    /// heals to Inactive on `Heal(true)`; an Inactive site adopts the current
    /// state of neighbour `choice % 4` on `Adopt(choice)`.
    pub fn apply_attempt(&mut self, row: usize, col: usize, outcome: ContactOutcome)
        requires
            flat(row as int, col as int, old(self).cols()) < old(self)@.len(),
            old(self)@[flat(row as int, col as int, old(self).cols())] == Binary::Inactive
                && outcome is Adopt ==> old(self).neighbors_ok(row as int, col as int),
        ensures
            final(self).rows() == old(self).rows(),
            final(self).cols() == old(self).cols(),
            final(self)@ == attempt_result(
                old(self)@,
                old(self).rows(),
                old(self).cols(),
                row as int,
                col as int,
                outcome,
            ),
    {
        if self.is_active(row, col) {
            if let ContactOutcome::Heal(true) = outcome {
                self.set_active(row, col, false);
            }
        } else {
            if let ContactOutcome::Adopt(choice) = outcome {
                let neighbors = self.neighbor_states(row, col);
                let k = choice % 4;
                self.set_active(row, col, neighbors[k].is_active());
            }
        }
    }

    /// One sweep: as many attempts as there are sites. Each attempt draws a
    /// site `(row, col)` from `site` (given the dimensions); an Active site
    /// heals when `heal` returns `true`; an Inactive site adopts the state of
    /// its neighbour number `neighbor_choice() % 4`. A drawn site that lies
    /// outside the lattice stops the sweep with `Err((row, col))`.
    pub fn sweep<
        S: FnMut(usize, usize) -> (usize, usize),
        H: FnMut() -> bool,
        N: FnMut() -> usize,
    >(&mut self, site: S, heal: H, neighbor_choice: N) -> (r: Result<(), (usize, usize)>)
        requires
            call_requires(site, (old(self).rows() as usize, old(self).cols() as usize)),
            call_requires(heal, ()),
            call_requires(neighbor_choice, ()),
        ensures
            final(self).rows() == old(self).rows(),
            final(self).cols() == old(self).cols(),
            exists|attempts: Seq<(usize, usize, ContactOutcome)>|
                #[trigger] contact_sweep(
                    old(self)@,
                    final(self)@,
                    old(self).rows(),
                    old(self).cols(),
                    site,
                    heal,
                    neighbor_choice,
                    attempts,
                    r,
                ),
            all_inactive(old(self)@) ==> all_inactive(final(self)@),
            never_heals(heal) ==> forall|i: int|
                0 <= i < old(self)@.len() && old(self)@[i] == Binary::Active
                    ==> #[trigger] final(self)@[i] == Binary::Active,
    {
        let ghost start = self@;
        let ghost site0 = site;
        let ghost heal0 = heal;
        let ghost choice0 = neighbor_choice;
        let mut draw_site = site;
        let mut draw_heal = heal;
        let mut draw_choice = neighbor_choice;
        let nrows = self.nrows();
        let ncols = self.ncols();
        let n_attempts = nrows * ncols;
        let ghost mut attempts: Seq<(usize, usize, ContactOutcome)> = Seq::empty();
        let mut i: usize = 0;
        while i < n_attempts
            invariant
                i <= n_attempts,
                n_attempts == start.len(),
                nrows == self.rows(),
                ncols == self.cols(),
                nrows == old(self).rows(),
                ncols == old(self).cols(),
                start == old(self)@,
                self@.len() == start.len(),
                site0 == site,
                heal0 == heal,
                choice0 == neighbor_choice,
                draw_site == site0,
                draw_heal == heal0,
                draw_choice == choice0,
                call_requires(draw_site, (nrows, ncols)),
                call_requires(draw_heal, ()),
                call_requires(draw_choice, ()),
                attempts.len() == i,
                self@ == attempts_result(start, nrows as int, ncols as int, attempts),
                contact_record(start, nrows as int, ncols as int, site0, heal0, choice0, attempts),
                attempts_inside(nrows as int, ncols as int, attempts, start.len() as int),
            decreases n_attempts - i,
        {
            let ghost before = self@;
            let (row, col) = draw_site(nrows, ncols);
            if !self.can_attempt(row, col) {
                proof {
                    self.lemma_sweep_laws(start, site0, heal0, choice0, attempts);
                    assert(contact_sweep(
                        start,
                        self@,
                        nrows as int,
                        ncols as int,
                        site0,
                        heal0,
                        choice0,
                        attempts,
                        Err((row, col)),
                    ));
                }
                return Err((row, col));
            }
            let outcome = match self.plan_attempt(row, col) {
                ContactDraw::Heal => ContactOutcome::Heal(draw_heal()),
                ContactDraw::Neighbor => ContactOutcome::Adopt(draw_choice()),
            };
            self.apply_attempt(row, col, outcome);
            proof {
                let a = (row, col, outcome);
                let next = attempts.push(a);
                assert(next.drop_last() =~= attempts);
                assert(next.take(i as int) =~= attempts);
                let p = flat(row as int, col as int, ncols as int);
                lemma_flat_nonneg(row as int, col as int, ncols as int);
                assert forall|k: int| 0 <= k < i implies #[trigger] next.take(k) =~= attempts.take(k) by {}
                if let ContactOutcome::Adopt(c) = outcome {
                    assert(before[p] == Binary::Inactive);
                    lemma_neighbor_index_inside(
                        nrows as int,
                        ncols as int,
                        row as int,
                        col as int,
                        start.len() as int,
                        c as int % 4,
                    );
                }
                assert(attempts_inside(nrows as int, ncols as int, next, start.len() as int)) by {
                    assert forall|k: int| 0 <= k < next.len() implies #[trigger] next[k] == (if k
                        < i {
                        attempts[k]
                    } else {
                        a
                    }) by {}
                }
                assert(contact_record(start, nrows as int, ncols as int, site0, heal0, choice0, next))
                    by {
                    assert forall|k: int| 0 <= k < next.len() implies #[trigger] next[k] == (if k
                        < i {
                        attempts[k]
                    } else {
                        a
                    }) by {}
                }
                attempts = next;
            }
            i = i + 1;
        }
        proof {
            self.lemma_sweep_laws(start, site0, heal0, choice0, attempts);
            assert(contact_sweep(
                start,
                self@,
                nrows as int,
                ncols as int,
                site0,
                heal0,
                choice0,
                attempts,
                Ok(()),
            ));
        }
        Ok(())
    }

    /// The laws of a sweep, from its record: an all-Inactive lattice stays
    /// all-Inactive, and without a successful healing draw no Active site is
    /// lost.
    proof fn lemma_sweep_laws<
        S: FnMut(usize, usize) -> (usize, usize),
        H: FnMut() -> bool,
        N: FnMut() -> usize,
    >(
        &self,
        start: Seq<Binary>,
        site: S,
        heal: H,
        neighbor_choice: N,
        attempts: Seq<(usize, usize, ContactOutcome)>,
    )
        requires
            self@ == attempts_result(start, self.rows(), self.cols(), attempts),
            contact_record(start, self.rows(), self.cols(), site, heal, neighbor_choice, attempts),
            attempts_inside(self.rows(), self.cols(), attempts, start.len() as int),
        ensures
            all_inactive(start) ==> all_inactive(self@),
            never_heals(heal) ==> forall|i: int|
                0 <= i < start.len() && start[i] == Binary::Active ==> #[trigger] self@[i]
                    == Binary::Active,
    {
        lemma_attempts_laws(start, self.rows(), self.cols(), attempts);
        if never_heals(heal) {
            assert forall|k: int| 0 <= k < attempts.len() implies #[trigger] attempts[k].2
                != ContactOutcome::Heal(true) by {
                let before = attempts_result(start, self.rows(), self.cols(), attempts.take(k));
                let a = attempts[k];
                if a.2 == ContactOutcome::Heal(true) {
                    let p = flat(a.0 as int, a.1 as int, self.cols());
                    assert(before[p] == Binary::Active);
                    assert(call_ensures(heal, (), true));
                }
            }
        }
    }

    /// Clear to all-inactive, then activate a single site at the center.
    pub fn seed_center(&mut self)
        requires
            old(self).rows() > 0,
            old(self).cols() > 0,
        ensures
            final(self).rows() == old(self).rows(),
            final(self).cols() == old(self).cols(),
            final(self)@ == Seq::new(
                old(self)@.len(),
                |i: int|
                    if i == flat(old(self).rows() / 2, old(self).cols() / 2, old(self).cols()) {
                        Binary::Active
                    } else {
                        Binary::Inactive
                    },
            ),
    {
        self.state.fill(|| -> (b: Binary)
            ensures
                b == Binary::Inactive,
            { Binary::Inactive });
        let r = self.nrows() / 2;
        let c = self.ncols() / 2;
        proof {
            lemma_flat_in_range(self.rows(), self.cols(), r as int, c as int);
        }
        self.set_active(r, c, true);
    }
}

/// The all-Inactive configuration is absorbing: no attempt, whatever its
/// outcome, activates a site of a lattice in which no site is Active.
pub proof fn lemma_all_inactive_is_absorbing(
    s: Seq<Binary>,
    nrows: int,
    ncols: int,
    row: int,
    col: int,
    outcome: ContactOutcome,
)
    requires
        all_inactive(s),
        0 <= flat(row, col, ncols) < s.len(),
        outcome matches ContactOutcome::Adopt(choice) ==> 0 <= neighbor_index(
            nrows,
            ncols,
            row,
            col,
            choice as int % 4,
        ) < s.len(),
    ensures
        all_inactive(attempt_result(s, nrows, ncols, row, col, outcome)),
{
    let p = flat(row, col, ncols);
    assert(s[p] == Binary::Inactive);
    if let ContactOutcome::Adopt(choice) = outcome {
        let q = neighbor_index(nrows, ncols, row, col, choice as int % 4);
        assert(s[q] == Binary::Inactive);
    }
}

/// Without a successful healing draw no Active site is lost: an attempt
/// whose outcome is not `Heal(true)` leaves every Active site Active, so
/// the active set can only grow.
pub proof fn lemma_no_heal_keeps_active(
    s: Seq<Binary>,
    nrows: int,
    ncols: int,
    row: int,
    col: int,
    outcome: ContactOutcome,
)
    requires
        outcome != ContactOutcome::Heal(true),
        0 <= flat(row, col, ncols) < s.len(),
        outcome matches ContactOutcome::Adopt(choice) ==> 0 <= neighbor_index(
            nrows,
            ncols,
            row,
            col,
            choice as int % 4,
        ) < s.len(),
    ensures
        attempt_result(s, nrows, ncols, row, col, outcome).len() == s.len(),
        forall|i: int|
            0 <= i < s.len() && s[i] == Binary::Active ==> #[trigger] attempt_result(
                s,
                nrows,
                ncols,
                row,
                col,
                outcome,
            )[i] == Binary::Active,
{
}

/// Over a whole sweep: a lattice with no Active site has none after any
/// sequence of attempts, and a sequence with no successful healing draw
/// loses no Active site.
pub proof fn lemma_attempts_laws(
    s: Seq<Binary>,
    nrows: int,
    ncols: int,
    attempts: Seq<(usize, usize, ContactOutcome)>,
)
    requires
        attempts_inside(nrows, ncols, attempts, s.len() as int),
    ensures
        attempts_result(s, nrows, ncols, attempts).len() == s.len(),
        all_inactive(s) ==> all_inactive(attempts_result(s, nrows, ncols, attempts)),
        (forall|k: int| 0 <= k < attempts.len() ==> #[trigger] attempts[k].2 != ContactOutcome::Heal(true))
            ==> forall|i: int|
            0 <= i < s.len() && s[i] == Binary::Active ==> #[trigger] attempts_result(
                s,
                nrows,
                ncols,
                attempts,
            )[i] == Binary::Active,
    decreases attempts.len(),
{
    if attempts.len() > 0 {
        let prefix = attempts.drop_last();
        let k = attempts.len() - 1;
        let a = attempts[k];
        assert(attempts_inside(nrows, ncols, prefix, s.len() as int)) by {
            assert forall|j: int| 0 <= j < prefix.len() implies prefix[j] == attempts[j] by {}
        }
        lemma_attempts_laws(s, nrows, ncols, prefix);
        let mid = attempts_result(s, nrows, ncols, prefix);
        assert(0 <= flat(attempts[k].0 as int, attempts[k].1 as int, ncols) < s.len());
        if all_inactive(s) {
            lemma_all_inactive_is_absorbing(mid, nrows, ncols, a.0 as int, a.1 as int, a.2);
        }
        if forall|j: int| 0 <= j < attempts.len() ==> #[trigger] attempts[j].2 != ContactOutcome::Heal(true) {
            assert forall|j: int| 0 <= j < prefix.len() implies #[trigger] prefix[j].2
                != ContactOutcome::Heal(true) by {
                assert(prefix[j] == attempts[j]);
            }
            assert(a.2 != ContactOutcome::Heal(true));
            lemma_no_heal_keeps_active(mid, nrows, ncols, a.0 as int, a.1 as int, a.2);
        }
        lemma_attempt_keeps_len(mid, nrows, ncols, a.0 as int, a.1 as int, a.2);
    }
}

/// An attempt leaves the number of sites unchanged.
proof fn lemma_attempt_keeps_len(
    s: Seq<Binary>,
    nrows: int,
    ncols: int,
    row: int,
    col: int,
    outcome: ContactOutcome,
)
    requires
        0 <= flat(row, col, ncols) < s.len(),
    ensures
        attempt_result(s, nrows, ncols, row, col, outcome).len() == s.len(),
{
}

/// Each of the four neighbour indices of a site whose neighbours lie
/// inside the lattice is a valid index.
proof fn lemma_neighbor_index_inside(nrows: int, ncols: int, row: int, col: int, len: int, k: int)
    requires
        neighbors_inside(nrows, ncols, row, col, len),
        0 <= row,
        0 <= col,
        0 <= k < 4,
    ensures
        0 <= neighbor_index(nrows, ncols, row, col, k) < len,
{
    lemma_ring_nonneg(row, nrows);
    lemma_ring_nonneg(col, ncols);
    lemma_flat_nonneg(ring_prev(row, nrows), col, ncols);
    lemma_flat_nonneg(ring_next(row, nrows), col, ncols);
    lemma_flat_nonneg(row, ring_prev(col, ncols), ncols);
    lemma_flat_nonneg(row, ring_next(col, ncols), ncols);
}

/// What one attempt does to the site it is made at, in closed form on the
/// torus. An Active site heals to Inactive on `Heal(true)` and stays Active
/// on `Heal(false)`. An Inactive site that adopts takes the state of the
/// neighbour it chose, counting `choice % 4` as up, down, left, right: the
/// row above the first row is the last row, the row below the last row is
/// the first, and likewise for columns. A mismatched outcome changes
/// nothing, and no other site ever changes.
pub proof fn lemma_attempt_effect(
    s: Seq<Binary>,
    nrows: int,
    ncols: int,
    row: int,
    col: int,
    outcome: ContactOutcome,
)
    requires
        0 <= row < nrows,
        0 <= col < ncols,
        s.len() == nrows * ncols,
    ensures
        ({
            let here = row * ncols + col;
            let after = attempt_result(s, nrows, ncols, row, col, outcome);
            &&& after.len() == s.len()
            &&& forall|i: int| 0 <= i < s.len() && i != here ==> #[trigger] after[i] == s[i]
            &&& after[here] == match outcome {
                ContactOutcome::Heal(heals) => if s[here] == Binary::Active && heals {
                    Binary::Inactive
                } else {
                    s[here]
                },
                ContactOutcome::Adopt(choice) => if s[here] == Binary::Inactive {
                    let k = choice as int % 4;
                    if k == 0 {
                        s[(if row == 0 { nrows - 1 } else { row - 1 }) * ncols + col]
                    } else if k == 1 {
                        s[(if row == nrows - 1 { 0 } else { row + 1 }) * ncols + col]
                    } else if k == 2 {
                        s[row * ncols + (if col == 0 { ncols - 1 } else { col - 1 })]
                    } else {
                        s[row * ncols + (if col == ncols - 1 { 0 } else { col + 1 })]
                    }
                } else {
                    s[here]
                },
            }
        }),
{
    lemma_flat_in_range(nrows, ncols, row, col);
    lemma_ring_steps(row, nrows);
    lemma_ring_steps(col, ncols);
    lemma_neighbors_in_range(nrows, ncols, row, col);
}

} // verus!
