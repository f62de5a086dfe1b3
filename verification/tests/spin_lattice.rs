use artificial_systems::mcmc::FlipProposal;
use artificial_systems::spin_lattice::IsingLattice;

fn lattice_from(nrows: usize, ncols: usize, pattern: &[i8]) -> IsingLattice {
    let mut it = pattern.iter();
    IsingLattice::new_with(nrows, ncols, || *it.next().unwrap() > 0)
}

const PATTERN_3X4: [i8; 12] = [
    1, 1, -1, 1, //
    -1, 1, 1, -1, //
    1, -1, -1, 1,
];

#[test]
fn flat_new_with_maps_draws_to_spins() {
    let l = lattice_from(3, 4, &PATTERN_3X4);
    assert_eq!(l.nrows(), 3);
    assert_eq!(l.ncols(), 4);
    assert_eq!(l.spins(), &PATTERN_3X4);
}

#[test]
fn flat_nn_sum_and_flip_energy() {
    let l = lattice_from(3, 4, &PATTERN_3X4);
    // (0,0): up (2,0)=1, down (1,0)=-1, left (0,3)=1, right (0,1)=1
    assert_eq!(l.nn_sum(0, 0), 2);
    assert_eq!(l.flip_energy(0, 0), 4);
    // (1,1): up 1, down -1, left -1, right 1
    assert_eq!(l.nn_sum(1, 1), 0);
    assert_eq!(l.flip_energy(1, 1), 0);
}

#[test]
fn flat_all_down_energetics() {
    let l = lattice_from(2, 3, &[-1; 6]);
    assert_eq!(l.spin_total(), -6);
    assert_eq!(l.doubled_energy(), -24);
    assert_eq!(l.flip_energy(1, 2), 8);
}

#[test]
fn flat_flip_negates_one_spin() {
    let mut l = lattice_from(3, 4, &PATTERN_3X4);
    l.flip(2, 3);
    let mut expected = PATTERN_3X4;
    expected[11] = -1;
    assert_eq!(l.spins(), &expected);
    l.flip(2, 3);
    assert_eq!(l.spins(), &PATTERN_3X4);
}

#[test]
fn flat_flip_energy_is_the_energy_change() {
    for row in 0..3 {
        for col in 0..4 {
            let mut l = lattice_from(3, 4, &PATTERN_3X4);
            let before = l.doubled_energy();
            let cost = l.flip_energy(row, col);
            l.flip(row, col);
            assert_eq!(l.doubled_energy() - before, 2 * cost as i128);
            assert_eq!(l.flip_energy(row, col), -cost);
        }
    }
}

#[test]
fn flat_randomize_with() {
    let mut l = lattice_from(2, 2, &[1, 1, 1, 1]);
    let mut flip = false;
    l.randomize_with(|| {
        flip = !flip;
        flip
    });
    assert_eq!(l.spins(), &[1, -1, 1, -1]);
    assert_eq!(l.spin_total(), 0);
}

#[test]
fn flat_propose_flip() {
    let l = lattice_from(3, 4, &PATTERN_3X4);
    assert_eq!(l.propose_flip(0, 0), FlipProposal::Test(4));
    assert_eq!(l.propose_flip(1, 1), FlipProposal::Accept);
    assert!(l.can_attempt(2, 3));
    assert!(!l.can_attempt(2, 4 + 4 * 3));
}

#[test]
fn flat_reversing_every_spin_keeps_energy() {
    let mut l = lattice_from(3, 4, &PATTERN_3X4);
    let energy = l.doubled_energy();
    let total = l.spin_total();
    for row in 0..3 {
        for col in 0..4 {
            l.flip(row, col);
        }
    }
    assert_eq!(l.doubled_energy(), energy);
    assert_eq!(l.spin_total(), -total);
}

#[test]
fn flat_metropolis_sweep_accepting_everything() {
    let mut l = lattice_from(2, 3, &[1; 6]);
    let mut draws = 0usize;
    let r = l.metropolis_sweep(
        |nrows, ncols| {
            let k = draws;
            draws += 1;
            (k / ncols % nrows, k % ncols)
        },
        |_| true,
    );
    assert_eq!(r, Ok(()));
    assert_eq!(draws, 6);
    // each site flipped once, in row-major order
    assert_eq!(l.spins(), &[-1; 6]);
}

#[test]
fn flat_metropolis_sweep_reports_a_site_outside() {
    let mut l = lattice_from(2, 3, &[1; 6]);
    assert_eq!(l.metropolis_sweep(|_, _| (0, 9), |_| true), Err((0, 9)));
}
