use artificial_systems::ising::IsingLattice;
use artificial_systems::mcmc::{propose, FlipProposal};
use artificial_systems::spin::SpinHalf;

fn lattice_from(nrows: usize, ncols: usize, pattern: &[i8]) -> IsingLattice {
    let mut it = pattern.iter();
    IsingLattice::new_with(nrows, ncols, || {
        if *it.next().unwrap() > 0 {
            SpinHalf::Up
        } else {
            SpinHalf::Down
        }
    })
}

const PATTERN_4X5: [i8; 20] = [
    1, -1, 1, 1, -1, //
    -1, -1, 1, -1, 1, //
    1, 1, 1, -1, -1, //
    -1, 1, -1, 1, 1,
];

#[test]
fn ising_new_with_uses_draws_in_order() {
    let l = lattice_from(2, 2, &[1, -1, -1, 1]);
    assert_eq!(l.nrows(), 2);
    assert_eq!(l.ncols(), 2);
    assert_eq!(l.spins(), &[SpinHalf::Up, SpinHalf::Down, SpinHalf::Down, SpinHalf::Up]);
}

#[test]
fn ising_all_up_energetics() {
    let l = lattice_from(3, 3, &[1; 9]);
    assert_eq!(l.nn_sum(1, 1), 4);
    assert_eq!(l.flip_energy(1, 1), 8);
    assert_eq!(l.spin_total(), 9);
    // 18 aligned bonds: energy -18, counted twice
    assert_eq!(l.doubled_energy(), -36);
}

#[test]
fn ising_nn_sum_wraps() {
    let l = lattice_from(4, 5, &PATTERN_4X5);
    // (0,0): up (3,0)=-1, down (1,0)=-1, left (0,4)=-1, right (0,1)=-1
    assert_eq!(l.nn_sum(0, 0), -4);
    assert_eq!(l.flip_energy(0, 0), -8);
    // (2,2): up 1, down -1, left 1, right -1
    assert_eq!(l.nn_sum(2, 2), 0);
    assert_eq!(l.flip_energy(2, 2), 0);
}

#[test]
fn ising_flip_changes_only_one_site() {
    let mut l = lattice_from(3, 3, &[1; 9]);
    l.flip(1, 1);
    let spins = l.spins();
    for (i, s) in spins.iter().enumerate() {
        if i == 4 {
            assert_eq!(*s, SpinHalf::Down);
        } else {
            assert_eq!(*s, SpinHalf::Up);
        }
    }
    assert_eq!(l.flip_energy(1, 1), -8);
    assert_eq!(l.doubled_energy(), -20);
    assert_eq!(l.spin_total(), 7);
}

#[test]
fn ising_flip_twice_restores() {
    let mut l = lattice_from(4, 5, &PATTERN_4X5);
    let before = l.spins().to_vec();
    l.flip(3, 4);
    l.flip(3, 4);
    assert_eq!(l.spins(), before.as_slice());
}

#[test]
fn ising_flip_energy_is_the_energy_change() {
    for row in 0..4 {
        for col in 0..5 {
            let mut l = lattice_from(4, 5, &PATTERN_4X5);
            let before = l.doubled_energy();
            let cost = l.flip_energy(row, col);
            l.flip(row, col);
            assert_eq!(l.doubled_energy() - before, 2 * cost as i128);
            assert_eq!(l.flip_energy(row, col), -cost);
        }
    }
}

#[test]
fn ising_flip_energy_is_not_the_energy_change_on_one_site() {
    // A 1x1 torus is its own neighbour four times over.
    let mut l = lattice_from(1, 1, &[1]);
    assert_eq!(l.flip_energy(0, 0), 8);
    let before = l.doubled_energy();
    l.flip(0, 0);
    assert_eq!(l.doubled_energy() - before, 0);
}

#[test]
fn ising_observable_bounds() {
    let l = lattice_from(4, 5, &PATTERN_4X5);
    let m = l.spin_total();
    assert_eq!(m, 2);
    assert!(m.abs() <= 20);
    let e = l.doubled_energy();
    assert!(e.abs() <= 80);
}

#[test]
fn ising_randomize_with_keeps_dimensions() {
    let mut l = lattice_from(2, 3, &[1; 6]);
    l.randomize_with(|| SpinHalf::Down);
    assert_eq!(l.nrows(), 2);
    assert_eq!(l.ncols(), 3);
    assert_eq!(l.spin_total(), -6);
}

#[test]
fn ising_can_attempt() {
    let l = lattice_from(3, 3, &[1; 9]);
    assert!(l.can_attempt(2, 2));
    assert!(!l.can_attempt(3, 0));
    assert!(!l.can_attempt(0, usize::MAX));
}

#[test]
fn metropolis_proposals() {
    assert_eq!(propose(-8), FlipProposal::Accept);
    assert_eq!(propose(0), FlipProposal::Accept);
    assert_eq!(propose(4), FlipProposal::Test(4));
    let l = lattice_from(3, 3, &[1; 9]);
    assert_eq!(l.propose_flip(0, 0), FlipProposal::Test(8));
    let mut l = l;
    l.flip(0, 0);
    assert_eq!(l.propose_flip(0, 0), FlipProposal::Accept);
}

#[test]
fn ising_doubled_energy_counts_each_bond_twice() {
    let l = lattice_from(4, 5, &PATTERN_4X5);
    let v: Vec<i128> = l.spins().iter().map(|s| s.value() as i128).collect();
    let mut once = 0i128;
    for row in 0..4 {
        for col in 0..5 {
            let here = v[row * 5 + col];
            let below = v[((row + 1) % 4) * 5 + col];
            let right = v[row * 5 + (col + 1) % 5];
            once -= here * (below + right);
        }
    }
    assert_eq!(l.doubled_energy(), 2 * once);
}

#[test]
fn ising_reversing_every_spin_keeps_energy() {
    let mut l = lattice_from(4, 5, &PATTERN_4X5);
    let energy = l.doubled_energy();
    let total = l.spin_total();
    for row in 0..4 {
        for col in 0..5 {
            l.flip(row, col);
        }
    }
    assert_eq!(l.doubled_energy(), energy);
    assert_eq!(l.spin_total(), -total);
}

#[test]
fn ising_metropolis_sweep_makes_one_attempt_per_site() {
    let mut l = lattice_from(3, 3, &[1; 9]);
    let mut draws = 0usize;
    let mut tests = Vec::new();
    let r = l.metropolis_sweep(
        |nrows, ncols| {
            let k = draws;
            draws += 1;
            (k / ncols % nrows, k % ncols)
        },
        |delta_e| {
            tests.push(delta_e);
            false
        },
    );
    assert_eq!(r, Ok(()));
    assert_eq!(draws, 9);
    // every flip would cost 8 on the all-up lattice, and every test refused it
    assert_eq!(tests, vec![8; 9]);
    assert_eq!(l.spin_total(), 9);
}

#[test]
fn ising_metropolis_sweep_downhill_flips_skip_the_test() {
    // one down spin among ups: flipping it back costs -8
    let mut pattern = [1i8; 9];
    pattern[4] = -1;
    let mut l = lattice_from(3, 3, &pattern);
    let mut tests = 0usize;
    let r = l.metropolis_sweep(
        |_, _| (1, 1),
        |_| {
            tests += 1;
            false
        },
    );
    assert_eq!(r, Ok(()));
    // the first attempt flips down-hill without a test, the eight after it
    // each cost 8 and are refused
    assert_eq!(tests, 8);
    assert_eq!(l.spin_total(), 9);
}

#[test]
fn ising_metropolis_sweep_reports_a_site_outside() {
    let mut l = lattice_from(2, 2, &[1; 4]);
    let r = l.metropolis_sweep(|_, _| (5, 0), |_| true);
    assert_eq!(r, Err((5, 0)));
}
