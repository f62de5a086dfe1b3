use artificial_systems::binary::Binary;
use artificial_systems::contact_process::{ContactDraw, ContactLattice, ContactOutcome};

fn lattice_from(nrows: usize, ncols: usize, pattern: &[u8]) -> ContactLattice {
    let mut it = pattern.iter();
    ContactLattice::new_with(nrows, ncols, || {
        if *it.next().unwrap() == 1 {
            Binary::Active
        } else {
            Binary::Inactive
        }
    })
}

#[test]
fn contact_new_with_and_queries() {
    let l = lattice_from(2, 3, &[1, 0, 0, 0, 1, 1]);
    assert_eq!(l.nrows(), 2);
    assert_eq!(l.ncols(), 3);
    assert!(l.is_active(0, 0));
    assert!(!l.is_active(0, 1));
    assert!(l.is_active(1, 2));
    assert_eq!(l.active_count(), 3);
    assert_eq!(l.active()[4], Binary::Active);
}

#[test]
fn contact_set_active() {
    let mut l = lattice_from(2, 2, &[0, 0, 0, 0]);
    l.set_active(1, 0, true);
    assert_eq!(l.active(), &[Binary::Inactive, Binary::Inactive, Binary::Active, Binary::Inactive]);
    l.set_active(1, 0, false);
    assert_eq!(l.active_count(), 0);
}

#[test]
fn contact_neighbor_states_order() {
    // 0 1 0
    // 0 0 1
    // 1 0 0
    let l = lattice_from(3, 3, &[0, 1, 0, 0, 0, 1, 1, 0, 0]);
    assert_eq!(
        l.neighbor_states(1, 1),
        [Binary::Active, Binary::Inactive, Binary::Inactive, Binary::Active]
    );
}

#[test]
fn contact_seed_center() {
    let mut l = lattice_from(5, 4, &[1; 20]);
    l.seed_center();
    assert_eq!(l.active_count(), 1);
    assert!(l.is_active(2, 2));
    let mut l = lattice_from(1, 1, &[0]);
    l.seed_center();
    assert!(l.is_active(0, 0));
}

#[test]
fn contact_plan_attempt() {
    let l = lattice_from(2, 2, &[1, 0, 0, 0]);
    assert_eq!(l.plan_attempt(0, 0), ContactDraw::Heal);
    assert_eq!(l.plan_attempt(0, 1), ContactDraw::Neighbor);
}

#[test]
fn contact_heal() {
    let mut l = lattice_from(2, 2, &[1, 0, 0, 0]);
    l.apply_attempt(0, 0, ContactOutcome::Heal(false));
    assert!(l.is_active(0, 0));
    l.apply_attempt(0, 0, ContactOutcome::Heal(true));
    assert!(!l.is_active(0, 0));
}

#[test]
fn contact_adopt_copies_chosen_neighbor() {
    // 0 1 0
    // 0 0 1
    // 1 0 0
    let pattern = [0, 1, 0, 0, 0, 1, 1, 0, 0];
    let expected = [true, false, false, true]; // up, down, left, right of (1,1)
    for choice in 0..8usize {
        let mut l = lattice_from(3, 3, &pattern);
        l.apply_attempt(1, 1, ContactOutcome::Adopt(choice));
        assert_eq!(l.is_active(1, 1), expected[choice % 4]);
    }
}

#[test]
fn contact_mismatched_outcome_changes_nothing() {
    let mut l = lattice_from(2, 2, &[1, 0, 1, 1]);
    l.apply_attempt(0, 0, ContactOutcome::Adopt(1));
    assert!(l.is_active(0, 0));
    l.apply_attempt(0, 1, ContactOutcome::Heal(true));
    assert!(!l.is_active(0, 1));
}

#[test]
fn contact_all_inactive_is_absorbing() {
    let mut l = lattice_from(3, 3, &[0; 9]);
    for row in 0..3 {
        for col in 0..3 {
            for choice in 0..4 {
                l.apply_attempt(row, col, ContactOutcome::Adopt(choice));
                l.apply_attempt(row, col, ContactOutcome::Heal(true));
            }
        }
    }
    assert_eq!(l.active_count(), 0);
}

#[test]
fn contact_randomize_with_and_can_attempt() {
    let mut l = lattice_from(2, 2, &[0; 4]);
    l.randomize_with(|| Binary::Active);
    assert_eq!(l.active_count(), 4);
    assert_eq!(l.nrows(), 2);
    assert!(l.can_attempt(1, 1));
    assert!(!l.can_attempt(2, 0));
}

#[test]
fn contact_without_healing_no_active_site_is_lost() {
    let pattern = [0, 1, 0, 0, 0, 1, 1, 0, 0];
    let mut l = lattice_from(3, 3, &pattern);
    let mut choice = 0usize;
    for row in 0..3 {
        for col in 0..3 {
            let before: Vec<bool> = l.active().iter().map(|b| b.is_active()).collect();
            l.apply_attempt(row, col, ContactOutcome::Adopt(choice));
            l.apply_attempt(row, col, ContactOutcome::Heal(false));
            choice += 1;
            for (i, was) in before.iter().enumerate() {
                if *was {
                    assert!(l.active()[i].is_active());
                }
            }
        }
    }
    assert!(l.active_count() >= 3);
}

#[test]
fn contact_sweep_makes_one_attempt_per_site() {
    let mut l = lattice_from(3, 3, &[1, 0, 0, 0, 0, 0, 0, 0, 0]);
    let mut draws = 0usize;
    let mut heals = 0usize;
    let mut choices = 0usize;
    let r = l.sweep(
        |nrows, ncols| {
            let k = draws;
            draws += 1;
            (k / ncols % nrows, k % ncols)
        },
        || {
            heals += 1;
            false
        },
        || {
            choices += 1;
            3
        },
    );
    assert_eq!(r, Ok(()));
    assert_eq!(draws, 9);
    // (0,0) is Active: one healing draw; the others copy their right
    // neighbour, and only (0,2), whose right neighbour wraps to (0,0), turns
    // Active
    assert_eq!(heals, 1);
    assert_eq!(choices, 8);
    assert_eq!(l.active_count(), 2);
    assert!(l.is_active(0, 2));
}

#[test]
fn contact_sweep_all_inactive_stays_inactive() {
    let mut l = lattice_from(3, 4, &[0; 12]);
    let mut k = 0usize;
    let r = l.sweep(
        |nrows, ncols| {
            k += 5;
            (k % nrows, k % ncols)
        },
        || true,
        || 1,
    );
    assert_eq!(r, Ok(()));
    assert_eq!(l.active_count(), 0);
}

#[test]
fn contact_sweep_without_healing_keeps_active_sites() {
    let mut l = lattice_from(3, 3, &[0, 1, 0, 0, 0, 1, 1, 0, 0]);
    let mut k = 0usize;
    let r = l.sweep(
        |nrows, ncols| {
            k += 1;
            (k % nrows, (k / nrows) % ncols)
        },
        || false,
        || 0,
    );
    assert_eq!(r, Ok(()));
    assert!(l.is_active(0, 1));
    assert!(l.is_active(1, 2));
    assert!(l.is_active(2, 0));
}

#[test]
fn contact_sweep_reports_a_site_outside() {
    let mut l = lattice_from(2, 2, &[0; 4]);
    assert_eq!(l.sweep(|_, _| (0, 7), || true, || 0), Err((0, 7)));
}
