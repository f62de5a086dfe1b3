use artificial_systems::binary::Binary;
use artificial_systems::spin::SpinHalf;

#[test]
fn spin_values() {
    assert_eq!(SpinHalf::Up.value(), 1);
    assert_eq!(SpinHalf::Down.value(), -1);
}

#[test]
fn spin_flipped_is_an_involution() {
    for s in [SpinHalf::Up, SpinHalf::Down] {
        assert_ne!(s.flipped(), s);
        assert_eq!(s.flipped().flipped(), s);
        assert_eq!(s.flipped().value(), -s.value());
    }
}

#[test]
fn spin_checkerboard() {
    assert_eq!(SpinHalf::checkerboard(0, 0), SpinHalf::Up);
    assert_eq!(SpinHalf::checkerboard(0, 1), SpinHalf::Down);
    assert_eq!(SpinHalf::checkerboard(3, 5), SpinHalf::Up);
    assert_eq!(SpinHalf::checkerboard(19, 0), SpinHalf::Down);
}

#[test]
fn binary_is_active() {
    assert!(Binary::Active.is_active());
    assert!(!Binary::Inactive.is_active());
}
