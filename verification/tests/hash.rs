use echolysis::hash::merge_structure_hash;
use echolysis::Id;

#[test]
fn merge_of_zeros_is_the_seeded_value() {
    assert_eq!(merge_structure_hash(0, 0), 2787506922242016676);
}

#[test]
fn merge_depends_on_the_order_of_its_arguments() {
    assert_eq!(merge_structure_hash(1, 2), 2787506922245016683);
    assert_eq!(merge_structure_hash(2, 1), 2787506922244016683);
    assert_ne!(merge_structure_hash(1, 2), merge_structure_hash(2, 1));
}

#[test]
fn merge_wraps_at_the_largest_inputs() {
    assert_eq!(merge_structure_hash(0, u64::MAX), 2787506922242016679);
    assert_eq!(merge_structure_hash(u64::MAX, 0), 2787506922243016679);
}

#[test]
fn merge_folds_left_to_right() {
    let first = merge_structure_hash(0, 5);
    assert_eq!(merge_structure_hash(first, 7), 16546287930457504838);
}

#[test]
fn merge_never_gives_the_sentinel() {
    // Without the pin these inputs mix to u64::MAX.
    assert_eq!(merge_structure_hash(0, 15659237151467534935), u64::MAX - 1);
    for lhs in 0..200u64 {
        for rhs in 0..200u64 {
            assert_ne!(merge_structure_hash(lhs, rhs), u64::MAX);
        }
    }
}

#[test]
fn id_wraps_a_number() {
    let id = Id::new(42);
    assert_eq!(id.id(), 42);
    assert_eq!(Id::from(7usize).id(), 7);
    assert!(Id::new(3) == Id::from(3usize));
    assert!(Id::new(3) != Id::new(4));
    assert_eq!(*Id::new(9), 9);
    assert_eq!(Id::new(9).pow(2), 81);
}
