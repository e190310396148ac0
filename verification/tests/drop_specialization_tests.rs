use bencher::drop_specialization::DropSpecializationEnvironment;
use bumpalo::Bump;

#[test]
fn fresh_environment_is_empty() {
    let arena = Bump::new();
    let env = DropSpecializationEnvironment::new(&arena);
    assert_eq!(env.indexed_child_of(1), None);
    assert!(env.incremented_children_of(1).is_empty());
}

#[test]
fn indexing_records_the_parent() {
    let arena = Bump::new();
    let mut env = DropSpecializationEnvironment::new(&arena);
    env.add_index(10, 11, 0);
    env.add_index(10, 12, 1);
    assert_eq!(env.indexed_child_of(11), Some((10, 0)));
    assert_eq!(env.indexed_child_of(12), Some((10, 1)));
    assert_eq!(env.indexed_child_of(10), None);
}

#[test]
fn increments_of_indexed_children_are_collected_per_parent() {
    let arena = Bump::new();
    let mut env = DropSpecializationEnvironment::new(&arena);
    env.add_index(10, 11, 0);
    env.add_index(10, 12, 1);
    env.add_index(20, 21, 3);
    env.add_incremented(12);
    env.add_incremented(21);
    env.add_incremented(11);
    assert_eq!(env.incremented_children_of(10), vec![(12, 1), (11, 0)]);
    assert_eq!(env.incremented_children_of(20), vec![(21, 3)]);
}

#[test]
fn increments_of_unindexed_symbols_are_ignored() {
    let arena = Bump::new();
    let mut env = DropSpecializationEnvironment::new(&arena);
    env.add_index(10, 11, 0);
    env.add_incremented(10);
    env.add_incremented(99);
    assert!(env.incremented_children_of(10).is_empty());
    assert!(env.incremented_children_of(99).is_empty());
}

#[test]
fn index_then_increment_appends_last() {
    let arena = Bump::new();
    let mut env = DropSpecializationEnvironment::new(&arena);
    env.add_index(1, 2, 7);
    env.add_incremented(2);
    env.add_index(1, 3, 8);
    env.add_incremented(3);
    let children = env.incremented_children_of(1);
    assert_eq!(children.last(), Some(&(3, 8)));
    // Every listed child was indexed out of that parent at the listed index.
    for (child, index) in children {
        assert_eq!(env.indexed_child_of(child), Some((1, index)));
    }
}

#[test]
fn a_child_incremented_twice_is_listed_twice() {
    let arena = Bump::new();
    let mut env = DropSpecializationEnvironment::new(&arena);
    env.add_index(1, 2, 0);
    env.add_incremented(2);
    env.add_incremented(2);
    assert_eq!(env.incremented_children_of(1), vec![(2, 0), (2, 0)]);
}
