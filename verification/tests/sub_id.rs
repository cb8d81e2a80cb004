use rata_tea::SubId;
use std::any::TypeId;

fn batch(ids: Vec<SubId>) -> SubId {
    SubId::Batch(ids)
}

#[test]
fn with_two_leaves_makes_a_batch_of_both() {
    let id = SubId::from("keys").with(SubId::from(7u64));
    assert_eq!(id, batch(vec![SubId::Str("keys"), SubId::Hash(7)]));
}

#[test]
fn with_appends_a_leaf_to_a_batch() {
    let id = batch(vec![SubId::Hash(1)]).with(SubId::from(String::from("x")));
    assert_eq!(id, batch(vec![SubId::Hash(1), SubId::String(String::from("x"))]));
}

#[test]
fn with_prepends_a_leaf_to_a_batch() {
    let id = SubId::Hash(1).with(batch(vec![SubId::Hash(2), SubId::Hash(3)]));
    assert_eq!(id, batch(vec![SubId::Hash(1), SubId::Hash(2), SubId::Hash(3)]));
}

#[test]
fn with_joins_two_batches() {
    let id = batch(vec![SubId::Hash(1)]).with(batch(vec![SubId::Hash(2), SubId::Str("a")]));
    assert_eq!(id, batch(vec![SubId::Hash(1), SubId::Hash(2), SubId::Str("a")]));
}

#[test]
fn with_keeps_nested_batches_one_level_deep() {
    let inner = batch(vec![SubId::Hash(9)]);
    let id = SubId::Hash(1).with(batch(vec![inner]));
    assert_eq!(id, batch(vec![SubId::Hash(1), batch(vec![SubId::Hash(9)])]));
}

#[test]
fn with_is_associative_on_examples() {
    let a = || SubId::Str("a");
    let b = || batch(vec![SubId::Hash(2), SubId::Hash(3)]);
    let c = || SubId::String(String::from("c"));
    assert_eq!(a().with(b()).with(c()), a().with(b().with(c())));
}

#[test]
fn from_impls_pick_the_variant() {
    assert_eq!(SubId::from("s"), SubId::Str("s"));
    assert_eq!(SubId::from(String::from("s")), SubId::String(String::from("s")));
    assert_eq!(SubId::from(5u64), SubId::Hash(5));
    assert_eq!(SubId::from(TypeId::of::<u8>()), SubId::TypeId(TypeId::of::<u8>()));
}

#[test]
fn str_and_string_identifiers_differ() {
    assert_ne!(SubId::from("s"), SubId::from(String::from("s")));
    assert_ne!(SubId::Hash(1), SubId::Hash(2));
    assert_ne!(SubId::from(TypeId::of::<u8>()), SubId::from(TypeId::of::<u16>()));
    assert_ne!(batch(vec![SubId::Hash(1)]), batch(vec![SubId::Hash(1), SubId::Hash(1)]));
    assert_ne!(batch(vec![SubId::Hash(1)]), SubId::Hash(1));
}

#[test]
fn with_hash_adds_the_type_and_a_hash() {
    let id = SubId::from("every").with_hash(&42u32);
    match id {
        SubId::Batch(parts) => {
            assert_eq!(parts.len(), 3);
            assert_eq!(parts[0], SubId::Str("every"));
            assert_eq!(parts[1], SubId::TypeId(TypeId::of::<u32>()));
            assert!(matches!(parts[2], SubId::Hash(_)));
        }
        _ => panic!("expected a batch"),
    }
}

#[test]
fn with_hash_is_the_same_for_equal_values() {
    let a = SubId::from("k").with_hash(&String::from("input"));
    let b = SubId::from("k").with_hash(&String::from("input"));
    let c = SubId::from("k").with_hash(&String::from("other"));
    assert_eq!(a, b);
    assert_ne!(a, c);
}
