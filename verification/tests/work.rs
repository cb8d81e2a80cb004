use rata_tea::{Cmd, Sub, SubId};
use std::any::TypeId;

#[test]
fn cmd_none_is_empty() {
    let cmd: Cmd<u8> = Cmd::none();
    assert_eq!(cmd.size_hint(), 0);
}

#[test]
fn cmd_batch_keeps_order_batch_after_batch() {
    let cmd = Cmd::batch(vec![Cmd(vec![1, 2]), Cmd::none(), Cmd(vec![3])]);
    assert_eq!(cmd.0, vec![1, 2, 3]);
    assert_eq!(cmd.size_hint(), 3);
}

#[test]
fn cmd_batch_of_nothing_is_none() {
    let cmd: Cmd<u8> = Cmd::batch(vec![]);
    assert_eq!(cmd.size_hint(), 0);
}

#[test]
fn cmd_batch_is_associative_on_an_example() {
    let left = Cmd::batch(vec![Cmd::batch(vec![Cmd(vec![1]), Cmd(vec![2, 3])]), Cmd(vec![4])]);
    let right = Cmd::batch(vec![Cmd(vec![1]), Cmd::batch(vec![Cmd(vec![2, 3]), Cmd(vec![4])])]);
    assert_eq!(left.0, right.0);
}

#[test]
fn cmd_map_wraps_each_command_in_order() {
    let cmd = Cmd(vec![1u32, 2, 3]).map(|c| c * 10);
    assert_eq!(cmd.0, vec![10, 20, 30]);
}

struct Double;
struct Triple;

#[test]
fn sub_none_is_empty() {
    let sub: Sub<u8> = Sub::none();
    assert_eq!(sub.size_hint(), 0);
}

#[test]
fn sub_batch_keeps_order() {
    let a = Sub(vec![(SubId::Hash(1), 'a')]);
    let b = Sub(vec![(SubId::Hash(2), 'b'), (SubId::Hash(3), 'c')]);
    let sub = Sub::batch(vec![a, Sub::none(), b]);
    assert_eq!(sub.size_hint(), 3);
    let factories: Vec<char> = sub.0.iter().map(|e| e.1).collect();
    assert_eq!(factories, vec!['a', 'b', 'c']);
    assert_eq!(sub.0[2].0, SubId::Hash(3));
}

#[test]
fn sub_map_tagged_extends_every_identifier() {
    let tag = TypeId::of::<Double>();
    let sub = Sub(vec![(SubId::Hash(1), 2u32), (SubId::Str("k"), 5)]).map_tagged(tag, |f| f * 2);
    assert_eq!(sub.0[0].0, SubId::Batch(vec![SubId::Hash(1), SubId::TypeId(tag)]));
    assert_eq!(sub.0[1].0, SubId::Batch(vec![SubId::Str("k"), SubId::TypeId(tag)]));
    assert_eq!(sub.0[0].1, 4);
    assert_eq!(sub.0[1].1, 10);
}

#[test]
fn sub_map_uses_the_mapper_type() {
    let sub = Sub(vec![(SubId::Hash(1), 1u32)]).map::<Double, _, _>(|f| f * 2);
    assert_eq!(sub.0[0].0, SubId::Batch(vec![SubId::Hash(1), SubId::TypeId(TypeId::of::<Double>())]));
    assert_eq!(sub.0[0].1, 2);
}

#[test]
fn sub_maps_with_different_mappers_differ() {
    let a = Sub(vec![(SubId::Hash(1), 1u32)]).map::<Double, _, _>(|f| f);
    let b = Sub(vec![(SubId::Hash(1), 1u32)]).filter_map::<Triple, _, _>(|f| f);
    assert_ne!(a.0[0].0, b.0[0].0);
    assert_ne!(a.0[0].0, SubId::Hash(1));
}

#[test]
fn sub_make_identifies_by_maker_and_input() {
    let a: Sub<u64> = Sub::make::<_, Double, _>(3u64, |i| i * 10);
    let b: Sub<u64> = Sub::make::<_, Double, _>(3u64, |i| i + 1);
    let c: Sub<u64> = Sub::make::<_, Double, _>(4u64, |i| i);
    let d: Sub<u64> = Sub::make::<_, Triple, _>(3u64, |i| i);
    assert_eq!(a.size_hint(), 1);
    assert_eq!(a.0[0].1, 30);
    assert_eq!(b.0[0].1, 4);
    assert_eq!(a.0[0].0, b.0[0].0);
    assert_ne!(a.0[0].0, c.0[0].0);
    assert_ne!(a.0[0].0, d.0[0].0);
    match &a.0[0].0 {
        SubId::Batch(parts) => {
            assert_eq!(parts.len(), 3);
            assert_eq!(parts[0], SubId::TypeId(TypeId::of::<Double>()));
            assert_eq!(parts[1], SubId::TypeId(TypeId::of::<u64>()));
            assert!(matches!(parts[2], SubId::Hash(_)));
        }
        _ => panic!("expected a batch"),
    }
}

#[test]
fn cmd_batch_of_one_is_that_command_list() {
    let cmd = Cmd::batch(vec![Cmd(vec!['x', 'y'])]);
    assert_eq!(cmd.0, vec!['x', 'y']);
}

#[test]
fn cmd_map_keeps_the_size() {
    let cmd = Cmd(vec![1u8, 2, 3, 4]).map(|c| c as u32);
    assert_eq!(cmd.size_hint(), 4);
}
