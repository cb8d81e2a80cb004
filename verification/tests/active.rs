use rata_tea::{rebuild_sub, ActiveSubs, Sub, SubId};

fn rebuild<S: Fn(&'static str) -> String>(
    sub: Sub<&'static str>,
    spawn: &S,
    active: &mut ActiveSubs<String>,
) {
    let to_start = rebuild_sub(sub, active);
    active.start_all(to_start, spawn);
}
use std::cell::Cell;

fn sub(entries: Vec<(u64, &'static str)>) -> Sub<&'static str> {
    Sub(entries.into_iter().map(|(id, f)| (SubId::Hash(id), f)).collect())
}

#[test]
fn active_insert_and_remove() {
    let mut active: ActiveSubs<u32> = ActiveSubs::new();
    assert_eq!(active.len(), 0);
    assert_eq!(active.insert(SubId::Hash(1), 10), None);
    assert_eq!(active.insert(SubId::Str("a"), 20), None);
    assert_eq!(active.insert(SubId::Hash(1), 11), Some(10));
    assert_eq!(active.len(), 2);
    assert_eq!(active.remove(&SubId::Hash(1)), Some(11));
    assert_eq!(active.remove(&SubId::Hash(1)), None);
    assert_eq!(active.len(), 1);
}

#[test]
fn rebuild_starts_new_subscriptions() {
    let started = Cell::new(0);
    let spawn = |f: &'static str| {
        started.set(started.get() + 1);
        format!("task {f}")
    };
    let mut active = ActiveSubs::new();
    rebuild(sub(vec![(1, "a"), (2, "b")]), &spawn, &mut active);
    assert_eq!(started.get(), 2);
    assert_eq!(active.len(), 2);
    assert_eq!(active.remove(&SubId::Hash(1)), Some(String::from("task a")));
    assert_eq!(active.remove(&SubId::Hash(2)), Some(String::from("task b")));
}

#[test]
fn rebuild_keeps_running_subscriptions_and_drops_the_rest() {
    let started = Cell::new(0);
    let spawn = |f: &'static str| {
        started.set(started.get() + 1);
        format!("task {f}")
    };
    let mut active = ActiveSubs::new();
    active.insert(SubId::Hash(1), String::from("old 1"));
    active.insert(SubId::Hash(2), String::from("old 2"));
    rebuild(sub(vec![(2, "b"), (3, "c")]), &spawn, &mut active);
    assert_eq!(started.get(), 1);
    assert_eq!(active.len(), 2);
    assert_eq!(active.remove(&SubId::Hash(1)), None);
    assert_eq!(active.remove(&SubId::Hash(2)), Some(String::from("old 2")));
    assert_eq!(active.remove(&SubId::Hash(3)), Some(String::from("task c")));
}

#[test]
fn rebuild_twice_with_the_same_subscriptions_starts_nothing_more() {
    let started = Cell::new(0);
    let spawn = |f: &'static str| {
        started.set(started.get() + 1);
        format!("task {f}")
    };
    let mut active = ActiveSubs::new();
    rebuild(sub(vec![(1, "a"), (2, "b")]), &spawn, &mut active);
    rebuild(sub(vec![(1, "x"), (2, "y")]), &spawn, &mut active);
    assert_eq!(started.get(), 2);
    assert_eq!(active.remove(&SubId::Hash(1)), Some(String::from("task a")));
    assert_eq!(active.remove(&SubId::Hash(2)), Some(String::from("task b")));
}

#[test]
fn rebuild_with_a_repeated_identifier_keeps_the_last_start() {
    let started = Cell::new(0);
    let spawn = |f: &'static str| {
        started.set(started.get() + 1);
        format!("task {f}")
    };
    let mut active = ActiveSubs::new();
    active.insert(SubId::Hash(1), String::from("old 1"));
    rebuild(sub(vec![(1, "a"), (1, "b")]), &spawn, &mut active);
    assert_eq!(started.get(), 1);
    assert_eq!(active.len(), 1);
    assert_eq!(active.remove(&SubId::Hash(1)), Some(String::from("task b")));
}

#[test]
fn rebuild_with_nothing_requested_drops_everything() {
    let spawn = |f: &'static str| String::from(f);
    let mut active = ActiveSubs::new();
    active.insert(SubId::Hash(1), String::from("old 1"));
    rebuild(Sub::none(), &spawn, &mut active);
    assert_eq!(active.len(), 0);
}

#[test]
fn rebuild_gives_back_only_what_is_not_running() {
    let mut active = ActiveSubs::new();
    active.insert(SubId::Hash(1), 10u32);
    active.insert(SubId::Hash(5), 50u32);
    let to_start = rebuild_sub(sub(vec![(1, "a"), (2, "b"), (3, "c")]), &mut active);
    assert_eq!(to_start.len(), 2);
    assert_eq!(to_start[0].0, SubId::Hash(2));
    assert_eq!(to_start[1].0, SubId::Hash(3));
    assert_eq!(to_start[0].1, "b");
    assert_eq!(to_start[1].1, "c");
    assert_eq!(active.len(), 1);
    assert_eq!(active.remove(&SubId::Hash(1)), Some(10));
}

#[test]
fn rebuild_of_a_repeated_running_identifier_starts_the_later_occurrences() {
    let mut active = ActiveSubs::new();
    active.insert(SubId::Hash(1), 10u32);
    let to_start = rebuild_sub(sub(vec![(1, "a"), (1, "b"), (1, "c")]), &mut active);
    assert_eq!(to_start.len(), 2);
    assert_eq!(to_start[0].1, "b");
    assert_eq!(to_start[1].1, "c");
    assert_eq!(active.len(), 1);
    assert_eq!(active.remove(&SubId::Hash(1)), Some(10));
}

#[test]
fn rebuild_with_the_same_identifiers_again_starts_nothing() {
    let spawn = |f: &'static str| format!("task {f}");
    let mut active = ActiveSubs::new();
    rebuild(sub(vec![(1, "a"), (2, "b")]), &spawn, &mut active);
    let to_start = rebuild_sub(sub(vec![(2, "y"), (1, "x")]), &mut active);
    assert!(to_start.is_empty());
    assert_eq!(active.len(), 2);
}

#[test]
fn start_all_keeps_the_last_start_of_an_identifier() {
    let spawn = |f: &'static str| format!("task {f}");
    let mut active = ActiveSubs::new();
    active.insert(SubId::Hash(9), String::from("old 9"));
    active.start_all(vec![(SubId::Hash(1), "a"), (SubId::Hash(1), "b")], &spawn);
    assert_eq!(active.len(), 2);
    assert_eq!(active.remove(&SubId::Hash(1)), Some(String::from("task b")));
    assert_eq!(active.remove(&SubId::Hash(9)), Some(String::from("old 9")));
}
