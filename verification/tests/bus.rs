use rata_tea::{Bus, LISTENER_CAPACITY};

fn even(n: &u32) -> bool {
    n % 2 == 0
}

fn big(n: &u32) -> bool {
    *n > 100
}

#[test]
fn subscribe_adds_a_listener_with_a_channel_of_the_capacity() {
    let mut bus: Bus<u32, fn(&u32) -> bool> = Bus::new();
    assert_eq!(bus.len(), 0);
    let rx = bus.subscribe(None);
    assert_eq!(bus.len(), 1);
    assert_eq!(rx.max_capacity(), LISTENER_CAPACITY);
    assert_eq!(LISTENER_CAPACITY, 128);
    assert!(!bus.sender(0).is_closed());
}

#[test]
fn publish_goes_to_listeners_whose_filter_accepts() {
    let mut bus: Bus<u32, fn(&u32) -> bool> = Bus::new();
    let _all = bus.subscribe(None);
    let _even = bus.subscribe(Some(even as fn(&u32) -> bool));
    let _big = bus.subscribe(Some(big as fn(&u32) -> bool));
    assert_eq!(bus.prepare_publish(&4), vec![0, 1]);
    assert_eq!(bus.prepare_publish(&7), vec![0]);
    assert_eq!(bus.prepare_publish(&200), vec![0, 1, 2]);
    assert_eq!(bus.len(), 3);
}

#[test]
fn publish_drops_listeners_whose_receiver_is_gone() {
    let mut bus: Bus<u32, fn(&u32) -> bool> = Bus::new();
    let first = bus.subscribe(None);
    let second = bus.subscribe(Some(even as fn(&u32) -> bool));
    let _third = bus.subscribe(None);
    drop(first);
    assert_eq!(bus.prepare_publish(&2), vec![0, 1]);
    assert_eq!(bus.len(), 2);
    drop(second);
    assert_eq!(bus.prepare_publish(&2), vec![0]);
    assert_eq!(bus.len(), 1);
}

#[test]
fn publish_with_no_listener_sends_nowhere() {
    let mut bus: Bus<u32, fn(&u32) -> bool> = Bus::new();
    assert!(bus.prepare_publish(&1).is_empty());
}

#[test]
fn the_sender_reaches_the_receiver() {
    let mut bus: Bus<u32, fn(&u32) -> bool> = Bus::new();
    let mut rx = bus.subscribe(None);
    let targets = bus.prepare_publish(&5);
    for i in targets {
        bus.sender(i).try_send(5).unwrap();
    }
    assert_eq!(rx.try_recv().unwrap(), 5);
}

#[test]
fn drop_closed_keeps_the_open_listeners_in_order() {
    let mut bus: Bus<u32, fn(&u32) -> bool> = Bus::new();
    let _a = bus.subscribe(None);
    let _b = bus.subscribe(Some(even as fn(&u32) -> bool));
    let _c = bus.subscribe(Some(big as fn(&u32) -> bool));
    bus.drop_closed(&vec![false, true, false]);
    assert_eq!(bus.len(), 2);
    assert_eq!(bus.recipients(&3), vec![0]);
    assert_eq!(bus.recipients(&300), vec![0, 1]);
}
