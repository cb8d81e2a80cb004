//! The listeners of one event type: who gets an event that is published.
use tokio::sync::mpsc::{Receiver, Sender};
use crate::work::{lemma_select_origin, select};
use vstd::prelude::*;

verus! {

#[verifier::external_type_specification]
#[verifier::external_body]
#[verifier::reject_recursive_types(T)]
pub struct ExSender<T>(Sender<T>);

#[verifier::external_type_specification]
#[verifier::external_body]
#[verifier::reject_recursive_types(T)]
pub struct ExReceiver<T>(Receiver<T>);

/// How many events a listener's channel holds before `send` waits.
pub const LISTENER_CAPACITY: usize = 128;

/// Whether the listener with filter `filter` may be handed `event`: every
/// listener without a filter may; one with a filter may when the filter,
/// called on the event, returned `true`.
pub open spec fn admits<E, P: Fn(&E) -> bool>(filter: Option<P>, event: &E, answer: bool) -> bool {
    match filter {
        None => answer,
        Some(f) => call_ensures(f, (event,), answer),
    }
}

/// Whether `filter`, if there is one, may be called on `event`.
pub open spec fn can_filter<E, P: Fn(&E) -> bool>(filter: Option<P>, event: &E) -> bool {
    match filter {
        None => true,
        Some(f) => call_requires(f, (event,)),
    }
}

/// The listeners of one event type: for each, the sending end of its channel
/// and its filter.
#[verifier::reject_recursive_types(E)]
pub struct Bus<E, P> {
    listeners: Vec<(Sender<E>, Option<P>)>,
}

impl<E, P> View for Bus<E, P> {
    type V = Seq<(Sender<E>, Option<P>)>;

    closed spec fn view(&self) -> Seq<(Sender<E>, Option<P>)> {
        self.listeners@
    }
}

impl<E, P: Fn(&E) -> bool> Bus<E, P> {
    /// No listener.
    pub fn new() -> (r: Self)
        ensures
            r@ == Seq::<(Sender<E>, Option<P>)>::empty(),
    {
        Bus { listeners: Vec::new() }
    }

    /// The number of listeners.
    pub fn len(&self) -> (r: usize)
        ensures
            r == self@.len(),
    {
        self.listeners.len()
    }

    /// The sending end of the channel of the listener at position `i`.
    pub fn sender(&self, i: usize) -> (r: &Sender<E>)
        requires
            i < self@.len(),
        ensures
            *r == self@[i as int].0,
    {
        &self.listeners[i].0
    }

    /// Adds a listener with `filter`, and gives back the receiving end of its
    /// new channel, which holds [`LISTENER_CAPACITY`] events.
    pub fn subscribe(&mut self, filter: Option<P>) -> (r: Receiver<E>)
        ensures
            final(self)@.len() == old(self)@.len() + 1,
            final(self)@.drop_last() == old(self)@,
            final(self)@.last().1 == filter,
    {
        let (tx, rx) = channel(LISTENER_CAPACITY);
        self.listeners.push((tx, filter));
        assert(self@.drop_last() =~= old(self)@);
        rx
    }

    /// Drops the listeners whose flag in `closed` is set, and keeps the others
    /// in order.
    pub fn drop_closed(&mut self, closed: &Vec<bool>)
        requires
            closed@.len() == old(self)@.len(),
        ensures
            final(self)@ == select(old(self)@, closed@.map_values(|c: bool| !c)),
    {
        let ghost before = self.listeners@;
        let ghost open = closed@.map_values(|c: bool| !c);
        let mut kept: Vec<(Sender<E>, Option<P>)> = Vec::new();
        let mut listeners = Vec::new();
        std::mem::swap(&mut listeners, &mut self.listeners);
        let mut k: usize = 0;
        let len = listeners.len();
        for l in it: listeners.into_iter()
            invariant
                before == it.seq(),
                k == it.index(),
                k <= before.len(),
                before.len() == len,
                closed@.len() == before.len(),
                open == closed@.map_values(|c: bool| !c),
                kept@ == select(before.take(it.index() as int), open.take(it.index() as int)),
        {
            proof {
                assert(before.take(k + 1).drop_last() =~= before.take(k as int));
                assert(open.take(k + 1).drop_last() =~= open.take(k as int));
            }
            assert(k < before.len());
            if !closed[k] {
                kept.push(l);
            }
            k += 1;
        }
        proof {
            assert(before.take(before.len() as int) =~= before);
            assert(open.take(open.len() as int) =~= open);
        }
        self.listeners = kept;
    }

    /// The positions of the listeners that `event` is to be sent to, in
    /// order: those without a filter, and those whose filter accepts it.
    pub fn recipients(&self, event: &E) -> (r: Vec<usize>)
        requires
            forall|i: int| 0 <= i < self@.len() ==> can_filter(#[trigger] self@[i].1, event),
        ensures
            forall|k: int| 0 <= k < r@.len() ==> #[trigger] r@[k] < self@.len(),
            forall|k: int, l: int| 0 <= k < l < r@.len() ==> r@[k] < r@[l],
            forall|j: int|
                0 <= j < self@.len() ==> (#[trigger] r@.contains(j as usize) ==> admits(
                    self@[j].1,
                    event,
                    true,
                )) && (!r@.contains(j as usize) ==> admits(self@[j].1, event, false)),
    {
        let mut targets: Vec<usize> = Vec::new();
        let mut i: usize = 0;
        assert(self.listeners@ == self@);
        while i < self.listeners.len()
            invariant
                i <= self.listeners@.len(),
                forall|j: int|
                    0 <= j < self.listeners@.len() ==> can_filter(#[trigger] self.listeners@[j].1, event),
                forall|k: int| 0 <= k < targets@.len() ==> #[trigger] targets@[k] < i,
                forall|k: int, l: int| 0 <= k < l < targets@.len() ==> targets@[k] < targets@[l],
                forall|j: int|
                    0 <= j < i ==> (#[trigger] targets@.contains(j as usize) ==> admits(
                        self.listeners@[j].1,
                        event,
                        true,
                    )) && (!targets@.contains(j as usize) ==> admits(
                        self.listeners@[j].1,
                        event,
                        false,
                    )),
            decreases self.listeners@.len() - i,
        {
            let accepted = match &self.listeners[i].1 {
                None => true,
                Some(f) => f(event),
            };
            let ghost prev = targets@;
            if accepted {
                targets.push(i);
            }
            proof {
                assert(!prev.contains(i)) by {
                    if prev.contains(i) {
                        let k = choose|k: int| 0 <= k < prev.len() && prev[k] == i;
                        assert(prev[k] < i);
                    }
                }
                assert forall|j: int| 0 <= j < i + 1 implies (#[trigger] targets@.contains(j as usize) ==> admits(
                        self.listeners@[j].1,
                        event,
                        true,
                    )) && (!targets@.contains(j as usize) ==> admits(
                        self.listeners@[j].1,
                        event,
                        false,
                    )) by {
                    if j < i {
                        assert(targets@.contains(j as usize) == prev.contains(j as usize)) by {
                            if targets@.contains(j as usize) && !prev.contains(j as usize) {
                                let k = choose|k: int| 0 <= k < targets@.len() && targets@[k] == j as usize;
                                assert(k < prev.len());
                            }
                            if prev.contains(j as usize) {
                                let k = choose|k: int| 0 <= k < prev.len() && prev[k] == j as usize;
                                assert(targets@[k] == j as usize);
                            }
                        }
                    } else {
                        if accepted {
                            assert(targets@[prev.len() as int] == i);
                        }
                    }
                }
            }
            i += 1;
        }
        targets
    }

    /// Asks each listener's channel whether it is closed, drops the closed
    /// ones with [`Bus::drop_closed`], and gives the [`Bus::recipients`] of
    /// `event` among the listeners that remain.
    pub fn prepare_publish(&mut self, event: &E) -> (r: Vec<usize>)
        requires
            forall|i: int|
                0 <= i < old(self)@.len() ==> can_filter(#[trigger] old(self)@[i].1, event),
        ensures
            exists|closed: Seq<bool>|
                closed.len() == old(self)@.len() && (forall|i: int|
                    0 <= i < closed.len() ==> reported_closed(&old(self)@[i].0, #[trigger] closed[i]))
                    && final(self)@ == select(
                    old(self)@,
                    closed.map_values(|c: bool| !c),
                ),
            forall|k: int| 0 <= k < r@.len() ==> #[trigger] r@[k] < final(self)@.len(),
            forall|k: int, l: int| 0 <= k < l < r@.len() ==> r@[k] < r@[l],
            forall|j: int|
                0 <= j < final(self)@.len() ==> (#[trigger] r@.contains(j as usize) ==> admits(
                    final(self)@[j].1,
                    event,
                    true,
                )) && (!r@.contains(j as usize) ==> admits(final(self)@[j].1, event, false)),
    {
        let mut closed: Vec<bool> = Vec::new();
        let mut i: usize = 0;
        while i < self.listeners.len()
            invariant
                i <= self.listeners@.len(),
                closed@.len() == i,
                forall|j: int| 0 <= j < i ==> reported_closed(&self.listeners@[j].0, #[trigger] closed@[j]),
            decreases self.listeners@.len() - i,
        {
            closed.push(closed_flag(&self.listeners[i].0));
            i += 1;
        }
        let ghost before = self@;
        self.drop_closed(&closed);
        proof {
            let open = closed@.map_values(|c: bool| !c);
            assert forall|j: int| 0 <= j < self@.len() implies can_filter(#[trigger] self@[j].1, event) by {
                assert(select(before, open).contains(self@[j]));
                lemma_select_origin(before, open, self@[j]);
                let a = choose|a: int| 0 <= a < before.len() && open[a] && before[a] == self@[j];
                assert(can_filter(before[a].1, event));
            }
        }
        self.recipients(event)
    }
}

/// `closed` is what [`is_closed`] answered for `sender`.
pub closed spec fn reported_closed<E>(sender: &Sender<E>, closed: bool) -> bool {
    call_ensures(is_closed::<E>, (sender,), closed)
}

/// Asks [`is_closed`] whether the channel of `sender` is closed.
fn closed_flag<E>(sender: &Sender<E>) -> (closed: bool)
    ensures
        reported_closed(sender, closed),
{
    let ask = is_closed::<E>;
    ask(sender)
}

/// Calls `tokio::sync::mpsc::channel(buffer)`: a new bounded channel. It
/// panics when `buffer` is 0 or above `usize::MAX >> 3`, which `requires`
/// leaves out. Nothing is stated of the two ends, not even that they belong
/// to one channel: a name for that would need a type parameter.
#[verifier::external_body]
fn channel<T>(buffer: usize) -> (Sender<T>, Receiver<T>)
    requires
        0 < buffer <= usize::MAX / 8,
{
    tokio::sync::mpsc::channel(buffer)
}

/// Calls `tokio::sync::mpsc::Sender::is_closed`, which tells whether the
/// receiving end was dropped or closed. Nothing is stated of the result: it
/// depends on what happened to the receiving end.
#[verifier::external_body]
fn is_closed<T>(sender: &Sender<T>) -> bool {
    sender.is_closed()
}

} // verus!
