//! Properties that relate several operations of the library.
use crate::active::{entry_ids, first_at, keeps, last_at, started, starts};
use crate::event_loop::{step_spec, Action, Effect, LoopEvent, Warning};
use crate::sub_id::{parts, with_spec, SubId, SubIdView};
use crate::bus::reported_closed;
use crate::work::{
    lemma_select_keeps, lemma_select_none, lemma_select_origin, select, tagged_map, Cmd,
};
use tokio::sync::mpsc::Sender;
use vstd::prelude::*;

verus! {

/// Combining identifiers is associative: `(a with b) with c` and
/// `a with (b with c)` are the same identifier.
pub proof fn lemma_with_associative(a: SubIdView, b: SubIdView, c: SubIdView)
    ensures
        with_spec(with_spec(a, b), c) == with_spec(a, with_spec(b, c)),
{
    assert(parts(a) + parts(b) + parts(c) =~= parts(a) + (parts(b) + parts(c)));
}

/// Extending an identifier with a type, as `Sub::map` and `Sub::filter_map`
/// do, always gives a different identifier.
pub proof fn lemma_tag_changes_id(id: SubIdView, tag: std::any::TypeId)
    ensures
        with_spec(id, SubIdView::TypeId(tag)) != id,
{
    if with_spec(id, SubIdView::TypeId(tag)) == id {
        assert(parts(id).len() + 1 == parts(id).len());
    }
}

/// Two tags give the same extended identifier exactly when they are the same
/// tag.
pub proof fn lemma_tags_distinguish(id: SubIdView, a: std::any::TypeId, b: std::any::TypeId)
    ensures
        (with_spec(id, SubIdView::TypeId(a)) == with_spec(id, SubIdView::TypeId(b))) == (a == b),
{
    if with_spec(id, SubIdView::TypeId(a)) == with_spec(id, SubIdView::TypeId(b)) {
        let n = parts(id).len() as int;
        assert((parts(id) + seq![SubIdView::TypeId(a)])[n] == SubIdView::TypeId(a));
        assert((parts(id) + seq![SubIdView::TypeId(b)])[n] == SubIdView::TypeId(b));
    }
}

/// The same subscriptions mapped with two different tags, as `Sub::map` and
/// `Sub::filter_map` do with two different mapper types, give a different
/// identifier at every position, so the two results never count as the same
/// subscriptions.
pub proof fn lemma_different_tags_different_ids<F, F2, W1: Fn(F) -> F2, W2: Fn(F) -> F2>(
    subs: Seq<(SubId, F)>,
    first: Seq<(SubId, F2)>,
    second: Seq<(SubId, F2)>,
    a: std::any::TypeId,
    b: std::any::TypeId,
    wrap_a: W1,
    wrap_b: W2,
)
    requires
        tagged_map(subs, first, a, wrap_a),
        tagged_map(subs, second, b, wrap_b),
        a != b,
    ensures
        forall|i: int| 0 <= i < subs.len() ==> (#[trigger] first[i]).0@ != second[i].0@,
{
    assert forall|i: int| 0 <= i < subs.len() implies (#[trigger] first[i]).0@ != second[i].0@ by {
        lemma_tags_distinguish(subs[i].0@, a, b);
    }
}

/// Extending an identifier with a type and a hash, as `SubId::with_hash`
/// does, gives the same identifier exactly when both the types and the
/// hashes are the same: every bit of the hash counts.
pub proof fn lemma_type_and_hash_distinguish(
    id: SubIdView,
    t1: std::any::TypeId,
    h1: u64,
    t2: std::any::TypeId,
    h2: u64,
)
    ensures
        (with_spec(with_spec(id, SubIdView::TypeId(t1)), SubIdView::Hash(h1)) == with_spec(
            with_spec(id, SubIdView::TypeId(t2)),
            SubIdView::Hash(h2),
        )) == (t1 == t2 && h1 == h2),
{
    let x1 = with_spec(with_spec(id, SubIdView::TypeId(t1)), SubIdView::Hash(h1));
    let x2 = with_spec(with_spec(id, SubIdView::TypeId(t2)), SubIdView::Hash(h2));
    if x1 == x2 {
        let n = parts(id).len() as int;
        assert(parts(x1)[n] == SubIdView::TypeId(t1));
        assert(parts(x2)[n] == SubIdView::TypeId(t2));
        assert(parts(x1)[n + 1] == SubIdView::Hash(h1));
        assert(parts(x2)[n + 1] == SubIdView::Hash(h2));
    }
}

/// The identifiers that `Sub::make` gives are equal exactly when the maker
/// types, the input types and the hashes of the inputs are.
pub proof fn lemma_make_ids_distinguish(
    m1: std::any::TypeId,
    i1: std::any::TypeId,
    h1: u64,
    m2: std::any::TypeId,
    i2: std::any::TypeId,
    h2: u64,
)
    ensures
        (SubIdView::Batch(seq![SubIdView::TypeId(m1), SubIdView::TypeId(i1), SubIdView::Hash(h1)])
            == SubIdView::Batch(
            seq![SubIdView::TypeId(m2), SubIdView::TypeId(i2), SubIdView::Hash(h2)],
        )) == (m1 == m2 && i1 == i2 && h1 == h2),
{
    let s1 = seq![SubIdView::TypeId(m1), SubIdView::TypeId(i1), SubIdView::Hash(h1)];
    let s2 = seq![SubIdView::TypeId(m2), SubIdView::TypeId(i2), SubIdView::Hash(h2)];
    if SubIdView::Batch(s1) == SubIdView::Batch(s2) {
        assert(s1[0] == s2[0] && s1[1] == s2[1] && s1[2] == s2[2]);
    }
    if m1 == m2 && i1 == i2 && h1 == h2 {
        assert(s1 =~= s2);
    }
}

/// After publishing, the listeners that remain are exactly those whose
/// channel was reported open, in their order: none reported closed remains,
/// and none reported open is dropped.
pub proof fn lemma_publish_keeps_exactly_open<E, P>(
    old: Seq<(Sender<E>, Option<P>)>,
    closed: Seq<bool>,
    new: Seq<(Sender<E>, Option<P>)>,
)
    requires
        closed.len() == old.len(),
        forall|i: int| 0 <= i < closed.len() ==> reported_closed(&old[i].0, #[trigger] closed[i]),
        new == select(old, closed.map_values(|c: bool| !c)),
    ensures
        forall|x: (Sender<E>, Option<P>)|
            #[trigger] new.contains(x) ==> exists|i: int|
                0 <= i < old.len() && old[i] == x && reported_closed(&old[i].0, false),
        forall|i: int|
            0 <= i < old.len() && reported_closed(&old[i].0, false) && !closed[i] ==> #[trigger] new.contains(
                old[i],
            ),
{
    let open = closed.map_values(|c: bool| !c);
    assert forall|x: (Sender<E>, Option<P>)| #[trigger] new.contains(x) implies exists|i: int|
        0 <= i < old.len() && old[i] == x && reported_closed(&old[i].0, false) by {
        lemma_select_origin(old, open, x);
        let i = choose|i: int| 0 <= i < old.len() && open[i] && old[i] == x;
        assert(reported_closed(&old[i].0, closed[i]));
    }
    assert forall|i: int|
        0 <= i < old.len() && reported_closed(&old[i].0, false) && !closed[i] implies #[trigger] new.contains(
            old[i],
        ) by {
        lemma_select_keeps(old, open, i);
    }
}

/// A batch of no commands has no command; a batch of one holds exactly its
/// commands.
pub proof fn lemma_batch_of_none_and_one<C>(c: Cmd<C>)
    ensures
        Seq::<Cmd<C>>::empty().map_values(|x: Cmd<C>| x.commands()).flatten() == Seq::<C>::empty(),
        seq![c].map_values(|x: Cmd<C>| x.commands()).flatten() == c.commands(),
{
    let one = seq![c].map_values(|x: Cmd<C>| x.commands());
    assert(one =~= seq![c.commands()]);
    one.lemma_flatten_one_element();
}

/// Batching is associative: batching the batch of `a` and `b` with `c` gives
/// the commands of batching `a` with the batch of `b` and `c`.
pub proof fn lemma_batch_associative<C>(a: Cmd<C>, b: Cmd<C>, c: Cmd<C>)
    ensures
        ({
            let f = |x: Cmd<C>| x.commands();
            let ab = seq![a, b].map_values(f).flatten();
            let bc = seq![b, c].map_values(f).flatten();
            seq![ab, c.commands()].flatten() == seq![a.commands(), bc].flatten()
        }),
{
    let f = |x: Cmd<C>| x.commands();
    assert(seq![a, b].map_values(f) =~= seq![a.commands(), b.commands()]);
    assert(seq![b, c].map_values(f) =~= seq![b.commands(), c.commands()]);
    lemma_flatten_two(a.commands(), b.commands());
    lemma_flatten_two(b.commands(), c.commands());
    lemma_flatten_two(a.commands() + b.commands(), c.commands());
    lemma_flatten_two(a.commands(), b.commands() + c.commands());
    assert(a.commands() + b.commands() + c.commands() =~= a.commands() + (b.commands()
        + c.commands()));
}

proof fn lemma_flatten_two<C>(x: Seq<C>, y: Seq<C>)
    ensures
        seq![x, y].flatten() == x + y,
{
    let s = seq![x, y];
    assert(s.drop_first() =~= seq![y]);
    seq![y].lemma_flatten_one_element();
}

proof fn lemma_select_map<A, B>(s: Seq<A>, keep: Seq<bool>, f: spec_fn(A) -> B)
    requires
        keep.len() == s.len(),
    ensures
        select(s.map_values(f), keep) == select(s, keep).map_values(f),
    decreases s.len(),
{
    if s.len() > 0 {
        lemma_select_map(s.drop_last(), keep.drop_last(), f);
        assert(s.map_values(f).drop_last() =~= s.drop_last().map_values(f));
        if keep.last() {
            assert(select(s, keep).map_values(f) =~= select(s.drop_last(), keep.drop_last()).map_values(
                f,
            ).push(f(s.last())));
        }
    }
}

/// When every requested identifier is running and none is requested twice,
/// rebuilding starts nothing.
pub proof fn lemma_rebuild_keeps_running<F, H>(old: Map<SubIdView, H>, entries: Seq<(SubId, F)>)
    requires
        entry_ids(entries).no_duplicates(),
        forall|i: int| 0 <= i < entries.len() ==> old.contains_key(#[trigger] entry_ids(entries)[i]),
    ensures
        select(entries, starts(old, entry_ids(entries))) == Seq::<(SubId, F)>::empty(),
{
    let ids = entry_ids(entries);
    assert forall|i: int| 0 <= i < ids.len() implies #[trigger] keeps(old, ids, i) by {
        assert(old.contains_key(ids[i]));
    }
    lemma_select_none(entries, starts(old, ids));
}

/// Rebuilding, then starting what the rebuild gives back, leaves one handle
/// for each requested identifier, and the running handle of each identifier
/// that was running and is requested once.
pub proof fn lemma_rebuild_then_start<F, H, S: Fn(F) -> H>(
    old: Map<SubIdView, H>,
    entries: Seq<(SubId, F)>,
    to_start: Seq<(SubId, F)>,
    kept: Map<SubIdView, H>,
    new: Map<SubIdView, H>,
    spawn: S,
)
    requires
        kept == old.restrict(entry_ids(entries).to_set()),
        to_start == select(entries, starts(old, entry_ids(entries))),
        started(kept, entry_ids(to_start), to_start.map_values(|e: (SubId, F)| e.1), new, spawn),
    ensures
        new.dom() == entry_ids(entries).to_set(),
        forall|i: int|
            0 <= i < entries.len() && #[trigger] keeps(old, entry_ids(entries), i) && last_at(
                entry_ids(entries),
                i,
            ) ==> new[entry_ids(entries)[i]] == old[entry_ids(entries)[i]],
{
    let ids = entry_ids(entries);
    let flags = starts(old, ids);
    lemma_select_map(entries, flags, |e: (SubId, F)| e.0@);
    let sids = select(ids, flags);
    assert(entry_ids(to_start) == sids);
    assert forall|x: SubIdView| new.dom().contains(x) <==> ids.to_set().contains(x) by {
        if sids.contains(x) {
            lemma_select_origin(ids, flags, x);
        }
        if ids.to_set().contains(x) {
            let i = choose|i: int| 0 <= i < ids.len() && ids[i] == x;
            if !keeps(old, ids, i) {
                lemma_select_keeps(ids, flags, i);
            }
        }
    }
    assert(new.dom() =~= ids.to_set());
    assert forall|b: int|
        0 <= b < entries.len() && #[trigger] keeps(old, ids, b) && last_at(ids, b) implies new[ids[b]]
        == old[ids[b]] by {
        let k = ids[b];
        if sids.contains(k) {
            lemma_select_origin(ids, flags, k);
            let a = choose|a: int| 0 <= a < ids.len() && flags[a] && ids[a] == k;
            if a < b {
                assert(!first_at(ids, b));
            } else if a > b {
                assert(!last_at(ids, b));
            }
        }
        assert(ids.to_set().contains(k));
        assert(kept.contains_key(k));
    }
}

/// Rebuilding a second time, from identifiers that are distinct and the
/// same as the first time's, starts nothing and keeps every handle that the
/// first rebuild and its starts left.
pub proof fn lemma_rebuild_twice_starts_nothing<F, H, S: Fn(F) -> H>(
    old: Map<SubIdView, H>,
    first: Seq<(SubId, F)>,
    to_start: Seq<(SubId, F)>,
    kept: Map<SubIdView, H>,
    once: Map<SubIdView, H>,
    spawn: S,
    second: Seq<(SubId, F)>,
)
    requires
        kept == old.restrict(entry_ids(first).to_set()),
        to_start == select(first, starts(old, entry_ids(first))),
        started(kept, entry_ids(to_start), to_start.map_values(|e: (SubId, F)| e.1), once, spawn),
        entry_ids(second).no_duplicates(),
        entry_ids(second).to_set() == entry_ids(first).to_set(),
    ensures
        select(second, starts(once, entry_ids(second))) == Seq::<(SubId, F)>::empty(),
        once.restrict(entry_ids(second).to_set()) == once,
{
    lemma_rebuild_then_start(old, first, to_start, kept, once, spawn);
    let ids2 = entry_ids(second);
    assert forall|i: int| 0 <= i < second.len() implies once.contains_key(#[trigger] entry_ids(second)[i]) by {
        assert(ids2.to_set().contains(ids2[i]));
    }
    lemma_rebuild_keeps_running(once, second);
    assert(once.restrict(ids2.to_set()) =~= once);
}

/// Whether the model changed since it was last drawn, after the events
/// `events` reach a loop whose flag was `dirty`.
pub open spec fn dirty_after<Msg, E>(dirty: bool, events: Seq<LoopEvent<Msg, E>>) -> bool
    decreases events.len(),
{
    if events.len() == 0 {
        dirty
    } else {
        step_spec(dirty_after(dirty, events.drop_last()), events.last()).0
    }
}

/// After a message is handed to `update`, the next tick draws, whatever
/// other events came between, as long as none of them was a tick.
pub proof fn lemma_update_drawn_on_next_tick<Msg, E>(
    dirty: bool,
    msg: Msg,
    between: Seq<LoopEvent<Msg, E>>,
)
    requires
        forall|i: int| 0 <= i < between.len() ==> !(#[trigger] between[i] is Tick),
    ensures
        ({
            let before_tick = dirty_after(
                dirty,
                seq![LoopEvent::Action(Action::Msg(msg))] + between,
            );
            step_spec(before_tick, LoopEvent::<Msg, E>::Tick).2 == seq![
                Effect::<Msg, E>::Draw,
                Effect::<Msg, E>::PublishTick,
            ]
        }),
{
    lemma_dirty_stays(dirty, msg, between);
}

proof fn lemma_dirty_stays<Msg, E>(dirty: bool, msg: Msg, between: Seq<LoopEvent<Msg, E>>)
    requires
        forall|i: int| 0 <= i < between.len() ==> !(#[trigger] between[i] is Tick),
    ensures
        dirty_after(dirty, seq![LoopEvent::Action(Action::Msg(msg))] + between),
    decreases between.len(),
{
    let events = seq![LoopEvent::Action(Action::Msg(msg))] + between;
    if between.len() == 0 {
        assert(events.drop_last() =~= Seq::<LoopEvent<Msg, E>>::empty());
    } else {
        let shorter = between.drop_last();
        assert forall|i: int| 0 <= i < shorter.len() implies !(#[trigger] shorter[i] is Tick) by {
            assert(shorter[i] == between[i]);
        }
        lemma_dirty_stays(dirty, msg, shorter);
        assert(events.drop_last() =~= seq![LoopEvent::Action(Action::Msg(msg))] + shorter);
        assert(!(between[between.len() - 1] is Tick));
    }
}

/// A tick draws at most once: the tick that follows a tick, with nothing in
/// between, draws nothing.
pub proof fn lemma_second_tick_draws_nothing<Msg, E>(dirty: bool)
    ensures
        step_spec(step_spec(dirty, LoopEvent::<Msg, E>::Tick).0, LoopEvent::<Msg, E>::Tick).2
            == seq![Effect::<Msg, E>::PublishTick],
{
}

/// A quit always stops the loop, whatever the model's state: the only effect
/// is `Stop`, and the loop no longer runs.
pub proof fn lemma_quit_stops<Msg, E>(dirty: bool)
    ensures
        step_spec(dirty, LoopEvent::<Msg, E>::Action(Action::Quit)) == (
            dirty,
            false,
            seq![Effect::<Msg, E>::Stop],
        ),
{
}

/// Nothing but a quit stops the loop.
pub proof fn lemma_only_quit_stops<Msg, E>(dirty: bool, event: LoopEvent<Msg, E>)
    requires
        !(event matches LoopEvent::Action(Action::Quit)),
    ensures
        step_spec(dirty, event).1,
{
}

/// Every terminal event is published, and only published, whatever the
/// model's state; it leaves the model's state as it was.
pub proof fn lemma_terminal_published<Msg, E>(dirty: bool, e: E)
    ensures
        step_spec(dirty, LoopEvent::<Msg, E>::Terminal(e)) == (
            dirty,
            true,
            seq![Effect::<Msg, E>::Publish(e)],
        ),
{
}

/// Whether the model was drawn decides nothing but the drawing: for every
/// event but a tick, the effects are the same whatever the flag.
pub proof fn lemma_effects_ignore_dirty<Msg, E>(a: bool, b: bool, event: LoopEvent<Msg, E>)
    requires
        !(event is Tick),
    ensures
        step_spec(a, event).2 == step_spec(b, event).2,
        step_spec(a, event).1 == step_spec(b, event).1,
{
}

/// A message is handed to `update`, then the subscriptions are rebuilt and
/// the command started, in that order, whatever the model's state; the model
/// is then to be drawn.
pub proof fn lemma_message_updates<Msg, E>(dirty: bool, msg: Msg)
    ensures
        step_spec(dirty, LoopEvent::<Msg, E>::Action(Action::Msg(msg))) == (
            true,
            true,
            seq![
                Effect::<Msg, E>::Update(msg),
                Effect::<Msg, E>::RebuildSubscriptions,
                Effect::<Msg, E>::SpawnCommands,
            ],
        ),
{
}

/// Every tick publishes a `Tick`, draws first exactly when the model changed
/// since it was last drawn, and leaves the model drawn.
pub proof fn lemma_tick_publishes<Msg, E>(dirty: bool)
    ensures
        step_spec(dirty, LoopEvent::<Msg, E>::Tick).0 == false,
        step_spec(dirty, LoopEvent::<Msg, E>::Tick).1,
        step_spec(dirty, LoopEvent::<Msg, E>::Tick).2 == if dirty {
            seq![Effect::<Msg, E>::Draw, Effect::<Msg, E>::PublishTick]
        } else {
            seq![Effect::<Msg, E>::PublishTick]
        },
{
}

/// A closed message channel and a failed terminal read are only logged, each
/// with its own warning, and change nothing else.
pub proof fn lemma_failures_warn<Msg, E>(dirty: bool)
    ensures
        step_spec(dirty, LoopEvent::<Msg, E>::ChannelClosed) == (
            dirty,
            true,
            seq![Effect::<Msg, E>::Warn(Warning::MsgChannelClosed)],
        ),
        step_spec(dirty, LoopEvent::<Msg, E>::TerminalError) == (
            dirty,
            true,
            seq![Effect::<Msg, E>::Warn(Warning::TerminalRead)],
        ),
{
}

} // verus!
