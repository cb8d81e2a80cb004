//! Commands and subscriptions: the two kinds of work an application asks for.
use crate::sub_id::{is_hash_of, is_type_id_of, type_id_for, with_spec, SubId, SubIdView};
use std::any::TypeId;
use std::hash::Hash;
use vstd::prelude::*;

verus! {

/// A value that can be moved to another task.
pub trait OwnedSend: Send + 'static {

}

impl<T: Send + 'static> OwnedSend for T {

}

/// Hands a message back to the running application.
pub trait Dispatch<Msg>: Fn(Msg) + Send + 'static {

}

impl<F, Msg> Dispatch<Msg> for F where F: Fn(Msg) + Send + 'static {

}

/// The elements of `s` whose flag in `keep` is set, in order.
pub open spec fn select<T>(s: Seq<T>, keep: Seq<bool>) -> Seq<T>
    decreases s.len(),
{
    if s.len() == 0 {
        Seq::empty()
    } else {
        let rest = select(s.drop_last(), keep.drop_last());
        if keep.last() {
            rest.push(s.last())
        } else {
            rest
        }
    }
}

/// Every element that `select` keeps comes from a position whose flag is set.
pub proof fn lemma_select_origin<T>(s: Seq<T>, keep: Seq<bool>, x: T)
    requires
        keep.len() == s.len(),
        select(s, keep).contains(x),
    ensures
        exists|i: int| 0 <= i < s.len() && keep[i] && s[i] == x,
    decreases s.len(),
{
    let rest = select(s.drop_last(), keep.drop_last());
    if keep.last() && rest.push(s.last()).last() == x && !rest.contains(x) {
        assert(keep[s.len() - 1] && s[s.len() - 1] == x);
    } else {
        if keep.last() {
            let j = choose|j: int| 0 <= j < select(s, keep).len() && select(s, keep)[j] == x;
            if j < rest.len() {
                assert(rest[j] == x);
            } else {
                assert(s.last() == x);
                assert(keep[s.len() - 1] && s[s.len() - 1] == x);
                return;
            }
        }
        lemma_select_origin(s.drop_last(), keep.drop_last(), x);
        let i = choose|i: int| 0 <= i < s.drop_last().len() && keep.drop_last()[i] && s.drop_last()[i] == x;
        assert(keep[i] && s[i] == x);
    }
}

/// Every element at a position whose flag is set is kept by `select`.
pub proof fn lemma_select_keeps<T>(s: Seq<T>, keep: Seq<bool>, i: int)
    requires
        keep.len() == s.len(),
        0 <= i < s.len(),
        keep[i],
    ensures
        select(s, keep).contains(s[i]),
    decreases s.len(),
{
    let rest = select(s.drop_last(), keep.drop_last());
    if i == s.len() - 1 {
        assert(select(s, keep) == rest.push(s.last()));
        assert(select(s, keep)[rest.len() as int] == s[i]);
    } else {
        lemma_select_keeps(s.drop_last(), keep.drop_last(), i);
        let j = choose|j: int| 0 <= j < rest.len() && rest[j] == s.drop_last()[i];
        if keep.last() {
            assert(select(s, keep)[j] == rest[j]);
        }
    }
}

/// `select` with no flag set keeps nothing.
pub proof fn lemma_select_none<T>(s: Seq<T>, keep: Seq<bool>)
    requires
        keep.len() == s.len(),
        forall|i: int| 0 <= i < keep.len() ==> !keep[i],
    ensures
        select(s, keep) == Seq::<T>::empty(),
    decreases s.len(),
{
    if s.len() > 0 {
        lemma_select_none(s.drop_last(), keep.drop_last());
    }
}

/// One-shot work: each element is a command that the runtime starts once.
pub struct Cmd<C>(pub Vec<C>);

impl<C> Cmd<C> {
    /// The commands, in the order in which they are started.
    pub open spec fn commands(&self) -> Seq<C> {
        self.0@
    }

    /// No work at all.
    pub fn none() -> (r: Self)
        ensures
            r.commands() == Seq::<C>::empty(),
    {
        Cmd(Vec::new())
    }

    /// All the commands of `cmds`, batch after batch, each in its own order.
    pub fn batch(cmds: Vec<Self>) -> (r: Self)
        ensures
            r.commands() == cmds@.map_values(|c: Cmd<C>| c.commands()).flatten(),
    {
        let ghost all = cmds@.map_values(|c: Cmd<C>| c.commands());
        let mut out: Vec<C> = Vec::new();
        for c in it: cmds.into_iter()
            invariant
                all == it.seq().map_values(|c: Cmd<C>| c.commands()),
                out@ == all.take(it.index() as int).flatten(),
        {
            let ghost k = it.index();
            let Cmd(mut inner) = c;
            proof {
                assert(all.take(k + 1) =~= all.take(k as int).push(inner@));
                all.take(k as int).lemma_flatten_push(inner@);
            }
            out.append(&mut inner);
        }
        proof {
            assert(all.take(all.len() as int) =~= all);
        }
        Cmd(out)
    }

    /// Each command wrapped by `wrap`, in the same order.
    pub fn map<C2, W: Fn(C) -> C2>(self, wrap: W) -> (r: Cmd<C2>)
        requires
            forall|c: C| call_requires(wrap, (c,)),
        ensures
            r.commands().len() == self.commands().len(),
            forall|i: int|
                0 <= i < self.commands().len() ==> call_ensures(
                    wrap,
                    (self.commands()[i],),
                    #[trigger] r.commands()[i],
                ),
    {
        let ghost before = self.0@;
        let mut out: Vec<C2> = Vec::new();
        for c in it: self.0.into_iter()
            invariant
                before == it.seq(),
                forall|c: C| call_requires(wrap, (c,)),
                out@.len() == it.index(),
                forall|i: int|
                    0 <= i < it.index() ==> call_ensures(wrap, (before[i],), #[trigger] out@[i]),
        {
            out.push(wrap(c));
        }
        Cmd(out)
    }

    /// The number of commands.
    pub fn size_hint(&self) -> (r: usize)
        ensures
            r == self.commands().len(),
    {
        self.0.len()
    }
}

/// `after` is `before` with each identifier extended with `tag` and each
/// factory passed through `wrap`, in the same order.
pub open spec fn tagged_map<F, F2, W: Fn(F) -> F2>(
    before: Seq<(SubId, F)>,
    after: Seq<(SubId, F2)>,
    tag: TypeId,
    wrap: W,
) -> bool {
    &&& after.len() == before.len()
    &&& forall|i: int|
        0 <= i < before.len() ==> (#[trigger] after[i]).0@ == with_spec(
            before[i].0@,
            SubIdView::TypeId(tag),
        ) && call_ensures(wrap, (before[i].1,), after[i].1)
}

/// Long-running work: each element pairs the identifier of a subscription
/// with the factory that starts it.
pub struct Sub<F>(pub Vec<(SubId, F)>);

impl<F> Sub<F> {
    /// The identifiers, in order.
    pub open spec fn ids(&self) -> Seq<SubIdView> {
        self.0@.map_values(|e: (SubId, F)| e.0@)
    }

    /// The factories, in order.
    pub open spec fn factories(&self) -> Seq<F> {
        self.0@.map_values(|e: (SubId, F)| e.1)
    }

    /// No subscription at all.
    pub fn none() -> (r: Self)
        ensures
            r.0@ == Seq::<(SubId, F)>::empty(),
    {
        Sub(Vec::new())
    }

    /// All the subscriptions of `subs`, batch after batch, each in its own order.
    pub fn batch(subs: Vec<Self>) -> (r: Self)
        ensures
            r.0@ == subs@.map_values(|s: Sub<F>| s.0@).flatten(),
    {
        let ghost all = subs@.map_values(|s: Sub<F>| s.0@);
        let mut out: Vec<(SubId, F)> = Vec::new();
        for s in it: subs.into_iter()
            invariant
                all == it.seq().map_values(|s: Sub<F>| s.0@),
                out@ == all.take(it.index() as int).flatten(),
        {
            let ghost k = it.index();
            let Sub(mut inner) = s;
            proof {
                assert(all.take(k + 1) =~= all.take(k as int).push(inner@));
                all.take(k as int).lemma_flatten_push(inner@);
            }
            out.append(&mut inner);
        }
        proof {
            assert(all.take(all.len() as int) =~= all);
        }
        Sub(out)
    }

    /// Each factory wrapped by `wrap`, and each identifier extended with
    /// `tag`, in the same order.
    pub fn map_tagged<F2, W: Fn(F) -> F2>(self, tag: TypeId, wrap: W) -> (r: Sub<F2>)
        requires
            forall|f: F| call_requires(wrap, (f,)),
        ensures
            tagged_map(self.0@, r.0@, tag, wrap),
    {
        let ghost before = self.0@;
        let mut out: Vec<(SubId, F2)> = Vec::new();
        for e in it: self.0.into_iter()
            invariant
                before == it.seq(),
                forall|f: F| call_requires(wrap, (f,)),
                out@.len() == it.index(),
                forall|i: int|
                    0 <= i < it.index() ==> (#[trigger] out@[i]).0@ == with_spec(
                        before[i].0@,
                        SubIdView::TypeId(tag),
                    ) && call_ensures(wrap, (before[i].1,), out@[i].1),
        {
            let (id, factory) = e;
            let id2 = id.with(SubId::from(tag));
            let factory2 = wrap(factory);
            out.push((id2, factory2));
        }
        Sub(out)
    }

    /// Each factory wrapped by `wrap`, which passes on what its mapper of
    /// type `M` makes of each message; each identifier is extended with the
    /// type of the mapper, so that differently mapped subscriptions differ.
    pub fn map<M: 'static, F2, W: Fn(F) -> F2>(self, wrap: W) -> (r: Sub<F2>)
        requires
            forall|f: F| call_requires(wrap, (f,)),
        ensures
            exists|tag: TypeId| is_type_id_of::<M>(tag) && #[trigger] tagged_map(self.0@, r.0@, tag, wrap),
    {
        let tag = type_id_for::<M>();
        self.map_tagged(tag, wrap)
    }

    /// Each factory wrapped by `wrap`, which passes on only the messages that
    /// its mapper of type `M` keeps; each identifier is extended with the type
    /// of the mapper.
    pub fn filter_map<M: 'static, F2, W: Fn(F) -> F2>(self, wrap: W) -> (r: Sub<F2>)
        requires
            forall|f: F| call_requires(wrap, (f,)),
        ensures
            exists|tag: TypeId| is_type_id_of::<M>(tag) && #[trigger] tagged_map(self.0@, r.0@, tag, wrap),
    {
        let tag = type_id_for::<M>();
        self.map_tagged(tag, wrap)
    }

    /// The number of subscriptions.
    pub fn size_hint(&self) -> (r: usize)
        ensures
            r == self.0@.len(),
    {
        self.0.len()
    }

    /// One subscription, whose factory `build` makes from `input`. It is
    /// identified by the type `M` of its maker, then the type of `input` and
    /// a hash of `input`.
    pub fn make<I: Hash + 'static, M: 'static, B: FnOnce(I) -> F>(input: I, build: B) -> (r: Self)
        requires
            call_requires(build, (input,)),
        ensures
            r.0@.len() == 1,
            call_ensures(build, (input,), r.0@[0].1),
            exists|maker: TypeId, input_type: TypeId, hash: u64|
                is_type_id_of::<M>(maker) && is_type_id_of::<I>(input_type) && is_hash_of(&input, hash)
                    && r.0@[0].0@ == SubIdView::Batch(
                    seq![
                        SubIdView::TypeId(maker),
                        SubIdView::TypeId(input_type),
                        SubIdView::Hash(hash),
                    ],
                ),
    {
        let maker = type_id_for::<M>();
        let first = SubId::from(maker);
        let id = first.with_hash(&input);
        proof {
            let (t, h) = choose|t: TypeId, h: u64|
                is_type_id_of::<I>(t) && is_hash_of(&input, h) && id@ == with_spec(
                    with_spec(SubIdView::TypeId(maker), SubIdView::TypeId(t)),
                    SubIdView::Hash(h),
                );
            assert(seq![SubIdView::TypeId(maker)] + seq![SubIdView::TypeId(t)] + seq![
                SubIdView::Hash(h),
            ] =~= seq![SubIdView::TypeId(maker), SubIdView::TypeId(t), SubIdView::Hash(h)]);
        }
        let factory = build(input);
        let mut v = Vec::new();
        v.push((id, factory));
        Sub(v)
    }
}

} // verus!
