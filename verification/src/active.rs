//! The running subscriptions, keyed by identifier, and how they are rebuilt
//! from the subscriptions that the model asks for.
use crate::sub_id::{SubId, SubIdView};
use crate::work::{select, Sub};
use vstd::prelude::*;

verus! {

/// No two entries share an identifier.
pub open spec fn keys_distinct<H>(s: Seq<(SubId, H)>) -> bool {
    forall|i: int, j: int|
        0 <= i < s.len() && 0 <= j < s.len() && i != j ==> s[i].0@ != s[j].0@
}

/// Whether some entry of `s` has the identifier `k`.
pub open spec fn has_key<H>(s: Seq<(SubId, H)>, k: SubIdView) -> bool {
    exists|i: int| 0 <= i < s.len() && #[trigger] s[i].0@ == k
}

/// The position of the entry of `s` with identifier `k`.
pub open spec fn key_index<H>(s: Seq<(SubId, H)>, k: SubIdView) -> int {
    choose|i: int| 0 <= i < s.len() && #[trigger] s[i].0@ == k
}

/// The map from identifiers to handles that the entries stand for.
pub open spec fn entries_map<H>(s: Seq<(SubId, H)>) -> Map<SubIdView, H> {
    Map::new(|k: SubIdView| has_key(s, k), |k: SubIdView| s[key_index(s, k)].1)
}

/// The running subscriptions: a handle for each identifier.
pub struct ActiveSubs<H> {
    entries: Vec<(SubId, H)>,
}

impl<H> View for ActiveSubs<H> {
    type V = Map<SubIdView, H>;

    closed spec fn view(&self) -> Map<SubIdView, H> {
        entries_map(self.entries@)
    }
}

proof fn lemma_entry_at<H>(s: Seq<(SubId, H)>, i: int)
    requires
        keys_distinct(s),
        0 <= i < s.len(),
    ensures
        entries_map(s).contains_key(s[i].0@),
        entries_map(s)[s[i].0@] == s[i].1,
{
    assert(has_key(s, s[i].0@));
    let j = key_index(s, s[i].0@);
    assert(s[j].0@ == s[i].0@);
}

proof fn lemma_remove_at<H>(s: Seq<(SubId, H)>, i: int)
    requires
        keys_distinct(s),
        0 <= i < s.len(),
    ensures
        keys_distinct(s.remove(i)),
        entries_map(s.remove(i)) == entries_map(s).remove(s[i].0@),
{
    let t = s.remove(i);
    let k = s[i].0@;
    assert forall|a: int, b: int|
        0 <= a < t.len() && 0 <= b < t.len() && a != b implies t[a].0@ != t[b].0@ by {
        let a2 = if a < i { a } else { a + 1 };
        let b2 = if b < i { b } else { b + 1 };
        assert(t[a] == s[a2]);
        assert(t[b] == s[b2]);
    }
    assert forall|x: SubIdView| #[trigger] has_key(t, x) == (has_key(s, x) && x != k) by {
        if has_key(t, x) {
            let a = choose|a: int| 0 <= a < t.len() && #[trigger] t[a].0@ == x;
            let a2 = if a < i { a } else { a + 1 };
            assert(s[a2].0@ == x);
        }
        if has_key(s, x) && x != k {
            let a = choose|a: int| 0 <= a < s.len() && #[trigger] s[a].0@ == x;
            assert(a != i);
            let a2 = if a < i { a } else { a - 1 };
            assert(t[a2].0@ == x);
        }
    }
    assert forall|x: SubIdView| #[trigger] has_key(t, x) implies entries_map(t)[x] == entries_map(s)[x] by {
        let a = key_index(t, x);
        let a2 = if a < i { a } else { a + 1 };
        assert(t[a] == s[a2]);
        lemma_entry_at(s, a2);
    }
    assert(entries_map(t) =~= entries_map(s).remove(k));
}

proof fn lemma_push<H>(s: Seq<(SubId, H)>, id: SubId, h: H)
    requires
        keys_distinct(s),
        !has_key(s, id@),
    ensures
        keys_distinct(s.push((id, h))),
        entries_map(s.push((id, h))) == entries_map(s).insert(id@, h),
{
    let t = s.push((id, h));
    assert forall|a: int, b: int|
        0 <= a < t.len() && 0 <= b < t.len() && a != b implies t[a].0@ != t[b].0@ by {
        if a < s.len() && b < s.len() {
            assert(t[a] == s[a] && t[b] == s[b]);
        } else if a < s.len() {
            assert(t[a] == s[a]);
        } else if b < s.len() {
            assert(t[b] == s[b]);
        }
    }
    assert forall|x: SubIdView| #[trigger] has_key(t, x) == (has_key(s, x) || x == id@) by {
        if has_key(t, x) {
            let a = choose|a: int| 0 <= a < t.len() && #[trigger] t[a].0@ == x;
            if a < s.len() {
                assert(t[a] == s[a]);
            }
        }
        if has_key(s, x) {
            let a = choose|a: int| 0 <= a < s.len() && #[trigger] s[a].0@ == x;
            assert(t[a] == s[a]);
        }
        if x == id@ {
            assert(t[s.len() as int].0@ == x);
        }
    }
    assert forall|x: SubIdView| #[trigger] has_key(t, x) implies entries_map(t)[x] == entries_map(
        s,
    ).insert(id@, h)[x] by {
        let a = key_index(t, x);
        if a < s.len() {
            assert(t[a] == s[a]);
            lemma_entry_at(s, a);
        }
    }
    assert(entries_map(t) =~= entries_map(s).insert(id@, h));
}

proof fn lemma_entries_len<H>(s: Seq<(SubId, H)>)
    requires
        keys_distinct(s),
    ensures
        entries_map(s).dom().finite(),
        entries_map(s).len() == s.len(),
    decreases s.len(),
{
    if s.len() == 0 {
        assert(entries_map(s) =~= Map::<SubIdView, H>::empty());
    } else {
        let t = s.drop_last();
        let last = s.last();
        assert forall|a: int, b: int|
            0 <= a < t.len() && 0 <= b < t.len() && a != b implies t[a].0@ != t[b].0@ by {
            assert(t[a] == s[a] && t[b] == s[b]);
        }
        assert(!has_key(t, last.0@)) by {
            if has_key(t, last.0@) {
                let a = choose|a: int| 0 <= a < t.len() && #[trigger] t[a].0@ == last.0@;
                assert(s[a] == t[a]);
            }
        }
        lemma_entries_len(t);
        lemma_push(t, last.0, last.1);
        assert(t.push(last) =~= s);
    }
}

impl<H> ActiveSubs<H> {
    /// The entries hold no identifier twice.
    pub closed spec fn wf(&self) -> bool {
        keys_distinct(self.entries@)
    }

    /// No running subscription.
    pub fn new() -> (r: Self)
        ensures
            r.wf(),
            r@ == Map::<SubIdView, H>::empty(),
    {
        let r = ActiveSubs { entries: Vec::new() };
        assert(r@ =~= Map::<SubIdView, H>::empty());
        r
    }

    /// The number of running subscriptions.
    pub fn len(&self) -> (r: usize)
        requires
            self.wf(),
        ensures
            r == self@.len(),
    {
        proof {
            self.lemma_len();
        }
        self.entries.len()
    }

    proof fn lemma_len(&self)
        requires
            self.wf(),
        ensures
            self@.dom().finite(),
            self@.len() == self.entries@.len(),
    {
        lemma_entries_len(self.entries@);
    }

    /// The position of the entry with identifier `id`, if there is one.
    fn find(&self, id: &SubId) -> (r: Option<usize>)
        requires
            self.wf(),
        ensures
            match r {
                Some(i) => i < self.entries@.len() && self.entries@[i as int].0@ == id@,
                None => !has_key(self.entries@, id@),
            },
    {
        let mut i: usize = 0;
        while i < self.entries.len()
            invariant
                i <= self.entries@.len(),
                forall|j: int| 0 <= j < i ==> self.entries@[j].0@ != id@,
            decreases self.entries@.len() - i,
        {
            if self.entries[i].0 == *id {
                return Some(i);
            }
            i += 1;
        }
        None
    }

    /// Takes out the handle of `id`, if it is running.
    pub fn remove(&mut self, id: &SubId) -> (r: Option<H>)
        requires
            old(self).wf(),
        ensures
            final(self).wf(),
            final(self)@ == old(self)@.remove(id@),
            r == (if old(self)@.contains_key(id@) {
                Some(old(self)@[id@])
            } else {
                None
            }),
    {
        match self.find(id) {
            Some(i) => {
                proof {
                    lemma_entry_at(self.entries@, i as int);
                    lemma_remove_at(self.entries@, i as int);
                }
                let (_, h) = self.entries.remove(i);
                Some(h)
            },
            None => {
                assert(self@ =~= old(self)@.remove(id@));
                None
            },
        }
    }

    /// Sets the handle of `id`, and gives back the handle that it replaces.
    pub fn insert(&mut self, id: SubId, handle: H) -> (r: Option<H>)
        requires
            old(self).wf(),
        ensures
            final(self).wf(),
            final(self)@ == old(self)@.insert(id@, handle),
            r == (if old(self)@.contains_key(id@) {
                Some(old(self)@[id@])
            } else {
                None
            }),
    {
        let previous = self.remove(&id);
        proof {
            assert(!has_key(self.entries@, id@)) by {
                if has_key(self.entries@, id@) {
                    let j = choose|j: int| 0 <= j < self.entries@.len() && #[trigger] self.entries@[j].0@ == id@;
                    lemma_entry_at(self.entries@, j);
                }
            }
            lemma_push(self.entries@, id, handle);
        }
        self.entries.push((id, handle));
        assert(self@ =~= old(self)@.insert(id@, handle));
        previous
    }
}

/// No identifier before position `i` of `ids` is `ids[i]`.
pub open spec fn first_at(ids: Seq<SubIdView>, i: int) -> bool {
    forall|j: int| 0 <= j < i ==> ids[j] != ids[i]
}

/// No identifier after position `i` of `ids` is `ids[i]`.
pub open spec fn last_at(ids: Seq<SubIdView>, i: int) -> bool {
    forall|j: int| i < j < ids.len() ==> ids[j] != ids[i]
}

/// Whether the subscription at position `i` of `ids` takes over the handle
/// that was running in `old`: it does when its identifier was running and
/// occurs nowhere before it in `ids`.
pub open spec fn keeps<H>(old: Map<SubIdView, H>, ids: Seq<SubIdView>, i: int) -> bool {
    first_at(ids, i) && old.contains_key(ids[i])
}

/// For each position of `ids`, whether its subscription is to be started:
/// every one that does not take over a running handle.
pub open spec fn starts<H>(old: Map<SubIdView, H>, ids: Seq<SubIdView>) -> Seq<bool> {
    Seq::new(ids.len(), |i: int| !keeps(old, ids, i))
}

/// The identifiers of a list of entries, in order.
pub open spec fn entry_ids<F>(entries: Seq<(SubId, F)>) -> Seq<SubIdView> {
    entries.map_values(|e: (SubId, F)| e.0@)
}

/// `new` is `old` after each entry `(id, factory)` of `ids` and `factories`,
/// in order, was given a handle that `spawn` started from its factory: each
/// identifier holds the handle of its last entry, and the other identifiers
/// keep their handles.
pub open spec fn started<F, H, S: Fn(F) -> H>(
    old: Map<SubIdView, H>,
    ids: Seq<SubIdView>,
    factories: Seq<F>,
    new: Map<SubIdView, H>,
    spawn: S,
) -> bool {
    &&& new.dom() == old.dom() + ids.to_set()
    &&& forall|k: SubIdView| old.contains_key(k) && !ids.contains(k) ==> #[trigger] new[k] == old[k]
    &&& forall|i: int|
        #![trigger ids[i]]
        0 <= i < ids.len() && last_at(ids, i) ==> call_ensures(spawn, (factories[i],), new[ids[i]])
}

/// Decides which running subscriptions `sub` keeps: each running
/// subscription whose identifier `sub` asks for keeps its handle, which goes
/// to the first entry with that identifier; every other running subscription
/// is dropped. Gives back, in order, the entries of `sub` that are to be
/// started: all but those first entries.
pub fn rebuild_sub<F, H>(sub: Sub<F>, active: &mut ActiveSubs<H>) -> (to_start: Vec<(SubId, F)>)
    requires
        old(active).wf(),
    ensures
        final(active).wf(),
        final(active)@ == old(active)@.restrict(sub.ids().to_set()),
        to_start@ == select(sub.0@, starts(old(active)@, sub.ids())),
{
    let ghost ids = sub.ids();
    let ghost entries = sub.0@;
    let ghost start = active@;
    let ghost flags = starts(start, ids);
    let mut new: ActiveSubs<H> = ActiveSubs::new();
    let mut to_start: Vec<(SubId, F)> = Vec::new();
    proof {
        assert(ids.take(0).to_set() =~= Set::<SubIdView>::empty());
        assert(start.remove_keys(ids.take(0).to_set()) =~= start);
        assert(start.restrict(ids.take(0).to_set()) =~= new@);
    }
    for e in it: sub.0.into_iter()
        invariant
            entries == it.seq(),
            ids == entries.map_values(|e: (SubId, F)| e.0@),
            flags == starts(start, ids),
            active.wf(),
            new.wf(),
            active@ == start.remove_keys(ids.take(it.index() as int).to_set()),
            new@ == start.restrict(ids.take(it.index() as int).to_set()),
            to_start@ == select(entries.take(it.index() as int), flags.take(it.index() as int)),
    {
        let ghost p = it.index() as int;
        let ghost key = ids[p];
        let ghost pre = ids.take(p);
        let ghost post = ids.take(p + 1);
        let (id, factory) = e;
        assert(id@ == key);
        proof {
            assert(entries.take(p + 1).drop_last() =~= entries.take(p));
            assert(flags.take(p + 1).drop_last() =~= flags.take(p));
            assert(post.to_set() =~= pre.to_set().insert(key)) by {
                assert forall|x: SubIdView| post.contains(x) <==> (pre.contains(x) || x == key) by {
                    if post.contains(x) {
                        let j = choose|j: int| 0 <= j < post.len() && post[j] == x;
                        if j < p {
                            assert(pre[j] == x);
                        }
                    }
                    if pre.contains(x) {
                        let j = choose|j: int| 0 <= j < pre.len() && pre[j] == x;
                        assert(post[j] == x);
                    }
                    if x == key {
                        assert(post[p] == x);
                    }
                }
            }
            assert(first_at(ids, p) == !pre.contains(key)) by {
                if pre.contains(key) {
                    let j = choose|j: int| 0 <= j < pre.len() && pre[j] == key;
                    assert(ids[j] == key);
                }
                if !first_at(ids, p) {
                    let j = choose|j: int| 0 <= j < p && ids[j] == ids[p];
                    assert(pre[j] == key);
                }
            }
        }
        match active.remove(&id) {
            Some(handle) => {
                let _ = new.insert(id, handle);
                proof {
                    assert(keeps(start, ids, p));
                    assert(flags.take(p + 1).last() == false);
                    assert(active@ =~= start.remove_keys(post.to_set()));
                    assert(new@ =~= start.restrict(post.to_set()));
                }
            },
            None => {
                to_start.push((id, factory));
                proof {
                    assert(!keeps(start, ids, p));
                    assert(flags.take(p + 1).last() == true);
                    assert(active@ =~= start.remove_keys(post.to_set()));
                    assert(new@ =~= start.restrict(post.to_set()));
                }
            },
        }
    }
    proof {
        assert(entries.take(entries.len() as int) =~= entries);
        assert(flags.take(flags.len() as int) =~= flags);
        assert(ids.take(ids.len() as int) =~= ids);
    }
    *active = new;
    to_start
}

impl<H> ActiveSubs<H> {
    /// Starts each entry of `to_start`, in order, with `spawn`, and sets its
    /// identifier to the new handle; a handle that this replaces is dropped.
    pub fn start_all<F, S: Fn(F) -> H>(&mut self, to_start: Vec<(SubId, F)>, spawn: &S)
        requires
            old(self).wf(),
            forall|f: F| call_requires(*spawn, (f,)),
        ensures
            final(self).wf(),
            started(
                old(self)@,
                entry_ids(to_start@),
                to_start@.map_values(|e: (SubId, F)| e.1),
                final(self)@,
                *spawn,
            ),
    {
        let ghost entries = to_start@;
        let ghost ids = entry_ids(entries);
        let ghost factories = entries.map_values(|e: (SubId, F)| e.1);
        let ghost start = self@;
        proof {
            assert(ids.take(0).to_set() =~= Set::<SubIdView>::empty());
            assert(start.dom() + ids.take(0).to_set() =~= start.dom());
        }
        for e in it: to_start.into_iter()
            invariant
                entries == it.seq(),
                ids == entry_ids(entries),
                factories == entries.map_values(|e: (SubId, F)| e.1),
                forall|f: F| call_requires(*spawn, (f,)),
                self.wf(),
                started(
                    start,
                    ids.take(it.index() as int),
                    factories.take(it.index() as int),
                    self@,
                    *spawn,
                ),
        {
            let ghost p = it.index() as int;
            let ghost pre = ids.take(p);
            let ghost post = ids.take(p + 1);
            let ghost before = self@;
            let (id, factory) = e;
            assert(id@ == ids[p]);
            assert(factory == factories[p]);
            let handle = spawn(factory);
            let _ = self.insert(id, handle);
            proof {
                assert(post =~= pre.push(ids[p]));
                assert(post.to_set() =~= pre.to_set().insert(ids[p])) by {
                    assert forall|x: SubIdView| post.contains(x) <==> (pre.contains(x) || x == ids[p]) by {
                        if post.contains(x) {
                            let j = choose|j: int| 0 <= j < post.len() && post[j] == x;
                            if j < p {
                                assert(pre[j] == x);
                            }
                        }
                        if pre.contains(x) {
                            let j = choose|j: int| 0 <= j < pre.len() && pre[j] == x;
                            assert(post[j] == x);
                        }
                        if x == ids[p] {
                            assert(post[p] == x);
                        }
                    }
                }
                assert(self@.dom() =~= start.dom() + post.to_set());
                assert forall|k: SubIdView| start.contains_key(k) && !post.contains(k) implies #[trigger] self@[k] == start[k] by {
                    assert(!pre.contains(k)) by {
                        if pre.contains(k) {
                            let j = choose|j: int| 0 <= j < pre.len() && pre[j] == k;
                            assert(post[j] == k);
                        }
                    }
                    assert(k != ids[p]) by {
                        if k == ids[p] {
                            assert(post[p] == k);
                        }
                    }
                }
                assert forall|i: int|
                    #![trigger post[i]]
                    0 <= i < post.len() && last_at(post, i) implies call_ensures(
                        *spawn,
                        (factories.take(p + 1)[i],),
                        self@[post[i]],
                    ) by {
                    if i < p {
                        assert(post[p] == ids[p]);
                        assert(post[i] != ids[p]);
                        assert(pre[i] == post[i]);
                        assert(last_at(pre, i)) by {
                            assert forall|j: int| i < j < pre.len() implies pre[j] != pre[i] by {
                                assert(post[j] == pre[j]);
                            }
                        }
                        assert(factories.take(p + 1)[i] == factories.take(p)[i]);
                    }
                }
            }
        }
        proof {
            assert(ids.take(ids.len() as int) =~= ids);
            assert(factories.take(factories.len() as int) =~= factories);
        }
    }
}

} // verus!
