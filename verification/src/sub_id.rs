//! Identifiers of subscriptions, and how they are combined.
use std::any::TypeId;
use std::hash::Hash;
use std::hash::Hasher as _;
use vstd::prelude::*;
use vstd::std_specs::hash::DefaultHasherAdditionalSpecFns;

verus! {

/// The hasher that subscription identifiers are computed with.
pub type Hasher = std::hash::DefaultHasher;

#[verifier::external_type_specification]
#[verifier::external_body]
pub struct ExTypeId(TypeId);

/// The mathematical value of a [`SubId`].
pub enum SubIdView {
    Str(Seq<char>),
    String(Seq<char>),
    TypeId(TypeId),
    Hash(u64),
    Batch(Seq<SubIdView>),
}

/// Identifies a subscription across rebuilds: two subscriptions with equal
/// identifiers are considered the same subscription.
#[derive(Debug, Hash)]
pub enum SubId {
    Str(&'static str),
    String(String),
    TypeId(TypeId),
    Hash(u64),
    Batch(Vec<SubId>),
}

pub open spec fn id_view(id: SubId) -> SubIdView
    decreases id,
{
    match id {
        SubId::Str(s) => SubIdView::Str(s@),
        SubId::String(s) => SubIdView::String(s@),
        SubId::TypeId(t) => SubIdView::TypeId(t),
        SubId::Hash(h) => SubIdView::Hash(h),
        SubId::Batch(v) => SubIdView::Batch(ids_view(v@)),
    }
}

/// The views of a sequence of identifiers, element by element.
pub open spec fn ids_view(ids: Seq<SubId>) -> Seq<SubIdView>
    decreases ids,
{
    Seq::new(
        ids.len(),
        |i: int|
            if 0 <= i < ids.len() {
                id_view(ids[i])
            } else {
                SubIdView::Hash(0)
            },
    )
}

impl View for SubId {
    type V = SubIdView;

    open spec fn view(&self) -> SubIdView {
        id_view(*self)
    }
}

/// The identifiers that an identifier is made of: the members of a batch, or
/// the identifier itself.
pub open spec fn parts(id: SubIdView) -> Seq<SubIdView> {
    match id {
        SubIdView::Batch(v) => v,
        _ => seq![id],
    }
}

/// What `a.with(b)` is: one batch of the parts of `a` followed by those of `b`.
pub open spec fn with_spec(a: SubIdView, b: SubIdView) -> SubIdView {
    SubIdView::Batch(parts(a) + parts(b))
}

proof fn lemma_batch_view(v: Vec<SubId>)
    ensures
        SubId::Batch(v)@ == SubIdView::Batch(ids_view(v@)),
        ids_view(v@).len() == v@.len(),
        forall|i: int| 0 <= i < v@.len() ==> #[trigger] ids_view(v@)[i] == v@[i]@,
{
}

proof fn lemma_ids_view_push(s: Seq<SubId>, x: SubId)
    ensures
        ids_view(s.push(x)) == ids_view(s).push(x@),
{
    assert(ids_view(s.push(x)) =~= ids_view(s).push(x@));
}

proof fn lemma_ids_view_add(s: Seq<SubId>, t: Seq<SubId>)
    ensures
        ids_view(s + t) == ids_view(s) + ids_view(t),
{
    assert(ids_view(s + t) =~= ids_view(s) + ids_view(t));
}

impl SubId {
    /// Combines two identifiers into one batch, which holds the parts of
    /// `self` followed by the parts of `id`.
    pub fn with(self, id: SubId) -> (r: SubId)
        ensures
            r@ == with_spec(self@, id@),
    {
        let ghost self0 = self;
        let ghost id0 = id;
        match self {
            SubId::Batch(mut sub_ids) => {
                let ghost old_ids = sub_ids@;
                match id {
                    SubId::Batch(mut new) => {
                        let ghost new_ids = new@;
                        assert(parts(id0@) == ids_view(new_ids));
                        assert(parts(self0@) == ids_view(old_ids));
                        sub_ids.append(&mut new);
                        proof {
                            lemma_ids_view_add(old_ids, new_ids);
                        }
                        SubId::Batch(sub_ids)
                    },
                    new => {
                        let ghost n = new;
                        assert(parts(self0@) == ids_view(old_ids));
                        sub_ids.push(new);
                        proof {
                            lemma_ids_view_push(old_ids, n);
                            assert(parts(n@) == seq![n@]);
                            assert(ids_view(old_ids).push(n@) =~= ids_view(old_ids) + seq![n@]);
                        }
                        SubId::Batch(sub_ids)
                    },
                }
            },
            this => {
                let ghost t = this;
                match id {
                    SubId::Batch(mut new) => {
                        let ghost new_ids = new@;
                        assert(parts(id0@) == ids_view(new_ids));
                        let mut sub_ids = Vec::new();
                        sub_ids.push(this);
                        let ghost first = sub_ids@;
                        sub_ids.append(&mut new);
                        proof {
                            lemma_ids_view_add(first, new_ids);
                            lemma_ids_view_push(Seq::empty(), t);
                            assert(Seq::<SubId>::empty().push(t) =~= first);
                            assert(ids_view(Seq::<SubId>::empty()) =~= Seq::<SubIdView>::empty());
                            assert(parts(t@) == seq![t@]);
                        }
                        SubId::Batch(sub_ids)
                    },
                    new => {
                        let ghost n = new;
                        let mut sub_ids = Vec::new();
                        sub_ids.push(this);
                        sub_ids.push(new);
                        proof {
                            assert(ids_view(sub_ids@) =~= seq![t@, n@]);
                            assert(parts(t@) == seq![t@]);
                            assert(parts(n@) == seq![n@]);
                            assert(seq![t@, n@] =~= seq![t@] + seq![n@]);
                        }
                        SubId::Batch(sub_ids)
                    },
                }
            },
        }
    }

    /// Extends `self` with the type of `value` and a hash of `value`.
    pub fn with_hash<T: Hash + 'static>(self, value: &T) -> (r: SubId)
        ensures
            exists|t: TypeId, h: u64|
                is_type_id_of::<T>(t) && is_hash_of(value, h) && r@ == with_spec(
                    with_spec(self@, SubIdView::TypeId(t)),
                    SubIdView::Hash(h),
                ),
    {
        let hash = hash_of(value);
        let t = type_id_for::<T>();
        let r = self.with(SubId::from(t)).with(SubId::from(hash));
        assert(r@ == with_spec(with_spec(self@, SubIdView::TypeId(t)), SubIdView::Hash(hash)));
        r
    }
}

impl SubId {
    /// Whether two identifiers are equal, part by part.
    fn same(&self, other: &SubId) -> (r: bool)
        ensures
            r == (self@ == other@),
        decreases self,
    {
        match (self, other) {
            (SubId::Str(a), SubId::Str(b)) => str_eq(a, b),
            (SubId::String(a), SubId::String(b)) => *a == *b,
            (SubId::TypeId(a), SubId::TypeId(b)) => type_id_eq(a, b),
            (SubId::Hash(a), SubId::Hash(b)) => *a == *b,
            (SubId::Batch(a), SubId::Batch(b)) => {
                proof {
                    lemma_batch_view(*a);
                    lemma_batch_view(*b);
                }
                if a.len() != b.len() {
                    return false;
                }
                let mut i: usize = 0;
                while i < a.len()
                    invariant
                        i <= a.len(),
                        a.len() == b.len(),
                        *self == SubId::Batch(*a),
                        self@ == SubIdView::Batch(ids_view(a@)),
                        other@ == SubIdView::Batch(ids_view(b@)),
                        ids_view(a@).len() == a@.len(),
                        ids_view(b@).len() == b@.len(),
                        forall|j: int| 0 <= j < a@.len() ==> #[trigger] ids_view(a@)[j] == a@[j]@,
                        forall|j: int| 0 <= j < b@.len() ==> #[trigger] ids_view(b@)[j] == b@[j]@,
                        forall|j: int| 0 <= j < i ==> a@[j]@ == b@[j]@,
                    decreases a.len() - i,
                {
                    assert(decreases_to!(*self => *a));
                    assert(decreases_to!(*a => a@));
                    assert(decreases_to!(a@ => a@[i as int]));
                    if !a[i].same(&b[i]) {
                        assert(ids_view(a@)[i as int] != ids_view(b@)[i as int]);
                        return false;
                    }
                    i += 1;
                }
                assert(ids_view(a@) =~= ids_view(b@));
                true
            },
            _ => false,
        }
    }
}

impl PartialEq for SubId {
    fn eq(&self, other: &Self) -> (r: bool) {
        self.same(other)
    }
}

impl vstd::std_specs::cmp::PartialEqSpecImpl for SubId {
    open spec fn obeys_eq_spec() -> bool {
        true
    }

    open spec fn eq_spec(&self, other: &SubId) -> bool {
        self@ == other@
    }
}

impl Eq for SubId {

}

impl From<&'static str> for SubId {
    fn from(value: &'static str) -> (r: Self)
        ensures
            r == SubId::Str(value),
    {
        SubId::Str(value)
    }
}

impl vstd::std_specs::convert::FromSpecImpl<&'static str> for SubId {
    open spec fn obeys_from_spec() -> bool {
        true
    }

    open spec fn from_spec(v: &'static str) -> Self {
        SubId::Str(v)
    }
}

impl From<String> for SubId {
    fn from(value: String) -> (r: Self)
        ensures
            r == SubId::String(value),
    {
        SubId::String(value)
    }
}

impl vstd::std_specs::convert::FromSpecImpl<String> for SubId {
    open spec fn obeys_from_spec() -> bool {
        true
    }

    open spec fn from_spec(v: String) -> Self {
        SubId::String(v)
    }
}

impl From<TypeId> for SubId {
    fn from(value: TypeId) -> (r: Self)
        ensures
            r == SubId::TypeId(value),
    {
        SubId::TypeId(value)
    }
}

impl vstd::std_specs::convert::FromSpecImpl<TypeId> for SubId {
    open spec fn obeys_from_spec() -> bool {
        true
    }

    open spec fn from_spec(v: TypeId) -> Self {
        SubId::TypeId(v)
    }
}

impl From<u64> for SubId {
    fn from(value: u64) -> (r: Self)
        ensures
            r == SubId::Hash(value),
    {
        SubId::Hash(value)
    }
}

impl vstd::std_specs::convert::FromSpecImpl<u64> for SubId {
    open spec fn obeys_from_spec() -> bool {
        true
    }

    open spec fn from_spec(v: u64) -> Self {
        SubId::Hash(v)
    }
}

/// Calls `std::any::TypeId::of::<T>()`. The result depends on `T` alone; no
/// clause says so, since a name for it would need a type parameter.
#[verifier::external_body]
fn type_id_of<T: 'static>() -> TypeId {
    TypeId::of::<T>()
}

/// Calls `<T as std::hash::Hash>::hash` with `state`, and gives the state
/// back. Nothing is stated of how the state changes: that is up to the impl
/// of `Hash` for `T`.
#[verifier::external_body]
fn hash_into<T: Hash>(value: &T, state: Hasher) -> Hasher {
    let mut state = state;
    value.hash(&mut state);
    state
}

/// `t` is what `TypeId::of::<T>()` gave, through [`type_id_of`].
pub closed spec fn is_type_id_of<T: 'static>(t: TypeId) -> bool {
    call_ensures(type_id_of::<T>, (), t)
}

/// `h` is the hash of `value`: what a new [`Hasher`], after `value` was hashed
/// into it, finishes with.
pub closed spec fn is_hash_of<T: Hash>(value: &T, h: u64) -> bool {
    exists|before: Hasher, after: Hasher|
        before@ == Seq::<Seq<u8>>::empty() && call_ensures(hash_into::<T>, (value, before), after)
            && h == Hasher::spec_finish(after@)
}

/// The type identifier of `T`, through [`type_id_of`].
pub(crate) fn type_id_for<T: 'static>() -> (t: TypeId)
    ensures
        is_type_id_of::<T>(t),
{
    let type_of = type_id_of::<T>;
    type_of()
}

/// The hash of `value`: a new [`Hasher`] with `value` hashed into it,
/// finished.
fn hash_of<T: Hash>(value: &T) -> (h: u64)
    ensures
        is_hash_of(value, h),
{
    let before = Hasher::new();
    let ghost b = before;
    let f = hash_into::<T>;
    let after = f(value, before);
    let h = after.finish();
    assert(call_ensures(hash_into::<T>, (value, b), after));
    h
}

/// Calls `<str as PartialEq>::eq`, which holds when the two strings have the
/// same characters.
#[verifier::external_body]
fn str_eq(a: &str, b: &str) -> (r: bool)
    ensures
        r == (a@ == b@),
{
    a == b
}

/// Calls `<TypeId as PartialEq>::eq`, which holds when the two identifiers
/// are the same value.
#[verifier::external_body]
fn type_id_eq(a: &TypeId, b: &TypeId) -> (r: bool)
    ensures
        r == (*a == *b),
{
    *a == *b
}

} // verus!
