//! Identifiers and the two id-keyed containers of the SSA IR.
//!
//! An [`Id`] is an index into a container. A [`DenseMap`] hands out the ids
//! `0, 1, 2, ...` in the order elements are pushed and never removes anything,
//! so every id it returned stays valid. A [`SparseMap`] also allows removal;
//! the remaining ids keep pointing at their elements.
use std::collections::HashMap;
use vstd::prelude::*;

verus! {

broadcast use vstd::std_specs::hash::group_hash_axioms;

/// Hashing an `Id` feeds its index to the hasher. Nothing is stated of the
/// hasher's state afterwards.
pub assume_specification<H: std::hash::Hasher>[<usize as std::hash::Hash>::hash::<H>](
    data: &usize,
    state: &mut H,
);

/// A unique ID corresponding to a value of type T.
/// This type can be used to retrieve a value of type T from
/// either a DenseMap<T> or SparseMap<T>.
///
/// Note that there is nothing in an Id binding it to a particular
/// DenseMap or SparseMap. If an Id was created to correspond to one
/// particular map type, users need to take care not to use it with
/// another map where it will likely be invalid.
#[derive(Debug)]
pub struct Id<T> {
    index: usize,
    _marker: std::marker::PhantomData<T>,
}

impl<T> View for Id<T> {
    type V = usize;

    /// The index that the id stands for.
    closed spec fn view(&self) -> usize {
        self.index
    }
}

impl<T> Id<T> {
    /// Constructs a new Id for the given index.
    pub fn new(index: usize) -> (id: Self)
        ensures
            id@ == index,
    {
        Self { index, _marker: std::marker::PhantomData }
    }

    /// Creates a test Id with the given index.
    /// The name of this function makes it apparent it should only
    /// be used for testing. Obtaining Ids in this way should be avoided
    /// as unlike DenseMap::push and SparseMap::push, the Ids created
    /// here are likely invalid for any particularly map.
    pub fn test_new(index: usize) -> (id: Self)
        ensures
            id@ == index,
    {
        Self::new(index)
    }

    /// The index this id stands for.
    pub(crate) fn to_usize(&self) -> (index: usize)
        ensures
            index == self@,
    {
        self.index
    }

    /// Two ids are the same value exactly when they stand for the same index.
    pub proof fn lemma_view_injective(a: Self, b: Self)
        ensures
            (a@ == b@) <==> a == b,
    {
        if a@ == b@ {
            assert(a._marker == b._marker);
        }
    }
}

/// The decimal digit for `d` (below 10).
pub open spec fn digit_char(d: nat) -> char {
    if d == 0 {
        '0'
    } else if d == 1 {
        '1'
    } else if d == 2 {
        '2'
    } else if d == 3 {
        '3'
    } else if d == 4 {
        '4'
    } else if d == 5 {
        '5'
    } else if d == 6 {
        '6'
    } else if d == 7 {
        '7'
    } else if d == 8 {
        '8'
    } else {
        '9'
    }
}

/// The decimal digits of `n`, most significant first, without leading zeros.
pub open spec fn decimal(n: nat) -> Seq<char>
    decreases n,
{
    if n < 10 {
        seq![digit_char(n)]
    } else {
        decimal(n / 10).push(digit_char(n % 10))
    }
}

/// The one-digit string for `d` (below 10).
fn digit_str(d: usize) -> (s: &'static str)
    requires
        d < 10,
    ensures
        s@ == seq![digit_char(d as nat)],
{
    proof {
        reveal_strlit("0");
        reveal_strlit("1");
        reveal_strlit("2");
        reveal_strlit("3");
        reveal_strlit("4");
        reveal_strlit("5");
        reveal_strlit("6");
        reveal_strlit("7");
        reveal_strlit("8");
        reveal_strlit("9");
    }
    if d == 0 {
        "0"
    } else if d == 1 {
        "1"
    } else if d == 2 {
        "2"
    } else if d == 3 {
        "3"
    } else if d == 4 {
        "4"
    } else if d == 5 {
        "5"
    } else if d == 6 {
        "6"
    } else if d == 7 {
        "7"
    } else if d == 8 {
        "8"
    } else {
        "9"
    }
}

/// Appends the decimal digits of `n` to `s`.
fn append_decimal(s: &mut String, n: usize)
    ensures
        final(s)@ == old(s)@ + decimal(n as nat),
    decreases n,
{
    if n >= 10 {
        append_decimal(s, n / 10);
    }
    s.append(digit_str(n % 10));
}

impl<T> Id<T> {
    /// How the id prints for debugging: `Id(` and its index in decimal, then `)`.
    pub fn debug_string(&self) -> (s: String)
        ensures
            s@ == seq!['I', 'd', '('] + decimal(self@ as nat) + seq![')'],
    {
        proof {
            reveal_strlit("Id(");
            reveal_strlit(")");
        }
        let mut s = String::from_str("Id(");
        append_decimal(&mut s, self.index);
        s.append(")");
        s
    }
}

impl<T> std::hash::Hash for Id<T> {
    fn hash<H: std::hash::Hasher>(&self, state: &mut H) {
        self.index.hash(state);
    }
}

impl<T> PartialEq for Id<T> {
    fn eq(&self, other: &Self) -> (r: bool) {
        self.index == other.index
    }
}

impl<T> vstd::std_specs::cmp::PartialEqSpecImpl for Id<T> {
    open spec fn obeys_eq_spec() -> bool {
        true
    }

    open spec fn eq_spec(&self, other: &Self) -> bool {
        self@ == other@
    }
}

impl<T> Eq for Id<T> {}

impl<T> Clone for Id<T> {
    fn clone(&self) -> (r: Self)
        ensures
            r == *self,
    {
        Self { index: self.index, _marker: self._marker }
    }
}

impl<T> Copy for Id<T> {}

/// The indices of a sequence of ids.
pub open spec fn id_indices<T>(ids: Seq<Id<T>>) -> Seq<usize> {
    ids.map_values(|id: Id<T>| id@)
}

/// A DenseMap is a Vec wrapper where each element corresponds
/// to a unique ID that can be used to access the element. No direct
/// access to indices is provided. Since IDs must be stable and correspond
/// to indices in the internal Vec, operations that would change element
/// ordering like pop, remove, swap_remove, etc, are not possible.
#[derive(Debug)]
pub struct DenseMap<T> {
    storage: Vec<T>,
}

impl<T> View for DenseMap<T> {
    type V = Seq<T>;

    /// The elements in the order they were pushed; an element's id is its position.
    closed spec fn view(&self) -> Seq<T> {
        self.storage@
    }
}

impl<T> DenseMap<T> {
    /// Returns the number of elements in the map.
    pub fn len(&self) -> (n: usize)
        ensures
            n == self@.len(),
    {
        self.storage.len()
    }

    /// Adds an element to the map.
    /// Returns the identifier/reference to that element.
    /// (A map already holding `usize::MAX` elements cannot grow.)
    pub fn push(&mut self, element: T) -> (id: Id<T>)
        requires
            old(self)@.len() < usize::MAX,
        ensures
            id@ == old(self)@.len(),
            final(self)@ == old(self)@.push(element),
    {
        let id = Id::new(self.storage.len());
        self.storage.push(element);
        id
    }

    /// The element that `id` refers to.
    pub fn index(&self, id: Id<T>) -> (element: &T)
        requires
            id@ < self@.len(),
        ensures
            *element == self@[id@ as int],
    {
        &self.storage[id.index]
    }

    /// A mutable reference to the element that `id` refers to; whatever is
    /// written through it becomes that element, and nothing else changes.
    pub fn index_mut(&mut self, id: Id<T>) -> (element: &mut T)
        requires
            id@ < old(self)@.len(),
        ensures
            *element == old(self)@[id@ as int],
            final(self)@ == old(self)@.update(id@ as int, *final(element)),
    {
        &mut self.storage[id.index]
    }
}

impl<T> Default for DenseMap<T> {
    fn default() -> (m: Self)
        ensures
            m@ == Seq::<T>::empty(),
    {
        Self { storage: Vec::new() }
    }
}

/// `HashMap::get_mut` on a map keyed by id indices: a mutable reference to the
/// value under `key`, if there is one. Writing through it replaces that value
/// and nothing else; without the key the map is left as it was.
#[verifier::external_body]
fn hash_map_get_mut<'a, T>(storage: &'a mut HashMap<usize, T>, key: &usize) -> (r: Option<
    &'a mut T,
>)
    ensures
        match r {
            Some(v) => {
                &&& old(storage)@.contains_key(*key)
                &&& *v == old(storage)@[*key]
                &&& final(storage)@ == old(storage)@.insert(*key, *final(v))
            },
            None => {
                &&& !old(storage)@.contains_key(*key)
                &&& final(storage)@ == old(storage)@
            },
        },
{
    storage.get_mut(key)
}

/// A SparseMap is a HashMap wrapper where each element corresponds
/// to a unique ID that can be used to access the element. No direct
/// access to indices is provided.
///
/// Unlike DenseMap, SparseMap's IDs are stored within the structure
/// and are thus stable after element removal.
///
/// Note that unlike DenseMap, it is possible to panic when retrieving
/// an element if the element's Id has been invalidated by a previous
/// call to .remove().
///
/// The elements are kept under the index of their id. A new id is the
/// number of elements, unless that id is still in use after a removal; then
/// it is one above every id handed out so far. An id in use is never handed
/// out again.
#[derive(Debug)]
pub struct SparseMap<T> {
    storage: HashMap<usize, T>,
    /// One above every id handed out so far; every id in use is below it.
    next_index: usize,
}

impl<T> View for SparseMap<T> {
    type V = Map<usize, T>;

    /// The elements, each under the index of its id.
    closed spec fn view(&self) -> Map<usize, T> {
        self.storage@
    }
}

impl<T> SparseMap<T> {
    /// The map's invariant: every id in use is below the next one to hand out.
    pub closed spec fn wf(&self) -> bool {
        forall|k: usize| #[trigger] self.storage@.contains_key(k) ==> k < self.next_index
    }

    /// One above every id handed out so far: the id a `push` hands out when
    /// the number of elements is an id still in use.
    pub closed spec fn next_index(&self) -> usize {
        self.next_index
    }

    /// Every id in use is below the next one to hand out.
    pub proof fn lemma_ids_below_next(&self)
        requires
            self.wf(),
        ensures
            forall|k: usize| #[trigger] self@.contains_key(k) ==> k < self.next_index(),
    {
    }

    /// The map is finite, so it has a size.
    pub proof fn lemma_finite(&self)
        ensures
            self@.dom().finite(),
    {
    }

    /// Returns the number of elements in the map.
    pub fn len(&self) -> (n: usize)
        ensures
            n == self@.len(),
    {
        self.storage.len()
    }

    /// Adds an element to the map.
    /// Returns the identifier/reference to that element.
    ///
    /// The new id is the number of elements, unless a removal left that id
    /// in use; then it is an id never handed out before. Either way no element
    /// is replaced. (Ids run out only after `usize::MAX` pushes.)
    pub fn push(&mut self, element: T) -> (id: Id<T>)
        requires
            old(self).wf(),
            old(self).next_index() < usize::MAX,
            old(self)@.len() < usize::MAX,
        ensures
            final(self).wf(),
            !old(self)@.contains_key(old(self)@.len() as usize) ==> id@ == old(self)@.len(),
            old(self)@.contains_key(old(self)@.len() as usize) ==> id@ == old(self).next_index(),
            !old(self)@.contains_key(id@),
            final(self)@ == old(self)@.insert(id@, element),
            final(self)@.len() == old(self)@.len() + 1,
            final(self).next_index() == (if id@ < old(self).next_index() {
                old(self).next_index()
            } else {
                (id@ + 1) as usize
            }),
    {
        let len = self.storage.len();
        let index = if self.storage.contains_key(&len) {
            self.next_index
        } else {
            len
        };
        if index >= self.next_index {
            self.next_index = index + 1;
        }
        let id = Id::new(index);
        self.storage.insert(index, element);
        id
    }

    /// Remove an element from the map and return it.
    /// This may return None if the element was already
    /// previously removed from the map.
    pub fn remove(&mut self, id: Id<T>) -> (removed: Option<T>)
        requires
            old(self).wf(),
        ensures
            final(self).wf(),
            final(self)@ == old(self)@.remove(id@),
            final(self).next_index() == old(self).next_index(),
            removed == (if old(self)@.contains_key(id@) {
                Some(old(self)@[id@])
            } else {
                None
            }),
    {
        self.storage.remove(&id.index)
    }

    /// The element that `id` refers to.
    pub fn index(&self, id: Id<T>) -> (element: &T)
        requires
            self@.contains_key(id@),
        ensures
            *element == self@[id@],
    {
        self.storage.get(&id.index).unwrap()
    }

    /// A mutable reference to the element that `id` refers to; whatever is
    /// written through it becomes that element, and nothing else changes.
    pub fn index_mut(&mut self, id: Id<T>) -> (element: &mut T)
        requires
            old(self).wf(),
            old(self)@.contains_key(id@),
        ensures
            final(self).wf(),
            *element == old(self)@[id@],
            final(self)@ == old(self)@.insert(id@, *final(element)),
            final(self).next_index() == old(self).next_index(),
    {
        hash_map_get_mut(&mut self.storage, &id.index).unwrap()
    }
}

impl<T> Default for SparseMap<T> {
    fn default() -> (m: Self)
        ensures
            m@ == Map::<usize, T>::empty(),
            m.next_index() == 0,
            m.wf(),
    {
        Self { storage: HashMap::new(), next_index: 0 }
    }
}

/// A pushed element is found under the id that `DenseMap::push` returned,
/// that id is the next index and differs from every id handed out before,
/// and every element pushed before keeps its id.
pub proof fn lemma_dense_push_then_index<T>(
    before: DenseMap<T>,
    after: DenseMap<T>,
    element: T,
    id: Id<T>,
    earlier: Id<T>,
)
    requires
        id@ == before@.len(),
        after@ == before@.push(element),
        earlier@ < before@.len(),
    ensures
        id@ < after@.len(),
        id@ != earlier@,
        after@[id@ as int] == element,
        after@[earlier@ as int] == before@[earlier@ as int],
        after@.len() == before@.len() + 1,
        forall|k: int| 0 <= k < before@.len() ==> #[trigger] after@[k] == before@[k],
{
}

/// One call that changes a `DenseMap`: a push of an element, or a write
/// through `index_mut` at an index.
pub enum DenseStep<T> {
    Push(T),
    Write(usize, T),
}

/// The elements after `steps`, starting from `start`: a push appends, a
/// write below the length replaces that element (and is not possible
/// otherwise).
pub open spec fn dense_after<T>(start: Seq<T>, steps: Seq<DenseStep<T>>) -> Seq<T>
    decreases steps.len(),
{
    if steps.len() == 0 {
        start
    } else {
        let before = dense_after(start, steps.drop_last());
        match steps.last() {
            DenseStep::Push(x) => before.push(x),
            DenseStep::Write(i, x) => if i < before.len() {
                before.update(i as int, x)
            } else {
                before
            },
        }
    }
}

/// The number of pushes among `steps`.
pub open spec fn push_count<T>(steps: Seq<DenseStep<T>>) -> nat
    decreases steps.len(),
{
    if steps.len() == 0 {
        0
    } else {
        push_count(steps.drop_last()) + if steps.last() is Push {
            1nat
        } else {
            0nat
        }
    }
}

/// A `DenseMap` made by `default` and then changed by any pushes and writes
/// holds one element per push: `len` is the number of pushes, as nothing
/// removes an element.
pub proof fn lemma_dense_len_counts_pushes<T>(steps: Seq<DenseStep<T>>)
    ensures
        dense_after(Seq::<T>::empty(), steps).len() == push_count(steps),
    decreases steps.len(),
{
    if steps.len() > 0 {
        lemma_dense_len_counts_pushes(steps.drop_last());
    }
}

/// Writing through `DenseMap::index_mut` changes that one element and
/// nothing else: the length, and so every id handed out, stays as it was.
pub proof fn lemma_dense_index_mut_keeps_ids<T>(
    before: DenseMap<T>,
    after: DenseMap<T>,
    id: Id<T>,
    element: T,
)
    requires
        id@ < before@.len(),
        after@ == before@.update(id@ as int, element),
    ensures
        after@.len() == before@.len(),
        after@[id@ as int] == element,
        forall|k: int| 0 <= k < before@.len() && k != id@ ==> #[trigger] after@[k] == before@[k],
{
}

/// Removing an id from a `SparseMap` hands back the element under it, after
/// which the id is gone, so removing it again hands back nothing; every other
/// id keeps its element.
pub proof fn lemma_sparse_remove<T>(before: SparseMap<T>, after: SparseMap<T>, id: Id<T>)
    requires
        after@ == before@.remove(id@),
    ensures
        !after@.contains_key(id@),
        after@.remove(id@) == after@,
        forall|k: usize| k != id@ ==> (#[trigger] after@.contains_key(k) <==> before@.contains_key(k)),
        forall|k: usize| k != id@ && after@.contains_key(k) ==> #[trigger] after@[k] == before@[k],
        before@.contains_key(id@) ==> after@.len() + 1 == before@.len(),
{
    before.lemma_finite();
    assert(after@.remove(id@) =~= after@);
}

/// `SparseMap::push` never hands out an id in use: the new id belongs to
/// no element, so the map grows by one and every element keeps its id.
pub proof fn lemma_sparse_push_fresh<T>(
    before: SparseMap<T>,
    after: SparseMap<T>,
    element: T,
    id: Id<T>,
    earlier: Id<T>,
)
    requires
        before.wf(),
        !before@.contains_key(id@),
        after@ == before@.insert(id@, element),
        before@.contains_key(earlier@),
    ensures
        id@ != earlier@,
        after@.len() == before@.len() + 1,
        after@[id@] == element,
        after@[earlier@] == before@[earlier@],
        forall|k: usize| #[trigger] before@.contains_key(k) ==> after@.contains_key(k) && after@[k]
            == before@[k],
{
    before.lemma_finite();
}

} // verus!
