//! An ordered collection of child components with stable identities.
//!
//! Each element is known by a [`DynamicIndex`], a key that stays with it
//! wherever it moves. Operations change the logical order at once and are
//! queued; [`FactoryCollection::commit`] then brings the native child container
//! to the logical order in one pass and makes every key resolve to its new
//! position.

use vstd::prelude::*;
use crate::reconcile::{
    calls_for, find, lemma_index_of_unique, lemma_insert_facts, lemma_remove_facts, place,
    reconcile, reconciles, NativeCall,
};

verus! {

/// The identity of one element of a factory collection. It does not change
/// when the element moves; the collection resolves it to the element's current
/// position.
#[derive(Clone, Copy, Debug, PartialEq, Eq, Structural)]
pub struct DynamicIndex {
    pub key: u64,
}

/// One child component: its identity and its model state.
#[derive(Debug)]
pub struct FactoryElement<T> {
    pub index: DynamicIndex,
    pub value: T,
}

/// A structural operation on a factory collection.
#[derive(Debug)]
pub enum Operation<T> {
    PushBack(T),
    PushFront(T),
    Insert(usize, T),
    RemoveAt(usize),
    PopBack,
    PopFront,
    Clear,
    MoveTo(usize, usize),
    MoveFront(usize),
    MoveBack(usize),
    Swap(usize, usize),
}

/// A queued change: what an operation did to the logical order.
#[derive(Clone, Copy, Debug, PartialEq, Eq, Structural)]
pub enum Change {
    Inserted(DynamicIndex),
    Removed(DynamicIndex),
    Moved(DynamicIndex),
    Swapped(DynamicIndex, DynamicIndex),
    Cleared,
}

/// The logical state of a collection: its elements in order, and the key
/// that the next new element gets.
pub struct Logical<T> {
    pub elements: Seq<FactoryElement<T>>,
    pub next_key: int,
}

/// The keys of `elements`, in order.
pub open spec fn keys_of<T>(elements: Seq<FactoryElement<T>>) -> Seq<u64> {
    Seq::new(elements.len(), |i: int| elements[i].index.key)
}

/// The identities of `elements`, in order.
pub open spec fn indices_of<T>(elements: Seq<FactoryElement<T>>) -> Seq<DynamicIndex> {
    Seq::new(elements.len(), |i: int| elements[i].index)
}

/// Every key in `keys` is below `bound`.
pub open spec fn below(keys: Seq<u64>, bound: int) -> bool {
    forall|x: u64| keys.contains(x) ==> x < bound
}

/// `s` with the element at `from` moved to `to`; `s` itself where either
/// index is out of range.
pub open spec fn moved<A>(s: Seq<A>, from: int, to: int) -> Seq<A> {
    if 0 <= from < s.len() && 0 <= to < s.len() {
        s.remove(from).insert(to, s[from])
    } else {
        s
    }
}

/// `s` with the elements at `i` and `j` exchanged; `s` itself where either
/// index is out of range.
pub open spec fn swapped<A>(s: Seq<A>, i: int, j: int) -> Seq<A> {
    if 0 <= i < s.len() && 0 <= j < s.len() {
        s.update(i, s[j]).update(j, s[i])
    } else {
        s
    }
}

/// Whether `op` puts a new element into a collection of `len` elements.
pub open spec fn inserts<T>(len: nat, op: Operation<T>) -> bool {
    match op {
        Operation::PushBack(_) => true,
        Operation::PushFront(_) => true,
        Operation::Insert(at, _) => at <= len,
        _ => false,
    }
}

/// The elements after `op`, where a new element gets the key `key`. An index
/// out of range makes the operation leave the order as it is.
pub open spec fn step<T>(s: Seq<FactoryElement<T>>, op: Operation<T>, key: u64) -> Seq<
    FactoryElement<T>,
> {
    match op {
        Operation::PushBack(value) => s.push(FactoryElement { index: DynamicIndex { key }, value }),
        Operation::PushFront(value) => s.insert(
            0,
            FactoryElement { index: DynamicIndex { key }, value },
        ),
        Operation::Insert(at, value) => if at <= s.len() {
            s.insert(at as int, FactoryElement { index: DynamicIndex { key }, value })
        } else {
            s
        },
        Operation::RemoveAt(at) => if at < s.len() {
            s.remove(at as int)
        } else {
            s
        },
        Operation::PopBack => if s.len() > 0 {
            s.drop_last()
        } else {
            s
        },
        Operation::PopFront => if s.len() > 0 {
            s.drop_first()
        } else {
            s
        },
        Operation::Clear => Seq::empty(),
        Operation::MoveTo(from, to) => moved(s, from as int, to as int),
        Operation::MoveFront(from) => moved(s, from as int, 0),
        Operation::MoveBack(from) => moved(s, from as int, s.len() - 1),
        Operation::Swap(i, j) => swapped(s, i as int, j as int),
    }
}

/// The change that `op` queues, where a new element gets the key `key`; none
/// where the operation is ignored.
pub open spec fn change_of<T>(s: Seq<FactoryElement<T>>, op: Operation<T>, key: u64) -> Option<
    Change,
> {
    match op {
        Operation::PushBack(_) => Some(Change::Inserted(DynamicIndex { key })),
        Operation::PushFront(_) => Some(Change::Inserted(DynamicIndex { key })),
        Operation::Insert(at, _) => if at <= s.len() {
            Some(Change::Inserted(DynamicIndex { key }))
        } else {
            None
        },
        Operation::RemoveAt(at) => if at < s.len() {
            Some(Change::Removed(s[at as int].index))
        } else {
            None
        },
        Operation::PopBack => if s.len() > 0 {
            Some(Change::Removed(s.last().index))
        } else {
            None
        },
        Operation::PopFront => if s.len() > 0 {
            Some(Change::Removed(s.first().index))
        } else {
            None
        },
        Operation::Clear => Some(Change::Cleared),
        Operation::MoveTo(from, to) => if from < s.len() && to < s.len() {
            Some(Change::Moved(s[from as int].index))
        } else {
            None
        },
        Operation::MoveFront(from) => if from < s.len() {
            Some(Change::Moved(s[from as int].index))
        } else {
            None
        },
        Operation::MoveBack(from) => if from < s.len() {
            Some(Change::Moved(s[from as int].index))
        } else {
            None
        },
        Operation::Swap(i, j) => if i < s.len() && j < s.len() {
            Some(Change::Swapped(s[i as int].index, s[j as int].index))
        } else {
            None
        },
    }
}

/// The logical state after `op`.
pub open spec fn advance<T>(state: Logical<T>, op: Operation<T>) -> Logical<T> {
    Logical {
        elements: step(state.elements, op, state.next_key as u64),
        next_key: if inserts(state.elements.len(), op) {
            state.next_key + 1
        } else {
            state.next_key
        },
    }
}

/// The logical state after `ops`, applied in order: each sees what the ones
/// before it did.
pub open spec fn advance_all<T>(state: Logical<T>, ops: Seq<Operation<T>>) -> Logical<T>
    decreases ops.len(),
{
    if ops.len() == 0 {
        state
    } else {
        advance_all(advance(state, ops.first()), ops.drop_first())
    }
}

/// The keys of a sequence with one more element.
pub proof fn lemma_keys_insert<T>(s: Seq<FactoryElement<T>>, at: int, e: FactoryElement<T>)
    requires
        0 <= at <= s.len(),
    ensures
        keys_of(s.insert(at, e)) == keys_of(s).insert(at, e.index.key),
{
    assert(keys_of(s.insert(at, e)) =~= keys_of(s).insert(at, e.index.key));
}

/// The keys of a sequence with one element less.
pub proof fn lemma_keys_remove<T>(s: Seq<FactoryElement<T>>, at: int)
    requires
        0 <= at < s.len(),
    ensures
        keys_of(s.remove(at)) == keys_of(s).remove(at),
{
    assert(keys_of(s.remove(at)) =~= keys_of(s).remove(at));
}

/// Moving an element keeps the keys distinct and keeps which keys there are.
pub proof fn lemma_moved_keys<T>(s: Seq<FactoryElement<T>>, from: int, to: int)
    requires
        keys_of(s).no_duplicates(),
    ensures
        keys_of(moved(s, from, to)) == moved(keys_of(s), from, to),
        keys_of(moved(s, from, to)).no_duplicates(),
        forall|x: u64|
            #![trigger keys_of(moved(s, from, to)).contains(x)]
            #![trigger keys_of(s).contains(x)]
            keys_of(moved(s, from, to)).contains(x) <==> keys_of(s).contains(x),
{
    if 0 <= from < s.len() && 0 <= to < s.len() {
        let keys = keys_of(s);
        lemma_keys_remove(s, from);
        lemma_keys_insert(s.remove(from), to, s[from]);
        lemma_remove_facts(keys, from);
        lemma_insert_facts(keys.remove(from), to, keys[from]);
        assert(keys.contains(keys[from]));
    }
}

/// Exchanging two elements keeps the keys distinct and keeps which keys there
/// are.
pub proof fn lemma_swapped_keys<T>(s: Seq<FactoryElement<T>>, i: int, j: int)
    requires
        keys_of(s).no_duplicates(),
    ensures
        keys_of(swapped(s, i, j)) == swapped(keys_of(s), i, j),
        keys_of(swapped(s, i, j)).no_duplicates(),
        forall|x: u64|
            #![trigger keys_of(swapped(s, i, j)).contains(x)]
            #![trigger keys_of(s).contains(x)]
            keys_of(swapped(s, i, j)).contains(x) <==> keys_of(s).contains(x),
{
    if 0 <= i < s.len() && 0 <= j < s.len() {
        let keys = keys_of(s);
        let t = swapped(keys, i, j);
        assert(keys_of(swapped(s, i, j)) =~= t);
        assert forall|a: int, b: int| 0 <= a < t.len() && 0 <= b < t.len() && a != b implies t[a]
            != t[b] by {
            let a0 = if a == i { j } else if a == j { i } else { a };
            let b0 = if b == i { j } else if b == j { i } else { b };
            assert(t[a] == keys[a0] && t[b] == keys[b0]);
        }
        assert forall|x: u64| t.contains(x) <==> keys.contains(x) by {
            if t.contains(x) {
                let a = t.index_of(x);
                let a0 = if a == i { j } else if a == j { i } else { a };
                assert(keys[a0] == x);
            }
            if keys.contains(x) {
                let a0 = keys.index_of(x);
                let a = if a0 == i { j } else if a0 == j { i } else { a0 };
                assert(t[a] == x);
            }
        }
    }
}

/// What a commit hands to the native side: the calls on the child container,
/// and the elements whose view is then brought up to date, in order.
#[derive(Debug)]
pub struct CommitPlan {
    pub changes: Vec<NativeCall>,
    pub updates: Vec<DynamicIndex>,
}

/// An ordered collection of child components, the changes queued since the
/// last commit, and the order in which the native container shows the children.
#[derive(Debug)]
pub struct FactoryCollection<T> {
    elements: Vec<FactoryElement<T>>,
    rendered: Vec<u64>,
    next_key: u64,
    queued: Vec<Change>,
}

impl<T> FactoryCollection<T> {
    /// The elements in their logical order.
    pub closed spec fn elements(&self) -> Seq<FactoryElement<T>> {
        self.elements@
    }

    /// The keys of the native container's children, in its order.
    pub closed spec fn rendered(&self) -> Seq<u64> {
        self.rendered@
    }

    /// The key that the next new element gets.
    pub closed spec fn next_key(&self) -> int {
        self.next_key as int
    }

    /// The changes queued since the last commit.
    pub closed spec fn queued(&self) -> Seq<Change> {
        self.queued@
    }

    /// The keys of the elements in their logical order.
    pub open spec fn keys(&self) -> Seq<u64> {
        keys_of(self.elements())
    }

    /// The logical state: the elements and the next key.
    pub open spec fn logical(&self) -> Logical<T> {
        Logical { elements: self.elements(), next_key: self.next_key() }
    }

    /// No change is queued.
    pub open spec fn stable(&self) -> bool {
        self.queued().len() == 0
    }

    /// No key occurs twice, in the logical order or in the native container,
    /// every key in use is below the next one, and a stable collection is shown
    /// by the native container as it is.
    pub open spec fn wf(&self) -> bool {
        &&& self.keys().no_duplicates()
        &&& self.rendered().no_duplicates()
        &&& 0 <= self.next_key() <= u64::MAX
        &&& below(self.keys(), self.next_key())
        &&& below(self.rendered(), self.next_key())
        &&& self.stable() ==> self.rendered() == self.keys()
    }

    /// `self` is `before` in every part.
    pub open spec fn same_as(&self, before: Self) -> bool {
        &&& self.elements() == before.elements()
        &&& self.rendered() == before.rendered()
        &&& self.next_key() == before.next_key()
        &&& self.queued() == before.queued()
    }

    /// `self` is `before` after `op`: the logical order has changed at once,
    /// the change is queued, and the native container is untouched.
    pub open spec fn applied(&self, before: Self, op: Operation<T>) -> bool {
        &&& self.wf()
        &&& self.logical() == advance(before.logical(), op)
        &&& self.rendered() == before.rendered()
        &&& self.queued() == match change_of(
            before.elements(),
            op,
            before.next_key() as u64,
        ) {
            Some(change) => before.queued().push(change),
            None => before.queued(),
        }
    }

    /// `self` is committed, and `plan` is what takes a native container that
    /// shows `shown` to it: the native container then shows the elements in
    /// their logical order, one child for each, and the plan holds the calls
    /// that bring it there and names every element for the update of its view.
    pub open spec fn shows(&self, shown: Seq<u64>, plan: CommitPlan) -> bool {
        &&& self.wf()
        &&& self.stable()
        &&& self.rendered() == self.keys()
        &&& self.rendered().len() == self.elements().len()
        &&& plan.changes@ == calls_for(shown, self.keys())
        &&& reconciles(shown, self.keys(), plan.changes@)
        &&& plan.updates@ == indices_of(self.elements())
    }

    /// An empty, stable collection.
    pub fn new() -> (collection: Self)
        ensures
            collection.wf(),
            collection.stable(),
            collection.elements().len() == 0,
            collection.rendered().len() == 0,
            collection.next_key() == 0,
    {
        let collection = FactoryCollection {
            elements: Vec::new(),
            rendered: Vec::new(),
            next_key: 0,
            queued: Vec::new(),
        };
        assert(collection.rendered@ =~= keys_of(collection.elements@));
        collection
    }

    /// The number of elements.
    pub fn len(&self) -> (len: usize)
        ensures
            len == self.elements().len(),
    {
        self.elements.len()
    }

    /// Whether the collection has no element.
    pub fn is_empty(&self) -> (empty: bool)
        ensures
            empty == (self.elements().len() == 0),
    {
        self.elements.len() == 0
    }

    /// Whether no change is queued.
    pub fn is_stable(&self) -> (stable: bool)
        ensures
            stable == self.stable(),
    {
        self.queued.len() == 0
    }

    /// The number of changes queued since the last commit.
    pub fn pending(&self) -> (pending: usize)
        ensures
            pending == self.queued().len(),
    {
        self.queued.len()
    }

    /// The element at `position` in the logical order.
    pub fn get(&self, position: usize) -> (element: Option<&FactoryElement<T>>)
        ensures
            position < self.elements().len() ==> element == Some(
                &self.elements()[position as int],
            ),
            position >= self.elements().len() ==> element is None,
    {
        if position < self.elements.len() {
            Some(&self.elements[position])
        } else {
            None
        }
    }

    /// The identity of the element at `position` in the logical order.
    pub fn index_at(&self, position: usize) -> (index: Option<DynamicIndex>)
        ensures
            position < self.elements().len() ==> index == Some(
                self.elements()[position as int].index,
            ),
            position >= self.elements().len() ==> index is None,
    {
        if position < self.elements.len() {
            Some(self.elements[position].index)
        } else {
            None
        }
    }

    /// The position that `index` has had since the last commit; `None` for an
    /// element that the native container does not show: one that was removed,
    /// or one that no commit has shown yet.
    pub fn current_index(&self, index: &DynamicIndex) -> (position: Option<usize>)
        requires
            self.wf(),
        ensures
            match position {
                Some(p) => place(self.rendered(), index.key) == Some(p as int),
                None => place(self.rendered(), index.key) is None,
            },
    {
        let found = find(&self.rendered, index.key);
        proof {
            if let Some(p) = found {
                lemma_index_of_unique(self.rendered@, p as int);
            }
        }
        found
    }

    /// Puts a new element at `at`, which is in range.
    fn insert_at(&mut self, at: usize, value: T) -> (index: DynamicIndex)
        requires
            old(self).wf(),
            old(self).next_key() < u64::MAX,
            at <= old(self).elements().len(),
        ensures
            final(self).wf(),
            index.key == old(self).next_key(),
            final(self).elements() == old(self).elements().insert(
                at as int,
                FactoryElement { index, value },
            ),
            final(self).next_key() == old(self).next_key() + 1,
            final(self).rendered() == old(self).rendered(),
            final(self).queued() == old(self).queued().push(Change::Inserted(index)),
    {
        let key: u64 = self.next_key;
        let index = DynamicIndex { key };
        proof {
            let e = FactoryElement { index, value };
            let keys = keys_of(self.elements@);
            assert(!keys.contains(key));
            lemma_keys_insert(self.elements@, at as int, e);
            lemma_insert_facts(keys, at as int, key);
        }
        self.elements.insert(at, FactoryElement { index, value });
        self.next_key = key + 1;
        self.queued.push(Change::Inserted(index));
        index
    }

    /// Takes out the element at `at`, which is in range.
    fn take_at(&mut self, at: usize) -> (value: T)
        requires
            old(self).wf(),
            at < old(self).elements().len(),
        ensures
            final(self).wf(),
            value == old(self).elements()[at as int].value,
            final(self).elements() == old(self).elements().remove(at as int),
            final(self).next_key() == old(self).next_key(),
            final(self).rendered() == old(self).rendered(),
            final(self).queued() == old(self).queued().push(
                Change::Removed(old(self).elements()[at as int].index),
            ),
    {
        proof {
            let keys = keys_of(self.elements@);
            lemma_keys_remove(self.elements@, at as int);
            lemma_remove_facts(keys, at as int);
            assert(keys.contains(keys[at as int]));
        }
        let element = self.elements.remove(at);
        self.queued.push(Change::Removed(element.index));
        element.value
    }

    /// Moves the element at `from` to `to`, both in range.
    fn shift(&mut self, from: usize, to: usize)
        requires
            old(self).wf(),
            from < old(self).elements().len(),
            to < old(self).elements().len(),
        ensures
            final(self).wf(),
            final(self).elements() == moved(old(self).elements(), from as int, to as int),
            final(self).next_key() == old(self).next_key(),
            final(self).rendered() == old(self).rendered(),
            final(self).queued() == old(self).queued().push(
                Change::Moved(old(self).elements()[from as int].index),
            ),
    {
        proof {
            lemma_moved_keys(self.elements@, from as int, to as int);
        }
        let element = self.elements.remove(from);
        let index = element.index;
        self.elements.insert(to, element);
        self.queued.push(Change::Moved(index));
    }

    /// Puts a new element with the model state `value` at the end.
    pub fn push_back(&mut self, value: T) -> (index: DynamicIndex)
        requires
            old(self).wf(),
            old(self).next_key() < u64::MAX,
        ensures
            final(self).applied(*old(self), Operation::PushBack(value)),
            index.key == old(self).next_key(),
    {
        let at: usize = self.elements.len();
        let index = self.insert_at(at, value);
        proof {
            let e = FactoryElement { index, value };
            assert(old(self).elements().insert(at as int, e) =~= old(self).elements().push(e));
        }
        index
    }

    /// Puts a new element with the model state `value` at the front.
    pub fn push_front(&mut self, value: T) -> (index: DynamicIndex)
        requires
            old(self).wf(),
            old(self).next_key() < u64::MAX,
        ensures
            final(self).applied(*old(self), Operation::PushFront(value)),
            index.key == old(self).next_key(),
    {
        self.insert_at(0, value)
    }

    /// Puts a new element with the model state `value` at `at`. With `at`
    /// beyond the end nothing changes, and the result is `None`.
    pub fn insert(&mut self, at: usize, value: T) -> (index: Option<DynamicIndex>)
        requires
            old(self).wf(),
            old(self).next_key() < u64::MAX,
        ensures
            final(self).applied(*old(self), Operation::Insert(at, value)),
            at <= old(self).elements().len() ==> index == Some(
                DynamicIndex { key: old(self).next_key() as u64 },
            ),
            at > old(self).elements().len() ==> index is None,
    {
        if at <= self.elements.len() {
            Some(self.insert_at(at, value))
        } else {
            None
        }
    }

    /// Takes out the element at `at` and returns its model state. With `at`
    /// out of range nothing changes, and the result is `None`.
    pub fn remove(&mut self, at: usize) -> (value: Option<T>)
        requires
            old(self).wf(),
        ensures
            final(self).applied(*old(self), Operation::RemoveAt(at)),
            at < old(self).elements().len() ==> value == Some(
                old(self).elements()[at as int].value,
            ),
            at >= old(self).elements().len() ==> value is None,
    {
        if at < self.elements.len() {
            Some(self.take_at(at))
        } else {
            None
        }
    }

    /// Takes out the last element and returns its model state; `None` where
    /// the collection is empty.
    pub fn pop_back(&mut self) -> (value: Option<T>)
        requires
            old(self).wf(),
        ensures
            final(self).applied(*old(self), Operation::PopBack),
            old(self).elements().len() > 0 ==> value == Some(old(self).elements().last().value),
            old(self).elements().len() == 0 ==> value is None,
    {
        let len: usize = self.elements.len();
        if len > 0 {
            let value = self.take_at(len - 1);
            assert(old(self).elements().remove(len - 1) =~= old(self).elements().drop_last());
            Some(value)
        } else {
            None
        }
    }

    /// Takes out the first element and returns its model state; `None` where
    /// the collection is empty.
    pub fn pop_front(&mut self) -> (value: Option<T>)
        requires
            old(self).wf(),
        ensures
            final(self).applied(*old(self), Operation::PopFront),
            old(self).elements().len() > 0 ==> value == Some(old(self).elements().first().value),
            old(self).elements().len() == 0 ==> value is None,
    {
        if self.elements.len() > 0 {
            let value = self.take_at(0);
            assert(old(self).elements().remove(0) =~= old(self).elements().drop_first());
            Some(value)
        } else {
            None
        }
    }

    /// Takes out every element.
    pub fn clear(&mut self)
        requires
            old(self).wf(),
        ensures
            final(self).applied(*old(self), Operation::Clear),
    {
        self.elements.clear();
        self.queued.push(Change::Cleared);
        proof {
            assert(self.elements@ =~= Seq::empty());
            assert(keys_of(self.elements@) =~= Seq::empty());
        }
    }

    /// Moves the element at `from` to `to`. With either out of range nothing
    /// changes.
    pub fn move_to(&mut self, from: usize, to: usize)
        requires
            old(self).wf(),
        ensures
            final(self).applied(*old(self), Operation::MoveTo(from, to)),
    {
        if from < self.elements.len() && to < self.elements.len() {
            self.shift(from, to);
        }
    }

    /// Moves the element at `from` to the front. With `from` out of range
    /// nothing changes.
    pub fn move_front(&mut self, from: usize)
        requires
            old(self).wf(),
        ensures
            final(self).applied(*old(self), Operation::MoveFront(from)),
    {
        if from < self.elements.len() {
            self.shift(from, 0);
        }
    }

    /// Moves the element at `from` to the end. With `from` out of range
    /// nothing changes.
    pub fn move_back(&mut self, from: usize)
        requires
            old(self).wf(),
        ensures
            final(self).applied(*old(self), Operation::MoveBack(from)),
    {
        let len: usize = self.elements.len();
        if from < len {
            self.shift(from, len - 1);
        }
    }

    /// Exchanges the elements at `i` and `j`. With either out of range nothing
    /// changes.
    pub fn swap(&mut self, i: usize, j: usize)
        requires
            old(self).wf(),
        ensures
            final(self).applied(*old(self), Operation::Swap(i, j)),
    {
        let len: usize = self.elements.len();
        if i < len && j < len {
            let ghost before = self.elements@;
            proof {
                lemma_swapped_keys(before, i as int, j as int);
            }
            let first = self.elements[i].index;
            let second = self.elements[j].index;
            if i != j {
                let low: usize = if i < j { i } else { j };
                let high: usize = if i < j { j } else { i };
                let upper = self.elements.remove(high);
                let lower = self.elements.remove(low);
                self.elements.insert(low, upper);
                self.elements.insert(high, lower);
            }
            assert(self.elements@ =~= swapped(before, i as int, j as int));
            self.queued.push(Change::Swapped(first, second));
        }
    }

    /// Moves the element at `position` one place towards the front. The first
    /// element stays where it is, and with `position` out of range nothing
    /// changes.
    pub fn move_up(&mut self, position: usize)
        requires
            old(self).wf(),
        ensures
            final(self).wf(),
            position == 0 ==> final(self).same_as(*old(self)),
            position > 0 ==> final(self).applied(
                *old(self),
                Operation::MoveTo(position, (position - 1) as usize),
            ),
    {
        if position != 0 {
            self.move_to(position, position - 1);
        }
    }

    /// Moves the element at `position` one place towards the end. The last
    /// element stays where it is, and with `position` out of range nothing
    /// changes.
    pub fn move_down(&mut self, position: usize)
        requires
            old(self).wf(),
        ensures
            final(self).wf(),
            position + 1 >= old(self).elements().len() ==> final(self).same_as(*old(self)),
            position + 1 < old(self).elements().len() ==> final(self).applied(
                *old(self),
                Operation::MoveTo(position, (position + 1) as usize),
            ),
    {
        let len: usize = self.elements.len();
        if position < len && position + 1 < len {
            self.move_to(position, position + 1);
        }
    }

    /// Applies `op` to the logical order and queues the change. What the
    /// operation takes out is dropped.
    pub fn apply(&mut self, op: Operation<T>)
        requires
            old(self).wf(),
            inserts(old(self).elements().len(), op) ==> old(self).next_key() < u64::MAX,
        ensures
            final(self).applied(*old(self), op),
    {
        match op {
            Operation::PushBack(value) => {
                let _ = self.push_back(value);
            },
            Operation::PushFront(value) => {
                let _ = self.push_front(value);
            },
            Operation::Insert(at, value) => {
                if at <= self.elements.len() {
                    let _ = self.insert_at(at, value);
                }
            },
            Operation::RemoveAt(at) => {
                let _ = self.remove(at);
            },
            Operation::PopBack => {
                let _ = self.pop_back();
            },
            Operation::PopFront => {
                let _ = self.pop_front();
            },
            Operation::Clear => {
                self.clear();
            },
            Operation::MoveTo(from, to) => {
                self.move_to(from, to);
            },
            Operation::MoveFront(from) => {
                self.move_front(from);
            },
            Operation::MoveBack(from) => {
                self.move_back(from);
            },
            Operation::Swap(i, j) => {
                self.swap(i, j);
            },
        }
    }

    /// Ends a batch: brings the native container to the logical order, which
    /// makes every remaining identity resolve to its new position and every
    /// removed one to none, and empties the queue. The plan holds the calls for
    /// the native side and, after them, every remaining element, whose view is
    /// then brought up to date.
    pub fn commit(&mut self) -> (plan: CommitPlan)
        requires
            old(self).wf(),
        ensures
            final(self).logical() == old(self).logical(),
            final(self).shows(old(self).rendered(), plan),
    {
        let mut target: Vec<u64> = Vec::new();
        let mut updates: Vec<DynamicIndex> = Vec::new();
        let mut i: usize = 0;
        while i < self.elements.len()
            invariant
                i <= self.elements.len(),
                target.len() == i,
                updates.len() == i,
                forall|k: int| 0 <= k < i ==> target[k] == self.elements[k].index.key,
                forall|k: int| 0 <= k < i ==> updates[k] == self.elements[k].index,
            decreases self.elements.len() - i,
        {
            target.push(self.elements[i].index.key);
            updates.push(self.elements[i].index);
            i += 1;
        }
        assert(target@ =~= keys_of(self.elements@));
        assert(updates@ =~= indices_of(self.elements@));
        let changes = reconcile(&mut self.rendered, &target);
        self.queued.clear();
        CommitPlan { changes, updates }
    }

    /// Applies `ops` in order, each to what the ones before it left, and
    /// commits once at the end.
    pub fn run_batch(&mut self, ops: Vec<Operation<T>>) -> (plan: CommitPlan)
        requires
            old(self).wf(),
            old(self).next_key() + ops.len() <= u64::MAX,
        ensures
            final(self).logical() == advance_all(old(self).logical(), ops@),
            final(self).shows(old(self).rendered(), plan),
    {
        let mut rest = ops;
        while rest.len() > 0
            invariant
                self.wf(),
                self.next_key() + rest.len() <= u64::MAX,
                self.rendered() == old(self).rendered(),
                advance_all(self.logical(), rest@) == advance_all(old(self).logical(), ops@),
            decreases rest.len(),
        {
            let ghost pending = rest@;
            let ghost state = self.logical();
            let op = rest.remove(0);
            assert(rest@ =~= pending.drop_first());
            self.apply(op);
            assert(self.logical() == advance(state, pending.first()));
        }
        self.commit()
    }
}

/// An operation brings in no key but the new one.
pub proof fn lemma_step_keys<T>(s: Seq<FactoryElement<T>>, op: Operation<T>, fresh: u64)
    requires
        keys_of(s).no_duplicates(),
        !keys_of(s).contains(fresh),
    ensures
        forall|x: u64|
            keys_of(step(s, op, fresh)).contains(x) ==> x == fresh || keys_of(s).contains(x),
{
    let keys = keys_of(s);
    match op {
        Operation::PushBack(value) => {
            let e = FactoryElement { index: DynamicIndex { key: fresh }, value };
            assert(s.push(e) =~= s.insert(s.len() as int, e));
            lemma_keys_insert(s, s.len() as int, e);
            lemma_insert_facts(keys, s.len() as int, fresh);
        },
        Operation::PushFront(value) => {
            let e = FactoryElement { index: DynamicIndex { key: fresh }, value };
            lemma_keys_insert(s, 0, e);
            lemma_insert_facts(keys, 0, fresh);
        },
        Operation::Insert(at, value) => {
            if at <= s.len() {
                let e = FactoryElement { index: DynamicIndex { key: fresh }, value };
                lemma_keys_insert(s, at as int, e);
                lemma_insert_facts(keys, at as int, fresh);
            }
        },
        Operation::RemoveAt(at) => {
            if at < s.len() {
                lemma_keys_remove(s, at as int);
                lemma_remove_facts(keys, at as int);
            }
        },
        Operation::PopBack => {
            if s.len() > 0 {
                assert(s.drop_last() =~= s.remove(s.len() - 1));
                lemma_keys_remove(s, s.len() - 1);
                lemma_remove_facts(keys, s.len() - 1);
            }
        },
        Operation::PopFront => {
            if s.len() > 0 {
                assert(s.drop_first() =~= s.remove(0));
                lemma_keys_remove(s, 0);
                lemma_remove_facts(keys, 0);
            }
        },
        Operation::Clear => {
            assert(keys_of(Seq::<FactoryElement<T>>::empty()) =~= Seq::<u64>::empty());
        },
        Operation::MoveTo(from, to) => {
            lemma_moved_keys(s, from as int, to as int);
        },
        Operation::MoveFront(from) => {
            lemma_moved_keys(s, from as int, 0);
        },
        Operation::MoveBack(from) => {
            lemma_moved_keys(s, from as int, s.len() - 1);
        },
        Operation::Swap(i, j) => {
            lemma_swapped_keys(s, i as int, j as int);
        },
    }
}

/// A removed identity stays unresolved. A key below the next one that no
/// element has is the key of a removed element. No operation gives it to an
/// element again, so that after the next commit, and after every later one, it
/// resolves to no position.
pub proof fn law_removed_stays_removed<T>(
    before: FactoryCollection<T>,
    after: FactoryCollection<T>,
    op: Operation<T>,
    key: u64,
)
    requires
        before.wf(),
        after.applied(before, op),
        key < before.next_key(),
        !before.keys().contains(key),
    ensures
        key < after.next_key(),
        !after.keys().contains(key),
{
    lemma_step_keys(before.elements(), op, before.next_key() as u64);
}

/// Identity stability. In a collection of at least two elements with distinct
/// keys, after the first element has moved to the end and the change is
/// committed, its key resolves to the last position and every other key to one
/// position less than before.
pub proof fn law_identity_stability<T>(s: Seq<FactoryElement<T>>, n: usize, key: u64, k: int)
    requires
        keys_of(s).no_duplicates(),
        s.len() == n,
        n >= 2,
        0 <= k < n,
    ensures
        ({
            let after = keys_of(step(s, Operation::MoveTo(0, (n - 1) as usize), key));
            &&& after.no_duplicates()
            &&& k == 0 ==> place(after, s[k].index.key) == Some(n - 1)
            &&& k > 0 ==> place(after, s[k].index.key) == Some(k - 1)
        }),
{
    let keys = keys_of(s);
    let after = keys_of(step(s, Operation::MoveTo(0, (n - 1) as usize), key));
    lemma_moved_keys(s, 0, n - 1);
    lemma_remove_facts(keys, 0);
    lemma_insert_facts(keys.remove(0), n - 1, keys[0]);
    if k == 0 {
        assert(after[n - 1] == keys[0]);
        lemma_index_of_unique(after, n - 1);
    } else {
        assert(after[k - 1] == keys[k]);
        lemma_index_of_unique(after, k - 1);
    }
}

} // verus!
