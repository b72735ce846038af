use std::collections::vec_deque::Iter;
use std::collections::VecDeque;
use std::ops::Range;
use vstd::prelude::*;
use vstd::std_specs::iter::IteratorSpec;

verus! {

broadcast use vstd::std_specs::vecdeque::group_vec_dequeue_axioms;

/// A FIFO queue that keeps at most `capacity` items: pushing onto a full
/// queue first drops the oldest item.
pub struct BoundedQueue<T> {
    queue: VecDeque<T>,
    capacity: usize,
}

/// The items of a queue of capacity `capacity` after `value` is pushed onto
/// a queue holding `items`: when the queue is full the oldest item leaves.
pub open spec fn pushed<T>(items: Seq<T>, capacity: nat, value: T) -> Seq<T> {
    if items.len() == capacity && items.len() > 0 {
        items.drop_first().push(value)
    } else {
        items.push(value)
    }
}

/// The items after pushing every value of `values`, first to last.
pub open spec fn pushed_all<T>(items: Seq<T>, capacity: nat, values: Seq<T>) -> Seq<T>
    decreases values.len(),
{
    if values.len() == 0 {
        items
    } else {
        pushed(pushed_all(items, capacity, values.drop_last()), capacity, values.last())
    }
}

/// The last `n` items of `s` (all of `s` when it holds fewer).
pub open spec fn newest<T>(s: Seq<T>, n: nat) -> Seq<T> {
    if s.len() <= n {
        s
    } else {
        s.skip(s.len() - n)
    }
}

impl<T> View for BoundedQueue<T> {
    type V = Seq<T>;

    /// The items, oldest first.
    closed spec fn view(&self) -> Seq<T> {
        self.queue@
    }
}

impl<T> BoundedQueue<T> {
    /// The number of items the queue keeps.
    pub closed spec fn capacity(&self) -> nat {
        self.capacity as nat
    }

    /// A queue with a positive capacity never holds more items than it.
    pub open spec fn wf(&self) -> bool {
        self.capacity() > 0 ==> self@.len() <= self.capacity()
    }

    /// An empty queue that keeps at most `capacity` items.
    pub fn new(capacity: usize) -> (r: BoundedQueue<T>)
        ensures
            r@ == Seq::<T>::empty(),
            r.capacity() == capacity,
            r.wf(),
    {
        BoundedQueue { queue: VecDeque::new(), capacity }
    }

    /// Appends `value` at the back; when the queue is full, the item at the
    /// front is dropped first.
    pub fn push(&mut self, value: T)
        requires
            old(self).wf(),
        ensures
            final(self)@ == pushed(old(self)@, old(self).capacity(), value),
            final(self).capacity() == old(self).capacity(),
            final(self).wf(),
    {
        if self.is_full() {
            self.queue.pop_front();
        }
        self.queue.push_back(value);
    }

    /// Removes the items at the positions in `range` and returns them in
    /// order; the items before and after the range stay, in order.
    pub fn drain(&mut self, range: Range<usize>) -> (r: Vec<T>)
        requires
            old(self).wf(),
            range.start <= range.end <= old(self)@.len(),
        ensures
            r@ == old(self)@.subrange(range.start as int, range.end as int),
            final(self)@ == old(self)@.subrange(0, range.start as int) + old(self)@.subrange(
                range.end as int,
                old(self)@.len() as int,
            ),
            final(self).capacity() == old(self).capacity(),
            final(self).wf(),
    {
        let ghost before = self.queue@;
        let mut rest = self.queue.split_off(range.start);
        let mut taken: Vec<T> = Vec::new();
        let count = range.end - range.start;
        let mut i: usize = 0;
        while i < count
            invariant
                i <= count,
                count == range.end - range.start,
                range.start <= range.end <= before.len(),
                taken@ == before.subrange(range.start as int, range.start + i),
                rest@ == before.subrange(range.start + i, before.len() as int),
            decreases count - i,
        {
            let item = rest.pop_front();
            match item {
                Some(x) => {
                    taken.push(x);
                },
                None => {},
            }
            i = i + 1;
        }
        self.queue.append(&mut rest);
        taken
    }

    /// The items, oldest first.
    pub fn iter(&self) -> (r: Iter<'_, T>)
        ensures
            r.remaining() == self@.as_ref(),
    {
        self.queue.iter()
    }

    /// The number of items held.
    pub(crate) fn len(&self) -> (r: usize)
        ensures
            r == self@.len(),
    {
        self.queue.len()
    }

    /// The item at position `i`, counted from the oldest.
    pub(crate) fn get(&self, i: usize) -> (r: &T)
        requires
            i < self@.len(),
        ensures
            *r == self@[i as int],
    {
        &self.queue[i]
    }

    fn is_full(&self) -> (r: bool)
        ensures
            r == (self@.len() == self.capacity()),
    {
        self.capacity == self.queue.len()
    }
}

/// Pushing onto a well-formed queue gives back a well-formed queue.
pub proof fn lemma_pushed_keeps_bound<T>(items: Seq<T>, capacity: nat, value: T)
    requires
        capacity > 0 ==> items.len() <= capacity,
    ensures
        capacity > 0 ==> pushed(items, capacity, value).len() <= capacity,
{
}

/// A queue of positive capacity holds, after any sequence of pushes, exactly
/// the newest `capacity` items of what it held followed by what was pushed,
/// oldest first.
pub proof fn lemma_pushed_all_keeps_newest<T>(items: Seq<T>, capacity: nat, values: Seq<T>)
    requires
        capacity > 0,
        items.len() <= capacity,
    ensures
        pushed_all(items, capacity, values) == newest(items + values, capacity),
    decreases values.len(),
{
    if values.len() > 0 {
        let init = values.drop_last();
        let x = values.last();
        lemma_pushed_all_keeps_newest(items, capacity, init);
        let t = items + init;
        assert(items + values == t.push(x)) by {
            assert(values == init.push(x));
        }
        let prev = newest(t, capacity);
        if t.len() >= capacity {
            assert(prev.drop_first() =~= t.skip(t.len() - capacity + 1));
            assert(prev.drop_first().push(x) =~= t.push(x).skip(t.len() + 1 - capacity));
        } else {
            assert(t.push(x).len() <= capacity);
        }
    }
}

/// Starting from an empty queue of positive capacity, the queue holds the
/// last `capacity` values pushed (all of them when fewer were pushed).
pub proof fn lemma_keeps_last_pushed<T>(capacity: nat, values: Seq<T>)
    requires
        capacity > 0,
    ensures
        pushed_all(Seq::<T>::empty(), capacity, values) == newest(values, capacity),
        pushed_all(Seq::<T>::empty(), capacity, values).len() <= capacity,
{
    lemma_pushed_all_keeps_newest(Seq::<T>::empty(), capacity, values);
    assert(Seq::<T>::empty() + values =~= values);
}

} // verus!
