//! A first-in, first-out queue of received bytes that is read one item at a
//! time from its front.
use std::collections::VecDeque;
use vstd::prelude::*;

verus! {

/// A queue that hands out its items from the front.
#[derive(Debug)]
pub struct VecDequeIter<T>(VecDeque<T>);

impl<T> View for VecDequeIter<T> {
    type V = Seq<T>;

    closed spec fn view(&self) -> Seq<T> {
        self.0@
    }
}

impl<T> VecDequeIter<T> {
    /// An empty queue.
    pub fn new() -> (r: VecDequeIter<T>)
        ensures
            r@ == Seq::<T>::empty(),
    {
        VecDequeIter(VecDeque::new())
    }

    /// A queue holding `items`, the first at the front.
    pub fn from_slice(items: &[T]) -> (r: VecDequeIter<T>)
        where
            T: Copy,
        ensures
            r@ == items@,
    {
        let mut q = VecDequeIter::new();
        q.extend(items);
        assert(q@ =~= items@);
        q
    }

    /// Takes the item at the front, if any.
    pub fn next(&mut self) -> (r: Option<T>)
        ensures
            old(self)@.len() == 0 ==> r is None && final(self)@ == old(self)@,
            old(self)@.len() > 0 ==> r == Some(old(self)@[0]) && final(self)@
                == old(self)@.drop_first(),
    {
        self.0.pop_front()
    }

    /// Adds `items` at the back, in order.
    pub fn extend(&mut self, items: &[T])
        where
            T: Copy,
        ensures
            final(self)@ == old(self)@ + items@,
    {
        let mut i: usize = 0;
        while i < items.len()
            invariant
                i <= items@.len(),
                self@ == old(self)@ + items@.take(i as int),
            decreases items@.len() - i,
        {
            self.0.push_back(items[i]);
            proof {
                assert(items@.take(i + 1) =~= items@.take(i as int).push(items@[i as int]));
            }
            i = i + 1;
        }
        assert(items@.take(items@.len() as int) =~= items@);
    }

    /// The number of items in the queue.
    pub fn len(&self) -> (r: usize)
        ensures
            r == self@.len(),
    {
        self.0.len()
    }

    /// Whether the queue is empty.
    pub fn is_empty(&self) -> (r: bool)
        ensures
            r == (self@.len() == 0),
    {
        self.0.len() == 0
    }

    /// Takes every item out of the queue, front first.
    pub fn drain_all(&mut self) -> (r: Vec<T>)
        ensures
            r@ == old(self)@,
            final(self)@ == Seq::<T>::empty(),
    {
        let mut out: Vec<T> = Vec::new();
        while self.0.len() > 0
            invariant
                out@ + self@ == old(self)@,
            decreases self@.len(),
        {
            let ghost before = self@;
            match self.0.pop_front() {
                Some(x) => {
                    out.push(x);
                    proof {
                        assert(out@ + self@ =~= old(self)@) by {
                            assert(before =~= seq![x] + self@);
                        }
                    }
                },
                None => {},
            }
        }
        assert(out@ + self@ =~= out@);
        out
    }
}

} // verus!
