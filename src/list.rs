use std::collections::VecDeque;
use vstd::prelude::*;

verus! {

/// A deque that `push` keeps at `max` items by dropping the oldest.
pub struct VecDequeMax<T> {
    ls: VecDeque<T>,
    max: usize,
}

impl<T> View for VecDequeMax<T> {
    type V = Seq<T>;

    closed spec fn view(&self) -> Seq<T> {
        self.ls@
    }
}

impl<T> VecDequeMax<T> {
    /// The bound that `push` keeps.
    pub closed spec fn max(&self) -> nat {
        self.max as nat
    }

    /// An empty deque bounded by `max`, or by 20 when `max` is 0.
    pub fn new(max: usize) -> (r: Self)
        ensures
            r@ == Seq::<T>::empty(),
            r.max() == if max == 0 {
                20
            } else {
                max as nat
            },
    {
        let m = if max == 0 {
            20
        } else {
            max
        };
        VecDequeMax { ls: VecDeque::new(), max: m }
    }

    pub fn len(&self) -> (r: usize)
        ensures
            r == self@.len(),
    {
        self.ls.len()
    }

    /// Appends `d`; when that makes the deque longer than its bound, the
    /// oldest item is dropped.
    pub fn push(&mut self, d: T)
        requires
            old(self)@.len() < usize::MAX,
        ensures
            final(self).max() == old(self).max(),
            old(self)@.len() + 1 <= old(self).max() ==> final(self)@ == old(self)@.push(d),
            old(self)@.len() + 1 > old(self).max() ==> final(self)@ == old(self)@.push(d).drop_first(),
    {
        self.ls.push_back(d);
        if self.ls.len() > self.max {
            let ghost pushed = self@;
            let _ = self.ls.pop_front();
            assert(self@ =~= pushed.drop_first());
        }
    }

    /// Puts `d` in front, whatever the bound.
    pub fn pushf(&mut self, d: T)
        ensures
            final(self).max() == old(self).max(),
            final(self)@ == seq![d] + old(self)@,
    {
        self.ls.push_front(d);
        assert(self@ =~= seq![d] + old(self)@);
    }

    /// Removes and returns the oldest item.
    pub fn pop(&mut self) -> (r: Option<T>)
        ensures
            final(self).max() == old(self).max(),
            old(self)@.len() == 0 ==> r is None && final(self)@ == old(self)@,
            old(self)@.len() > 0 ==> r == Some(old(self)@[0]) && final(self)@ == old(self)@.drop_first(),
    {
        let r = self.ls.pop_front();
        if r.is_some() {
            assert(self@ =~= old(self)@.drop_first());
        }
        r
    }

    /// The oldest item.
    pub fn front(&self) -> (r: Option<&T>)
        ensures
            self@.len() == 0 ==> r is None,
            self@.len() > 0 ==> r == Some(&self@[0]),
    {
        if self.ls.len() > 0 {
            Some(&self.ls[0])
        } else {
            None
        }
    }
}

} // verus!
