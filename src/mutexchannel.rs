//! A first-in first-out message queue, held by one owner.
use vstd::prelude::*;
use std::collections::VecDeque;

verus! {

/// Messages in the order they were sent.
pub struct MutexChannel<T> {
    queue: VecDeque<T>,
}

impl<T> View for MutexChannel<T> {
    type V = Seq<T>;

    closed spec fn view(&self) -> Seq<T> {
        self.queue@
    }
}

impl<T> MutexChannel<T> {
    /// A channel with no messages.
    pub fn new() -> (r: Self)
        ensures
            r@ == Seq::<T>::empty(),
    {
        MutexChannel { queue: VecDeque::new() }
    }

    /// Puts `message` at the back of the queue.
    pub fn send(&mut self, message: T)
        ensures
            final(self)@ == old(self)@.push(message),
    {
        self.queue.push_back(message);
    }

    /// Takes the message at the front of the queue. A receiver waits until
    /// a message is there, so the queue must hold one.
    pub fn receive(&mut self) -> (r: T)
        requires
            old(self)@.len() > 0,
        ensures
            r == old(self)@[0],
            final(self)@ == old(self)@.drop_first(),
    {
        let message = self.queue.pop_front().unwrap();
        assert(self@ =~= old(self)@.drop_first());
        message
    }

    /// Number of messages waiting.
    pub fn len(&self) -> (r: usize)
        ensures
            r == self@.len(),
    {
        self.queue.len()
    }
}

} // verus!
