//! A channel that carries a single message, held by one owner.
use vstd::prelude::*;

verus! {

/// The state of a one-shot channel.
pub struct OneshotView<T> {
    /// The message sent and not yet received.
    pub message: Option<T>,
    /// Whether a message was ever sent.
    pub in_use: bool,
}

/// Holds at most one message; a second send is refused.
pub struct OneshotChannel<T> {
    message: Option<T>,
    ready: bool,
    in_use: bool,
}

impl<T> View for OneshotChannel<T> {
    type V = OneshotView<T>;

    closed spec fn view(&self) -> OneshotView<T> {
        OneshotView { message: self.message, in_use: self.in_use }
    }
}

impl<T> OneshotChannel<T> {
    /// The channel's fields agree: it is ready exactly when it holds a
    /// message, and a message is only there after a send.
    pub closed spec fn wf(&self) -> bool {
        &&& (self.ready <==> self.message is Some)
        &&& (self.ready ==> self.in_use)
    }

    /// A channel that has carried nothing.
    pub fn new() -> (r: Self)
        ensures
            r.wf(),
            r@ == (OneshotView::<T> { message: None, in_use: false }),
    {
        OneshotChannel { message: None, ready: false, in_use: false }
    }

    /// Stores `message`. Only one message may ever be sent.
    pub fn send(&mut self, message: T)
        requires
            old(self).wf(),
            !old(self)@.in_use,
        ensures
            final(self).wf(),
            final(self)@ == (OneshotView { message: Some(message), in_use: true }),
    {
        self.in_use = true;
        self.message = Some(message);
        self.ready = true;
    }

    /// Whether a message is waiting.
    pub fn is_ready(&self) -> (r: bool)
        requires
            self.wf(),
        ensures
            r == self@.message is Some,
    {
        self.ready
    }

    /// Whether a message was ever sent.
    pub fn in_use(&self) -> (r: bool)
        ensures
            r == self@.in_use,
    {
        self.in_use
    }

    /// Takes the waiting message; one must be there.
    pub fn receive(&mut self) -> (r: T)
        requires
            old(self).wf(),
            old(self)@.message is Some,
        ensures
            final(self).wf(),
            Some(r) == old(self)@.message,
            final(self)@ == (OneshotView::<T> { message: None, in_use: true }),
    {
        self.ready = false;
        self.message.take().unwrap()
    }
}

} // verus!
