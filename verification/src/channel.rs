//! State of a channel with a single receiver.
use std::collections::VecDeque;
use vstd::prelude::*;

verus! {

/// The messages of a channel that have been sent and not received yet, oldest first.
pub struct ChannelState<T> {
    queue: VecDeque<T>,
}

impl<T> ChannelState<T> {
    /// The messages that wait to be received, oldest first.
    pub closed spec fn queue(&self) -> Seq<T> {
        self.queue@
    }

    /// Creates the state of a channel without messages.
    pub fn new() -> (r: Self)
        ensures
            r.queue() == Seq::<T>::empty(),
    {
        Self { queue: VecDeque::new() }
    }

    /// Sends a message: it is received after all messages sent before it. The receiver waiting
    /// for a message is then to be woken up.
    pub fn send(&mut self, message: T)
        ensures
            final(self).queue() == old(self).queue().push(message),
    {
        self.queue.push_back(message);
    }

    /// Receives the oldest message, or `None` if there is none; the receiver then waits until a
    /// message is sent.
    pub fn poll_receive(&mut self) -> (r: Option<T>)
        ensures
            old(self).queue().len() == 0 ==> r is None && final(self).queue() == old(self).queue(),
            old(self).queue().len() > 0 ==> r == Some(old(self).queue()[0]) && final(self).queue()
                == old(self).queue().drop_first(),
    {
        let r = self.queue.pop_front();
        proof {
            if old(self).queue@.len() > 0 {
                assert(self.queue@ =~= old(self).queue@.drop_first());
            }
        }
        r
    }
}

} // verus!
