//! State of a publish-subscribe channel.
//!
//! Every published message is kept in a queue together with the number of subscribers that have
//! not read it yet. A message leaves the queue once it is at the front and every subscriber has
//! read it. A subscriber is represented by the ID of the next message it wants to read.
use std::collections::VecDeque;
use vstd::multiset::Multiset;
use vstd::prelude::*;

verus! {

broadcast use {vstd::multiset::group_multiset_axioms, vstd::multiset::group_multiset_properties};

/// The result of reading a message for a subscriber.
pub enum WaitResult<T> {
    /// The subscriber missed the given number of messages, which left the queue before it read
    /// them.
    Lagged(u64),
    /// The next message of the subscriber.
    Message(T),
}

/// The number of subscribers in `subscribers` (by the IDs of their next messages) that still
/// have to read the message with ID `message_id`.
pub open spec fn readers(subscribers: Multiset<u64>, message_id: int) -> nat {
    subscribers.filter(|p: u64| p <= message_id).len()
}

/// The queue after every subscriber with a counter at index `from` or later lost one reader.
pub open spec fn decrement_from<T>(queue: Seq<(T, usize)>, from: int) -> Seq<(T, usize)> {
    Seq::new(
        queue.len(),
        |j: int| if j >= from { (queue[j].0, (queue[j].1 - 1) as usize) } else { queue[j] },
    )
}

/// The queue without the messages at its front that no subscriber has to read any more.
pub open spec fn drop_read_prefix<T>(queue: Seq<(T, usize)>) -> Seq<(T, usize)>
    decreases queue.len(),
{
    if queue.len() > 0 && queue[0].1 == 0 {
        drop_read_prefix(queue.drop_first())
    } else {
        queue
    }
}

/// The state of a publish-subscribe channel.
pub struct PubSubState<T: Clone> {
    queue: VecDeque<(T, usize)>,
    next_message_id: u64,
    subscriber_count: usize,
    subscribers: Ghost<Multiset<u64>>,
}

impl<T: Clone> PubSubState<T> {
    /// The queued messages, each with the number of subscribers that have not read it yet.
    pub closed spec fn queue(&self) -> Seq<(T, usize)> {
        self.queue@
    }

    /// The ID that the next published message receives.
    pub closed spec fn next_message_id(&self) -> u64 {
        self.next_message_id
    }

    /// The number of registered subscribers.
    pub closed spec fn subscriber_count(&self) -> usize {
        self.subscriber_count
    }

    /// The registered subscribers, each by the ID of the next message it reads.
    pub closed spec fn subscribers(&self) -> Multiset<u64> {
        self.subscribers@
    }

    /// The ID of the message at the front of the queue.
    pub open spec fn start_id(&self) -> int {
        self.next_message_id() - self.queue().len()
    }

    /// The counter of every queued message is at least the number of subscribers that still have
    /// to read it, and no subscriber waits for a message that has not been published yet.
    pub open spec fn wf(&self) -> bool {
        &&& self.queue().len() <= self.next_message_id()
        &&& self.subscribers().len() == self.subscriber_count()
        &&& forall|p: u64| #[trigger] self.subscribers().contains(p) ==> p <= self.next_message_id()
        &&& forall|i: int|
            0 <= i < self.queue().len() ==> #[trigger] self.queue()[i].1 >= readers(
                self.subscribers(),
                self.start_id() + i,
            )
    }

    /// Creates the state of a channel without messages and subscribers.
    pub fn new() -> (r: Self)
        ensures
            r.wf(),
            r.queue() == Seq::<(T, usize)>::empty(),
            r.next_message_id() == 0,
            r.subscriber_count() == 0,
            r.subscribers() == Multiset::<u64>::empty(),
    {
        Self {
            queue: VecDeque::new(),
            next_message_id: 0,
            subscriber_count: 0,
            subscribers: Ghost(Multiset::empty()),
        }
    }

    /// Publishes a message to all registered subscribers. Returns whether the message was queued,
    /// which is the case exactly when there is a subscriber; the subscribers waiting for a message
    /// are then to be woken up.
    pub fn publish(&mut self, message: T) -> (queued: bool)
        requires
            old(self).wf(),
            old(self).next_message_id() < u64::MAX,
        ensures
            final(self).wf(),
            queued == (old(self).subscriber_count() > 0),
            final(self).subscriber_count() == old(self).subscriber_count(),
            final(self).subscribers() == old(self).subscribers(),
            queued ==> final(self).queue() == old(self).queue().push(
                (message, old(self).subscriber_count()),
            ),
            queued ==> final(self).next_message_id() == old(self).next_message_id() + 1,
            !queued ==> final(self).queue() == old(self).queue(),
            !queued ==> final(self).next_message_id() == old(self).next_message_id(),
    {
        if self.subscriber_count == 0 {
            return false;
        }
        let ghost old_queue = self.queue@;
        let ghost subs = self.subscribers@;
        let count = self.subscriber_count;
        self.queue.push_back((message, count));
        self.next_message_id = self.next_message_id + 1;
        proof {
            lemma_readers_all(subs, old(self).next_message_id as int);
            assert forall|i: int| 0 <= i < self.queue@.len() implies #[trigger] self.queue@[i].1 >= readers(subs, self.start_id() + i) by {
                if i < old_queue.len() {
                    assert(self.queue@[i] == old_queue[i]);
                }
            }
        }
        true
    }

    /// Registers a new subscriber, which reads the messages published from now on. Returns the ID
    /// of the first message of the subscriber.
    pub fn subscribe(&mut self) -> (next_message_id: u64)
        requires
            old(self).wf(),
            old(self).subscriber_count() < usize::MAX,
        ensures
            final(self).wf(),
            next_message_id == old(self).next_message_id(),
            final(self).subscriber_count() == old(self).subscriber_count() + 1,
            final(self).subscribers() == old(self).subscribers().insert(next_message_id),
            final(self).queue() == old(self).queue(),
            final(self).next_message_id() == old(self).next_message_id(),
    {
        let ghost subs = self.subscribers@;
        let id = self.next_message_id;
        self.subscriber_count = self.subscriber_count + 1;
        self.subscribers = Ghost(subs.insert(id));
        proof {
            assert forall|i: int| 0 <= i < self.queue@.len() implies #[trigger] self.queue@[i].1 >= readers(self.subscribers@, self.start_id() + i) by {
                lemma_readers_insert(subs, id, self.start_id() + i);
            }
            assert forall|p: u64| #[trigger] self.subscribers@.contains(p) implies p
                <= self.next_message_id by {
                if p != id {
                    assert(subs.contains(p));
                }
            }
        }
        id
    }

    /// Reads the message with ID `message_id` for the subscriber that waits for it.
    ///
    /// Returns `None` when the message has not been published yet. Returns the number of missed
    /// messages when the message left the queue already; the subscriber then continues with the
    /// message at the front of the queue. Otherwise the subscriber continues with the next message
    /// and the message is handed out (and leaves the queue if it was the last reader of the message
    /// at the front).
    pub fn get_message(&mut self, message_id: u64) -> (r: Option<WaitResult<T>>)
        requires
            old(self).wf(),
            old(self).subscribers().contains(message_id),
        ensures
            final(self).wf(),
            final(self).next_message_id() == old(self).next_message_id(),
            final(self).subscriber_count() == old(self).subscriber_count(),
            message_id < old(self).start_id() ==> {
                &&& r == Some(WaitResult::<T>::Lagged((old(self).start_id() - message_id) as u64))
                &&& final(self).queue() == old(self).queue()
                &&& final(self).subscribers() == old(self).subscribers().remove(message_id).insert(
                    old(self).start_id() as u64,
                )
            },
            message_id >= old(self).next_message_id() ==> {
                &&& r is None
                &&& final(self).queue() == old(self).queue()
                &&& final(self).subscribers() == old(self).subscribers()
            },
            old(self).start_id() <= message_id < old(self).next_message_id() ==> {
                let i = message_id - old(self).start_id();
                let (m, c) = old(self).queue()[i];
                &&& r matches Some(WaitResult::Message(v)) && cloned(m, v)
                &&& final(self).subscribers() == old(self).subscribers().remove(message_id).insert(
                    (message_id + 1) as u64,
                )
                &&& (i == 0 && c == 1) ==> final(self).queue() == old(self).queue().drop_first()
                &&& (i == 0 && c == 1) ==> readers(final(self).subscribers(), message_id as int)
                    == 0
                &&& !(i == 0 && c == 1) ==> final(self).queue() == old(self).queue().update(
                    i,
                    (m, (c - 1) as usize),
                )
            },
    {
        let ghost subs = self.subscribers@;
        let ghost old_queue = self.queue@;
        let len = self.queue.len();
        let start_id = self.next_message_id - len as u64;
        if message_id < start_id {
            self.subscribers = Ghost(subs.remove(message_id).insert(start_id));
            proof {
                assert forall|i: int| 0 <= i < self.queue@.len() implies #[trigger] self.queue@[i].1 >= readers(self.subscribers@, self.start_id() + i) by {
                    lemma_readers_move(subs, message_id, start_id, self.start_id() + i);
                }
                lemma_move_bounded(subs, message_id, start_id, self.next_message_id);
            }
            return Some(WaitResult::Lagged(start_id - message_id));
        }
        let current_message_index = (message_id - start_id) as usize;
        if current_message_index >= len {
            return None;
        }
        let ghost i = current_message_index as int;
        let ghost new_subs = subs.remove(message_id).insert((message_id + 1) as u64);
        proof {
            lemma_readers_move(subs, message_id, (message_id + 1) as u64, start_id + i);
            lemma_readers_contains(subs, message_id, start_id + i);
            assert(old_queue[i].1 >= readers(subs, start_id + i));
            lemma_move_bounded(subs, message_id, (message_id + 1) as u64, self.next_message_id);
        }
        let (message, count) = match self.queue.remove(current_message_index) {
            Some(item) => item,
            None => {
                proof {
                    assert(false);
                }
                return None;
            },
        };
        let count = count - 1;
        self.subscribers = Ghost(new_subs);
        if current_message_index == 0 && count == 0 {
            proof {
                assert(self.queue@ == old_queue.drop_first());
                assert forall|j: int| 0 <= j < self.queue@.len() implies #[trigger] self.queue@[j].1 >= readers(self.subscribers@, self.start_id() + j) by {
                    assert(self.queue@[j] == old_queue[j + 1]);
                    lemma_readers_move(subs, message_id, (message_id + 1) as u64, start_id + j + 1);
                }
                lemma_cloned_refl(message);
                assert(readers(self.subscribers@, message_id as int) == 0);
            }
            return Some(WaitResult::Message(message));
        }
        let copy = message.clone();
        self.queue.insert(current_message_index, (message, count));
        proof {
            assert(self.queue@ == old_queue.update(i, (old_queue[i].0, count)));
            assert forall|j: int| 0 <= j < self.queue@.len() implies #[trigger] self.queue@[j].1 >= readers(self.subscribers@, self.start_id() + j) by {
                lemma_readers_move(subs, message_id, (message_id + 1) as u64, start_id + j);
            }
        }
        Some(WaitResult::Message(copy))
    }

    /// Reads the next message for the subscriber that waits for the message with ID
    /// `*next_message_id`, and moves the subscriber on: past the message it read, or past the
    /// messages it missed. Returns `None`, and leaves the subscriber where it is, when there is no
    /// new message.
    pub fn receive(&mut self, next_message_id: &mut u64) -> (r: Option<WaitResult<T>>)
        requires
            old(self).wf(),
            old(self).subscribers().contains(*old(next_message_id)),
        ensures
            final(self).wf(),
            final(self).subscribers().contains(*final(next_message_id)),
            final(self).next_message_id() == old(self).next_message_id(),
            final(self).subscriber_count() == old(self).subscriber_count(),
            *old(next_message_id) < old(self).start_id() ==> {
                &&& r == Some(
                    WaitResult::<T>::Lagged((old(self).start_id() - *old(next_message_id)) as u64),
                )
                &&& *final(next_message_id) == old(self).start_id()
                &&& final(self).queue() == old(self).queue()
            },
            *old(next_message_id) >= old(self).next_message_id() ==> {
                &&& r is None
                &&& *final(next_message_id) == *old(next_message_id)
                &&& final(self).queue() == old(self).queue()
                &&& final(self).subscribers() == old(self).subscribers()
            },
            old(self).start_id() <= *old(next_message_id) < old(self).next_message_id() ==> {
                let i = *old(next_message_id) - old(self).start_id();
                &&& r matches Some(WaitResult::Message(v)) && cloned(old(self).queue()[i].0, v)
                &&& *final(next_message_id) == *old(next_message_id) + 1
            },
    {
        let id = *next_message_id;
        let r = self.get_message(id);
        match &r {
            Some(WaitResult::Message(_)) => {
                *next_message_id = id + 1;
            },
            Some(WaitResult::Lagged(amount)) => {
                *next_message_id = id + *amount;
            },
            None => {},
        }
        r
    }

    /// Unregisters the subscriber that waits for the message with ID `subscriber_next_message_id`.
    /// The messages that it has not read yet lose one reader, and the messages at the front that
    /// no subscriber has to read any more leave the queue.
    pub fn unregister_subscriber(&mut self, subscriber_next_message_id: u64)
        requires
            old(self).wf(),
            old(self).subscribers().contains(subscriber_next_message_id),
        ensures
            final(self).wf(),
            final(self).next_message_id() == old(self).next_message_id(),
            final(self).subscriber_count() == old(self).subscriber_count() - 1,
            final(self).subscribers() == old(self).subscribers().remove(subscriber_next_message_id),
            subscriber_next_message_id >= old(self).start_id() ==> final(self).queue()
                == drop_read_prefix(
                decrement_from(
                    old(self).queue(),
                    subscriber_next_message_id - old(self).start_id(),
                ),
            ),
            subscriber_next_message_id < old(self).start_id() ==> final(self).queue() == old(
                self,
            ).queue(),
            forall|m: int|
                old(self).start_id() <= m < final(self).start_id() ==> #[trigger] readers(
                    final(self).subscribers(),
                    m,
                ) == 0,
    {
        let ghost subs = self.subscribers@;
        let ghost old_queue = self.queue@;
        let ghost new_subs = subs.remove(subscriber_next_message_id);
        proof {
            assert(subs =~= new_subs.insert(subscriber_next_message_id));
        }
        self.subscriber_count = self.subscriber_count - 1;
        self.subscribers = Ghost(new_subs);
        let len = self.queue.len();
        let start_id = self.next_message_id - len as u64;
        if subscriber_next_message_id >= start_id {
            let from = (subscriber_next_message_id - start_id) as usize;
            let ghost dec = decrement_from(old_queue, from as int);
            // Move every message into a new queue, with one reader less from `from` on.
            let mut rebuilt: VecDeque<(T, usize)> = VecDeque::new();
            let mut j: usize = 0;
            while j < len
                invariant
                    j <= len,
                    len == old_queue.len(),
                    self.queue@ == old_queue.subrange(j as int, len as int),
                    rebuilt@ == dec.take(j as int),
                    dec == decrement_from(old_queue, from as int),
                    start_id == old(self).start_id(),
                    subs.contains(subscriber_next_message_id),
                    forall|k: int| 0 <= k < len ==> #[trigger] old_queue[k].1 >= readers(subs, start_id + k),
                    subscriber_next_message_id == start_id + from,
                    self.next_message_id == old(self).next_message_id(),
                    self.subscriber_count == old(self).subscriber_count() - 1,
                    self.subscribers@ == new_subs,
                decreases len - j,
            {
                let (message, count) = self.queue.pop_front().unwrap();
                proof {
                    assert(old_queue.subrange(j as int, len as int)[0] == old_queue[j as int]);
                }
                let count = if j >= from {
                    proof {
                        lemma_readers_contains(subs, subscriber_next_message_id, start_id + j);
                    }
                    count - 1
                } else {
                    count
                };
                rebuilt.push_back((message, count));
                proof {
                    assert(dec.take(j as int + 1) =~= dec.take(j as int).push(dec[j as int]));
                    assert(old_queue.subrange(j as int + 1, len as int) =~= old_queue.subrange(
                        j as int,
                        len as int,
                    ).subrange(1, len - j));
                }
                j += 1;
            }
            proof {
                assert(dec.take(len as int) =~= dec);
                assert forall|k: int| 0 <= k < dec.len() implies #[trigger] dec[k].1 >= readers(
                    new_subs,
                    start_id + k,
                ) by {
                    lemma_readers_remove(subs, subscriber_next_message_id, start_id + k);
                }
            }
            // Drop the messages at the front that no subscriber has to read any more.
            let ghost mut popped: int = 0;
            proof {
                assert(dec.subrange(0, dec.len() as int) =~= dec);
            }
            while rebuilt.len() > 0 && rebuilt[0].1 == 0
                invariant
                    0 <= popped <= dec.len(),
                    rebuilt@ == dec.subrange(popped, dec.len() as int),
                    drop_read_prefix(rebuilt@) == drop_read_prefix(dec),
                    forall|k: int| 0 <= k < popped ==> #[trigger] dec[k].1 == 0,
                decreases rebuilt@.len(),
            {
                let ghost before = rebuilt@;
                let _ = rebuilt.pop_front();
                proof {
                    assert(rebuilt@ =~= before.drop_first());
                    assert(before.drop_first() =~= dec.subrange(popped + 1, dec.len() as int));
                    popped = popped + 1;
                }
            }
            proof {
                assert(drop_read_prefix(rebuilt@) == rebuilt@);
                assert forall|k: int| 0 <= k < rebuilt@.len() implies #[trigger] rebuilt@[k].1 >= readers(new_subs, start_id + popped + k) by {
                    assert(rebuilt@[k] == dec[popped + k]);
                }
                assert forall|m: int| start_id <= m < start_id + popped implies #[trigger] readers(
                    new_subs,
                    m,
                ) == 0 by {
                    assert(dec[m - start_id].1 >= readers(new_subs, start_id + (m - start_id)));
                }
            }
            self.queue = rebuilt;
        } else {
            proof {
                assert forall|k: int| 0 <= k < old_queue.len() implies #[trigger] old_queue[k].1 >= readers(new_subs, start_id + k) by {
                    lemma_readers_remove(subs, subscriber_next_message_id, start_id + k);
                }
            }
        }
        proof {
            assert forall|p: u64| #[trigger] new_subs.contains(p) implies p <= self.next_message_id by {
                assert(new_subs.insert(subscriber_next_message_id).contains(p));
                assert(old(self).subscribers().contains(p));
            }
        }
    }

    /// The number of messages that the subscriber waiting for the message with ID
    /// `next_message_id` has not read yet.
    pub fn available(&self, next_message_id: u64) -> (r: u64)
        requires
            next_message_id <= self.next_message_id(),
        ensures
            r == self.next_message_id() - next_message_id,
    {
        self.next_message_id - next_message_id
    }

    /// Removes all messages from the queue. The subscribers that had not read them continue with
    /// the next published message.
    pub fn clear(&mut self)
        requires
            old(self).wf(),
        ensures
            final(self).wf(),
            final(self).queue() == Seq::<(T, usize)>::empty(),
            final(self).next_message_id() == old(self).next_message_id(),
            final(self).subscriber_count() == old(self).subscriber_count(),
            final(self).subscribers() == old(self).subscribers(),
    {
        self.queue.clear();
    }

    /// The number of queued messages.
    pub fn len(&self) -> (r: usize)
        ensures
            r == self.queue().len(),
    {
        self.queue.len()
    }

    /// Whether no message is queued.
    pub fn is_empty(&self) -> (r: bool)
        ensures
            r == (self.queue().len() == 0),
    {
        self.queue.len() == 0
    }
}

/// A subscriber that has read every message receives the next published message: after a
/// publish that queued `message`, the subscriber's next message ID names it.
pub proof fn law_caught_up_subscriber_reads_next_message<T: Clone>(
    before: PubSubState<T>,
    after: PubSubState<T>,
    message: T,
    subscriber: u64,
)
    requires
        before.wf(),
        subscriber == before.next_message_id(),
        after.queue() == before.queue().push((message, before.subscriber_count())),
        after.next_message_id() == before.next_message_id() + 1,
    ensures
        after.start_id() <= subscriber < after.next_message_id(),
        after.queue()[subscriber - after.start_id()].0 == message,
{
}

proof fn lemma_cloned_refl<T: Clone>(x: T)
    ensures
        cloned(x, x),
{
}

proof fn lemma_readers_insert(subs: Multiset<u64>, x: u64, m: int)
    ensures
        readers(subs.insert(x), m) == readers(subs, m) + (if x <= m { 1nat } else { 0nat }),
{
    let f = |p: u64| p <= m;
    if x <= m {
        assert(subs.insert(x).filter(f) =~= subs.filter(f).insert(x));
    } else {
        assert(subs.insert(x).filter(f) =~= subs.filter(f));
    }
}

proof fn lemma_readers_remove(subs: Multiset<u64>, x: u64, m: int)
    requires
        subs.contains(x),
    ensures
        readers(subs.remove(x), m) + (if x <= m { 1nat } else { 0nat }) == readers(subs, m),
{
    assert(subs.remove(x).insert(x) =~= subs);
    lemma_readers_insert(subs.remove(x), x, m);
}

proof fn lemma_readers_move(subs: Multiset<u64>, x: u64, y: u64, m: int)
    requires
        subs.contains(x),
    ensures
        readers(subs.remove(x).insert(y), m) + (if x <= m { 1nat } else { 0nat }) == readers(
            subs,
            m,
        ) + (if y <= m { 1nat } else { 0nat }),
{
    lemma_readers_remove(subs, x, m);
    lemma_readers_insert(subs.remove(x), y, m);
}

proof fn lemma_move_bounded(subs: Multiset<u64>, x: u64, y: u64, bound: u64)
    requires
        subs.contains(x),
        y <= bound,
        forall|p: u64| #[trigger] subs.contains(p) ==> p <= bound,
    ensures
        forall|p: u64| #[trigger] subs.remove(x).insert(y).contains(p) ==> p <= bound,
        subs.remove(x).insert(y).len() == subs.len(),
{
    assert forall|p: u64| #[trigger] subs.remove(x).insert(y).contains(p) implies p <= bound by {
        if p != y {
            assert(subs.contains(p));
        }
    }
    assert(subs.remove(x).insert(x) =~= subs);
}

proof fn lemma_readers_contains(subs: Multiset<u64>, x: u64, m: int)
    requires
        subs.contains(x),
        x <= m,
    ensures
        readers(subs, m) >= 1,
{
    lemma_readers_remove(subs, x, m);
}

proof fn lemma_readers_all(subs: Multiset<u64>, m: int)
    requires
        forall|p: u64| #[trigger] subs.contains(p) ==> p <= m,
    ensures
        readers(subs, m) == subs.len(),
{
    let f = |p: u64| p <= m;
    assert forall|v: u64| #[trigger] subs.filter(f).count(v) == subs.count(v) by {
        if subs.count(v) > 0 {
            assert(subs.contains(v));
        }
    }
    assert(subs.filter(f) =~= subs);
}

} // verus!
