//! The queue of events that one side owes the other.
//!
//! Events leave the queue in the order in which they entered it, in batches, one batch at a
//! time. A batch that could not be delivered goes back to the head of the queue.

use vstd::prelude::*;

verus! {

/// The greatest number of events sent in one batch.
pub const MAX_EVENTS_TO_SYNC_PER_BATCH: usize = 10_000;

/// The model of a queue: the events that wait, oldest first, and whether a batch is under
/// way.
pub struct SyncQueueView<E> {
    pub queue: Seq<E>,
    pub in_progress: bool,
}

impl<E> SyncQueueView<E> {
    /// The number of events of the next batch.
    pub open spec fn batch_len(self) -> int {
        if self.queue.len() > MAX_EVENTS_TO_SYNC_PER_BATCH {
            MAX_EVENTS_TO_SYNC_PER_BATCH as int
        } else {
            self.queue.len() as int
        }
    }

    /// Whether a batch can be started: none is under way and an event waits.
    pub open spec fn can_start(self) -> bool {
        !self.in_progress && self.queue.len() > 0
    }

    /// The events of the next batch: the oldest ones.
    pub open spec fn next_batch(self) -> Seq<E> {
        self.queue.subrange(0, self.batch_len())
    }

    /// The queue while the next batch is under way.
    pub open spec fn started(self) -> SyncQueueView<E> {
        SyncQueueView {
            queue: self.queue.subrange(self.batch_len(), self.queue.len() as int),
            in_progress: true,
        }
    }

    /// The queue once `batch` has come back undelivered.
    pub open spec fn failed(self, batch: Seq<E>) -> SyncQueueView<E> {
        SyncQueueView { queue: batch + self.queue, in_progress: false }
    }
}

/// A batch that fails leaves the queue as it was before the batch was started, but for the
/// events that arrived in between, which come after it.
pub proof fn lemma_failed_batch_keeps_order<E>(before: SyncQueueView<E>, arrived: Seq<E>)
    requires
        before.can_start(),
    ensures
        (SyncQueueView { queue: before.started().queue + arrived, in_progress: true }).failed(
            before.next_batch(),
        ) == (SyncQueueView { queue: before.queue + arrived, in_progress: false }),
{
    assert(before.next_batch() + (before.started().queue + arrived) =~= before.queue + arrived);
}

/// A queue of events for one peer.
pub struct SyncQueue<E> {
    queue: Vec<E>,
    in_progress: bool,
}

impl<E> View for SyncQueue<E> {
    type V = SyncQueueView<E>;

    closed spec fn view(&self) -> SyncQueueView<E> {
        SyncQueueView { queue: self.queue@, in_progress: self.in_progress }
    }
}

impl<E> SyncQueue<E> {
    /// The empty queue, with no batch under way.
    pub fn new() -> (q: Self)
        ensures
            q@ == (SyncQueueView { queue: Seq::<E>::empty(), in_progress: false }),
    {
        SyncQueue { queue: Vec::new(), in_progress: false }
    }

    /// The queue with the events `queue` waiting, oldest first, and a batch under way or not.
    pub fn from_parts(queue: Vec<E>, in_progress: bool) -> (q: Self)
        ensures
            q@ == (SyncQueueView { queue: queue@, in_progress }),
    {
        SyncQueue { queue, in_progress }
    }

    /// The events that wait, oldest first, and whether a batch is under way.
    pub fn into_parts(self) -> (parts: (Vec<E>, bool))
        ensures
            parts.0@ == self@.queue,
            parts.1 == self@.in_progress,
    {
        (self.queue, self.in_progress)
    }

    /// The number of events that wait.
    pub fn len(&self) -> (n: usize)
        ensures
            n == self@.queue.len(),
    {
        self.queue.len()
    }

    /// Whether a batch is under way.
    pub fn is_in_progress(&self) -> (r: bool)
        ensures
            r == self@.in_progress,
    {
        self.in_progress
    }

    /// Puts `event` at the end of the queue.
    pub fn enqueue(&mut self, event: E)
        ensures
            final(self)@ == (SyncQueueView {
                queue: old(self)@.queue.push(event),
                in_progress: old(self)@.in_progress,
            }),
    {
        self.queue.push(event);
    }

    /// Starts the next batch: takes the oldest events, at most
    /// `MAX_EVENTS_TO_SYNC_PER_BATCH` of them, out of the queue. Nothing happens while
    /// another batch is under way or when no event waits.
    pub fn try_start_sync(&mut self) -> (r: Option<Vec<E>>)
        ensures
            match r {
                Some(batch) => old(self)@.can_start() && batch@ == old(self)@.next_batch()
                    && final(self)@ == old(self)@.started(),
                None => !old(self)@.can_start() && final(self)@ == old(self)@,
            },
    {
        if self.in_progress || self.queue.len() == 0 {
            return None;
        }
        let n: usize = if self.queue.len() > MAX_EVENTS_TO_SYNC_PER_BATCH {
            MAX_EVENTS_TO_SYNC_PER_BATCH
        } else {
            self.queue.len()
        };
        let mut batch = self.queue.split_off(n);
        std::mem::swap(&mut self.queue, &mut batch);
        self.in_progress = true;
        Some(batch)
    }

    /// Records that the batch under way was delivered.
    pub fn mark_sync_completed(&mut self)
        ensures
            final(self)@ == (SyncQueueView { queue: old(self)@.queue, in_progress: false }),
    {
        self.in_progress = false;
    }

    /// Records that `batch` was not delivered: its events go back to the head of the queue,
    /// before those that wait.
    pub fn mark_sync_failed(&mut self, batch: Vec<E>)
        ensures
            final(self)@ == old(self)@.failed(batch@),
    {
        let mut head = batch;
        head.append(&mut self.queue);
        self.queue = head;
        self.in_progress = false;
    }
}

} // verus!
