//! The dispatch queue: the bounded FIFO channel that decouples request
//! acceptance from accumulation.
//!
//! The queue holds at most [`QUEUE_CAPACITY`] pending requests at all times.
//! A submission to a full queue comes back as [`SubmitOutcome::MustWait`] with
//! the queue unchanged: the submitter waits for the consumer to drain a slot
//! and tries again, and nothing is dropped. Requests leave in the order they
//! entered, across all producers.

use crate::ledger::UpdateView;
use crate::request::UpdateRequest;
use vstd::prelude::*;

verus! {

/// How many not-yet-dequeued requests the dispatch queue holds at most.
pub const QUEUE_CAPACITY: usize = 100;

/// What one submission attempt came to.
#[derive(Clone, Copy, Debug, PartialEq, Eq, Structural)]
pub enum SubmitOutcome {
    /// The request entered the queue.
    Enqueued,
    /// The queue is at capacity; the submitter must wait until the consumer
    /// makes room, then try again. The request was not dropped into the
    /// queue and nothing already queued was lost.
    MustWait,
    /// The consumer side is gone; the request is rejected.
    Closed,
}

/// The bounded FIFO channel from the gateway to the accumulator worker. Its
/// view is the sequence of pending requests, oldest first; it never exceeds
/// [`QUEUE_CAPACITY`].
pub struct DispatchQueue {
    items: Vec<UpdateRequest>,
    open: bool,
}

impl View for DispatchQueue {
    type V = Seq<UpdateView>;

    closed spec fn view(&self) -> Seq<UpdateView> {
        self.items@.map_values(|r: UpdateRequest| r@)
    }
}

impl DispatchQueue {
    #[verifier::type_invariant]
    spec fn wf(&self) -> bool {
        self.items@.len() <= QUEUE_CAPACITY
    }

    /// Whether the consumer side is still there.
    pub closed spec fn is_open(&self) -> bool {
        self.open
    }

    /// An empty, open queue.
    pub fn new() -> (r: DispatchQueue)
        ensures
            r@ == Seq::<UpdateView>::empty(),
            r.is_open(),
    {
        let r = DispatchQueue { items: Vec::new(), open: true };
        proof {
            assert(r@ =~= Seq::<UpdateView>::empty());
        }
        r
    }

    /// How many requests are pending.
    pub fn len(&self) -> (r: usize)
        ensures
            r == self@.len(),
    {
        self.items.len()
    }

    /// One submission attempt. A request enters an open queue below capacity
    /// at the back; a full queue turns the submitter away to wait, dropping
    /// nothing; a closed queue rejects the request.
    pub fn submit(&mut self, req: UpdateRequest) -> (r: SubmitOutcome)
        ensures
            final(self).is_open() == old(self).is_open(),
            !old(self).is_open() ==> r == SubmitOutcome::Closed && final(self)@ == old(self)@,
            old(self).is_open() && old(self)@.len() < QUEUE_CAPACITY ==> r
                == SubmitOutcome::Enqueued && final(self)@ == old(self)@.push(req@),
            old(self).is_open() && old(self)@.len() >= QUEUE_CAPACITY ==> r
                == SubmitOutcome::MustWait && final(self)@ == old(self)@,
    {
        proof {
            use_type_invariant(&*self);
        }
        if !self.open {
            return SubmitOutcome::Closed;
        }
        if self.items.len() >= QUEUE_CAPACITY {
            return SubmitOutcome::MustWait;
        }
        let ghost rows = self.items@;
        let ghost r = req;
        let mut items: Vec<UpdateRequest> = Vec::new();
        std::mem::swap(&mut items, &mut self.items);
        items.push(req);
        self.items = items;
        proof {
            assert(self@ =~= old(self)@.push(r@));
        }
        SubmitOutcome::Enqueued
    }

    /// One consumer step: the oldest pending request leaves the queue, or
    /// `None` when nothing is pending.
    pub fn dequeue(&mut self) -> (r: Option<UpdateRequest>)
        ensures
            final(self).is_open() == old(self).is_open(),
            old(self)@.len() == 0 ==> r is None && final(self)@ == old(self)@,
            old(self)@.len() > 0 ==> (r matches Some(req) && req@ == old(self)@.first()
                && final(self)@ == old(self)@.drop_first()),
    {
        proof {
            use_type_invariant(&*self);
        }
        if self.items.len() == 0 {
            return None;
        }
        let mut items: Vec<UpdateRequest> = Vec::new();
        std::mem::swap(&mut items, &mut self.items);
        let req = items.remove(0);
        self.items = items;
        proof {
            assert(self@ =~= old(self)@.drop_first());
        }
        Some(req)
    }

    /// The consumer side goes away: every later submission is rejected.
    pub fn close(&mut self)
        ensures
            !final(self).is_open(),
            final(self)@ == old(self)@,
    {
        proof {
            use_type_invariant(&*self);
        }
        self.open = false;
    }
}

} // verus!
