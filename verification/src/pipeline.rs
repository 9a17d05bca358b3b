//! The ingestion-to-accumulation pipeline: gateway, dispatch queue and
//! accumulator worker composed over one shared ledger.
//!
//! [`Pipeline::accept`] is the gateway's whole decision for one inbound
//! submission: validate the shape, hand a well-formed request to the queue,
//! and answer with an acknowledgment that means "enqueued", never "applied".
//! A malformed body never reaches the queue and never touches the ledger.
//! [`Pipeline::process_next`] is one worker step: the oldest pending request
//! leaves the queue and folds into the ledger by the update rule.

use crate::ledger::{
    apply_step, has_id, unique_ids, Ledger, LedgerEntry, StateFault, Totals, UpdateView,
};
use crate::queue::{DispatchQueue, SubmitOutcome, QUEUE_CAPACITY};
use crate::request::{
    submission_view, validate, well_formed_submission, RawSubmission, ValidationError,
};
use vstd::prelude::*;

verus! {

/// The gateway's answer to one inbound submission.
#[derive(Clone, Copy, Debug, PartialEq, Eq, Structural)]
pub enum AcceptOutcome {
    /// The request entered the dispatch queue. Acceptance means "enqueued",
    /// not "applied": the update is only reflected in later snapshots.
    Accepted,
    /// The queue is at capacity. The caller waits for the worker to drain a
    /// slot and submits again; nothing was dropped.
    MustWait,
    /// The body failed validation and never reached the queue.
    Invalid(ValidationError),
    /// The consumer side of the queue is gone; a well-formed request was
    /// turned away with a server-side rejection.
    Rejected,
}

/// The whole pipeline: the dispatch queue between the gateway and the worker,
/// and the shared ledger the worker folds updates into.
pub struct Pipeline {
    pub queue: DispatchQueue,
    pub ledger: Ledger,
}

impl Pipeline {
    /// An idle pipeline: empty open queue, empty ledger.
    pub fn new() -> (r: Pipeline)
        ensures
            r.queue@ == Seq::<UpdateView>::empty(),
            r.queue.is_open(),
            r.ledger@ == Map::<Seq<char>, Totals>::empty(),
    {
        Pipeline { queue: DispatchQueue::new(), ledger: Ledger::new() }
    }

    /// The gateway: one inbound submission, validated and handed to the
    /// queue. The ledger is never touched; a malformed body never reaches
    /// the queue.
    pub fn accept(&mut self, raw: RawSubmission) -> (r: AcceptOutcome)
        ensures
            final(self).ledger@ == old(self).ledger@,
            final(self).queue.is_open() == old(self).queue.is_open(),
            !well_formed_submission(raw) ==> final(self).queue@ == old(self).queue@,
            !(raw.id matches Some(id) && id@.len() > 0) ==> r == AcceptOutcome::Invalid(
                ValidationError::InvalidIdentifier,
            ),
            (raw.id matches Some(id) && id@.len() > 0) && !(raw.field1 is Some
                && raw.field2 is Some && raw.field3 is Some) ==> r == AcceptOutcome::Invalid(
                ValidationError::MissingField,
            ),
            well_formed_submission(raw) && !old(self).queue.is_open() ==> (r
                == AcceptOutcome::Rejected && final(self).queue@ == old(self).queue@),
            well_formed_submission(raw) && old(self).queue.is_open() && old(self).queue@.len()
                < QUEUE_CAPACITY ==> (r == AcceptOutcome::Accepted && final(self).queue@ == old(
                self,
            ).queue@.push(submission_view(raw))),
            well_formed_submission(raw) && old(self).queue.is_open() && old(self).queue@.len()
                >= QUEUE_CAPACITY ==> (r == AcceptOutcome::MustWait && final(self).queue@ == old(
                self,
            ).queue@),
    {
        match validate(raw) {
            Err(e) => AcceptOutcome::Invalid(e),
            Ok(req) => {
                match self.queue.submit(req) {
                    SubmitOutcome::Enqueued => AcceptOutcome::Accepted,
                    SubmitOutcome::MustWait => AcceptOutcome::MustWait,
                    SubmitOutcome::Closed => AcceptOutcome::Rejected,
                }
            },
        }
    }

    /// One worker step: take the oldest pending request and perform its
    /// read-modify-write cycle against the ledger. `Ok(None)` says nothing
    /// was pending; `Ok(Some(entry))` carries the entry the update produced,
    /// reflected only in the ledger, never answered to the submitter.
    pub fn process_next(&mut self) -> (r: Result<Option<LedgerEntry>, StateFault>)
        ensures
            final(self).queue.is_open() == old(self).queue.is_open(),
            old(self).queue@.len() == 0 ==> (r == Ok::<Option<LedgerEntry>, StateFault>(None)
                && final(self).queue@ == old(self).queue@ && final(self).ledger@ == old(
                self,
            ).ledger@),
            old(self).queue@.len() > 0 ==> final(self).queue@ == old(self).queue@.drop_first(),
            old(self).queue@.len() > 0 ==> ({
                let u = old(self).queue@.first();
                let stepped = apply_step(old(self).ledger@, u.id, u.field1, u.field2, u.field3);
                &&& ((i64::MIN <= stepped[u.id].sum <= i64::MAX && i64::MIN
                    <= stepped[u.id].difference <= i64::MAX) ==> (r matches Ok(o) && o matches Some(
                    e,
                ) && e.id@ == u.id && e.totals() == stepped[u.id] && final(self).ledger@
                    == stepped))
                &&& (!(i64::MIN <= stepped[u.id].sum <= i64::MAX && i64::MIN
                    <= stepped[u.id].difference <= i64::MAX) ==> (r == Err::<
                    Option<LedgerEntry>,
                    StateFault,
                >(StateFault::TotalsOutOfRange) && final(self).ledger@ == old(self).ledger@))
            }),
    {
        match self.queue.dequeue() {
            None => Ok(None),
            Some(req) => {
                match self.ledger.apply(&req.id, req.field1, req.field2, req.field3) {
                    Ok(entry) => Ok(Some(entry)),
                    Err(fault) => Err(fault),
                }
            },
        }
    }

    /// A consistent snapshot of the ledger for reporting.
    pub fn snapshot(&self) -> (r: Vec<LedgerEntry>)
        ensures
            unique_ids(r@),
            forall|i: int|
                0 <= i < r@.len() ==> #[trigger] self.ledger@.contains_key(r@[i].id@)
                    && r@[i].totals() == self.ledger@[r@[i].id@],
            forall|k: Seq<char>| self.ledger@.contains_key(k) ==> #[trigger] has_id(r@, k),
    {
        self.ledger.snapshot()
    }
}

} // verus!
