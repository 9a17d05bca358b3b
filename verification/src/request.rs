//! Inbound submissions and the gateway's validation rule.
//!
//! The transport hands each inbound body over as a [`RawSubmission`]: every
//! field the body may carry, each `None` when it was missing or not numeric.
//! [`validate`] is the gateway's whole decision: it either produces a
//! well-formed [`UpdateRequest`] or says exactly why the body is rejected.

use crate::ledger::UpdateView;
use vstd::prelude::*;

verus! {

/// A validated update: a non-empty identifier and three numeric fields.
pub struct UpdateRequest {
    pub id: String,
    pub field1: i64,
    pub field2: i64,
    pub field3: i64,
}

impl View for UpdateRequest {
    type V = UpdateView;

    open spec fn view(&self) -> UpdateView {
        UpdateView {
            id: self.id@,
            field1: self.field1 as int,
            field2: self.field2 as int,
            field3: self.field3 as int,
        }
    }
}

/// The update a well-formed submission asks for, as a mathematical value.
pub open spec fn submission_view(raw: RawSubmission) -> UpdateView {
    UpdateView {
        id: match raw.id {
            Some(id) => id@,
            None => Seq::empty(),
        },
        field1: match raw.field1 {
            Some(f) => f as int,
            None => 0,
        },
        field2: match raw.field2 {
            Some(f) => f as int,
            None => 0,
        },
        field3: match raw.field3 {
            Some(f) => f as int,
            None => 0,
        },
    }
}

/// One inbound body as the transport decoded it: each field is `None` when it
/// was missing from the body or was not a number.
pub struct RawSubmission {
    pub id: Option<String>,
    pub field1: Option<i64>,
    pub field2: Option<i64>,
    pub field3: Option<i64>,
}

/// Why a submission was rejected before reaching the dispatch queue.
#[derive(Clone, Copy, Debug, PartialEq, Eq, Structural)]
pub enum ValidationError {
    /// The identifier is missing or empty.
    InvalidIdentifier,
    /// One of the three numeric fields is missing or not a number.
    MissingField,
}

/// The shape a body must have to be accepted: identifier present and
/// non-empty, all three numeric fields present.
pub open spec fn well_formed_submission(raw: RawSubmission) -> bool {
    &&& raw.id matches Some(id) && id@.len() > 0
    &&& raw.field1 is Some
    &&& raw.field2 is Some
    &&& raw.field3 is Some
}

/// The gateway's validation: accepts exactly the well-formed submissions and
/// names the reason every other one fails, the identifier being checked first.
pub fn validate(raw: RawSubmission) -> (r: Result<UpdateRequest, ValidationError>)
    ensures
        r is Ok <==> well_formed_submission(raw),
        r matches Ok(req) ==> {
            &&& req@ == submission_view(raw)
            &&& raw.id matches Some(id) && req.id == id
            &&& raw.field1 matches Some(f) && req.field1 == f
            &&& raw.field2 matches Some(f) && req.field2 == f
            &&& raw.field3 matches Some(f) && req.field3 == f
        },
        !(raw.id matches Some(id) && id@.len() > 0) ==> r == Err::<UpdateRequest, ValidationError>(
            ValidationError::InvalidIdentifier,
        ),
        (raw.id matches Some(id) && id@.len() > 0) && !(raw.field1 is Some && raw.field2 is Some
            && raw.field3 is Some) ==> r == Err::<UpdateRequest, ValidationError>(
            ValidationError::MissingField,
        ),
{
    match raw.id {
        None => Err(ValidationError::InvalidIdentifier),
        Some(id) => {
            if id.as_str().is_empty() {
                Err(ValidationError::InvalidIdentifier)
            } else {
                match (raw.field1, raw.field2, raw.field3) {
                    (Some(field1), Some(field2), Some(field3)) => Ok(
                        UpdateRequest { id, field1, field2, field3 },
                    ),
                    _ => Err(ValidationError::MissingField),
                }
            }
        },
    }
}

} // verus!
