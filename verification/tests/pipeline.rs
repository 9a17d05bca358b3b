use accumulator::ledger::{Ledger, StateFault};
use accumulator::pipeline::{AcceptOutcome, Pipeline};
use accumulator::queue::{DispatchQueue, SubmitOutcome, QUEUE_CAPACITY};
use accumulator::request::{validate, RawSubmission, ValidationError};

fn raw(id: &str, field1: i64, field2: i64, field3: i64) -> RawSubmission {
    RawSubmission {
        id: Some(String::from(id)),
        field1: Some(field1),
        field2: Some(field2),
        field3: Some(field3),
    }
}

#[test]
fn scenario_two_updates_same_identifier() {
    let mut p = Pipeline::new();
    assert_eq!(p.accept(raw("x", 2, 3, 1)), AcceptOutcome::Accepted);
    assert_eq!(p.accept(raw("x", 1, 1, 1)), AcceptOutcome::Accepted);
    let first = p.process_next().unwrap().unwrap();
    assert_eq!(first.sum, 5);
    assert_eq!(first.difference, -4);
    let second = p.process_next().unwrap().unwrap();
    assert_eq!(second.id, String::from("x"));
    assert_eq!(second.sum, 7);
    assert_eq!(second.difference, -6);
    let entry = p.ledger.get(&String::from("x")).unwrap();
    assert_eq!(entry.sum, 7);
    assert_eq!(entry.difference, -6);
}

#[test]
fn scenario_single_negative_update() {
    let mut p = Pipeline::new();
    assert_eq!(p.accept(raw("y", -5, 0, 0)), AcceptOutcome::Accepted);
    let entry = p.process_next().unwrap().unwrap();
    assert_eq!(entry.sum, -5);
    assert_eq!(entry.difference, 0);
    let held = p.ledger.get(&String::from("y")).unwrap();
    assert_eq!(held.sum, -5);
    assert_eq!(held.difference, 0);
}

#[test]
fn scenario_two_identifiers_independent() {
    let mut p = Pipeline::new();
    assert_eq!(p.accept(raw("a", 1, 2, 3)), AcceptOutcome::Accepted);
    assert_eq!(p.accept(raw("b", 10, 20, 30)), AcceptOutcome::Accepted);
    p.process_next().unwrap().unwrap();
    p.process_next().unwrap().unwrap();
    let snapshot = p.snapshot();
    assert_eq!(snapshot.len(), 2);
    let a = snapshot.iter().find(|e| e.id == "a").unwrap();
    assert_eq!(a.sum, 3);
    assert_eq!(a.difference, -5);
    let b = snapshot.iter().find(|e| e.id == "b").unwrap();
    assert_eq!(b.sum, 30);
    assert_eq!(b.difference, -50);
}

#[test]
fn interleaved_identifiers_accumulate_separately() {
    let mut p = Pipeline::new();
    assert_eq!(p.accept(raw("m", 1, 1, 1)), AcceptOutcome::Accepted);
    assert_eq!(p.accept(raw("n", 5, 5, 5)), AcceptOutcome::Accepted);
    assert_eq!(p.accept(raw("m", 2, 2, 2)), AcceptOutcome::Accepted);
    assert_eq!(p.accept(raw("n", -5, -5, -5)), AcceptOutcome::Accepted);
    while let Ok(Some(_)) = p.process_next() {}
    let m = p.ledger.get(&String::from("m")).unwrap();
    assert_eq!(m.sum, (1 + 1) + (2 + 2));
    assert_eq!(m.difference, -(1 + 1) - (2 + 2));
    let n = p.ledger.get(&String::from("n")).unwrap();
    assert_eq!(n.sum, 0);
    assert_eq!(n.difference, 0);
}

#[test]
fn missing_identifier_rejected_before_queue() {
    let mut p = Pipeline::new();
    let body = RawSubmission { id: None, field1: Some(1), field2: Some(2), field3: Some(3) };
    assert_eq!(
        p.accept(body),
        AcceptOutcome::Invalid(ValidationError::InvalidIdentifier)
    );
    assert_eq!(p.queue.len(), 0);
    assert!(p.snapshot().is_empty());
}

#[test]
fn empty_identifier_rejected_before_queue() {
    let mut p = Pipeline::new();
    assert_eq!(
        p.accept(raw("", 1, 2, 3)),
        AcceptOutcome::Invalid(ValidationError::InvalidIdentifier)
    );
    assert_eq!(p.queue.len(), 0);
}

#[test]
fn missing_numeric_field_rejected_before_queue() {
    let mut p = Pipeline::new();
    let body = RawSubmission {
        id: Some(String::from("x")),
        field1: Some(1),
        field2: None,
        field3: Some(3),
    };
    assert_eq!(
        p.accept(body),
        AcceptOutcome::Invalid(ValidationError::MissingField)
    );
    assert_eq!(p.queue.len(), 0);
    assert!(matches!(p.process_next(), Ok(None)));
    assert!(p.ledger.get(&String::from("x")).is_none());
}

#[test]
fn identifier_checked_before_fields() {
    let body = RawSubmission { id: None, field1: None, field2: None, field3: None };
    assert!(matches!(
        validate(body),
        Err(ValidationError::InvalidIdentifier)
    ));
}

#[test]
fn validate_accepts_well_formed_body() {
    let req = validate(raw("k", 7, -8, 9)).unwrap();
    assert_eq!(req.id, String::from("k"));
    assert_eq!(req.field1, 7);
    assert_eq!(req.field2, -8);
    assert_eq!(req.field3, 9);
}

#[test]
fn zero_updates_leave_no_entry() {
    let mut p = Pipeline::new();
    assert!(p.ledger.get(&String::from("ghostly")).is_none());
    assert_eq!(p.accept(raw("x", 1, 1, 1)), AcceptOutcome::Accepted);
    p.process_next().unwrap().unwrap();
    assert!(p.ledger.get(&String::from("z")).is_none());
    assert_eq!(p.snapshot().len(), 1);
}

#[test]
fn full_queue_turns_submitters_away_without_loss() {
    let mut p = Pipeline::new();
    for _ in 0..QUEUE_CAPACITY {
        assert_eq!(p.accept(raw("a", 1, 0, 0)), AcceptOutcome::Accepted);
    }
    assert_eq!(p.queue.len(), QUEUE_CAPACITY);
    assert_eq!(p.accept(raw("a", 1, 0, 0)), AcceptOutcome::MustWait);
    assert_eq!(p.queue.len(), QUEUE_CAPACITY);
    p.process_next().unwrap().unwrap();
    assert_eq!(p.accept(raw("a", 1, 0, 0)), AcceptOutcome::Accepted);
    while let Ok(Some(_)) = p.process_next() {}
    let a = p.ledger.get(&String::from("a")).unwrap();
    assert_eq!(a.sum, 101);
}

#[test]
fn requests_leave_in_submission_order() {
    let mut q = DispatchQueue::new();
    for id in ["p", "q", "r"] {
        let req = validate(raw(id, 1, 1, 1)).unwrap();
        assert_eq!(q.submit(req), SubmitOutcome::Enqueued);
    }
    assert_eq!(q.dequeue().unwrap().id, String::from("p"));
    assert_eq!(q.dequeue().unwrap().id, String::from("q"));
    assert_eq!(q.dequeue().unwrap().id, String::from("r"));
    assert!(q.dequeue().is_none());
}

#[test]
fn closed_queue_rejects_submissions() {
    let mut p = Pipeline::new();
    p.queue.close();
    assert_eq!(p.accept(raw("x", 1, 2, 3)), AcceptOutcome::Rejected);
    assert_eq!(p.queue.len(), 0);
}

#[test]
fn overflowing_total_is_a_state_fault() {
    let mut ledger = Ledger::new();
    let id = String::from("big");
    ledger.apply(&id, i64::MAX, 0, 0).unwrap();
    assert!(matches!(
        ledger.apply(&id, 1, 0, 0),
        Err(StateFault::TotalsOutOfRange)
    ));
    let held = ledger.get(&id).unwrap();
    assert_eq!(held.sum, i64::MAX);
    assert_eq!(held.difference, 0);
}

#[test]
fn apply_returns_the_stored_entry() {
    let mut ledger = Ledger::new();
    let id = String::from("w");
    let returned = ledger.apply(&id, 4, 5, 6).unwrap();
    assert_eq!(returned.id, String::from("w"));
    assert_eq!(returned.sum, 9);
    assert_eq!(returned.difference, -11);
    let held = ledger.get(&id).unwrap();
    assert_eq!(held.sum, returned.sum);
    assert_eq!(held.difference, returned.difference);
}

#[test]
fn snapshot_lists_every_identifier_once() {
    let mut ledger = Ledger::new();
    for id in ["u", "v", "u", "w"] {
        ledger.apply(&String::from(id), 1, 1, 1).unwrap();
    }
    let snapshot = ledger.snapshot();
    assert_eq!(snapshot.len(), 3);
    let mut ids: Vec<String> = snapshot.iter().map(|e| e.id.clone()).collect();
    ids.sort();
    assert_eq!(ids, vec![String::from("u"), String::from("v"), String::from("w")]);
    let u = snapshot.iter().find(|e| e.id == "u").unwrap();
    assert_eq!(u.sum, 4);
    assert_eq!(u.difference, -4);
}

#[test]
fn overflowing_difference_is_a_state_fault() {
    let mut ledger = Ledger::new();
    let id = String::from("low");
    assert!(matches!(
        ledger.apply(&id, 0, i64::MIN, i64::MIN),
        Err(StateFault::TotalsOutOfRange)
    ));
    assert!(ledger.get(&id).is_none());
}
