use zero2prod::domain::NewsletterIssue;
use zero2prod::email_client::{
    classify, classify_status, disposition, Disposition, TransportAnswer, TransportError,
};
use zero2prod::idempotency::{start_decision, Found, Header, IdempotencyKey, IdempotencyStore, KeyError, Response};
use zero2prod::issue_delivery_worker::{
    poll_delay_with, step, try_execute_task, ExecutionOutcome, PollIntervals, WorkerError, WorkerEvent,
    WorkerState,
};
use zero2prod::persistence::{StartOutcome, Store, StoreError};
use zero2prod::routes::newsletters::see_other;

fn key(text: &str) -> IdempotencyKey {
    IdempotencyKey::parse(text.to_string()).unwrap()
}

fn response(status_code: u16, body: &str) -> Response {
    Response {
        status_code,
        headers: vec![Header { name: "X-Test".to_string(), value: "1".to_string() }],
        body: body.to_string(),
    }
}

#[test]
fn keys_are_validated() {
    assert_eq!(IdempotencyKey::parse(String::new()).unwrap_err(), KeyError::Empty);
    assert_eq!(IdempotencyKey::parse("a".repeat(50)).unwrap_err(), KeyError::TooLong);
    assert_eq!(IdempotencyKey::parse("a".repeat(51)).unwrap_err(), KeyError::TooLong);
    assert_eq!(IdempotencyKey::parse("a".repeat(49)).unwrap().as_str(), "a".repeat(49));
    assert_eq!(key("5f1a").clone().as_str(), "5f1a");
}

#[test]
fn first_start_wins_and_the_saved_response_is_replayed() {
    let mut table = IdempotencyStore::new();
    assert_eq!(table.len(), 0);
    assert!(matches!(table.start(&key("k"), 1), Found::Fresh));
    assert_eq!(table.len(), 1);
    assert!(matches!(table.start(&key("k"), 1), Found::InFlight));
    assert_eq!(table.len(), 1);
    // another user, or another key, is another command
    assert!(matches!(table.start(&key("k"), 2), Found::Fresh));
    assert!(matches!(table.start(&key("other"), 1), Found::Fresh));
    assert_eq!(table.len(), 3);

    assert!(table.complete(&key("k"), 1, response(200, "done")));
    assert!(!table.complete(&key("k"), 1, response(500, "again")));
    assert!(!table.complete(&key("unseen"), 1, response(500, "again")));
    match table.start(&key("k"), 1) {
        Found::Saved(saved) => assert_eq!(saved, response(200, "done")),
        other => panic!("{:?}", other),
    }
    assert!(matches!(table.start(&key("k"), 2), Found::InFlight));
    assert_eq!(table.len(), 3);
}

#[test]
fn aborted_key_can_be_started_again() {
    let mut table = IdempotencyStore::new();
    assert!(matches!(table.start(&key("k"), 1), Found::Fresh));
    assert!(table.abort(&key("k"), 1));
    assert_eq!(table.len(), 0);
    assert!(!table.abort(&key("k"), 1));
    assert!(matches!(table.start(&key("k"), 1), Found::Fresh));
    assert!(table.complete(&key("k"), 1, response(303, "")));
    // a completed key is never forgotten
    assert!(!table.abort(&key("k"), 1));
    assert!(matches!(table.start(&key("k"), 1), Found::Saved(_)));
}

#[test]
fn store_answer_is_read_as_a_start() {
    assert!(matches!(start_decision(1, None), Found::Fresh));
    assert!(matches!(start_decision(1, Some(response(200, "x"))), Found::Fresh));
    assert!(matches!(start_decision(0, None), Found::InFlight));
    match start_decision(0, Some(response(200, "x"))) {
        Found::Saved(saved) => assert_eq!(saved, response(200, "x")),
        other => panic!("{:?}", other),
    }
}

#[test]
fn responses_are_cloned_verbatim() {
    let r = response(201, "body");
    assert_eq!(r.clone(), r);
    let redirect = see_other("/login");
    assert_eq!(redirect.status_code, 303);
    assert_eq!(redirect.headers, vec![Header { name: "Location".to_string(), value: "/login".to_string() }]);
    assert_eq!(redirect.body, "");
}

#[test]
fn transaction_of_another_store_is_refused() {
    let mut a = Store::new();
    let mut b = Store::new();
    let tx = match a.try_start(&key("k"), 1) {
        Some(StartOutcome::ProceedWithTransaction(tx)) => tx,
        other => panic!("{:?}", other),
    };
    assert_eq!(b.save_completion(tx, see_other("/x")).unwrap_err(), StoreError::TransactionClosed);
    assert_eq!(b.issue_count(), 0);
}

#[test]
fn one_issue_per_transaction() {
    let mut store = Store::new();
    let issue = NewsletterIssue::validate_new("T".to_string(), "A".to_string(), "B".to_string()).unwrap();
    let mut tx = match store.try_start(&key("k"), 1) {
        Some(StartOutcome::ProceedWithTransaction(tx)) => tx,
        other => panic!("{:?}", other),
    };
    assert_eq!(store.insert_newsletter_issue_with_id(&mut tx, 1, &issue, 1_700_000_000), Ok(1));
    assert_eq!(
        store.insert_newsletter_issue_with_id(&mut tx, 2, &issue, 1_700_000_000),
        Err(StoreError::IssueAlreadyStored)
    );
    assert!(store.save_completion(tx, see_other("/x")).is_ok());
    assert_eq!(store.issue_count(), 1);
    let mut tx = match store.try_start(&key("k2"), 1) {
        Some(StartOutcome::ProceedWithTransaction(tx)) => tx,
        other => panic!("{:?}", other),
    };
    assert_eq!(store.insert_newsletter_issue_with_id(&mut tx, 1, &issue, 1_700_000_000), Err(StoreError::DuplicateId));
    store.rollback(tx);
    assert_eq!(store.issue_count(), 1);
}

#[test]
fn transport_status_is_classified() {
    assert_eq!(classify_status(200), Ok(()));
    assert_eq!(classify_status(299), Ok(()));
    assert_eq!(classify_status(400), Err(TransportError::RecipientRejected));
    assert_eq!(classify_status(422), Err(TransportError::RecipientRejected));
    assert_eq!(classify_status(499), Err(TransportError::RecipientRejected));
    assert_eq!(classify_status(500), Err(TransportError::Recoverable));
    assert_eq!(classify_status(503), Err(TransportError::Recoverable));
    assert_eq!(classify_status(301), Err(TransportError::Recoverable));
    assert_eq!(classify_status(199), Err(TransportError::Recoverable));
    assert_eq!(disposition(Ok(())), Disposition::Ack);
    assert_eq!(disposition(Err(TransportError::RecipientRejected)), Disposition::Ack);
    assert_eq!(disposition(Err(TransportError::Recoverable)), Disposition::Requeue);
}

#[test]
fn worker_moves_between_idle_and_processing() {
    assert_eq!(step(WorkerState::Idle, WorkerEvent::TaskFound), Some((WorkerState::Processing, 0)));
    assert_eq!(step(WorkerState::Idle, WorkerEvent::QueueEmpty), Some((WorkerState::Idle, 10)));
    assert_eq!(step(WorkerState::Processing, WorkerEvent::Acked), Some((WorkerState::Idle, 0)));
    assert_eq!(step(WorkerState::Processing, WorkerEvent::AckFailed), Some((WorkerState::Idle, 1)));
    assert_eq!(step(WorkerState::Idle, WorkerEvent::StoreFailed), Some((WorkerState::Idle, 1)));
    assert_eq!(step(WorkerState::Processing, WorkerEvent::StoreFailed), Some((WorkerState::Idle, 1)));
    assert_eq!(step(WorkerState::Idle, WorkerEvent::Acked), None);
    assert_eq!(step(WorkerState::Idle, WorkerEvent::AckFailed), None);
    assert_eq!(step(WorkerState::Processing, WorkerEvent::TaskFound), None);
    assert_eq!(step(WorkerState::Processing, WorkerEvent::QueueEmpty), None);
}

#[test]
fn round_on_an_empty_store_finds_nothing() {
    let mut store = Store::new();
    assert_eq!(try_execute_task(&mut store, Ok(())), Ok(ExecutionOutcome::EmptyQueue));
    assert_eq!(
        try_execute_task(&mut store, Err(TransportError::Recoverable)),
        Ok(ExecutionOutcome::EmptyQueue)
    );
    let _ = WorkerError::Transport;
}

#[test]
fn timeouts_are_recoverable() {
    assert_eq!(classify(TransportAnswer::Status(200)), Ok(()));
    assert_eq!(classify(TransportAnswer::Status(404)), Err(TransportError::RecipientRejected));
    assert_eq!(classify(TransportAnswer::Status(502)), Err(TransportError::Recoverable));
    assert_eq!(classify(TransportAnswer::TimedOut), Err(TransportError::Recoverable));
    assert_eq!(classify(TransportAnswer::Unreachable), Err(TransportError::Recoverable));
}

#[test]
fn poll_intervals_can_be_tuned() {
    assert_eq!(PollIntervals::default(), PollIntervals { idle_secs: 10, error_secs: 1 });
    let intervals = PollIntervals { idle_secs: 30, error_secs: 3 };
    let empty: Result<ExecutionOutcome, WorkerError> = Ok(ExecutionOutcome::EmptyQueue);
    let complete: Result<ExecutionOutcome, WorkerError> = Ok(ExecutionOutcome::TaskComplete);
    let failed: Result<ExecutionOutcome, WorkerError> = Err(WorkerError::Transport);
    assert_eq!(poll_delay_with(intervals, &empty), 30);
    assert_eq!(poll_delay_with(intervals, &complete), 0);
    assert_eq!(poll_delay_with(intervals, &failed), 3);
}

#[test]
fn tasks_that_come_twice_fail_the_commit() {
    let mut store = Store::new();
    let subscriber = zero2prod::domain::NewSubscriber {
        email: zero2prod::domain::SubscriberEmail::parse("a@example.com".to_string()).unwrap(),
        name: zero2prod::domain::SubscriberName::parse("A".to_string()).unwrap(),
    };
    assert_eq!(store.insert_subscriber_with_id(1, &subscriber), Ok(1));
    assert!(store.confirm_subscriber(1));
    let mut tx = match store.try_start(&key("k"), 1) {
        Some(StartOutcome::ProceedWithTransaction(tx)) => tx,
        other => panic!("{:?}", other),
    };
    store.enqueue_newsletter_delivery_tasks(&mut tx, 5);
    store.enqueue_newsletter_delivery_tasks(&mut tx, 5);
    assert_eq!(store.save_completion(tx, see_other("/x")).unwrap_err(), StoreError::DuplicateTask);
    assert_eq!(store.delivery_task_count(), 0);
    // the key is free again
    assert!(matches!(store.try_start(&key("k"), 1), Some(StartOutcome::ProceedWithTransaction(_))));
}
