use zero2prod::domain::{NewSubscriber, NewsletterIssue, SubscriberEmail, SubscriberName};
use zero2prod::email_client::TransportError;
use zero2prod::idempotency::{IdempotencyKey, KeyError, Response};
use zero2prod::issue_delivery_worker::{
    finish_task, outcome_without_send, poll_delay, run_rounds, start_task, try_execute_task, ExecutionOutcome,
    TaskStart, WorkerError,
};
use zero2prod::persistence::{StartOutcome, Store, StoreError};
use zero2prod::routes::newsletters::{
    publish_newsletter, publish_newsletter_with_id, see_other, Content, FormData, PublishOutcome,
};

fn subscriber(email: &str, name: &str) -> NewSubscriber {
    NewSubscriber {
        email: SubscriberEmail::parse(email.to_string()).unwrap(),
        name: SubscriberName::parse(name.to_string()).unwrap(),
    }
}

fn create_unconfirmed_subscriber(store: &mut Store, id: u128, email: &str) {
    assert_eq!(store.insert_subscriber_with_id(id, &subscriber(email, "le guin")), Ok(id));
}

fn create_confirmed_subscriber(store: &mut Store, id: u128, email: &str) {
    create_unconfirmed_subscriber(store, id, email);
    assert!(store.confirm_subscriber(id));
}

fn form(title: &str, text: &str, html: &str, key: &str) -> FormData {
    FormData {
        title: title.to_string(),
        content: Content { html: html.to_string(), text: text.to_string() },
        idempotency_key: key.to_string(),
    }
}

fn newsletter_form(key: &str) -> FormData {
    form("Newsletter title", "Newsletter plain text content", "<p>Newsletter HTML content.</p>", key)
}

fn accepted(outcome: PublishOutcome) -> Response {
    match outcome {
        PublishOutcome::Accepted(response) => response,
        other => panic!("not accepted: {:?}", other),
    }
}

fn replayed(outcome: PublishOutcome) -> Response {
    match outcome {
        PublishOutcome::Replayed(response) => response,
        other => panic!("not replayed: {:?}", other),
    }
}

/// Runs the worker until the queue is empty or `rounds` rounds have passed.
/// The transport answers the n-th attempt with the n-th entry of `answers`,
/// and with success after that. Returns the number of attempts to send.
fn drain(store: &mut Store, answers: &[Result<(), TransportError>], rounds: usize) -> usize {
    let mut sent = 0;
    for _ in 0..rounds {
        let start = start_task(store);
        if let Some(result) = outcome_without_send(&start) {
            if result == Ok(ExecutionOutcome::EmptyQueue) {
                return sent;
            }
            continue;
        }
        match start {
            TaskStart::Send { claim, email, issue } => {
                assert!(!email.as_str().is_empty());
                assert!(!issue.title().is_empty());
                let answer = answers.get(sent).copied().unwrap_or(Ok(()));
                sent += 1;
                let _ = finish_task(store, claim, answer);
            }
            _ => unreachable!(),
        }
    }
    sent
}

#[test]
fn newsletters_are_not_delivered_to_unconfirmed_subscribers() {
    let mut store = Store::new();
    create_unconfirmed_subscriber(&mut store, 1, "ursula_le_guin@gmail.com");

    let response = accepted(publish_newsletter(&mut store, 7, newsletter_form("k-1"), 1_700_000_000));
    assert_eq!(response, see_other("/admin/dashboard"));
    assert_eq!(store.delivery_task_count(), 0);
    assert_eq!(drain(&mut store, &[], 10), 0);
}

#[test]
fn recipient_confirming_after_submission_gets_no_task() {
    let mut store = Store::new();
    create_unconfirmed_subscriber(&mut store, 1, "ursula_le_guin@gmail.com");
    accepted(publish_newsletter_with_id(&mut store, 7, newsletter_form("k-1"), 100, 1_700_000_000));
    assert_eq!(store.delivery_task_count(), 0);

    assert!(store.confirm_subscriber(1));
    assert_eq!(store.delivery_task_count(), 0);
    assert_eq!(drain(&mut store, &[], 10), 0);
}

#[test]
fn newsletters_are_delivered_to_confirmed_subscribers() {
    let mut store = Store::new();
    create_confirmed_subscriber(&mut store, 1, "a@example.com");
    create_confirmed_subscriber(&mut store, 2, "b@example.com");
    create_unconfirmed_subscriber(&mut store, 3, "c@example.com");

    let response = accepted(publish_newsletter(&mut store, 7, form("X", "A", "B", "fresh-key"), 1_700_000_000));
    assert_eq!(response.status_code, 303);
    assert_eq!(response.headers.len(), 1);
    assert_eq!(response.headers[0].name, "Location");
    assert_eq!(response.headers[0].value, "/admin/dashboard");
    assert_eq!(response.body, "");
    assert_eq!(store.delivery_task_count(), 2);
    assert_eq!(store.issue_count(), 1);

    assert_eq!(drain(&mut store, &[], 10), 2);
    assert_eq!(store.delivery_task_count(), 0);
}

#[test]
fn worker_sends_what_was_published() {
    let mut store = Store::new();
    create_confirmed_subscriber(&mut store, 1, "a@example.com");
    accepted(publish_newsletter_with_id(&mut store, 7, form("X", "A", "B", "k"), 55, 1_700_000_000));
    match start_task(&mut store) {
        TaskStart::Send { claim, email, issue } => {
            assert_eq!(email.as_str(), "a@example.com");
            assert_eq!(issue.title(), "X");
            assert_eq!(issue.text(), "A");
            assert_eq!(issue.html(), "B");
            assert_eq!(finish_task(&mut store, claim, Ok(())), Ok(ExecutionOutcome::TaskComplete));
        }
        other => panic!("{:?}", other),
    }
    assert_eq!(store.delivery_task_count(), 0);
    assert!(matches!(start_task(&mut store), TaskStart::EmptyQueue));
}

#[test]
fn recoverable_failure_leaves_the_task_for_the_next_poll() {
    let mut store = Store::new();
    create_confirmed_subscriber(&mut store, 1, "a@example.com");
    accepted(publish_newsletter(&mut store, 7, newsletter_form("k"), 1_700_000_000));
    assert_eq!(store.delivery_task_count(), 1);

    let claim = match start_task(&mut store) {
        TaskStart::Send { claim, .. } => claim,
        other => panic!("{:?}", other),
    };
    assert_eq!(
        finish_task(&mut store, claim, Err(TransportError::Recoverable)),
        Err(WorkerError::Transport)
    );
    assert_eq!(store.delivery_task_count(), 1);

    let claim = match start_task(&mut store) {
        TaskStart::Send { claim, .. } => claim,
        other => panic!("{:?}", other),
    };
    assert_eq!(finish_task(&mut store, claim, Ok(())), Ok(ExecutionOutcome::TaskComplete));
    assert_eq!(store.delivery_task_count(), 0);
}

#[test]
fn drain_with_one_retry_calls_the_transport_twice() {
    let mut store = Store::new();
    create_confirmed_subscriber(&mut store, 1, "a@example.com");
    accepted(publish_newsletter(&mut store, 7, newsletter_form("k"), 1_700_000_000));
    let sent = drain(&mut store, &[Err(TransportError::Recoverable), Ok(())], 10);
    assert_eq!(sent, 2);
    assert_eq!(store.delivery_task_count(), 0);
}

#[test]
fn rejected_recipient_is_discarded() {
    let mut store = Store::new();
    create_confirmed_subscriber(&mut store, 1, "a@example.com");
    accepted(publish_newsletter(&mut store, 7, newsletter_form("k"), 1_700_000_000));
    let sent = drain(&mut store, &[Err(TransportError::RecipientRejected)], 10);
    assert_eq!(sent, 1);
    assert_eq!(store.delivery_task_count(), 0);
}

#[test]
fn task_of_a_missing_issue_is_discarded() {
    let mut store = Store::new();
    create_confirmed_subscriber(&mut store, 1, "a@example.com");
    let key = IdempotencyKey::parse("k".to_string()).unwrap();
    let mut tx = match store.try_start(&key, 7) {
        Some(StartOutcome::ProceedWithTransaction(tx)) => tx,
        other => panic!("{:?}", other),
    };
    store.enqueue_newsletter_delivery_tasks(&mut tx, 999);
    assert!(store.save_completion(tx, see_other("/admin/dashboard")).is_ok());
    accepted(publish_newsletter_with_id(&mut store, 7, newsletter_form("k2"), 5, 1_700_000_000));
    assert_eq!(store.delivery_task_count(), 2);
    // the task that refers to no issue is discarded, and the one behind it is reached
    let start = start_task(&mut store);
    assert!(matches!(start, TaskStart::Discarded));
    assert_eq!(outcome_without_send(&start), Some(Ok(ExecutionOutcome::TaskComplete)));
    assert_eq!(store.delivery_task_count(), 1);
    match start_task(&mut store) {
        TaskStart::Send { claim, issue, .. } => {
            assert_eq!(issue.title(), "Newsletter title");
            assert_eq!(finish_task(&mut store, claim, Ok(())), Ok(ExecutionOutcome::TaskComplete));
        }
        other => panic!("{:?}", other),
    }
    assert_eq!(store.delivery_task_count(), 0);
}

#[test]
fn newsletter_create_is_idempotent() {
    let mut store = Store::new();
    create_confirmed_subscriber(&mut store, 1, "a@example.com");
    create_confirmed_subscriber(&mut store, 2, "b@example.com");

    let first = accepted(publish_newsletter(&mut store, 7, newsletter_form("same-key"), 1_700_000_000));
    assert_eq!(store.delivery_task_count(), 2);
    let second = replayed(publish_newsletter(&mut store, 7, newsletter_form("same-key"), 1_700_000_000));
    assert_eq!(store.delivery_task_count(), 2);
    assert_eq!(store.issue_count(), 1);
    assert_eq!(first, second);

    assert_eq!(drain(&mut store, &[], 10), 2);
}

#[test]
fn different_keys_enqueue_their_own_tasks() {
    let mut store = Store::new();
    create_confirmed_subscriber(&mut store, 1, "a@example.com");
    create_confirmed_subscriber(&mut store, 2, "b@example.com");

    accepted(publish_newsletter_with_id(&mut store, 7, newsletter_form("key-1"), 10, 1_700_000_000));
    accepted(publish_newsletter_with_id(&mut store, 7, newsletter_form("key-2"), 11, 1_700_000_000));
    assert_eq!(store.delivery_task_count(), 4);
    assert_eq!(store.issue_count(), 2);
    // the same key under another user is another command
    accepted(publish_newsletter_with_id(&mut store, 8, newsletter_form("key-1"), 12, 1_700_000_000));
    assert_eq!(store.delivery_task_count(), 6);
    assert_eq!(drain(&mut store, &[], 10), 6);
}

#[test]
fn concurrent_form_submission_is_handled_gracefully() {
    let mut store = Store::new();
    create_confirmed_subscriber(&mut store, 1, "a@example.com");
    create_confirmed_subscriber(&mut store, 2, "b@example.com");

    // the first caller starts and is still at work
    let key = IdempotencyKey::parse("same-key".to_string()).unwrap();
    let issue = NewsletterIssue::validate_new(
        "Newsletter title".to_string(),
        "Newsletter plain text content".to_string(),
        "<p>Newsletter HTML content.</p>".to_string(),
    )
    .unwrap();
    let mut tx = match store.try_start(&key, 7) {
        Some(StartOutcome::ProceedWithTransaction(tx)) => tx,
        other => panic!("{:?}", other),
    };
    let issue_id = store.insert_newsletter_issue(&mut tx, &issue, 1_700_000_000).unwrap();
    store.enqueue_newsletter_delivery_tasks(&mut tx, issue_id);
    // nothing is visible yet
    assert_eq!(store.delivery_task_count(), 0);
    assert_eq!(store.issue_count(), 0);

    // the second caller arrives in between and has to wait
    assert!(matches!(
        publish_newsletter(&mut store, 7, newsletter_form("same-key"), 1_700_000_000),
        PublishOutcome::Busy
    ));
    assert_eq!(store.delivery_task_count(), 0);

    // the first caller commits
    let first = store.save_completion(tx, see_other("/admin/dashboard")).unwrap();
    assert_eq!(store.delivery_task_count(), 2);

    // the second caller asks again and gets the first caller's response
    let second = replayed(publish_newsletter(&mut store, 7, newsletter_form("same-key"), 1_700_000_000));
    assert_eq!(first, second);
    assert_eq!(store.delivery_task_count(), 2);
    assert_eq!(store.issue_count(), 1);
}

#[test]
fn rolled_back_submission_leaves_no_trace() {
    let mut store = Store::new();
    create_confirmed_subscriber(&mut store, 1, "a@example.com");
    let key = IdempotencyKey::parse("k".to_string()).unwrap();
    let tx = match store.try_start(&key, 7) {
        Some(StartOutcome::ProceedWithTransaction(tx)) => tx,
        other => panic!("{:?}", other),
    };
    assert!(store.try_start(&key, 7).is_none());
    store.rollback(tx);
    assert_eq!(store.delivery_task_count(), 0);
    accepted(publish_newsletter(&mut store, 7, newsletter_form("k"), 1_700_000_000));
    assert_eq!(store.delivery_task_count(), 1);
}

#[test]
fn duplicate_issue_id_fails_and_frees_the_key() {
    let mut store = Store::new();
    create_confirmed_subscriber(&mut store, 1, "a@example.com");
    accepted(publish_newsletter_with_id(&mut store, 7, newsletter_form("k1"), 10, 1_700_000_000));
    assert!(matches!(
        publish_newsletter_with_id(&mut store, 7, newsletter_form("k2"), 10, 1_700_000_000),
        PublishOutcome::Failed(StoreError::DuplicateId)
    ));
    assert_eq!(store.delivery_task_count(), 1);
    accepted(publish_newsletter_with_id(&mut store, 7, newsletter_form("k2"), 11, 1_700_000_000));
    assert_eq!(store.delivery_task_count(), 2);
}

#[test]
fn new_newsletter_must_have_title() {
    let mut store = Store::new();
    let outcome = publish_newsletter(
        &mut store,
        7,
        form("", "Newsletter plain text body.", "<p>Newsletter html body.", "k"), 1_700_000_000,
    );
    match outcome {
        PublishOutcome::Invalid(e) => {
            assert_eq!(e.iter().to_vec(), vec!["The newsletter must have a title."])
        }
        other => panic!("{:?}", other),
    }
    // an invalid command never reaches the idempotency store
    accepted(publish_newsletter(&mut store, 7, newsletter_form("k"), 1_700_000_000));
}

#[test]
fn new_newsletter_must_have_text_content() {
    let mut store = Store::new();
    let outcome = publish_newsletter(&mut store, 7, form("Newsletter title", "", "<p>Newsletter html body.", "k"), 1_700_000_000);
    match outcome {
        PublishOutcome::Invalid(e) => {
            assert_eq!(e.iter().to_vec(), vec!["The newsletter must have text content."])
        }
        other => panic!("{:?}", other),
    }
}

#[test]
fn new_newsletter_must_have_html_content() {
    let mut store = Store::new();
    let outcome = publish_newsletter(
        &mut store,
        7,
        form("Newsletter title", "Newsletter plain text body.", "", "k"), 1_700_000_000,
    );
    match outcome {
        PublishOutcome::Invalid(e) => {
            assert_eq!(e.iter().to_vec(), vec!["The newsletter must have HTML content."])
        }
        other => panic!("{:?}", other),
    }
}

#[test]
fn empty_newsletter_earns_all_complaints_in_order() {
    let e = NewsletterIssue::validate_new(String::new(), String::new(), String::new()).unwrap_err();
    assert_eq!(
        e.iter().to_vec(),
        vec![
            "The newsletter must have a title.",
            "The newsletter must have text content.",
            "The newsletter must have HTML content.",
        ]
    );
}

#[test]
fn malformed_keys_are_rejected_before_any_effect() {
    let mut store = Store::new();
    create_confirmed_subscriber(&mut store, 1, "a@example.com");
    assert!(matches!(
        publish_newsletter(&mut store, 7, newsletter_form(""), 1_700_000_000),
        PublishOutcome::BadKey(KeyError::Empty)
    ));
    let long = "k".repeat(50);
    assert!(matches!(
        publish_newsletter(&mut store, 7, newsletter_form(&long), 1_700_000_000),
        PublishOutcome::BadKey(KeyError::TooLong)
    ));
    assert_eq!(store.delivery_task_count(), 0);
    assert_eq!(store.issue_count(), 0);
    let longest = "k".repeat(49);
    accepted(publish_newsletter(&mut store, 7, newsletter_form(&longest), 1_700_000_000));
    assert_eq!(IdempotencyKey::parse(longest.clone()).unwrap().as_str(), longest);
}

#[test]
fn worker_rests_by_outcome() {
    let empty: Result<ExecutionOutcome, WorkerError> = Ok(ExecutionOutcome::EmptyQueue);
    let complete: Result<ExecutionOutcome, WorkerError> = Ok(ExecutionOutcome::TaskComplete);
    let transport: Result<ExecutionOutcome, WorkerError> = Err(WorkerError::Transport);
    let other: Result<ExecutionOutcome, String> = Err("the store cannot be reached".to_string());
    assert_eq!(poll_delay(&empty), 10);
    assert_eq!(poll_delay(&complete), 0);
    assert_eq!(poll_delay(&transport), 1);
    assert_eq!(poll_delay(&other), 1);
}

#[test]
fn stored_issue_can_be_fetched() {
    let mut store = Store::new();
    accepted(publish_newsletter_with_id(&mut store, 7, form("X", "A", "B", "k"), 42, 1_700_000_000));
    let issue = store.fetch_newsletter_issue(42).unwrap();
    assert_eq!((issue.title(), issue.text(), issue.html()), ("X", "A", "B"));
    assert_eq!(store.published_at(42), Some(1_700_000_000));
    assert_eq!(store.published_at(43), None);
    assert_eq!(store.fetch_newsletter_issue(43).unwrap_err(), StoreError::NotFound);
}

#[test]
fn rounds_drain_the_queue_and_retry_on_recoverable_failure() {
    let mut store = Store::new();
    create_confirmed_subscriber(&mut store, 1, "a@example.com");
    create_confirmed_subscriber(&mut store, 2, "b@example.com");
    accepted(publish_newsletter(&mut store, 7, form("X", "A", "B", "fresh"), 1_700_000_000));
    assert_eq!(store.delivery_task_count(), 2);
    assert_eq!(
        try_execute_task(&mut store, Err(TransportError::Recoverable)),
        Err(WorkerError::Transport)
    );
    assert_eq!(store.delivery_task_count(), 2);
    assert_eq!(try_execute_task(&mut store, Ok(())), Ok(ExecutionOutcome::TaskComplete));
    assert_eq!(store.delivery_task_count(), 1);
    assert_eq!(
        try_execute_task(&mut store, Err(TransportError::RecipientRejected)),
        Ok(ExecutionOutcome::TaskComplete)
    );
    assert_eq!(store.delivery_task_count(), 0);
    assert_eq!(try_execute_task(&mut store, Ok(())), Ok(ExecutionOutcome::EmptyQueue));
}

#[test]
fn two_workers_never_hold_the_same_task() {
    let mut store = Store::new();
    create_confirmed_subscriber(&mut store, 1, "a@example.com");
    create_confirmed_subscriber(&mut store, 2, "b@example.com");
    accepted(publish_newsletter(&mut store, 7, newsletter_form("k"), 1_700_000_000));
    let (first, first_task) = store.dequeue_newsletter_delivery_task().unwrap();
    let (second, second_task) = store.dequeue_newsletter_delivery_task().unwrap();
    assert_ne!(first.ticket(), second.ticket());
    assert_ne!(first_task, second_task);
    assert_eq!(first_task.issue_id, second_task.issue_id);
    assert!(store.dequeue_newsletter_delivery_task().is_none());
    // the first worker vanishes, the second finishes
    assert!(store.release_newsletter_delivery_task(first));
    assert!(store.delete_newsletter_delivery_task(second));
    let (again, task) = store.dequeue_newsletter_delivery_task().unwrap();
    assert_eq!(task, first_task);
    assert!(store.delete_newsletter_delivery_task(again));
    assert_eq!(store.delivery_task_count(), 0);
}

#[test]
fn scripted_rounds_count_the_attempts() {
    let mut store = Store::new();
    create_confirmed_subscriber(&mut store, 1, "a@example.com");
    create_confirmed_subscriber(&mut store, 2, "b@example.com");
    accepted(publish_newsletter(&mut store, 7, form("X", "A", "B", "fresh"), 1_700_000_000));
    // two tasks, a transport that always delivers: two attempts, empty queue
    assert_eq!(run_rounds(&mut store, &vec![Ok(()), Ok(())]), 2);
    assert_eq!(store.delivery_task_count(), 0);
    assert_eq!(run_rounds(&mut store, &vec![Ok(()), Ok(())]), 0);

    // one task, a recoverable failure first: attempted twice, deleted after the second
    accepted(publish_newsletter(&mut store, 7, form("X", "A", "B", "next"), 1_700_000_001));
    assert_eq!(store.delivery_task_count(), 2);
    assert_eq!(run_rounds(&mut store, &vec![Err(TransportError::Recoverable)]), 1);
    assert_eq!(store.delivery_task_count(), 2);
    assert_eq!(run_rounds(&mut store, &vec![Ok(()), Ok(()), Ok(())]), 2);
    assert_eq!(store.delivery_task_count(), 0);
}

#[test]
fn many_claims_at_once_hand_out_every_task_once() {
    let mut store = Store::new();
    for id in 1..=5u128 {
        create_confirmed_subscriber(&mut store, id, &format!("r{}@example.com", id));
    }
    accepted(publish_newsletter_with_id(&mut store, 7, newsletter_form("k"), 77, 1_700_000_000));
    assert_eq!(store.delivery_task_count(), 5);

    let claims = store.dequeue_newsletter_delivery_tasks(5);
    assert_eq!(claims.len(), 5);
    let mut recipients: Vec<u128> = claims.iter().map(|(_, task)| task.subscriber_id).collect();
    recipients.sort();
    assert_eq!(recipients, vec![1, 2, 3, 4, 5]);
    assert!(claims.iter().all(|(_, task)| task.issue_id == 77));
    let mut tickets: Vec<u64> = claims.iter().map(|(claim, _)| claim.ticket()).collect();
    tickets.sort();
    tickets.dedup();
    assert_eq!(tickets.len(), 5);
    // every task is held: a further claim finds nothing, and nothing is lost
    assert!(store.dequeue_newsletter_delivery_task().is_none());
    assert!(store.dequeue_newsletter_delivery_tasks(3).is_empty());
    assert_eq!(store.delivery_task_count(), 5);
    for (claim, _) in claims {
        assert!(store.delete_newsletter_delivery_task(claim));
    }
    assert_eq!(store.delivery_task_count(), 0);
}

#[test]
fn fewer_tasks_than_claims_hand_out_what_is_there() {
    let mut store = Store::new();
    create_confirmed_subscriber(&mut store, 1, "a@example.com");
    create_confirmed_subscriber(&mut store, 2, "b@example.com");
    accepted(publish_newsletter(&mut store, 7, newsletter_form("k"), 1_700_000_000));
    let claims = store.dequeue_newsletter_delivery_tasks(4);
    assert_eq!(claims.len(), 2);
    assert_ne!(claims[0].1, claims[1].1);
    assert_ne!(claims[0].0.ticket(), claims[1].0.ticket());
}
