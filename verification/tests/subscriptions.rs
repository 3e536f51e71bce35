use zero2prod::domain::new_subscriber::generate_confirmation_token;
use zero2prod::domain::new_subscriber::token_from_bytes;
use zero2prod::domain::{NewSubscriber, SubscriberEmail, SubscriberName};
use zero2prod::email_client::TransportError;
use zero2prod::issue_delivery_worker::WorkerError;
use zero2prod::persistence::{Dequeued, Store, StoreError};
use zero2prod::routes::subscriptions::{error_chain_fmt, subscribe, FormData, SubscribeError};
use zero2prod::routes::subscriptions_confirm::{confirm, ConfirmError, InvalidToken, Parameters};
use zero2prod::subscription_confirmation_delivery_worker::{
    compose_confirmation_email, finish_task, poll_delay, start_task, try_execute_task, ExecutionOutcome, TaskStart,
};
use zero2prod::workflows::{complete_new_subscriber_workflow, complete_new_subscriber_workflow_with};

fn form(name: &str, email: &str) -> FormData {
    FormData { email: email.to_string(), name: name.to_string() }
}

#[test]
fn subscribe_persists_the_new_subscriber() {
    let mut store = Store::new();
    assert!(subscribe(&mut store, form("le guin", "ursula_le_guin@gmail.com")).is_ok());
    assert_eq!(store.subscriber_count(), 1);
    assert_eq!(store.confirmation_task_count(), 1);
    match start_task(&mut store, "http://127.0.0.1") {
        TaskStart::Send { subscriber, .. } => {
            assert_eq!(subscriber.email.as_str(), "ursula_le_guin@gmail.com");
            assert_eq!(subscriber.name.as_str(), "le guin");
        }
        other => panic!("{:?}", other),
    }
}

#[test]
fn subscribe_returns_a_400_when_fields_are_present_but_invalid() {
    let cases = [
        ("", "foobar@gmail.com", "empty name"),
        ("foobar", "", "empty email"),
        ("foobar", "notanemail", "not an email"),
    ];
    for (name, email, description) in cases {
        let mut store = Store::new();
        let e = subscribe(&mut store, form(name, email)).unwrap_err();
        assert_eq!(e.status_code(), 400, "description: {}", description);
        assert!(matches!(e, SubscribeError::ValidationError(_)));
        assert_eq!(store.subscriber_count(), 0);
        assert_eq!(store.confirmation_task_count(), 0);
    }
}

#[test]
fn validation_messages_name_the_offender() {
    let mut store = Store::new();
    match subscribe(&mut store, form("a{b", "x@y.z")) {
        Err(SubscribeError::ValidationError(text)) => assert_eq!(text, "a{b is not a valid subscriber name."),
        other => panic!("{:?}", other),
    }
    match subscribe(&mut store, form("ab", "x@@y.z")) {
        Err(SubscribeError::ValidationError(text)) => assert_eq!(text, "x@@y.z is not a valid subscriber email."),
        other => panic!("{:?}", other),
    }
}

#[test]
fn names_are_validated() {
    assert!(SubscriberName::parse("Ursula Le Guin".to_string()).is_ok());
    assert!(SubscriberName::parse("a".repeat(256)).is_ok());
    assert!(SubscriberName::parse("a".repeat(257)).is_err());
    assert!(SubscriberName::parse(" \t\n".to_string()).is_err());
    assert!(SubscriberName::parse(String::new()).is_err());
    for c in ['/', '(', ')', '"', '<', '>', '\\', '{', '}'] {
        assert!(SubscriberName::parse(format!("a{}b", c)).is_err());
    }
}

#[test]
fn emails_are_validated() {
    assert!(SubscriberEmail::parse("ursula@domain.com".to_string()).is_ok());
    assert!(SubscriberEmail::parse("a@b".to_string()).is_ok());
    assert!(SubscriberEmail::parse(String::new()).is_err());
    assert!(SubscriberEmail::parse("ursuladomain.com".to_string()).is_err());
    assert!(SubscriberEmail::parse("@domain.com".to_string()).is_err());
    assert!(SubscriberEmail::parse("ursula@".to_string()).is_err());
    assert!(SubscriberEmail::parse("a@b@c".to_string()).is_err());
    assert!(SubscriberEmail::parse("a b@c.d".to_string()).is_err());
}

#[test]
fn confirmation_tokens_are_alphanumeric() {
    let a = generate_confirmation_token();
    assert_eq!(a.chars().count(), 25);
    assert!(a.chars().all(|c| c.is_ascii_alphanumeric()));
    let mut distinct = false;
    for _ in 0..20 {
        if generate_confirmation_token() != a {
            distinct = true;
        }
    }
    assert!(distinct);
    assert_eq!(token_from_bytes(&vec![b'a', b'Z', b'0']), "aZ0");
    assert_eq!(token_from_bytes(&vec![]), "");
}

#[test]
fn dequeue_task_works_ok() {
    let mut store = Store::new();
    let new_subscriber = NewSubscriber {
        email: SubscriberEmail::parse("test@test.com".to_owned()).unwrap(),
        name: SubscriberName::parse("Joe Test".to_owned()).unwrap(),
    };
    assert!(complete_new_subscriber_workflow(&mut store, &new_subscriber).is_ok());

    let task = store.dequeue_subscription_confirmation_task_and_parse();
    assert!(matches!(task, Dequeued::Task(..)));
    let (transaction, task) = match task {
        Dequeued::Task(transaction, task) => (transaction, task),
        other => panic!("{:?}", other),
    };
    assert_eq!(task.subscriber.email.as_str(), "test@test.com");
    assert_eq!(task.confirmation_token.chars().count(), 25);
    let r = store.delete_subscription_confirmation_task(transaction);
    assert!(r);

    let task = store.dequeue_subscription_confirmation_task_and_parse();
    assert!(matches!(task, Dequeued::Empty));
}

#[test]
fn subscribe_sends_a_confirmation_email_with_a_link() {
    let mut store = Store::new();
    let new_subscriber = NewSubscriber {
        email: SubscriberEmail::parse("fred@example.com".to_owned()).unwrap(),
        name: SubscriberName::parse("Fred".to_owned()).unwrap(),
    };
    assert_eq!(complete_new_subscriber_workflow_with(&mut store, &new_subscriber, 5, "tok123"), Ok(()));
    match start_task(&mut store, "http://127.0.0.1") {
        TaskStart::Send { claim, subscriber, message } => {
            assert_eq!(subscriber.email.as_str(), "fred@example.com");
            assert_eq!(message.title(), "Welcome!");
            assert_eq!(
                message.text(),
                "Welcome to our newsletter!\nVisit http://127.0.0.1/subscriptions/confirm?subscription_token=tok123 to confirm your subscription."
            );
            assert_eq!(
                message.html(),
                "Welcome to our newsletter!<br />Click <a href=\"http://127.0.0.1/subscriptions/confirm?subscription_token=tok123\">here</a> to confirm your subscription."
            );
            assert_eq!(finish_task(&mut store, claim, Ok(())), Ok(ExecutionOutcome::TaskComplete));
        }
        other => panic!("{:?}", other),
    }
    assert_eq!(store.confirmation_task_count(), 0);
    assert!(matches!(start_task(&mut store, "http://127.0.0.1"), TaskStart::EmptyQueue));
}

#[test]
fn confirmation_email_is_composed_from_base_url_and_token() {
    let message = compose_confirmation_email("https://x.org", "T");
    assert_eq!(message.title(), "Welcome!");
    assert!(message.text().contains("https://x.org/subscriptions/confirm?subscription_token=T"));
    assert!(message.html().contains("<a href=\"https://x.org/subscriptions/confirm?subscription_token=T\">"));
}

#[test]
fn failed_confirmation_send_is_retried() {
    let mut store = Store::new();
    let new_subscriber = NewSubscriber {
        email: SubscriberEmail::parse("fred@example.com".to_owned()).unwrap(),
        name: SubscriberName::parse("Fred".to_owned()).unwrap(),
    };
    assert_eq!(complete_new_subscriber_workflow_with(&mut store, &new_subscriber, 5, "tok"), Ok(()));
    let claim = match start_task(&mut store, "u") {
        TaskStart::Send { claim, .. } => claim,
        other => panic!("{:?}", other),
    };
    assert_eq!(
        finish_task(&mut store, claim, Err(TransportError::Recoverable)),
        Err(WorkerError::Transport)
    );
    assert_eq!(store.confirmation_task_count(), 1);
    let claim = match start_task(&mut store, "u") {
        TaskStart::Send { claim, .. } => claim,
        other => panic!("{:?}", other),
    };
    assert_eq!(
        finish_task(&mut store, claim, Err(TransportError::RecipientRejected)),
        Ok(ExecutionOutcome::TaskComplete)
    );
    assert_eq!(store.confirmation_task_count(), 0);
    let empty: Result<ExecutionOutcome, WorkerError> = Ok(ExecutionOutcome::EmptyQueue);
    let complete: Result<ExecutionOutcome, WorkerError> = Ok(ExecutionOutcome::TaskComplete);
    let failed: Result<ExecutionOutcome, WorkerError> = Err(WorkerError::Transport);
    assert_eq!(poll_delay(&empty), 10);
    assert_eq!(poll_delay(&complete), 0);
    assert_eq!(poll_delay(&failed), 1);
}

#[test]
fn task_without_token_is_discarded() {
    let mut store = Store::new();
    let new_subscriber = NewSubscriber {
        email: SubscriberEmail::parse("fred@example.com".to_owned()).unwrap(),
        name: SubscriberName::parse("Fred".to_owned()).unwrap(),
    };
    assert_eq!(store.insert_subscriber_with_id(9, &new_subscriber), Ok(9));
    assert_eq!(store.insert_subscription_confirmation_task(9), Ok(()));
    assert!(matches!(store.dequeue_task(), Dequeued::Discarded));
    assert_eq!(store.confirmation_task_count(), 0);
    assert!(matches!(store.dequeue_task(), Dequeued::Empty));

    store.store_token(9, "tok");
    assert_eq!(store.insert_subscription_confirmation_task(9), Ok(()));
    let (claim, raw) = match store.dequeue_task() {
        Dequeued::Task(claim, raw) => (claim, raw),
        other => panic!("{:?}", other),
    };
    assert_eq!(
        (raw.user, raw.email.as_str(), raw.name.as_str(), raw.token.as_str()),
        (9, "fred@example.com", "Fred", "tok")
    );
    assert!(store.release_subscription_confirmation_task(claim));
    assert_eq!(store.confirmation_task_count(), 1);
}

#[test]
fn discarded_task_ends_the_round_as_complete_and_the_next_is_reached() {
    let mut store = Store::new();
    // a task for a recipient that does not exist, in front of a sendable one
    assert_eq!(store.insert_subscription_confirmation_task(404), Ok(()));
    let new_subscriber = NewSubscriber {
        email: SubscriberEmail::parse("fred@example.com".to_owned()).unwrap(),
        name: SubscriberName::parse("Fred".to_owned()).unwrap(),
    };
    assert_eq!(complete_new_subscriber_workflow_with(&mut store, &new_subscriber, 5, "tok"), Ok(()));
    assert_eq!(store.confirmation_task_count(), 2);

    // the unsendable task is discarded: the round handled a task, so the worker does not rest
    let first = try_execute_task(&mut store, "u", Ok(()));
    assert_eq!(first, Ok(ExecutionOutcome::TaskComplete));
    assert_eq!(poll_delay(&first), 0);
    assert_eq!(store.confirmation_task_count(), 1);
    // the sendable task behind it is reached
    assert!(matches!(start_task(&mut store, "u"), TaskStart::Send { .. }));
    let mut other = Store::new();
    assert_eq!(other.insert_subscription_confirmation_task(404), Ok(()));
    assert!(matches!(start_task(&mut other, "u"), TaskStart::Discarded));
    assert!(matches!(start_task(&mut other, "u"), TaskStart::EmptyQueue));
    let empty = try_execute_task(&mut other, "u", Ok(()));
    assert_eq!(empty, Ok(ExecutionOutcome::EmptyQueue));
    assert_eq!(poll_delay(&empty), 10);
}

#[test]
fn refused_subscription_stores_nothing() {
    let mut store = Store::new();
    // the queue already holds a confirmation task for the identifier
    assert_eq!(store.insert_subscription_confirmation_task(5), Ok(()));
    let new_subscriber = NewSubscriber {
        email: SubscriberEmail::parse("fred@example.com".to_owned()).unwrap(),
        name: SubscriberName::parse("Fred".to_owned()).unwrap(),
    };
    assert_eq!(
        complete_new_subscriber_workflow_with(&mut store, &new_subscriber, 5, "tok"),
        Err(StoreError::DuplicateTask)
    );
    assert_eq!(store.subscriber_count(), 0);
    assert!(!store.has_subscriber(5));
    assert_eq!(store.get_subscriber_id_from_token("tok"), None);
    assert_eq!(store.confirmation_task_count(), 1);
    assert_eq!(store.check_subscription_confirmation_task(5), Err(StoreError::DuplicateTask));
    assert_eq!(store.check_subscription_confirmation_task(6), Ok(()));

    // a successful subscription stores all three
    assert_eq!(complete_new_subscriber_workflow_with(&mut store, &new_subscriber, 6, "tok6"), Ok(()));
    assert_eq!(store.subscriber_count(), 1);
    assert!(store.has_subscriber(6));
    assert_eq!(store.get_subscriber_id_from_token("tok6"), Some(6));
    assert_eq!(store.confirmation_task_count(), 2);
}

#[test]
fn subscription_draws_a_token_of_letters_and_digits() {
    let mut store = Store::new();
    assert!(subscribe(&mut store, form("le guin", "ursula_le_guin@gmail.com")).is_ok());
    match store.dequeue_task() {
        Dequeued::Task(_, raw) => {
            assert_eq!(raw.token.chars().count(), 25);
            assert!(raw.token.chars().all(|c| c.is_ascii_alphanumeric()));
        }
        other => panic!("{:?}", other),
    }
}

#[test]
fn duplicate_subscriber_id_is_refused() {
    let mut store = Store::new();
    let new_subscriber = NewSubscriber {
        email: SubscriberEmail::parse("fred@example.com".to_owned()).unwrap(),
        name: SubscriberName::parse("Fred".to_owned()).unwrap(),
    };
    assert_eq!(complete_new_subscriber_workflow_with(&mut store, &new_subscriber, 5, "a"), Ok(()));
    assert_eq!(
        complete_new_subscriber_workflow_with(&mut store, &new_subscriber, 5, "b"),
        Err(StoreError::DuplicateId)
    );
    assert_eq!(store.subscriber_count(), 1);
    assert_eq!(store.confirmation_task_count(), 1);
}

#[test]
fn confirm_marks_the_token_owner() {
    let mut store = Store::new();
    let new_subscriber = NewSubscriber {
        email: SubscriberEmail::parse("fred@example.com".to_owned()).unwrap(),
        name: SubscriberName::parse("Fred".to_owned()).unwrap(),
    };
    assert_eq!(complete_new_subscriber_workflow_with(&mut store, &new_subscriber, 5, "tok"), Ok(()));
    assert_eq!(store.get_subscriber_id_from_token("tok"), Some(5));
    assert_eq!(store.get_subscriber_id_from_token("other"), None);
    let unknown = Parameters { subscription_token: "other".to_string() };
    let e = confirm(&mut store, &unknown).unwrap_err();
    assert_eq!(e, ConfirmError::InvalidToken);
    assert_eq!(e.status_code(), 401);
    assert_eq!(ConfirmError::UnexpectedError(StoreError::NotFound).status_code(), 500);
    assert_eq!(InvalidToken {}.message(), "The token was invalid or there was no associated user.");
    let known = Parameters { subscription_token: "tok".to_string() };
    assert_eq!(confirm(&mut store, &known), Ok(()));
    let row = store.fetch_subscriber(5).unwrap();
    assert_eq!(row.status, zero2prod::persistence::SubscriberStatus::Confirmed);
    assert_eq!(row.email, "fred@example.com");
    assert!(store.fetch_subscriber(6).is_none());
    assert_eq!(SubscribeError::UnexpectedError(StoreError::NotFound).status_code(), 500);
}

#[test]
fn error_chain_lists_the_causes() {
    assert_eq!(error_chain_fmt("top", &vec![]), "top\n\n");
    assert_eq!(
        error_chain_fmt("top", &vec!["middle".to_string(), "root".to_string()]),
        "top\n\nCaused by:\n\tmiddle\nCaused by:\n\troot\n"
    );
}

#[test]
fn confirmation_round_follows_the_transport() {
    let mut store = Store::new();
    let new_subscriber = NewSubscriber {
        email: SubscriberEmail::parse("fred@example.com".to_owned()).unwrap(),
        name: SubscriberName::parse("Fred".to_owned()).unwrap(),
    };
    assert_eq!(complete_new_subscriber_workflow_with(&mut store, &new_subscriber, 5, "tok"), Ok(()));
    assert_eq!(
        try_execute_task(&mut store, "u", Err(TransportError::Recoverable)),
        Err(WorkerError::Transport)
    );
    assert_eq!(store.confirmation_task_count(), 1);
    assert_eq!(try_execute_task(&mut store, "u", Ok(())), Ok(ExecutionOutcome::TaskComplete));
    assert_eq!(store.confirmation_task_count(), 0);
    assert_eq!(try_execute_task(&mut store, "u", Ok(())), Ok(ExecutionOutcome::EmptyQueue));
}

#[test]
fn confirmation_task_is_queued_once() {
    let mut store = Store::new();
    let new_subscriber = NewSubscriber {
        email: SubscriberEmail::parse("fred@example.com".to_owned()).unwrap(),
        name: SubscriberName::parse("Fred".to_owned()).unwrap(),
    };
    assert_eq!(store.insert_subscriber_with_id(9, &new_subscriber), Ok(9));
    assert_eq!(store.insert_subscription_confirmation_task(9), Ok(()));
    assert_eq!(store.insert_subscription_confirmation_task(9), Err(StoreError::DuplicateTask));
    assert_eq!(store.confirmation_task_count(), 1);
}
