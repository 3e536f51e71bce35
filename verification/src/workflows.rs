//! What happens when someone subscribes.
use vstd::prelude::*;

use crate::domain::new_subscriber::{generate_confirmation_token, is_confirmation_token, NewSubscriber};
use crate::outbox::lemma_enqueued_all;
use crate::persistence::{
    lemma_new_subscriber_keeps_wf, lemma_same_rows_keep_wf, random_id, ConfirmationTask, Store, StoreError,
    StoreState, SubscriberContent, SubscriberStatus, TokenContent,
};

verus! {

/// The store after a subscription under `id` with `token`: the recipient is
/// stored, pending confirmation, with the token, and a confirmation task
/// waits in the queue. The three are stored together or not at all: where
/// the identifier is taken or the queue refuses the task, nothing changes.
pub open spec fn subscribed(
    s: StoreState,
    id: u128,
    email: Seq<char>,
    name: Seq<char>,
    token: Seq<char>,
) -> StoreState {
    if subscription_result(s, id) is Ok {
        let stored = s.with_subscriber(id, email, name).with_token(id, token);
        stored.with_confirmation_queue(s.confirmation_queue.enqueued(ConfirmationTask { subscriber_id: id }))
    } else {
        s
    }
}

/// How a subscription under `id` ends: it is refused where the identifier
/// is taken, and where the queue does not take the confirmation task.
pub open spec fn subscription_result(s: StoreState, id: u128) -> Result<(), StoreError> {
    if s.has_subscriber(id) {
        Err(StoreError::DuplicateId)
    } else {
        s.confirmation_task_result(id)
    }
}

/// A subscription is all or nothing. Where it succeeds, the store gains one
/// recipient, pending confirmation, one token for that recipient and one
/// confirmation task for that recipient, and nothing else changes. Where it
/// fails, the store is as it was.
pub proof fn law_subscription_is_all_or_nothing(
    s: StoreState,
    id: u128,
    email: Seq<char>,
    name: Seq<char>,
    token: Seq<char>,
)
    requires
        s.wf(),
    ensures
        subscription_result(s, id) is Err ==> subscribed(s, id, email, name, token) == s,
        subscription_result(s, id) is Ok ==> {
            let after = subscribed(s, id, email, name, token);
            &&& after.wf()
            &&& after.subscribers == s.subscribers.push(
                SubscriberContent { id, email, name, status: SubscriberStatus::PendingConfirmation },
            )
            &&& after.tokens == s.tokens.push(TokenContent { token, subscriber_id: id })
            &&& after.confirmation_queue.payloads() == s.confirmation_queue.payloads().push(
                ConfirmationTask { subscriber_id: id },
            )
            &&& after.issues == s.issues
            &&& after.delivery_queue == s.delivery_queue
            &&& after.idempotency == s.idempotency
        },
{
    if subscription_result(s, id) is Ok {
        let task = ConfirmationTask { subscriber_id: id };
        let after = subscribed(s, id, email, name, token);
        lemma_new_subscriber_keeps_wf(s, id, email, name);
        assert(seq![task].drop_last() =~= Seq::<ConfirmationTask>::empty());
        assert(seq![task].last() == task);
        assert(s.confirmation_queue.enqueued_all(Seq::<ConfirmationTask>::empty()) == s.confirmation_queue);
        assert(s.confirmation_queue.enqueued_all(seq![task]) == s.confirmation_queue.enqueued(task));
        assert(s.confirmation_queue.accepts_all(seq![task]));
        lemma_enqueued_all(s.confirmation_queue, seq![task]);
        assert(s.confirmation_queue.payloads() + seq![task] =~= s.confirmation_queue.payloads().push(task));
        lemma_same_rows_keep_wf(s.with_subscriber(id, email, name), after);
    }
}

/// Stores a new subscriber under `subscriber_id` with `confirmation_token`,
/// and queues the confirmation email, all together or not at all.
pub fn complete_new_subscriber_workflow_with(
    store: &mut Store,
    new_subscriber: &NewSubscriber,
    subscriber_id: u128,
    confirmation_token: &str,
) -> (r: Result<(), StoreError>)
    requires
        old(store).wf(),
    ensures
        final(store).wf(),
        final(store)@ == subscribed(
            old(store)@,
            subscriber_id,
            new_subscriber.email@,
            new_subscriber.name@,
            confirmation_token@,
        ),
        r == subscription_result(old(store)@, subscriber_id),
{
    if store.has_subscriber(subscriber_id) {
        return Err(StoreError::DuplicateId);
    }
    match store.check_subscription_confirmation_task(subscriber_id) {
        Ok(_) => {},
        Err(e) => {
            return Err(e);
        },
    }
    let _ = store.insert_subscriber_with_id(subscriber_id, new_subscriber);
    store.store_token(subscriber_id, confirmation_token);
    store.insert_subscription_confirmation_task(subscriber_id)
}

/// Stores a new subscriber under a random identifier with a random
/// confirmation token, and queues the confirmation email, all together or
/// not at all.
pub fn complete_new_subscriber_workflow(store: &mut Store, new_subscriber: &NewSubscriber) -> (r: Result<
    (),
    StoreError,
>)
    requires
        old(store).wf(),
    ensures
        final(store).wf(),
        exists|id: u128, token: Seq<char>|
            {
                &&& is_confirmation_token(token)
                &&& final(store)@ == #[trigger] subscribed(
                    old(store)@,
                    id,
                    new_subscriber.email@,
                    new_subscriber.name@,
                    token,
                )
                &&& r == subscription_result(old(store)@, id)
            },
{
    let subscriber_id: u128 = random_id();
    let confirmation_token = generate_confirmation_token();
    complete_new_subscriber_workflow_with(
        store,
        new_subscriber,
        subscriber_id,
        confirmation_token.as_str(),
    )
}

} // verus!
