//! The worker that delivers confirmation emails: the message it writes, and
//! what it does before and after each attempt to send.
use vstd::pervasive::unreached;
use vstd::prelude::*;
use vstd::string::StringExecFns;

use crate::domain::new_subscriber::NewSubscriber;
use crate::domain::newsletter_issue::{IssueContent, NewsletterIssue};
use crate::email_client::{spec_disposition, TransportError};
use crate::issue_delivery_worker::{round_end, round_result, WorkerError};
use crate::outbox::Claim;
use crate::persistence::{Dequeued, NextConfirmation, Store, StoreState};

pub use crate::issue_delivery_worker::{poll_delay, poll_delay_with, ExecutionOutcome};

verus! {

/// What the worker found when it polled.
#[derive(Debug)]
pub enum TaskStart {
    /// No task is claimable.
    EmptyQueue,
    /// The recipient or the token is gone, or the stored address or name
    /// fails validation. The task was deleted: it could never be delivered.
    Discarded,
    /// The task is held, and this message is to be sent to the subscriber.
    Send { claim: Claim, subscriber: NewSubscriber, message: NewsletterIssue },
}

/// The link that confirms the subscription with `token`.
pub open spec fn confirmation_link(base_url: Seq<char>, token: Seq<char>) -> Seq<char> {
    base_url + "/subscriptions/confirm?subscription_token="@ + token
}

/// The confirmation email for `token`.
pub open spec fn confirmation_email(base_url: Seq<char>, token: Seq<char>) -> IssueContent {
    let link = confirmation_link(base_url, token);
    IssueContent {
        title: "Welcome!"@,
        text: "Welcome to our newsletter!\nVisit "@ + link + " to confirm your subscription."@,
        html: "Welcome to our newsletter!<br />Click <a href=\""@ + link
            + "\">here</a> to confirm your subscription."@,
    }
}

/// Writes the confirmation email for `confirmation_token`.
pub fn compose_confirmation_email(base_url: &str, confirmation_token: &str) -> (message: NewsletterIssue)
    ensures
        message@ == confirmation_email(base_url@, confirmation_token@),
{
    let mut confirmation_link = base_url.to_owned();
    confirmation_link.append("/subscriptions/confirm?subscription_token=");
    confirmation_link.append(confirmation_token);
    let mut plain_body = "Welcome to our newsletter!\nVisit ".to_owned();
    plain_body.append(confirmation_link.as_str());
    plain_body.append(" to confirm your subscription.");
    let mut html_body = "Welcome to our newsletter!<br />Click <a href=\"".to_owned();
    html_body.append(confirmation_link.as_str());
    html_body.append("\">here</a> to confirm your subscription.");
    proof {
        reveal_strlit("Welcome!");
        reveal_strlit("Welcome to our newsletter!\nVisit ");
        reveal_strlit("Welcome to our newsletter!<br />Click <a href=\"");
    }
    match NewsletterIssue::validate_new("Welcome!".to_owned(), plain_body, html_body) {
        Ok(message) => message,
        Err(_) => unreached(),
    }
}

/// Polls the queue for one confirmation task and writes the message.
pub fn start_task(store: &mut Store, base_url: &str) -> (start: TaskStart)
    requires
        old(store).wf(),
    ensures
        final(store).wf(),
        final(store)@ == old(store)@.after_confirmation_claim(),
        match start {
            TaskStart::EmptyQueue => old(store)@.next_confirmation() is Nothing,
            TaskStart::Discarded => old(store)@.next_confirmation() is Unsendable,
            TaskStart::Send { claim, subscriber, message } => {
                &&& old(store)@.next_confirmation() matches NextConfirmation::Ready { ticket, raw }
                &&& subscriber.email@ == raw.email
                &&& subscriber.name@ == raw.name
                &&& message@ == confirmation_email(base_url@, raw.token)
                &&& claim.ticket() == ticket
                &&& final(store)@.confirmation_queue.holds(claim.ticket())
            },
        },
{
    match store.dequeue_subscription_confirmation_task_and_parse() {
        Dequeued::Task(claim, task) => {
            let message = compose_confirmation_email(base_url, task.confirmation_token.as_str());
            TaskStart::Send { claim, subscriber: task.subscriber, message }
        },
        Dequeued::Discarded => TaskStart::Discarded,
        Dequeued::Empty => TaskStart::EmptyQueue,
    }
}

/// The store after the attempt to send the task held under `ticket`: the
/// task is deleted unless the transport failed in a recoverable way, in
/// which case it is back in the queue.
pub open spec fn after_finish(s: StoreState, ticket: u64, sent: Result<(), TransportError>) -> StoreState {
    s.with_confirmation_queue(s.confirmation_queue.settled(ticket, spec_disposition(sent)))
}

/// Ends a round after the attempt to send: deletes the task when the
/// attempt is final, and gives it back when the transport failed in a
/// recoverable way.
pub fn finish_task(store: &mut Store, claim: Claim, sent: Result<(), TransportError>) -> (r: Result<
    ExecutionOutcome,
    WorkerError,
>)
    requires
        old(store).wf(),
    ensures
        final(store).wf(),
        final(store)@ == after_finish(old(store)@, claim.ticket(), sent),
        r == round_result(sent),
{
    let (disposition, result) = round_end(sent);
    store.settle_subscription_confirmation_task(claim, disposition);
    result
}

/// The store after one round of the worker, with `sent` as the transport's
/// answer in case the round comes to an attempt to send.
pub open spec fn after_round(s: StoreState, sent: Result<(), TransportError>) -> StoreState {
    match s.next_confirmation() {
        NextConfirmation::Ready { ticket, .. } => after_finish(s.after_confirmation_claim(), ticket, sent),
        _ => s.after_confirmation_claim(),
    }
}

/// How one round of the worker ends, with `sent` as the transport's answer
/// in case the round comes to an attempt to send: with an empty queue
/// exactly when no task was claimable, and with a finished task when the
/// task was sent or discarded.
pub open spec fn round_outcome(s: StoreState, sent: Result<(), TransportError>) -> Result<
    ExecutionOutcome,
    WorkerError,
> {
    match s.next_confirmation() {
        NextConfirmation::Nothing => Ok(ExecutionOutcome::EmptyQueue),
        NextConfirmation::Unsendable { .. } => Ok(ExecutionOutcome::TaskComplete),
        NextConfirmation::Ready { .. } => round_result(sent),
    }
}

/// One round of the worker: polls, and, when a message is ready, ends the
/// round as the transport's answer `sent` demands.
pub fn try_execute_task(store: &mut Store, base_url: &str, sent: Result<(), TransportError>) -> (r: Result<
    ExecutionOutcome,
    WorkerError,
>)
    requires
        old(store).wf(),
    ensures
        final(store).wf(),
        final(store)@ == after_round(old(store)@, sent),
        r == round_outcome(old(store)@, sent),
{
    match start_task(store, base_url) {
        TaskStart::Send { claim, subscriber, message } => finish_task(store, claim, sent),
        TaskStart::Discarded => Ok(ExecutionOutcome::TaskComplete),
        TaskStart::EmptyQueue => Ok(ExecutionOutcome::EmptyQueue),
    }
}

/// A round ends with an empty queue exactly when no task was claimable, and
/// then the store is as it was. A round that ends with a finished task takes
/// exactly one task out of the queue, and a round that fails leaves the
/// store as it was, so that the next poll finds the same task again.
pub proof fn law_round_empties_only_an_empty_queue(s: StoreState, sent: Result<(), TransportError>)
    requires
        s.wf(),
    ensures
        round_outcome(s, sent) == Ok::<ExecutionOutcome, WorkerError>(ExecutionOutcome::EmptyQueue)
            <==> !s.confirmation_queue.has_free(),
        !s.confirmation_queue.has_free() ==> after_round(s, sent) == s,
        round_outcome(s, sent) is Err ==> after_round(s, sent) == s,
        round_outcome(s, sent) == Ok::<ExecutionOutcome, WorkerError>(ExecutionOutcome::TaskComplete)
            ==> after_round(s, sent).confirmation_queue.rows == s.confirmation_queue.rows.remove(
            s.confirmation_queue.first_free(),
        ),
{
    let q = s.confirmation_queue;
    if q.has_free() {
        let k = q.first_free();
        let t = q.rows[k].ticket;
        crate::outbox::lemma_first_free(q.rows, 0);
        crate::outbox::law_unfinished_claim_returns_to_pool(q);
        crate::outbox::lemma_transitions_keep_wf(q, t);
        crate::outbox::lemma_position_of_index(q.claimed(), k);
        assert(q.claimed().acked(t).rows =~= q.rows.remove(k));
    }
}

} // verus!
