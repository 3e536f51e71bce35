//! The worker that delivers newsletter issues: what it does before and after
//! each attempt to send, and how long it rests between polls.
use vstd::prelude::*;

use crate::domain::newsletter_issue::{IssueContent, NewsletterIssue};
use crate::domain::subscriber_email::{is_valid_email, SubscriberEmail};
use crate::email_client::{disposition, spec_disposition, Disposition, TransportError};
use crate::outbox::{Claim, QueueState};
use crate::persistence::{DeliveryTask, Store, StoreState};

verus! {

/// The rest after a poll that found the queue empty, in seconds.
pub const IDLE_POLL_SECS: u64 = 10;

/// The rest after an attempt that failed, in seconds.
pub const ERROR_RETRY_SECS: u64 = 1;

/// How one round of the worker ended.
#[derive(Clone, Copy, Debug, PartialEq, Eq, Structural)]
pub enum ExecutionOutcome {
    TaskComplete,
    EmptyQueue,
}

/// Why one round of the worker failed. The task, if one was held, is back in
/// the queue.
#[derive(Clone, Copy, Debug, PartialEq, Eq, Structural)]
pub enum WorkerError {
    /// The transport failed in a recoverable way.
    Transport,
}

/// What the worker found when it polled.
#[derive(Debug)]
pub enum TaskStart {
    /// No task is claimable.
    EmptyQueue,
    /// The recipient or the issue is gone, or the stored address fails
    /// validation. The task was deleted: it could never be delivered.
    Discarded,
    /// The task is held, and this message is to be sent.
    Send { claim: Claim, email: SubscriberEmail, issue: NewsletterIssue },
}

/// What the next claimable delivery task asks for.
pub enum NextDelivery {
    Nothing,
    Unsendable { ticket: u64 },
    Ready { ticket: u64, email: Seq<char>, issue: IssueContent },
}

/// What the next claimable delivery task of `s` asks for: nothing when no
/// task is claimable; a task whose recipient or issue is missing, or whose
/// recipient's stored address fails validation, can never be sent; any other
/// is ready.
pub open spec fn next_delivery(s: StoreState) -> NextDelivery {
    match s.delivery_queue.next_claim() {
        None => NextDelivery::Nothing,
        Some(row) => match s.subscriber(row.payload.subscriber_id) {
            Some(subscriber) => if is_valid_email(subscriber.email) {
                match s.issue(row.payload.issue_id) {
                    Some(issue) => NextDelivery::Ready { ticket: row.ticket, email: subscriber.email, issue },
                    None => NextDelivery::Unsendable { ticket: row.ticket },
                }
            } else {
                NextDelivery::Unsendable { ticket: row.ticket }
            },
            None => NextDelivery::Unsendable { ticket: row.ticket },
        },
    }
}

/// The store after the worker polled: a task that is ready is held, one that
/// can never be sent is deleted, and without a task to claim nothing has
/// changed.
pub open spec fn after_start(s: StoreState) -> StoreState {
    match next_delivery(s) {
        NextDelivery::Ready { .. } => s.with_delivery_queue(s.delivery_queue.claimed()),
        NextDelivery::Unsendable { ticket } => s.with_delivery_queue(s.delivery_queue.claimed().acked(ticket)),
        NextDelivery::Nothing => s,
    }
}

/// The store after the attempt to send the task held under `ticket`: the
/// task is deleted unless the transport failed in a recoverable way, in
/// which case it is back in the queue.
pub open spec fn after_finish(s: StoreState, ticket: u64, sent: Result<(), TransportError>) -> StoreState {
    s.with_delivery_queue(s.delivery_queue.settled(ticket, spec_disposition(sent)))
}

/// How a round ends after the attempt to send: with a finished task when the
/// attempt was final, with a failure when the task is to be tried again.
pub open spec fn round_result(sent: Result<(), TransportError>) -> Result<ExecutionOutcome, WorkerError> {
    match spec_disposition(sent) {
        Disposition::Ack => Ok(ExecutionOutcome::TaskComplete),
        Disposition::Requeue => Err(WorkerError::Transport),
    }
}

/// How a round ends after the attempt to send, and what becomes of the task.
pub fn round_end(sent: Result<(), TransportError>) -> (end: (Disposition, Result<ExecutionOutcome, WorkerError>))
    ensures
        end.0 == spec_disposition(sent),
        end.1 == round_result(sent),
{
    match disposition(sent) {
        Disposition::Ack => (Disposition::Ack, Ok(ExecutionOutcome::TaskComplete)),
        Disposition::Requeue => (Disposition::Requeue, Err(WorkerError::Transport)),
    }
}

/// Polls the queue for one delivery task and prepares the message.
pub fn start_task(store: &mut Store) -> (start: TaskStart)
    requires
        old(store).wf(),
    ensures
        final(store).wf(),
        final(store)@ == after_start(old(store)@),
        match start {
            TaskStart::EmptyQueue => next_delivery(old(store)@) is Nothing,
            TaskStart::Discarded => next_delivery(old(store)@) is Unsendable,
            TaskStart::Send { claim, email, issue } => {
                &&& next_delivery(old(store)@) == (NextDelivery::Ready {
                    ticket: claim.ticket(),
                    email: email@,
                    issue: issue@,
                })
                &&& final(store)@.delivery_queue.holds(claim.ticket())
            },
        },
{
    let (claim, task) = match store.dequeue_newsletter_delivery_task() {
        None => {
            return TaskStart::EmptyQueue;
        },
        Some(found) => found,
    };
    let address = match store.fetch_subscriber(task.subscriber_id) {
        Some(row) => SubscriberEmail::parse(row.email),
        None => {
            store.delete_newsletter_delivery_task(claim);
            return TaskStart::Discarded;
        },
    };
    match address {
        Ok(email) => {
            match store.fetch_newsletter_issue(task.issue_id) {
                Ok(issue) => TaskStart::Send { claim, email, issue },
                Err(_) => {
                    store.delete_newsletter_delivery_task(claim);
                    TaskStart::Discarded
                },
            }
        },
        Err(_) => {
            store.delete_newsletter_delivery_task(claim);
            TaskStart::Discarded
        },
    }
}

/// Ends a round after the attempt to send: deletes the task when the
/// attempt is final, and gives it back when the transport failed in a
/// recoverable way.
pub fn finish_task(store: &mut Store, claim: Claim, sent: Result<(), TransportError>) -> (r: Result<
    ExecutionOutcome,
    WorkerError,
>)
    requires
        old(store).wf(),
    ensures
        final(store).wf(),
        final(store)@ == after_finish(old(store)@, claim.ticket(), sent),
        r == round_result(sent),
{
    let (disposition, result) = round_end(sent);
    store.settle_newsletter_delivery_task(claim, disposition);
    result
}

/// How long a worker rests between polls, in seconds.
#[derive(Clone, Copy, Debug, PartialEq, Eq, Structural)]
pub struct PollIntervals {
    /// The rest after a poll that found the queue empty.
    pub idle_secs: u64,
    /// The rest after an attempt that failed.
    pub error_secs: u64,
}

impl Default for PollIntervals {
    fn default() -> (intervals: Self)
        ensures
            intervals == (PollIntervals { idle_secs: IDLE_POLL_SECS, error_secs: ERROR_RETRY_SECS }),
    {
        PollIntervals { idle_secs: IDLE_POLL_SECS, error_secs: ERROR_RETRY_SECS }
    }
}

/// The rest before the next poll, in seconds: the idle interval after an
/// empty queue, the error interval after a failure of any kind, none after
/// a finished task.
pub open spec fn spec_poll_delay_with<E>(intervals: PollIntervals, result: Result<ExecutionOutcome, E>) -> u64 {
    match result {
        Ok(ExecutionOutcome::EmptyQueue) => intervals.idle_secs,
        Ok(ExecutionOutcome::TaskComplete) => 0,
        Err(_) => intervals.error_secs,
    }
}

/// The rest before the next poll with the intervals that a worker has when
/// none are set.
pub open spec fn spec_poll_delay<E>(result: Result<ExecutionOutcome, E>) -> u64 {
    spec_poll_delay_with(
        PollIntervals { idle_secs: IDLE_POLL_SECS, error_secs: ERROR_RETRY_SECS },
        result,
    )
}

/// The rest before the next poll, in seconds, with the given intervals.
pub fn poll_delay_with<E>(intervals: PollIntervals, result: &Result<ExecutionOutcome, E>) -> (secs: u64)
    ensures
        secs == spec_poll_delay_with(intervals, *result),
{
    match result {
        Ok(ExecutionOutcome::EmptyQueue) => intervals.idle_secs,
        Ok(ExecutionOutcome::TaskComplete) => 0,
        Err(_) => intervals.error_secs,
    }
}

/// The rest before the next poll, in seconds, with the intervals that a
/// worker has when none are set.
pub fn poll_delay<E>(result: &Result<ExecutionOutcome, E>) -> (secs: u64)
    ensures
        secs == spec_poll_delay(*result),
{
    poll_delay_with(PollIntervals::default(), result)
}

/// How a round that sent nothing ended.
pub fn outcome_without_send(start: &TaskStart) -> (r: Option<Result<ExecutionOutcome, WorkerError>>)
    ensures
        r == match *start {
            TaskStart::EmptyQueue => Some(Ok::<ExecutionOutcome, WorkerError>(ExecutionOutcome::EmptyQueue)),
            TaskStart::Discarded => Some(Ok::<ExecutionOutcome, WorkerError>(ExecutionOutcome::TaskComplete)),
            TaskStart::Send { .. } => None,
        },
{
    match start {
        TaskStart::EmptyQueue => Some(Ok(ExecutionOutcome::EmptyQueue)),
        TaskStart::Discarded => Some(Ok(ExecutionOutcome::TaskComplete)),
        TaskStart::Send { .. } => None,
    }
}

/// The store after one round of the worker, with `sent` as the transport's
/// answer in case the round comes to an attempt to send.
pub open spec fn after_round(s: StoreState, sent: Result<(), TransportError>) -> StoreState {
    match next_delivery(s) {
        NextDelivery::Ready { ticket, .. } => after_finish(after_start(s), ticket, sent),
        _ => after_start(s),
    }
}

/// How one round of the worker ends, with `sent` as the transport's answer
/// in case the round comes to an attempt to send.
pub open spec fn round_outcome(s: StoreState, sent: Result<(), TransportError>) -> Result<
    ExecutionOutcome,
    WorkerError,
> {
    match next_delivery(s) {
        NextDelivery::Nothing => Ok(ExecutionOutcome::EmptyQueue),
        NextDelivery::Unsendable { .. } => Ok(ExecutionOutcome::TaskComplete),
        NextDelivery::Ready { .. } => round_result(sent),
    }
}

/// One round of the worker: polls, and, when a message is ready, ends the
/// round as the transport's answer `sent` demands.
pub fn try_execute_task(store: &mut Store, sent: Result<(), TransportError>) -> (r: Result<
    ExecutionOutcome,
    WorkerError,
>)
    requires
        old(store).wf(),
    ensures
        final(store).wf(),
        final(store)@ == after_round(old(store)@, sent),
        r == round_outcome(old(store)@, sent),
{
    match start_task(store) {
        TaskStart::EmptyQueue => Ok(ExecutionOutcome::EmptyQueue),
        TaskStart::Discarded => Ok(ExecutionOutcome::TaskComplete),
        TaskStart::Send { claim, email, issue } => finish_task(store, claim, sent),
    }
}

/// A round ends with an empty queue exactly when no task was claimable, and
/// then the store is as it was. A round in which the transport fails in a
/// recoverable way leaves the store as it was, so the next poll finds the
/// same task again. A round in which a task was sent or discarded ends in
/// `TaskComplete` and takes exactly that task out of the queue.
pub proof fn law_round_retries_or_removes(s: StoreState, sent: Result<(), TransportError>)
    requires
        s.wf(),
    ensures
        round_outcome(s, sent) == Ok::<ExecutionOutcome, WorkerError>(ExecutionOutcome::EmptyQueue)
            <==> !s.delivery_queue.has_free(),
        round_outcome(s, sent) is Err <==> next_delivery(s) is Ready && sent == Err::<(), TransportError>(
            TransportError::Recoverable,
        ),
        round_outcome(s, sent) == Err::<ExecutionOutcome, WorkerError>(WorkerError::Transport) ==> after_round(
            s,
            sent,
        ) == s,
        round_outcome(s, sent) is Err ==> after_round(s, sent) == s,
        round_outcome(s, sent) == Ok::<ExecutionOutcome, WorkerError>(ExecutionOutcome::EmptyQueue)
            ==> after_round(s, sent) == s,
        round_outcome(s, sent) == Ok::<ExecutionOutcome, WorkerError>(ExecutionOutcome::TaskComplete) ==> {
            &&& s.delivery_queue.has_free()
            &&& after_round(s, sent) == s.with_delivery_queue(
                QueueState {
                    rows: s.delivery_queue.rows.remove(s.delivery_queue.first_free()),
                    next_ticket: s.delivery_queue.next_ticket,
                },
            )
        },
{
    let q = s.delivery_queue;
    if q.has_free() {
        let k = q.first_free();
        let t = q.rows[k].ticket;
        crate::outbox::lemma_first_free(q.rows, 0);
        crate::outbox::law_unfinished_claim_returns_to_pool(q);
        crate::outbox::lemma_transitions_keep_wf(q, t);
        crate::outbox::lemma_position_of_index(q.claimed(), k);
        assert(q.claimed().acked(t).rows =~= q.rows.remove(k));
    }
}

/// The store after one round for each of `answers`, in order.
pub open spec fn after_rounds(s: StoreState, answers: Seq<Result<(), TransportError>>) -> StoreState
    decreases answers.len(),
{
    if answers.len() == 0 {
        s
    } else {
        after_round(after_rounds(s, answers.drop_last()), answers.last())
    }
}

/// The number of rounds, among one for each of `answers`, that come to an
/// attempt to send.
pub open spec fn attempts(s: StoreState, answers: Seq<Result<(), TransportError>>) -> nat
    decreases answers.len(),
{
    if answers.len() == 0 {
        0
    } else {
        attempts(s, answers.drop_last()) + if next_delivery(after_rounds(s, answers.drop_last())) is Ready {
            1nat
        } else {
            0nat
        }
    }
}

/// Runs one round of the worker for each of `answers`, in order, with the
/// answer as what the transport says in case the round comes to an attempt
/// to send. Returns the number of rounds that came to one.
pub fn run_rounds(store: &mut Store, answers: &Vec<Result<(), TransportError>>) -> (sent: usize)
    requires
        old(store).wf(),
    ensures
        final(store).wf(),
        final(store)@ == after_rounds(old(store)@, answers@),
        sent == attempts(old(store)@, answers@),
{
    let mut sent: usize = 0;
    let mut i: usize = 0;
    while i < answers.len()
        invariant
            0 <= i <= answers@.len(),
            store.wf(),
            store@ == after_rounds(old(store)@, answers@.take(i as int)),
            sent == attempts(old(store)@, answers@.take(i as int)),
            sent <= i,
        decreases answers@.len() - i,
    {
        proof {
            assert(answers@.take(i + 1).drop_last() =~= answers@.take(i as int));
            assert(answers@.take(i + 1).last() == answers@[i as int]);
        }
        match start_task(store) {
            TaskStart::Send { claim, email, issue } => {
                let _ = finish_task(store, claim, answers[i]);
                sent += 1;
            },
            _ => {},
        }
        i += 1;
    }
    proof {
        assert(answers@.take(i as int) =~= answers@);
    }
    sent
}

/// Whether the issue of a task is stored and its recipient is stored with a
/// valid address.
pub open spec fn is_deliverable(s: StoreState, task: DeliveryTask) -> bool {
    &&& s.subscriber(task.subscriber_id) is Some
    &&& is_valid_email(s.subscriber(task.subscriber_id).unwrap().email)
    &&& s.has_issue(task.issue_id)
}

/// The number of tasks among the first `n` rows of the queue whose recipient
/// is stored with a valid address.
pub open spec fn deliverable_count(s: StoreState, n: int) -> nat
    decreases n,
{
    if n <= 0 || n > s.delivery_queue.rows.len() {
        0
    } else {
        deliverable_count(s, n - 1) + if is_deliverable(s, s.delivery_queue.rows[n - 1].payload) {
            1nat
        } else {
            0nat
        }
    }
}

/// The store with the first `k` rows of the delivery queue taken out.
pub open spec fn without_first(s: StoreState, k: int) -> StoreState {
    s.with_delivery_queue(
        QueueState { rows: s.delivery_queue.rows.skip(k), next_ticket: s.delivery_queue.next_ticket },
    )
}

proof fn lemma_rounds(s: StoreState, answers: Seq<Result<(), TransportError>>)
    requires
        s.wf(),
        s.delivery_queue.all_free(),
        answers.len() <= s.delivery_queue.rows.len(),
        forall|i: int|
            0 <= i < answers.len() ==> #[trigger] answers[i] != Err::<(), TransportError>(
                TransportError::Recoverable,
            ),
    ensures
        after_rounds(s, answers) == without_first(s, answers.len() as int),
        attempts(s, answers) == deliverable_count(s, answers.len() as int),
    decreases answers.len(),
{
    let n = answers.len() as int;
    if n == 0 {
        assert(s.delivery_queue.rows.skip(0) =~= s.delivery_queue.rows);
    } else {
        let earlier = answers.drop_last();
        assert forall|i: int| 0 <= i < earlier.len() implies #[trigger] earlier[i] != Err::<
            (),
            TransportError,
        >(TransportError::Recoverable) by {
            assert(earlier[i] == answers[i]);
        }
        lemma_rounds(s, earlier);
        let k = n - 1;
        let before = without_first(s, k);
        let q = before.delivery_queue;
        assert(q.rows[0] == s.delivery_queue.rows[k]);
        assert(!q.rows[0].locked);
        assert(q.first_free() == 0);
        assert forall|i: int| 0 <= i < q.rows.len() implies (#[trigger] q.rows[i]).ticket < q.next_ticket by {
            assert(q.rows[i] == s.delivery_queue.rows[i + k]);
        }
        assert forall|i: int, j: int| 0 <= i < j < q.rows.len() implies (#[trigger] q.rows[i]).ticket < (
        #[trigger] q.rows[j]).ticket by {
            assert(q.rows[i] == s.delivery_queue.rows[i + k]);
            assert(q.rows[j] == s.delivery_queue.rows[j + k]);
        }
        assert forall|i: int, j: int| 0 <= i < j < q.rows.len() implies (#[trigger] q.rows[i]).payload != (
        #[trigger] q.rows[j]).payload by {
            assert(q.rows[i] == s.delivery_queue.rows[i + k]);
            assert(q.rows[j] == s.delivery_queue.rows[j + k]);
        }
        assert(before.wf());
        law_round_retries_or_removes(before, answers.last());
        assert(answers.last() == answers[k]);
        assert(q.rows.remove(0) =~= s.delivery_queue.rows.skip(n));
    }
}

/// Draining empties the queue. From a queue that no worker holds, one round
/// per task, with a transport that never fails in a recoverable way, takes
/// every task out: the queue is empty afterwards, a further round finds
/// nothing, and the transport was asked once for each task whose issue is
/// stored and whose recipient has a valid address.
pub proof fn law_drain_empties_the_queue(s: StoreState, answers: Seq<Result<(), TransportError>>)
    requires
        s.wf(),
        s.delivery_queue.all_free(),
        answers.len() == s.delivery_queue.rows.len(),
        forall|i: int|
            0 <= i < answers.len() ==> #[trigger] answers[i] != Err::<(), TransportError>(
                TransportError::Recoverable,
            ),
    ensures
        after_rounds(s, answers).delivery_queue.rows.len() == 0,
        forall|sent: Result<(), TransportError>| #[trigger]
            round_outcome(after_rounds(s, answers), sent) == Ok::<ExecutionOutcome, WorkerError>(
                ExecutionOutcome::EmptyQueue,
            ),
        attempts(s, answers) == deliverable_count(s, s.delivery_queue.rows.len() as int),
{
    lemma_rounds(s, answers);
}

/// Where the worker stands.
#[derive(Clone, Copy, Debug, PartialEq, Eq, Structural)]
pub enum WorkerState {
    /// No task is held.
    Idle,
    /// A task is held and its message is being sent.
    Processing,
}

/// What the worker learns.
#[derive(Clone, Copy, Debug, PartialEq, Eq, Structural)]
pub enum WorkerEvent {
    /// The poll found a task.
    TaskFound,
    /// The poll found the queue empty.
    QueueEmpty,
    /// The attempt was final and the task is deleted.
    Acked,
    /// The attempt failed in a recoverable way and the task is back in the
    /// queue.
    AckFailed,
    /// The store could not be reached or refused.
    StoreFailed,
}

/// The worker's next state and its rest before the next step, in seconds.
/// `None` for an event that cannot happen in the state.
pub open spec fn spec_step(state: WorkerState, event: WorkerEvent) -> Option<(WorkerState, u64)> {
    match (state, event) {
        (WorkerState::Idle, WorkerEvent::TaskFound) => Some((WorkerState::Processing, 0)),
        (WorkerState::Idle, WorkerEvent::QueueEmpty) => Some((WorkerState::Idle, IDLE_POLL_SECS)),
        (WorkerState::Processing, WorkerEvent::Acked) => Some((WorkerState::Idle, 0)),
        (WorkerState::Processing, WorkerEvent::AckFailed) => Some((WorkerState::Idle, ERROR_RETRY_SECS)),
        (_, WorkerEvent::StoreFailed) => Some((WorkerState::Idle, ERROR_RETRY_SECS)),
        _ => None,
    }
}

/// The worker's next state and its rest before the next step, in seconds.
pub fn step(state: WorkerState, event: WorkerEvent) -> (next: Option<(WorkerState, u64)>)
    ensures
        next == spec_step(state, event),
{
    match (state, event) {
        (WorkerState::Idle, WorkerEvent::TaskFound) => Some((WorkerState::Processing, 0)),
        (WorkerState::Idle, WorkerEvent::QueueEmpty) => Some((WorkerState::Idle, IDLE_POLL_SECS)),
        (WorkerState::Processing, WorkerEvent::Acked) => Some((WorkerState::Idle, 0)),
        (WorkerState::Processing, WorkerEvent::AckFailed) => Some((WorkerState::Idle, ERROR_RETRY_SECS)),
        (_, WorkerEvent::StoreFailed) => Some((WorkerState::Idle, ERROR_RETRY_SECS)),
        _ => None,
    }
}

} // verus!
