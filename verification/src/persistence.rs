//! The relational store, as far as the delivery of newsletters and
//! confirmation emails depends on it: its tables as a mathematical state, and
//! each statement that is run against them as a transition of that state.
use vstd::prelude::*;

use crate::domain::new_subscriber::NewSubscriber;
use crate::domain::subscriber_email::{is_valid_email, SubscriberEmail};
use crate::domain::subscriber_name::{is_valid_name, SubscriberName};
use crate::domain::tasks::SubscriptionConfirmationTask;
use crate::email_client::Disposition;
use crate::domain::newsletter_issue::{IssueContent, NewsletterIssue};
use crate::idempotency::{
    Found, IdempotencyKey, IdempotencyState, IdempotencyStore, KeyStatus, Response, ResponseContent,
};
use crate::outbox::{are_successive_claims, Claim, EnqueueError, Outbox, QueueState, Task};

verus! {

/// Whether a recipient has confirmed the subscription.
#[derive(Clone, Copy, Debug, PartialEq, Eq, Structural)]
pub enum SubscriberStatus {
    PendingConfirmation,
    Confirmed,
}

/// One row of the table of recipients, as it is stored.
#[derive(Debug)]
pub struct SubscriberRow {
    pub id: u128,
    pub email: String,
    pub name: String,
    pub status: SubscriberStatus,
}

/// The content of a recipient's row.
pub struct SubscriberContent {
    pub id: u128,
    pub email: Seq<char>,
    pub name: Seq<char>,
    pub status: SubscriberStatus,
}

impl SubscriberRow {
    pub open spec fn view(&self) -> SubscriberContent {
        SubscriberContent { id: self.id, email: self.email@, name: self.name@, status: self.status }
    }
}

/// One row of the table of confirmation tokens.
#[derive(Debug)]
pub struct TokenRow {
    pub token: String,
    pub subscriber_id: u128,
}

/// The content of a token's row.
pub struct TokenContent {
    pub token: Seq<char>,
    pub subscriber_id: u128,
}

impl TokenRow {
    pub open spec fn view(&self) -> TokenContent {
        TokenContent { token: self.token@, subscriber_id: self.subscriber_id }
    }
}

/// One row of the table of newsletter issues.
#[derive(Debug)]
pub struct IssueRow {
    pub id: u128,
    pub issue: NewsletterIssue,
    /// When the issue was submitted, in seconds since the Unix epoch.
    pub published_at: u64,
}

/// The content of an issue's row.
pub struct StoredIssue {
    pub id: u128,
    pub content: IssueContent,
    pub published_at: u64,
}

impl IssueRow {
    pub open spec fn view(&self) -> StoredIssue {
        StoredIssue { id: self.id, content: self.issue@, published_at: self.published_at }
    }
}

/// "This recipient must receive this issue."
#[derive(Clone, Copy, Debug, PartialEq, Eq, Structural)]
pub struct DeliveryTask {
    pub issue_id: u128,
    pub subscriber_id: u128,
}

/// "This recipient must receive a confirmation email."
#[derive(Clone, Copy, Debug, PartialEq, Eq, Structural)]
pub struct ConfirmationTask {
    pub subscriber_id: u128,
}

impl Task for DeliveryTask {
    fn same(&self, other: &Self) -> (b: bool) {
        self.issue_id == other.issue_id && self.subscriber_id == other.subscriber_id
    }
}

impl Task for ConfirmationTask {
    fn same(&self, other: &Self) -> (b: bool) {
        self.subscriber_id == other.subscriber_id
    }
}

/// Why the store refused a statement.
#[derive(Clone, Copy, Debug, PartialEq, Eq, Structural)]
pub enum StoreError {
    /// A row with this identifier exists already.
    DuplicateId,
    /// No row has the identifier that was asked for.
    NotFound,
    /// The transaction is no longer open.
    TransactionClosed,
    /// The transaction has stored an issue already.
    IssueAlreadyStored,
    /// The queue holds the task already, or a task came twice.
    DuplicateTask,
    /// The queue has run out of tickets.
    QueueExhausted,
}

/// The store's error for a queue's refusal.
pub open spec fn spec_queue_error(e: EnqueueError) -> StoreError {
    match e {
        EnqueueError::Duplicate => StoreError::DuplicateTask,
        EnqueueError::Exhausted => StoreError::QueueExhausted,
    }
}

/// The store's error for a queue's refusal.
pub fn queue_error(e: EnqueueError) -> (r: StoreError)
    ensures
        r == spec_queue_error(e),
{
    match e {
        EnqueueError::Duplicate => StoreError::DuplicateTask,
        EnqueueError::Exhausted => StoreError::QueueExhausted,
    }
}

/// The position of the first element at or after `from` that satisfies
/// `pred`, or the length of `s` when there is none.
pub open spec fn first_from<A>(s: Seq<A>, pred: spec_fn(A) -> bool, from: int) -> int
    decreases s.len() - from,
{
    if from < 0 || from >= s.len() {
        s.len() as int
    } else if pred(s[from]) {
        from
    } else {
        first_from(s, pred, from + 1)
    }
}

/// What the first position is: it lies in the sequence or at its end, the
/// element there satisfies the predicate, and none passed over does.
pub proof fn lemma_first_from<A>(s: Seq<A>, pred: spec_fn(A) -> bool, from: int)
    requires
        0 <= from <= s.len(),
    ensures
        from <= first_from(s, pred, from) <= s.len(),
        first_from(s, pred, from) < s.len() ==> pred(s[first_from(s, pred, from)]),
        forall|i: int| from <= i < first_from(s, pred, from) ==> !pred(#[trigger] s[i]),
    decreases s.len() - from,
{
    if from < s.len() && !pred(s[from]) {
        lemma_first_from(s, pred, from + 1);
    }
}

/// An element that is missing stays missing when an element that does not
/// satisfy the predicate is appended.
pub proof fn lemma_first_from_push<A>(s: Seq<A>, pred: spec_fn(A) -> bool, x: A, from: int)
    requires
        0 <= from <= s.len(),
        first_from(s, pred, from) == s.len(),
        !pred(x),
    ensures
        first_from(s.push(x), pred, from) == s.len() + 1,
    decreases s.len() - from,
{
    let t = s.push(x);
    if from < s.len() {
        assert(t[from] == s[from]);
        assert(!pred(s[from]));
        assert(first_from(s, pred, from + 1) == s.len());
        lemma_first_from_push(s, pred, x, from + 1);
    } else {
        assert(t[from] == x);
        assert(first_from(t, pred, from + 1) == t.len());
    }
}

/// An element that is missing is found at the end once an element that
/// satisfies the predicate is appended.
pub proof fn lemma_first_from_push_found<A>(s: Seq<A>, pred: spec_fn(A) -> bool, x: A, from: int)
    requires
        0 <= from <= s.len(),
        first_from(s, pred, from) == s.len(),
        pred(x),
    ensures
        first_from(s.push(x), pred, from) == s.len(),
    decreases s.len() - from,
{
    let t = s.push(x);
    if from < s.len() {
        assert(t[from] == s[from]);
        assert(!pred(s[from]));
        assert(first_from(s, pred, from + 1) == s.len());
        lemma_first_from_push_found(s, pred, x, from + 1);
    } else {
        assert(t[from] == x);
    }
}

/// The delivery tasks of issue `issue_id` for the confirmed ones among the
/// first `n` recipients, in the recipients' order.
pub open spec fn snapshot_of(subscribers: Seq<SubscriberContent>, issue_id: u128, n: int) -> Seq<DeliveryTask>
    decreases n,
{
    if n <= 0 || n > subscribers.len() {
        Seq::empty()
    } else if subscribers[n - 1].status == SubscriberStatus::Confirmed {
        snapshot_of(subscribers, issue_id, n - 1).push(
            DeliveryTask { issue_id, subscriber_id: subscribers[n - 1].id },
        )
    } else {
        snapshot_of(subscribers, issue_id, n - 1)
    }
}

/// What the next claimable confirmation task asks for.
pub enum NextConfirmation {
    Nothing,
    Unsendable { ticket: u64 },
    Ready { ticket: u64, raw: RawTaskContent },
}

/// What a poll of a queue found.
#[derive(Debug)]
pub enum Dequeued<T> {
    /// No task is claimable.
    Empty,
    /// A task was claimed that can never be carried out. It was deleted.
    Discarded,
    /// The claim and what it holds.
    Task(Claim, T),
}

/// The content of an open transaction of the command handler: the key that
/// it holds, and what it has written so far. None of it is visible to anyone
/// else before the transaction commits.
pub struct TransactionContent {
    pub user_id: u128,
    pub key: Seq<char>,
    pub issue: Option<StoredIssue>,
    pub tasks: Seq<DeliveryTask>,
}

/// The mathematical content of the store.
pub struct StoreState {
    pub subscribers: Seq<SubscriberContent>,
    pub tokens: Seq<TokenContent>,
    pub issues: Seq<StoredIssue>,
    pub delivery_queue: QueueState<DeliveryTask>,
    pub confirmation_queue: QueueState<ConfirmationTask>,
    pub idempotency: IdempotencyState,
}

impl StoreState {
    /// The store without rows.
    pub open spec fn empty() -> Self {
        StoreState {
            subscribers: Seq::empty(),
            tokens: Seq::empty(),
            issues: Seq::empty(),
            delivery_queue: QueueState::empty(),
            confirmation_queue: QueueState::empty(),
            idempotency: IdempotencyState::empty(),
        }
    }

    /// Both queues and the idempotency table are well formed, no two
    /// recipients share an identifier, and no two issues do.
    pub open spec fn wf(self) -> bool {
        &&& self.delivery_queue.wf()
        &&& self.confirmation_queue.wf()
        &&& self.idempotency.wf()
        &&& forall|i: int, j: int|
            0 <= i < j < self.subscribers.len() ==> (#[trigger] self.subscribers[i]).id != (
            #[trigger] self.subscribers[j]).id
        &&& forall|i: int, j: int|
            0 <= i < j < self.issues.len() ==> (#[trigger] self.issues[i]).id != (#[trigger] self.issues[j]).id
    }

    /// The position of the recipient with `id`, or the number of recipients.
    pub open spec fn subscriber_position(self, id: u128) -> int {
        first_from(self.subscribers, |r: SubscriberContent| r.id == id, 0)
    }

    /// Whether a recipient with `id` is stored.
    pub open spec fn has_subscriber(self, id: u128) -> bool {
        self.subscriber_position(id) < self.subscribers.len()
    }

    /// The recipient with `id`, if there is one.
    pub open spec fn subscriber(self, id: u128) -> Option<SubscriberContent> {
        if self.has_subscriber(id) {
            Some(self.subscribers[self.subscriber_position(id)])
        } else {
            None
        }
    }

    /// The position of the row of `token`, or the number of token rows.
    pub open spec fn token_position(self, token: Seq<char>) -> int {
        first_from(self.tokens, |r: TokenContent| r.token == token, 0)
    }

    /// The recipient that `token` was issued to, if any.
    pub open spec fn token_owner(self, token: Seq<char>) -> Option<u128> {
        if self.token_position(token) < self.tokens.len() {
            Some(self.tokens[self.token_position(token)].subscriber_id)
        } else {
            None
        }
    }

    /// The position of the row of the first token of recipient `id`, or the
    /// number of token rows.
    pub open spec fn token_position_of(self, id: u128) -> int {
        first_from(self.tokens, |r: TokenContent| r.subscriber_id == id, 0)
    }

    /// The position of the issue with `id`, or the number of issues.
    pub open spec fn issue_position(self, id: u128) -> int {
        first_from(self.issues, |r: StoredIssue| r.id == id, 0)
    }

    /// Whether an issue with `id` is stored.
    pub open spec fn has_issue(self, id: u128) -> bool {
        self.issue_position(id) < self.issues.len()
    }

    /// The issue with `id`, if it is stored.
    pub open spec fn issue(self, id: u128) -> Option<IssueContent> {
        if self.has_issue(id) {
            Some(self.issues[self.issue_position(id)].content)
        } else {
            None
        }
    }

    /// When the issue with `id` was submitted, if it is stored.
    pub open spec fn issue_published_at(self, id: u128) -> Option<u64> {
        if self.has_issue(id) {
            Some(self.issues[self.issue_position(id)].published_at)
        } else {
            None
        }
    }

    /// The delivery tasks that issue `issue_id` gets if it is published now:
    /// one for each recipient who is confirmed at this instant.
    pub open spec fn snapshot(self, issue_id: u128) -> Seq<DeliveryTask> {
        snapshot_of(self.subscribers, issue_id, self.subscribers.len() as int)
    }

    /// The store with one more recipient, pending confirmation. An
    /// identifier that is taken changes nothing.
    pub open spec fn with_subscriber(self, id: u128, email: Seq<char>, name: Seq<char>) -> Self {
        if self.has_subscriber(id) {
            self
        } else {
            StoreState {
                subscribers: self.subscribers.push(
                    SubscriberContent { id, email, name, status: SubscriberStatus::PendingConfirmation },
                ),
                ..self
            }
        }
    }

    /// The store with one more token row.
    pub open spec fn with_token(self, subscriber_id: u128, token: Seq<char>) -> Self {
        StoreState { tokens: self.tokens.push(TokenContent { token, subscriber_id }), ..self }
    }

    /// The store after recipient `id` confirmed. An unknown identifier
    /// changes nothing.
    pub open spec fn with_confirmed(self, id: u128) -> Self {
        if self.has_subscriber(id) {
            let k = self.subscriber_position(id);
            StoreState {
                subscribers: self.subscribers.update(
                    k,
                    SubscriberContent { status: SubscriberStatus::Confirmed, ..self.subscribers[k] },
                ),
                ..self
            }
        } else {
            self
        }
    }

    /// How the attempt to store an issue under `id` inside `tx` ends: an
    /// identifier that is taken is refused, and so is a second issue in one
    /// transaction.
    pub open spec fn insert_issue_result(self, tx: TransactionContent, id: u128) -> Result<u128, StoreError> {
        if self.has_issue(id) {
            Err(StoreError::DuplicateId)
        } else if tx.issue is Some {
            Err(StoreError::IssueAlreadyStored)
        } else {
            Ok(id)
        }
    }

    /// How the attempt to queue a confirmation task for a recipient ends.
    pub open spec fn confirmation_task_result(self, subscriber_id: u128) -> Result<(), StoreError> {
        let task = ConfirmationTask { subscriber_id };
        if self.confirmation_queue.accepts(task) {
            Ok(())
        } else {
            Err(spec_queue_error(self.confirmation_queue.enqueue_error(task)))
        }
    }

    /// The store after a submission by `user_id` under `key` asked to start.
    pub open spec fn try_started(self, user_id: u128, key: Seq<char>) -> Self {
        StoreState { idempotency: self.idempotency.started(user_id, key), ..self }
    }

    /// The stored data and the token of recipient `id`, if both exist.
    pub open spec fn raw_task(self, id: u128) -> Option<RawTaskContent> {
        if self.has_subscriber(id) && self.token_position_of(id) < self.tokens.len() {
            let subscriber = self.subscribers[self.subscriber_position(id)];
            Some(
                RawTaskContent {
                    user: id,
                    email: subscriber.email,
                    name: subscriber.name,
                    token: self.tokens[self.token_position_of(id)].token,
                },
            )
        } else {
            None
        }
    }

    /// Whether the stored data of a recipient passes validation.
    pub open spec fn is_sendable(raw: RawTaskContent) -> bool {
        is_valid_email(raw.email) && is_valid_name(raw.name)
    }

    /// What the next claimable confirmation task asks for: nothing when no
    /// task is claimable; a task whose recipient or token is missing, or
    /// whose recipient's stored data fails validation, can never be sent;
    /// any other is ready.
    pub open spec fn next_confirmation(self) -> NextConfirmation {
        match self.confirmation_queue.next_claim() {
            None => NextConfirmation::Nothing,
            Some(row) => match self.raw_task(row.payload.subscriber_id) {
                Some(raw) => if Self::is_sendable(raw) {
                    NextConfirmation::Ready { ticket: row.ticket, raw }
                } else {
                    NextConfirmation::Unsendable { ticket: row.ticket }
                },
                None => NextConfirmation::Unsendable { ticket: row.ticket },
            },
        }
    }

    /// The store after the next confirmation task was checked out and the
    /// recipient's stored data and token were read: a task whose recipient
    /// and token exist is held; one that lacks either is deleted for good;
    /// without a task to claim nothing changes.
    pub open spec fn after_raw_claim(self) -> Self {
        match self.confirmation_queue.next_claim() {
            None => self,
            Some(row) => if self.raw_task(row.payload.subscriber_id) is Some {
                self.with_confirmation_queue(self.confirmation_queue.claimed())
            } else {
                self.with_confirmation_queue(self.confirmation_queue.claimed().acked(row.ticket))
            },
        }
    }

    /// The store after the next confirmation task was checked out and its
    /// recipient validated: a task that is ready is held; one that can never
    /// be sent is deleted for good; without a task to claim nothing changes.
    pub open spec fn after_confirmation_claim(self) -> Self {
        match self.next_confirmation() {
            NextConfirmation::Nothing => self,
            NextConfirmation::Ready { .. } => self.with_confirmation_queue(self.confirmation_queue.claimed()),
            NextConfirmation::Unsendable { ticket } => self.with_confirmation_queue(
                self.confirmation_queue.claimed().acked(ticket),
            ),
        }
    }

    /// The store with another delivery queue.
    pub open spec fn with_delivery_queue(self, q: QueueState<DeliveryTask>) -> Self {
        StoreState { delivery_queue: q, ..self }
    }

    /// The store with another confirmation queue.
    pub open spec fn with_confirmation_queue(self, q: QueueState<ConfirmationTask>) -> Self {
        StoreState { confirmation_queue: q, ..self }
    }

    /// Why the transaction `tx` cannot commit, when it cannot.
    pub open spec fn commit_error(self, tx: TransactionContent) -> StoreError {
        if !(self.idempotency.status(tx.user_id, tx.key) is Started) {
            StoreError::TransactionClosed
        } else if tx.issue is Some && self.has_issue(tx.issue.unwrap().id) {
            StoreError::DuplicateId
        } else {
            spec_queue_error(self.delivery_queue.enqueue_all_error(tx.tasks))
        }
    }

    /// Whether the transaction `tx` can commit: its key is still held, its
    /// issue's identifier is free and the queue takes its tasks.
    pub open spec fn can_commit(self, tx: TransactionContent) -> bool {
        &&& self.idempotency.status(tx.user_id, tx.key) is Started
        &&& tx.issue is Some ==> !self.has_issue(tx.issue.unwrap().id)
        &&& self.delivery_queue.accepts_all(tx.tasks)
    }

    /// The store after the transaction `tx` saved `response` and committed.
    /// A transaction that can commit makes all its writes visible at once:
    /// the issue, its delivery tasks and the completed record. Any other
    /// transaction ends without a trace.
    pub open spec fn committed(self, tx: TransactionContent, response: ResponseContent) -> Self {
        if self.can_commit(tx) {
            StoreState {
                issues: match tx.issue {
                    Some(issue) => self.issues.push(issue),
                    None => self.issues,
                },
                delivery_queue: self.delivery_queue.enqueued_all(tx.tasks),
                idempotency: self.idempotency.completed(tx.user_id, tx.key, response),
                ..self
            }
        } else {
            self.rolled_back(tx)
        }
    }

    /// The store after the transaction `tx` ended without committing: its
    /// key is free again and none of its writes was ever visible.
    pub open spec fn rolled_back(self, tx: TransactionContent) -> Self {
        StoreState { idempotency: self.idempotency.aborted(tx.user_id, tx.key), ..self }
    }
}

/// A new recipient under an identifier that no recipient has, or none at all
/// when the identifier is taken, keeps the store well formed.
pub proof fn lemma_new_subscriber_keeps_wf(s: StoreState, id: u128, email: Seq<char>, name: Seq<char>)
    requires
        s.wf(),
    ensures
        s.with_subscriber(id, email, name).wf(),
{
    lemma_first_from(s.subscribers, |r: SubscriberContent| r.id == id, 0);
    let a = s.with_subscriber(id, email, name);
    assert forall|i: int, j: int| 0 <= i < j < a.subscribers.len() implies (#[trigger] a.subscribers[i]).id != (
    #[trigger] a.subscribers[j]).id by {
        if j < s.subscribers.len() {
            assert(a.subscribers[i] == s.subscribers[i]);
            assert(a.subscribers[j] == s.subscribers[j]);
        } else {
            assert(a.subscribers[i] == s.subscribers[i]);
            assert(!(|r: SubscriberContent| r.id == id)(s.subscribers[i]));
        }
    }
}

/// A confirmation keeps the store well formed.
pub proof fn lemma_confirmed_keeps_wf(s: StoreState, id: u128)
    requires
        s.wf(),
    ensures
        s.with_confirmed(id).wf(),
{
    lemma_first_from(s.subscribers, |r: SubscriberContent| r.id == id, 0);
    let c = s.with_confirmed(id);
    assert forall|i: int, j: int| 0 <= i < j < c.subscribers.len() implies (#[trigger] c.subscribers[i]).id != (
    #[trigger] c.subscribers[j]).id by {
        assert(c.subscribers[i].id == s.subscribers[i].id);
        assert(c.subscribers[j].id == s.subscribers[j].id);
    }
}

/// A new issue under an identifier that no issue has keeps the store well
/// formed.
pub proof fn lemma_new_issue_keeps_wf(s: StoreState, issue: StoredIssue)
    requires
        s.wf(),
        !s.has_issue(issue.id),
    ensures
        (StoreState { issues: s.issues.push(issue), ..s }).wf(),
{
    lemma_first_from(s.issues, |r: StoredIssue| r.id == issue.id, 0);
    let b = StoreState { issues: s.issues.push(issue), ..s };
    assert forall|i: int, j: int| 0 <= i < j < b.issues.len() implies (#[trigger] b.issues[i]).id != (
    #[trigger] b.issues[j]).id by {
        if j < s.issues.len() {
            assert(b.issues[i] == s.issues[i]);
            assert(b.issues[j] == s.issues[j]);
        } else {
            assert(b.issues[i] == s.issues[i]);
            assert(!(|r: StoredIssue| r.id == issue.id)(s.issues[i]));
        }
    }
}

/// A store that keeps its recipients and issues, and whose queues and
/// idempotency table are well formed, is well formed.
pub proof fn lemma_same_rows_keep_wf(before: StoreState, after: StoreState)
    requires
        before.wf(),
        after.subscribers == before.subscribers,
        after.issues == before.issues,
        after.delivery_queue.wf(),
        after.confirmation_queue.wf(),
        after.idempotency.wf(),
    ensures
        after.wf(),
{
}

/// A command's writes become visible together or not at all. While its
/// transaction is open, no issue and no task of it can be seen. When the
/// transaction commits, the issue, its delivery tasks and the completed
/// record appear at once; when it cannot commit, none of them appears and the
/// key is no longer held. Either way the issues that were stored before stay
/// as they are, and recipients, tokens and confirmation tasks are not
/// touched.
pub proof fn law_commit_is_all_or_nothing(
    s: StoreState,
    user_id: u128,
    key: Seq<char>,
    tx: TransactionContent,
    response: ResponseContent,
)
    requires
        s.wf(),
        tx.user_id == user_id,
        tx.key == key,
    ensures
        s.try_started(user_id, key).issues == s.issues,
        s.try_started(user_id, key).delivery_queue == s.delivery_queue,
        ({
            let held = s.try_started(user_id, key);
            let after = held.committed(tx, response);
            &&& after.wf()
            &&& after.subscribers == s.subscribers
            &&& after.tokens == s.tokens
            &&& after.confirmation_queue == s.confirmation_queue
            &&& after.issues.take(s.issues.len() as int) == s.issues
            &&& if held.can_commit(tx) {
                &&& after.idempotency.status(user_id, key) == KeyStatus::Completed(response)
                &&& after.delivery_queue.payloads() == s.delivery_queue.payloads() + tx.tasks
                &&& tx.issue is Some ==> after.issue(tx.issue.unwrap().id) == Some(tx.issue.unwrap().content)
                &&& tx.issue is None ==> after.issues == s.issues
            } else {
                &&& after.issues == s.issues
                &&& after.delivery_queue == s.delivery_queue
                &&& !(after.idempotency.status(user_id, key) is Started)
            }
        }),
{
    let held = s.try_started(user_id, key);
    let after = held.committed(tx, response);
    crate::idempotency::lemma_record_transitions(s.idempotency, user_id, key, response, user_id, key);
    crate::idempotency::lemma_record_transitions(held.idempotency, user_id, key, response, user_id, key);
    assert(after.issues.take(s.issues.len() as int) =~= s.issues);
    if held.can_commit(tx) {
        crate::outbox::lemma_enqueued_all(s.delivery_queue, tx.tasks);
        if tx.issue is Some {
            lemma_new_issue_keeps_wf(s, tx.issue.unwrap());
            let id = tx.issue.unwrap().id;
            lemma_first_from(s.issues, |r: StoredIssue| r.id == id, 0);
            lemma_first_from_push_found(s.issues, |r: StoredIssue| r.id == id, tx.issue.unwrap(), 0);
        }
    }
}

/// The open transaction of one command: the handle that `Store::try_start`
/// gives to the first submission under a key.
#[derive(Debug)]
pub struct Transaction {
    user_id: u128,
    key: IdempotencyKey,
    issue: Option<IssueRow>,
    tasks: Vec<DeliveryTask>,
}

impl Transaction {
    pub closed spec fn view(&self) -> TransactionContent {
        TransactionContent {
            user_id: self.user_id,
            key: self.key@,
            issue: match self.issue {
                Some(row) => Some(row@),
                None => None,
            },
            tasks: self.tasks@,
        }
    }
}

/// What a submission under a key has to do next.
#[derive(Debug)]
pub enum StartOutcome {
    /// The key was unseen: the caller carries the command out inside this
    /// transaction and saves the response in it.
    ProceedWithTransaction(Transaction),
    /// The command was carried out before: the caller gives this response
    /// again and does nothing else.
    AlreadyCompleted(Response),
}

/// A recipient's stored data together with the token for the confirmation
/// link, as read for one confirmation task.
#[derive(Debug)]
pub struct RawTask {
    pub user: u128,
    pub email: String,
    pub name: String,
    pub token: String,
}

/// The content of a `RawTask`.
pub struct RawTaskContent {
    pub user: u128,
    pub email: Seq<char>,
    pub name: Seq<char>,
    pub token: Seq<char>,
}

impl RawTask {
    pub open spec fn view(&self) -> RawTaskContent {
        RawTaskContent { user: self.user, email: self.email@, name: self.name@, token: self.token@ }
    }
}

/// Validates the recipient's stored address and name. A recipient who
/// passes is handed on with the token; one who fails will never pass.
pub fn parse_raw_task(raw_task: RawTask) -> (r: Option<SubscriptionConfirmationTask>)
    ensures
        r is Some <==> StoreState::is_sendable(raw_task@),
        match r {
            Some(task) => {
                &&& task.subscriber_id == raw_task.user
                &&& task.subscriber.email@ == raw_task.email@
                &&& task.subscriber.name@ == raw_task.name@
                &&& task.confirmation_token@ == raw_task.token@
            },
            None => true,
        },
{
    let RawTask { user, email, name, token } = raw_task;
    let email = SubscriberEmail::parse(email);
    let name = SubscriberName::parse(name);
    match (email, name) {
        (Ok(email), Ok(name)) => {
            let new_subscriber = NewSubscriber { email, name };
            Some(
                SubscriptionConfirmationTask {
                    subscriber_id: user,
                    subscriber: new_subscriber,
                    confirmation_token: token,
                },
            )
        },
        _ => None,
    }
}

/// The store.
pub struct Store {
    subscribers: Vec<SubscriberRow>,
    tokens: Vec<TokenRow>,
    issues: Vec<IssueRow>,
    delivery_queue: Outbox<DeliveryTask>,
    confirmation_queue: Outbox<ConfirmationTask>,
    idempotency: IdempotencyStore,
}

/// A new random identifier: the 128 bits of `uuid::Uuid::new_v4()`, read
/// with `Uuid::as_u128`. Nothing is claimed of the value.
#[verifier::external_body]
pub(crate) fn random_id() -> (id: u128) {
    uuid::Uuid::new_v4().as_u128()
}

impl Store {
    pub closed spec fn view(&self) -> StoreState {
        StoreState {
            subscribers: self.subscribers@.map_values(|r: SubscriberRow| r@),
            tokens: self.tokens@.map_values(|r: TokenRow| r@),
            issues: self.issues@.map_values(|r: IssueRow| r@),
            delivery_queue: self.delivery_queue@,
            confirmation_queue: self.confirmation_queue@,
            idempotency: self.idempotency@,
        }
    }

    /// The representation invariant.
    pub open spec fn wf(&self) -> bool {
        self@.wf()
    }

    /// A store without rows.
    pub fn new() -> (s: Self)
        ensures
            s@ == StoreState::empty(),
            s.wf(),
    {
        let s = Store {
            subscribers: Vec::new(),
            tokens: Vec::new(),
            issues: Vec::new(),
            delivery_queue: Outbox::new(),
            confirmation_queue: Outbox::new(),
            idempotency: IdempotencyStore::new(),
        };
        proof {
            assert(s@.subscribers =~= Seq::empty());
            assert(s@.tokens =~= Seq::empty());
            assert(s@.issues =~= Seq::empty());
        }
        s
    }

    fn find_subscriber(&self, id: u128) -> (k: usize)
        ensures
            k == self@.subscriber_position(id),
            k <= self.subscribers@.len(),
            k < self.subscribers@.len() ==> self.subscribers@[k as int].id == id,
    {
        let mut i: usize = 0;
        while i < self.subscribers.len()
            invariant
                0 <= i <= self.subscribers@.len(),
                first_from(self@.subscribers, |r: SubscriberContent| r.id == id, 0) == first_from(
                    self@.subscribers,
                    |r: SubscriberContent| r.id == id,
                    i as int,
                ),
            decreases self.subscribers@.len() - i,
        {
            if self.subscribers[i].id == id {
                return i;
            }
            i += 1;
        }
        i
    }

    fn find_issue(&self, id: u128) -> (k: usize)
        ensures
            k == self@.issue_position(id),
            k <= self.issues@.len(),
    {
        let mut i: usize = 0;
        while i < self.issues.len()
            invariant
                0 <= i <= self.issues@.len(),
                first_from(self@.issues, |r: StoredIssue| r.id == id, 0) == first_from(
                    self@.issues,
                    |r: StoredIssue| r.id == id,
                    i as int,
                ),
            decreases self.issues@.len() - i,
        {
            if self.issues[i].id == id {
                return i;
            }
            i += 1;
        }
        i
    }

    /// The number of recipients.
    pub fn subscriber_count(&self) -> (n: usize)
        ensures
            n == self@.subscribers.len(),
    {
        self.subscribers.len()
    }

    /// The number of stored issues.
    pub fn issue_count(&self) -> (n: usize)
        ensures
            n == self@.issues.len(),
    {
        self.issues.len()
    }

    /// The number of delivery tasks that are pending, held ones included.
    pub fn delivery_task_count(&self) -> (n: usize)
        ensures
            n == self@.delivery_queue.rows.len(),
    {
        self.delivery_queue.len()
    }

    /// The number of confirmation tasks that are pending, held ones included.
    pub fn confirmation_task_count(&self) -> (n: usize)
        ensures
            n == self@.confirmation_queue.rows.len(),
    {
        self.confirmation_queue.len()
    }

    /// Stores a new recipient under `id`, pending confirmation. An
    /// identifier that is taken is refused.
    pub fn insert_subscriber_with_id(&mut self, id: u128, new_subscriber: &NewSubscriber) -> (r: Result<
        u128,
        StoreError,
    >)
        requires
            old(self).wf(),
        ensures
            final(self).wf(),
            final(self)@ == old(self)@.with_subscriber(id, new_subscriber.email@, new_subscriber.name@),
            r == if old(self)@.has_subscriber(id) {
                Err::<u128, StoreError>(StoreError::DuplicateId)
            } else {
                Ok::<u128, StoreError>(id)
            },
    {
        let k = self.find_subscriber(id);
        if k < self.subscribers.len() {
            return Err(StoreError::DuplicateId);
        }
        proof {
            lemma_new_subscriber_keeps_wf(self@, id, new_subscriber.email@, new_subscriber.name@);
        }
        let email = new_subscriber.email.as_str().to_owned();
        let name = new_subscriber.name.as_str().to_owned();
        self.subscribers.push(SubscriberRow { id, email, name, status: SubscriberStatus::PendingConfirmation });
        proof {
            assert(self@.subscribers =~= old(self)@.with_subscriber(
                id,
                new_subscriber.email@,
                new_subscriber.name@,
            ).subscribers);
        }
        Ok(id)
    }

    /// Stores a new recipient under a random identifier and returns it. The
    /// outcome is that of `insert_subscriber_with_id` for the identifier
    /// that was drawn.
    pub fn insert_subscriber(&mut self, new_subscriber: &NewSubscriber) -> (r: Result<u128, StoreError>)
        requires
            old(self).wf(),
        ensures
            final(self).wf(),
            exists|id: u128|
                {
                    &&& final(self)@ == #[trigger] old(self)@.with_subscriber(
                        id,
                        new_subscriber.email@,
                        new_subscriber.name@,
                    )
                    &&& r == if old(self)@.has_subscriber(id) {
                        Err::<u128, StoreError>(StoreError::DuplicateId)
                    } else {
                        Ok::<u128, StoreError>(id)
                    }
                },
    {
        let id: u128 = random_id();
        self.insert_subscriber_with_id(id, new_subscriber)
    }

    /// Stores the confirmation token of a recipient.
    pub fn store_token(&mut self, subscriber_id: u128, confirmation_token: &str)
        requires
            old(self).wf(),
        ensures
            final(self).wf(),
            final(self)@ == old(self)@.with_token(subscriber_id, confirmation_token@),
    {
        self.tokens.push(TokenRow { token: confirmation_token.to_owned(), subscriber_id });
        proof {
            assert(self@.tokens =~= old(self)@.with_token(subscriber_id, confirmation_token@).tokens);
        }
    }

    /// The recipient that a confirmation token was issued to.
    pub fn get_subscriber_id_from_token(&self, token: &str) -> (id: Option<u128>)
        ensures
            id == self@.token_owner(token@),
    {
        let wanted = token.to_owned();
        let mut i: usize = 0;
        while i < self.tokens.len()
            invariant
                0 <= i <= self.tokens@.len(),
                wanted@ == token@,
                first_from(self@.tokens, |r: TokenContent| r.token == token@, 0) == first_from(
                    self@.tokens,
                    |r: TokenContent| r.token == token@,
                    i as int,
                ),
            decreases self.tokens@.len() - i,
        {
            if self.tokens[i].token == wanted {
                return Some(self.tokens[i].subscriber_id);
            }
            i += 1;
        }
        None
    }

    /// Marks a recipient as confirmed. Returns whether the recipient exists.
    /// No queue is touched: an issue that was published before does not
    /// reach a recipient who confirms afterwards.
    pub fn confirm_subscriber(&mut self, id: u128) -> (found: bool)
        requires
            old(self).wf(),
        ensures
            final(self).wf(),
            found == old(self)@.has_subscriber(id),
            final(self)@ == old(self)@.with_confirmed(id),
            final(self)@.delivery_queue == old(self)@.delivery_queue,
    {
        let k = self.find_subscriber(id);
        proof {
            lemma_confirmed_keeps_wf(self@, id);
        }
        if k < self.subscribers.len() {
            let email = self.subscribers[k].email.clone();
            let name = self.subscribers[k].name.clone();
            self.subscribers[k] = SubscriberRow { id, email, name, status: SubscriberStatus::Confirmed };
            proof {
                assert(self@.subscribers =~= old(self)@.with_confirmed(id).subscribers);
            }
            true
        } else {
            false
        }
    }

    /// Puts a confirmation task for a recipient into its queue. A task that
    /// is queued already is refused, and so is any task once the queue has
    /// run out of tickets.
    pub fn insert_subscription_confirmation_task(&mut self, subscriber_id: u128) -> (r: Result<
        (),
        StoreError,
    >)
        requires
            old(self).wf(),
        ensures
            final(self).wf(),
            r == old(self)@.confirmation_task_result(subscriber_id),
            final(self)@ == old(self)@.with_confirmation_queue(
                old(self)@.confirmation_queue.tried_enqueue(ConfirmationTask { subscriber_id }),
            ),
    {
        let r = self.confirmation_queue.enqueue(ConfirmationTask { subscriber_id });
        proof {
            lemma_same_rows_keep_wf(old(self)@, self@);
        }
        match r {
            Ok(_) => Ok(()),
            Err(e) => Err(queue_error(e)),
        }
    }

    fn find_token_of(&self, id: u128) -> (k: usize)
        ensures
            k == self@.token_position_of(id),
            k <= self.tokens@.len(),
    {
        let mut i: usize = 0;
        while i < self.tokens.len()
            invariant
                0 <= i <= self.tokens@.len(),
                first_from(self@.tokens, |r: TokenContent| r.subscriber_id == id, 0) == first_from(
                    self@.tokens,
                    |r: TokenContent| r.subscriber_id == id,
                    i as int,
                ),
            decreases self.tokens@.len() - i,
        {
            if self.tokens[i].subscriber_id == id {
                return i;
            }
            i += 1;
        }
        i
    }

    /// The stored issue with `id`.
    pub fn fetch_newsletter_issue(&self, issue_id: u128) -> (r: Result<NewsletterIssue, StoreError>)
        ensures
            match r {
                Ok(issue) => self@.issue(issue_id) == Some(issue@),
                Err(e) => e == StoreError::NotFound && self@.issue(issue_id) is None,
            },
    {
        let k = self.find_issue(issue_id);
        if k < self.issues.len() {
            Ok(self.issues[k].issue.clone())
        } else {
            Err(StoreError::NotFound)
        }
    }

    /// When the stored issue with `id` was submitted.
    pub fn published_at(&self, issue_id: u128) -> (at: Option<u64>)
        ensures
            at == self@.issue_published_at(issue_id),
    {
        let k = self.find_issue(issue_id);
        if k < self.issues.len() {
            Some(self.issues[k].published_at)
        } else {
            None
        }
    }

    /// The stored address and name of a recipient.
    pub fn fetch_subscriber(&self, id: u128) -> (r: Option<SubscriberRow>)
        ensures
            match r {
                Some(row) => self@.subscriber(id) == Some(row@),
                None => self@.subscriber(id) is None,
            },
    {
        let k = self.find_subscriber(id);
        if k < self.subscribers.len() {
            Some(
                SubscriberRow {
                    id: self.subscribers[k].id,
                    email: self.subscribers[k].email.clone(),
                    name: self.subscribers[k].name.clone(),
                    status: self.subscribers[k].status,
                },
            )
        } else {
            None
        }
    }

    /// Asks to start the command that `user_id` submitted under `key`.
    ///
    /// The first submission under a key gets an open transaction, and the
    /// key counts as started. A later submission gets the saved response once
    /// the first has committed. While the first is still open a later one
    /// has to wait for it: the answer is then `None`, nothing has changed,
    /// and the caller asks again after the holder has finished.
    pub fn try_start(&mut self, key: &IdempotencyKey, user_id: u128) -> (r: Option<StartOutcome>)
        requires
            old(self).wf(),
        ensures
            final(self).wf(),
            final(self)@ == old(self)@.try_started(user_id, key@),
            match r {
                Some(StartOutcome::ProceedWithTransaction(tx)) => {
                    &&& old(self)@.idempotency.status(user_id, key@) is Unseen
                    &&& tx@ == (TransactionContent { user_id, key: key@, issue: None, tasks: Seq::empty() })
                },
                Some(StartOutcome::AlreadyCompleted(response)) => {
                    &&& old(self)@.idempotency.status(user_id, key@) == KeyStatus::Completed(response@)
                    &&& final(self)@ == old(self)@
                },
                None => {
                    &&& old(self)@.idempotency.status(user_id, key@) is Started
                    &&& final(self)@ == old(self)@
                },
            },
    {
        let found = self.idempotency.start(key, user_id);
        proof {
            lemma_same_rows_keep_wf(old(self)@, self@);
        }
        match found {
            Found::Fresh => {
                let tx = Transaction { user_id, key: key.clone(), issue: None, tasks: Vec::new() };
                Some(StartOutcome::ProceedWithTransaction(tx))
            },
            Found::InFlight => None,
            Found::Saved(response) => Some(StartOutcome::AlreadyCompleted(response)),
        }
    }

    /// Stores an issue under `id` inside the transaction, stamped with the
    /// time `published_at`. Refused when the
    /// identifier is taken, or when the transaction has stored an issue
    /// already.
    pub fn insert_newsletter_issue_with_id(
        &self,
        transaction: &mut Transaction,
        id: u128,
        newsletter_issue: &NewsletterIssue,
        published_at: u64,
    ) -> (r: Result<u128, StoreError>)
        ensures
            r == self@.insert_issue_result(old(transaction)@, id),
            r is Err ==> final(transaction)@ == old(transaction)@,
            r is Ok ==> final(transaction)@ == (TransactionContent {
                issue: Some(StoredIssue { id, content: newsletter_issue@, published_at }),
                ..old(transaction)@
            }),
    {
        let k = self.find_issue(id);
        if k < self.issues.len() {
            return Err(StoreError::DuplicateId);
        }
        if transaction.issue.is_some() {
            return Err(StoreError::IssueAlreadyStored);
        }
        transaction.issue = Some(IssueRow { id, issue: newsletter_issue.clone(), published_at });
        Ok(id)
    }

    /// Stores an issue under a random identifier inside the transaction and
    /// returns the identifier. The outcome is that of
    /// `insert_newsletter_issue_with_id` for the identifier that was drawn.
    pub fn insert_newsletter_issue(
        &self,
        transaction: &mut Transaction,
        newsletter_issue: &NewsletterIssue,
        published_at: u64,
    ) -> (r: Result<u128, StoreError>)
        ensures
            exists|id: u128|
                {
                    &&& r == #[trigger] self@.insert_issue_result(old(transaction)@, id)
                    &&& final(transaction)@ == if r is Ok {
                        TransactionContent {
                            issue: Some(StoredIssue { id, content: newsletter_issue@, published_at }),
                            ..old(transaction)@
                        }
                    } else {
                        old(transaction)@
                    }
                },
    {
        let id: u128 = random_id();
        self.insert_newsletter_issue_with_id(transaction, id, newsletter_issue, published_at)
    }

    /// Adds to the transaction one delivery task of issue
    /// `newsletter_issue_id` for each recipient who is confirmed at this
    /// instant.
    pub fn enqueue_newsletter_delivery_tasks(&self, transaction: &mut Transaction, newsletter_issue_id: u128)
        ensures
            final(transaction)@ == (TransactionContent {
                tasks: old(transaction)@.tasks + self@.snapshot(newsletter_issue_id),
                ..old(transaction)@
            }),
    {
        let ghost before = transaction.tasks@;
        let mut i: usize = 0;
        while i < self.subscribers.len()
            invariant
                0 <= i <= self.subscribers@.len(),
                transaction.user_id == old(transaction).user_id,
                transaction.key == old(transaction).key,
                transaction.issue == old(transaction).issue,
                before == old(transaction).tasks@,
                transaction.tasks@ == before + snapshot_of(self@.subscribers, newsletter_issue_id, i as int),
            decreases self.subscribers@.len() - i,
        {
            match self.subscribers[i].status {
                SubscriberStatus::Confirmed => {
                    transaction.tasks.push(
                        DeliveryTask { issue_id: newsletter_issue_id, subscriber_id: self.subscribers[i].id },
                    );
                },
                SubscriberStatus::PendingConfirmation => {},
            }
            i += 1;
            proof {
                assert(transaction.tasks@ =~= before + snapshot_of(
                    self@.subscribers,
                    newsletter_issue_id,
                    i as int,
                ));
            }
        }
    }

    /// Saves the response of the command and commits its transaction: the
    /// issue, its delivery tasks and the completed record become visible
    /// together. A transaction that cannot commit is rolled back as a whole.
    pub fn save_completion(&mut self, transaction: Transaction, response: Response) -> (r: Result<
        Response,
        StoreError,
    >)
        requires
            old(self).wf(),
        ensures
            final(self).wf(),
            final(self)@ == old(self)@.committed(transaction@, response@),
            match r {
                Ok(saved) => old(self)@.can_commit(transaction@) && saved@ == response@,
                Err(e) => !old(self)@.can_commit(transaction@) && e == old(self)@.commit_error(transaction@),
            },
    {
        let Transaction { user_id, key, issue, tasks } = transaction;
        let ghost tx = transaction@;
        proof {
            crate::idempotency::lemma_record_transitions(
                self@.idempotency,
                user_id,
                key@,
                response@,
                user_id,
                key@,
            );
        }
        let taken = match &issue {
            Some(row) => self.find_issue(row.id) < self.issues.len(),
            None => false,
        };
        if taken {
            let open = self.idempotency.abort(&key, user_id);
            proof {
                lemma_same_rows_keep_wf(old(self)@, self@);
            }
            return Err(if open { StoreError::DuplicateId } else { StoreError::TransactionClosed });
        }
        match self.delivery_queue.check_all(&tasks) {
            Ok(_) => {},
            Err(e) => {
                let open = self.idempotency.abort(&key, user_id);
                proof {
                    lemma_same_rows_keep_wf(old(self)@, self@);
                }
                return Err(if open { queue_error(e) } else { StoreError::TransactionClosed });
            },
        }
        let saved = response.clone();
        if !self.idempotency.complete(&key, user_id, response) {
            proof {
                assert(self@.idempotency == old(self)@.idempotency.aborted(user_id, key@));
                lemma_same_rows_keep_wf(old(self)@, self@);
            }
            return Err(StoreError::TransactionClosed);
        }
        let ghost with_issue = old(self)@;
        match issue {
            Some(row) => {
                proof {
                    lemma_new_issue_keeps_wf(old(self)@, tx.issue.unwrap());
                    with_issue = StoreState { issues: old(self)@.issues.push(tx.issue.unwrap()), ..old(self)@ };
                }
                self.issues.push(row);
                proof {
                    assert(self@.issues =~= with_issue.issues);
                }
            },
            None => {},
        }
        let _ = self.delivery_queue.enqueue_all(&tasks);
        proof {
            assert(self@.issues == with_issue.issues);
            lemma_same_rows_keep_wf(with_issue, self@);
        }
        Ok(saved)
    }

    /// Ends the transaction of a command without committing: its key is free
    /// again, and nothing that it wrote was ever visible.
    pub fn rollback(&mut self, transaction: Transaction)
        requires
            old(self).wf(),
        ensures
            final(self).wf(),
            final(self)@ == old(self)@.rolled_back(transaction@),
    {
        let Transaction { user_id, key, issue, tasks } = transaction;
        self.idempotency.abort(&key, user_id);
        proof {
            lemma_same_rows_keep_wf(old(self)@, self@);
        }
    }

    /// Checks out the next delivery task that no worker holds.
    pub fn dequeue_newsletter_delivery_task(&mut self) -> (r: Option<(Claim, DeliveryTask)>)
        requires
            old(self).wf(),
        ensures
            final(self).wf(),
            final(self)@ == old(self)@.with_delivery_queue(old(self)@.delivery_queue.claimed()),
            match r {
                Some((claim, task)) => {
                    &&& old(self)@.delivery_queue.next_claim() is Some
                    &&& claim.ticket() == old(self)@.delivery_queue.next_claim().unwrap().ticket
                    &&& task == old(self)@.delivery_queue.next_claim().unwrap().payload
                    &&& final(self)@.delivery_queue.holds(claim.ticket())
                },
                None => old(self)@.delivery_queue.next_claim() is None && final(self)@ == old(self)@,
            },
    {
        let r = self.delivery_queue.claim_next();
        proof {
            lemma_same_rows_keep_wf(old(self)@, self@);
        }
        r
    }

    /// Deletes a checked-out delivery task and commits. Returns whether the
    /// claim held a task.
    pub fn delete_newsletter_delivery_task(&mut self, claim: Claim) -> (done: bool)
        requires
            old(self).wf(),
        ensures
            final(self).wf(),
            done == old(self)@.delivery_queue.holds(claim.ticket()),
            final(self)@ == old(self)@.with_delivery_queue(old(self)@.delivery_queue.acked(claim.ticket())),
    {
        let done = self.delivery_queue.ack(claim);
        proof {
            lemma_same_rows_keep_wf(old(self)@, self@);
        }
        done
    }

    /// Gives a checked-out delivery task back to the queue, as the store
    /// does when the worker's transaction ends without a commit.
    pub fn release_newsletter_delivery_task(&mut self, claim: Claim) -> (done: bool)
        requires
            old(self).wf(),
        ensures
            final(self).wf(),
            done == old(self)@.delivery_queue.holds(claim.ticket()),
            final(self)@ == old(self)@.with_delivery_queue(old(self)@.delivery_queue.released(claim.ticket())),
    {
        let done = self.delivery_queue.release(claim);
        proof {
            lemma_same_rows_keep_wf(old(self)@, self@);
        }
        done
    }

    /// Checks out the next confirmation task that no worker holds and reads
    /// the recipient's stored data and token. A task whose recipient or
    /// token is missing will never be sendable: it is deleted and reported
    /// as discarded.
    pub fn dequeue_task(&mut self) -> (r: Dequeued<RawTask>)
        requires
            old(self).wf(),
        ensures
            final(self).wf(),
            final(self)@ == old(self)@.after_raw_claim(),
            match r {
                Dequeued::Empty => old(self)@.confirmation_queue.next_claim() is None,
                Dequeued::Discarded => {
                    &&& old(self)@.confirmation_queue.next_claim() is Some
                    &&& old(self)@.raw_task(
                        old(self)@.confirmation_queue.next_claim().unwrap().payload.subscriber_id,
                    ) is None
                },
                Dequeued::Task(claim, raw) => {
                    &&& old(self)@.confirmation_queue.next_claim() is Some
                    &&& old(self)@.raw_task(
                        old(self)@.confirmation_queue.next_claim().unwrap().payload.subscriber_id,
                    ) == Some(raw@)
                    &&& claim.ticket() == old(self)@.confirmation_queue.next_claim().unwrap().ticket
                    &&& final(self)@.confirmation_queue.holds(claim.ticket())
                },
            },
    {
        let claimed = self.confirmation_queue.claim_next();
        proof {
            lemma_same_rows_keep_wf(old(self)@, self@);
        }
        match claimed {
            None => Dequeued::Empty,
            Some((claim, task)) => {
                let k = self.find_subscriber(task.subscriber_id);
                let t = self.find_token_of(task.subscriber_id);
                if k < self.subscribers.len() && t < self.tokens.len() {
                    let raw = RawTask {
                        user: task.subscriber_id,
                        email: self.subscribers[k].email.clone(),
                        name: self.subscribers[k].name.clone(),
                        token: self.tokens[t].token.clone(),
                    };
                    Dequeued::Task(claim, raw)
                } else {
                    self.confirmation_queue.ack(claim);
                    proof {
                        lemma_same_rows_keep_wf(old(self)@, self@);
                    }
                    Dequeued::Discarded
                }
            },
        }
    }

    /// Deletes a checked-out confirmation task and commits. Returns whether
    /// the claim held a task.
    pub fn delete_subscription_confirmation_task(&mut self, claim: Claim) -> (done: bool)
        requires
            old(self).wf(),
        ensures
            final(self).wf(),
            done == old(self)@.confirmation_queue.holds(claim.ticket()),
            final(self)@ == old(self)@.with_confirmation_queue(
                old(self)@.confirmation_queue.acked(claim.ticket()),
            ),
    {
        let done = self.confirmation_queue.ack(claim);
        proof {
            lemma_same_rows_keep_wf(old(self)@, self@);
        }
        done
    }

    /// Gives a checked-out confirmation task back to the queue, as the store
    /// does when the worker's transaction ends without a commit.
    pub fn release_subscription_confirmation_task(&mut self, claim: Claim) -> (done: bool)
        requires
            old(self).wf(),
        ensures
            final(self).wf(),
            done == old(self)@.confirmation_queue.holds(claim.ticket()),
            final(self)@ == old(self)@.with_confirmation_queue(
                old(self)@.confirmation_queue.released(claim.ticket()),
            ),
    {
        let done = self.confirmation_queue.release(claim);
        proof {
            lemma_same_rows_keep_wf(old(self)@, self@);
        }
        done
    }

    /// Checks out the next confirmation task and validates the recipient's
    /// stored address and name. A task that lacks its recipient or token, or
    /// whose recipient fails validation, will never be sendable: it is
    /// deleted and reported as discarded.
    pub fn dequeue_subscription_confirmation_task_and_parse(&mut self) -> (r: Dequeued<
        SubscriptionConfirmationTask,
    >)
        requires
            old(self).wf(),
        ensures
            final(self).wf(),
            final(self)@ == old(self)@.after_confirmation_claim(),
            match r {
                Dequeued::Empty => old(self)@.next_confirmation() is Nothing,
                Dequeued::Discarded => old(self)@.next_confirmation() is Unsendable,
                Dequeued::Task(claim, task) => {
                    &&& old(self)@.next_confirmation() matches NextConfirmation::Ready { ticket, raw }
                    &&& task.subscriber_id == raw.user
                    &&& task.subscriber.email@ == raw.email
                    &&& task.subscriber.name@ == raw.name
                    &&& task.confirmation_token@ == raw.token
                    &&& claim.ticket() == ticket
                    &&& final(self)@.confirmation_queue.holds(claim.ticket())
                },
            },
    {
        match self.dequeue_task() {
            Dequeued::Empty => Dequeued::Empty,
            Dequeued::Discarded => Dequeued::Discarded,
            Dequeued::Task(claim, raw_task) => {
                match parse_raw_task(raw_task) {
                    Some(task) => Dequeued::Task(claim, task),
                    None => {
                        self.delete_subscription_confirmation_task(claim);
                        Dequeued::Discarded
                    },
                }
            },
        }
    }

    /// Settles a checked-out delivery task after the attempt to send:
    /// deletes it when the attempt was final, gives it back otherwise.
    pub fn settle_newsletter_delivery_task(&mut self, claim: Claim, disposition: Disposition) -> (done: bool)
        requires
            old(self).wf(),
        ensures
            final(self).wf(),
            done == old(self)@.delivery_queue.holds(claim.ticket()),
            final(self)@ == old(self)@.with_delivery_queue(
                old(self)@.delivery_queue.settled(claim.ticket(), disposition),
            ),
    {
        let done = self.delivery_queue.settle(claim, disposition);
        proof {
            lemma_same_rows_keep_wf(old(self)@, self@);
        }
        done
    }

    /// Settles a checked-out confirmation task after the attempt to send:
    /// deletes it when the attempt was final, gives it back otherwise.
    pub fn settle_subscription_confirmation_task(&mut self, claim: Claim, disposition: Disposition) -> (done:
        bool)
        requires
            old(self).wf(),
        ensures
            final(self).wf(),
            done == old(self)@.confirmation_queue.holds(claim.ticket()),
            final(self)@ == old(self)@.with_confirmation_queue(
                old(self)@.confirmation_queue.settled(claim.ticket(), disposition),
            ),
    {
        let done = self.confirmation_queue.settle(claim, disposition);
        proof {
            lemma_same_rows_keep_wf(old(self)@, self@);
        }
        done
    }

    /// Whether a recipient with `id` is stored.
    pub fn has_subscriber(&self, id: u128) -> (b: bool)
        ensures
            b == self@.has_subscriber(id),
    {
        self.find_subscriber(id) < self.subscribers.len()
    }

    /// Whether the queue takes a confirmation task for the recipient.
    pub fn check_subscription_confirmation_task(&self, subscriber_id: u128) -> (r: Result<(), StoreError>)
        ensures
            r == self@.confirmation_task_result(subscriber_id),
    {
        match self.confirmation_queue.check(&ConfirmationTask { subscriber_id }) {
            Ok(_) => Ok(()),
            Err(e) => Err(queue_error(e)),
        }
    }

    /// Checks out up to `n` delivery tasks, one claim after the other, as
    /// `n` workers do that poll at once, and keeps all of them held. Against
    /// a queue of `n` tasks that no one holds, every task is handed out
    /// exactly once.
    pub fn dequeue_newsletter_delivery_tasks(&mut self, n: usize) -> (claims: Vec<(Claim, DeliveryTask)>)
        requires
            old(self).wf(),
        ensures
            final(self).wf(),
            claims@.len() <= n,
            final(self)@ == old(self)@.with_delivery_queue(
                old(self)@.delivery_queue.after_claims(claims@.len()),
            ),
            claims@.len() < n ==> !final(self)@.delivery_queue.has_free(),
            are_successive_claims(old(self)@.delivery_queue, final(self)@.delivery_queue, claims@),
            old(self)@.delivery_queue.all_free() && n == old(self)@.delivery_queue.rows.len() ==> {
                &&& claims@.len() == n
                &&& forall|i: int|
                    0 <= i < n ==> (#[trigger] claims@[i]).0.ticket() == old(self)@.delivery_queue.rows[i].ticket
                        && claims@[i].1 == old(self)@.delivery_queue.rows[i].payload
                &&& forall|i: int, j: int|
                    0 <= i < j < n ==> (#[trigger] claims@[i]).0.ticket() != (#[trigger] claims@[j]).0.ticket()
                        && claims@[i].1 != claims@[j].1
            },
    {
        let claims = self.delivery_queue.claim_many(n);
        proof {
            lemma_same_rows_keep_wf(old(self)@, self@);
        }
        claims
    }
}

} // verus!
