//! The command handler: publishing a newsletter issue exactly once.
use vstd::prelude::*;

use crate::domain::newsletter_issue::{validation_messages, IssueContent, NewsletterIssue, NewsletterValidationError};
use crate::idempotency::{
    is_valid_key, key_error, Header, IdempotencyKey, KeyError, KeyStatus, Response, ResponseContent,
};
use crate::persistence::{
    lemma_first_from, lemma_first_from_push, lemma_new_issue_keeps_wf, lemma_same_rows_keep_wf,
    random_id, snapshot_of, StartOutcome, Store, StoreError, StoreState, StoredIssue, SubscriberContent,
    SubscriberStatus, TransactionContent,
};

verus! {

/// The two bodies of a submitted issue.
#[derive(Debug)]
pub struct Content {
    pub html: String,
    pub text: String,
}

/// A submitted command: the issue and the key that names the submission.
#[derive(Debug)]
pub struct FormData {
    pub title: String,
    pub content: Content,
    pub idempotency_key: String,
}

/// The content of a submitted command.
pub struct CommandContent {
    pub issue: IssueContent,
    pub key: Seq<char>,
}

impl FormData {
    pub open spec fn view(&self) -> CommandContent {
        CommandContent {
            issue: IssueContent { title: self.title@, text: self.content.text@, html: self.content.html@ },
            key: self.idempotency_key@,
        }
    }
}

/// How a submission ended.
#[derive(Debug)]
pub enum PublishOutcome {
    /// The issue is incomplete. Nothing was stored; the complaints go back
    /// to the form.
    Invalid(NewsletterValidationError),
    /// The key is malformed. Nothing was stored; the client is at fault.
    BadKey(KeyError),
    /// An earlier submission under the same key is still being carried
    /// out. Nothing was stored; the caller waits for it and submits again.
    Busy,
    /// The store refused. Nothing of the command is visible.
    Failed(StoreError),
    /// The command was carried out and answered with this response.
    Accepted(Response),
    /// The command was carried out before: this is the response that it
    /// was answered with then.
    Replayed(Response),
}

/// The response that redirects to `location`.
pub open spec fn see_other_content(location: Seq<char>) -> ResponseContent {
    ResponseContent { status_code: 303, headers: seq![("Location"@, location)], body: Seq::empty() }
}

/// The response to an accepted issue: a redirect to the dashboard.
pub open spec fn accepted_response() -> ResponseContent {
    see_other_content("/admin/dashboard"@)
}

/// The response that redirects to `location`.
pub fn see_other(location: &str) -> (response: Response)
    ensures
        response@ == see_other_content(location@),
{
    let mut headers: Vec<Header> = Vec::new();
    headers.push(Header { name: "Location".to_owned(), value: location.to_owned() });
    let response = Response { status_code: 303, headers, body: String::new() };
    proof {
        assert(response@.headers =~= seq![("Location"@, location@)]);
    }
    response
}

/// Whether a command passes the checks that come before the store is
/// touched.
pub open spec fn is_well_formed(command: CommandContent) -> bool {
    command.issue.is_valid() && is_valid_key(command.key)
}

/// What the transaction of a command has written when it is about to
/// commit: the issue under `issue_id`, stamped with `published_at`, and one
/// delivery task for each recipient who is confirmed in `s`.
pub open spec fn publish_transaction(
    s: StoreState,
    user_id: u128,
    command: CommandContent,
    issue_id: u128,
    published_at: u64,
) -> TransactionContent {
    TransactionContent {
        user_id,
        key: command.key,
        issue: Some(StoredIssue { id: issue_id, content: command.issue, published_at }),
        tasks: s.snapshot(issue_id),
    }
}

/// Whether a submission is the one that carries the command out.
pub open spec fn is_carried_out(
    s: StoreState,
    user_id: u128,
    command: CommandContent,
    issue_id: u128,
    published_at: u64,
) -> bool {
    &&& is_well_formed(command)
    &&& s.idempotency.status(user_id, command.key) is Unseen
    &&& s.try_started(user_id, command.key).can_commit(
        publish_transaction(s, user_id, command, issue_id, published_at),
    )
}

/// The store after `user_id` submitted `command` at the time
/// `published_at`, with `issue_id` as the identifier drawn for the issue.
/// Only a well-formed command under an unseen key touches the store.
pub open spec fn published(
    s: StoreState,
    user_id: u128,
    command: CommandContent,
    issue_id: u128,
    published_at: u64,
) -> StoreState {
    if is_well_formed(command) && s.idempotency.status(user_id, command.key) is Unseen {
        s.try_started(user_id, command.key).committed(
            publish_transaction(s, user_id, command, issue_id, published_at),
            accepted_response(),
        )
    } else {
        s
    }
}

/// Whether `outcome` is how the submission of `command` to the store `s`
/// ends.
pub open spec fn is_outcome(
    s: StoreState,
    user_id: u128,
    command: CommandContent,
    issue_id: u128,
    published_at: u64,
    outcome: PublishOutcome,
) -> bool {
    match outcome {
        PublishOutcome::Invalid(e) => !command.issue.is_valid() && e.messages() == validation_messages(
            command.issue,
        ),
        PublishOutcome::BadKey(e) => {
            &&& command.issue.is_valid()
            &&& !is_valid_key(command.key)
            &&& e == key_error(command.key)
        },
        PublishOutcome::Busy => is_well_formed(command) && s.idempotency.status(user_id, command.key) is Started,
        PublishOutcome::Replayed(response) => is_well_formed(command) && s.idempotency.status(
            user_id,
            command.key,
        ) == KeyStatus::Completed(response@),
        PublishOutcome::Failed(e) => {
            &&& is_well_formed(command)
            &&& s.idempotency.status(user_id, command.key) is Unseen
            &&& !is_carried_out(s, user_id, command, issue_id, published_at)
            &&& e == s.try_started(user_id, command.key).commit_error(
                publish_transaction(s, user_id, command, issue_id, published_at),
            )
        },
        PublishOutcome::Accepted(response) => is_carried_out(s, user_id, command, issue_id, published_at) && response@
            == accepted_response(),
    }
}

/// Carries out the submission of a newsletter issue, with `issue_id` as the
/// identifier of the issue and `published_at` as the time of the submission.
///
/// The form is validated before the store is touched. Under an unseen key
/// the issue, one delivery task per confirmed recipient and the response
/// are stored in one transaction. Under a key that was completed before,
/// nothing is stored and the saved response is given again.
pub fn publish_newsletter_with_id(
    store: &mut Store,
    user_id: u128,
    form: FormData,
    issue_id: u128,
    published_at: u64,
) -> (outcome: PublishOutcome)
    requires
        old(store).wf(),
    ensures
        final(store).wf(),
        final(store)@ == published(old(store)@, user_id, form@, issue_id, published_at),
        is_outcome(old(store)@, user_id, form@, issue_id, published_at, outcome),
{
    let FormData { title, content: Content { html: html_content, text: text_content }, idempotency_key } = form;
    let newsletter_issue = match NewsletterIssue::validate_new(title, text_content, html_content) {
        Ok(newsletter_issue) => newsletter_issue,
        Err(validation_msgs) => {
            return PublishOutcome::Invalid(validation_msgs);
        },
    };
    let idempotency_key = match IdempotencyKey::parse(idempotency_key) {
        Ok(key) => key,
        Err(e) => {
            return PublishOutcome::BadKey(e);
        },
    };
    let mut transaction = match store.try_start(&idempotency_key, user_id) {
        Some(StartOutcome::ProceedWithTransaction(t)) => t,
        Some(StartOutcome::AlreadyCompleted(saved_response)) => {
            return PublishOutcome::Replayed(saved_response);
        },
        None => {
            return PublishOutcome::Busy;
        },
    };
    proof {
        crate::idempotency::lemma_record_transitions(
            old(store)@.idempotency,
            user_id,
            form@.key,
            accepted_response(),
            user_id,
            form@.key,
        );
    }
    match store.insert_newsletter_issue_with_id(&mut transaction, issue_id, &newsletter_issue, published_at) {
        Ok(_) => {},
        Err(e) => {
            store.rollback(transaction);
            return PublishOutcome::Failed(e);
        },
    }
    store.enqueue_newsletter_delivery_tasks(&mut transaction, issue_id);
    proof {
        assert(transaction@.tasks =~= old(store)@.snapshot(issue_id));
    }
    let response = see_other("/admin/dashboard");
    match store.save_completion(transaction, response) {
        Ok(response) => PublishOutcome::Accepted(response),
        Err(e) => PublishOutcome::Failed(e),
    }
}

/// Carries out the submission of a newsletter issue, under a random
/// identifier for the issue, with `published_at` as the time of the
/// submission.
pub fn publish_newsletter(store: &mut Store, user_id: u128, form: FormData, published_at: u64) -> (outcome:
    PublishOutcome)
    requires
        old(store).wf(),
    ensures
        final(store).wf(),
        exists|issue_id: u128|
            {
                &&& final(store)@ == #[trigger] published(old(store)@, user_id, form@, issue_id, published_at)
                &&& is_outcome(old(store)@, user_id, form@, issue_id, published_at, outcome)
            },
{
    let issue_id: u128 = random_id();
    publish_newsletter_with_id(store, user_id, form, issue_id, published_at)
}

/// What carrying a command out does to the store: the issue is stored, the
/// queue grows by the snapshot of confirmed recipients, the key is completed
/// with the response, and every other key stands as before.
pub proof fn lemma_carried_out(
    s: StoreState,
    user_id: u128,
    command: CommandContent,
    issue_id: u128,
    published_at: u64,
)
    requires
        s.wf(),
        is_carried_out(s, user_id, command, issue_id, published_at),
    ensures
        published(s, user_id, command, issue_id, published_at).wf(),
        published(s, user_id, command, issue_id, published_at) == (StoreState {
            issues: s.issues.push(StoredIssue { id: issue_id, content: command.issue, published_at }),
            delivery_queue: s.delivery_queue.enqueued_all(s.snapshot(issue_id)),
            idempotency: s.idempotency.started(user_id, command.key).completed(
                user_id,
                command.key,
                accepted_response(),
            ),
            ..s
        }),
        published(s, user_id, command, issue_id, published_at).idempotency.status(user_id, command.key)
            == KeyStatus::Completed(accepted_response()),
        forall|other_user: u128, other_key: Seq<char>|
            !(other_user == user_id && other_key == command.key) ==> #[trigger] published(
                s,
                user_id,
                command,
                issue_id,
                published_at,
            ).idempotency.status(other_user, other_key) == s.idempotency.status(other_user, other_key),
{
    let held = s.idempotency.started(user_id, command.key);
    crate::idempotency::lemma_record_transitions(
        s.idempotency,
        user_id,
        command.key,
        accepted_response(),
        user_id,
        command.key,
    );
    crate::idempotency::lemma_record_transitions(
        held,
        user_id,
        command.key,
        accepted_response(),
        user_id,
        command.key,
    );
    crate::outbox::lemma_enqueued_all(s.delivery_queue, s.snapshot(issue_id));
    lemma_new_issue_keeps_wf(s, StoredIssue { id: issue_id, content: command.issue, published_at });
    lemma_same_rows_keep_wf(
        StoreState {
            issues: s.issues.push(StoredIssue { id: issue_id, content: command.issue, published_at }),
            ..s
        },
        published(s, user_id, command, issue_id, published_at),
    );
    assert forall|other_user: u128, other_key: Seq<char>|
        !(other_user == user_id && other_key == command.key) implies #[trigger] published(
        s,
        user_id,
        command,
        issue_id,
        published_at,
    ).idempotency.status(other_user, other_key) == s.idempotency.status(other_user, other_key) by {
        crate::idempotency::lemma_record_transitions(
            s.idempotency,
            user_id,
            command.key,
            accepted_response(),
            other_user,
            other_key,
        );
        crate::idempotency::lemma_record_transitions(
            held,
            user_id,
            command.key,
            accepted_response(),
            other_user,
            other_key,
        );
    }
}

/// The response that a submission is answered with, if it is answered with
/// one.
pub open spec fn response_of(outcome: PublishOutcome) -> Option<ResponseContent> {
    match outcome {
        PublishOutcome::Accepted(response) => Some(response@),
        PublishOutcome::Replayed(response) => Some(response@),
        _ => None,
    }
}

/// A command has its effect once. When a user submits a well-formed command
/// under a key and the store does not refuse it, and the user submits again
/// under the same key, the second submission stores nothing: the queue holds
/// the delivery tasks of the first submission and no more, and the second
/// submission is answered as the first was, with the very same response.
pub proof fn law_resubmission_is_replayed(
    s: StoreState,
    user_id: u128,
    first: CommandContent,
    first_id: u128,
    first_at: u64,
    again: CommandContent,
    again_id: u128,
    again_at: u64,
)
    requires
        s.wf(),
        is_well_formed(first),
        is_well_formed(again),
        again.key == first.key,
        s.idempotency.status(user_id, first.key) is Unseen ==> is_carried_out(
            s,
            user_id,
            first,
            first_id,
            first_at,
        ),
    ensures
        ({
            let once = published(s, user_id, first, first_id, first_at);
            let twice = published(once, user_id, again, again_id, again_at);
            &&& twice == once
            &&& twice.delivery_queue.rows.len() == once.delivery_queue.rows.len()
            &&& is_carried_out(s, user_id, first, first_id, first_at) ==> {
                &&& once.delivery_queue.payloads() == s.delivery_queue.payloads() + s.snapshot(first_id)
                &&& twice.delivery_queue.rows.len() == s.delivery_queue.rows.len() + s.snapshot(
                    first_id,
                ).len()
            }
            &&& forall|first_outcome: PublishOutcome, second_outcome: PublishOutcome|
                #![trigger
                    is_outcome(s, user_id, first, first_id, first_at, first_outcome),
                    is_outcome(once, user_id, again, again_id, again_at, second_outcome)]
                is_outcome(s, user_id, first, first_id, first_at, first_outcome) && is_outcome(
                    once,
                    user_id,
                    again,
                    again_id,
                    again_at,
                    second_outcome,
                ) ==> {
                    &&& response_of(second_outcome) == response_of(first_outcome)
                    &&& !(second_outcome is Accepted)
                    &&& first_outcome is Accepted ==> second_outcome is Replayed
                }
        }),
{
    if s.idempotency.status(user_id, first.key) is Unseen {
        lemma_carried_out(s, user_id, first, first_id, first_at);
        crate::outbox::lemma_enqueued_all(s.delivery_queue, s.snapshot(first_id));
    }
}

/// Commands under different keys do not share their effects. When two
/// commands are submitted under different keys, or by different users, and
/// each is carried out, the queue grows by the delivery tasks of the first
/// and then by those of the second.
pub proof fn law_distinct_keys_enqueue_separately(
    s: StoreState,
    user_a: u128,
    a: CommandContent,
    id_a: u128,
    at_a: u64,
    user_b: u128,
    b: CommandContent,
    id_b: u128,
    at_b: u64,
)
    requires
        s.wf(),
        is_carried_out(s, user_a, a, id_a, at_a),
        is_carried_out(s, user_b, b, id_b, at_b),
        !(user_a == user_b && a.key == b.key),
        id_a != id_b,
        s.delivery_queue.has_room((s.snapshot(id_a).len() + s.snapshot(id_b).len()) as int),
    ensures
        ({
            let after_a = published(s, user_a, a, id_a, at_a);
            let after_both = published(after_a, user_b, b, id_b, at_b);
            &&& is_carried_out(after_a, user_b, b, id_b, at_b)
            &&& after_both.delivery_queue.payloads() == s.delivery_queue.payloads() + s.snapshot(id_a)
                + s.snapshot(id_b)
            &&& after_both.idempotency.status(user_a, a.key) == KeyStatus::Completed(accepted_response())
            &&& after_both.idempotency.status(user_b, b.key) == KeyStatus::Completed(accepted_response())
        }),
{
    let after_a = published(s, user_a, a, id_a, at_a);
    lemma_carried_out(s, user_a, a, id_a, at_a);
    crate::outbox::lemma_enqueued_all(s.delivery_queue, s.snapshot(id_a));
    assert(after_a.idempotency.status(user_b, b.key) == s.idempotency.status(user_b, b.key));
    lemma_first_from(s.issues, |r: StoredIssue| r.id == id_b, 0);
    lemma_first_from_push(
        s.issues,
        |r: StoredIssue| r.id == id_b,
        StoredIssue { id: id_a, content: a.issue, published_at: at_a },
        0,
    );
    assert(!after_a.has_issue(id_b));
    assert(after_a.snapshot(id_b) == s.snapshot(id_b));
    lemma_snapshot(s, id_a, s.subscribers.len() as int);
    lemma_snapshot(s, id_b, s.subscribers.len() as int);
    crate::outbox::lemma_accepts_after(s.delivery_queue, s.snapshot(id_a), s.snapshot(id_b));
    crate::idempotency::lemma_record_transitions(
        after_a.idempotency,
        user_b,
        b.key,
        accepted_response(),
        user_b,
        b.key,
    );
    assert(is_carried_out(after_a, user_b, b, id_b, at_b));
    lemma_carried_out(after_a, user_b, b, id_b, at_b);
    crate::outbox::lemma_enqueued_all(after_a.delivery_queue, s.snapshot(id_b));
    let after_both = published(after_a, user_b, b, id_b, at_b);
    assert(after_both.idempotency.status(user_a, a.key) == after_a.idempotency.status(user_a, a.key));
}

/// Two callers that submit the same command under the same key at once have
/// one effect. The store lets one of them start; from then on the key is
/// held. The other caller, whenever it arrives before the first has
/// committed, stores nothing and is told to wait. Once the first has
/// committed, the other stores nothing either and gets the response of the
/// first. The queue holds one set of delivery tasks.
pub proof fn law_concurrent_duplicate_has_one_effect(
    s: StoreState,
    user_id: u128,
    command: CommandContent,
    first_id: u128,
    first_at: u64,
    second_id: u128,
    second_at: u64,
)
    requires
        s.wf(),
        is_carried_out(s, user_id, command, first_id, first_at),
    ensures
        ({
            let held = s.try_started(user_id, command.key);
            let done = held.committed(
                publish_transaction(s, user_id, command, first_id, first_at),
                accepted_response(),
            );
            &&& done == published(s, user_id, command, first_id, first_at)
            &&& published(held, user_id, command, second_id, second_at) == held
            &&& forall|outcome: PublishOutcome| #[trigger]
                is_outcome(held, user_id, command, second_id, second_at, outcome) ==> outcome is Busy
            &&& published(done, user_id, command, second_id, second_at) == done
            &&& forall|outcome: PublishOutcome| #[trigger]
                is_outcome(done, user_id, command, second_id, second_at, outcome) ==> outcome is Replayed
                    && outcome->Replayed_0@ == accepted_response()
            &&& done.delivery_queue.payloads() == s.delivery_queue.payloads() + s.snapshot(first_id)
        }),
{
    lemma_carried_out(s, user_id, command, first_id, first_at);
    crate::outbox::lemma_enqueued_all(s.delivery_queue, s.snapshot(first_id));
    crate::idempotency::lemma_record_transitions(
        s.idempotency,
        user_id,
        command.key,
        accepted_response(),
        user_id,
        command.key,
    );
}

/// The recipients of an issue are those who were confirmed when it was
/// submitted, one task for each. A recipient who confirms afterwards gets no
/// task for it: the queue after the confirmation is the queue after the
/// submission.
pub proof fn law_snapshot_is_taken_at_submission(
    s: StoreState,
    user_id: u128,
    command: CommandContent,
    issue_id: u128,
    published_at: u64,
    late: u128,
)
    requires
        s.wf(),
        is_carried_out(s, user_id, command, issue_id, published_at),
    ensures
        published(s, user_id, command, issue_id, published_at).with_confirmed(late).delivery_queue == published(
            s,
            user_id,
            command,
            issue_id,
            published_at,
        ).delivery_queue,
        published(s, user_id, command, issue_id, published_at).delivery_queue.payloads()
            == s.delivery_queue.payloads() + s.snapshot(issue_id),
        forall|i: int|
            0 <= i < s.snapshot(issue_id).len() ==> {
                let task = #[trigger] s.snapshot(issue_id)[i];
                &&& task.issue_id == issue_id
                &&& exists|k: int|
                    0 <= k < s.subscribers.len() && s.subscribers[k].id == task.subscriber_id
                        && s.subscribers[k].status == SubscriberStatus::Confirmed
            },
        forall|i: int, j: int|
            0 <= i < j < s.snapshot(issue_id).len() ==> (#[trigger] s.snapshot(issue_id)[i]) != (
            #[trigger] s.snapshot(issue_id)[j]),
{
    lemma_carried_out(s, user_id, command, issue_id, published_at);
    crate::outbox::lemma_enqueued_all(s.delivery_queue, s.snapshot(issue_id));
    lemma_snapshot(s, issue_id, s.subscribers.len() as int);
}

/// Each task of a snapshot belongs to the issue and to a recipient who is
/// stored and confirmed, and no recipient has two tasks in it.
proof fn lemma_snapshot(s: StoreState, issue_id: u128, n: int)
    requires
        s.wf(),
        0 <= n <= s.subscribers.len(),
    ensures
        forall|i: int|
            0 <= i < snapshot_of(s.subscribers, issue_id, n).len() ==> {
                let task = #[trigger] snapshot_of(s.subscribers, issue_id, n)[i];
                &&& task.issue_id == issue_id
                &&& s.subscriber(task.subscriber_id) is Some
                &&& exists|k: int|
                    0 <= k < n && s.subscribers[k].id == task.subscriber_id && s.subscribers[k].status
                        == SubscriberStatus::Confirmed
            },
        forall|i: int, j: int|
            0 <= i < j < snapshot_of(s.subscribers, issue_id, n).len() ==> (#[trigger] snapshot_of(
                s.subscribers,
                issue_id,
                n,
            )[i]).subscriber_id != (#[trigger] snapshot_of(s.subscribers, issue_id, n)[j]).subscriber_id,
    decreases n,
{
    if n > 0 {
        lemma_snapshot(s, issue_id, n - 1);
        let before = snapshot_of(s.subscribers, issue_id, n - 1);
        let now = snapshot_of(s.subscribers, issue_id, n);
        assert forall|i: int| 0 <= i < now.len() implies {
            let task = #[trigger] now[i];
            &&& task.issue_id == issue_id
            &&& s.subscriber(task.subscriber_id) is Some
            &&& exists|k: int|
                0 <= k < n && s.subscribers[k].id == task.subscriber_id && s.subscribers[k].status
                    == SubscriberStatus::Confirmed
        } by {
            if i < before.len() {
                assert(now[i] == before[i]);
                let task = before[i];
                let k = choose|k: int|
                    0 <= k < n - 1 && s.subscribers[k].id == task.subscriber_id && s.subscribers[k].status
                        == SubscriberStatus::Confirmed;
                assert(0 <= k < n && s.subscribers[k].id == task.subscriber_id);
            } else {
                let id = s.subscribers[n - 1].id;
                lemma_first_from(s.subscribers, |r: SubscriberContent| r.id == id, 0);
                assert(0 <= n - 1 < n && s.subscribers[n - 1].id == now[i].subscriber_id);
            }
        }
        assert forall|i: int, j: int| 0 <= i < j < now.len() implies (#[trigger] now[i]).subscriber_id != (
        #[trigger] now[j]).subscriber_id by {
            assert(now[i] == before[i]);
            if j < before.len() {
                assert(now[j] == before[j]);
            } else {
                let task = before[i];
                let k = choose|k: int|
                    0 <= k < n - 1 && s.subscribers[k].id == task.subscriber_id && s.subscribers[k].status
                        == SubscriberStatus::Confirmed;
                assert(s.subscribers[k].id != s.subscribers[n - 1].id);
            }
        }
    }
}

} // verus!
