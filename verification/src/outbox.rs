//! A durable work queue consumed by competing workers.
//!
//! The queue is modelled as the rows of one table together with the row locks
//! that open transactions hold. A worker checks a task out by locking its row;
//! it never writes a "claimed by" field. Finishing the task deletes the row,
//! and a worker that disappears merely loses its lock, which puts the task
//! back among the claimable ones.
use vstd::prelude::*;

use crate::email_client::Disposition;

verus! {

/// What a queue needs of its tasks: that two of them can be told apart. A
/// queue holds no task twice.
pub trait Task: Copy {
    /// Whether two tasks are the same.
    fn same(&self, other: &Self) -> (b: bool)
        ensures
            b == (*self == *other),
    ;
}

impl Task for u64 {
    fn same(&self, other: &Self) -> (b: bool) {
        *self == *other
    }
}

/// Why a queue refused a task.
#[derive(Clone, Copy, Debug, PartialEq, Eq, Structural)]
pub enum EnqueueError {
    /// The task is in the queue already.
    Duplicate,
    /// The queue has run out of tickets.
    Exhausted,
}

/// One pending unit of work.
#[derive(Debug)]
pub struct Row<T> {
    /// The row's identity; never reused within one queue.
    pub ticket: u64,
    /// What has to be done.
    pub payload: T,
    /// Whether an open transaction holds the row.
    pub locked: bool,
}

/// The mathematical content of a queue: its rows in insertion order and the
/// ticket that the next row will get.
pub struct QueueState<T> {
    pub rows: Seq<Row<T>>,
    pub next_ticket: u64,
}

/// The position of the first unlocked row at or after `from`, or the number of
/// rows when every row from there on is locked.
pub open spec fn first_free_from<T>(rows: Seq<Row<T>>, from: int) -> int
    decreases rows.len() - from,
{
    if from < 0 || from >= rows.len() {
        rows.len() as int
    } else if !rows[from].locked {
        from
    } else {
        first_free_from(rows, from + 1)
    }
}

/// The position of the row that carries `ticket` at or after `from`, or the
/// number of rows when there is none.
pub open spec fn position_from<T>(rows: Seq<Row<T>>, ticket: u64, from: int) -> int
    decreases rows.len() - from,
{
    if from < 0 || from >= rows.len() {
        rows.len() as int
    } else if rows[from].ticket == ticket {
        from
    } else {
        position_from(rows, ticket, from + 1)
    }
}

impl<T> QueueState<T> {
    /// Tickets grow along the rows and stay below the next ticket, so no two
    /// rows share one; and no two rows hold the same task.
    pub open spec fn wf(self) -> bool {
        &&& forall|i: int| 0 <= i < self.rows.len() ==> (#[trigger] self.rows[i]).ticket < self.next_ticket
        &&& forall|i: int, j: int|
            0 <= i < j < self.rows.len() ==> (#[trigger] self.rows[i]).ticket < (#[trigger] self.rows[j]).ticket
        &&& forall|i: int, j: int|
            0 <= i < j < self.rows.len() ==> (#[trigger] self.rows[i]).payload != (
            #[trigger] self.rows[j]).payload
    }

    /// Whether the task is in the queue, held or not.
    pub open spec fn contains(self, payload: T) -> bool {
        exists|k: int| 0 <= k < self.rows.len() && (#[trigger] self.rows[k]).payload == payload
    }

    /// Whether the queue takes the task: it has a ticket left and does not
    /// hold the task already.
    pub open spec fn accepts(self, payload: T) -> bool {
        self.has_room(1) && !self.contains(payload)
    }

    /// Why the queue refuses the task, when it does.
    pub open spec fn enqueue_error(self, payload: T) -> EnqueueError {
        if self.contains(payload) {
            EnqueueError::Duplicate
        } else {
            EnqueueError::Exhausted
        }
    }

    /// Whether the queue takes all the tasks: it has tickets for them, holds
    /// none of them already, and none of them comes twice.
    pub open spec fn accepts_all(self, payloads: Seq<T>) -> bool {
        &&& self.has_room(payloads.len() as int)
        &&& forall|i: int| 0 <= i < payloads.len() ==> !self.contains(#[trigger] payloads[i])
        &&& forall|i: int, j: int| 0 <= i < j < payloads.len() ==> #[trigger] payloads[i] != #[trigger] payloads[j]
    }

    /// Why the queue refuses the tasks, when it does.
    pub open spec fn enqueue_all_error(self, payloads: Seq<T>) -> EnqueueError {
        if !self.has_room(payloads.len() as int) {
            EnqueueError::Exhausted
        } else {
            EnqueueError::Duplicate
        }
    }

    /// The queue after the attempt to insert a task: a task that the queue
    /// does not take changes nothing.
    pub open spec fn tried_enqueue(self, payload: T) -> Self {
        if self.accepts(payload) {
            self.enqueued(payload)
        } else {
            self
        }
    }

    /// The queue after the attempt to insert the tasks: they are inserted
    /// all together or not at all.
    pub open spec fn tried_enqueue_all(self, payloads: Seq<T>) -> Self {
        if self.accepts_all(payloads) {
            self.enqueued_all(payloads)
        } else {
            self
        }
    }

    /// The queue can take `n` more rows before its tickets run out.
    pub open spec fn has_room(self, n: int) -> bool {
        self.next_ticket + n <= u64::MAX
    }

    /// The queue without rows.
    pub open spec fn empty() -> Self {
        QueueState { rows: Seq::empty(), next_ticket: 0 }
    }

    /// The queue after one more task was inserted.
    pub open spec fn enqueued(self, payload: T) -> Self {
        QueueState {
            rows: self.rows.push(Row { ticket: self.next_ticket, payload, locked: false }),
            next_ticket: (self.next_ticket + 1) as u64,
        }
    }

    /// The queue after the tasks of `payloads` were inserted, in order.
    pub open spec fn enqueued_all(self, payloads: Seq<T>) -> Self
        decreases payloads.len(),
    {
        if payloads.len() == 0 {
            self
        } else {
            self.enqueued_all(payloads.drop_last()).enqueued(payloads.last())
        }
    }

    /// The position of the first claimable row, or the number of rows.
    pub open spec fn first_free(self) -> int {
        first_free_from(self.rows, 0)
    }

    /// Whether some row is claimable.
    pub open spec fn has_free(self) -> bool {
        self.first_free() < self.rows.len()
    }

    /// The row that the next claim hands out, as it stands before the claim.
    pub open spec fn next_claim(self) -> Option<Row<T>> {
        if self.has_free() {
            Some(self.rows[self.first_free()])
        } else {
            None
        }
    }

    /// The queue after the next claim: the first claimable row is locked; a
    /// queue without one is unchanged.
    pub open spec fn claimed(self) -> Self {
        if self.has_free() {
            let k = self.first_free();
            QueueState {
                rows: self.rows.update(k, Row { locked: true, ..self.rows[k] }),
                next_ticket: self.next_ticket,
            }
        } else {
            self
        }
    }

    /// The position of the row with `ticket`, or the number of rows.
    pub open spec fn position(self, ticket: u64) -> int {
        position_from(self.rows, ticket, 0)
    }

    /// Whether the row with `ticket` exists and is locked.
    pub open spec fn holds(self, ticket: u64) -> bool {
        let k = self.position(ticket);
        k < self.rows.len() && self.rows[k].locked
    }

    /// The queue after the holder of `ticket` finished the task: the row is
    /// gone. A ticket that is not held changes nothing.
    pub open spec fn acked(self, ticket: u64) -> Self {
        if self.holds(ticket) {
            QueueState { rows: self.rows.remove(self.position(ticket)), next_ticket: self.next_ticket }
        } else {
            self
        }
    }

    /// The queue after the holder of `ticket` gave the task up or vanished:
    /// the row is unlocked. A ticket that is not held changes nothing.
    pub open spec fn released(self, ticket: u64) -> Self {
        if self.holds(ticket) {
            let k = self.position(ticket);
            QueueState {
                rows: self.rows.update(k, Row { locked: false, ..self.rows[k] }),
                next_ticket: self.next_ticket,
            }
        } else {
            self
        }
    }

    /// The queue after the attempt on the task held under `ticket` was
    /// settled: the row is gone when the attempt was final, and unlocked
    /// when the task is to be tried again.
    pub open spec fn settled(self, ticket: u64, disposition: Disposition) -> Self {
        match disposition {
            Disposition::Ack => self.acked(ticket),
            Disposition::Requeue => self.released(ticket),
        }
    }

    /// Whether no row is locked.
    pub open spec fn all_free(self) -> bool {
        forall|i: int| 0 <= i < self.rows.len() ==> !(#[trigger] self.rows[i]).locked
    }

    /// The queue after `n` claims in a row, none of them finished or given
    /// back in between.
    pub open spec fn after_claims(self, n: nat) -> Self
        decreases n,
    {
        if n == 0 {
            self
        } else {
            self.after_claims((n - 1) as nat).claimed()
        }
    }

    /// The row that the claim after `n` earlier ones hands out.
    pub open spec fn nth_claim(self, n: nat) -> Option<Row<T>> {
        self.after_claims(n).next_claim()
    }

    /// The payloads of all rows, locked or not, in insertion order.
    pub open spec fn payloads(self) -> Seq<T> {
        Seq::new(self.rows.len(), |i: int| self.rows[i].payload)
    }
}

/// Whether `claims` are what successive claims on the queue `before` hand
/// out, one after the other, and `after` holds each of them.
pub open spec fn are_successive_claims<T>(
    before: QueueState<T>,
    after: QueueState<T>,
    claims: Seq<(Claim, T)>,
) -> bool {
    forall|i: int| 0 <= i < claims.len() ==> #[trigger] is_claim_number(before, after, claims[i], i)
}

/// Whether `claim` is what the claim after `i` earlier ones on the queue
/// `before` hands out, and `after` holds it.
pub open spec fn is_claim_number<T>(before: QueueState<T>, after: QueueState<T>, claim: (Claim, T), i: int) -> bool {
    &&& before.nth_claim(i as nat) is Some
    &&& claim.0.ticket() == before.nth_claim(i as nat).unwrap().ticket
    &&& claim.1 == before.nth_claim(i as nat).unwrap().payload
    &&& after.holds(claim.0.ticket())
}

/// The handle of a checked-out task. It stands for the open transaction that
/// holds the row's lock.
#[derive(Debug)]
pub struct Claim {
    ticket: u64,
}

impl Claim {
    /// The ticket of the row that this claim holds.
    pub closed spec fn spec_ticket(&self) -> u64 {
        self.ticket
    }

    /// The ticket of the row that this claim holds.
    #[verifier::when_used_as_spec(spec_ticket)]
    pub fn ticket(&self) -> (t: u64)
        ensures
            t == self.spec_ticket(),
    {
        self.ticket
    }
}

/// A queue of tasks with payload `T`.
pub struct Outbox<T> {
    rows: Vec<Row<T>>,
    next_ticket: u64,
}

impl<T: Task> Outbox<T> {
    pub closed spec fn view(&self) -> QueueState<T> {
        QueueState { rows: self.rows@, next_ticket: self.next_ticket }
    }

    /// The representation invariant.
    pub open spec fn wf(&self) -> bool {
        self@.wf()
    }

    /// A queue without rows.
    pub fn new() -> (q: Self)
        ensures
            q@ == QueueState::<T>::empty(),
            q.wf(),
    {
        Outbox { rows: Vec::new(), next_ticket: 0 }
    }

    /// The number of rows, locked ones included.
    pub fn len(&self) -> (n: usize)
        ensures
            n == self@.rows.len(),
    {
        self.rows.len()
    }

    /// Whether `n` more rows can be inserted.
    pub fn has_room(&self, n: usize) -> (b: bool)
        ensures
            b == self@.has_room(n as int),
    {
        (n as u64) <= u64::MAX - self.next_ticket
    }

    fn holds_task(&self, payload: &T) -> (b: bool)
        ensures
            b == self@.contains(*payload),
    {
        let mut i: usize = 0;
        while i < self.rows.len()
            invariant
                0 <= i <= self.rows@.len(),
                forall|k: int| 0 <= k < i ==> (#[trigger] self.rows@[k]).payload != *payload,
            decreases self.rows@.len() - i,
        {
            if self.rows[i].payload.same(payload) {
                proof {
                    assert(self@.rows[i as int].payload == *payload);
                }
                return true;
            }
            i += 1;
        }
        false
    }

    fn push_row(&mut self, payload: T)
        requires
            old(self).wf(),
            old(self)@.accepts(payload),
        ensures
            final(self)@ == old(self)@.enqueued(payload),
            final(self).wf(),
    {
        let ticket: u64 = self.next_ticket;
        self.next_ticket = ticket + 1;
        self.rows.push(Row { ticket, payload, locked: false });
        proof {
            let before = old(self)@.rows;
            let after = self@.rows;
            assert forall|i: int, j: int| 0 <= i < j < after.len() implies (#[trigger] after[i]).payload != (
            #[trigger] after[j]).payload by {
                assert(after[i] == before[i]);
                if j < before.len() {
                    assert(after[j] == before[j]);
                }
            }
            assert forall|i: int, j: int| 0 <= i < j < after.len() implies (#[trigger] after[i]).ticket < (
            #[trigger] after[j]).ticket by {
                assert(after[i] == before[i]);
                if j < before.len() {
                    assert(after[j] == before[j]);
                }
            }
        }
    }

    /// Inserts one task. A task that is in the queue already is refused,
    /// and so is any task once the tickets have run out.
    pub fn enqueue(&mut self, payload: T) -> (r: Result<(), EnqueueError>)
        requires
            old(self).wf(),
        ensures
            final(self).wf(),
            final(self)@ == old(self)@.tried_enqueue(payload),
            r == if old(self)@.accepts(payload) {
                Ok::<(), EnqueueError>(())
            } else {
                Err::<(), EnqueueError>(old(self)@.enqueue_error(payload))
            },
    {
        if self.holds_task(&payload) {
            return Err(EnqueueError::Duplicate);
        }
        if !self.has_room(1) {
            return Err(EnqueueError::Exhausted);
        }
        self.push_row(payload);
        Ok(())
    }

    /// Whether the queue takes the task.
    pub fn check(&self, payload: &T) -> (r: Result<(), EnqueueError>)
        ensures
            r == if self@.accepts(*payload) {
                Ok::<(), EnqueueError>(())
            } else {
                Err::<(), EnqueueError>(self@.enqueue_error(*payload))
            },
    {
        if self.holds_task(payload) {
            Err(EnqueueError::Duplicate)
        } else if !self.has_room(1) {
            Err(EnqueueError::Exhausted)
        } else {
            Ok(())
        }
    }

    /// Whether the queue takes all the tasks of `payloads`.
    pub fn check_all(&self, payloads: &Vec<T>) -> (r: Result<(), EnqueueError>)
        ensures
            r == if self@.accepts_all(payloads@) {
                Ok::<(), EnqueueError>(())
            } else {
                Err::<(), EnqueueError>(self@.enqueue_all_error(payloads@))
            },
    {
        if !self.has_room(payloads.len()) {
            return Err(EnqueueError::Exhausted);
        }
        let mut i: usize = 0;
        while i < payloads.len()
            invariant
                0 <= i <= payloads@.len(),
                self@.has_room(payloads@.len() as int),
                forall|k: int| 0 <= k < i ==> !self@.contains(#[trigger] payloads@[k]),
                forall|k: int, l: int| 0 <= k < l < i ==> #[trigger] payloads@[k] != #[trigger] payloads@[l],
            decreases payloads@.len() - i,
        {
            if self.holds_task(&payloads[i]) {
                proof {
                    assert(self@.contains(payloads@[i as int]));
                }
                return Err(EnqueueError::Duplicate);
            }
            let mut j: usize = 0;
            while j < i
                invariant
                    0 <= j <= i < payloads@.len(),
                    self@.has_room(payloads@.len() as int),
                    forall|k: int| 0 <= k < j ==> #[trigger] payloads@[k] != payloads@[i as int],
                decreases i - j,
            {
                if payloads[j].same(&payloads[i]) {
                    proof {
                        assert(payloads@[j as int] == payloads@[i as int]);
                    }
                    return Err(EnqueueError::Duplicate);
                }
                j += 1;
            }
            i += 1;
        }
        Ok(())
    }

    /// Inserts the tasks of `payloads`, in order, all together or not at
    /// all.
    pub fn enqueue_all(&mut self, payloads: &Vec<T>) -> (r: Result<(), EnqueueError>)
        requires
            old(self).wf(),
        ensures
            final(self).wf(),
            final(self)@ == old(self)@.tried_enqueue_all(payloads@),
            r == if old(self)@.accepts_all(payloads@) {
                Ok::<(), EnqueueError>(())
            } else {
                Err::<(), EnqueueError>(old(self)@.enqueue_all_error(payloads@))
            },
    {
        match self.check_all(payloads) {
            Ok(_) => {},
            Err(e) => {
                return Err(e);
            },
        }
        let mut i: usize = 0;
        while i < payloads.len()
            invariant
                0 <= i <= payloads@.len(),
                self.wf(),
                old(self).wf(),
                old(self)@.accepts_all(payloads@),
                self@ == old(self)@.enqueued_all(payloads@.take(i as int)),
            decreases payloads@.len() - i,
        {
            proof {
                assert(payloads@.take(i + 1).drop_last() =~= payloads@.take(i as int));
                lemma_accepts_prefix(old(self)@, payloads@, i as int);
                lemma_enqueued_all(old(self)@, payloads@.take(i as int));
                assert(!payloads@.take(i as int).contains(payloads@[i as int])) by {
                    if payloads@.take(i as int).contains(payloads@[i as int]) {
                        let k = choose|k: int|
                            0 <= k < i && payloads@.take(i as int)[k] == payloads@[i as int];
                        assert(payloads@[k] != payloads@[i as int]);
                    }
                }
            }
            self.push_row(payloads[i]);
            i += 1;
        }
        proof {
            assert(payloads@.take(i as int) =~= payloads@);
        }
        Ok(())
    }

    /// Checks out the first task that no one holds, locking its row and
    /// skipping the locked ones. Returns `None` exactly when every row is
    /// locked or there is none.
    pub fn claim_next(&mut self) -> (r: Option<(Claim, T)>)
        requires
            old(self).wf(),
        ensures
            final(self).wf(),
            final(self)@ == old(self)@.claimed(),
            match r {
                Some((claim, payload)) => {
                    &&& old(self)@.next_claim().is_some()
                    &&& claim.ticket() == old(self)@.next_claim().unwrap().ticket
                    &&& payload == old(self)@.next_claim().unwrap().payload
                    &&& final(self)@.holds(claim.ticket())
                },
                None => old(self)@.next_claim().is_none(),
            },
    {
        let mut i: usize = 0;
        while i < self.rows.len()
            invariant
                0 <= i <= self.rows@.len(),
                *self == *old(self),
                self.wf(),
                first_free_from(self.rows@, 0) == first_free_from(self.rows@, i as int),
            decreases self.rows@.len() - i,
        {
            if !self.rows[i].locked {
                let ticket: u64 = self.rows[i].ticket;
                let payload = self.rows[i].payload;
                self.rows[i] = Row { ticket, payload, locked: true };
                proof {
                    lemma_position_of_index(self@, i as int);
                }
                return Some((Claim { ticket }, payload));
            }
            i += 1;
        }
        None
    }

    /// Checks out up to `n` tasks, one claim after the other, and keeps all
    /// of them held. The claims stop early only when no task is left to
    /// claim. Against a queue of `n` tasks that no one holds, every task is
    /// handed out exactly once: the result holds the queue's rows in order,
    /// and no two claims share a ticket or a task.
    pub fn claim_many(&mut self, n: usize) -> (claims: Vec<(Claim, T)>)
        requires
            old(self).wf(),
        ensures
            final(self).wf(),
            claims@.len() <= n,
            final(self)@ == old(self)@.after_claims(claims@.len()),
            claims@.len() < n ==> !final(self)@.has_free(),
            are_successive_claims(old(self)@, final(self)@, claims@),
            old(self)@.all_free() && n == old(self)@.rows.len() ==> {
                &&& claims@.len() == n
                &&& forall|i: int|
                    0 <= i < n ==> (#[trigger] claims@[i]).0.ticket() == old(self)@.rows[i].ticket
                        && claims@[i].1 == old(self)@.rows[i].payload
                &&& forall|i: int, j: int|
                    0 <= i < j < n ==> (#[trigger] claims@[i]).0.ticket() != (#[trigger] claims@[j]).0.ticket()
                        && claims@[i].1 != claims@[j].1
            },
    {
        let mut claims: Vec<(Claim, T)> = Vec::new();
        let mut open = true;
        while open && claims.len() < n
            invariant
                self.wf(),
                old(self).wf(),
                claims@.len() <= n,
                self@ == old(self)@.after_claims(claims@.len()),
                !open ==> !self@.has_free(),
                are_successive_claims(old(self)@, self@, claims@),
            decreases (n - claims@.len()) + (if open { 1int } else { 0int }),
        {
            let ghost before = self@;
            let ghost taken = claims@;
            match self.claim_next() {
                Some((claim, payload)) => {
                    proof {
                        assert forall|i: int| 0 <= i < taken.len() implies self@.holds(
                            (#[trigger] taken[i]).0.ticket(),
                        ) by {
                            assert(is_claim_number(old(self)@, before, taken[i], i));
                            lemma_claim_keeps_holds(before, taken[i].0.ticket());
                        }
                    }
                    let ghost ticket = claim.ticket();
                    claims.push((claim, payload));
                    proof {
                        assert(old(self)@.nth_claim(taken.len()) == before.next_claim());
                        assert forall|i: int| 0 <= i < claims@.len() implies #[trigger] is_claim_number(
                            old(self)@,
                            self@,
                            claims@[i],
                            i,
                        ) by {
                            if i < taken.len() {
                                assert(claims@[i] == taken[i]);
                                assert(is_claim_number(old(self)@, before, taken[i], i));
                            } else {
                                assert(claims@[i].0.ticket() == ticket);
                                assert(i as nat == taken.len());
                            }
                        }
                    }
                },
                None => {
                    open = false;
                    proof {
                        assert(self@ == before);
                    }
                },
            }
        }
        proof {
            if old(self)@.all_free() && n == old(self)@.rows.len() {
                law_claims_are_exclusive(old(self)@);
                if claims@.len() < n {
                    let k = claims@.len() as int;
                    assert(old(self)@.nth_claim(k as nat) == Some(old(self)@.rows[k]));
                }
                assert forall|i: int| 0 <= i < n implies (#[trigger] claims@[i]).0.ticket() == old(
                    self,
                )@.rows[i].ticket && claims@[i].1 == old(self)@.rows[i].payload by {
                    assert(is_claim_number(old(self)@, self@, claims@[i], i));
                    assert(old(self)@.nth_claim(i as nat) == Some(old(self)@.rows[i]));
                }
                assert forall|i: int, j: int| 0 <= i < j < n implies (#[trigger] claims@[i]).0.ticket() != (
                #[trigger] claims@[j]).0.ticket() && claims@[i].1 != claims@[j].1 by {
                    assert(old(self)@.nth_claim(i as nat) == Some(old(self)@.rows[i]));
                    assert(old(self)@.nth_claim(j as nat) == Some(old(self)@.rows[j]));
                    assert(old(self)@.rows[i].ticket < old(self)@.rows[j].ticket);
                    assert(old(self)@.rows[i].payload != old(self)@.rows[j].payload);
                }
            }
        }
        claims
    }

    /// Settles a checked-out task after the attempt on it: deletes its row
    /// when the attempt was final, and gives it back otherwise. Returns
    /// whether the claim held a row.
    pub fn settle(&mut self, claim: Claim, disposition: Disposition) -> (done: bool)
        requires
            old(self).wf(),
        ensures
            final(self).wf(),
            done == old(self)@.holds(claim.ticket()),
            final(self)@ == old(self)@.settled(claim.ticket(), disposition),
    {
        match disposition {
            Disposition::Ack => self.ack(claim),
            Disposition::Requeue => self.release(claim),
        }
    }

    /// Finishes a checked-out task: deletes its row. Returns whether the claim
    /// held a row; a claim that holds none changes nothing.
    pub fn ack(&mut self, claim: Claim) -> (done: bool)
        requires
            old(self).wf(),
        ensures
            final(self).wf(),
            done == old(self)@.holds(claim.ticket()),
            final(self)@ == old(self)@.acked(claim.ticket()),
    {
        let mut i: usize = 0;
        while i < self.rows.len()
            invariant
                0 <= i <= self.rows@.len(),
                *self == *old(self),
                self.wf(),
                position_from(self.rows@, claim.ticket, 0) == position_from(self.rows@, claim.ticket, i as int),
            decreases self.rows@.len() - i,
        {
            if self.rows[i].ticket == claim.ticket {
                if self.rows[i].locked {
                    self.rows.remove(i);
                    proof {
                        lemma_transitions_keep_wf(old(self)@, claim.ticket);
                    }
                    return true;
                }
                return false;
            }
            i += 1;
        }
        false
    }

    /// Gives a checked-out task back: unlocks its row, so that the next claim
    /// may take it. This is also what the store does by itself when the
    /// holder's transaction ends without an `ack`. Returns whether the claim
    /// held a row.
    pub fn release(&mut self, claim: Claim) -> (done: bool)
        requires
            old(self).wf(),
        ensures
            final(self).wf(),
            done == old(self)@.holds(claim.ticket()),
            final(self)@ == old(self)@.released(claim.ticket()),
    {
        let mut i: usize = 0;
        while i < self.rows.len()
            invariant
                0 <= i <= self.rows@.len(),
                *self == *old(self),
                self.wf(),
                position_from(self.rows@, claim.ticket, 0) == position_from(self.rows@, claim.ticket, i as int),
            decreases self.rows@.len() - i,
        {
            if self.rows[i].ticket == claim.ticket {
                if self.rows[i].locked {
                    let ticket: u64 = self.rows[i].ticket;
                    let payload = self.rows[i].payload;
                    self.rows[i] = Row { ticket, payload, locked: false };
                    proof {
                        lemma_transitions_keep_wf(old(self)@, claim.ticket);
                    }
                    return true;
                }
                return false;
            }
            i += 1;
        }
        false
    }
}

/// What the first claimable position is: it lies in the queue or at its end,
/// the row there is unlocked, and every row passed over is locked.
pub proof fn lemma_first_free<T>(rows: Seq<Row<T>>, from: int)
    requires
        0 <= from <= rows.len(),
    ensures
        from <= first_free_from(rows, from) <= rows.len(),
        first_free_from(rows, from) < rows.len() ==> !rows[first_free_from(rows, from)].locked,
        forall|i: int| from <= i < first_free_from(rows, from) ==> (#[trigger] rows[i]).locked,
    decreases rows.len() - from,
{
    if from < rows.len() && rows[from].locked {
        lemma_first_free(rows, from + 1);
    }
}

/// What the position of a ticket is: it lies in the queue or at its end, the
/// row there carries the ticket, and no row passed over does.
pub proof fn lemma_position<T>(rows: Seq<Row<T>>, ticket: u64, from: int)
    requires
        0 <= from <= rows.len(),
    ensures
        from <= position_from(rows, ticket, from) <= rows.len(),
        position_from(rows, ticket, from) < rows.len() ==> rows[position_from(rows, ticket, from)].ticket
            == ticket,
        forall|i: int| from <= i < position_from(rows, ticket, from) ==> (#[trigger] rows[i]).ticket != ticket,
    decreases rows.len() - from,
{
    if from < rows.len() && rows[from].ticket != ticket {
        lemma_position(rows, ticket, from + 1);
    }
}

/// A queue that takes all of some tasks takes all of the first `n` of them.
pub proof fn lemma_accepts_prefix<T>(q: QueueState<T>, payloads: Seq<T>, n: int)
    requires
        q.accepts_all(payloads),
        0 <= n <= payloads.len(),
    ensures
        q.accepts_all(payloads.take(n)),
{
    let p = payloads.take(n);
    assert forall|i: int| 0 <= i < p.len() implies !q.contains(#[trigger] p[i]) by {
        assert(p[i] == payloads[i]);
    }
    assert forall|i: int, j: int| 0 <= i < j < p.len() implies #[trigger] p[i] != #[trigger] p[j] by {
        assert(p[i] == payloads[i]);
        assert(p[j] == payloads[j]);
    }
}

/// A queue that takes each of two runs of tasks, has tickets for both, and
/// finds no task of the one in the other, takes the second after the first
/// was inserted.
pub proof fn lemma_accepts_after<T>(q: QueueState<T>, first: Seq<T>, second: Seq<T>)
    requires
        q.wf(),
        q.accepts_all(first),
        q.accepts_all(second),
        q.has_room((first.len() + second.len()) as int),
        forall|i: int, j: int|
            0 <= i < first.len() && 0 <= j < second.len() ==> #[trigger] first[i] != #[trigger] second[j],
    ensures
        q.enqueued_all(first).accepts_all(second),
{
    let r = q.enqueued_all(first);
    lemma_enqueued_all(q, first);
    assert forall|j: int| 0 <= j < second.len() implies !r.contains(#[trigger] second[j]) by {
        assert(r.contains(second[j]) <==> q.contains(second[j]) || first.contains(second[j]));
        if first.contains(second[j]) {
            let i = choose|i: int| 0 <= i < first.len() && first[i] == second[j];
            assert(first[i] != second[j]);
        }
    }
}

/// Inserting tasks that the queue takes keeps it well formed: the old rows
/// stay as they are, and the new ones follow them, unlocked, in the order of
/// `payloads`. The queue then holds what it held and what was inserted.
pub proof fn lemma_enqueued_all<T>(q: QueueState<T>, payloads: Seq<T>)
    requires
        q.wf(),
        q.accepts_all(payloads),
    ensures
        q.enqueued_all(payloads).wf(),
        q.enqueued_all(payloads).next_ticket == q.next_ticket + payloads.len(),
        q.enqueued_all(payloads).rows.len() == q.rows.len() + payloads.len(),
        q.enqueued_all(payloads).rows.take(q.rows.len() as int) == q.rows,
        q.enqueued_all(payloads).payloads() == q.payloads() + payloads,
        forall|i: int|
            q.rows.len() <= i < q.rows.len() + payloads.len() ==> !(#[trigger] q.enqueued_all(
                payloads,
            ).rows[i]).locked,
        forall|p: T| #[trigger]
            q.enqueued_all(payloads).contains(p) <==> q.contains(p) || payloads.contains(p),
    decreases payloads.len(),
{
    let r = q.enqueued_all(payloads);
    if payloads.len() == 0 {
        assert(r.rows.take(q.rows.len() as int) =~= q.rows);
        assert(r.payloads() =~= q.payloads() + payloads);
    } else {
        let earlier = payloads.drop_last();
        let last = payloads.last();
        let before = q.enqueued_all(earlier);
        assert(earlier =~= payloads.take(payloads.len() - 1));
        lemma_accepts_prefix(q, payloads, payloads.len() - 1);
        lemma_enqueued_all(q, earlier);
        assert(r.rows.take(q.rows.len() as int) =~= before.rows.take(q.rows.len() as int));
        assert(r.payloads() =~= before.payloads().push(last));
        assert(q.payloads() + payloads =~= (q.payloads() + earlier).push(last));
        assert(r.rows[before.rows.len() as int].payload == last);
        assert forall|i: int| q.rows.len() <= i < q.rows.len() + payloads.len() implies !(
        #[trigger] r.rows[i]).locked by {
            if i < before.rows.len() {
                assert(r.rows[i] == before.rows[i]);
            }
        }
        assert forall|i: int, j: int| 0 <= i < j < r.rows.len() implies (#[trigger] r.rows[i]).ticket < (
        #[trigger] r.rows[j]).ticket by {
            assert(r.rows[i] == before.rows[i]);
            if j < before.rows.len() {
                assert(r.rows[j] == before.rows[j]);
            }
        }
        assert forall|i: int| 0 <= i < r.rows.len() implies (#[trigger] r.rows[i]).ticket < r.next_ticket by {
            if i < before.rows.len() {
                assert(r.rows[i] == before.rows[i]);
            }
        }
        assert(!before.contains(last)) by {
            assert(!q.contains(payloads[payloads.len() - 1]));
            if earlier.contains(last) {
                let k = choose|k: int| 0 <= k < earlier.len() && earlier[k] == last;
                assert(payloads[k] != payloads[payloads.len() - 1]);
            }
        }
        assert forall|i: int, j: int| 0 <= i < j < r.rows.len() implies (#[trigger] r.rows[i]).payload != (
        #[trigger] r.rows[j]).payload by {
            assert(r.rows[i] == before.rows[i]);
            if j < before.rows.len() {
                assert(r.rows[j] == before.rows[j]);
            }
        }
        assert forall|p: T| #[trigger] r.contains(p) <==> q.contains(p) || payloads.contains(p) by {
            if r.contains(p) {
                let k = choose|k: int| 0 <= k < r.rows.len() && (#[trigger] r.rows[k]).payload == p;
                if k < before.rows.len() {
                    assert(before.rows[k] == r.rows[k]);
                    assert(before.contains(p));
                    if earlier.contains(p) {
                        let m = choose|m: int| 0 <= m < earlier.len() && earlier[m] == p;
                        assert(payloads[m] == p);
                    }
                } else {
                    assert(payloads[payloads.len() - 1] == p);
                }
            }
            if q.contains(p) {
                assert(before.contains(p));
                let k = choose|k: int| 0 <= k < before.rows.len() && (#[trigger] before.rows[k]).payload == p;
                assert(r.rows[k] == before.rows[k]);
            }
            if payloads.contains(p) {
                let m = choose|m: int| 0 <= m < payloads.len() && payloads[m] == p;
                if m < earlier.len() {
                    assert(earlier[m] == p);
                    assert(before.contains(p));
                    let k = choose|k: int|
                        0 <= k < before.rows.len() && (#[trigger] before.rows[k]).payload == p;
                    assert(r.rows[k] == before.rows[k]);
                }
            }
        }
    }
}

/// A claim leaves every row that is held as it is.
pub proof fn lemma_claim_keeps_holds<T>(q: QueueState<T>, ticket: u64)
    requires
        q.wf(),
        q.holds(ticket),
    ensures
        q.claimed().holds(ticket),
{
    lemma_first_free(q.rows, 0);
    lemma_position(q.rows, ticket, 0);
    lemma_transitions_keep_wf(q, ticket);
    let k = q.position(ticket);
    let c = q.claimed();
    assert(c.rows[k].ticket == ticket);
    lemma_position_of_index(c, k);
}

/// Claiming, finishing and giving back keep a queue well formed.
pub proof fn lemma_transitions_keep_wf<T>(q: QueueState<T>, ticket: u64)
    requires
        q.wf(),
    ensures
        q.claimed().wf(),
        q.acked(ticket).wf(),
        q.released(ticket).wf(),
{
    lemma_first_free(q.rows, 0);
    lemma_position(q.rows, ticket, 0);
    let c = q.claimed();
    assert forall|i: int| 0 <= i < c.rows.len() implies (#[trigger] c.rows[i]).ticket == q.rows[i].ticket
        && c.rows[i].payload == q.rows[i].payload by {}
    let r = q.released(ticket);
    assert forall|i: int| 0 <= i < r.rows.len() implies (#[trigger] r.rows[i]).ticket == q.rows[i].ticket
        && r.rows[i].payload == q.rows[i].payload by {}
    let a = q.acked(ticket);
    if q.holds(ticket) {
        let k = q.position(ticket);
        assert forall|i: int| 0 <= i < a.rows.len() implies (#[trigger] a.rows[i]) == q.rows[if i < k {
            i
        } else {
            i + 1
        }] by {}
        assert forall|i: int, j: int| 0 <= i < j < a.rows.len() implies (#[trigger] a.rows[i]).ticket < (
        #[trigger] a.rows[j]).ticket by {
            let i0 = if i < k { i } else { i + 1 };
            let j0 = if j < k { j } else { j + 1 };
            assert(q.rows[i0].ticket < q.rows[j0].ticket);
        }
        assert forall|i: int, j: int| 0 <= i < j < a.rows.len() implies (#[trigger] a.rows[i]).payload != (
        #[trigger] a.rows[j]).payload by {
            let i0 = if i < k { i } else { i + 1 };
            let j0 = if j < k { j } else { j + 1 };
            assert(q.rows[i0].payload != q.rows[j0].payload);
        }
    }
}

proof fn lemma_after_claims<T>(q: QueueState<T>, n: nat)
    requires
        q.wf(),
        q.all_free(),
        n <= q.rows.len(),
    ensures
        q.after_claims(n).next_ticket == q.next_ticket,
        q.after_claims(n).rows.len() == q.rows.len(),
        forall|k: int|
            0 <= k < q.rows.len() ==> #[trigger] q.after_claims(n).rows[k] == (Row {
                locked: k < n,
                ..q.rows[k]
            }),
        q.after_claims(n).first_free() == n,
    decreases n,
{
    if n > 0 {
        lemma_after_claims(q, (n - 1) as nat);
    }
    let a = q.after_claims(n);
    lemma_first_free(a.rows, 0);
    let r = a.first_free();
    if r < n {
        assert(a.rows[r].locked);
    } else if r > n {
        assert(a.rows[n as int] == (Row { locked: false, ..q.rows[n as int] }));
        assert(a.rows[n as int].locked);
    }
}

/// Competing claims exclude one another. Claims are taken one row lock at a
/// time, so any number of workers claiming at once amounts to their claims in
/// some order. Against a queue of `n` tasks that no one holds, `n` claims with
/// nothing finished in between hand out every task exactly once: the claims
/// return the queue's rows one by one, no ticket comes twice, and a further
/// claim finds nothing.
pub proof fn law_claims_are_exclusive<T>(q: QueueState<T>)
    requires
        q.wf(),
        q.all_free(),
    ensures
        forall|i: int| 0 <= i < q.rows.len() ==> #[trigger] q.nth_claim(i as nat) == Some(q.rows[i]),
        forall|i: int, j: int|
            0 <= i < j < q.rows.len() ==> (#[trigger] q.nth_claim(i as nat)).unwrap().ticket != (
            #[trigger] q.nth_claim(j as nat)).unwrap().ticket,
        q.nth_claim(q.rows.len()) == None::<Row<T>>,
        q.after_claims(q.rows.len()).payloads() == q.payloads(),
{
    assert forall|i: int| 0 <= i < q.rows.len() implies #[trigger] q.nth_claim(i as nat) == Some(
        q.rows[i],
    ) by {
        lemma_after_claims(q, i as nat);
    }
    assert forall|i: int, j: int| 0 <= i < j < q.rows.len() implies (#[trigger] q.nth_claim(
        i as nat,
    )).unwrap().ticket != (#[trigger] q.nth_claim(j as nat)).unwrap().ticket by {
        assert(q.rows[i].ticket < q.rows[j].ticket);
    }
    lemma_after_claims(q, q.rows.len());
    assert(q.after_claims(q.rows.len()).payloads() =~= q.payloads());
}

/// A task that is held cannot be claimed a second time, and a task whose
/// holder never finished it is claimable again: once the holder's
/// transaction has ended without an `ack`, the queue is as it was before the
/// claim, and the next claim hands out the same task.
pub proof fn law_unfinished_claim_returns_to_pool<T>(q: QueueState<T>)
    requires
        q.wf(),
        q.has_free(),
    ensures
        q.claimed().holds(q.next_claim().unwrap().ticket),
        q.claimed().next_claim() != q.next_claim(),
        q.claimed().released(q.next_claim().unwrap().ticket) == q,
        q.claimed().released(q.next_claim().unwrap().ticket).next_claim() == q.next_claim(),
{
    let k = q.first_free();
    let t = q.rows[k].ticket;
    let c = q.claimed();
    lemma_first_free(q.rows, 0);
    lemma_transitions_keep_wf(q, t);
    lemma_position_of_index(c, k);
    lemma_first_free(c.rows, 0);
    if c.has_free() {
        assert(c.first_free() != k);
        let k2 = c.first_free();
        if k2 < k {
            assert(c.rows[k2].ticket < c.rows[k].ticket);
        } else {
            assert(c.rows[k].ticket < c.rows[k2].ticket);
        }
    }
    assert(c.released(t).rows =~= q.rows);
}

/// In a well-formed queue the row at position `k` is the one that its ticket
/// finds.
pub proof fn lemma_position_of_index<T>(q: QueueState<T>, k: int)
    requires
        q.wf(),
        0 <= k < q.rows.len(),
    ensures
        q.position(q.rows[k].ticket) == k,
{
    lemma_position_from(q, k, 0);
}

proof fn lemma_position_from<T>(q: QueueState<T>, k: int, from: int)
    requires
        q.wf(),
        0 <= from <= k < q.rows.len(),
    ensures
        position_from(q.rows, q.rows[k].ticket, from) == k,
    decreases k - from,
{
    if from < k {
        assert(q.rows[from].ticket < q.rows[k].ticket);
        lemma_position_from(q, k, from + 1);
    }
}

} // verus!
