use zero2prod::email_client::Disposition;
use zero2prod::outbox::{EnqueueError, Outbox};

#[test]
fn claims_hand_out_every_task_once() {
    let mut queue: Outbox<u64> = Outbox::new();
    for payload in [10u64, 20, 30, 40] {
        assert!(queue.has_room(1));
        assert_eq!(queue.enqueue(payload), Ok(()));
    }
    assert_eq!(queue.len(), 4);
    let mut claims = Vec::new();
    let mut payloads = Vec::new();
    for _ in 0..4 {
        let (claim, payload) = queue.claim_next().expect("a task is left");
        claims.push(claim);
        payloads.push(payload);
    }
    assert!(queue.claim_next().is_none());
    payloads.sort();
    assert_eq!(payloads, vec![10, 20, 30, 40]);
    let mut tickets: Vec<u64> = claims.iter().map(|c| c.ticket()).collect();
    tickets.sort();
    tickets.dedup();
    assert_eq!(tickets.len(), 4);
    // nothing is lost: every row is still there until it is acked
    assert_eq!(queue.len(), 4);
    for claim in claims {
        assert!(queue.ack(claim));
    }
    assert_eq!(queue.len(), 0);
}

#[test]
fn unacked_task_is_claimable_again() {
    let mut queue: Outbox<u64> = Outbox::new();
    assert_eq!(queue.enqueue(7), Ok(()));
    let (claim, payload) = queue.claim_next().unwrap();
    assert_eq!(payload, 7);
    let ticket = claim.ticket();
    // held: no one else gets it
    assert!(queue.claim_next().is_none());
    // the worker vanishes: its lock is released
    assert!(queue.release(claim));
    let (again, payload) = queue.claim_next().unwrap();
    assert_eq!(payload, 7);
    assert_eq!(again.ticket(), ticket);
    assert!(queue.ack(again));
    assert!(queue.claim_next().is_none());
    assert_eq!(queue.len(), 0);
}

#[test]
fn claim_skips_locked_rows() {
    let mut queue: Outbox<u64> = Outbox::new();
    assert_eq!(queue.enqueue_all(&vec![1, 2, 3]), Ok(()));
    let (first, p1) = queue.claim_next().unwrap();
    let (second, p2) = queue.claim_next().unwrap();
    assert_eq!((p1, p2), (1, 2));
    assert!(queue.release(first));
    let (third, p3) = queue.claim_next().unwrap();
    assert_eq!(p3, 1);
    assert!(queue.ack(second));
    assert!(queue.ack(third));
    let (last, p4) = queue.claim_next().unwrap();
    assert_eq!(p4, 3);
    assert!(queue.ack(last));
    assert_eq!(queue.len(), 0);
}

#[test]
fn empty_queue_has_nothing_to_claim() {
    let mut queue: Outbox<u64> = Outbox::new();
    assert!(queue.claim_next().is_none());
    assert_eq!(queue.len(), 0);
}

#[test]
fn queue_holds_no_task_twice() {
    let mut queue: Outbox<u64> = Outbox::new();
    assert_eq!(queue.enqueue(1), Ok(()));
    assert_eq!(queue.enqueue(1), Err(EnqueueError::Duplicate));
    assert_eq!(queue.len(), 1);
    // a held task is still in the queue
    let (claim, _) = queue.claim_next().unwrap();
    assert_eq!(queue.enqueue(1), Err(EnqueueError::Duplicate));
    assert!(queue.ack(claim));
    assert_eq!(queue.enqueue(1), Ok(()));
    assert_eq!(queue.len(), 1);
}

#[test]
fn tasks_are_inserted_all_together_or_not_at_all() {
    let mut queue: Outbox<u64> = Outbox::new();
    assert_eq!(queue.enqueue(2), Ok(()));
    assert_eq!(queue.check_all(&vec![3, 4]), Ok(()));
    assert_eq!(queue.check_all(&vec![3, 2]), Err(EnqueueError::Duplicate));
    assert_eq!(queue.enqueue_all(&vec![3, 2, 4]), Err(EnqueueError::Duplicate));
    assert_eq!(queue.len(), 1);
    assert_eq!(queue.enqueue_all(&vec![3, 4, 3]), Err(EnqueueError::Duplicate));
    assert_eq!(queue.len(), 1);
    assert_eq!(queue.enqueue_all(&vec![]), Ok(()));
    assert_eq!(queue.enqueue_all(&vec![3, 4]), Ok(()));
    assert_eq!(queue.len(), 3);
    let mut seen = Vec::new();
    while let Some((claim, payload)) = queue.claim_next() {
        seen.push(payload);
        assert!(queue.ack(claim));
    }
    assert_eq!(seen, vec![2, 3, 4]);
}

#[test]
fn claims_in_a_loop_are_pairwise_distinct() {
    let mut queue: Outbox<u64> = Outbox::new();
    assert_eq!(queue.enqueue_all(&vec![11, 12, 13, 14, 15, 16]), Ok(()));
    let claims = queue.claim_many(6);
    assert_eq!(claims.iter().map(|(_, p)| *p).collect::<Vec<u64>>(), vec![11, 12, 13, 14, 15, 16]);
    for i in 0..claims.len() {
        for j in (i + 1)..claims.len() {
            assert_ne!(claims[i].0.ticket(), claims[j].0.ticket());
            assert_ne!(claims[i].1, claims[j].1);
        }
    }
    assert!(queue.claim_next().is_none());
    assert_eq!(queue.len(), 6);
    // with some rows held, the claims hand out the others
    let mut claims = claims;
    let (last, _) = claims.pop().unwrap();
    let (first, _) = claims.remove(0);
    assert!(queue.release(last));
    assert!(queue.release(first));
    let again = queue.claim_many(5);
    assert_eq!(again.iter().map(|(_, p)| *p).collect::<Vec<u64>>(), vec![11, 16]);
}

#[test]
fn settling_deletes_or_gives_back() {
    let mut queue: Outbox<u64> = Outbox::new();
    assert_eq!(queue.enqueue(1), Ok(()));
    assert_eq!(queue.check(&1), Err(EnqueueError::Duplicate));
    assert_eq!(queue.check(&2), Ok(()));
    let (claim, _) = queue.claim_next().unwrap();
    assert!(queue.settle(claim, Disposition::Requeue));
    assert_eq!(queue.len(), 1);
    let (claim, _) = queue.claim_next().unwrap();
    assert!(queue.settle(claim, Disposition::Ack));
    assert_eq!(queue.len(), 0);
}
