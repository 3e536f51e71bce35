//! Exactly-once-effect delivery of newsletter issues and confirmation emails
//! over a relational store.
//!
//! Three mechanisms work together. The outbox ([`outbox`]) is a queue of
//! pending deliveries that competing workers consume by locking rows. The
//! idempotency layer ([`idempotency`]) lets a command that is submitted again
//! be answered with the first answer instead of being carried out twice. The
//! workers ([`issue_delivery_worker`],
//! [`subscription_confirmation_delivery_worker`]) claim one task at a time,
//! decide after each attempt to send whether the task is done or stays, and
//! rest between polls.
//!
//! The store itself is described in [`persistence`] as a mathematical state
//! with one transition for each statement that is run against it, so that
//! what the command handler ([`routes::newsletters`]) and the workers promise
//! can be stated and proved: a command has its effect once, competing claims
//! exclude one another, and a task whose worker vanishes is claimable again.
pub mod domain;
pub mod email_client;
pub mod idempotency;
pub mod issue_delivery_worker;
pub mod outbox;
pub mod paths;
pub mod persistence;
pub mod routes;
pub mod subscription_confirmation_delivery_worker;
pub mod templates;
pub mod workflows;
