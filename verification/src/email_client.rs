//! The interface to the email transport, as far as the workers decide on it.
use vstd::prelude::*;

verus! {

/// Why the transport did not deliver a message.
#[derive(Clone, Copy, Debug, PartialEq, Eq, Structural)]
pub enum TransportError {
    /// A timeout or a failure on the transport's side: a later attempt may
    /// succeed.
    Recoverable,
    /// The transport refused the recipient: no later attempt can succeed.
    RecipientRejected,
}

/// What becomes of a task after the attempt to send.
#[derive(Clone, Copy, Debug, PartialEq, Eq, Structural)]
pub enum Disposition {
    /// The attempt is final: the task is deleted.
    Ack,
    /// The task stays in the queue for a later poll.
    Requeue,
}

/// A task is kept for another attempt exactly when the transport failed in
/// a recoverable way.
pub open spec fn spec_disposition(sent: Result<(), TransportError>) -> Disposition {
    match sent {
        Err(TransportError::Recoverable) => Disposition::Requeue,
        _ => Disposition::Ack,
    }
}

/// Decides what becomes of a task after the attempt to send.
pub fn disposition(sent: Result<(), TransportError>) -> (d: Disposition)
    ensures
        d == spec_disposition(sent),
{
    match sent {
        Err(TransportError::Recoverable) => Disposition::Requeue,
        _ => Disposition::Ack,
    }
}

/// What a status of the transport's answer means: a status from 200 to 299
/// is a delivery, one from 400 to 499 a refusal of the recipient, and any
/// other a failure that may pass.
pub open spec fn spec_classify_status(status: u16) -> Result<(), TransportError> {
    if 200 <= status <= 299 {
        Ok(())
    } else if 400 <= status <= 499 {
        Err(TransportError::RecipientRejected)
    } else {
        Err(TransportError::Recoverable)
    }
}

/// Reads the status of the transport's answer.
pub fn classify_status(status: u16) -> (sent: Result<(), TransportError>)
    ensures
        sent == spec_classify_status(status),
{
    if 200 <= status && status <= 299 {
        Ok(())
    } else if 400 <= status && status <= 499 {
        Err(TransportError::RecipientRejected)
    } else {
        Err(TransportError::Recoverable)
    }
}

/// What came back from the attempt to reach the transport.
#[derive(Clone, Copy, Debug, PartialEq, Eq, Structural)]
pub enum TransportAnswer {
    /// The transport answered with this status.
    Status(u16),
    /// No answer came within the time allowed.
    TimedOut,
    /// The transport could not be reached.
    Unreachable,
}

/// What an answer means for the task: a status is read by
/// `spec_classify_status`; a timeout and an unreachable transport are
/// failures that may pass.
pub open spec fn spec_classify(answer: TransportAnswer) -> Result<(), TransportError> {
    match answer {
        TransportAnswer::Status(status) => spec_classify_status(status),
        TransportAnswer::TimedOut => Err(TransportError::Recoverable),
        TransportAnswer::Unreachable => Err(TransportError::Recoverable),
    }
}

/// Reads what came back from the attempt to reach the transport.
pub fn classify(answer: TransportAnswer) -> (sent: Result<(), TransportError>)
    ensures
        sent == spec_classify(answer),
{
    match answer {
        TransportAnswer::Status(status) => classify_status(status),
        TransportAnswer::TimedOut => Err(TransportError::Recoverable),
        TransportAnswer::Unreachable => Err(TransportError::Recoverable),
    }
}

} // verus!
