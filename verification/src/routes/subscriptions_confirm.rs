//! Confirming a subscription.
use vstd::prelude::*;

use crate::persistence::{Store, StoreError};

verus! {

/// The query of a confirmation link.
#[derive(Debug)]
pub struct Parameters {
    pub subscription_token: String,
}

/// The answer to a token that no one was given.
#[derive(Clone, Copy, Debug, PartialEq, Eq, Structural)]
pub struct InvalidToken {}

impl InvalidToken {
    /// What the answer says.
    pub fn message(&self) -> (text: &'static str)
        ensures
            text@ == "The token was invalid or there was no associated user."@,
    {
        "The token was invalid or there was no associated user."
    }
}

/// Why a confirmation failed.
#[derive(Clone, Copy, Debug, PartialEq, Eq, Structural)]
pub enum ConfirmError {
    /// No recipient was given the token.
    InvalidToken,
    /// The store refused.
    UnexpectedError(StoreError),
}

impl ConfirmError {
    /// The status that the error is answered with: 401 for an unknown
    /// token, 500 otherwise.
    pub open spec fn spec_status_code(&self) -> u16 {
        match self {
            ConfirmError::InvalidToken => 401,
            ConfirmError::UnexpectedError(_) => 500,
        }
    }

    /// The status that the error is answered with.
    #[verifier::when_used_as_spec(spec_status_code)]
    pub fn status_code(&self) -> (code: u16)
        ensures
            code == self.spec_status_code(),
    {
        match self {
            ConfirmError::InvalidToken => 401,
            ConfirmError::UnexpectedError(_) => 500,
        }
    }
}

/// Confirms the recipient that the token was given to. An unknown token is
/// refused and changes nothing. No queue is touched either way.
pub fn confirm(store: &mut Store, parameters: &Parameters) -> (r: Result<(), ConfirmError>)
    requires
        old(store).wf(),
    ensures
        final(store).wf(),
        final(store)@.delivery_queue == old(store)@.delivery_queue,
        match old(store)@.token_owner(parameters.subscription_token@) {
            None => r == Err::<(), ConfirmError>(ConfirmError::InvalidToken) && final(store)@ == old(store)@,
            Some(id) => r == Ok::<(), ConfirmError>(()) && final(store)@ == old(store)@.with_confirmed(id),
        },
{
    let id = store.get_subscriber_id_from_token(parameters.subscription_token.as_str());
    match id {
        None => Err(ConfirmError::InvalidToken),
        Some(subscriber_id) => {
            store.confirm_subscriber(subscriber_id);
            Ok(())
        },
    }
}

} // verus!
