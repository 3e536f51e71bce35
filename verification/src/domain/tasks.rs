use vstd::prelude::*;

use crate::domain::new_subscriber::NewSubscriber;

verus! {

/// The work of sending one confirmation email: to whom, and with which
/// token in the link.
#[derive(Debug)]
pub struct SubscriptionConfirmationTask {
    pub subscriber_id: u128,
    pub subscriber: NewSubscriber,
    pub confirmation_token: String,
}

} // verus!
