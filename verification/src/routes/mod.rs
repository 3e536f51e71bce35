//! What the request handlers decide, on plain values.
pub mod newsletters;
pub mod password;
pub mod subscriptions;
pub mod subscriptions_confirm;
