//! The values that commands and recipients are made of.
pub mod new_subscriber;
pub mod newsletter_issue;
pub mod subscriber_email;
pub mod subscriber_name;
pub mod tasks;

pub use new_subscriber::NewSubscriber;
pub use newsletter_issue::NewsletterIssue;
pub use subscriber_email::SubscriberEmail;
pub use subscriber_name::SubscriberName;
