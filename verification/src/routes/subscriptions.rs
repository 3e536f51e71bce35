//! Subscribing.
use vstd::prelude::*;
use vstd::string::StringExecFns;

use crate::domain::new_subscriber::{is_confirmation_token, NewSubscriber};
use crate::domain::subscriber_email::{invalid_email_message, is_valid_email, SubscriberEmail};
use crate::domain::subscriber_name::{invalid_name_message, is_valid_name, SubscriberName};
use crate::persistence::{Store, StoreError, StoreState};
use crate::workflows::{complete_new_subscriber_workflow, subscribed, subscription_result};

verus! {

/// The subscription form.
#[derive(Debug)]
pub struct FormData {
    pub email: String,
    pub name: String,
}

/// Why a subscription failed.
#[derive(Debug)]
pub enum SubscribeError {
    /// The name or the address is malformed; the text says which.
    ValidationError(String),
    /// The store refused.
    UnexpectedError(StoreError),
}

/// The complaint about a form, if it earns one: the name is looked at first.
pub open spec fn form_complaint(email: Seq<char>, name: Seq<char>) -> Option<Seq<char>> {
    if !is_valid_name(name) {
        Some(invalid_name_message(name))
    } else if !is_valid_email(email) {
        Some(invalid_email_message(email))
    } else {
        None
    }
}

/// Validates the subscription form.
pub fn new_subscriber_from_form(form: FormData) -> (r: Result<NewSubscriber, String>)
    ensures
        match r {
            Ok(subscriber) => {
                &&& form_complaint(form.email@, form.name@) is None
                &&& subscriber.email@ == form.email@
                &&& subscriber.name@ == form.name@
            },
            Err(message) => form_complaint(form.email@, form.name@) == Some(message@),
        },
{
    let FormData { email, name } = form;
    let name = match SubscriberName::parse(name) {
        Ok(name) => name,
        Err(message) => {
            return Err(message);
        },
    };
    let email = match SubscriberEmail::parse(email) {
        Ok(email) => email,
        Err(message) => {
            return Err(message);
        },
    };
    Ok(NewSubscriber { email, name })
}

impl SubscribeError {
    /// The status that the error is answered with: 400 for a malformed
    /// form, 500 otherwise.
    pub open spec fn spec_status_code(&self) -> u16 {
        match self {
            SubscribeError::ValidationError(_) => 400,
            SubscribeError::UnexpectedError(_) => 500,
        }
    }

    /// The status that the error is answered with.
    #[verifier::when_used_as_spec(spec_status_code)]
    pub fn status_code(&self) -> (code: u16)
        ensures
            code == self.spec_status_code(),
    {
        match self {
            SubscribeError::ValidationError(_) => 400,
            SubscribeError::UnexpectedError(_) => 500,
        }
    }
}

/// Handles a subscription: a malformed form is refused before the store is
/// touched; a valid one is stored with a fresh confirmation token and its
/// confirmation email queued, all together or not at all.
pub fn subscribe(store: &mut Store, form: FormData) -> (r: Result<(), SubscribeError>)
    requires
        old(store).wf(),
    ensures
        final(store).wf(),
        match form_complaint(form.email@, form.name@) {
            Some(message) => {
                &&& final(store)@ == old(store)@
                &&& r matches Err(SubscribeError::ValidationError(text))
                &&& text@ == message
            },
            None => exists|id: u128, token: Seq<char>|
                {
                    &&& is_confirmation_token(token)
                    &&& final(store)@ == #[trigger] subscribed(old(store)@, id, form.email@, form.name@, token)
                    &&& match subscription_result(old(store)@, id) {
                        Ok(_) => r is Ok,
                        Err(e) => r matches Err(SubscribeError::UnexpectedError(cause)) && cause == e,
                    }
                },
        },
{
    let new_subscriber = match new_subscriber_from_form(form) {
        Ok(subscriber) => subscriber,
        Err(message) => {
            return Err(SubscribeError::ValidationError(message));
        },
    };
    match complete_new_subscriber_workflow(store, &new_subscriber) {
        Ok(_) => Ok(()),
        Err(e) => Err(SubscribeError::UnexpectedError(e)),
    }
}

/// The report of an error and its causes: the error's own message and an
/// empty line, then for each cause, outermost first, a line "Caused by:"
/// and the cause's message, indented by a tab.
pub open spec fn chain_text(message: Seq<char>, causes: Seq<Seq<char>>) -> Seq<char>
    decreases causes.len(),
{
    if causes.len() == 0 {
        message + "\n\n"@
    } else {
        chain_text(message, causes.drop_last()) + "Caused by:\n\t"@ + causes.last() + "\n"@
    }
}

/// Writes the report of an error with the given message and causes.
pub fn error_chain_fmt(message: &str, causes: &Vec<String>) -> (report: String)
    ensures
        report@ == chain_text(message@, causes@.map_values(|c: String| c@)),
{
    let ghost texts = causes@.map_values(|c: String| c@);
    let mut report = message.to_owned();
    report.append("\n\n");
    let mut i: usize = 0;
    while i < causes.len()
        invariant
            0 <= i <= causes@.len(),
            texts == causes@.map_values(|c: String| c@),
            report@ == chain_text(message@, texts.take(i as int)),
        decreases causes@.len() - i,
    {
        proof {
            assert(texts.take(i + 1).drop_last() =~= texts.take(i as int));
            assert(texts.take(i + 1).last() == causes@[i as int]@);
        }
        report.append("Caused by:\n\t");
        report.append(causes[i].as_str());
        report.append("\n");
        i += 1;
    }
    proof {
        assert(texts.take(i as int) =~= texts);
    }
    report
}

} // verus!
