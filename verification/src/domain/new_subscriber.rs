use rand::Rng;
use vstd::prelude::*;

use crate::domain::subscriber_email::SubscriberEmail;
use crate::domain::subscriber_name::SubscriberName;

verus! {

/// The number of characters of a confirmation token.
pub const TOKEN_LENGTH: usize = 25;

/// Someone who asked to subscribe, with a validated address and name.
#[derive(Debug)]
pub struct NewSubscriber {
    pub email: SubscriberEmail,
    pub name: SubscriberName,
}

/// Whether a byte is an ASCII letter or digit.
pub open spec fn is_alphanumeric(b: u8) -> bool {
    (0x30 <= b <= 0x39) || (0x41 <= b <= 0x5a) || (0x61 <= b <= 0x7a)
}

/// The text whose characters are the given ASCII bytes.
pub open spec fn text_of(bytes: Seq<u8>) -> Seq<char> {
    Seq::new(bytes.len(), |i: int| bytes[i] as char)
}

/// Whether a text is a confirmation token as they are issued:
/// `TOKEN_LENGTH` characters, each the character of an ASCII letter or digit.
pub open spec fn is_confirmation_token(token: Seq<char>) -> bool {
    &&& token.len() == TOKEN_LENGTH
    &&& exists|bytes: Seq<u8>|
        {
            &&& token == #[trigger] text_of(bytes)
            &&& forall|i: int| 0 <= i < bytes.len() ==> is_alphanumeric(#[trigger] bytes[i])
        }
}

/// Draws one byte by `rand::Rng::sample` with the distribution
/// `rand::distributions::Alphanumeric`, on the generator that
/// `rand::thread_rng` gives. The distribution picks from the upper-case
/// letters, the lower-case letters and the digits; which one comes is left
/// open.
#[verifier::external_body]
fn sample_alphanumeric() -> (b: u8)
    ensures
        is_alphanumeric(b),
{
    rand::thread_rng().sample(rand::distributions::Alphanumeric)
}

/// Appends one character by `String::push`.
#[verifier::external_body]
fn push_char(s: &mut String, c: char)
    ensures
        final(s)@ == old(s)@.push(c),
{
    s.push(c)
}

/// The text spelled by a run of ASCII bytes.
pub fn token_from_bytes(bytes: &Vec<u8>) -> (token: String)
    ensures
        token@ == text_of(bytes@),
{
    let mut token = String::new();
    let mut i: usize = 0;
    while i < bytes.len()
        invariant
            0 <= i <= bytes@.len(),
            token@ == text_of(bytes@.take(i as int)),
        decreases bytes@.len() - i,
    {
        push_char(&mut token, bytes[i] as char);
        proof {
            assert(token@ =~= text_of(bytes@.take(i + 1)));
        }
        i += 1;
    }
    proof {
        assert(bytes@.take(i as int) =~= bytes@);
    }
    token
}

/// A fresh confirmation token: `TOKEN_LENGTH` random letters and digits.
pub fn generate_confirmation_token() -> (token: String)
    ensures
        is_confirmation_token(token@),
{
    let mut bytes: Vec<u8> = Vec::new();
    while bytes.len() < TOKEN_LENGTH
        invariant
            bytes@.len() <= TOKEN_LENGTH,
            forall|i: int| 0 <= i < bytes@.len() ==> is_alphanumeric(#[trigger] bytes@[i]),
        decreases TOKEN_LENGTH - bytes@.len(),
    {
        let b: u8 = sample_alphanumeric();
        bytes.push(b);
    }
    token_from_bytes(&bytes)
}

} // verus!
