//! The checks on a change of password.
use vstd::prelude::*;

verus! {

/// A new password must have more bytes than this.
pub const MIN_PASSWORD_LENGTH: usize = 12;

/// A new password must have no more bytes than this.
pub const MAX_PASSWORD_LENGTH: usize = 128;

/// How a request to change the password is answered.
#[derive(Clone, Copy, Debug, PartialEq, Eq, Structural)]
pub enum PasswordChange {
    /// The new password and its confirmation differ.
    Mismatch,
    /// The current password is wrong.
    IncorrectPassword,
    /// The new password is too short.
    TooShort,
    /// The new password is too long.
    TooLong,
    /// The password may be changed.
    Accepted,
}

/// The checks in order: the confirmation, the current password, the new
/// password's length in bytes.
pub open spec fn spec_check_password_change(
    new_password: &str,
    confirmation: &str,
    current_password_is_valid: bool,
) -> PasswordChange {
    if new_password@ != confirmation@ {
        PasswordChange::Mismatch
    } else if !current_password_is_valid {
        PasswordChange::IncorrectPassword
    } else if new_password.len() <= MIN_PASSWORD_LENGTH {
        PasswordChange::TooShort
    } else if new_password.len() > MAX_PASSWORD_LENGTH {
        PasswordChange::TooLong
    } else {
        PasswordChange::Accepted
    }
}

/// Whether the new password and its confirmation are the same.
pub fn matches_confirmation(new_password: &str, confirmation: &str) -> (same: bool)
    ensures
        same == (new_password@ == confirmation@),
{
    new_password.to_owned() == confirmation.to_owned()
}

/// Decides on a request to change the password.
pub fn check_password_change(new_password: &str, confirmation: &str, current_password_is_valid: bool) -> (r:
    PasswordChange)
    ensures
        r == spec_check_password_change(new_password, confirmation, current_password_is_valid),
{
    if !matches_confirmation(new_password, confirmation) {
        PasswordChange::Mismatch
    } else if !current_password_is_valid {
        PasswordChange::IncorrectPassword
    } else if new_password.len() <= MIN_PASSWORD_LENGTH {
        PasswordChange::TooShort
    } else if new_password.len() > MAX_PASSWORD_LENGTH {
        PasswordChange::TooLong
    } else {
        PasswordChange::Accepted
    }
}

impl PasswordChange {
    /// What the user is told.
    pub open spec fn spec_message(self) -> Seq<char> {
        match self {
            PasswordChange::Mismatch => "Password does not match confirmation."@,
            PasswordChange::IncorrectPassword => "The current password is incorrect."@,
            PasswordChange::TooShort => "The new password is too short."@,
            PasswordChange::TooLong => "The new password is too long."@,
            PasswordChange::Accepted => "Your password has been changed."@,
        }
    }

    /// What the user is told.
    pub fn message(self) -> (text: &'static str)
        ensures
            text@ == self.spec_message(),
    {
        match self {
            PasswordChange::Mismatch => "Password does not match confirmation.",
            PasswordChange::IncorrectPassword => "The current password is incorrect.",
            PasswordChange::TooShort => "The new password is too short.",
            PasswordChange::TooLong => "The new password is too long.",
            PasswordChange::Accepted => "Your password has been changed.",
        }
    }
}

} // verus!
