use vstd::prelude::*;
use vstd::string::StringExecFns;

use crate::domain::subscriber_name::is_blank;

verus! {

/// The number of `@` signs among the first `n` characters of `s`.
pub open spec fn count_at_signs(s: Seq<char>, n: int) -> int
    decreases n,
{
    if n <= 0 {
        0
    } else {
        count_at_signs(s, n - 1) + if s[n - 1] == '@' {
            1int
        } else {
            0int
        }
    }
}

/// An address is valid when it holds no blank, exactly one `@`, and
/// something on both sides of it.
pub open spec fn is_valid_email(s: Seq<char>) -> bool {
    &&& s.len() >= 3
    &&& forall|i: int| 0 <= i < s.len() ==> !is_blank(#[trigger] s[i])
    &&& count_at_signs(s, s.len() as int) == 1
    &&& s[0] != '@'
    &&& s[s.len() - 1] != '@'
}

/// What a rejected address is answered with.
pub open spec fn invalid_email_message(s: Seq<char>) -> Seq<char> {
    s + " is not a valid subscriber email."@
}

/// An email address that passed validation.
#[derive(Debug)]
pub struct SubscriberEmail(String);

impl SubscriberEmail {
    #[verifier::type_invariant]
    spec fn inv(self) -> bool {
        is_valid_email(self.0@)
    }

    pub closed spec fn view(&self) -> Seq<char> {
        self.0@
    }

    /// Accepts exactly the valid addresses; a rejected one is answered with
    /// `invalid_email_message`.
    pub fn parse(s: String) -> (r: Result<SubscriberEmail, String>)
        ensures
            r.is_ok() <==> is_valid_email(s@),
            match r {
                Ok(email) => email@ == s@,
                Err(message) => message@ == invalid_email_message(s@),
            },
    {
        let n: usize = s.as_str().unicode_len();
        let mut seen_blank = false;
        let mut at_signs: usize = 0;
        let mut at_first = false;
        let mut at_last = false;
        let mut i: usize = 0;
        while i < n
            invariant
                0 <= i <= n,
                n == s@.len(),
                seen_blank <==> exists|j: int| 0 <= j < i && is_blank(#[trigger] s@[j]),
                at_signs == count_at_signs(s@, i as int),
                at_signs <= i,
                at_first <==> (i > 0 && s@[0] == '@'),
                at_last <==> (i > 0 && s@[i - 1] == '@'),
            decreases n - i,
        {
            let c = s.as_str().get_char(i);
            if c == ' ' || c == '\t' || c == '\n' || c == '\r' {
                seen_blank = true;
            }
            if c == '@' {
                at_signs += 1;
            }
            if i == 0 {
                at_first = c == '@';
            }
            at_last = c == '@';
            i += 1;
        }
        if n >= 3 && !seen_blank && at_signs == 1 && !at_first && !at_last {
            Ok(SubscriberEmail(s))
        } else {
            Err(s.concat(" is not a valid subscriber email."))
        }
    }

    /// The address's text.
    pub fn as_str(&self) -> (s: &str)
        ensures
            s@ == self@,
            is_valid_email(self@),
    {
        proof {
            use_type_invariant(self);
        }
        self.0.as_str()
    }
}

} // verus!
