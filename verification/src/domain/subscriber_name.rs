use vstd::prelude::*;
use vstd::string::StringExecFns;

verus! {

/// The longest display name that is accepted, in characters.
pub const MAX_NAME_LENGTH: usize = 256;

/// Whether a character is a space, a tab or a line break.
pub open spec fn is_blank(c: char) -> bool {
    c == ' ' || c == '\t' || c == '\n' || c == '\r'
}

/// Whether a character may not stand in a display name.
pub open spec fn is_forbidden_in_name(c: char) -> bool {
    c == '/' || c == '(' || c == ')' || c == '"' || c == '<' || c == '>' || c == '\\' || c == '{' || c == '}'
}

/// A display name is valid when it holds a character that is not blank, is
/// no longer than `MAX_NAME_LENGTH` characters and holds no forbidden one.
pub open spec fn is_valid_name(s: Seq<char>) -> bool {
    &&& s.len() <= MAX_NAME_LENGTH
    &&& exists|i: int| 0 <= i < s.len() && !is_blank(#[trigger] s[i])
    &&& forall|i: int| 0 <= i < s.len() ==> !is_forbidden_in_name(#[trigger] s[i])
}

/// What a rejected name is answered with.
pub open spec fn invalid_name_message(s: Seq<char>) -> Seq<char> {
    s + " is not a valid subscriber name."@
}

/// A display name that passed validation.
#[derive(Debug)]
pub struct SubscriberName(String);

impl SubscriberName {
    #[verifier::type_invariant]
    spec fn inv(self) -> bool {
        is_valid_name(self.0@)
    }

    pub closed spec fn view(&self) -> Seq<char> {
        self.0@
    }

    /// Accepts exactly the valid names; a rejected one is answered with
    /// `invalid_name_message`.
    pub fn parse(s: String) -> (r: Result<SubscriberName, String>)
        ensures
            r.is_ok() <==> is_valid_name(s@),
            match r {
                Ok(name) => name@ == s@,
                Err(message) => message@ == invalid_name_message(s@),
            },
    {
        let n: usize = s.as_str().unicode_len();
        let mut seen_visible = false;
        let mut seen_forbidden = false;
        let mut i: usize = 0;
        while i < n
            invariant
                0 <= i <= n,
                n == s@.len(),
                seen_visible <==> exists|j: int| 0 <= j < i && !is_blank(#[trigger] s@[j]),
                seen_forbidden <==> exists|j: int| 0 <= j < i && is_forbidden_in_name(#[trigger] s@[j]),
            decreases n - i,
        {
            let c = s.as_str().get_char(i);
            if !(c == ' ' || c == '\t' || c == '\n' || c == '\r') {
                seen_visible = true;
            }
            if c == '/' || c == '(' || c == ')' || c == '"' || c == '<' || c == '>' || c == '\\' || c == '{'
                || c == '}' {
                seen_forbidden = true;
            }
            i += 1;
        }
        if n <= MAX_NAME_LENGTH && seen_visible && !seen_forbidden {
            Ok(SubscriberName(s))
        } else {
            Err(s.concat(" is not a valid subscriber name."))
        }
    }

    /// The name's text.
    pub fn as_str(&self) -> (s: &str)
        ensures
            s@ == self@,
            is_valid_name(self@),
    {
        proof {
            use_type_invariant(self);
        }
        self.0.as_str()
    }
}

} // verus!
