use vstd::prelude::*;

verus! {

/// What a newsletter issue says: its title and its body in both forms.
pub struct IssueContent {
    pub title: Seq<char>,
    pub text: Seq<char>,
    pub html: Seq<char>,
}

impl IssueContent {
    /// An issue may be stored and sent only with a title and both bodies.
    pub open spec fn is_valid(self) -> bool {
        self.title.len() > 0 && self.text.len() > 0 && self.html.len() > 0
    }
}

/// A newsletter issue that passed validation: none of its parts is empty.
#[derive(Debug)]
pub struct NewsletterIssue {
    title: String,
    text_content: String,
    html_content: String,
}

/// The complaints about a rejected issue, in the order title, text, HTML.
#[derive(Debug)]
pub struct NewsletterValidationError(Vec<&'static str>);

/// The complaints that an issue with these parts earns: one for each empty
/// part, in the order title, text, HTML.
pub open spec fn validation_messages(content: IssueContent) -> Seq<&'static str> {
    let title: Seq<&'static str> = if content.title.len() == 0 {
        seq!["The newsletter must have a title."]
    } else {
        seq![]
    };
    let text: Seq<&'static str> = if content.text.len() == 0 {
        seq!["The newsletter must have text content."]
    } else {
        seq![]
    };
    let html: Seq<&'static str> = if content.html.len() == 0 {
        seq!["The newsletter must have HTML content."]
    } else {
        seq![]
    };
    title + text + html
}

impl NewsletterValidationError {
    /// The complaints, in order.
    pub closed spec fn messages(&self) -> Seq<&'static str> {
        self.0@
    }

    /// The complaints, in order.
    pub fn iter(&self) -> (messages: &[&'static str])
        ensures
            messages@ == self.messages(),
    {
        self.0.as_slice()
    }
}

impl NewsletterIssue {
    #[verifier::type_invariant]
    spec fn inv(self) -> bool {
        self.title@.len() > 0 && self.text_content@.len() > 0 && self.html_content@.len() > 0
    }

    pub closed spec fn view(&self) -> IssueContent {
        IssueContent { title: self.title@, text: self.text_content@, html: self.html_content@ }
    }

    /// Accepts an issue exactly when none of its parts is empty. A rejected
    /// issue comes back as the list of complaints.
    pub fn validate_new(title: String, text_content: String, html_content: String) -> (r: Result<
        Self,
        NewsletterValidationError,
    >)
        ensures
            r.is_ok() <==> (IssueContent { title: title@, text: text_content@, html: html_content@ }).is_valid(),
            match r {
                Ok(issue) => issue@ == (IssueContent {
                    title: title@,
                    text: text_content@,
                    html: html_content@,
                }),
                Err(e) => e.messages() == validation_messages(
                    IssueContent { title: title@, text: text_content@, html: html_content@ },
                ),
            },
    {
        let mut validation_msgs: Vec<&'static str> = Vec::new();
        if title.as_str().unicode_len() == 0 {
            validation_msgs.push("The newsletter must have a title.");
        }
        if text_content.as_str().unicode_len() == 0 {
            validation_msgs.push("The newsletter must have text content.");
        }
        if html_content.as_str().unicode_len() == 0 {
            validation_msgs.push("The newsletter must have HTML content.");
        }
        if validation_msgs.len() == 0 {
            Ok(Self { title, text_content, html_content })
        } else {
            proof {
                assert(validation_msgs@ =~= validation_messages(
                    IssueContent { title: title@, text: text_content@, html: html_content@ },
                ));
            }
            Err(NewsletterValidationError(validation_msgs))
        }
    }

    /// The title, which is not empty.
    pub fn title(&self) -> (s: &str)
        ensures
            s@ == self@.title,
            self@.is_valid(),
    {
        proof {
            use_type_invariant(self);
        }
        self.title.as_str()
    }

    /// The plain-text body, which is not empty.
    pub fn text(&self) -> (s: &str)
        ensures
            s@ == self@.text,
            self@.is_valid(),
    {
        proof {
            use_type_invariant(self);
        }
        self.text_content.as_str()
    }

    /// The HTML body, which is not empty.
    pub fn html(&self) -> (s: &str)
        ensures
            s@ == self@.html,
            self@.is_valid(),
    {
        proof {
            use_type_invariant(self);
        }
        self.html_content.as_str()
    }
}

impl Clone for NewsletterIssue {
    fn clone(&self) -> (copy: Self)
        ensures
            copy@ == self@,
    {
        proof {
            use_type_invariant(self);
        }
        NewsletterIssue {
            title: self.title.clone(),
            text_content: self.text_content.clone(),
            html_content: self.html_content.clone(),
        }
    }
}

} // verus!
