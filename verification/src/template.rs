//! What the page templates are filled with.

use vstd::prelude::*;

verus! {

/// A page that sends its reader on to another page.
#[derive(Debug)]
pub struct Redirect {
    /// Where the reader is sent.
    pub target: String,
    /// After how many seconds.
    pub delay: String,
    /// What else stands in the head of the page.
    pub head: Option<String>,
}

impl Default for Redirect {
    fn default() -> (redirect: Redirect)
        ensures
            redirect.target@ == "#"@,
            redirect.delay@ == "3"@,
            redirect.head is None,
    {
        Redirect { target: String::from_str("#"), delay: String::from_str("3"), head: None }
    }
}

/// What the template of a redirecting page is filled with.
#[derive(Debug)]
pub struct RedirectTemplate {
    /// Where the reader is sent.
    pub target: String,
    /// After how many seconds.
    pub delay: String,
    /// What else stands in the head of the page.
    pub head: Option<String>,
}

impl Default for RedirectTemplate {
    fn default() -> (template: RedirectTemplate)
        ensures
            template.target@ == "#"@,
            template.delay@ == "3"@,
            template.head is None,
    {
        RedirectTemplate { target: String::from_str("#"), delay: String::from_str("3"), head: None }
    }
}

} // verus!
