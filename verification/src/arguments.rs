//! What the program is asked to do.

use vstd::prelude::*;
use crate::error::{BlogError, UserError};

verus! {

/// The address of a repository.
#[derive(Debug, Clone)]
pub struct RepoUrl(String);

impl View for RepoUrl {
    type V = Seq<char>;

    closed spec fn view(&self) -> Seq<char> {
        self.0@
    }
}

/// Whether a regular expression matches somewhere in a text, or `None`
/// where the expression is not one.
pub uninterp spec fn regex_match(pattern: Seq<char>, text: Seq<char>) -> Option<bool>;

/// `regex::Regex::new` on `pattern`, then `Regex::is_match` on `text`: the
/// result is `regex_match` of the two, `None` standing for a pattern that
/// `Regex::new` refuses.
#[verifier::external_body]
fn regex_is_match(pattern: &str, text: &str) -> (found: Option<bool>)
    ensures
        found == regex_match(pattern@, text@),
{
    regex::Regex::new(pattern).ok().map(|regex| regex.is_match(text))
}

/// The pattern that the address of a repository holds somewhere.
pub open spec fn repo_url_pattern() -> Seq<char> {
    "https?://\\w(\\.\\w)+(/[\\w_-])+\\.git"@
}

impl RepoUrl {
    /// The address `url`, given what matching it against the pattern of
    /// repository addresses came to. It is accepted where the pattern
    /// matched.
    pub fn from_match(url: String, matched: Option<bool>) -> (result: Result<RepoUrl, BlogError>)
        ensures
            matched == Some(true) ==> (result matches Ok(repo) && repo@ == url@),
            matched != Some(true) ==> (result matches Err(
                BlogError::User(UserError::InvalidRepoUrl(refused)),
            ) && refused@ == url@),
    {
        match matched {
            Some(true) => Ok(RepoUrl(url)),
            _ => Err(BlogError::User(UserError::InvalidRepoUrl(url))),
        }
    }

    /// The address `url`, if it holds the pattern of repository addresses.
    pub fn new(url: &str) -> (result: Result<RepoUrl, BlogError>)
        ensures
            regex_match(repo_url_pattern(), url@) == Some(true) ==> (result matches Ok(repo)
                && repo@ == url@),
            regex_match(repo_url_pattern(), url@) != Some(true) ==> (result matches Err(
                BlogError::User(UserError::InvalidRepoUrl(refused)),
            ) && refused@ == url@),
    {
        let matched = regex_is_match("https?://\\w(\\.\\w)+(/[\\w_-])+\\.git", url);
        RepoUrl::from_match(url.to_owned(), matched)
    }

    /// The address as text.
    pub fn as_str(&self) -> (url: &str)
        ensures
            url@ == self@,
    {
        self.0.as_str()
    }

    /// The address as text of its own.
    pub fn to_string(&self) -> (url: String)
        ensures
            url@ == self@,
    {
        self.0.clone()
    }
}

/// Where a repository is found.
#[derive(Debug)]
pub struct GitSource {
    /// The repository that the working directory follows.
    pub repo: RepoUrl,
    /// The branch to clone or to follow.
    pub repo_branch: String,
}

/// What to do.
#[derive(Debug)]
pub enum Verb {
    /// Clone a remote repository to the working directory.
    Clone(GitSource),
    /// Bring local and upstream changes together.
    Pull,
    /// Update the file index.
    Index,
    /// Watch the files and update on change.
    Watch,
    /// Build the pages.
    Build,
    /// List the posts.
    Posts,
    /// Mark a post as published.
    Publish,
}

/// The arguments of the program.
#[derive(Debug)]
pub struct Args {
    /// The directory that holds the posts.
    pub working_dir: String,
    /// The directory that the pages are written to.
    pub target_dir: String,
    /// The extension of the files that are written.
    pub ext: String,
    /// Whether the output goes to the standard output.
    pub print_output: bool,
    /// What to do.
    pub verb: Verb,
}

impl Args {
    /// The arguments for `verb` with every option at its default.
    pub fn with_defaults(verb: Verb) -> (args: Args)
        ensures
            args.working_dir@ == "./posts"@,
            args.target_dir@ == "./out"@,
            args.ext@ == "html"@,
            !args.print_output,
            args.verb == verb,
    {
        Args {
            working_dir: String::from_str("./posts"),
            target_dir: String::from_str("./out"),
            ext: String::from_str("html"),
            print_output: false,
            verb,
        }
    }
}

} // verus!
