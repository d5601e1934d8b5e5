//! The ways in which building or rendering a document fails.

use vstd::prelude::*;

verus! {

/// A construct of the source that the document tree has no place for.
#[derive(Debug, Clone, Copy, PartialEq, Eq, Structural)]
pub enum Unsupported {
    /// A block of metadata inside the document body.
    MetadataBlock,
    /// A block of markup.
    HtmlBlock,
}

/// A broken promise between the parts of the pipeline. Well-formed input
/// never leads to one.
#[derive(Debug, Clone, Copy, PartialEq, Eq, Structural)]
pub enum Violation {
    /// A table row, cell or head was closed, or a table was closed, while no
    /// table was being assembled.
    TableStage,
    /// A table row was closed while the innermost open component was not a
    /// table.
    TableMissing,
    /// A tag was closed, or content arrived, while no component was open.
    NothingOpen,
    /// A placeholder was left in a finished tree.
    Placeholder,
    /// A heading with a level outside 1 to 6.
    HeadingLevel,
    /// A table that takes an identifier was rendered with none left.
    Identifier,
    /// A span that does not lie on character boundaries of the source.
    Span,
}

/// Why a document could not be built or rendered.
#[derive(Debug, Clone, Copy, PartialEq, Eq, Structural)]
pub enum ComponentError {
    /// The content uses something that is not supported.
    Unsupported(Unsupported),
    /// The pipeline itself is at fault.
    Invariant(Violation),
}

impl ComponentError {
    /// Whether the error lies with the pipeline and not with the content.
    pub fn is_internal(&self) -> (internal: bool)
        ensures
            internal <==> *self is Invariant,
    {
        match self {
            ComponentError::Invariant(_) => true,
            ComponentError::Unsupported(_) => false,
        }
    }
}

/// What is wrong with the form of a post.
#[derive(Debug, PartialEq, Eq)]
pub enum FormatError {
    /// The post is empty.
    EmptyPost,
    /// The post has no header.
    MissingHeader,
    /// The header of the post begins and does not end.
    UnclosedFrontmatter,
    /// A date that cannot be read.
    DateTimeParse { invalid: String },
    /// A header that is no mapping.
    Yaml,
}

/// What is wrong with what the user asked for.
#[derive(Debug, PartialEq, Eq)]
pub enum UserError {
    /// The address does not name a repository.
    InvalidRepoUrl(String),
}

/// Why the program cannot go on.
#[derive(Debug, PartialEq, Eq)]
pub enum BlogError {
    /// The repository that is there is not the one that was asked for.
    RepoMismatch { expected: String, existing: String },
    /// The root directory is missing or is a file.
    InvalidRoot(String),
    Format(FormatError),
    User(UserError),
    /// The document could not be built or rendered.
    Component(ComponentError),
}

impl FormatError {
    /// The error in words.
    pub fn message(&self) -> (text: String)
        ensures
            text@ == (match self {
                FormatError::EmptyPost => "post is empty"@,
                FormatError::MissingHeader => "YAML header is missing"@,
                FormatError::UnclosedFrontmatter => "frontmatter is not closed"@,
                FormatError::DateTimeParse { invalid } => "unable to parse "@ + invalid@
                    + " DateTime"@,
                FormatError::Yaml => "YAML header is malformed"@,
            }),
    {
        match self {
            FormatError::EmptyPost => String::from_str("post is empty"),
            FormatError::MissingHeader => String::from_str("YAML header is missing"),
            FormatError::UnclosedFrontmatter => String::from_str("frontmatter is not closed"),
            FormatError::DateTimeParse { invalid } => {
                let mut text = String::from_str("unable to parse ");
                text.append(invalid.as_str());
                text.append(" DateTime");
                text
            },
            FormatError::Yaml => String::from_str("YAML header is malformed"),
        }
    }
}

impl UserError {
    /// The error in words.
    pub fn message(&self) -> (text: String)
        ensures
            text@ == (match self {
                UserError::InvalidRepoUrl(url) => "provided repository url ("@ + url@
                    + ") is invalid"@,
            }),
    {
        match self {
            UserError::InvalidRepoUrl(url) => {
                let mut text = String::from_str("provided repository url (");
                text.append(url.as_str());
                text.append(") is invalid");
                text
            },
        }
    }
}

} // verus!
