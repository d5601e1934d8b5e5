//! A post: what its header says of it, and its source.

use vstd::prelude::*;
use vstd::string::StringSliceAdditionalSpecFns;
use vstd::utf8::encode_utf8;
use crate::bytes::{
    count_leading_white, find, find_from, leading_white, lemma_ascii_boundaries, lemma_find_from,
    matches_at, occurs_at, slice,
};
use crate::component::{posts_view, ComponentView, PostComponent};
use crate::error::{ComponentError, FormatError};
use crate::markup::{faults, render_document, rendering};
use crate::parser::{ComponentParser, ParserOptions, ParserView};
use crate::tokenizer::base_tokens;

verus! {

/// A point in time: seconds since the first of January 1970, and the
/// nanoseconds within the second.
#[derive(Debug, Clone, Copy, PartialEq, Eq, Structural, PartialOrd, Ord)]
pub struct Timestamp {
    pub seconds: i64,
    pub nanos: u32,
}

/// A change that was made to a post.
#[derive(Debug, PartialEq, Eq)]
pub struct Edit {
    pub summary: String,
    pub time: Timestamp,
}

/// Someone who wrote a post.
#[derive(Debug, PartialEq, Eq)]
pub struct Author {
    pub name: String,
    pub email: Option<String>,
    pub web: Option<String>,
}

/// The authors of a post, in one of the forms that a header can give them.
#[derive(Debug, PartialEq, Eq)]
pub enum AuthorEntry {
    Name(String),
    Author(Author),
    AuthorList(Vec<Author>),
}

/// What the header of a post says of it.
#[derive(Debug, PartialEq, Eq)]
pub struct PostInfo {
    pub title: Option<String>,
    pub description: Option<String>,
    pub tags: Vec<String>,
    pub slug: Option<String>,
    pub author: Option<AuthorEntry>,
    pub edits: Option<Vec<Edit>>,
}

impl Default for PostInfo {
    fn default() -> (info: PostInfo)
        ensures
            info.title is None,
            info.description is None,
            info.tags@.len() == 0,
            info.slug is None,
            info.author is None,
            info.edits is None,
    {
        PostInfo {
            title: None,
            description: None,
            tags: Vec::new(),
            slug: None,
            author: None,
            edits: None,
        }
    }
}

impl PostInfo {
    /// The information of a post that says nothing of itself: it has a title
    /// and nothing else.
    pub fn new() -> (info: PostInfo)
        ensures
            info.title matches Some(title) && title@ == "Blog article"@,
            info.description is None,
            info.tags@.len() == 0,
            info.slug is None,
            info.author is None,
            info.edits is None,
    {
        PostInfo {
            title: Some(String::from_str("Blog article")),
            description: None,
            tags: Vec::new(),
            slug: None,
            author: None,
            edits: None,
        }
    }
}

/// Data that takes over what other data says.
pub trait MergeData<With>: Sized {
    /// This data after it took over what `value` says.
    spec fn merged(self, value: With) -> Self;

    /// Takes over what `value` says.
    fn merge_replace(&mut self, value: With)
        ensures
            *final(self) == old(self).merged(value),
    ;
}

impl MergeData<PostInfo> for PostInfo {
    /// What `value` says replaces what was known; what it is silent about
    /// stays. The title is never taken over.
    open spec fn merged(self, value: PostInfo) -> PostInfo {
        PostInfo {
            title: self.title,
            description: if value.description is Some {
                value.description
            } else {
                self.description
            },
            tags: if value.tags@.len() > 0 {
                value.tags
            } else {
                self.tags
            },
            slug: if value.slug is Some {
                value.slug
            } else {
                self.slug
            },
            author: if value.author is Some {
                value.author
            } else {
                self.author
            },
            edits: if value.edits is Some {
                value.edits
            } else {
                self.edits
            },
        }
    }

    fn merge_replace(&mut self, value: PostInfo) {
        if let Some(it) = value.description {
            self.description = Some(it);
        }
        if value.tags.len() > 0 {
            self.tags = value.tags;
        }
        if let Some(it) = value.slug {
            self.slug = Some(it);
        }
        if let Some(it) = value.author {
            self.author = Some(it);
        }
        if let Some(it) = value.edits {
            self.edits = Some(it);
        }
    }
}

/// The text of a post as it was read, header and all.
#[derive(Debug, Clone, Default)]
pub struct RawPostContent {
    pub inner: String,
}

/// The line that opens and closes a header.
pub open spec fn fence() -> Seq<u8> {
    seq![45u8, 45u8, 45u8, 10u8]
}

/// Where the header of a post stands.
pub enum Frame {
    /// The post has no header.
    Absent,
    /// A header begins and does not end.
    Unclosed,
    /// The header is the bytes from `start` to `end`; the post goes on
    /// behind the line that closes it.
    Found { start: int, end: int },
}

/// Where the header of a post stands. A post of eight bytes or less has
/// none. A header begins with a fence, before which only white space may
/// stand, and reaches to the next fence.
pub open spec fn frame(bytes: Seq<u8>) -> Frame {
    let begin = leading_white(bytes);
    if bytes.len() <= 8 || !occurs_at(bytes, fence(), begin) {
        Frame::Absent
    } else {
        match find_from(bytes, fence(), begin + 4) {
            Some(end) => Frame::Found { start: begin + 4, end },
            None => Frame::Unclosed,
        }
    }
}

impl RawPostContent {
    /// A post without text.
    pub fn new() -> (raw: RawPostContent)
        ensures
            raw.inner@.len() == 0,
    {
        RawPostContent { inner: String::new() }
    }

    /// A post with the text `inner`.
    pub fn from_string(inner: String) -> (raw: RawPostContent)
        ensures
            raw.inner == inner,
    {
        RawPostContent { inner }
    }

    /// The text of the post.
    pub fn as_str(&self) -> (text: &str)
        ensures
            text@ == self.inner@,
    {
        self.inner.as_str()
    }

    /// The text of the post, by value.
    pub fn into_string(self) -> (text: String)
        ensures
            text == self.inner,
    {
        self.inner
    }

    /// Takes the header off the post and returns it. A post without a header
    /// is left as it is, and so is one whose header does not end, which is
    /// an error.
    pub fn take_frontmatter(&mut self) -> (result: Result<Option<String>, FormatError>)
        ensures
            match frame(encode_utf8(old(self).inner@)) {
                Frame::Absent => result == Ok::<Option<String>, FormatError>(None) && final(self).inner@ == old(self).inner@,
                Frame::Unclosed => result == Err::<Option<String>, FormatError>(
                    FormatError::UnclosedFrontmatter,
                ) && final(self).inner@ == old(self).inner@,
                Frame::Found { start, end } => result matches Ok(Some(header)) && encode_utf8(
                    header@,
                ) == encode_utf8(old(self).inner@).subrange(start, end) && encode_utf8(
                    final(self).inner@,
                ) == encode_utf8(old(self).inner@).subrange(
                    end + 4,
                    encode_utf8(old(self).inner@).len() as int,
                ),
            },
    {
        let text = self.inner.as_str();
        let bytes = text.as_bytes();
        let ghost all = text.spec_bytes();
        let size = bytes.len();
        if size <= 8 {
            return Ok(None);
        }
        let begin = count_leading_white(bytes);
        let mark = "---\n".as_bytes();
        proof {
            reveal_strlit("---\n");
            crate::event::lemma_ascii_bytes("---\n"@);
            assert(mark@ =~= fence());
        }
        if size - begin < 4 || !matches_at(bytes, mark, begin) {
            return Ok(None);
        }
        proof {
            lemma_find_from(all, fence(), begin + 4);
            assert(all.subrange(0, size as int) =~= all);
        }
        match find(bytes, mark, begin + 4, size) {
            None => Err(FormatError::UnclosedFrontmatter),
            Some(end) => {
                proof {
                    vstd::utf8::encode_utf8_valid_utf8(text@);
                    vstd::utf8::is_char_boundary_start_end_of_seq(all);
                    assert(all.subrange(begin as int, begin + 4)[3] == fence()[3]);
                    assert(all.subrange(end as int, end + 4)[0] == fence()[0]);
                    assert(all.subrange(end as int, end + 4)[3] == fence()[3]);
                    lemma_ascii_boundaries(all, begin + 3);
                    lemma_ascii_boundaries(all, end as int);
                    lemma_ascii_boundaries(all, end + 3);
                }
                let header = slice(text, begin + 4, end).unwrap().to_owned();
                let rest = slice(text, end + 4, size).unwrap().to_owned();
                self.inner = rest;
                Ok(Some(header))
            },
        }
    }
}

/// A post: what is known of it, and its markdown source.
#[derive(Debug)]
pub struct Post {
    pub info: PostInfo,
    pub source: String,
}

/// What a page template is filled with.
#[derive(Debug)]
pub struct PostTemplateContext {
    pub info: PostInfo,
    /// The markup of the post.
    pub content: String,
}

impl Post {
    /// The post with the given information and source.
    pub fn from_parts(info: PostInfo, source: String) -> (post: Post)
        ensures
            post.info == info,
            post.source == source,
    {
        Post { info, source }
    }

    /// A parser over the source of the post.
    pub fn components(&self) -> (parser: ComponentParser<'_>)
        ensures
            parser@ == ParserView::fresh(
                encode_utf8(self.source@),
                base_tokens(self.source@),
                ParserOptions { newline_soft_break: false },
            ),
    {
        ComponentParser::new(self.source.as_str())
    }

    /// What the template of the page is filled with, given the components
    /// of the post: the information of the post and the markup of the
    /// components.
    pub fn fill(self, components: &Vec<PostComponent>) -> (result: Result<
        PostTemplateContext,
        ComponentError,
    >)
        ensures
            match faults(posts_view(components@)) {
                Some(violation) => result matches Err(error) && error
                    == ComponentError::Invariant(violation),
                None => result matches Ok(context) && context.info == self.info && rendering(
                    ComponentView::Chained(posts_view(components@)),
                    context.content@,
                ),
            },
    {
        match render_document(components) {
            Ok(content) => Ok(PostTemplateContext { info: self.info, content }),
            Err(error) => Err(error),
        }
    }

    /// What the template of the page is filled with: the information of the
    /// post and the markup of its source.
    pub fn template_ctx(self) -> (result: Result<PostTemplateContext, ComponentError>)
        ensures
            match ParserView::fresh(
                encode_utf8(self.source@),
                base_tokens(self.source@),
                ParserOptions { newline_soft_break: false },
            ).run() {
                Ok(components) => match faults(components) {
                    Some(violation) => result matches Err(error) && error
                        == ComponentError::Invariant(violation),
                    None => result matches Ok(context) && context.info == self.info && rendering(
                        ComponentView::Chained(components),
                        context.content@,
                    ),
                },
                Err(error) => result matches Err(found) && found == error,
            },
    {
        let built = self.components().collect();
        match built {
            Ok(components) => self.fill(&components),
            Err(error) => Err(error),
        }
    }
}

} // verus!
