//! Questions that are asked of the posts of a blog.

use vstd::prelude::*;
use vstd::string::StringSliceAdditionalSpecFns;
use crate::bytes::{split, split_from, texts_bytes};

verus! {

/// A field of a post.
#[derive(Debug, Clone, Copy, PartialEq, Eq, Hash)]
pub struct Field {
    pub name: &'static str,
}

impl Field {
    /// The field that holds the title.
    pub fn title() -> (field: Field)
        ensures
            field.name@ == "title"@,
    {
        Field { name: "title" }
    }

    /// The field that holds the description.
    pub fn description() -> (field: Field)
        ensures
            field.name@ == "description"@,
    {
        Field { name: "description" }
    }

    /// The field that holds the slug.
    pub fn slug() -> (field: Field)
        ensures
            field.name@ == "slug"@,
    {
        Field { name: "slug" }
    }

    /// The field that holds the tags.
    pub fn tags() -> (field: Field)
        ensures
            field.name@ == "tags"@,
    {
        Field { name: "tags" }
    }

    /// The field that holds the day of publication.
    pub fn published() -> (field: Field)
        ensures
            field.name@ == "published"@,
    {
        Field { name: "published" }
    }

    /// The field that holds the day of the last change.
    pub fn last_update() -> (field: Field)
        ensures
            field.name@ == "last_updated"@,
    {
        Field { name: "last_updated" }
    }

    /// The field that holds the text.
    pub fn content() -> (field: Field)
        ensures
            field.name@ == "content"@,
    {
        Field { name: "content" }
    }

    /// The name of the field.
    pub fn to_string(&self) -> (name: String)
        ensures
            name@ == self.name@,
    {
        self.name.to_owned()
    }
}

/// A day of the calendar.
#[derive(Debug, Clone, Copy, PartialEq, Eq, Structural)]
pub struct Date {
    pub year: i32,
    pub month: u32,
    pub day: u32,
}

/// Which posts are asked for.
#[derive(Debug, Clone)]
pub struct PostQuery {
    /// Posts newer than this day are included.
    pub start_date: Option<Date>,
    /// Posts older than this day are included.
    pub end_date: Option<Date>,
    /// Posts that have all of these tags, which commas part, are included.
    pub tags: Option<String>,
    /// Text that the posts hold.
    pub content: Option<String>,
}

/// The comma that parts tags.
pub open spec fn comma() -> Seq<u8> {
    seq![44u8]
}

impl PostQuery {
    /// Whether the query asks for nothing in particular.
    pub fn is_empty(&self) -> (empty: bool)
        ensures
            empty == (self.start_date is None && self.end_date is None && self.tags is None
                && self.content is None),
    {
        self.start_date.is_none() && self.end_date.is_none() && self.tags.is_none()
            && self.content.is_none()
    }

    /// The tags that the query asks for, if it asks for any.
    pub fn iter_tags(&self) -> (tags: Option<Vec<&str>>)
        ensures
            tags is Some <==> self.tags is Some,
            tags matches Some(tags) ==> texts_bytes(tags@) == split_from(
                vstd::utf8::encode_utf8(self.tags->0@),
                comma(),
                0,
            ),
    {
        match &self.tags {
            Some(tags) => {
                proof {
                    reveal_strlit(",");
                    crate::event::lemma_ascii_bytes(","@);
                    assert(",".spec_bytes() =~= comma());
                }
                Some(split(tags.as_str(), ","))
            },
            None => None,
        }
    }
}

} // verus!
