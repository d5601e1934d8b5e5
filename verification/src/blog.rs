//! What is known of the files of a blog.

use vstd::prelude::*;
use vstd::string::StringSliceAdditionalSpecFns;
use crate::bytes::{split, split_from, texts_bytes};
use crate::minmax::MinMax;
use crate::post::Timestamp;

verus! {

impl Timestamp {
    /// Whether this point in time lies before `other`.
    pub open spec fn before(self, other: Timestamp) -> bool {
        self.seconds < other.seconds || (self.seconds == other.seconds && self.nanos
            < other.nanos)
    }

    /// The earlier of two points in time.
    pub open spec fn earlier(self, other: Timestamp) -> Timestamp {
        if other.before(self) {
            other
        } else {
            self
        }
    }

    /// The earlier of two points in time.
    pub fn min(self, other: Timestamp) -> (first: Timestamp)
        ensures
            first == self.earlier(other),
    {
        if other.seconds < self.seconds || (other.seconds == self.seconds && other.nanos
            < self.nanos) {
            other
        } else {
            self
        }
    }
}

/// When a file was created and when it was last changed, as far as known.
#[derive(Debug, Clone, Copy, PartialEq, Eq, Structural)]
pub struct IndexData {
    pub created: Option<Timestamp>,
    pub modified: Option<Timestamp>,
}

impl Default for IndexData {
    fn default() -> (data: IndexData)
        ensures
            data == (IndexData { created: None, modified: None }),
    {
        IndexData { created: None, modified: None }
    }
}

/// The earlier of a time that may be known and a time that is known.
pub open spec fn earliest(known: Option<Timestamp>, found: Timestamp) -> Timestamp {
    match known {
        Some(it) => found.earlier(it),
        None => found,
    }
}

impl IndexData {
    /// What the file system says of a file.
    pub fn from_times(created: Option<Timestamp>, modified: Option<Timestamp>) -> (data:
        IndexData)
        ensures
            data == (IndexData { created, modified }),
    {
        IndexData { created, modified }
    }

    /// What is known once the history of the file is taken into account.
    /// A history of one change can only move the creation back; a longer
    /// history also sets the time of the last change, to the earlier of the
    /// last change in the history and the creation.
    pub open spec fn merged(self, history: MinMax<Timestamp>) -> IndexData {
        match history {
            MinMax::Empty => self,
            MinMax::One(create) => IndexData {
                created: Some(earliest(self.created, create)),
                modified: self.modified,
            },
            MinMax::Complete { min: create, max: modify } => IndexData {
                created: Some(earliest(self.created, create)),
                modified: Some(modify.earlier(earliest(self.created, create))),
            },
        }
    }

    /// Takes the history of the file into account.
    pub fn with_history(self, history: MinMax<Timestamp>) -> (data: IndexData)
        ensures
            data == self.merged(history),
    {
        match history {
            MinMax::Empty => self,
            MinMax::One(create) => {
                let created = match self.created {
                    Some(it) => create.min(it),
                    None => create,
                };
                IndexData { created: Some(created), modified: self.modified }
            },
            MinMax::Complete { min: create, max: modify } => {
                let created = match self.created {
                    Some(it) => create.min(it),
                    None => create,
                };
                IndexData { created: Some(created), modified: Some(modify.min(created)) }
            },
        }
    }
}

/// The times at which a file was changed.
#[derive(Debug)]
pub struct FileHistory {
    pub edits: Vec<Timestamp>,
}

impl FileHistory {
    /// A history without changes.
    pub fn new() -> (history: FileHistory)
        ensures
            history.edits@.len() == 0,
    {
        FileHistory { edits: Vec::new() }
    }

    /// The history with the given changes.
    pub fn from_edits(edits: Vec<Timestamp>) -> (history: FileHistory)
        ensures
            history.edits == edits,
    {
        FileHistory { edits }
    }
}

/// The dot that parts the name of a file from its extension.
pub open spec fn dot() -> Seq<u8> {
    seq![46u8]
}

/// The name of the file that a post is written to: its slug, or else the
/// name of its source up to the first dot, followed by a dot and the
/// extension.
pub open spec fn target_bytes(slug: Option<Seq<u8>>, source_name: Seq<u8>, ext: Seq<u8>) -> Seq<u8> {
    (match slug {
        Some(slug) => slug,
        None => split_from(source_name, dot(), 0)[0],
    }) + dot() + ext
}

/// The name of the file that a post is written to.
pub fn target_name(slug: Option<String>, source_name: &str, ext: &str) -> (name: String)
    ensures
        vstd::utf8::encode_utf8(name@) == target_bytes(
            match slug {
                Some(slug) => Some(vstd::utf8::encode_utf8(slug@)),
                None => None,
            },
            source_name.spec_bytes(),
            ext.spec_bytes(),
        ),
{
    proof {
        reveal_strlit(".");
        crate::event::lemma_ascii_bytes("."@);
        assert(".".spec_bytes() =~= dot());
    }
    let mut name = match slug {
        Some(slug) => slug,
        None => {
            let pieces = split(source_name, ".");
            assert(texts_bytes(pieces@)[0] == pieces@[0].spec_bytes());
            pieces[0].to_owned()
        },
    };
    let ghost stem = name@;
    name.append(".");
    name.append(ext);
    proof {
        lemma_bytes_concat(stem, "."@);
        lemma_bytes_concat(stem + "."@, ext@);
    }
    name
}

/// The bytes of two texts in a row are the bytes of the one followed by the
/// bytes of the other.
pub proof fn lemma_bytes_concat(a: Seq<char>, b: Seq<char>)
    ensures
        vstd::utf8::encode_utf8(a + b) == vstd::utf8::encode_utf8(a) + vstd::utf8::encode_utf8(b),
    decreases a.len(),
{
    if a.len() == 0 {
        assert(a + b =~= b);
        assert(vstd::utf8::encode_utf8(a) =~= Seq::<u8>::empty());
        assert(vstd::utf8::encode_utf8(a) + vstd::utf8::encode_utf8(b) =~= vstd::utf8::encode_utf8(
            b,
        ));
    } else {
        let rest = a.drop_first();
        lemma_bytes_concat(rest, b);
        assert((a + b).drop_first() =~= rest + b);
        assert((a + b)[0] == a[0]);
        assert(vstd::utf8::encode_utf8(a + b) =~= vstd::utf8::encode_utf8(a)
            + vstd::utf8::encode_utf8(b));
    }
}

} // verus!
