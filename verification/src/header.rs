//! The header of a post as a mapping of keys to values at the head of the
//! file, parted from the text by a line of dashes.

use vstd::prelude::*;
use vstd::string::StringSliceAdditionalSpecFns;
use crate::bytes::{same_text, slice, sliceable, split, split_from, texts_bytes, trim, trimmed};
use crate::error::FormatError;
use crate::post::Timestamp;
use crate::render::push_char;

verus! {

/// `serde_yaml::Error`, the reason why a text could not be read as YAML.
/// Nothing is known here of what it holds.
#[verifier::external_type_specification]
#[verifier::external_body]
pub struct ExYamlError(serde_yaml::Error);

/// One entry of a mapping, as far as a header is read from it.
#[derive(Debug, Clone, PartialEq, Eq)]
pub struct HeaderEntry {
    /// The key, where it is text.
    pub key: Option<String>,
    /// The value, where it is text.
    pub text: Option<String>,
    /// The value, where it is a sequence: for each item its text, where it
    /// is text.
    pub items: Option<Vec<Option<String>>>,
}

/// The mathematical value of a [`HeaderEntry`].
pub struct HeaderEntryView {
    pub key: Option<Seq<char>>,
    pub text: Option<Seq<char>>,
    pub items: Option<Seq<Option<Seq<char>>>>,
}

/// The characters of a text that may be there.
pub open spec fn optional_chars(text: Option<String>) -> Option<Seq<char>> {
    match text {
        Some(text) => Some(text@),
        None => None,
    }
}

impl View for HeaderEntry {
    type V = HeaderEntryView;

    open spec fn view(&self) -> HeaderEntryView {
        HeaderEntryView {
            key: optional_chars(self.key),
            text: optional_chars(self.text),
            items: match self.items {
                Some(items) => Some(Seq::new(items@.len(), |i: int| optional_chars(items@[i]))),
                None => None,
            },
        }
    }
}

/// The values of entries.
pub open spec fn entries_view(entries: Seq<HeaderEntry>) -> Seq<HeaderEntryView> {
    Seq::new(entries.len(), |i: int| entries[i]@)
}

/// The entries of the mapping that a text is in YAML, in the order of the
/// text, or `None` where the text is no mapping.
pub uninterp spec fn yaml_mapping(text: Seq<char>) -> Option<Seq<HeaderEntryView>>;

/// `serde_yaml::from_str` for a `serde_yaml::Mapping`, and of each entry
/// what `Value::as_str` gives for the key and the value and what
/// `Value::as_sequence` gives for the value. The result depends on the text
/// alone: it is `yaml_mapping` of the text, an error standing for `None`.
#[verifier::external_body]
fn read_mapping(text: &str) -> (result: Result<Vec<HeaderEntry>, serde_yaml::Error>)
    ensures
        result is Ok <==> yaml_mapping(text@) is Some,
        result matches Ok(entries) ==> entries_view(entries@) == yaml_mapping(text@)->0,
{
    let mapping: serde_yaml::Mapping = serde_yaml::from_str(text)?;
    Ok(mapping.iter().map(|(key, value)| HeaderEntry {
        key: key.as_str().map(str::to_owned),
        text: value.as_str().map(str::to_owned),
        items: value.as_sequence().map(|items| {
            items.iter().map(|item| item.as_str().map(str::to_owned)).collect()
        }),
    }).collect())
}

/// The point in time that a text names, or `None` where it names none.
pub uninterp spec fn datetime_of(text: Seq<char>) -> Option<Timestamp>;

/// `str::parse` for a `chrono::DateTime<Utc>`, then `DateTime::timestamp`
/// and `DateTime::timestamp_subsec_nanos`. The result depends on the text
/// alone: it is `datetime_of` the text.
#[verifier::external_body]
fn parse_datetime(text: &str) -> (time: Option<Timestamp>)
    ensures
        time == datetime_of(text@),
{
    text.parse::<chrono::DateTime<chrono::Utc>>().ok().map(|time| Timestamp {
        seconds: time.timestamp(),
        nanos: time.timestamp_subsec_nanos(),
    })
}

/// What the header of a post says of it.
#[derive(Debug, PartialEq, Eq)]
pub struct PostHeader {
    pub title: String,
    pub description: String,
    pub slug: String,
    pub tags: Vec<String>,
    pub published: Timestamp,
    pub last_updated: Timestamp,
}

/// The mathematical value of a [`PostHeader`].
pub struct PostHeaderView {
    pub title: Seq<char>,
    pub description: Seq<char>,
    pub slug: Seq<char>,
    pub tags: Seq<Seq<char>>,
    pub published: Timestamp,
    pub last_updated: Timestamp,
}

impl View for PostHeader {
    type V = PostHeaderView;

    open spec fn view(&self) -> PostHeaderView {
        PostHeaderView {
            title: self.title@,
            description: self.description@,
            slug: self.slug@,
            tags: Seq::new(self.tags@.len(), |i: int| self.tags@[i]@),
            published: self.published,
            last_updated: self.last_updated,
        }
    }
}

impl Default for PostHeader {
    fn default() -> (header: PostHeader)
        ensures
            header@ == PostHeaderView::empty(),
    {
        let header = PostHeader {
            title: String::new(),
            description: String::new(),
            slug: String::new(),
            tags: Vec::new(),
            published: Timestamp { seconds: 0, nanos: 0 },
            last_updated: Timestamp { seconds: 0, nanos: 0 },
        };
        assert(header@.tags =~= Seq::empty());
        header
    }
}

/// A letter in lower case, and any other character as it is.
pub open spec fn lower_char(c: char) -> char {
    if 'A' <= c <= 'Z' {
        ((c as u8) + 32) as char
    } else {
        c
    }
}

/// A text with its letters in lower case.
pub open spec fn lower(text: Seq<char>) -> Seq<char> {
    Seq::new(text.len(), |i: int| lower_char(text[i]))
}

/// The text with its letters in lower case.
pub fn to_lower(text: &str) -> (lowered: String)
    ensures
        lowered@ == lower(text@),
{
    let mut lowered = String::new();
    assert(lowered@ =~= lower(text@.take(0)));
    for c in it: text.chars()
        invariant
            it.seq() == text@,
            lowered@ == lower(text@.take(it.index() as int)),
    {
        let ghost done = text@.take(it.index() as int);
        let ghost next = text@.take(it.index() + 1);
        let l = if 'A' <= c && c <= 'Z' {
            ((c as u8) + 32) as char
        } else {
            c
        };
        push_char(&mut lowered, l);
        assert(lowered@ =~= lower(next));
    }
    assert(text@.take(text@.len() as int) =~= text@);
    lowered
}

/// The texts among the items of a sequence.
pub open spec fn texts_among(items: Seq<Option<Seq<char>>>) -> Seq<Seq<char>>
    decreases items.len(),
{
    if items.len() == 0 {
        Seq::empty()
    } else {
        match items.last() {
            Some(text) => texts_among(items.drop_last()).push(text),
            None => texts_among(items.drop_last()),
        }
    }
}

impl PostHeaderView {
    /// A header that says nothing.
    pub open spec fn empty() -> PostHeaderView {
        PostHeaderView {
            title: Seq::empty(),
            description: Seq::empty(),
            slug: Seq::empty(),
            tags: Seq::empty(),
            published: Timestamp { seconds: 0, nanos: 0 },
            last_updated: Timestamp { seconds: 0, nanos: 0 },
        }
    }

    /// The header after one more entry was read, or the date that the entry
    /// gives and that cannot be read. The key counts without regard to
    /// case. A value of the wrong kind and an unknown key change nothing.
    pub open spec fn with_entry(self, entry: HeaderEntryView) -> Result<PostHeaderView, Seq<char>> {
        match entry.key {
            Some(key) => {
                let key = lower(key);
                if key == "title"@ {
                    Ok(
                        match entry.text {
                            Some(text) => PostHeaderView { title: text, ..self },
                            None => self,
                        },
                    )
                } else if key == "description"@ || key == "desc"@ {
                    Ok(
                        match entry.text {
                            Some(text) => PostHeaderView { description: text, ..self },
                            None => self,
                        },
                    )
                } else if key == "tags"@ {
                    Ok(
                        match entry.items {
                            Some(items) => PostHeaderView { tags: texts_among(items), ..self },
                            None => self,
                        },
                    )
                } else if key == "slug"@ {
                    Ok(
                        match entry.text {
                            Some(text) => PostHeaderView { slug: text, ..self },
                            None => self,
                        },
                    )
                } else if key == "published"@ {
                    match entry.text {
                        Some(text) => match datetime_of(text) {
                            Some(time) => Ok(PostHeaderView { published: time, ..self }),
                            None => Err(text),
                        },
                        None => Ok(self),
                    }
                } else if key == "last_updated"@ || key == "lastUpdated"@ || key == "updated"@ {
                    match entry.text {
                        Some(text) => match datetime_of(text) {
                            Some(time) => Ok(PostHeaderView { last_updated: time, ..self }),
                            None => Err(text),
                        },
                        None => Ok(self),
                    }
                } else {
                    Ok(self)
                }
            },
            None => Ok(self),
        }
    }

    /// The header after the entries were read in order, or the first date
    /// among them that cannot be read.
    pub open spec fn with_entries(self, entries: Seq<HeaderEntryView>) -> Result<
        PostHeaderView,
        Seq<char>,
    >
        decreases entries.len(),
    {
        if entries.len() == 0 {
            Ok(self)
        } else {
            match self.with_entries(entries.drop_last()) {
                Ok(header) => header.with_entry(entries.last()),
                Err(invalid) => Err(invalid),
            }
        }
    }
}

/// Reads a date.
fn read_date(source: &str) -> (result: Result<Timestamp, FormatError>)
    ensures
        match datetime_of(source@) {
            Some(time) => result == Ok::<Timestamp, FormatError>(time),
            None => result matches Err(FormatError::DateTimeParse { invalid }) && invalid@
                == source@,
        },
{
    match parse_datetime(source) {
        Some(time) => Ok(time),
        None => Err(FormatError::DateTimeParse { invalid: source.to_owned() }),
    }
}

/// The texts among `items`, in order.
fn collect_texts(items: &Vec<Option<String>>) -> (texts: Vec<String>)
    ensures
        Seq::new(texts@.len(), |i: int| texts@[i]@) == texts_among(
            Seq::new(items@.len(), |i: int| optional_chars(items@[i])),
        ),
{
    let ghost views = Seq::new(items@.len(), |i: int| optional_chars(items@[i]));
    let mut texts: Vec<String> = Vec::new();
    let mut i: usize = 0;
    assert(Seq::new(texts@.len(), |k: int| texts@[k]@) =~= texts_among(views.take(0)));
    while i < items.len()
        invariant
            i <= items@.len(),
            views == Seq::new(items@.len(), |k: int| optional_chars(items@[k])),
            Seq::new(texts@.len(), |k: int| texts@[k]@) == texts_among(views.take(i as int)),
        decreases items@.len() - i,
    {
        let ghost next = views.take(i + 1);
        let ghost before = Seq::new(texts@.len(), |k: int| texts@[k]@);
        assert(next.drop_last() =~= views.take(i as int));
        assert(next.last() == optional_chars(items@[i as int]));
        if let Some(text) = &items[i] {
            texts.push(text.clone());
            assert(Seq::new(texts@.len(), |k: int| texts@[k]@) =~= before.push(text@));
        }
        i += 1;
    }
    assert(views.take(items@.len() as int) =~= views);
    texts
}

impl PostHeader {
    /// Reads one more entry into the header.
    fn read_entry(&mut self, entry: &HeaderEntry) -> (result: Result<(), FormatError>)
        ensures
            match old(self)@.with_entry(entry@) {
                Ok(header) => result is Ok && final(self)@ == header,
                Err(text) => result matches Err(FormatError::DateTimeParse { invalid }) && invalid@
                    == text,
            },
    {
        let key = match &entry.key {
            Some(key) => to_lower(key.as_str()),
            None => {
                return Ok(());
            },
        };
        let key = key.as_str();
        if same_text(key, "title") {
            if let Some(text) = &entry.text {
                self.title = text.clone();
            }
        } else if same_text(key, "description") || same_text(key, "desc") {
            if let Some(text) = &entry.text {
                self.description = text.clone();
            }
        } else if same_text(key, "tags") {
            if let Some(items) = &entry.items {
                self.tags = collect_texts(items);
            }
        } else if same_text(key, "slug") {
            if let Some(text) = &entry.text {
                self.slug = text.clone();
            }
        } else if same_text(key, "published") {
            if let Some(text) = &entry.text {
                match read_date(text.as_str()) {
                    Ok(time) => {
                        self.published = time;
                    },
                    Err(error) => {
                        return Err(error);
                    },
                }
            }
        } else if same_text(key, "last_updated") || same_text(key, "lastUpdated") || same_text(
            key,
            "updated",
        ) {
            if let Some(text) = &entry.text {
                match read_date(text.as_str()) {
                    Ok(time) => {
                        self.last_updated = time;
                    },
                    Err(error) => {
                        return Err(error);
                    },
                }
            }
        }
        Ok(())
    }

    /// The header that the entries of a mapping give, read in order.
    pub fn from_entries(entries: &Vec<HeaderEntry>) -> (result: Result<PostHeader, FormatError>)
        ensures
            match PostHeaderView::empty().with_entries(entries_view(entries@)) {
                Ok(header) => result matches Ok(read) && read@ == header,
                Err(text) => result matches Err(FormatError::DateTimeParse { invalid }) && invalid@
                    == text,
            },
    {
        let ghost views = entries_view(entries@);
        let mut header = PostHeader::default();
        let mut i: usize = 0;
        while i < entries.len()
            invariant
                i <= entries@.len(),
                views == entries_view(entries@),
                PostHeaderView::empty().with_entries(views.take(i as int)) == Ok::<
                    PostHeaderView,
                    Seq<char>,
                >(header@),
            decreases entries@.len() - i,
        {
            let ghost next = views.take(i + 1);
            assert(next.drop_last() =~= views.take(i as int));
            assert(next.last() == entries@[i as int]@);
            match header.read_entry(&entries[i]) {
                Ok(()) => {},
                Err(error) => {
                    proof {
                        lemma_entries_fail(PostHeaderView::empty(), views, i + 1);
                    }
                    return Err(error);
                },
            }
            i += 1;
        }
        assert(views.take(entries@.len() as int) =~= views);
        Ok(header)
    }

    /// The header that `source` gives: the mapping that it is in YAML, read
    /// entry by entry. White space around the source does not count.
    pub fn parse(source: &str) -> (result: Result<PostHeader, FormatError>)
        ensures
            match yaml_mapping(vstd::utf8::decode_utf8(trimmed(source.spec_bytes()))) {
                Some(entries) => match PostHeaderView::empty().with_entries(entries) {
                    Ok(header) => result matches Ok(read) && read@ == header,
                    Err(text) => result matches Err(FormatError::DateTimeParse { invalid })
                        && invalid@ == text,
                },
                None => result == Err::<PostHeader, FormatError>(FormatError::Yaml),
            },
    {
        let inner = trim(source);
        proof {
            vstd::utf8::encode_utf8_decode_utf8(inner@);
        }
        match read_mapping(inner) {
            Ok(entries) => PostHeader::from_entries(&entries),
            Err(_) => Err(FormatError::Yaml),
        }
    }
}

/// Entries of which a first part cannot be read cannot be read as a whole,
/// for the same reason.
pub proof fn lemma_entries_fail(start: PostHeaderView, entries: Seq<HeaderEntryView>, n: int)
    requires
        0 <= n <= entries.len(),
        start.with_entries(entries.take(n)) is Err,
    ensures
        start.with_entries(entries) == start.with_entries(entries.take(n)),
    decreases entries.len(),
{
    if n == entries.len() {
        assert(entries.take(n) =~= entries);
    } else {
        assert(entries.drop_last().take(n) =~= entries.take(n));
        lemma_entries_fail(start, entries.drop_last(), n);
    }
}

/// The header that a piece of a post gives, if it gives one.
pub open spec fn header_of(piece: Seq<u8>) -> Option<PostHeaderView> {
    match yaml_mapping(vstd::utf8::decode_utf8(trimmed(piece))) {
        Some(entries) => match PostHeaderView::empty().with_entries(entries) {
            Ok(header) => Some(header),
            Err(_) => None,
        },
        None => None,
    }
}

/// The line of dashes that parts a post.
pub open spec fn dashes() -> Seq<u8> {
    seq![45u8, 45u8, 45u8]
}

/// The first piece at or behind `from` that is more than white space, or
/// the number of pieces where there is none.
pub open spec fn first_content(pieces: Seq<Seq<u8>>, from: int) -> int
    decreases pieces.len() - from,
{
    if from < 0 || from >= pieces.len() {
        pieces.len() as int
    } else if trimmed(pieces[from]).len() > 0 {
        from
    } else {
        first_content(pieces, from + 1)
    }
}

/// The first piece at or behind `from` that gives a header.
pub open spec fn first_header(pieces: Seq<Seq<u8>>, from: int) -> Option<int>
    decreases pieces.len() - from,
{
    if from < 0 || from >= pieces.len() {
        None
    } else if header_of(pieces[from]) is Some {
        Some(from)
    } else {
        first_header(pieces, from + 1)
    }
}

/// The length of the first `count` pieces together, without the white space
/// around each.
pub open spec fn trimmed_length(pieces: Seq<Seq<u8>>, count: int) -> int
    decreases count,
{
    if count <= 0 || count > pieces.len() {
        0
    } else {
        trimmed_length(pieces, count - 1) + trimmed(pieces[count - 1]).len()
    }
}

/// A post parted into its header and its text.
pub struct Parted {
    pub header: Option<PostHeaderView>,
    pub text: Seq<u8>,
}

/// A post parted into its header and its text. The post is cut at each line
/// of dashes. A post of one piece has no header. In a post of two pieces the
/// first is the header, if it gives one, and the second, without the white
/// space around it, the text. In a post of more pieces the header is the
/// first piece that gives one, pieces of white space at the beginning not
/// counted; the text begins as many bytes into the post as the pieces up to
/// the header are long. Where no piece gives a header, or the text would not
/// begin between two characters, the whole post is the text.
pub open spec fn parted(content: Seq<u8>) -> Parted {
    let pieces = split_from(content, dashes(), 0);
    let whole = Parted { header: None, text: content };
    if pieces.len() <= 1 {
        whole
    } else if pieces.len() == 2 {
        match header_of(pieces[0]) {
            Some(header) => Parted { header: Some(header), text: trimmed(pieces[1]) },
            None => whole,
        }
    } else {
        match first_header(pieces, first_content(pieces, 0)) {
            Some(at) => {
                let offset = trimmed_length(pieces, at + 1);
                if sliceable(content, offset, content.len() as int) {
                    Parted {
                        header: header_of(pieces[at]),
                        text: content.subrange(offset, content.len() as int),
                    }
                } else {
                    whole
                }
            },
            None => whole,
        }
    }
}

/// The value of a header that may be there.
pub open spec fn optional_header(header: Option<PostHeader>) -> Option<PostHeaderView> {
    match header {
        Some(header) => Some(header@),
        None => None,
    }
}

/// The header that `piece` gives, if it gives one.
fn read_header(piece: &str) -> (header: Option<PostHeader>)
    ensures
        optional_header(header) == header_of(piece.spec_bytes()),
{
    match PostHeader::parse(piece) {
        Ok(header) => Some(header),
        Err(_) => None,
    }
}

/// Parts a post into its header and its text.
#[verifier::loop_isolation(false)]
pub fn part_post(content: &str) -> (found: (Option<PostHeader>, &str))
    ensures
        optional_header(found.0) == parted(content.spec_bytes()).header,
        found.1.spec_bytes() == parted(content.spec_bytes()).text,
{
    proof {
        reveal_strlit("---");
        crate::event::lemma_ascii_bytes("---"@);
        assert("---".spec_bytes() =~= dashes());
    }
    let pieces = split(content, "---");
    let ghost parts = texts_bytes(pieces@);
    let count = pieces.len();
    let size = content.as_bytes().len();
    if count <= 1 {
        return (None, content);
    }
    if count == 2 {
        assert(parts[0] == pieces@[0].spec_bytes());
        assert(parts[1] == pieces@[1].spec_bytes());
        return match read_header(pieces[0]) {
            Some(header) => (Some(header), trim(pieces[1])),
            None => (None, content),
        };
    }
    let mut i: usize = 0;
    let mut offset: usize = 0;
    while i < count && trim(pieces[i]).as_bytes().len() == 0
        invariant
            i <= count,
            count == pieces@.len(),
            parts == texts_bytes(pieces@),
            first_content(parts, 0) == first_content(parts, i as int),
            offset == trimmed_length(parts, i as int),
            offset == 0,
        decreases count - i,
    {
        assert(parts[i as int] == pieces@[i as int].spec_bytes());
        i += 1;
    }
    proof {
        if i < count {
            assert(parts[i as int] == pieces@[i as int].spec_bytes());
        }
    }
    let ghost begin = i as int;
    while i < count
        invariant
            begin <= i <= count,
            count == pieces@.len(),
            parts == texts_bytes(pieces@),
            first_header(parts, begin) == first_header(parts, i as int),
            offset == trimmed_length(parts, i as int),
            begin == first_content(parts, 0),
        decreases count - i,
    {
        assert(parts[i as int] == pieces@[i as int].spec_bytes());
        let length = trim(pieces[i]).as_bytes().len();
        let header = read_header(pieces[i]);
        if header.is_some() {
            proof {
                lemma_trimmed_length_fits(content.spec_bytes(), i + 1);
                assert(trimmed_length(parts, i + 1) == offset + length);
                assert(first_header(parts, i as int) == Some(i as int));
            }
            return match offset.checked_add(length) {
                Some(start) => match slice(content, start, size) {
                    Some(text) => (header, text),
                    None => (None, content),
                },
                None => (None, content),
            };
        }
        offset = match offset.checked_add(length) {
            Some(next) => next,
            None => {
                proof {
                    lemma_trimmed_length_fits(content.spec_bytes(), i + 1);
                    assert(trimmed_length(parts, i + 1) == offset + length);
                    assert(false);
                }
                return (None, content);
            },
        };
        i += 1;
    }
    (None, content)
}

/// The pieces of a text are together no longer than the text.
pub proof fn lemma_trimmed_length_fits(content: Seq<u8>, count: int)
    requires
        0 <= count <= split_from(content, dashes(), 0).len(),
    ensures
        trimmed_length(split_from(content, dashes(), 0), count) <= content.len(),
{
    lemma_pieces_fit(content, 0, count);
}

/// The length of bytes without the white space around them is no more than
/// their length.
pub proof fn lemma_trimmed_shorter(bytes: Seq<u8>)
    ensures
        trimmed(bytes).len() <= bytes.len(),
{
    lemma_leading_bound(bytes);
    lemma_trailing_bound(bytes.skip(crate::bytes::leading_white(bytes)));
}

proof fn lemma_leading_bound(bytes: Seq<u8>)
    ensures
        0 <= crate::bytes::leading_white(bytes) <= bytes.len(),
    decreases bytes.len(),
{
    if bytes.len() > 0 && crate::bytes::is_white(bytes[0]) {
        lemma_leading_bound(bytes.skip(1));
    }
}

proof fn lemma_trailing_bound(bytes: Seq<u8>)
    ensures
        0 <= crate::bytes::trailing_white(bytes) <= bytes.len(),
    decreases bytes.len(),
{
    if bytes.len() > 0 && crate::bytes::is_white(bytes.last()) {
        lemma_trailing_bound(bytes.drop_last());
    }
}

proof fn lemma_pieces_fit(content: Seq<u8>, from: int, count: int)
    requires
        0 <= from <= content.len(),
        0 <= count <= split_from(content, dashes(), from).len(),
    ensures
        trimmed_length(split_from(content, dashes(), from), count) <= content.len() - from,
    decreases count,
{
    let pieces = split_from(content, dashes(), from);
    if count > 0 {
        lemma_pieces_fit(content, from, count - 1);
        lemma_piece_ends(content, from, count - 1);
        lemma_trimmed_shorter(pieces[count - 1]);
        lemma_prefix_room(content, from, count - 1);
    }
}

/// The piece at place `at` is no longer than what is left of the text
/// behind the pieces before it.
proof fn lemma_piece_ends(content: Seq<u8>, from: int, at: int)
    requires
        0 <= from <= content.len(),
        0 <= at < split_from(content, dashes(), from).len(),
    ensures
        raw_length(split_from(content, dashes(), from), at + 1) <= content.len() - from,
    decreases content.len() - from + 1,
{
    let pieces = split_from(content, dashes(), from);
    crate::bytes::lemma_find_from(content, dashes(), from);
    match crate::bytes::find_from(content, dashes(), from) {
        Some(found) => {
            let rest = split_from(content, dashes(), found + 3);
            assert(pieces =~= seq![content.subrange(from, found)] + rest);
            if at > 0 {
                lemma_piece_ends(content, found + 3, at - 1);
                lemma_raw_length_shift(content.subrange(from, found), rest, at);
            } else {
                assert(raw_length(pieces, 0) == 0);
            }
        },
        None => {
            assert(pieces =~= seq![content.subrange(from, content.len() as int)]);
            assert(raw_length(pieces, 0) == 0);
        },
    }
}

/// The length of the first `count` pieces together.
pub open spec fn raw_length(pieces: Seq<Seq<u8>>, count: int) -> int
    decreases count,
{
    if count <= 0 || count > pieces.len() {
        0
    } else {
        raw_length(pieces, count - 1) + pieces[count - 1].len()
    }
}

proof fn lemma_raw_length_shift(first: Seq<u8>, rest: Seq<Seq<u8>>, count: int)
    requires
        0 <= count <= rest.len(),
    ensures
        raw_length(seq![first] + rest, count + 1) == first.len() + raw_length(rest, count),
    decreases count,
{
    let all = seq![first] + rest;
    if count > 0 {
        lemma_raw_length_shift(first, rest, count - 1);
        assert(all[count] == rest[count - 1]);
    } else {
        assert(all[0] == first);
        assert(raw_length(all, 0) == 0);
    }
}

/// Pieces without the white space around them are together no longer than
/// they are with it.
proof fn lemma_prefix_room(content: Seq<u8>, from: int, count: int)
    requires
        0 <= count <= split_from(content, dashes(), from).len(),
    ensures
        trimmed_length(split_from(content, dashes(), from), count) <= raw_length(
            split_from(content, dashes(), from),
            count,
        ),
    decreases count,
{
    let pieces = split_from(content, dashes(), from);
    if count > 0 {
        lemma_prefix_room(content, from, count - 1);
        lemma_trimmed_shorter(pieces[count - 1]);
    }
}

} // verus!
