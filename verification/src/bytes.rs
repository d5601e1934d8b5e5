//! Searching and slicing text by bytes.

use vstd::prelude::*;
use vstd::string::StringSliceAdditionalSpecFns;
use vstd::utf8::{is_char_boundary, is_continuation_byte, pop_first_scalar, valid_utf8};

verus! {

/// Whether `needle` stands in `hay` at position `at`.
pub open spec fn occurs_at(hay: Seq<u8>, needle: Seq<u8>, at: int) -> bool {
    0 <= at && at + needle.len() <= hay.len() && hay.subrange(at, at + needle.len()) == needle
}

/// The first position at or behind `from` at which `needle` stands in `hay`.
pub open spec fn find_from(hay: Seq<u8>, needle: Seq<u8>, from: int) -> Option<int>
    decreases hay.len() - from + 1,
{
    if from < 0 || from + needle.len() > hay.len() {
        None
    } else if occurs_at(hay, needle, from) {
        Some(from)
    } else {
        find_from(hay, needle, from + 1)
    }
}

/// The last position at or behind `from`, and at or before `at`, at which
/// `needle` stands in `hay`.
pub open spec fn rfind_down(hay: Seq<u8>, needle: Seq<u8>, from: int, at: int) -> Option<int>
    decreases at - from + 1,
{
    if at < from || from < 0 {
        None
    } else if occurs_at(hay, needle, at) {
        Some(at)
    } else {
        rfind_down(hay, needle, from, at - 1)
    }
}

/// The last position at or behind `from` at which `needle` stands in `hay`.
pub open spec fn rfind_from(hay: Seq<u8>, needle: Seq<u8>, from: int) -> Option<int> {
    rfind_down(hay, needle, from, hay.len() - needle.len())
}

/// What `find_from` finds is the first occurrence: the needle stands there
/// and nowhere between `from` and there. Where it finds nothing, the needle
/// stands nowhere at or behind `from`.
pub proof fn lemma_find_from(hay: Seq<u8>, needle: Seq<u8>, from: int)
    requires
        0 <= from,
    ensures
        match find_from(hay, needle, from) {
            Some(at) => from <= at && occurs_at(hay, needle, at) && forall|i: int|
                from <= i < at ==> !occurs_at(hay, needle, i),
            None => forall|i: int| from <= i ==> !occurs_at(hay, needle, i),
        },
    decreases hay.len() - from + 1,
{
    if from + needle.len() > hay.len() {
    } else if occurs_at(hay, needle, from) {
    } else {
        lemma_find_from(hay, needle, from + 1);
    }
}

/// What `rfind_from` finds is the last occurrence at or behind `from`.
pub proof fn lemma_rfind_from(hay: Seq<u8>, needle: Seq<u8>, from: int)
    requires
        0 <= from,
    ensures
        match rfind_from(hay, needle, from) {
            Some(at) => from <= at && occurs_at(hay, needle, at) && forall|i: int|
                at < i ==> !occurs_at(hay, needle, i),
            None => forall|i: int| from <= i ==> !occurs_at(hay, needle, i),
        },
{
    lemma_rfind_down(hay, needle, from, hay.len() - needle.len());
}

proof fn lemma_rfind_down(hay: Seq<u8>, needle: Seq<u8>, from: int, at: int)
    requires
        0 <= from,
        at <= hay.len() - needle.len(),
    ensures
        match rfind_down(hay, needle, from, at) {
            Some(found) => from <= found <= at && occurs_at(hay, needle, found) && forall|i: int|
                found < i <= at ==> !occurs_at(hay, needle, i),
            None => forall|i: int| from <= i <= at ==> !occurs_at(hay, needle, i),
        },
    decreases at - from + 1,
{
    if at < from {
    } else if occurs_at(hay, needle, at) {
    } else {
        lemma_rfind_down(hay, needle, from, at - 1);
    }
}

/// Whether `needle` stands in `hay` at position `at`.
pub fn matches_at(hay: &[u8], needle: &[u8], at: usize) -> (found: bool)
    requires
        at + needle@.len() <= hay@.len(),
    ensures
        found == occurs_at(hay@, needle@, at as int),
{
    let size = needle.len();
    let limit = hay.len();
    let mut k: usize = 0;
    while k < size
        invariant
            k <= size,
            size == needle@.len(),
            limit == hay@.len(),
            at + size <= limit,
            forall|j: int| 0 <= j < k ==> hay@[at + j] == needle@[j],
        decreases size - k,
    {
        if hay[at + k] != needle[k] {
            assert(hay@.subrange(at as int, at + needle@.len())[k as int] != needle@[k as int]);
            return false;
        }
        k += 1;
    }
    assert(hay@.subrange(at as int, at + needle@.len()) =~= needle@);
    true
}

/// The first position at or behind `from` at which `needle` stands in the
/// first `limit` bytes of `hay`.
pub fn find(hay: &[u8], needle: &[u8], from: usize, limit: usize) -> (found: Option<usize>)
    requires
        limit <= hay@.len(),
    ensures
        found is Some <==> find_from(hay@.subrange(0, limit as int), needle@, from as int) is Some,
        found is Some ==> found->0 as int == find_from(
            hay@.subrange(0, limit as int),
            needle@,
            from as int,
        )->0,
{
    let ghost window = hay@.subrange(0, limit as int);
    if needle.len() > limit {
        return None;
    }
    let last = limit - needle.len();
    let mut at = from;
    while at <= last
        invariant
            from <= at,
            limit <= hay@.len(),
            window == hay@.subrange(0, limit as int),
            last == limit - needle@.len(),
            find_from(window, needle@, from as int) == find_from(window, needle@, at as int),
        decreases last - at,
    {
        assert(window.subrange(at as int, at + needle@.len()) =~= hay@.subrange(
            at as int,
            at + needle@.len(),
        ));
        if matches_at(hay, needle, at) {
            return Some(at);
        }
        if at == last {
            assert(find_from(window, needle@, at + 1) is None);
            return None;
        }
        at += 1;
    }
    None
}

/// The last position at or behind `from` at which `needle` stands in `hay`.
pub fn rfind(hay: &[u8], needle: &[u8], from: usize) -> (found: Option<usize>)
    ensures
        found is Some <==> rfind_from(hay@, needle@, from as int) is Some,
        found is Some ==> found->0 as int == rfind_from(hay@, needle@, from as int)->0,
{
    if needle.len() > hay.len() {
        return None;
    }
    let mut at = hay.len() - needle.len();
    while at >= from
        invariant
            at <= hay@.len() - needle@.len(),
            rfind_from(hay@, needle@, from as int) == rfind_down(
                hay@,
                needle@,
                from as int,
                at as int,
            ),
        decreases at,
    {
        if matches_at(hay, needle, at) {
            return Some(at);
        }
        if at == 0 {
            assert(rfind_down(hay@, needle@, from as int, -1) is None);
            return None;
        }
        at -= 1;
    }
    None
}

/// Whether two runs of bytes are the same.
pub fn same_bytes(a: &[u8], b: &[u8]) -> (same: bool)
    ensures
        same == (a@ == b@),
{
    if a.len() != b.len() {
        return false;
    }
    let mut k: usize = 0;
    while k < a.len()
        invariant
            k <= a@.len(),
            a@.len() == b@.len(),
            forall|j: int| 0 <= j < k ==> a@[j] == b@[j],
        decreases a@.len() - k,
    {
        if a[k] != b[k] {
            return false;
        }
        k += 1;
    }
    assert(a@ =~= b@);
    true
}

/// Whether the bytes from `start` to `end` of `bytes` are a piece of text of
/// their own: the range lies within `bytes` and begins and ends between
/// characters.
pub open spec fn sliceable(bytes: Seq<u8>, start: int, end: int) -> bool {
    0 <= start <= end <= bytes.len() && is_char_boundary(bytes, start) && is_char_boundary(
        bytes,
        end,
    )
}

/// A place between characters of a text is also one in the text up to a
/// later such place.
pub proof fn lemma_boundary_in_prefix(bytes: Seq<u8>, start: int, end: int)
    requires
        valid_utf8(bytes),
        0 <= start <= end <= bytes.len(),
        is_char_boundary(bytes, end),
    ensures
        valid_utf8(bytes.subrange(0, end)),
        is_char_boundary(bytes.subrange(0, end), start) == is_char_boundary(bytes, start),
{
    let prefix = bytes.subrange(0, end);
    vstd::utf8::valid_utf8_split(bytes, end);
    if start == end {
        vstd::utf8::is_char_boundary_start_end_of_seq(prefix);
        assert(is_char_boundary(prefix, prefix.len() as int));
    } else {
        vstd::utf8::is_char_boundary_iff_not_is_continuation_byte(bytes, start);
        vstd::utf8::is_char_boundary_iff_not_is_continuation_byte(prefix, start);
    }
}

/// The text from byte `start` to byte `end` of `text`, where that is a piece
/// of text of its own.
pub fn slice(text: &str, start: usize, end: usize) -> (piece: Option<&str>)
    ensures
        piece is Some <==> sliceable(text.spec_bytes(), start as int, end as int),
        piece is Some ==> piece->0.spec_bytes() == text.spec_bytes().subrange(
            start as int,
            end as int,
        ),
{
    proof {
        vstd::utf8::encode_utf8_valid_utf8(text@);
    }
    if start <= end && end <= text.as_bytes().len() && text.is_char_boundary(end) {
        proof {
            lemma_boundary_in_prefix(text.spec_bytes(), start as int, end as int);
        }
        let head = text.split_at(end).0;
        if head.is_char_boundary(start) {
            let piece = head.split_at(start).1;
            assert(piece.spec_bytes() =~= text.spec_bytes().subrange(start as int, end as int));
            Some(piece)
        } else {
            None
        }
    } else {
        None
    }
}

/// An ASCII character in a text begins and ends between characters.
pub proof fn lemma_ascii_boundaries(bytes: Seq<u8>, at: int)
    requires
        valid_utf8(bytes),
        0 <= at < bytes.len(),
        bytes[at] < 0x80,
    ensures
        is_char_boundary(bytes, at),
        is_char_boundary(bytes, at + 1),
{
    vstd::utf8::is_char_boundary_iff_not_is_continuation_byte(bytes, at);
    if at + 1 == bytes.len() {
        vstd::utf8::is_char_boundary_start_end_of_seq(bytes);
    } else {
        let tail = bytes.subrange(at, bytes.len() as int);
        vstd::utf8::valid_utf8_split(bytes, at);
        assert(tail[0] == bytes[at]);
        assert(valid_utf8(tail));
        let rest = pop_first_scalar(tail);
        assert(valid_utf8(rest));
        assert(rest =~= bytes.subrange(at + 1, bytes.len() as int));
        assert(rest[0] == bytes[at + 1]);
        assert(!is_continuation_byte(rest[0]));
        vstd::utf8::is_char_boundary_iff_not_is_continuation_byte(bytes, at + 1);
    }
}

/// Whether two texts are the same.
pub fn same_text(a: &str, b: &str) -> (same: bool)
    ensures
        same == (a@ == b@),
{
    proof {
        vstd::utf8::encode_utf8_decode_utf8(a@);
        vstd::utf8::encode_utf8_decode_utf8(b@);
    }
    same_bytes(a.as_bytes(), b.as_bytes())
}

/// Whether every byte of `bytes` is an ASCII character.
pub open spec fn all_ascii(bytes: Seq<u8>) -> bool {
    forall|i: int| 0 <= i < bytes.len() ==> #[trigger] bytes[i] < 0x80
}

/// The pieces of `bytes` between the occurrences of `separator`, from
/// position `from` on. The occurrences are taken from the left and do not
/// overlap.
pub open spec fn split_from(bytes: Seq<u8>, separator: Seq<u8>, from: int) -> Seq<Seq<u8>>
    decreases bytes.len() - from + 1,
{
    if separator.len() == 0 || from < 0 || from > bytes.len() {
        Seq::empty()
    } else {
        match find_from(bytes, separator, from) {
            Some(at) => if from <= at && at + separator.len() <= bytes.len() {
                seq![bytes.subrange(from, at)] + split_from(
                    bytes,
                    separator,
                    at + separator.len(),
                )
            } else {
                Seq::empty()
            },
            None => seq![bytes.subrange(from, bytes.len() as int)],
        }
    }
}

/// The bytes of texts.
pub open spec fn texts_bytes(texts: Seq<&str>) -> Seq<Seq<u8>> {
    Seq::new(texts.len(), |i: int| texts[i].spec_bytes())
}

/// The pieces of `text` between the occurrences of `separator`.
pub fn split<'a>(text: &'a str, separator: &str) -> (pieces: Vec<&'a str>)
    requires
        separator.spec_bytes().len() > 0,
        all_ascii(separator.spec_bytes()),
    ensures
        texts_bytes(pieces@) == split_from(text.spec_bytes(), separator.spec_bytes(), 0),
        pieces@.len() > 0,
{
    let bytes = text.as_bytes();
    let mark = separator.as_bytes();
    let ghost all = text.spec_bytes();
    let size = bytes.len();
    let width = mark.len();
    let mut pieces: Vec<&'a str> = Vec::new();
    let mut from: usize = 0;
    proof {
        vstd::utf8::encode_utf8_valid_utf8(text@);
        vstd::utf8::is_char_boundary_start_end_of_seq(all);
        assert(all.subrange(0, size as int) =~= all);
    }
    loop
        invariant
            from <= size,
            size == all.len(),
            all == text.spec_bytes(),
            bytes@ == all,
            mark@ == separator.spec_bytes(),
            width == mark@.len(),
            width > 0,
            all_ascii(mark@),
            valid_utf8(all),
            is_char_boundary(all, from as int),
            is_char_boundary(all, size as int),
            all.subrange(0, size as int) == all,
            split_from(all, mark@, 0) == texts_bytes(pieces@) + split_from(all, mark@, from as int),
        decreases size - from,
    {
        proof {
            lemma_find_from(all, mark@, from as int);
        }
        let ghost before = pieces@;
        match find(bytes, mark, from, size) {
            Some(at) => {
                proof {
                    assert(all.subrange(at as int, at + width)[0] == mark@[0]);
                    assert(all.subrange(at as int, at + width)[width - 1] == mark@[width - 1]);
                    lemma_ascii_boundaries(all, at as int);
                    lemma_ascii_boundaries(all, at + width - 1);
                }
                let piece = slice(text, from, at).unwrap();
                pieces.push(piece);
                proof {
                    assert(texts_bytes(pieces@) =~= texts_bytes(before).push(piece.spec_bytes()));
                    assert(texts_bytes(before) + (seq![all.subrange(from as int, at as int)]
                        + split_from(all, mark@, at + width)) =~= texts_bytes(pieces@)
                        + split_from(all, mark@, at + width));
                }
                from = at + width;
            },
            None => {
                let piece = slice(text, from, size).unwrap();
                pieces.push(piece);
                proof {
                    assert(texts_bytes(pieces@) =~= texts_bytes(before).push(piece.spec_bytes()));
                    assert(texts_bytes(before) + seq![all.subrange(from as int, size as int)]
                        =~= texts_bytes(pieces@));
                }
                return pieces;
            },
        }
    }
}

/// Whether a byte is ASCII white space.
pub open spec fn is_white(byte: u8) -> bool {
    (9 <= byte <= 13) || byte == 32
}

/// The number of bytes of white space that `bytes` begins with.
pub open spec fn leading_white(bytes: Seq<u8>) -> int
    decreases bytes.len(),
{
    if bytes.len() > 0 && is_white(bytes[0]) {
        1 + leading_white(bytes.skip(1))
    } else {
        0
    }
}

/// The number of bytes of white space that `bytes` ends with.
pub open spec fn trailing_white(bytes: Seq<u8>) -> int
    decreases bytes.len(),
{
    if bytes.len() > 0 && is_white(bytes.last()) {
        1 + trailing_white(bytes.drop_last())
    } else {
        0
    }
}

/// The bytes without the white space that they begin and end with.
pub open spec fn trimmed(bytes: Seq<u8>) -> Seq<u8> {
    let rest = bytes.skip(leading_white(bytes));
    rest.take(rest.len() - trailing_white(rest))
}

/// The number of bytes of white space that `bytes` begins with.
pub fn count_leading_white(bytes: &[u8]) -> (count: usize)
    ensures
        count == leading_white(bytes@),
        count <= bytes@.len(),
        forall|i: int| 0 <= i < count ==> is_white(#[trigger] bytes@[i]),
{
    let mut i: usize = 0;
    assert(bytes@.skip(0) =~= bytes@);
    while i < bytes.len() && ((9 <= bytes[i] && bytes[i] <= 13) || bytes[i] == 32)
        invariant
            i <= bytes@.len(),
            leading_white(bytes@) == i + leading_white(bytes@.skip(i as int)),
            forall|k: int| 0 <= k < i ==> is_white(#[trigger] bytes@[k]),
        decreases bytes@.len() - i,
    {
        assert(bytes@.skip(i as int).skip(1) =~= bytes@.skip(i + 1));
        i += 1;
    }
    i
}

/// The number of bytes of white space that the bytes from `from` on end
/// with.
pub fn count_trailing_white(bytes: &[u8], from: usize) -> (count: usize)
    requires
        from <= bytes@.len(),
    ensures
        count == trailing_white(bytes@.skip(from as int)),
        count <= bytes@.len() - from,
        forall|i: int| bytes@.len() - count <= i < bytes@.len() ==> is_white(#[trigger] bytes@[i]),
{
    let ghost rest = bytes@.skip(from as int);
    let mut end = bytes.len();
    assert(rest.take(end - from) =~= rest);
    while end > from && ((9 <= bytes[end - 1] && bytes[end - 1] <= 13) || bytes[end - 1] == 32)
        invariant
            from <= end <= bytes@.len(),
            rest == bytes@.skip(from as int),
            trailing_white(rest) == bytes@.len() - end + trailing_white(rest.take(end - from)),
            forall|k: int| end <= k < bytes@.len() ==> is_white(#[trigger] bytes@[k]),
        decreases end,
    {
        assert(rest.take(end - from).drop_last() =~= rest.take(end - from - 1));
        assert(rest.take(end - from).last() == bytes@[end - 1]);
        end -= 1;
    }
    proof {
        if end > from {
            assert(rest.take(end - from).last() == bytes@[end - 1]);
        }
    }
    bytes.len() - end
}

/// The text without the white space that it begins and ends with.
pub fn trim(text: &str) -> (inner: &str)
    ensures
        inner.spec_bytes() == trimmed(text.spec_bytes()),
{
    let bytes = text.as_bytes();
    let ghost all = text.spec_bytes();
    let size = bytes.len();
    let start = count_leading_white(bytes);
    let tail = count_trailing_white(bytes, start);
    let end = size - tail;
    proof {
        vstd::utf8::encode_utf8_valid_utf8(text@);
        vstd::utf8::is_char_boundary_start_end_of_seq(all);
        if start > 0 {
            lemma_ascii_boundaries(all, start - 1);
        }
        if end < size {
            lemma_ascii_boundaries(all, end as int);
        }
        assert(all.subrange(start as int, end as int) =~= trimmed(all));
    }
    slice(text, start, end).unwrap()
}

} // verus!
