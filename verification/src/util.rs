//! Random identifiers.

use vstd::prelude::*;
use crate::render::push_char;

verus! {

/// The characters that identifiers are made of: the letters of both cases
/// and the digits.
pub open spec fn charset() -> Seq<char> {
    "ABCDEFGHIJKLMNOPQRSTUVWXYZabcdefghijklmnopqrstuvwxyz0123456789"@
}

/// Whether `id` can stand as the identifier of an element: eight characters
/// of the character set.
pub open spec fn is_identifier(id: Seq<char>) -> bool {
    id.len() == 8 && forall|i: int| 0 <= i < id.len() ==> charset().contains(#[trigger] id[i])
}

/// One draw from the thread's random number generator, by `rand::thread_rng`
/// and `Rng::gen_range` on the range from zero to `bound`: some number below
/// `bound`. Which one is not known. An empty range is left out, as
/// `gen_range` panics on it.
#[verifier::external_body]
fn random_below(bound: usize) -> (n: usize)
    requires
        bound > 0,
    ensures
        n < bound,
{
    rand::Rng::gen_range(&mut rand::thread_rng(), 0..bound)
}

/// A string of `length` characters drawn at random from the character set.
pub fn random_string(length: usize) -> (text: String)
    ensures
        text@.len() == length,
        forall|i: int| 0 <= i < text@.len() ==> charset().contains(#[trigger] text@[i]),
{
    let alphabet = "ABCDEFGHIJKLMNOPQRSTUVWXYZabcdefghijklmnopqrstuvwxyz0123456789";
    proof {
        reveal_strlit("ABCDEFGHIJKLMNOPQRSTUVWXYZabcdefghijklmnopqrstuvwxyz0123456789");
    }
    let mut text = String::new();
    let mut i: usize = 0;
    while i < length
        invariant
            i <= length,
            alphabet@ == charset(),
            alphabet@.len() == 62,
            text@.len() == i,
            forall|k: int| 0 <= k < text@.len() ==> charset().contains(#[trigger] text@[k]),
        decreases length - i,
    {
        let index = random_below(62);
        let c = alphabet.get_char(index);
        assert(charset()[index as int] == c);
        push_char(&mut text, c);
        i += 1;
    }
    text
}

/// A random identifier.
pub fn random_id() -> (id: String)
    ensures
        is_identifier(id@),
{
    random_string(8)
}

/// The first place at which something was found, if it was found anywhere.
pub open spec fn first_found(found: Seq<bool>) -> Option<int>
    decreases found.len(),
{
    if found.len() == 0 {
        None
    } else if found[0] {
        Some(0)
    } else {
        match first_found(found.skip(1)) {
            Some(at) => Some(at + 1),
            None => None,
        }
    }
}

/// The path of a program, given the places at which it may lie and, for
/// each of them, whether it was found there: the first place at which it was
/// found.
pub fn program_path(candidates: &Vec<String>, found: &Vec<bool>) -> (path: Option<String>)
    requires
        candidates@.len() == found@.len(),
    ensures
        match first_found(found@) {
            Some(at) => path matches Some(path) && path@ == candidates@[at]@,
            None => path is None,
        },
{
    let mut i: usize = 0;
    assert(found@.skip(0) =~= found@);
    while i < found.len()
        invariant
            i <= found@.len(),
            candidates@.len() == found@.len(),
            first_found(found@) == (match first_found(found@.skip(i as int)) {
                Some(at) => Some(at + i),
                None => None,
            }),
        decreases found@.len() - i,
    {
        assert(found@.skip(i as int).skip(1) =~= found@.skip(i + 1));
        if found[i] {
            return Some(candidates[i].clone());
        }
        i += 1;
    }
    None
}

} // verus!
