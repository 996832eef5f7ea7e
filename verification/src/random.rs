//! Random strings over an alphabet.
use crate::text::{push_char, to_chars};
use rand::Rng;
use vstd::prelude::*;

verus! {

/// The least length of a random value whose length was not given.
pub const MIN_RANDOM_LENGTH: usize = 64;

/// The greatest length of a random value whose length was not given.
pub const MAX_RANDOM_LENGTH: usize = 128;

/// Whether `value` can be drawn from `alphabet`: every character of it occurs in `alphabet`.
pub open spec fn drawn_from(value: Seq<char>, alphabet: Seq<char>) -> bool {
    forall|i: int| 0 <= i < value.len() ==> alphabet.contains(#[trigger] value[i])
}

/// A random number between `low` and `high`, both included.
///
/// Trusted: wraps `rand::thread_rng` and `rand::Rng::gen_range` on the range
/// `low..=high`. `gen_range` panics on an empty range, which `requires`
/// excludes, and returns a value inside the range. Nothing is claimed about
/// how the values are distributed.
#[verifier::external_body]
fn random_between(low: usize, high: usize) -> (r: usize)
    requires
        low <= high,
    ensures
        low <= r <= high,
{
    rand::thread_rng().gen_range(low..=high)
}

/// A random length for a value whose length was not given.
pub fn random_length() -> (r: usize)
    ensures
        MIN_RANDOM_LENGTH <= r <= MAX_RANDOM_LENGTH,
{
    random_between(MIN_RANDOM_LENGTH, MAX_RANDOM_LENGTH)
}

/// A random string of `length` characters of `alphabet`; `None` where the
/// alphabet is empty and a character is needed.
pub fn random_string(alphabet: &str, length: usize) -> (r: Option<String>)
    ensures
        r is None <==> alphabet@.len() == 0 && length > 0,
        r matches Some(value) ==> value@.len() == length && drawn_from(value@, alphabet@),
{
    let chars = to_chars(alphabet);
    if chars.len() == 0 && length > 0 {
        return None;
    }
    let mut value = String::new();
    let mut i: usize = 0;
    while i < length
        invariant
            i <= length,
            chars@ == alphabet@,
            length > 0 ==> chars.len() > 0,
            value@.len() == i,
            drawn_from(value@, alphabet@),
        decreases length - i,
    {
        let pick = random_between(0, chars.len() - 1);
        let ghost before = value@;
        push_char(&mut value, chars[pick]);
        assert forall|j: int| 0 <= j < value@.len() implies alphabet@.contains(
            #[trigger] value@[j],
        ) by {
            if j < before.len() {
                assert(value@[j] == before[j]);
            } else {
                assert(value@[j] == chars@[pick as int]);
            }
        }
        i += 1;
    }
    Some(value)
}

} // verus!
