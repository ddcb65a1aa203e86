//! Conversions between `String` and the character vectors the library works on.

use vstd::prelude::*;

verus! {

/// Collects characters into a `String` with the same characters.
///
/// Trusted: `FromIterator<char>` for `String` (std) appends each character in
/// order; the contract claims the result holds exactly the given characters.
#[verifier::external_body]
pub(crate) fn chars_to_string(chars: &Vec<char>) -> (s: String)
    ensures
        s@ == chars@,
{
    chars.iter().collect()
}

/// The characters of a string, in order.
pub fn string_to_chars(s: &str) -> (chars: Vec<char>)
    ensures
        chars@ == s@,
{
    let mut chars: Vec<char> = Vec::new();
    for ch in it: s.chars()
        invariant
            chars@ == it.seq().take(it.index() as int),
            it.seq() == s@,
    {
        proof {
            assert(it.seq().take(it.index() as int + 1) =~= it.seq().take(it.index() as int).push(ch));
        }
        chars.push(ch);
    }
    chars
}


/// Append the characters of `s`.
pub fn append_str(chars: &mut Vec<char>, s: &str)
    ensures
        final(chars)@ == old(chars)@ + s@,
{
    let tail = string_to_chars(s);
    let mut i: usize = 0;
    while i < tail.len()
        invariant
            i <= tail@.len(),
            chars@ == old(chars)@ + tail@.take(i as int),
        decreases tail@.len() - i,
    {
        proof {
            assert(tail@.take(i as int + 1) =~= tail@.take(i as int).push(tail@[i as int]));
        }
        chars.push(tail[i]);
        i += 1;
    }
    proof {
        assert(tail@.take(tail@.len() as int) =~= tail@);
    }
}

} // verus!
