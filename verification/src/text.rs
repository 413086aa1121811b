//! What the library needs of strings beyond what `vstd` provides, each
//! stated over the string's view as a sequence of characters.
use vstd::prelude::*;
use vstd::std_specs::iter::IteratorSpec;

verus! {

/// Taken on trust from the standard library's documentation, not proved:
/// `String::push` appends the character `ch` to the end of the string and
/// leaves the characters before it as they were.
pub assume_specification[ String::push ](s: &mut String, ch: char)
    ensures
        final(s)@ == old(s)@.push(ch),
;

/// Whether `text` begins with `prefix`.
pub fn has_prefix(text: &str, prefix: &str) -> (b: bool)
    ensures
        b == prefix@.is_prefix_of(text@),
{
    let mut rest = text.chars();
    let mut wanted = prefix.chars();
    // How many characters of the two have been found equal.
    let ghost mut n: int = 0;
    loop
        invariant
            0 <= n <= text@.len(),
            n <= prefix@.len(),
            rest.remaining() == text@.skip(n),
            wanted.remaining() == prefix@.skip(n),
            text@.take(n) == prefix@.take(n),
        decreases prefix@.len() - n,
    {
        match (wanted.next(), rest.next()) {
            (None, _) => {
                assert(prefix@.take(n) =~= prefix@);
                return true;
            },
            (Some(_), None) => {
                return false;
            },
            (Some(w), Some(c)) => {
                if c != w {
                    return false;
                }
                proof {
                    n = n + 1;
                }
            },
        }
    }
}

} // verus!
