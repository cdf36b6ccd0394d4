//! Moving between strings and their characters.

use vstd::prelude::*;

verus! {

broadcast use vstd::string::axiom_spec_iter;

/// Calls `String::from_iter` on the characters: the string made of them, in
/// order.
#[verifier::external_body]
pub(crate) fn string_of_chars(cs: Vec<char>) -> (r: String)
    ensures
        r@ == cs@,
{
    String::from_iter(cs)
}

/// The characters of `s`, in order.
pub(crate) fn chars_of(s: &str) -> (r: Vec<char>)
    ensures
        r@ == s@,
{
    let mut cs: Vec<char> = Vec::new();
    for c in it: s.chars()
        invariant
            cs@.len() == it.index(),
            forall|i: int| 0 <= i < cs@.len() ==> cs@[i] == it.seq()[i],
    {
        cs.push(c);
    }
    assert(cs@ =~= s@);
    cs
}

} // verus!
