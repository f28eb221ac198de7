//! Collection of rules for use in parser specifications.

pub mod string;
pub mod text;

use vstd::prelude::*;
use vstd::string::*;

verus! {

/// Calls `String::push`, which appends one character to the text.
#[verifier::external_body]
pub(crate) fn append_char(text: &mut String, ch: char)
    ensures
        final(text)@ == old(text)@.push(ch),
{
    text.push(ch)
}

/// The characters of `input` that are not underscores, in their order.
pub open spec fn without_underscores(input: Seq<char>) -> Seq<char> {
    input.filter(|c: char| c != '_')
}

/// Removes underscores from a string. Used in number parsing (where underscores are allowed
/// as grouping symbols but do not affect the parsed value).
pub fn remove_underscores(input: &str) -> (cleaned: String)
    ensures
        cleaned@ == without_underscores(input@),
{
    broadcast use group_string_axioms;

    let mut cleaned = String::new();
    let chars = input.chars();
    for c in it: chars
        invariant
            it.seq() == input@,
            cleaned@ == without_underscores(input@.take(it.index() as int)),
    {
        proof {
            let done = input@.take(it.index() as int);
            assert(input@.take(it.index() + 1) == done.push(c));
            assert(done.push(c).drop_last() == done);
            reveal(Seq::filter);
        }
        if c != '_' {
            append_char(&mut cleaned, c);
        }
    }
    assert(input@.take(input@.len() as int) == input@);
    cleaned
}

} // verus!
