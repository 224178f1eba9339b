//! Small helpers on text.
use crate::parser::engine::has_text;
use vstd::prelude::*;
use vstd::string::{StrSliceExecFns, StringExecFns};

verus! {

/// The characters of `text`, one by one.
pub fn to_chars(text: &str) -> (r: Vec<char>)
    ensures
        r@ == text@,
{
    let mut chars: Vec<char> = Vec::new();
    for c in it: text.chars()
        invariant
            it.seq() == text@,
            chars.len() == it.index(),
            forall|i: int| 0 <= i < chars.len() ==> chars@[i] == it.seq()[i],
    {
        chars.push(c);
    }
    assert(chars@ =~= text@);
    chars
}

/// Whether `chars` spell exactly `text`.
pub fn same_text(chars: &Vec<char>, text: &str) -> (r: bool)
    ensures
        r == (chars@ == text@),
{
    let same = chars.len() == text.unicode_len() && has_text(chars, 0, text);
    proof {
        assert(chars@.subrange(0, chars@.len() as int) =~= chars@);
    }
    same
}

/// Whether `value` is exactly `text`.
pub fn text_is(value: &String, text: &str) -> (r: bool)
    ensures
        r == (value@ == text@),
{
    let chars = to_chars(value.as_str());
    same_text(&chars, text)
}

} // verus!
