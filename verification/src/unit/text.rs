//! Whitespace in unit text.

use vstd::prelude::*;
use vstd::std_specs::iter::IteratorSpec;

verus! {

/// Whether `c` is white space, as `char::is_whitespace` reports it: the
/// Unicode `White_Space` property.
pub uninterp spec fn is_whitespace(c: char) -> bool;

/// A text is blank when it holds nothing but white space, so that trimming
/// it leaves the empty string.
pub open spec fn is_blank(text: Seq<char>) -> bool {
    forall|i: int| 0 <= i < text.len() ==> is_whitespace(#[trigger] text[i])
}

/// `char::is_whitespace`: the result is the `White_Space` property of `c`,
/// which [`is_whitespace`] names.
#[verifier::external_body]
fn char_is_whitespace(c: char) -> (b: bool)
    ensures
        b == is_whitespace(c),
{
    c.is_whitespace()
}

/// Tells whether `text` is blank.
pub fn blank(text: &str) -> (b: bool)
    ensures
        b == is_blank(text@),
{
    for c in it: text.chars()
        invariant
            it.seq() == text@,
            forall|i: int| 0 <= i < it.index() ==> is_whitespace(#[trigger] text@[i]),
    {
        if !char_is_whitespace(c) {
            return false;
        }
    }
    true
}

/// Tells whether two texts hold the same characters.
pub fn same_text(left: &str, right: &str) -> (same: bool)
    ensures
        same == (left@ == right@),
{
    let mut rest_left = left.chars();
    let mut rest_right = right.chars();
    let ghost mut seen: Seq<char> = Seq::empty();
    loop
        invariant
            left@ == seen + rest_left.remaining(),
            right@ == seen + rest_right.remaining(),
        decreases left@.len() - seen.len(),
    {
        let ghost before_left = rest_left.remaining();
        let ghost before_right = rest_right.remaining();
        match (rest_left.next(), rest_right.next()) {
            (None, None) => {
                return true;
            },
            (Some(a), Some(b)) => {
                if a != b {
                    assert(left@[seen.len() as int] == a);
                    assert(right@[seen.len() as int] == b);
                    return false;
                }
                proof {
                    assert(seen.push(a) + before_left.drop_first() == seen + before_left);
                    assert(seen.push(a) + before_right.drop_first() == seen + before_right);
                    seen = seen.push(a);
                }
            },
            _ => {
                assert(left@.len() != right@.len());
                return false;
            },
        }
    }
}

} // verus!
