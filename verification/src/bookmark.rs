//! Validation of bookmark name suffixes.

use vstd::prelude::*;
use vstd::std_specs::iter::IteratorSpec;

verus! {

broadcast use vstd::string::axiom_spec_iter, vstd::string::next_postcondition;

/// What `char::is_alphanumeric` returns: whether the character is in the
/// Unicode categories of letters or numbers. The result depends on the
/// character alone.
pub uninterp spec fn char_is_alphanumeric(c: char) -> bool;

/// Relies on char::is_alphanumeric of std: the Unicode letter-or-number
/// property of the character.
pub assume_specification[ char::is_alphanumeric ](c: char) -> (alnum: bool)
    ensures
        alnum == char_is_alphanumeric(c),
;

/// The characters a bookmark suffix may hold: letters and numbers, and the
/// four separators.
pub open spec fn is_bookmark_char(c: char) -> bool {
    char_is_alphanumeric(c) || c == '.' || c == '/' || c == '-' || c == '_'
}

/// Decides whether every character of the suffix is a letter, a number, or
/// one of `./-_`.
pub fn is_valid_bookmark_suffix(bookmark_suffix: &str) -> (valid: bool)
    ensures
        valid == forall|i: int|
            0 <= i < bookmark_suffix@.len() ==> is_bookmark_char(#[trigger] bookmark_suffix@[i]),
{
    let ghost full = bookmark_suffix@;
    let mut it = bookmark_suffix.chars();
    let ghost mut seen: int = 0;
    loop
        invariant
            it.obeys_prophetic_iter_laws(),
            0 <= seen <= full.len(),
            full == bookmark_suffix@,
            it.remaining() == full.skip(seen),
            forall|j: int| 0 <= j < seen ==> is_bookmark_char(#[trigger] full[j]),
        ensures
            seen == full.len(),
            forall|j: int| 0 <= j < seen ==> is_bookmark_char(#[trigger] full[j]),
        decreases full.len() - seen,
    {
        match it.next() {
            None => {
                break ;
            },
            Some(c) => {
                proof {
                    assert(full.skip(seen)[0] == full[seen]);
                    assert(c == full[seen]);
                }
                if !(c.is_alphanumeric() || c == '.' || c == '/' || c == '-' || c == '_') {
                    proof {
                        assert(!is_bookmark_char(full[seen]));
                    }
                    return false;
                }
                proof {
                    assert(full.skip(seen).drop_first() =~= full.skip(seen + 1));
                    seen = seen + 1;
                }
            },
        }
    }
    true
}

} // verus!
