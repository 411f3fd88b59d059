//! Platform decisions that do not need the platform: whether an appearance
//! is dark.

use vstd::prelude::*;
use crate::text::{chars_of, contains_chars, contains_piece};

verus! {

/// What `str::to_lowercase` gives for `s` (Unicode lowercase mapping).
pub uninterp spec fn lowercase(s: Seq<char>) -> Seq<char>;

/// Calls `str::to_lowercase`. Claimed: the result is the lowercase mapping of
/// the argument, a function of the argument alone; what that mapping is is
/// left to the name.
#[verifier::external_body]
fn to_lowercase(s: &str) -> (r: String)
    ensures
        r@ == lowercase(s@),
{
    s.to_lowercase()
}

pub open spec fn dark_word() -> Seq<char> {
    seq!['d', 'a', 'r', 'k']
}

/// Whether the application's appearance is dark: its name, lowercased,
/// contains `dark`. Without an appearance (off the main thread, or on a
/// platform without one) it is not.
pub fn is_dark_mode(appearance_name: Option<String>) -> (r: bool)
    ensures
        r == match appearance_name {
            Some(name) => contains_piece(lowercase(name@), dark_word()),
            None => false,
        },
{
    match appearance_name {
        None => false,
        Some(name) => {
            let lower = to_lowercase(name.as_str());
            let chars = chars_of(lower.as_str());
            let word = vec!['d', 'a', 'r', 'k'];
            assert(word@ =~= dark_word());
            contains_chars(&chars, &word)
        },
    }
}

} // verus!
