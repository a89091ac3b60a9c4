//! Accent-insensitive text: source lines are stored without diacritical
//! marks, so that a picker's substring matching finds them however they were
//! typed.

use vstd::prelude::*;

verus! {

/// The text that `diacritics::remove_diacritics` returns for `s`: each
/// character replaced by its plain counterpart, combining marks dropped.
pub uninterp spec fn diacritics_removed(s: Seq<char>) -> Seq<char>;

/// Calls `diacritics::remove_diacritics`. Trusted: the returned text is a
/// function of the characters of `line` alone, named `diacritics_removed`.
#[verifier::external_body]
fn remove_diacritics(line: &str) -> (r: String)
    ensures
        r@ == diacritics_removed(line@),
{
    diacritics::remove_diacritics(line)
}

/// `line` without diacritical marks.
pub fn normalize(line: &str) -> (r: String)
    ensures
        r@ == diacritics_removed(line@),
{
    remove_diacritics(line)
}

} // verus!
