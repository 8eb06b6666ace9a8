//! The naming convention of generated operations.

use convert_case::Casing;
use vstd::prelude::*;

verus! {

/// The snake-case form of a name, as `convert_case` computes it: the name is
/// split into words at its case boundaries, the words are put in lower case
/// and joined by underscores.
pub uninterp spec fn snake_case(name: Seq<char>) -> Seq<char>;

/// Calls `convert_case::Casing::to_case` with `convert_case::Case::Snake`.
///
/// The conversion reads nothing but the name, so its result is a function of
/// the name. That function is not proved here: it is the one that
/// `snake_case` stands for.
#[verifier::external_body]
pub(crate) fn to_snake_case(name: &str) -> (folded: String)
    ensures
        folded@ == snake_case(name@),
{
    name.to_case(convert_case::Case::Snake)
}

} // verus!
