use convert_case::Casing;
use vstd::prelude::*;

verus! {

/// The spelling that a variant's default string is converted to.
#[derive(Clone, Copy, Debug, PartialEq, Eq, Structural)]
pub enum Case {
    /// All lowercase, words joined with nothing (`lowercase` option).
    Flat,
    /// All lowercase, words joined with `_` (`snake` option).
    Snake,
    /// All lowercase, words joined with `-` (`kebab` option).
    Kebab,
}

/// What `convert_case` makes of a string when asked for the given case.
/// Its word splitting takes pages to state; the result depends on the two
/// arguments alone.
pub uninterp spec fn case_converted(s: Seq<char>, case: Case) -> Seq<char>;

/// Calls `convert_case::Casing::to_case` on `s` with the matching
/// `convert_case::Case`.  The contract claims only that the result is the
/// named function of the text and the case.
#[verifier::external_body]
pub(crate) fn to_case(s: &str, case: Case) -> (res: String)
    ensures
        res@ == case_converted(s@, case),
{
    let outside = match case {
        Case::Flat => convert_case::Case::Flat,
        Case::Snake => convert_case::Case::Snake,
        Case::Kebab => convert_case::Case::Kebab,
    };
    s.to_case(outside)
}

} // verus!
