//! The types and the one function that this crate takes from the crates
//! `idna` and `vec1` as they are.

use vstd::prelude::*;

verus! {

/// `vec1::Vec1`, a vector that is never empty.
#[verifier::external_type_specification]
#[verifier::external_body]
#[verifier::reject_recursive_types(T)]
pub struct ExVec1<T>(vec1::Vec1<T>);

/// The error with which `vec1` refuses to make an empty `Vec1`.
#[verifier::external_type_specification]
#[verifier::external_body]
pub struct ExSize0Error(vec1::Size0Error);

/// The error of the `idna` crate. It says no more than that the name
/// could not be processed.
#[verifier::external_type_specification]
#[verifier::external_body]
pub struct ExIdnaErrors(idna::Errors);

/// What `idna::domain_to_ascii` makes of a domain name: its
/// ASCII-compatible form, or nothing where the name cannot be processed.
pub uninterp spec fn idna_ascii_form(domain: Seq<char>) -> Option<Seq<char>>;

/// `idna::domain_to_ascii` maps and normalizes the name by UTS #46 and
/// puts its non-ASCII labels into Punycode. What it returns depends on the
/// name alone, so it has a name here; nothing more is claimed of it.
pub assume_specification[ idna::domain_to_ascii ](domain: &str) -> (r: Result<
    String,
    idna::Errors,
>)
    ensures
        match r {
            Ok(s) => idna_ascii_form(domain@) == Some(s@),
            Err(_) => idna_ascii_form(domain@).is_none(),
        },
;

} // verus!
