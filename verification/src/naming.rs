//! The names that fields and enum variants are stored under: the same name
//! in camelCase, so that the name a field has in Rust and in other
//! languages map to one name in the document.
use vstd::prelude::*;

verus! {

/// What `to_camel_case` of the `inflector` crate makes of a text.
pub uninterp spec fn camel_case(text: Seq<char>) -> Seq<char>;

/// `inflector::cases::camelcase::to_camel_case`, which splits the text into
/// words and joins them in camelCase. Its result depends on the text alone;
/// what that result is, word splitting and casing rules included, is not
/// stated here.
#[verifier::external_body]
fn to_camel_case(text: &str) -> (camel: String)
    ensures
        camel@ == camel_case(text@),
{
    inflector::cases::camelcase::to_camel_case(text)
}

/// The name that an identifier is stored under: its camelCase form.
pub fn canonical_ident(ident: &str) -> (canon: String)
    ensures
        canon@ == camel_case(ident@),
{
    to_camel_case(ident)
}

} // verus!
