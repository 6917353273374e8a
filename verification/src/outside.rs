//! Trusted wrappers around outside crates.
//!
//! The compiler validates override names as target-language identifiers and
//! derives a root type name from a schema file's stem. Both computations are
//! delegated to outside crates; their results are named here and everything
//! downstream is verified against those names.

use vstd::prelude::*;

verus! {

/// Whether a string parses as exactly one non-keyword Rust identifier.
pub uninterp spec fn is_parseable_ident(s: Seq<char>) -> bool;

/// Relies on syn::parse_str::<proc_macro2::Ident>: whether a string parses as
/// a single non-keyword identifier depends on its characters alone.
#[verifier::external_body]
pub(crate) fn parse_ident_ok(s: &str) -> (r: bool)
    ensures
        r == is_parseable_ident(s@),
{
    syn::parse_str::<proc_macro2::Ident>(s).is_ok()
}

/// The Pascal-case rendering of a string.
pub uninterp spec fn pascal_of(s: Seq<char>) -> Seq<char>;

/// Relies on convert_case::Casing::to_case with Case::Pascal: the result
/// depends on the input characters alone.
#[verifier::external_body]
fn to_pascal(s: &str) -> (r: String)
    ensures
        r@ == pascal_of(s@),
{
    convert_case::Casing::to_case(&s, convert_case::Case::Pascal)
}

/// The default identifier for a root schema file: its file stem rendered in
/// the target language's type-name casing.
pub fn derive_root_ident(file_stem: &str) -> (r: String)
    ensures
        r@ == pascal_of(file_stem@),
{
    to_pascal(file_stem)
}

} // verus!
