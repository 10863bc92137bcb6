//! Identifiers of rows.

use vstd::prelude::*;

verus! {

/// A fresh identifier, by `uuid::Uuid::new_v4` in its hyphenated form.
/// It is drawn at random: nothing is claimed of it, not even that it
/// differs from the identifiers drawn before.
#[verifier::external_body]
pub(crate) fn new_id() -> (r: String) {
    uuid::Uuid::new_v4().to_string()
}

/// The identifier that belongs to an address: the name-based identifier
/// of the address in the namespace of addresses, in its hyphenated form.
pub uninterp spec fn url_id_text(url: Seq<char>) -> Seq<char>;

/// The identifier that belongs to an address, by `uuid::Uuid::new_v5` in
/// the namespace `Uuid::NAMESPACE_URL`. The result is a function of the
/// address alone and is named [`url_id_text`].
#[verifier::external_body]
pub(crate) fn url_id(url: &str) -> (r: String)
    ensures
        r@ == url_id_text(url@),
{
    uuid::Uuid::new_v5(&uuid::Uuid::NAMESPACE_URL, url.as_bytes()).to_string()
}

} // verus!
