//! Addresses of requests, taken apart.

use vstd::prelude::*;

verus! {

/// The path of an absolute address, as the `url` crate reads it; `None`
/// for a text that is no address.
pub uninterp spec fn url_path_text(url: Seq<char>) -> Option<Seq<char>>;

/// The path of an absolute address, by `url::Url::parse` and
/// `Url::path`. The result is a function of the text alone and is named
/// [`url_path_text`].
#[verifier::external_body]
pub(crate) fn url_path(url: &str) -> (r: Option<String>)
    ensures
        match r {
            Some(path) => url_path_text(url@) == Some(path@),
            None => url_path_text(url@) is None,
        },
{
    url::Url::parse(url).ok().map(|u| u.path().to_string())
}

/// The pairs of key and value in the query of an absolute address, in
/// their order and decoded, as the `url` crate reads them; `None` for a
/// text that is no address.
pub uninterp spec fn url_query_text(url: Seq<char>) -> Option<Seq<(Seq<char>, Seq<char>)>>;

/// What a list of pairs says.
pub open spec fn pair_texts(pairs: Seq<(String, String)>) -> Seq<(Seq<char>, Seq<char>)> {
    pairs.map_values(|p: (String, String)| (p.0@, p.1@))
}

/// The pairs of key and value in the query of an absolute address, by
/// `url::Url::parse` and `Url::query_pairs`. The result is a function of
/// the text alone and is named [`url_query_text`].
#[verifier::external_body]
pub(crate) fn url_query(url: &str) -> (r: Option<Vec<(String, String)>>)
    ensures
        match r {
            Some(pairs) => url_query_text(url@) == Some(pair_texts(pairs@)),
            None => url_query_text(url@) is None,
        },
{
    url::Url::parse(url).ok().map(|u| u.query_pairs().into_owned().collect())
}

} // verus!
