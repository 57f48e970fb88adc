//! Request targets: the parts of an inbound URI that are read, and the outbound URI that
//! the `http` crate builds.
use hyper::http::uri::PathAndQuery;
use hyper::Uri;
use vstd::prelude::*;

use crate::text::{first_of, lemma_first_of};

verus! {

/// The target of an inbound request: its path, and its query where there is one.
#[derive(Debug, Clone)]
pub struct RequestUri {
    pub path: String,
    pub query: Option<String>,
}

impl RequestUri {
    /// The text of the query.
    pub open spec fn query_text(self) -> Option<Seq<char>> {
        match self.query {
            Some(query) => Some(query@),
            None => None,
        }
    }
}

/// A path and query as a URI prints them: without a fragment, and with a path that is not
/// empty.
pub open spec fn printed_target(path_and_query: Seq<char>) -> Seq<char> {
    let kept = path_and_query.take(first_of(path_and_query, '#', 0));
    if kept.len() == 0 || kept[0] == '?' {
        seq!['/'] + kept
    } else {
        kept
    }
}

/// A URI in absolute form.
pub open spec fn absolute_uri(
    scheme: Seq<char>,
    authority: Seq<char>,
    path_and_query: Seq<char>,
) -> Seq<char> {
    scheme + "://"@ + authority + printed_target(path_and_query)
}

/// Whether the `http` crate accepts the parts: the path and query as a `PathAndQuery`, and
/// all three together as a `Uri`.
pub uninterp spec fn uri_accepted(
    scheme: Seq<char>,
    authority: Seq<char>,
    path_and_query: Seq<char>,
) -> bool;

/// A URI of the `http` crate.
#[verifier::external_type_specification]
#[verifier::external_body]
pub struct ExUri(Uri);

/// The text that a `Uri` prints.
pub uninterp spec fn uri_text(uri: Uri) -> Seq<char>;

/// Parses a `PathAndQuery`, and puts it together with a scheme and an authority by
/// `Uri::builder`. What is accepted has a name; an accepted URI prints its scheme and
/// authority as they were given and its target without a fragment.
#[verifier::external_body]
pub(crate) fn build_uri(scheme: &str, authority: &str, path_and_query: &str) -> (uri: Option<Uri>)
    ensures
        uri is Some <==> uri_accepted(scheme@, authority@, path_and_query@),
        uri matches Some(u) ==> uri_text(u) == absolute_uri(scheme@, authority@, path_and_query@),
{
    let target: PathAndQuery = path_and_query.parse().ok()?;
    Uri::builder().scheme(scheme).authority(authority).path_and_query(target).build().ok()
}

/// A path and query without a fragment is printed behind the scheme and the authority as it
/// is.
pub proof fn law_uri_printed(scheme: Seq<char>, authority: Seq<char>, path_and_query: Seq<char>)
    requires
        path_and_query.len() > 0 && path_and_query[0] == '/',
        !path_and_query.contains('#'),
    ensures
        absolute_uri(scheme, authority, path_and_query) == scheme + "://"@ + authority
            + path_and_query,
{
    lemma_first_of(path_and_query, '#', 0);
    let end = first_of(path_and_query, '#', 0);
    if end < path_and_query.len() {
        assert(path_and_query.contains(path_and_query[end]));
    }
    assert(path_and_query.take(end) =~= path_and_query);
}

/// The text of a query is all of the query, wherever there is one.
pub proof fn law_query_text(uri: RequestUri)
    ensures
        uri.query matches Some(query) ==> uri.query_text() == Some(query@),
        uri.query is None ==> uri.query_text() is None,
{
}

} // verus!
