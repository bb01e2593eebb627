//! The interactive query explorer page, rendered by the GraphQL
//! library and served by the HTTP layer.

use vstd::prelude::*;

verus! {

/// The text of the explorer page pointed at a given endpoint URL.
/// What `juniper::http::graphiql::graphiql_source` returns: a fixed
/// page template with the URL injected, a function of the URL alone.
pub uninterp spec fn graphiql_html_of(url: Seq<char>) -> Seq<char>;

/// Relies on `juniper::http::graphiql::graphiql_source`: renders the
/// GraphiQL explorer page for the endpoint at `url`, with no
/// subscriptions endpoint.
#[verifier::external_body]
fn graphiql_source_page(url: &str) -> (r: String)
    ensures
        r@ == graphiql_html_of(url@),
{
    juniper::http::graphiql::graphiql_source(url, None)
}

/// The HTML page of the interactive query explorer pointed at `url`.
pub fn graphiql(url: &str) -> (r: String)
    ensures
        r@ == graphiql_html_of(url@),
{
    graphiql_source_page(url)
}

} // verus!
