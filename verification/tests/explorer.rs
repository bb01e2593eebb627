use roster::graphiql::graphiql;
use roster::graphql_schema::create_schema;

#[test]
fn graphiql_page_embeds_the_endpoint_url() {
    let url = "http://localhost:8080/graphql";
    let page = graphiql(url);
    assert_ne!(page, url);
    assert!(page.contains(url));
    assert!(page.contains("<html"));
}

#[test]
fn graphiql_page_differs_per_endpoint() {
    let a = graphiql("http://localhost:8080/graphql");
    let b = graphiql("http://example.com/api");
    assert_ne!(a, b);
}

#[test]
fn schema_is_built_from_both_roots() {
    let s = create_schema();
    let _ = s.query;
    let _ = s.mutation;
}
