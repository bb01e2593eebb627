//! A verified data-access core for a small roster service: two relational
//! tables (`members` and `teams`), query resolvers with fixed row limits,
//! and a single mutation that inserts a member under a foreign-key
//! constraint.

pub mod db;
pub mod graphiql;
pub mod graphql_schema;
pub mod laws;
pub mod schema;
