//! Verified core of a GraphQL node: request decoding and entity storage.
pub mod assoc;
pub mod entity;
pub mod graphql;
pub mod json;
pub mod postgres;
pub mod query;
pub mod request;
pub mod store;
pub mod string_map;
