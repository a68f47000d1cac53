//! Discovers funding links for a project's dependencies.
//!
//! The crate turns dependency metadata into candidate forge sources, batches
//! them into a single GraphQL query, classifies the response, normalizes the
//! funding links it carries, groups packages that share the same link set,
//! and renders the result as a box-drawn tree.

pub mod aggregate;
pub mod args;
pub mod error;
pub mod link;
pub mod platform;
pub mod query;
pub mod render;
pub mod resolve;
pub mod response;
pub mod source;
pub mod text;
