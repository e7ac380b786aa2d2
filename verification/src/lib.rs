//! A single-process messaging node built around hierarchically named topics.
//!
//! The crate provides the addressing and coordination core of such a node:
//! parsing and matching of topic patterns with wildcards, the value types
//! carried between peers (samples, queries, replies), a registry of live
//! publishers, subscribers and queryable services with verified routing,
//! the queryable service-loop state machine, and the request/reply
//! dispatcher that fans a request out to matching services and merges
//! their replies. Transport itself is left to a substrate driven from
//! outside the library.

pub mod data;
pub mod dispatcher;
pub mod errors;
pub mod keyexpr;
pub mod node;
pub mod queryable;
pub mod runtime;
pub mod services;
