//! Error taxonomy of the node core.

use vstd::prelude::*;

verus! {

/// Everything that can go wrong inside the node core.
///
/// * `MalformedPattern` — a pattern string could not be parsed; fatal only
///   to the declaration that supplied it.
/// * `InvalidTopic` — a topic string holds a wildcard token or an empty
///   segment; construction-time.
/// * `ConnectionError` — the substrate could not be reached; fatal to the
///   node, to be handled by its owner.
/// * `PublishFailed` — a `put` could not be handed to the substrate.
/// * `QueryFailed` — a request could not be issued.
/// * `HandlerPanic` — a queryable handler failed; confined to that query.
#[derive(Clone, Copy, Debug, PartialEq, Eq, Structural)]
pub enum NodeError {
    MalformedPattern,
    InvalidTopic,
    ConnectionError,
    PublishFailed,
    QueryFailed,
    HandlerPanic,
}

impl NodeError {
    /// A short description, usable by callers that report errors.
    pub fn describe(&self) -> (r: &'static str)
        ensures
            r@ == self.spec_describe(),
    {
        match self {
            NodeError::MalformedPattern => "malformed pattern",
            NodeError::InvalidTopic => "invalid topic",
            NodeError::ConnectionError => "connection error",
            NodeError::PublishFailed => "publish failed",
            NodeError::QueryFailed => "query failed",
            NodeError::HandlerPanic => "handler panic",
        }
    }

    /// The text `describe` returns for each variant.
    pub open spec fn spec_describe(&self) -> Seq<char> {
        match self {
            NodeError::MalformedPattern => "malformed pattern"@,
            NodeError::InvalidTopic => "invalid topic"@,
            NodeError::ConnectionError => "connection error"@,
            NodeError::PublishFailed => "publish failed"@,
            NodeError::QueryFailed => "query failed"@,
            NodeError::HandlerPanic => "handler panic"@,
        }
    }
}

} // verus!
