//! The value types carried between peers, and the handlers bound to the
//! built-in services.

use vstd::prelude::*;

use crate::keyexpr::Topic;
use crate::services::{convert_reply, echo_reply, i64_str_val, is_i64_str, spec_binary, spec_u64_bits};

verus! {

/// One published payload: the topic it is addressed to, the payload
/// text, and the producer's monotonic timestamp. Read-only once made.
#[derive(Debug)]
pub struct Sample {
    pub topic: Topic,
    pub payload: String,
    pub timestamp: u64,
}

/// One inbound request owned by the handling queryable: its identity,
/// the request topic and an optional payload.
#[derive(Debug)]
pub struct Query {
    pub id: u64,
    pub topic: Topic,
    pub payload: Option<String>,
}

/// Whether a reply reports success or an error.
#[derive(Clone, Copy, Debug, PartialEq, Eq, Structural)]
pub enum ReplyStatus {
    Success,
    Error,
}

/// One response to a query, consumed by the dispatcher that issued the
/// matching request.
#[derive(Debug)]
pub struct Reply {
    pub query_id: u64,
    pub payload: String,
    pub status: ReplyStatus,
}

/// Which built-in service a queryable runs.
#[derive(Clone, Copy, Debug, PartialEq, Eq, Structural)]
pub enum ServiceKind {
    Echo,
    Convert,
}

/// The request text a handler sees: the payload, or empty when the query
/// carries none.
pub open spec fn query_msg(q: &Query) -> Seq<char> {
    match q.payload {
        Some(p) => p@,
        None => Seq::empty(),
    }
}

/// Runs one built-in service handler on one query. Pure in the query, so
/// a slow or malformed request can neither corrupt another query's reply
/// nor stop the service loop; a conversion request that is no integer
/// yields the fixed error text as a successful reply, exactly as the
/// services define it.
pub fn handle_service_query(kind: ServiceKind, q: &Query) -> (rep: Reply)
    ensures
        rep.query_id == q.id,
        rep.status is Success,
        kind is Echo ==> rep.payload@ == "Echo: "@ + query_msg(q),
        kind is Convert && is_i64_str(query_msg(q)) ==> rep.payload@ == "0b"@ + spec_binary(
            spec_u64_bits(i64_str_val(query_msg(q))),
        ),
        kind is Convert && !is_i64_str(query_msg(q)) ==> rep.payload@ == "Error: not an integer"@,
{
    let msg: &str = match &q.payload {
        Some(p) => p.as_str(),
        None => "",
    };
    proof {
        reveal_strlit("");
        assert(msg@ == query_msg(q));
    }
    let payload = match kind {
        ServiceKind::Echo => echo_reply(msg),
        ServiceKind::Convert => convert_reply(msg),
    };
    Reply { query_id: q.id, payload, status: ReplyStatus::Success }
}

} // verus!
