//! The request/reply dispatcher: the client side of the queryable
//! pattern.
//!
//! A request against a target topic fans out to every running queryable
//! whose pattern matches; the replies come back merged, in arrival
//! order, into one stream. The stream ends when every targeted
//! queryable has finished, or when the request's timeout fires —
//! whichever comes first; a reply arriving after the timeout is
//! discarded.

use vstd::prelude::*;
use vstd::string::*;

use crate::data::Reply;
use crate::errors::NodeError;
use crate::keyexpr::Topic;
use crate::node::Node;
use crate::queryable::contains_u64;
use crate::services::{spec_decimal, to_decimal};

verus! {

broadcast use vstd::seq_lib::group_seq_properties;

/// One request's reply stream: which targeted queryables have not yet
/// finished, the replies that have arrived, and whether the timeout has
/// fired.
pub struct RequestState {
    pending: Vec<u64>,
    replies: Vec<Reply>,
    timed_out: bool,
}

impl RequestState {
    /// The targeted queryables that have not yet finished.
    pub closed spec fn spec_pending(self) -> Seq<u64> {
        self.pending@
    }

    /// The replies merged so far, in arrival order.
    pub closed spec fn spec_replies(self) -> Seq<Reply> {
        self.replies@
    }

    /// Whether the request's timeout has fired.
    pub closed spec fn spec_timed_out(self) -> bool {
        self.timed_out
    }

    /// The stream has terminated: every targeted queryable finished, or
    /// the timeout fired.
    pub open spec fn spec_finished(self) -> bool {
        self.spec_pending().len() == 0 || self.spec_timed_out()
    }

    /// No queryable is awaited twice.
    pub open spec fn wf(self) -> bool {
        self.spec_pending().no_duplicates()
    }

    /// Whether the stream has terminated.
    pub fn is_finished(&self) -> (r: bool)
        ensures
            r == self.spec_finished(),
    {
        self.pending.len() == 0 || self.timed_out
    }

    /// How many replies have arrived.
    pub fn reply_count(&self) -> (n: usize)
        ensures
            n == self.spec_replies().len(),
    {
        self.replies.len()
    }

    /// One arrived reply, by arrival position.
    pub fn reply_at(&self, i: usize) -> (rep: &Reply)
        requires
            i < self.spec_replies().len(),
        ensures
            *rep == self.spec_replies()[i as int],
    {
        &self.replies[i]
    }

    /// A reply arrives from queryable `from`. It joins the stream only
    /// while that queryable is still awaited and the timeout has not
    /// fired; a late or unsolicited reply is discarded.
    pub fn on_reply(&mut self, from: u64, rep: Reply) -> (accepted: bool)
        requires
            old(self).wf(),
        ensures
            final(self).wf(),
            accepted <==> (!old(self).spec_timed_out() && old(self).spec_pending().contains(from)),
            final(self).spec_pending() == old(self).spec_pending(),
            final(self).spec_timed_out() == old(self).spec_timed_out(),
            accepted ==> final(self).spec_replies() == old(self).spec_replies().push(rep),
            !accepted ==> final(self).spec_replies() == old(self).spec_replies(),
    {
        if self.timed_out {
            return false;
        }
        if contains_u64(&self.pending, from) {
            self.replies.push(rep);
            true
        } else {
            false
        }
    }

    /// Queryable `from` finished its query: it is no longer awaited.
    /// Every other awaited queryable still is, and a stream that had
    /// already terminated stays terminated.
    pub fn on_finish(&mut self, from: u64) -> (was_pending: bool)
        requires
            old(self).wf(),
        ensures
            final(self).wf(),
            was_pending == old(self).spec_pending().contains(from),
            forall|q: u64|
                final(self).spec_pending().contains(q) <==> (old(self).spec_pending().contains(q)
                    && q != from),
            final(self).spec_pending().len() == old(self).spec_pending().len() - (
            if old(self).spec_pending().contains(from) {
                1int
            } else {
                0int
            }),
            final(self).spec_replies() == old(self).spec_replies(),
            final(self).spec_timed_out() == old(self).spec_timed_out(),
            old(self).spec_finished() ==> final(self).spec_finished(),
    {
        let mut kept: Vec<u64> = Vec::new();
        let n = self.pending.len();
        let mut i: usize = 0;
        let mut was_pending = false;
        while i < n
            invariant
                n == self.pending@.len(),
                0 <= i <= n,
                self.pending@.no_duplicates(),
                forall|q: u64|
                    kept@.contains(q) <==> (self.pending@.subrange(0, i as int).contains(q) && q
                        != from),
                kept@.no_duplicates(),
                was_pending <==> self.pending@.subrange(0, i as int).contains(from),
                kept@.len() == i - (
                if self.pending@.subrange(0, i as int).contains(from) {
                    1int
                } else {
                    0int
                }),
            decreases n - i,
        {
            let x = self.pending[i];
            proof {
                assert(self.pending@.subrange(0, i as int + 1) =~= self.pending@.subrange(
                    0,
                    i as int,
                ).push(x));
                if self.pending@.subrange(0, i as int).contains(x) {
                    let k = choose|k: int|
                        0 <= k < i && self.pending@.subrange(0, i as int)[k] == x;
                    assert(self.pending@[k] == self.pending@[i as int]);
                    assert(false);
                }
            }
            let ghost prev = kept@;
            if x == from {
                was_pending = true;
            } else {
                kept.push(x);
                proof {
                    assert(!prev.contains(x));
                    assert(kept@.no_duplicates()) by {
                        assert forall|a: int, b: int|
                            0 <= a < kept@.len() && 0 <= b < kept@.len() && a != b implies kept@[a]
                            != kept@[b] by {
                            if a < prev.len() && b < prev.len() {
                                assert(prev[a] == kept@[a]);
                                assert(prev[b] == kept@[b]);
                            } else if a < prev.len() {
                                assert(kept@[b] == x);
                                assert(prev[a] == kept@[a]);
                                assert(prev.contains(prev[a]));
                            } else if b < prev.len() {
                                assert(kept@[a] == x);
                                assert(prev[b] == kept@[b]);
                                assert(prev.contains(prev[b]));
                            }
                        }
                    }
                }
            }
            i = i + 1;
        }
        proof {
            assert(self.pending@.subrange(0, n as int) =~= self.pending@);
        }
        self.pending = kept;
        was_pending
    }

    /// The request's timeout fires: the stream terminates, and whatever
    /// has not arrived will be discarded.
    pub fn on_timeout(&mut self)
        requires
            old(self).wf(),
        ensures
            final(self).wf(),
            final(self).spec_timed_out(),
            final(self).spec_finished(),
            final(self).spec_pending() == old(self).spec_pending(),
            final(self).spec_replies() == old(self).spec_replies(),
    {
        self.timed_out = true;
    }
}

impl Node {
    /// Issues one request: resolves the target topic against every
    /// running queryable and opens the merged reply stream. With zero
    /// matching queryables the stream is terminated from the start —
    /// that is no error. Fails with `QueryFailed` only on a closed node.
    pub fn request(&self, topic: &Topic) -> (r: Result<RequestState, NodeError>)
        requires
            self.wf(),
        ensures
            match r {
                Ok(rs) => {
                    &&& self.spec_open()
                    &&& rs.wf()
                    &&& !rs.spec_timed_out()
                    &&& rs.spec_replies() =~= Seq::<Reply>::empty()
                    &&& forall|id: u64|
                        rs.spec_pending().contains(id) <==> self.query_targets(topic@, id)
                    &&& ((forall|id: u64| !self.query_targets(topic@, id)) ==> rs.spec_finished())
                },
                Err(e) => e == NodeError::QueryFailed && !self.spec_open(),
            },
    {
        if !self.is_open() {
            return Err(NodeError::QueryFailed);
        }
        let pending = self.matching_queryables(topic);
        let rs = RequestState { pending, replies: Vec::new(), timed_out: false };
        proof {
            if forall|id: u64| !self.query_targets(topic@, id) {
                if rs.spec_pending().len() > 0 {
                    assert(rs.spec_pending().contains(rs.spec_pending()[0]));
                }
            }
        }
        Ok(rs)
    }
}

/// The echo request payload of one client wave: the greeting with the
/// wave counter behind it.
pub fn echo_request_payload(counter: u64) -> (r: String)
    ensures
        r@ == "Hello Zenoh! #"@ + spec_decimal(counter as nat),
{
    let mut out = "Hello Zenoh! #".to_owned();
    let digits = to_decimal(counter);
    out.append(digits.as_str());
    out
}

/// The conversion request payload of one client wave: the decimal text
/// of `42` plus the wave counter.
pub fn convert_request_payload(counter: u64) -> (r: String)
    requires
        counter <= u64::MAX - 42,
    ensures
        r@ == spec_decimal((42 + counter) as nat),
{
    to_decimal(42 + counter)
}

} // verus!
