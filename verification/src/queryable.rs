//! The life cycle of one queryable's handler loop.
//!
//! A queryable moves `Registered -> Running -> Draining -> Closed`. While
//! running it accepts queries; several may be in flight at once, each
//! with its own reply channel, and finishing one never touches the
//! channel of another. A drain request stops intake but lets the
//! in-flight queries finish; the loop is closed once the last of them
//! has.

use vstd::prelude::*;

verus! {

broadcast use vstd::seq_lib::group_seq_properties;

/// Where a queryable's handler loop stands in its life cycle.
#[derive(Clone, Copy, Debug, PartialEq, Eq, Structural)]
pub enum QState {
    /// Declared, loop not yet consuming queries.
    Registered,
    /// Loop consuming queries.
    Running,
    /// No new queries accepted; in-flight ones finishing.
    Draining,
    /// All queries finished, registration released.
    Closed,
}

/// The handler loop's state: its phase and the identities of the
/// queries whose reply channels are still open.
pub struct QueryableLoop {
    state: QState,
    inflight: Vec<u64>,
}

impl QueryableLoop {
    /// The phase the loop is in.
    pub closed spec fn spec_state(self) -> QState {
        self.state
    }

    /// The in-flight query identities, in arrival order.
    pub closed spec fn spec_inflight(self) -> Seq<u64> {
        self.inflight@
    }

    /// The query's reply channel is open: replies for it are accepted.
    pub open spec fn channel_open(self, qid: u64) -> bool {
        self.spec_inflight().contains(qid)
    }

    /// No two in-flight entries share an identity.
    pub open spec fn wf(self) -> bool {
        &&& self.spec_inflight().no_duplicates()
        &&& (self.spec_state() is Registered ==> self.spec_inflight().len() == 0)
        &&& (self.spec_state() is Closed ==> self.spec_inflight().len() == 0)
    }

    /// What `query_finished` does: the one query's channel closes, every
    /// other stays as it was, and a draining loop whose last query this
    /// was closes down.
    pub open spec fn finish_transition(pre: QueryableLoop, post: QueryableLoop, qid: u64) -> bool {
        &&& forall|q: u64| post.channel_open(q) <==> (pre.channel_open(q) && q != qid)
        &&& post.spec_state() == if pre.spec_state() is Draining && pre.channel_open(qid)
            && pre.spec_inflight().len() == 1 {
            QState::Closed
        } else {
            pre.spec_state()
        }
    }

    /// The phase the loop is in.
    pub fn state(&self) -> (st: QState)
        ensures
            st == self.spec_state(),
    {
        self.state
    }

    /// How many queries are in flight.
    pub fn inflight_count(&self) -> (n: usize)
        ensures
            n == self.spec_inflight().len(),
    {
        self.inflight.len()
    }

    /// A freshly declared loop: registered, nothing in flight.
    pub fn new() -> (r: QueryableLoop)
        ensures
            r.wf(),
            r.spec_state() is Registered,
            r.spec_inflight() =~= Seq::<u64>::empty(),
    {
        QueryableLoop { state: QState::Registered, inflight: Vec::new() }
    }

    /// The loop begins consuming queries.
    pub fn start(&mut self)
        requires
            old(self).wf(),
            old(self).spec_state() is Registered,
        ensures
            final(self).wf(),
            final(self).spec_state() is Running,
            final(self).spec_inflight() == old(self).spec_inflight(),
    {
        self.state = QState::Running;
    }

    /// A query arrives. It is accepted — its reply channel opens — only
    /// while the loop is running; a draining or closed loop turns it
    /// away, and what is already in flight is never disturbed.
    pub fn query_arrived(&mut self, qid: u64) -> (accepted: bool)
        requires
            old(self).wf(),
            !old(self).channel_open(qid),
        ensures
            final(self).wf(),
            accepted <==> old(self).spec_state() is Running,
            final(self).spec_state() == old(self).spec_state(),
            accepted ==> final(self).spec_inflight() == old(self).spec_inflight().push(qid),
            !accepted ==> final(self).spec_inflight() == old(self).spec_inflight(),
    {
        match self.state {
            QState::Running => {
                self.inflight.push(qid);
                true
            },
            _ => false,
        }
    }

    /// Whether a reply for the query would still be delivered: its
    /// channel is open.
    pub fn reply_allowed(&self, qid: u64) -> (r: bool)
        ensures
            r == self.channel_open(qid),
    {
        contains_u64(&self.inflight, qid)
    }

    /// The handler signalled completion for one query: its reply channel
    /// closes. Every other in-flight query keeps its channel, and a
    /// draining loop closes once nothing is left in flight.
    pub fn query_finished(&mut self, qid: u64) -> (found: bool)
        requires
            old(self).wf(),
        ensures
            final(self).wf(),
            found == old(self).channel_open(qid),
            QueryableLoop::finish_transition(*old(self), *final(self), qid),
            final(self).spec_inflight().len() == old(self).spec_inflight().len() - (
            if old(self).channel_open(qid) {
                1int
            } else {
                0int
            }),
    {
        let mut kept: Vec<u64> = Vec::new();
        let n = self.inflight.len();
        let mut i: usize = 0;
        let mut found = false;
        while i < n
            invariant
                n == self.inflight@.len(),
                0 <= i <= n,
                self.inflight@.no_duplicates(),
                forall|q: u64|
                    kept@.contains(q) <==> (self.inflight@.subrange(0, i as int).contains(q) && q
                        != qid),
                kept@.no_duplicates(),
                found <==> self.inflight@.subrange(0, i as int).contains(qid),
                kept@.len() == i - (
                if self.inflight@.subrange(0, i as int).contains(qid) {
                    1int
                } else {
                    0int
                }),
            decreases n - i,
        {
            let x = self.inflight[i];
            proof {
                assert(self.inflight@.subrange(0, i as int + 1) =~= self.inflight@.subrange(
                    0,
                    i as int,
                ).push(x));
                if self.inflight@.subrange(0, i as int).contains(x) {
                    let k = choose|k: int|
                        0 <= k < i && self.inflight@.subrange(0, i as int)[k] == x;
                    assert(self.inflight@[k] == self.inflight@[i as int]);
                    assert(false);
                }
            }
            let ghost prev = kept@;
            if x == qid {
                found = true;
            } else {
                kept.push(x);
                proof {
                    assert(!prev.contains(x));
                    assert(kept@.no_duplicates()) by {
                        assert forall|a: int, b: int|
                            0 <= a < kept@.len() && 0 <= b < kept@.len() && a != b implies kept@[a]
                            != kept@[b] by {
                            if a < prev.len() && b < prev.len() {
                                assert(prev[a] == kept@[a]);
                                assert(prev[b] == kept@[b]);
                            } else if a < prev.len() {
                                assert(kept@[b] == x);
                                assert(prev[a] == kept@[a]);
                                assert(prev.contains(prev[a]));
                            } else if b < prev.len() {
                                assert(kept@[a] == x);
                                assert(prev[b] == kept@[b]);
                                assert(prev.contains(prev[b]));
                            }
                        }
                    }
                }
            }
            i = i + 1;
        }
        proof {
            assert(self.inflight@.subrange(0, n as int) =~= self.inflight@);
        }
        self.inflight = kept;
        if found && self.inflight.len() == 0 {
            match self.state {
                QState::Draining => {
                    self.state = QState::Closed;
                },
                _ => {},
            }
        }
        found
    }

    /// A shutdown request: intake stops. With nothing in flight the loop
    /// closes at once; otherwise it drains until the last in-flight
    /// query finishes.
    pub fn shutdown(&mut self)
        requires
            old(self).wf(),
        ensures
            final(self).wf(),
            final(self).spec_inflight() == old(self).spec_inflight(),
            final(self).spec_state() == if old(self).spec_inflight().len() == 0 {
                QState::Closed
            } else {
                QState::Draining
            },
    {
        if self.inflight.len() == 0 {
            self.state = QState::Closed;
        } else {
            self.state = QState::Draining;
        }
    }
}

/// Law: a slow query cannot block the others. Finishing one in-flight
/// query leaves the reply channel of every other in-flight query open,
/// exactly as it was.
pub proof fn lemma_finish_leaves_others_open(
    pre: QueryableLoop,
    post: QueryableLoop,
    slow: u64,
    other: u64,
)
    requires
        QueryableLoop::finish_transition(pre, post, slow),
        other != slow,
    ensures
        post.channel_open(other) == pre.channel_open(other),
{
}

/// Whether a vector holds a value.
pub fn contains_u64(v: &Vec<u64>, x: u64) -> (r: bool)
    ensures
        r == v@.contains(x),
{
    let n = v.len();
    let mut i: usize = 0;
    while i < n
        invariant
            n == v@.len(),
            0 <= i <= n,
            forall|k: int| 0 <= k < i ==> v@[k] != x,
        decreases n - i,
    {
        if v[i] == x {
            return true;
        }
        i = i + 1;
    }
    proof {
        if v@.contains(x) {
            let k = choose|k: int| 0 <= k < v@.len() && v@[k] == x;
            assert(false);
        }
    }
    false
}

} // verus!
