//! The node: owner of the substrate handle and the registry of live
//! publishers, subscribers and queryables, with verified routing.
//!
//! Routing is by pattern match: a sample put on a topic is delivered to
//! exactly the active subscribers whose pattern matches it, and a
//! request against a topic targets exactly the running queryables whose
//! pattern matches it. Undeclaring an interest removes it from every
//! future routing decision.

use vstd::prelude::*;

use crate::data::Sample;
use crate::errors::NodeError;
use crate::keyexpr::{seq_matches, Pattern, Topic};
use crate::queryable::QState;

verus! {

broadcast use vstd::seq_lib::group_seq_properties;

/// One registered subscriber: its identity, its pattern, and whether it
/// is still declared.
pub struct SubEntry {
    pub id: u64,
    pub pattern: Pattern,
    pub active: bool,
}

/// One registered publisher: its identity, its fixed topic, and whether
/// it is still declared.
pub struct PubEntry {
    pub id: u64,
    pub topic: Topic,
    pub active: bool,
}

/// One registered queryable: its identity, its pattern, and where its
/// handler loop stands.
pub struct QryEntry {
    pub id: u64,
    pub pattern: Pattern,
    pub state: QState,
}

/// The node. Identifiers are handed out from a counter, so they are
/// strictly increasing within each registry and never reused.
pub struct Node {
    open: bool,
    clock: u64,
    next_id: u64,
    subs: Vec<SubEntry>,
    pubs: Vec<PubEntry>,
    qrys: Vec<QryEntry>,
}

impl Node {
    /// Whether the substrate handle is still open.
    pub closed spec fn spec_open(self) -> bool {
        self.open
    }

    /// The producer clock: the timestamp the next sample will carry.
    pub closed spec fn spec_clock(self) -> u64 {
        self.clock
    }

    /// The identifier the next declaration will receive.
    pub closed spec fn spec_next_id(self) -> u64 {
        self.next_id
    }

    /// The subscriber registry, in declaration order.
    pub closed spec fn spec_subs(self) -> Seq<SubEntry> {
        self.subs@
    }

    /// The publisher registry, in declaration order.
    pub closed spec fn spec_pubs(self) -> Seq<PubEntry> {
        self.pubs@
    }

    /// The queryable registry, in declaration order.
    pub closed spec fn spec_qrys(self) -> Seq<QryEntry> {
        self.qrys@
    }

    /// Registry identifiers are strictly increasing and below the
    /// counter.
    pub open spec fn wf(self) -> bool {
        &&& forall|i: int|
            0 <= i < self.spec_subs().len() ==> (#[trigger] self.spec_subs()[i]).id
                < self.spec_next_id()
        &&& forall|i: int, j: int|
            0 <= i < j < self.spec_subs().len() ==> (#[trigger] self.spec_subs()[i]).id < (
            #[trigger] self.spec_subs()[j]).id
        &&& forall|i: int|
            0 <= i < self.spec_pubs().len() ==> (#[trigger] self.spec_pubs()[i]).id
                < self.spec_next_id()
        &&& forall|i: int, j: int|
            0 <= i < j < self.spec_pubs().len() ==> (#[trigger] self.spec_pubs()[i]).id < (
            #[trigger] self.spec_pubs()[j]).id
        &&& forall|i: int|
            0 <= i < self.spec_qrys().len() ==> (#[trigger] self.spec_qrys()[i]).id
                < self.spec_next_id()
        &&& forall|i: int, j: int|
            0 <= i < j < self.spec_qrys().len() ==> (#[trigger] self.spec_qrys()[i]).id < (
            #[trigger] self.spec_qrys()[j]).id
    }

    /// A sample on topic `t` is delivered to subscriber `id`: the
    /// subscriber is declared, still active, and its pattern matches.
    pub open spec fn delivers_to(self, t: Seq<Seq<char>>, id: u64) -> bool {
        exists|k: int|
            0 <= k < self.spec_subs().len() && (#[trigger] self.spec_subs()[k]).id == id
                && self.spec_subs()[k].active && seq_matches(self.spec_subs()[k].pattern@, t)
    }

    /// A request on topic `t` targets queryable `id`: the queryable is
    /// declared, its loop is running, and its pattern matches.
    pub open spec fn query_targets(self, t: Seq<Seq<char>>, id: u64) -> bool {
        exists|k: int|
            0 <= k < self.spec_qrys().len() && (#[trigger] self.spec_qrys()[k]).id == id
                && self.spec_qrys()[k].state is Running && seq_matches(
                self.spec_qrys()[k].pattern@,
                t,
            )
    }

    /// Publisher `id` is declared and still active.
    pub open spec fn has_active_pub(self, id: u64) -> bool {
        exists|k: int|
            0 <= k < self.spec_pubs().len() && (#[trigger] self.spec_pubs()[k]).id == id
                && self.spec_pubs()[k].active
    }

    /// The topic of active publisher `id`.
    pub open spec fn pub_topic(self, id: u64) -> Seq<Seq<char>> {
        let k = choose|k: int|
            0 <= k < self.spec_pubs().len() && (#[trigger] self.spec_pubs()[k]).id == id
                && self.spec_pubs()[k].active;
        self.spec_pubs()[k].topic@
    }

    /// Every queryable loop has closed.
    pub open spec fn all_queryables_closed(self) -> bool {
        forall|k: int|
            0 <= k < self.spec_qrys().len() ==> (#[trigger] self.spec_qrys()[k]).state is Closed
    }

    /// A fresh node over a newly opened substrate handle: empty
    /// registries, clock at zero.
    pub fn new() -> (n: Node)
        ensures
            n.wf(),
            n.spec_open(),
            n.spec_clock() == 0,
            n.spec_subs() =~= Seq::<SubEntry>::empty(),
            n.spec_pubs() =~= Seq::<PubEntry>::empty(),
            n.spec_qrys() =~= Seq::<QryEntry>::empty(),
    {
        Node {
            open: true,
            clock: 0,
            next_id: 0,
            subs: Vec::new(),
            pubs: Vec::new(),
            qrys: Vec::new(),
        }
    }

    /// Whether another declaration can still be given an identifier.
    pub fn can_declare(&self) -> (r: bool)
        ensures
            r == (self.spec_next_id() < u64::MAX),
    {
        self.next_id < u64::MAX
    }

    /// Whether the producer clock can still stamp a sample.
    pub fn can_publish(&self) -> (r: bool)
        ensures
            r == (self.spec_clock() < u64::MAX),
    {
        self.clock < u64::MAX
    }

    /// Whether the node is still open.
    pub fn is_open(&self) -> (r: bool)
        ensures
            r == self.spec_open(),
    {
        self.open
    }

    /// Registers a subscriber for a pattern. From this point on, samples
    /// whose topic matches are routed to the returned identifier — there
    /// is no replay of earlier samples. Fails with `ConnectionError` on
    /// a closed node.
    pub fn declare_subscriber(&mut self, pattern: Pattern) -> (r: Result<u64, NodeError>)
        requires
            old(self).wf(),
            old(self).spec_next_id() < u64::MAX,
        ensures
            final(self).wf(),
            final(self).spec_open() == old(self).spec_open(),
            final(self).spec_clock() == old(self).spec_clock(),
            final(self).spec_pubs() == old(self).spec_pubs(),
            final(self).spec_qrys() == old(self).spec_qrys(),
            match r {
                Ok(id) => {
                    &&& old(self).spec_open()
                    &&& id == old(self).spec_next_id()
                    &&& final(self).spec_subs().len() == old(self).spec_subs().len() + 1
                    &&& forall|k: int|
                        0 <= k < old(self).spec_subs().len() ==> final(self).spec_subs()[k] == old(self).spec_subs()[k]
                    &&& final(self).spec_subs().last().id == id
                    &&& final(self).spec_subs().last().pattern == pattern
                    &&& final(self).spec_subs().last().active
                },
                Err(e) => {
                    &&& e == NodeError::ConnectionError
                    &&& !old(self).spec_open()
                    &&& final(self).spec_subs() == old(self).spec_subs()
                },
            },
    {
        if !self.open {
            return Err(NodeError::ConnectionError);
        }
        let id = self.next_id;
        self.next_id = self.next_id + 1;
        let entry = SubEntry { id, pattern, active: true };
        let ghost ge = entry;
        self.subs.push(entry);
        proof {
            assert(self.spec_subs() == old(self).spec_subs().push(ge));
            assert(self.spec_pubs() == old(self).spec_pubs());
            assert(self.spec_qrys() == old(self).spec_qrys());
            assert(self.wf());
        }
        Ok(id)
    }

    /// Registers a publisher bound to one literal topic. Fails with
    /// `ConnectionError` on a closed node.
    pub fn declare_publisher(&mut self, topic: Topic) -> (r: Result<u64, NodeError>)
        requires
            old(self).wf(),
            old(self).spec_next_id() < u64::MAX,
        ensures
            final(self).wf(),
            final(self).spec_open() == old(self).spec_open(),
            final(self).spec_clock() == old(self).spec_clock(),
            final(self).spec_subs() == old(self).spec_subs(),
            final(self).spec_qrys() == old(self).spec_qrys(),
            match r {
                Ok(id) => {
                    &&& old(self).spec_open()
                    &&& id == old(self).spec_next_id()
                    &&& final(self).spec_pubs().len() == old(self).spec_pubs().len() + 1
                    &&& forall|k: int|
                        0 <= k < old(self).spec_pubs().len() ==> final(self).spec_pubs()[k] == old(self).spec_pubs()[k]
                    &&& final(self).spec_pubs().last().id == id
                    &&& final(self).spec_pubs().last().topic == topic
                    &&& final(self).spec_pubs().last().active
                    &&& final(self).has_active_pub(id)
                },
                Err(e) => {
                    &&& e == NodeError::ConnectionError
                    &&& !old(self).spec_open()
                    &&& final(self).spec_pubs() == old(self).spec_pubs()
                },
            },
    {
        if !self.open {
            return Err(NodeError::ConnectionError);
        }
        let id = self.next_id;
        self.next_id = self.next_id + 1;
        let entry = PubEntry { id, topic, active: true };
        let ghost ge = entry;
        self.pubs.push(entry);
        proof {
            assert(self.spec_pubs() == old(self).spec_pubs().push(ge));
            assert(self.spec_subs() == old(self).spec_subs());
            assert(self.spec_qrys() == old(self).spec_qrys());
            assert(self.wf());
            let k = self.pubs@.len() - 1;
            assert((#[trigger] self.spec_pubs()[k]).id == id && self.spec_pubs()[k].active);
        }
        Ok(id)
    }

    /// Registers a queryable for a pattern; its handler loop starts out
    /// `Registered`. Fails with `ConnectionError` on a closed node.
    pub fn declare_queryable(&mut self, pattern: Pattern) -> (r: Result<u64, NodeError>)
        requires
            old(self).wf(),
            old(self).spec_next_id() < u64::MAX,
        ensures
            final(self).wf(),
            final(self).spec_open() == old(self).spec_open(),
            final(self).spec_clock() == old(self).spec_clock(),
            final(self).spec_subs() == old(self).spec_subs(),
            final(self).spec_pubs() == old(self).spec_pubs(),
            match r {
                Ok(id) => {
                    &&& old(self).spec_open()
                    &&& id == old(self).spec_next_id()
                    &&& final(self).spec_qrys().len() == old(self).spec_qrys().len() + 1
                    &&& forall|k: int|
                        0 <= k < old(self).spec_qrys().len() ==> final(self).spec_qrys()[k] == old(self).spec_qrys()[k]
                    &&& final(self).spec_qrys().last().id == id
                    &&& final(self).spec_qrys().last().pattern == pattern
                    &&& final(self).spec_qrys().last().state is Registered
                },
                Err(e) => {
                    &&& e == NodeError::ConnectionError
                    &&& !old(self).spec_open()
                    &&& final(self).spec_qrys() == old(self).spec_qrys()
                },
            },
    {
        if !self.open {
            return Err(NodeError::ConnectionError);
        }
        let id = self.next_id;
        self.next_id = self.next_id + 1;
        let entry = QryEntry { id, pattern, state: QState::Registered };
        let ghost ge = entry;
        self.qrys.push(entry);
        proof {
            assert(self.spec_qrys() == old(self).spec_qrys().push(ge));
            assert(self.spec_subs() == old(self).spec_subs());
            assert(self.spec_pubs() == old(self).spec_pubs());
            assert(self.wf());
        }
        Ok(id)
    }

    /// Withdraws a subscriber. After this, no sample is routed to the
    /// identifier again, whatever publishers keep putting.
    pub fn undeclare_subscriber(&mut self, id: u64) -> (found: bool)
        requires
            old(self).wf(),
        ensures
            final(self).wf(),
            final(self).spec_open() == old(self).spec_open(),
            final(self).spec_clock() == old(self).spec_clock(),
            final(self).spec_next_id() == old(self).spec_next_id(),
            final(self).spec_pubs() == old(self).spec_pubs(),
            final(self).spec_qrys() == old(self).spec_qrys(),
            final(self).spec_subs().len() == old(self).spec_subs().len(),
            forall|k: int|
                0 <= k < old(self).spec_subs().len() && (#[trigger] old(self).spec_subs()[k]).id
                    != id ==> final(self).spec_subs()[k] == old(self).spec_subs()[k],
            forall|k: int|
                0 <= k < old(self).spec_subs().len() && (#[trigger] old(self).spec_subs()[k]).id
                    == id ==> final(self).spec_subs()[k].id == id && !final(self).spec_subs()[k].active,
            found <==> (exists|k: int|
                0 <= k < old(self).spec_subs().len() && (#[trigger] old(self).spec_subs()[k]).id
                    == id),
            forall|t: Seq<Seq<char>>| !final(self).delivers_to(t, id),
    {
        let n = self.subs.len();
        let mut i: usize = 0;
        let mut found = false;
        while i < n
            invariant
                n == self.subs@.len(),
                0 <= i <= n,
                self.subs@.len() == old(self).spec_subs().len(),
                forall|k: int|
                    0 <= k < n && (#[trigger] old(self).spec_subs()[k]).id != id ==> self.subs@[k]
                        == old(self).spec_subs()[k],
                forall|k: int|
                    i <= k < n ==> self.subs@[k] == (#[trigger] old(self).spec_subs()[k]),
                forall|k: int|
                    0 <= k < i && (#[trigger] old(self).spec_subs()[k]).id == id ==> self.subs@[k].id
                        == id && !self.subs@[k].active,
                found <==> (exists|k: int|
                    0 <= k < i && (#[trigger] old(self).spec_subs()[k]).id == id),
                self.open == old(self).spec_open(),
                self.clock == old(self).spec_clock(),
                self.next_id == old(self).spec_next_id(),
                self.pubs@ == old(self).spec_pubs(),
                self.qrys@ == old(self).spec_qrys(),
            decreases n - i,
        {
            if self.subs[i].id == id {
                let ghost before = self.subs@;
                let entry = self.subs.remove(i);
                self.subs.insert(i, SubEntry { id: entry.id, pattern: entry.pattern, active: false });
                found = true;
                proof {
                    assert(self.subs@ =~= before.update(
                        i as int,
                        (SubEntry { id: entry.id, pattern: entry.pattern, active: false }),
                    ));
                    assert((#[trigger] old(self).spec_subs()[i as int]).id == id);
                }
            }
            i = i + 1;
        }
        proof {
            assert forall|t: Seq<Seq<char>>| !final(self).delivers_to(t, id) by {
                if final(self).delivers_to(t, id) {
                    let k = choose|k: int|
                        0 <= k < final(self).spec_subs().len() && (#[trigger] final(self).spec_subs()[k]).id == id && final(self).spec_subs()[k].active
                            && seq_matches(final(self).spec_subs()[k].pattern@, t);
                    if old(self).spec_subs()[k].id == id {
                        assert(!final(self).spec_subs()[k].active);
                    } else {
                        assert(final(self).spec_subs()[k] == old(self).spec_subs()[k]);
                    }
                }
            }
            assert(self.spec_pubs() == old(self).spec_pubs());
            assert(self.spec_qrys() == old(self).spec_qrys());
            assert(self.spec_next_id() == old(self).spec_next_id());
            assert forall|k: int|
                0 <= k < self.spec_subs().len() implies (#[trigger] self.spec_subs()[k]).id == old(
                self,
            ).spec_subs()[k].id by {
                if old(self).spec_subs()[k].id != id {
                    assert(self.spec_subs()[k] == old(self).spec_subs()[k]);
                }
            }
            assert forall|k: int|
                0 <= k < self.spec_subs().len() implies (#[trigger] self.spec_subs()[k]).id
                < self.spec_next_id() by {
                assert(old(self).spec_subs()[k].id < old(self).spec_next_id());
            }
            assert forall|a: int, b: int|
                0 <= a < b < self.spec_subs().len() implies (#[trigger] self.spec_subs()[a]).id < (
                #[trigger] self.spec_subs()[b]).id by {
                assert(old(self).spec_subs()[a].id < old(self).spec_subs()[b].id);
            }
            assert(self.wf());
        }
        found
    }

    /// Routes one sample topic: the identifiers of exactly those
    /// subscribers the sample is delivered to, without repetition.
    pub fn route_sample(&self, topic: &Topic) -> (ids: Vec<u64>)
        requires
            self.wf(),
        ensures
            forall|id: u64| ids@.contains(id) <==> self.delivers_to(topic@, id),
            ids@.no_duplicates(),
            forall|a: int, b: int| 0 <= a < b < ids@.len() ==> ids@[a] < ids@[b],
    {
        let n = self.subs.len();
        let mut ids: Vec<u64> = Vec::new();
        let mut i: usize = 0;
        while i < n
            invariant
                self.wf(),
                n == self.spec_subs().len(),
                0 <= i <= n,
                forall|id: u64|
                    ids@.contains(id) <==> (exists|k: int|
                        0 <= k < i && (#[trigger] self.spec_subs()[k]).id == id
                            && self.spec_subs()[k].active && seq_matches(
                            self.spec_subs()[k].pattern@,
                            topic@,
                        )),
                forall|j: int|
                    0 <= j < ids@.len() ==> (exists|k: int|
                        0 <= k < i && (#[trigger] self.spec_subs()[k]).id == #[trigger] ids@[j]),
                ids@.no_duplicates(),
                forall|a: int, b: int| 0 <= a < b < ids@.len() ==> ids@[a] < ids@[b],
            decreases n - i,
        {
            let e = &self.subs[i];
            if e.active && e.pattern.matches(topic) {
                proof {
                    assert forall|j: int| 0 <= j < ids@.len() implies ids@[j] < e.id by {
                        let k = choose|k: int|
                            0 <= k < i && (#[trigger] self.spec_subs()[k]).id == ids@[j];
                        assert(self.spec_subs()[k].id < self.spec_subs()[i as int].id);
                    }
                    if ids@.contains(e.id) {
                        let j = choose|j: int| 0 <= j < ids@.len() && ids@[j] == e.id;
                        assert(false);
                    }
                }
                let ghost prev = ids@;
                ids.push(e.id);
                proof {
                    assert(ids@.drop_last() =~= prev);
                    assert(ids@.no_duplicates()) by {
                        assert forall|a: int, b: int|
                            0 <= a < ids@.len() && 0 <= b < ids@.len() && a != b implies ids@[a]
                            != ids@[b] by {
                            if a < prev.len() && b < prev.len() {
                                assert(prev[a] == ids@[a]);
                                assert(prev[b] == ids@[b]);
                            } else if a < prev.len() {
                                assert(ids@[b] == self.spec_subs()[i as int].id);
                                assert(prev[a] == ids@[a]);
                            } else if b < prev.len() {
                                assert(ids@[a] == self.spec_subs()[i as int].id);
                                assert(prev[b] == ids@[b]);
                            }
                        }
                    }
                }
            }
            i = i + 1;
        }
        ids
    }

    /// Resolves one request topic: the identifiers of exactly those
    /// running queryables the request targets, without repetition.
    pub fn matching_queryables(&self, topic: &Topic) -> (ids: Vec<u64>)
        requires
            self.wf(),
        ensures
            forall|id: u64| ids@.contains(id) <==> self.query_targets(topic@, id),
            ids@.no_duplicates(),
            forall|a: int, b: int| 0 <= a < b < ids@.len() ==> ids@[a] < ids@[b],
    {
        let n = self.qrys.len();
        let mut ids: Vec<u64> = Vec::new();
        let mut i: usize = 0;
        while i < n
            invariant
                self.wf(),
                n == self.spec_qrys().len(),
                0 <= i <= n,
                forall|id: u64|
                    ids@.contains(id) <==> (exists|k: int|
                        0 <= k < i && (#[trigger] self.spec_qrys()[k]).id == id
                            && self.spec_qrys()[k].state is Running && seq_matches(
                            self.spec_qrys()[k].pattern@,
                            topic@,
                        )),
                forall|j: int|
                    0 <= j < ids@.len() ==> (exists|k: int|
                        0 <= k < i && (#[trigger] self.spec_qrys()[k]).id == #[trigger] ids@[j]),
                ids@.no_duplicates(),
                forall|a: int, b: int| 0 <= a < b < ids@.len() ==> ids@[a] < ids@[b],
            decreases n - i,
        {
            let e = &self.qrys[i];
            let running = match e.state {
                QState::Running => true,
                _ => false,
            };
            if running && e.pattern.matches(topic) {
                proof {
                    assert forall|j: int| 0 <= j < ids@.len() implies ids@[j] < e.id by {
                        let k = choose|k: int|
                            0 <= k < i && (#[trigger] self.spec_qrys()[k]).id == ids@[j];
                        assert(self.spec_qrys()[k].id < self.spec_qrys()[i as int].id);
                    }
                    if ids@.contains(e.id) {
                        let j = choose|j: int| 0 <= j < ids@.len() && ids@[j] == e.id;
                        assert(false);
                    }
                }
                let ghost prev = ids@;
                ids.push(e.id);
                proof {
                    assert(ids@.drop_last() =~= prev);
                    assert(ids@.no_duplicates()) by {
                        assert forall|a: int, b: int|
                            0 <= a < ids@.len() && 0 <= b < ids@.len() && a != b implies ids@[a]
                            != ids@[b] by {
                            if a < prev.len() && b < prev.len() {
                                assert(prev[a] == ids@[a]);
                                assert(prev[b] == ids@[b]);
                            } else if a < prev.len() {
                                assert(ids@[b] == self.spec_qrys()[i as int].id);
                                assert(prev[a] == ids@[a]);
                            } else if b < prev.len() {
                                assert(ids@[a] == self.spec_qrys()[i as int].id);
                                assert(prev[b] == ids@[b]);
                            }
                        }
                    }
                }
            }
            i = i + 1;
        }
        ids
    }

    /// Moves one queryable's recorded loop phase along a legal step of
    /// its life cycle. An unknown identifier or an illegal step changes
    /// nothing and reports `false`.
    pub fn advance_queryable(&mut self, id: u64, st: QState) -> (changed: bool)
        requires
            old(self).wf(),
        ensures
            final(self).wf(),
            final(self).spec_open() == old(self).spec_open(),
            final(self).spec_clock() == old(self).spec_clock(),
            final(self).spec_next_id() == old(self).spec_next_id(),
            final(self).spec_subs() == old(self).spec_subs(),
            final(self).spec_pubs() == old(self).spec_pubs(),
            final(self).spec_qrys().len() == old(self).spec_qrys().len(),
            forall|k: int|
                0 <= k < old(self).spec_qrys().len() && (#[trigger] old(self).spec_qrys()[k]).id
                    != id ==> final(self).spec_qrys()[k] == old(self).spec_qrys()[k],
            changed <==> (exists|k: int|
                0 <= k < old(self).spec_qrys().len() && (#[trigger] old(self).spec_qrys()[k]).id
                    == id && legal_qstate_step(old(self).spec_qrys()[k].state, st)),
            forall|k: int|
                0 <= k < old(self).spec_qrys().len() && (#[trigger] old(self).spec_qrys()[k]).id
                    == id && legal_qstate_step(old(self).spec_qrys()[k].state, st) ==> final(self).spec_qrys()[k].id == id && final(self).spec_qrys()[k].pattern == old(self).spec_qrys()[k].pattern && final(self).spec_qrys()[k].state == st,
            forall|k: int|
                0 <= k < old(self).spec_qrys().len() && (#[trigger] old(self).spec_qrys()[k]).id
                    == id && !legal_qstate_step(old(self).spec_qrys()[k].state, st) ==> final(self).spec_qrys()[k] == old(self).spec_qrys()[k],
    {
        let n = self.qrys.len();
        let mut i: usize = 0;
        let mut changed = false;
        while i < n
            invariant
                n == self.qrys@.len(),
                0 <= i <= n,
                self.qrys@.len() == old(self).spec_qrys().len(),
                forall|k: int|
                    i <= k < n ==> self.qrys@[k] == (#[trigger] old(self).spec_qrys()[k]),
                forall|k: int|
                    0 <= k < n && (#[trigger] old(self).spec_qrys()[k]).id != id ==> self.qrys@[k]
                        == old(self).spec_qrys()[k],
                forall|k: int|
                    0 <= k < i && (#[trigger] old(self).spec_qrys()[k]).id == id
                        && legal_qstate_step(old(self).spec_qrys()[k].state, st) ==> self.qrys@[k].id
                        == id && self.qrys@[k].pattern == old(self).spec_qrys()[k].pattern
                        && self.qrys@[k].state == st,
                forall|k: int|
                    0 <= k < i && (#[trigger] old(self).spec_qrys()[k]).id == id
                        && !legal_qstate_step(old(self).spec_qrys()[k].state, st) ==> self.qrys@[k]
                        == old(self).spec_qrys()[k],
                changed <==> (exists|k: int|
                    0 <= k < i && (#[trigger] old(self).spec_qrys()[k]).id == id
                        && legal_qstate_step(old(self).spec_qrys()[k].state, st)),
                self.open == old(self).spec_open(),
                self.clock == old(self).spec_clock(),
                self.next_id == old(self).spec_next_id(),
                self.subs@ == old(self).spec_subs(),
                self.pubs@ == old(self).spec_pubs(),
            decreases n - i,
        {
            if self.qrys[i].id == id {
                let cur = self.qrys[i].state;
                if qstate_step_ok(cur, st) {
                    let ghost before = self.qrys@;
                    let entry = self.qrys.remove(i);
                    self.qrys.insert(i, QryEntry { id: entry.id, pattern: entry.pattern, state: st });
                    changed = true;
                    proof {
                        assert(self.qrys@ =~= before.update(
                            i as int,
                            (QryEntry { id: entry.id, pattern: entry.pattern, state: st }),
                        ));
                        assert((#[trigger] old(self).spec_qrys()[i as int]).id == id);
                    }
                }
            }
            i = i + 1;
        }
        proof {
            assert(self.spec_subs() == old(self).spec_subs());
            assert(self.spec_pubs() == old(self).spec_pubs());
            assert(self.spec_next_id() == old(self).spec_next_id());
            assert forall|k: int|
                0 <= k < self.spec_qrys().len() implies (#[trigger] self.spec_qrys()[k]).id == old(
                self,
            ).spec_qrys()[k].id by {
                if old(self).spec_qrys()[k].id != id {
                    assert(self.spec_qrys()[k] == old(self).spec_qrys()[k]);
                }
            }
            assert forall|k: int|
                0 <= k < self.spec_qrys().len() implies (#[trigger] self.spec_qrys()[k]).id
                < self.spec_next_id() by {
                assert(old(self).spec_qrys()[k].id < old(self).spec_next_id());
            }
            assert forall|a: int, b: int|
                0 <= a < b < self.spec_qrys().len() implies (#[trigger] self.spec_qrys()[a]).id < (
                #[trigger] self.spec_qrys()[b]).id by {
                assert(old(self).spec_qrys()[a].id < old(self).spec_qrys()[b].id);
            }
            assert(self.wf());
        }
        changed
    }

    /// Hands one sample to the substrate: stamps it with the producer
    /// clock and addresses it with the publisher's topic. Fails with
    /// `PublishFailed` when the node is closed or the publisher is gone,
    /// and succeeds otherwise.
    pub fn publish(&mut self, pub_id: u64, payload: String) -> (r: Result<Sample, NodeError>)
        requires
            old(self).wf(),
            old(self).spec_clock() < u64::MAX,
        ensures
            final(self).wf(),
            final(self).spec_open() == old(self).spec_open(),
            final(self).spec_next_id() == old(self).spec_next_id(),
            final(self).spec_subs() == old(self).spec_subs(),
            final(self).spec_pubs() == old(self).spec_pubs(),
            final(self).spec_qrys() == old(self).spec_qrys(),
            match r {
                Ok(s) => {
                    &&& old(self).spec_open()
                    &&& old(self).has_active_pub(pub_id)
                    &&& s.topic@ == old(self).pub_topic(pub_id)
                    &&& s.payload == payload
                    &&& s.timestamp == old(self).spec_clock()
                    &&& final(self).spec_clock() == old(self).spec_clock() + 1
                },
                Err(e) => {
                    &&& e == NodeError::PublishFailed
                    &&& !(old(self).spec_open() && old(self).has_active_pub(pub_id))
                    &&& final(self).spec_clock() == old(self).spec_clock()
                },
            },
    {
        if !self.open {
            return Err(NodeError::PublishFailed);
        }
        let n = self.pubs.len();
        let mut i: usize = 0;
        while i < n
            invariant
                self.wf(),
                n == self.spec_pubs().len(),
                0 <= i <= n,
                forall|k: int|
                    0 <= k < i ==> !((#[trigger] self.spec_pubs()[k]).id == pub_id
                        && self.spec_pubs()[k].active),
                self.spec_open(),
                old(self).spec_open(),
                self.spec_clock() == old(self).spec_clock(),
                self.spec_clock() < u64::MAX,
                self.spec_next_id() == old(self).spec_next_id(),
                self.spec_subs() == old(self).spec_subs(),
                self.spec_pubs() == old(self).spec_pubs(),
                self.spec_qrys() == old(self).spec_qrys(),
            decreases n - i,
        {
            let e = &self.pubs[i];
            if e.id == pub_id && e.active {
                let topic = e.topic.duplicate();
                let timestamp = self.clock;
                self.clock = self.clock + 1;
                proof {
                    let k = choose|k: int|
                        0 <= k < self.spec_pubs().len() && (#[trigger] self.spec_pubs()[k]).id
                            == pub_id && self.spec_pubs()[k].active;
                    if k != i as int {
                        assert(self.spec_pubs()[k].id == self.spec_pubs()[i as int].id);
                        assert(false);
                    }
                }
                return Ok(Sample { topic, payload, timestamp });
            }
            i = i + 1;
        }
        proof {
            if self.has_active_pub(pub_id) {
                let k = choose|k: int|
                    0 <= k < self.spec_pubs().len() && (#[trigger] self.spec_pubs()[k]).id == pub_id
                        && self.spec_pubs()[k].active;
                assert(false);
            }
        }
        Err(NodeError::PublishFailed)
    }

    /// Releases the substrate handle. Only legal once every queryable
    /// loop has closed: live handler loops must be drained first.
    pub fn close(&mut self)
        requires
            old(self).wf(),
            old(self).all_queryables_closed(),
        ensures
            final(self).wf(),
            !final(self).spec_open(),
            final(self).spec_clock() == old(self).spec_clock(),
            final(self).spec_next_id() == old(self).spec_next_id(),
            final(self).spec_subs() == old(self).spec_subs(),
            final(self).spec_pubs() == old(self).spec_pubs(),
            final(self).spec_qrys() == old(self).spec_qrys(),
    {
        self.open = false;
        proof {
            assert(self.spec_subs() == old(self).spec_subs());
            assert(self.spec_pubs() == old(self).spec_pubs());
            assert(self.spec_qrys() == old(self).spec_qrys());
            assert(self.spec_next_id() == old(self).spec_next_id());
            assert(self.wf());
        }
    }
}

/// The legal steps of a queryable loop's life cycle, as the node's
/// registry records it: start, drain, and close — with a shortcut
/// straight to `Closed` for a loop that had nothing in flight or never
/// started.
pub open spec fn legal_qstate_step(from: QState, to: QState) -> bool {
    match (from, to) {
        (QState::Registered, QState::Running) => true,
        (QState::Registered, QState::Closed) => true,
        (QState::Running, QState::Draining) => true,
        (QState::Running, QState::Closed) => true,
        (QState::Draining, QState::Closed) => true,
        _ => false,
    }
}

/// Executable twin of [`legal_qstate_step`].
fn qstate_step_ok(from: QState, to: QState) -> (r: bool)
    ensures
        r == legal_qstate_step(from, to),
{
    match (from, to) {
        (QState::Registered, QState::Running) => true,
        (QState::Registered, QState::Closed) => true,
        (QState::Running, QState::Draining) => true,
        (QState::Running, QState::Closed) => true,
        (QState::Draining, QState::Closed) => true,
        _ => false,
    }
}

} // verus!
