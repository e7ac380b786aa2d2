use znode::data::{Reply, ReplyStatus};
use znode::dispatcher::{convert_request_payload, echo_request_payload};
use znode::errors::NodeError;
use znode::keyexpr::{Pattern, Topic};
use znode::node::Node;
use znode::queryable::QState;

fn reply(query_id: u64, text: &str) -> Reply {
    Reply { query_id, payload: String::from(text), status: ReplyStatus::Success }
}

#[test]
fn zero_matches_give_an_empty_finished_stream() {
    let mut node = Node::new();
    // a queryable exists, but for another pattern, and a matching one is
    // declared yet not running
    let _echo = node.declare_queryable(Pattern::parse("service/echo").unwrap()).unwrap();
    let _idle = node.declare_queryable(Pattern::parse("service/none").unwrap()).unwrap();
    let rs = node.request(&Topic::parse("service/none").unwrap()).unwrap();
    assert!(rs.is_finished());
    assert_eq!(rs.reply_count(), 0);
}

#[test]
fn a_request_fans_out_to_running_matching_queryables() {
    let mut node = Node::new();
    let echo = node.declare_queryable(Pattern::parse("service/echo").unwrap()).unwrap();
    let wild = node.declare_queryable(Pattern::parse("service/**").unwrap()).unwrap();
    let conv = node.declare_queryable(Pattern::parse("service/convert").unwrap()).unwrap();
    assert!(node.advance_queryable(echo, QState::Running));
    assert!(node.advance_queryable(wild, QState::Running));
    assert!(node.advance_queryable(conv, QState::Running));

    let mut rs = node.request(&Topic::parse("service/echo").unwrap()).unwrap();
    assert!(!rs.is_finished());

    // the targeted queryables reply and finish, in any order
    assert!(rs.on_reply(wild, reply(1, "from wild")));
    assert!(rs.on_finish(wild));
    assert!(!rs.is_finished());
    assert!(rs.on_reply(echo, reply(2, "from echo")));
    assert!(rs.on_finish(echo));
    assert!(rs.is_finished());

    // replies came in arrival order
    assert_eq!(rs.reply_count(), 2);
    assert_eq!(rs.reply_at(0).payload.as_str(), "from wild");
    assert_eq!(rs.reply_at(1).payload.as_str(), "from echo");

    // the convert service was never targeted
    assert!(!rs.on_reply(conv, reply(3, "unsolicited")));
    assert_eq!(rs.reply_count(), 2);
}

#[test]
fn requests_fail_only_on_a_closed_node() {
    let mut node = Node::new();
    node.close();
    match node.request(&Topic::parse("service/echo").unwrap()) {
        Err(e) => assert_eq!(e, NodeError::QueryFailed),
        Ok(_) => panic!("a closed node accepted a request"),
    }
}

#[test]
fn late_replies_after_timeout_are_discarded() {
    let mut node = Node::new();
    let slow = node.declare_queryable(Pattern::parse("service/slow").unwrap()).unwrap();
    assert!(node.advance_queryable(slow, QState::Running));
    let mut rs = node.request(&Topic::parse("service/slow").unwrap()).unwrap();
    assert!(!rs.is_finished());
    rs.on_timeout();
    assert!(rs.is_finished());
    assert!(!rs.on_reply(slow, reply(1, "too late")));
    assert_eq!(rs.reply_count(), 0);
}

#[test]
fn finishing_twice_is_harmless() {
    let mut node = Node::new();
    let q = node.declare_queryable(Pattern::parse("s").unwrap()).unwrap();
    assert!(node.advance_queryable(q, QState::Running));
    let mut rs = node.request(&Topic::parse("s").unwrap()).unwrap();
    assert!(rs.on_finish(q));
    assert!(!rs.on_finish(q));
    assert!(rs.is_finished());
}

#[test]
fn client_wave_payloads_follow_the_formulas() {
    assert_eq!(echo_request_payload(1).as_str(), "Hello Zenoh! #1");
    assert_eq!(echo_request_payload(12).as_str(), "Hello Zenoh! #12");
    assert_eq!(convert_request_payload(1).as_str(), "43");
    assert_eq!(convert_request_payload(58).as_str(), "100");
}
