use znode::errors::NodeError;
use znode::keyexpr::{Pattern, Topic};
use znode::node::Node;
use znode::queryable::QState;

#[test]
fn samples_route_to_matching_active_subscribers() {
    let mut node = Node::new();
    let all = node.declare_subscriber(Pattern::parse("sensor/**").unwrap()).unwrap();
    let temp = node.declare_subscriber(Pattern::parse("sensor/temperature").unwrap()).unwrap();
    let other = node.declare_subscriber(Pattern::parse("door/*").unwrap()).unwrap();

    let t = Topic::parse("sensor/temperature").unwrap();
    let ids = node.route_sample(&t);
    assert_eq!(ids, vec![all, temp]);
    assert!(!ids.contains(&other));
}

#[test]
fn undeclared_subscriber_receives_nothing_more() {
    let mut node = Node::new();
    let sub = node.declare_subscriber(Pattern::parse("sensor/**").unwrap()).unwrap();
    let t = Topic::parse("sensor/temperature").unwrap();
    assert_eq!(node.route_sample(&t), vec![sub]);

    assert!(node.undeclare_subscriber(sub));
    // the publisher keeps putting on a matching topic; nothing reaches `sub`
    assert_eq!(node.route_sample(&t), Vec::<u64>::new());
    assert_eq!(node.route_sample(&Topic::parse("sensor/hum").unwrap()), Vec::<u64>::new());
}

#[test]
fn undeclaring_an_unknown_id_changes_nothing() {
    let mut node = Node::new();
    let sub = node.declare_subscriber(Pattern::parse("a/**").unwrap()).unwrap();
    assert!(!node.undeclare_subscriber(sub + 17));
    assert_eq!(node.route_sample(&Topic::parse("a/b").unwrap()), vec![sub]);
}

#[test]
fn publish_stamps_samples_with_a_monotonic_clock() {
    let mut node = Node::new();
    let pb = node.declare_publisher(Topic::parse("sensor/temperature").unwrap()).unwrap();
    let s1 = node.publish(pb, String::from("Temp = 25.0")).unwrap();
    let s2 = node.publish(pb, String::from("Temp = 25.1")).unwrap();
    assert_eq!(s1.timestamp, 0);
    assert_eq!(s2.timestamp, 1);
    assert_eq!(s1.payload.as_str(), "Temp = 25.0");
    assert_eq!(s1.topic.len(), 2);
    assert_eq!(s1.topic.segment(0).as_str(), "sensor");
    assert_eq!(s1.topic.segment(1).as_str(), "temperature");
}

#[test]
fn publish_fails_for_unknown_publishers_and_closed_nodes() {
    let mut node = Node::new();
    assert_eq!(node.publish(0, String::from("x")).unwrap_err(), NodeError::PublishFailed);
    let pb = node.declare_publisher(Topic::parse("a").unwrap()).unwrap();
    node.close();
    assert_eq!(node.publish(pb, String::from("x")).unwrap_err(), NodeError::PublishFailed);
}

#[test]
fn declarations_fail_on_a_closed_node() {
    let mut node = Node::new();
    node.close();
    assert!(!node.is_open());
    assert_eq!(
        node.declare_subscriber(Pattern::parse("a").unwrap()).unwrap_err(),
        NodeError::ConnectionError
    );
    assert_eq!(
        node.declare_publisher(Topic::parse("a").unwrap()).unwrap_err(),
        NodeError::ConnectionError
    );
    assert_eq!(
        node.declare_queryable(Pattern::parse("a").unwrap()).unwrap_err(),
        NodeError::ConnectionError
    );
}

#[test]
fn queryable_life_cycle_is_enforced() {
    let mut node = Node::new();
    let q = node.declare_queryable(Pattern::parse("service/echo").unwrap()).unwrap();
    // a registered loop cannot drain before it runs
    assert!(!node.advance_queryable(q, QState::Draining));
    assert!(node.advance_queryable(q, QState::Running));
    // it cannot start twice
    assert!(!node.advance_queryable(q, QState::Running));
    assert!(node.advance_queryable(q, QState::Draining));
    assert!(node.advance_queryable(q, QState::Closed));
    assert!(!node.advance_queryable(q, QState::Running));
}

#[test]
fn identifiers_are_never_reused() {
    let mut node = Node::new();
    let a = node.declare_subscriber(Pattern::parse("a").unwrap()).unwrap();
    let b = node.declare_publisher(Topic::parse("b").unwrap()).unwrap();
    let c = node.declare_queryable(Pattern::parse("c").unwrap()).unwrap();
    assert!(a < b && b < c);
}
