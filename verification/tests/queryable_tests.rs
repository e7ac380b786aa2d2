use znode::queryable::{QState, QueryableLoop};

#[test]
fn loop_life_cycle() {
    let mut lp = QueryableLoop::new();
    assert_eq!(lp.state(), QState::Registered);
    lp.start();
    assert_eq!(lp.state(), QState::Running);
    assert!(lp.query_arrived(1));
    lp.shutdown();
    assert_eq!(lp.state(), QState::Draining);
    assert!(lp.query_finished(1));
    assert_eq!(lp.state(), QState::Closed);
}

#[test]
fn shutdown_with_nothing_in_flight_closes_at_once() {
    let mut lp = QueryableLoop::new();
    lp.start();
    lp.shutdown();
    assert_eq!(lp.state(), QState::Closed);
}

#[test]
fn a_draining_loop_turns_new_queries_away() {
    let mut lp = QueryableLoop::new();
    lp.start();
    assert!(lp.query_arrived(1));
    lp.shutdown();
    assert!(!lp.query_arrived(2));
    assert_eq!(lp.inflight_count(), 1);
}

#[test]
fn a_slow_query_does_not_block_the_others() {
    let mut lp = QueryableLoop::new();
    lp.start();
    // one slow query and two quick ones are in flight together
    assert!(lp.query_arrived(7));
    assert!(lp.query_arrived(8));
    assert!(lp.query_arrived(9));
    // the quick ones reply and finish while the slow one still holds its channel
    assert!(lp.reply_allowed(8));
    assert!(lp.query_finished(8));
    assert!(lp.reply_allowed(9));
    assert!(lp.query_finished(9));
    // the slow query was never disturbed
    assert!(lp.reply_allowed(7));
    assert_eq!(lp.state(), QState::Running);
    assert!(lp.query_finished(7));
    assert_eq!(lp.inflight_count(), 0);
}

#[test]
fn finishing_an_unknown_query_changes_nothing() {
    let mut lp = QueryableLoop::new();
    lp.start();
    assert!(lp.query_arrived(1));
    assert!(!lp.query_finished(2));
    assert_eq!(lp.inflight_count(), 1);
    assert!(lp.reply_allowed(1));
}
