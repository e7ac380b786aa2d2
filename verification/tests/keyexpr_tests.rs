use znode::errors::NodeError;
use znode::keyexpr::{Pattern, Topic};

fn matches(pattern: &str, topic: &str) -> bool {
    let p = Pattern::parse(pattern).unwrap();
    let t = Topic::parse(topic).unwrap();
    p.matches(&t)
}

#[test]
fn literal_topic_matches_itself_as_pattern() {
    for s in ["sensor/temperature", "a", "a/b/c", "service/echo", ""] {
        assert!(matches(s, s));
    }
}

#[test]
fn to_pattern_matches_the_topic() {
    let t = Topic::parse("room/12/temp").unwrap();
    let p = t.to_pattern();
    assert!(p.matches(&t));
    let other = Topic::parse("room/12/hum").unwrap();
    assert!(!p.matches(&other));
}

#[test]
fn dstar_matches_zero_segments() {
    assert!(matches("sensor/**", "sensor"));
    assert!(matches("a/**/c", "a/c"));
    assert!(matches("**", ""));
    assert!(matches("**/b", "b"));
}

#[test]
fn dstar_prefix_cases() {
    assert!(matches("sensor/**", "sensor/temperature"));
    assert!(!matches("sensor/**", "other/x"));
}

#[test]
fn star_matches_exactly_one_segment() {
    assert!(matches("a/*/c", "a/b/c"));
    assert!(!matches("a/*/c", "a/b/b/c"));
}

#[test]
fn dstar_alone_matches_anything() {
    assert!(matches("**", "x"));
    assert!(matches("**", "x/y/z"));
    assert!(matches("**", ""));
}

#[test]
fn trailing_dstar_matches_any_suffix() {
    assert!(matches("a/**", "a"));
    assert!(matches("a/**", "a/b"));
    assert!(matches("a/**", "a/b/c/d"));
    assert!(!matches("a/**", "b"));
}

#[test]
fn dstar_in_the_middle_tries_every_split() {
    assert!(matches("a/**/c", "a/b/c"));
    assert!(matches("a/**/c", "a/b/b/c"));
    assert!(!matches("a/**/c", "a/b/b/d"));
}

#[test]
fn without_dstar_segment_counts_must_agree() {
    assert!(!matches("a/b", "a/b/c"));
    assert!(!matches("a/b/c", "a/b"));
    assert!(!matches("a/*", "a"));
}

#[test]
fn literal_segments_are_case_sensitive() {
    assert!(!matches("Sensor/x", "sensor/x"));
}

#[test]
fn empty_topic_string_is_the_empty_topic() {
    let t = Topic::parse("").unwrap();
    assert_eq!(t.len(), 0);
}

#[test]
fn topic_segments_are_kept_in_order() {
    let t = Topic::parse("a/bb/ccc").unwrap();
    assert_eq!(t.len(), 3);
    assert_eq!(t.segment(0).as_str(), "a");
    assert_eq!(t.segment(1).as_str(), "bb");
    assert_eq!(t.segment(2).as_str(), "ccc");
}

#[test]
fn topic_rejects_empty_segments() {
    assert_eq!(Topic::parse("a//b").unwrap_err(), NodeError::InvalidTopic);
    assert_eq!(Topic::parse("/a").unwrap_err(), NodeError::InvalidTopic);
    assert_eq!(Topic::parse("a/").unwrap_err(), NodeError::InvalidTopic);
}

#[test]
fn topic_rejects_wildcard_tokens() {
    assert_eq!(Topic::parse("a/*/b").unwrap_err(), NodeError::InvalidTopic);
    assert_eq!(Topic::parse("a/**").unwrap_err(), NodeError::InvalidTopic);
    assert_eq!(Topic::parse("we*ird").unwrap_err(), NodeError::InvalidTopic);
}

#[test]
fn pattern_rejects_malformed_strings() {
    assert_eq!(Pattern::parse("a//b").unwrap_err(), NodeError::MalformedPattern);
    assert_eq!(Pattern::parse("**/**").unwrap_err(), NodeError::MalformedPattern);
    assert_eq!(Pattern::parse("a/**/b/**").unwrap_err(), NodeError::MalformedPattern);
    assert_eq!(Pattern::parse("a*b").unwrap_err(), NodeError::MalformedPattern);
    assert_eq!(Pattern::parse("***").unwrap_err(), NodeError::MalformedPattern);
}

#[test]
fn pattern_accepts_each_matcher_kind() {
    assert!(Pattern::parse("a/*/c").is_ok());
    assert!(Pattern::parse("**").is_ok());
    assert!(Pattern::parse("a/**/c").is_ok());
    assert!(Pattern::parse("plain/literals").is_ok());
}
