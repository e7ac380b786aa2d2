use znode::data::{handle_service_query, Query, ReplyStatus, ServiceKind};
use znode::keyexpr::Topic;
use znode::services::{convert_reply, echo_reply, i64_bits, parse_i64, to_binary, to_decimal};

#[test]
fn echo_prefixes_the_request() {
    assert_eq!(echo_reply("Hello Zenoh! #1").as_str(), "Echo: Hello Zenoh! #1");
    assert_eq!(echo_reply("").as_str(), "Echo: ");
}

#[test]
fn convert_round_trip() {
    assert_eq!(convert_reply("42").as_str(), "0b101010");
}

#[test]
fn convert_error_does_not_stop_later_requests() {
    assert_eq!(convert_reply("abc").as_str(), "Error: not an integer");
    // the handler is still good for the next request
    assert_eq!(convert_reply("43").as_str(), "0b101011");
    assert_eq!(convert_reply("abc").as_str(), "Error: not an integer");
}

#[test]
fn convert_handles_zero_and_signs() {
    assert_eq!(convert_reply("0").as_str(), "0b0");
    assert_eq!(convert_reply("+5").as_str(), "0b101");
    // two's complement of -1 is sixty-four ones
    let mut ones = String::from("0b");
    for _ in 0..64 {
        ones.push('1');
    }
    assert_eq!(convert_reply("-1").as_str(), ones.as_str());
}

#[test]
fn convert_rejects_non_integers() {
    for bad in ["", "+", "-", "1.5", "12a", " 1", "0x10"] {
        assert_eq!(convert_reply(bad).as_str(), "Error: not an integer");
    }
}

#[test]
fn parse_i64_accepts_what_std_accepts() {
    assert_eq!(parse_i64("42"), Some(42));
    assert_eq!(parse_i64("-42"), Some(-42));
    assert_eq!(parse_i64("+7"), Some(7));
    assert_eq!(parse_i64("-0"), Some(0));
    assert_eq!(parse_i64("007"), Some(7));
    assert_eq!(parse_i64("9223372036854775807"), Some(i64::MAX));
    assert_eq!(parse_i64("-9223372036854775808"), Some(i64::MIN));
}

#[test]
fn parse_i64_rejects_what_std_rejects() {
    for bad in ["", "+", "-", "a", "1 ", "9223372036854775808", "-9223372036854775809", "--1"] {
        assert_eq!(parse_i64(bad), None, "{bad}");
        assert_eq!(bad.parse::<i64>().ok(), None, "{bad}");
    }
    for good in ["42", "-42", "+7", "007", "9223372036854775807", "-9223372036854775808"] {
        assert_eq!(parse_i64(good), good.parse::<i64>().ok(), "{good}");
    }
}

#[test]
fn binary_text_matches_the_formula() {
    assert_eq!(to_binary(0).as_str(), "0");
    assert_eq!(to_binary(1).as_str(), "1");
    assert_eq!(to_binary(6).as_str(), "110");
    assert_eq!(to_binary(42).as_str(), "101010");
    assert_eq!(format!("{:b}", 42u64), to_binary(42).as_str());
}

#[test]
fn i64_bits_is_twos_complement() {
    assert_eq!(i64_bits(0), 0);
    assert_eq!(i64_bits(5), 5);
    assert_eq!(i64_bits(-1), u64::MAX);
    assert_eq!(i64_bits(i64::MIN), 0x8000_0000_0000_0000);
    assert_eq!(i64_bits(-2), (-2i64) as u64);
}

#[test]
fn decimal_text_matches_the_formula() {
    assert_eq!(to_decimal(0).as_str(), "0");
    assert_eq!(to_decimal(7).as_str(), "7");
    assert_eq!(to_decimal(1204).as_str(), "1204");
    assert_eq!(to_decimal(u64::MAX).as_str(), "18446744073709551615");
}

#[test]
fn echo_service_answers_a_query() {
    let q = Query {
        id: 9,
        topic: Topic::parse("service/echo").unwrap(),
        payload: Some(String::from("Hello Zenoh! #1")),
    };
    let rep = handle_service_query(ServiceKind::Echo, &q);
    assert_eq!(rep.query_id, 9);
    assert_eq!(rep.status, ReplyStatus::Success);
    assert_eq!(rep.payload.as_str(), "Echo: Hello Zenoh! #1");
}

#[test]
fn convert_service_answers_a_query() {
    let q = Query {
        id: 3,
        topic: Topic::parse("service/convert").unwrap(),
        payload: Some(String::from("42")),
    };
    let rep = handle_service_query(ServiceKind::Convert, &q);
    assert_eq!(rep.payload.as_str(), "0b101010");
    assert_eq!(rep.status, ReplyStatus::Success);
}

#[test]
fn a_missing_payload_reads_as_empty() {
    let q = Query { id: 1, topic: Topic::parse("service/echo").unwrap(), payload: None };
    let rep = handle_service_query(ServiceKind::Echo, &q);
    assert_eq!(rep.payload.as_str(), "Echo: ");
    let q2 = Query { id: 2, topic: Topic::parse("service/convert").unwrap(), payload: None };
    let rep2 = handle_service_query(ServiceKind::Convert, &q2);
    assert_eq!(rep2.payload.as_str(), "Error: not an integer");
}
