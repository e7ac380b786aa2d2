use znode::errors::NodeError;

#[test]
fn each_error_describes_itself() {
    assert_eq!(NodeError::MalformedPattern.describe(), "malformed pattern");
    assert_eq!(NodeError::InvalidTopic.describe(), "invalid topic");
    assert_eq!(NodeError::ConnectionError.describe(), "connection error");
    assert_eq!(NodeError::PublishFailed.describe(), "publish failed");
    assert_eq!(NodeError::QueryFailed.describe(), "query failed");
    assert_eq!(NodeError::HandlerPanic.describe(), "handler panic");
}

#[test]
fn errors_compare_and_copy() {
    let e = NodeError::PublishFailed;
    let f = e;
    assert_eq!(e, f);
    assert_ne!(NodeError::PublishFailed, NodeError::QueryFailed);
}
