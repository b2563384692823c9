use qpm::client::{add_process_request, kill_request, read_kill_reply, ClientError};
use qpm::codec::{ControlEvent, ProtocolError};

fn add(command: &str, args: &[&str], pwd: &str, name: &str) -> ControlEvent {
    ControlEvent::AddProcess {
        command: command.to_string(),
        args: args.iter().map(|a| a.to_string()).collect(),
        pwd: pwd.to_string(),
        name: name.to_string(),
    }
}

#[test]
fn test_event() {
    let payload = ControlEvent::Kill.encode();
    println!("{}", String::from_utf8(payload.clone()).unwrap());
    assert_eq!(ControlEvent::decode(&payload), Ok(ControlEvent::Kill));
}

#[test]
fn kill_encodes_as_tagged_document() {
    assert_eq!(ControlEvent::Kill.encode(), br#"{"t":"Kill"}"#.to_vec());
    assert_eq!(ControlEvent::Success.encode(), br#"{"t":"Success"}"#.to_vec());
}

#[test]
fn add_process_encodes_fields_in_order() {
    let e = add("/bin/echo", &["a", "b c"], "/tmp", "web");
    let expected =
        br#"{"t":"AddProcess","d":{"command":"/bin/echo","args":["a","b c"],"pwd":"/tmp","name":"web"}}"#;
    assert_eq!(e.encode(), expected.to_vec());
}

#[test]
fn quotes_and_backslashes_are_escaped() {
    let e = add("say \"hi\"", &["c:\\dir"], "/", "q");
    let text = String::from_utf8(e.encode()).unwrap();
    assert!(text.contains(r#""command":"say \"hi\"""#));
    assert!(text.contains(r#"["c:\\dir"]"#));
}

#[test]
fn every_variant_round_trips() {
    let events = vec![
        ControlEvent::Kill,
        ControlEvent::Start,
        ControlEvent::Restart,
        ControlEvent::Success,
        add("/bin/true", &[], "/tmp", "web"),
        add("/usr/bin/env", &["FOO=1", "", "x\"y\\z"], "/home/ü", "名前"),
        add("", &[""], "", ""),
    ];
    for e in events {
        assert_eq!(ControlEvent::decode(&e.encode()), Ok(e.clone()));
    }
}

#[test]
fn unknown_discriminant_is_refused() {
    assert_eq!(
        ControlEvent::decode(br#"{"t":"Stop"}"#),
        Err(ProtocolError::UnknownVariant)
    );
    assert_eq!(
        ControlEvent::decode(br#"{"t":"kill"}"#),
        Err(ProtocolError::UnknownVariant)
    );
}

#[test]
fn reserved_variants_decode() {
    assert_eq!(ControlEvent::decode(br#"{"t":"Start"}"#), Ok(ControlEvent::Start));
    assert_eq!(ControlEvent::decode(br#"{"t":"Restart"}"#), Ok(ControlEvent::Restart));
}

#[test]
fn malformed_documents_are_refused() {
    assert_eq!(ControlEvent::decode(b""), Err(ProtocolError::Malformed));
    assert_eq!(ControlEvent::decode(b"hello"), Err(ProtocolError::Malformed));
    assert_eq!(ControlEvent::decode(br#"{"t":"Kill"} "#), Err(ProtocolError::Malformed));
    assert_eq!(ControlEvent::decode(br#"{"t":"Kill""#), Err(ProtocolError::Malformed));
    assert_eq!(
        ControlEvent::decode(br#"{"t":"AddProcess"}"#),
        Err(ProtocolError::Malformed)
    );
    assert_eq!(
        ControlEvent::decode(br#"{"t":"AddProcess","d":{"command":"x","args":[1],"pwd":"/","name":"n"}}"#),
        Err(ProtocolError::Malformed)
    );
    assert_eq!(
        ControlEvent::decode(br#"{"t":"Kill","d":[]}"#),
        Err(ProtocolError::Malformed)
    );
}

#[test]
fn invalid_utf8_is_refused() {
    assert_eq!(
        ControlEvent::decode(&[b'{', 0xff, b'}']),
        Err(ProtocolError::InvalidUtf8)
    );
}

#[test]
fn client_kill_request_and_reply() {
    assert_eq!(kill_request(), ControlEvent::Kill.encode());
    assert_eq!(read_kill_reply(&ControlEvent::Success.encode()), Ok(()));
    assert_eq!(
        read_kill_reply(&ControlEvent::Kill.encode()),
        Err(ClientError::UnexpectedReply)
    );
    assert_eq!(
        read_kill_reply(b"nonsense"),
        Err(ClientError::Protocol(ProtocolError::Malformed))
    );
}

#[test]
fn client_add_request_fits_or_is_refused() {
    let ok = add_process_request(
        "web".to_string(),
        "/bin/true".to_string(),
        vec![],
        "/tmp".to_string(),
    )
    .unwrap();
    assert_eq!(ok, add("/bin/true", &[], "/tmp", "web").encode());
    let big = add_process_request(
        "web".to_string(),
        "/bin/true".to_string(),
        vec!["x".repeat(2000)],
        "/tmp".to_string(),
    );
    assert_eq!(big, Err(ProtocolError::TooLarge));
}
