use friend_dist::frames::{
    classify_frame, encode_input_event, encode_namespace_join, encode_probe_ack,
    encode_start_event, encode_stop_event, parse_event_frame, parse_open_packet, FrameKind,
};

#[test]
fn frames_classify_by_prefix() {
    assert_eq!(classify_frame("2"), FrameKind::Probe);
    assert_eq!(classify_frame("40"), FrameKind::NamespaceAck);
    assert_eq!(classify_frame("40{\"sid\":\"x\"}"), FrameKind::NamespaceAck);
    assert_eq!(classify_frame("42[\"output\",{}]"), FrameKind::Event);
    assert_eq!(classify_frame("0{\"sid\":\"x\"}"), FrameKind::Open);
    assert_eq!(classify_frame("3"), FrameKind::Other);
    assert_eq!(classify_frame(""), FrameKind::Other);
}

#[test]
fn open_packet_parses_sid_and_ping() {
    let r = parse_open_packet(
        "0{\"sid\":\"abc123\",\"upgrades\":[],\"pingInterval\":25000,\"pingTimeout\":20000,\"maxPayload\":1000000}",
    );
    assert_eq!(r, Some(("abc123".to_string(), 25000)));
}

#[test]
fn open_packet_defaults_ping_interval() {
    let r = parse_open_packet("0{\"sid\":\"abc123\"}");
    assert_eq!(r, Some(("abc123".to_string(), 25000)));
}

#[test]
fn open_packet_requires_sid() {
    assert_eq!(parse_open_packet("0{\"pingInterval\":25000}"), None);
    assert_eq!(parse_open_packet("0{"), None);
    assert_eq!(parse_open_packet("40"), None);
}

#[test]
fn event_frame_parses_name_and_data() {
    let r = parse_event_frame("42[\"output\",{\"data\":\"hello\"}]").unwrap();
    let name: String = r.0.iter().collect();
    assert_eq!(name, "output");
    let data: String = r.1.unwrap().iter().collect();
    assert_eq!(data, "hello");
}

#[test]
fn event_frame_decodes_escapes() {
    let r = parse_event_frame("42[\"output\",{\"data\":\"line1\\nline2\\t\\\"q\\\" \\u0041\"}]")
        .unwrap();
    let data: String = r.1.unwrap().iter().collect();
    assert_eq!(data, "line1\nline2\t\"q\" A");
}

#[test]
fn event_frame_decodes_surrogate_pairs() {
    let r = parse_event_frame("42[\"output\",{\"data\":\"\\ud83d\\ude00\"}]").unwrap();
    let data: String = r.1.unwrap().iter().collect();
    assert_eq!(data, "\u{1F600}");
}

#[test]
fn event_frame_without_payload() {
    let r = parse_event_frame("42[\"idle_timeout\"]").unwrap();
    let name: String = r.0.iter().collect();
    assert_eq!(name, "idle_timeout");
    assert!(r.1.is_none());
}

#[test]
fn event_frame_rejects_malformed_text() {
    assert!(parse_event_frame("42").is_none());
    assert!(parse_event_frame("42[").is_none());
    assert!(parse_event_frame("42[\"output\"").is_none());
    assert!(parse_event_frame("42[\"output\",{\"data\":\"x\"}] trailing").is_none());
    assert!(parse_event_frame("41[\"output\"]").is_none());
}

#[test]
fn outbound_frames_are_exact() {
    assert_eq!(encode_probe_ack(), "3");
    assert_eq!(encode_namespace_join(), "40");
    assert_eq!(encode_stop_event(), "42[\"stop\",{}]");
    assert_eq!(encode_start_event(), "42[\"start\",{\"args\":\"\"}]");
    assert_eq!(encode_input_event("d"), "42[\"input\",{\"input\":\"d\"}]");
}

#[test]
fn input_event_escapes_special_characters() {
    assert_eq!(
        encode_input_event("a\"b\\c\nd"),
        "42[\"input\",{\"input\":\"a\\\"b\\\\c\\nd\"}]"
    );
    assert_eq!(
        encode_input_event("\u{1}"),
        "42[\"input\",{\"input\":\"\\u0001\"}]"
    );
}

#[test]
fn input_event_round_trips_through_the_parser() {
    let frame = encode_input_event("ho ho\n\"x\"");
    let r = parse_event_frame(&frame).unwrap();
    let name: String = r.0.iter().collect();
    assert_eq!(name, "input");
    // the payload's only member is `input`, not `data`
    assert!(r.1.is_none());
}
