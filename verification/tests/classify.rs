use drosse_discovery::classify::{classify, handle_datagram, PayloadFields};
use drosse_discovery::event::InstanceEvent;
use drosse_discovery::{DiscoverError, MAX_DATAGRAM_LEN};

#[test]
fn advertisement_example() {
    let bytes = b"{\"data\":{\"advertisement\":{\"uuid\":\"abc-123\"}}}";
    let ev = handle_datagram(bytes).unwrap().expect("an advertisement emits one event");
    assert_eq!(ev.uuid, "abc-123");
    assert_eq!(ev.event, InstanceEvent::Up);
    assert_eq!(ev.data, None);
}

#[test]
fn advertisement_extra_fields_ignored() {
    let bytes = b"{\"data\":{\"advertisement\":{\"uuid\":\"u1\",\"hosts\":[\"h\"],\"port\":80}}}";
    let ev = handle_datagram(bytes).unwrap().expect("an advertisement emits one event");
    assert_eq!(ev.uuid, "u1");
    assert_eq!(ev.event, InstanceEvent::Up);
    assert_eq!(ev.data, None);
}

#[test]
fn lifecycle_down_example() {
    let bytes = b"{\"event\":\"down\",\"data\":{\"uuid\":\"abc-123\",\"reason\":\"stopped\"}}";
    let ev = handle_datagram(bytes).unwrap().expect("a recognized lifecycle event is emitted");
    assert_eq!(ev.uuid, "abc-123");
    assert_eq!(ev.event, InstanceEvent::Down);
    let payload = ev.data.expect("a lifecycle event carries the data object");
    let v: serde_json::Value = serde_json::from_str(&payload).expect("the payload is JSON");
    assert_eq!(v["uuid"].as_str(), Some("abc-123"));
    assert_eq!(v["reason"].as_str(), Some("stopped"));
    assert_eq!(v.as_object().unwrap().len(), 2);
}

#[test]
fn lifecycle_up_and_log() {
    let up = handle_datagram(b"{\"event\":\"up\",\"data\":{\"uuid\":\"u2\"}}").unwrap().unwrap();
    assert_eq!(up.event, InstanceEvent::Up);
    assert_eq!(up.uuid, "u2");
    assert!(up.data.is_some());
    let log =
        handle_datagram(b"{\"event\":\"log\",\"data\":{\"uuid\":\"u3\",\"line\":\"hi\"}}")
            .unwrap()
            .unwrap();
    assert_eq!(log.event, InstanceEvent::Log);
    assert_eq!(log.uuid, "u3");
}

#[test]
fn unknown_event_example() {
    let bytes = b"{\"event\":\"ping\",\"data\":{\"uuid\":\"abc-123\"}}";
    let r = handle_datagram(bytes).unwrap();
    assert!(r.is_none());
}

#[test]
fn malformed_utf8_is_an_encoding_error() {
    let bytes = [0xff, 0xfe, 0x80];
    assert_eq!(handle_datagram(&bytes).unwrap_err(), DiscoverError::Encoding);
}

#[test]
fn malformed_json_is_a_format_error() {
    assert_eq!(handle_datagram(b"{not json").unwrap_err(), DiscoverError::Format);
}

#[test]
fn listener_survives_malformed_datagrams() {
    // The per-datagram handler is total: a listener that drives it over a
    // mixed stream of bad and good datagrams keeps producing events.
    let stream: Vec<&[u8]> = vec![
        &[0xff, 0xc0],
        b"{\"event\":",
        b"not even json",
        b"{\"data\":{\"advertisement\":{\"uuid\":\"survivor\"}}}",
    ];
    let mut emitted = Vec::new();
    for datagram in stream {
        if let Ok(Some(ev)) = handle_datagram(datagram) {
            emitted.push(ev);
        }
    }
    assert_eq!(emitted.len(), 1);
    assert_eq!(emitted[0].uuid, "survivor");
    assert_eq!(emitted[0].event, InstanceEvent::Up);
}

#[test]
fn missing_event_field_is_a_format_error() {
    assert_eq!(handle_datagram(b"{\"foo\":1}").unwrap_err(), DiscoverError::Format);
}

#[test]
fn event_of_wrong_type_is_a_format_error() {
    assert_eq!(
        handle_datagram(b"{\"event\":7,\"data\":{\"uuid\":\"u\"}}").unwrap_err(),
        DiscoverError::Format
    );
}

#[test]
fn lifecycle_missing_uuid_is_a_format_error() {
    assert_eq!(
        handle_datagram(b"{\"event\":\"down\",\"data\":{}}").unwrap_err(),
        DiscoverError::Format
    );
}

#[test]
fn lifecycle_empty_uuid_is_a_validation_error() {
    assert_eq!(
        handle_datagram(b"{\"event\":\"down\",\"data\":{\"uuid\":\"\"}}").unwrap_err(),
        DiscoverError::Validation
    );
}

#[test]
fn advertisement_missing_uuid_is_a_validation_error() {
    assert_eq!(
        handle_datagram(b"{\"data\":{\"advertisement\":{\"x\":1}}}").unwrap_err(),
        DiscoverError::Validation
    );
}

#[test]
fn advertisement_empty_uuid_is_a_validation_error() {
    assert_eq!(
        handle_datagram(b"{\"data\":{\"advertisement\":{\"uuid\":\"\"}}}").unwrap_err(),
        DiscoverError::Validation
    );
}

#[test]
fn advertisement_non_string_uuid_is_a_validation_error() {
    assert_eq!(
        handle_datagram(b"{\"data\":{\"advertisement\":{\"uuid\":42}}}").unwrap_err(),
        DiscoverError::Validation
    );
}

#[test]
fn empty_advertisement_object_falls_back_to_lifecycle() {
    let bytes = b"{\"event\":\"up\",\"data\":{\"advertisement\":{},\"uuid\":\"u4\"}}";
    let ev = handle_datagram(bytes).unwrap().unwrap();
    assert_eq!(ev.event, InstanceEvent::Up);
    assert_eq!(ev.uuid, "u4");
    assert!(ev.data.is_some());
}

#[test]
fn truncated_oversized_datagram_is_a_format_error() {
    // A datagram longer than the transport's buffer arrives truncated at
    // the buffer boundary; the truncated text is no longer valid JSON and
    // must surface as a format error, not a crash.
    let mut text = String::from("{\"event\":\"log\",\"data\":{\"uuid\":\"u5\",\"pad\":\"");
    while text.len() <= MAX_DATAGRAM_LEN + 1000 {
        text.push('a');
    }
    text.push_str("\"}}");
    let bytes = text.as_bytes();
    assert!(bytes.len() > MAX_DATAGRAM_LEN);
    let truncated = &bytes[..MAX_DATAGRAM_LEN];
    assert_eq!(handle_datagram(truncated).unwrap_err(), DiscoverError::Format);
}

#[test]
fn classify_advertisement_fields() {
    let m = PayloadFields {
        has_advertisement: true,
        advertisement_uuid: Some("id-9".to_string()),
        event: None,
        data_uuid: None,
        data_text: None,
    };
    let ev = classify(m).unwrap().unwrap();
    assert_eq!(ev.uuid, "id-9");
    assert_eq!(ev.event, InstanceEvent::Up);
    assert_eq!(ev.data, None);
}

#[test]
fn classify_lifecycle_fields() {
    let m = PayloadFields {
        has_advertisement: false,
        advertisement_uuid: None,
        event: Some("log".to_string()),
        data_uuid: Some("id-9".to_string()),
        data_text: Some("{\"uuid\":\"id-9\"}".to_string()),
    };
    let ev = classify(m).unwrap().unwrap();
    assert_eq!(ev.uuid, "id-9");
    assert_eq!(ev.event, InstanceEvent::Log);
    assert_eq!(ev.data, Some("{\"uuid\":\"id-9\"}".to_string()));
}

#[test]
fn classify_unknown_event_emits_nothing() {
    let m = PayloadFields {
        has_advertisement: false,
        advertisement_uuid: None,
        event: Some("restart".to_string()),
        data_uuid: Some("id-9".to_string()),
        data_text: Some("{}".to_string()),
    };
    assert!(classify(m).unwrap().is_none());
}

#[test]
fn event_vocabulary_mapping() {
    assert_eq!(InstanceEvent::from_str("down"), InstanceEvent::Down);
    assert_eq!(InstanceEvent::from_str("log"), InstanceEvent::Log);
    assert_eq!(InstanceEvent::from_str("up"), InstanceEvent::Up);
    assert_eq!(InstanceEvent::from_str("ping"), InstanceEvent::Unknown);
    assert_eq!(InstanceEvent::from_str(""), InstanceEvent::Unknown);
    assert_eq!(InstanceEvent::from_str("Up"), InstanceEvent::Unknown);
}
