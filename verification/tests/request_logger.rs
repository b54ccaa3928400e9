use jstz_request_logger::Address;
use jstz_request_logger::RequestEvent;
use jstz_request_logger::log_request_end;
use jstz_request_logger::log_request_start;
use jstz_request_logger::request_logger::request_end_prefix;
use jstz_request_logger::request_logger::request_start_prefix;

fn start_event(addr: &str, rid: &str) -> RequestEvent {
    RequestEvent::Start {
        contract_address: Address(addr.to_string()),
        request_id: rid.to_string(),
    }
}

fn end_event(addr: &str, rid: &str) -> RequestEvent {
    RequestEvent::End {
        contract_address: Address(addr.to_string()),
        request_id: rid.to_string(),
    }
}

#[test]
fn emit_start_concrete_line() {
    let line = log_request_start(Address("KT1abc...".to_string()), "req-42".to_string());
    assert_eq!(
        line,
        "[JSTZ:SMART_FUNCTION:REQUEST_START] {\"type\":\"Start\",\"contract_address\":\"KT1abc...\",\"request_id\":\"req-42\"}\n"
    );
    let payload = line
        .strip_prefix(request_start_prefix())
        .unwrap()
        .strip_suffix('\n')
        .unwrap();
    assert_eq!(
        RequestEvent::try_from_string(payload),
        Some(start_event("KT1abc...", "req-42"))
    );
}

#[test]
fn emit_end_concrete_line() {
    let line = log_request_end(Address("KT1abc...".to_string()), "req-42".to_string());
    assert_eq!(
        line,
        "[JSTZ:SMART_FUNCTION:REQUEST_END] {\"type\":\"End\",\"contract_address\":\"KT1abc...\",\"request_id\":\"req-42\"}\n"
    );
    let payload = line
        .strip_prefix(request_end_prefix())
        .unwrap()
        .strip_suffix('\n')
        .unwrap();
    let decoded = RequestEvent::try_from_string(payload);
    assert_eq!(decoded, Some(end_event("KT1abc...", "req-42")));
    assert!(!matches!(decoded, Some(RequestEvent::Start { .. })));
}

#[test]
fn round_trip_plain() {
    for e in [
        start_event("KT1abc...", "req-42"),
        end_event("tz1XyZ", "11111111-2222-3333-4444-555555555555"),
        start_event("", ""),
    ] {
        assert_eq!(RequestEvent::try_from_string(&e.to_string()), Some(e));
    }
}

#[test]
fn round_trip_needs_escaping() {
    for e in [
        start_event("he said \"hi\"", "back\\slash"),
        end_event("line\nbreak", "tab\there"),
        start_event("\u{0}\u{1}\u{1f}", "bell\u{7}"),
        end_event("ünï¢ödé 🦀", "emoji-🎉"),
        start_event("{\"type\":\"Start\"", "},{"),
    ] {
        assert_eq!(RequestEvent::try_from_string(&e.to_string()), Some(e));
    }
}

#[test]
fn encoding_is_deterministic_and_tagged() {
    let s = start_event("a", "b");
    assert_eq!(s.to_string(), s.to_string());
    assert!(s.to_string().contains("\"type\":\"Start\""));
    let e = end_event("a", "b");
    assert!(e.to_string().contains("\"type\":\"End\""));
    assert_ne!(s.to_string(), e.to_string());
}

#[test]
fn start_never_decodes_as_end() {
    let s = start_event("a", "b").to_string();
    match RequestEvent::try_from_string(&s) {
        Some(RequestEvent::Start { .. }) => {}
        other => panic!("expected a Start event, got {:?}", other),
    }
    let e = end_event("a", "b").to_string();
    match RequestEvent::try_from_string(&e) {
        Some(RequestEvent::End { .. }) => {}
        other => panic!("expected an End event, got {:?}", other),
    }
}

#[test]
fn noise_does_not_decode() {
    for s in [
        "",
        "not json",
        "{}",
        "{\"type\":\"Bogus\"}",
        "{\"type\":\"Start\"}",
        "{\"type\":\"start\",\"contract_address\":\"a\",\"request_id\":\"b\"}",
        "[JSTZ:SMART_FUNCTION:REQUEST_START] ",
    ] {
        assert_eq!(RequestEvent::try_from_string(s), None, "decoded noise: {s:?}");
    }
}

#[test]
fn trailing_or_missing_text_does_not_decode() {
    let good = start_event("a", "b").to_string();
    assert!(RequestEvent::try_from_string(&good).is_some());
    assert_eq!(RequestEvent::try_from_string(&format!("{good} ")), None);
    assert_eq!(RequestEvent::try_from_string(&good[..good.len() - 1]), None);
    assert_eq!(RequestEvent::try_from_string(&format!("x{good}")), None);
}

#[test]
fn non_canonical_escapes_do_not_decode() {
    // The decoder accepts exactly the canonical encoding: uppercase hex,
    // escapes of printable characters, and raw control characters are not it.
    for s in [
        "{\"type\":\"Start\",\"contract_address\":\"\\u001F\",\"request_id\":\"b\"}",
        "{\"type\":\"Start\",\"contract_address\":\"\\u0041\",\"request_id\":\"b\"}",
        "{\"type\":\"Start\",\"contract_address\":\"a\",\"request_id\":\"b\nc\"}",
        "{\"type\":\"Start\",\"contract_address\":\"a\",\"request_id\":\"b\\qc\"}",
    ] {
        assert_eq!(RequestEvent::try_from_string(s), None, "decoded: {s:?}");
    }
}

#[test]
fn control_characters_are_hex_escaped() {
    let e = start_event("a\u{1}b", "c\u{1f}d");
    let s = e.to_string();
    assert_eq!(
        s,
        "{\"type\":\"Start\",\"contract_address\":\"a\\u0001b\",\"request_id\":\"c\\u001fd\"}"
    );
    assert_eq!(RequestEvent::try_from_string(&s), Some(e));
}

#[test]
fn markers_are_distinct_and_never_open_a_payload() {
    assert_ne!(request_start_prefix(), request_end_prefix());
    for e in [start_event("[JSTZ", "x"), end_event("y", "[JSTZ")] {
        let p = e.to_string();
        assert!(!p.starts_with(request_start_prefix()));
        assert!(!p.starts_with(request_end_prefix()));
    }
}

#[test]
fn emit_produces_exactly_one_line() {
    let line = log_request_start(Address("addr\nwith\nbreaks".to_string()), "id\n".to_string());
    assert!(line.starts_with(request_start_prefix()));
    assert_eq!(line.matches('\n').count(), 1);
    assert!(line.ends_with('\n'));
    let plain = log_request_end(Address("KT1x".to_string()), "req-7".to_string());
    assert!(plain.starts_with(request_end_prefix()));
    assert!(plain.contains("KT1x"));
    assert!(plain.contains("req-7"));
    assert_eq!(plain.matches('\n').count(), 1);
}

#[test]
fn payload_is_valid_json_with_expected_fields() {
    for (e, tag) in [
        (start_event("he said \"hi\"\u{2} \\", "id\u{9}🦀"), "Start"),
        (end_event("KT1EfTusMLoeCAAGd9MZJn5yKzFr6kJU5U91", "req-1"), "End"),
    ] {
        let (addr, rid) = match &e {
            RequestEvent::Start { contract_address, request_id }
            | RequestEvent::End { contract_address, request_id } => {
                (contract_address.0.clone(), request_id.clone())
            }
        };
        let v: serde_json::Value = serde_json::from_str(&e.to_string()).unwrap();
        assert_eq!(v["type"], tag);
        assert_eq!(v["contract_address"], addr.as_str());
        assert_eq!(v["request_id"], rid.as_str());
    }
}

#[test]
fn encoding_matches_serde_json_canonical_form() {
    // For fields whose control characters have no short JSON escape, the
    // encoder writes exactly what a JSON serializer writes for the same
    // object with the same field order.
    let e = start_event("a\u{3}\"b\\c", "d\u{1e}");
    let expected = format!(
        "{{\"type\":\"Start\",\"contract_address\":{},\"request_id\":{}}}",
        serde_json::to_string("a\u{3}\"b\\c").unwrap(),
        serde_json::to_string("d\u{1e}").unwrap(),
    );
    assert_eq!(e.to_string(), expected);
}
