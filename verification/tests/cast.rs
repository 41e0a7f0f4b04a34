use termrec::cast::{check_version, event_text, header_text, output_event, CastError, CastHeader};

#[test]
fn rejects_v1() {
    let data = b"{\"version\":1,\"width\":80,\"height\":24}\n";
    let line = std::str::from_utf8(data).unwrap();
    let value: serde_json::Value = serde_json::from_str(&header_text(line)).unwrap();
    let header = CastHeader {
        version: value["version"].as_u64().unwrap() as u32,
        width: value["width"].as_u64().unwrap() as u32,
        height: value["height"].as_u64().unwrap() as u32,
        timestamp: None,
        title: None,
        env: None,
    };
    assert_eq!(check_version(&header), Err(CastError::UnsupportedVersion(1)));
}

#[test]
fn accepts_v2() {
    let header = CastHeader::new(80, 24, Some(1234567890));
    assert_eq!(header.version, 2);
    assert_eq!(header.timestamp, Some(1234567890));
    assert_eq!(check_version(&header), Ok(()));
}

#[test]
fn line_text() {
    assert_eq!(header_text("  {\"version\":2}\r\n"), "{\"version\":2}");
    assert_eq!(event_text("\t \u{3000}\n"), None);
    assert_eq!(event_text(" [1.5, \"o\", \"x\"]\n").as_deref(), Some("[1.5, \"o\", \"x\"]"));
}

#[test]
fn output_events_decode_bytes() {
    let e = output_event(1.5f64.to_bits(), "\x1b[31mred\x1b[0m".as_bytes());
    assert_eq!(f64::from_bits(e.time_bits), 1.5);
    assert_eq!(e.event_type, "o");
    assert_eq!(e.data, "\x1b[31mred\x1b[0m");

    let e = output_event(0, "h\u{e9}llo".as_bytes());
    assert_eq!(e.data, "h\u{e9}llo");

    // An invalid sequence becomes U+FFFD.
    let e = output_event(0, &[b'a', 0xff, b'b']);
    assert_eq!(e.data, "a\u{fffd}b");
}
