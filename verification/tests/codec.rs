//! The metadata codec: exact blob shapes, escaping, round trips, and
//! the default on damaged rows.

use peer_registry::infojson::{info_ip_from_json, info_to_json};

#[test]
fn writes_exact_blob() {
    assert_eq!(info_to_json(&String::from("10.0.0.1")), "{\"ip\":\"10.0.0.1\"}");
    assert_eq!(info_to_json(&String::from("")), "{\"ip\":\"\"}");
}

#[test]
fn escapes_quotes_and_backslashes() {
    assert_eq!(info_to_json(&String::from("a\"b")), "{\"ip\":\"a\\\"b\"}");
    assert_eq!(info_to_json(&String::from("a\\b")), "{\"ip\":\"a\\\\b\"}");
}

#[test]
fn round_trips() {
    for ip in ["10.0.0.1", "", "::1", "a\"b", "a\\b", "\\\"", "fe80::1%eth0", "\u{263a}"] {
        let blob = info_to_json(&String::from(ip));
        assert_eq!(info_ip_from_json(&blob), ip);
    }
}

#[test]
fn damaged_blob_reads_as_empty() {
    for bad in [
        "",
        "{}",
        "{\"ip\":\"unterminated",
        "{\"ip\":\"x\"} trailing",
        "{\"ip\":\"bad\\escape\"}",
        "not json at all",
        "{\"other\":\"y\"}",
    ] {
        assert_eq!(info_ip_from_json(&String::from(bad)), "");
    }
}
