use aerospike_rust_workshop::config::{ClientKind, ClientProfile, Settings};
use aerospike_rust_workshop::text::{chars_of, i64_to_string, parse_u16, sort_strings, split_chars, str_le};
use aerospike_rust_workshop::utils::as_non_null_string;

#[test]
fn settings_defaults_when_nothing_is_set() {
    let s = Settings::from_vars(None, None, None, None, None, None);
    assert_eq!(s.aerospike_client_profile, ClientProfile::Reference);
    assert_eq!(s.aerospike_host, "localhost");
    assert_eq!(s.aerospike_port, 3000);
    assert_eq!(s.aerospike_username, None);
    assert_eq!(s.aerospike_password, None);
    assert_eq!(s.server_port, 8080);
    assert_eq!(s.aerospike_hosts(), "localhost:3000");
}

#[test]
fn settings_take_the_given_values() {
    let s = Settings::from_vars(
        Some("new-client"),
        Some("db.example"),
        Some("4000"),
        Some("admin"),
        Some("secret"),
        Some("+9090"),
    );
    assert_eq!(s.aerospike_client_profile, ClientProfile::Workshop);
    assert_eq!(s.aerospike_host, "db.example");
    assert_eq!(s.aerospike_port, 4000);
    assert_eq!(s.aerospike_username.as_deref(), Some("admin"));
    assert_eq!(s.aerospike_password.as_deref(), Some("secret"));
    assert_eq!(s.server_port, 9090);
    assert_eq!(s.aerospike_hosts(), "db.example:4000");
}

#[test]
fn settings_fall_back_on_unreadable_ports_and_empty_user() {
    let s = Settings::from_vars(None, None, Some("70000"), Some(""), Some(""), Some("80a"));
    assert_eq!(s.aerospike_port, 3000);
    assert_eq!(s.server_port, 8080);
    assert_eq!(s.aerospike_username, None);
    assert_eq!(s.aerospike_password.as_deref(), Some(""));
}

#[test]
fn profile_names_and_aliases() {
    assert_eq!(ClientProfile::from_name("reference"), Some(ClientProfile::Reference));
    assert_eq!(ClientProfile::from_name("old-client"), Some(ClientProfile::Reference));
    assert_eq!(ClientProfile::from_name("workshop"), Some(ClientProfile::Workshop));
    assert_eq!(ClientProfile::from_name("new-client"), Some(ClientProfile::Workshop));
    assert_eq!(ClientProfile::from_name("workshop-answers"), Some(ClientProfile::WorkshopAnswers));
    assert_eq!(ClientProfile::from_name("new-client-answers"), Some(ClientProfile::WorkshopAnswers));
    assert_eq!(ClientProfile::from_name("Reference"), None);
    assert_eq!(ClientProfile::from_name(""), None);
}

#[test]
fn answers_profile_is_served_by_the_reference_client() {
    assert_eq!(ClientProfile::Reference.client_kind(), ClientKind::Reference);
    assert_eq!(ClientProfile::Workshop.client_kind(), ClientKind::Workshop);
    assert_eq!(ClientProfile::WorkshopAnswers.client_kind(), ClientKind::Reference);
}

#[test]
fn hosts_port_reads_back() {
    for port in [0u16, 7, 3000, 65535] {
        let s = Settings::from_vars(None, Some("h:1"), Some(&port.to_string()), None, None, None);
        let hosts = s.aerospike_hosts();
        let (_, p) = hosts.rsplit_once(':').unwrap();
        assert_eq!(parse_u16(p), Some(port));
    }
}

#[test]
fn port_parsing_follows_u16_parsing() {
    assert_eq!(parse_u16("0"), Some(0));
    assert_eq!(parse_u16("65535"), Some(65535));
    assert_eq!(parse_u16("0065535"), Some(65535));
    assert_eq!(parse_u16("65536"), None);
    assert_eq!(parse_u16("+1"), Some(1));
    assert_eq!(parse_u16("+"), None);
    assert_eq!(parse_u16(""), None);
    assert_eq!(parse_u16("-1"), None);
    assert_eq!(parse_u16(" 1"), None);
    for s in ["12", "99999", "4x", "+443"] {
        assert_eq!(parse_u16(s), s.parse::<u16>().ok());
    }
}

#[test]
fn integers_are_written_in_decimal() {
    assert_eq!(i64_to_string(0), "0");
    assert_eq!(i64_to_string(-42), "-42");
    assert_eq!(i64_to_string(i64::MIN), i64::MIN.to_string());
    assert_eq!(i64_to_string(i64::MAX), i64::MAX.to_string());
}

#[test]
fn splitting_keeps_empty_parts_and_joins_back() {
    let parts = split_chars(&chars_of("a,,b,"), ',');
    assert_eq!(parts, vec!["a", "", "b", ""]);
    assert_eq!(parts.join(","), "a,,b,");
    assert_eq!(split_chars(&chars_of(""), ','), vec![""]);
}

#[test]
fn strings_sort_by_characters() {
    let v = vec!["b".to_string(), "a/z".to_string(), "a".to_string(), "ab".to_string()];
    let sorted = sort_strings(v);
    assert_eq!(sorted, vec!["a", "a/z", "ab", "b"]);
    assert!(str_le("a", "a"));
    assert!(str_le("a", "ab"));
    assert!(!str_le("b", "ab"));
}

#[test]
fn absent_text_is_empty() {
    assert_eq!(as_non_null_string(None), "");
    assert_eq!(as_non_null_string(Some("x")), "x");
}
