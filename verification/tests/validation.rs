use hosts_updater_rs::validate::{
    is_valid_domain, is_valid_ip, validate_hosts_content, validate_hosts_line, ValidationError,
};

// ------------------------------------------------------------------
// Whole-document validation
// ------------------------------------------------------------------

#[test]
fn test_validate_hosts_content_valid() {
    let content = "\n# 注释行\n127.0.0.1 localhost\n192.168.1.100 example.com\n";
    assert!(validate_hosts_content(content, "https://example.com").is_ok());
}

#[test]
fn test_validate_hosts_content_empty() {
    let content = "";
    assert!(validate_hosts_content(content, "https://example.com").is_err());
}

#[test]
fn test_validate_hosts_content_with_control_chars() {
    let content = "127.0.0.1 localhost\x00";
    assert!(validate_hosts_content(content, "https://example.com").is_err());
}

#[test]
fn test_validate_hosts_content_invalid_line() {
    let content = "127.0.0.1\ninvalid_line_without_ip\n192.168.1.100 example.com";
    assert!(validate_hosts_content(content, "https://example.com").is_err());
}

#[test]
fn test_validate_hosts_content_missing_domain() {
    let content = "127.0.0.1";
    assert!(validate_hosts_content(content, "https://example.com").is_err());
}

#[test]
fn test_validate_hosts_content_invalid_domain() {
    let content = "127.0.0.1 -invalid.com";
    assert!(validate_hosts_content(content, "https://example.com").is_err());
}

// ------------------------------------------------------------------
// Address validation
// ------------------------------------------------------------------

#[test]
fn test_validate_hosts_line_valid_ipv4() {
    assert!(is_valid_ip("127.0.0.1"));
    assert!(is_valid_ip("192.168.1.100"));
    assert!(is_valid_ip("0.0.0.0"));
}

#[test]
fn test_validate_hosts_line_valid_ipv6() {
    assert!(is_valid_ip("::1"));
    assert!(is_valid_ip("2001:0db8:85a3:0000:0000:8a2e:0370:7334"));
    assert!(is_valid_ip("[::1]"));
}

#[test]
fn test_validate_hosts_line_invalid_ip() {
    assert!(!is_valid_ip("invalid"));
    assert!(!is_valid_ip("256.1.1.1"));
    assert!(!is_valid_ip("abc.def.ghi.jkl"));
}

#[test]
fn ipv4_octets_must_be_canonical() {
    assert!(is_valid_ip("255.255.255.255"));
    assert!(is_valid_ip("1.2.3.4"));
    assert!(!is_valid_ip("01.2.3.4"));
    assert!(!is_valid_ip("1.2.3"));
    assert!(!is_valid_ip("1.2.3.4.5"));
    assert!(!is_valid_ip("1.2.3."));
    assert!(!is_valid_ip(".1.2.3.4"));
    assert!(!is_valid_ip("1.2.3.256"));
    assert!(!is_valid_ip(""));
}

#[test]
fn ipv6_compressed_and_embedded_forms() {
    assert!(is_valid_ip("::"));
    assert!(is_valid_ip("1:2:3:4:5:6:7:8"));
    assert!(is_valid_ip("1:2:3:4:5:6:7::"));
    assert!(is_valid_ip("::1:2:3:4:5:6:7"));
    assert!(is_valid_ip("fe80::1"));
    assert!(is_valid_ip("::ffff:192.168.1.1"));
    assert!(is_valid_ip("1:2:3:4:5:6:1.2.3.4"));
    assert!(is_valid_ip("[2001:db8::1]"));
    assert!(!is_valid_ip("1::2::3"));
    assert!(!is_valid_ip(":::"));
    assert!(!is_valid_ip("1:2:3:4:5:6:7:8:9"));
    assert!(!is_valid_ip("1:2:3:4:5:6:7:8::"));
    assert!(!is_valid_ip(":1:2:3:4:5:6:7"));
    assert!(!is_valid_ip("1:2:3:4:5:6:7:"));
    assert!(!is_valid_ip("12345::"));
    assert!(!is_valid_ip("g::1"));
    assert!(!is_valid_ip("[::1"));
    assert!(!is_valid_ip("::1]"));
}

// ------------------------------------------------------------------
// Name validation
// ------------------------------------------------------------------

#[test]
fn test_is_valid_domain_valid() {
    assert!(is_valid_domain("example.com"));
    assert!(is_valid_domain("sub.example.com"));
    assert!(is_valid_domain("localhost"));
    assert!(is_valid_domain("my-server-123.com"));
    assert!(is_valid_domain("a1b2c3.com"));
}

#[test]
fn test_is_valid_domain_invalid() {
    assert!(!is_valid_domain(""));
    assert!(!is_valid_domain("-invalid.com"));
    assert!(!is_valid_domain("invalid-.com"));
    assert!(!is_valid_domain("invalid..com"));
    assert!(!is_valid_domain("invalid_domain.com"));
    assert!(!is_valid_domain("exam ple.com"));
}

#[test]
fn domain_label_and_total_length_limits() {
    let label63: String = "a".repeat(63);
    let label64: String = "a".repeat(64);
    assert!(is_valid_domain(&label63));
    assert!(!is_valid_domain(&label64));
    // four 62-character labels and dots: 62*4 + 3 = 251 characters
    let long_ok = format!("{0}.{0}.{0}.{0}", "b".repeat(62));
    assert_eq!(long_ok.len(), 251);
    assert!(is_valid_domain(&long_ok));
    // 63 + 1 + 63 + 1 + 63 + 1 + 62 = 254 characters: one over the limit
    let long_bad = format!("{0}.{0}.{0}.{1}", "c".repeat(63), "c".repeat(62));
    assert_eq!(long_bad.len(), 254);
    assert!(!is_valid_domain(&long_bad));
    assert!(is_valid_domain("a"));
    assert!(is_valid_domain("9"));
    assert!(is_valid_domain("a-b"));
    assert!(!is_valid_domain("a."));
    assert!(!is_valid_domain(".a"));
}

// ------------------------------------------------------------------
// Line validation and the error taxonomy
// ------------------------------------------------------------------

#[test]
fn line_with_address_and_names_yields_record() {
    let rec = validate_hosts_line("127.0.0.1  localhost example.com").unwrap();
    assert_eq!(rec.address, "127.0.0.1");
    assert_eq!(rec.names, vec!["localhost".to_string(), "example.com".to_string()]);
}

#[test]
fn line_with_one_token_is_missing_field() {
    let e = validate_hosts_line("127.0.0.1").unwrap_err();
    assert!(matches!(e, ValidationError::MissingField));
}

#[test]
fn line_with_bad_address_reports_token() {
    let e = validate_hosts_line("not-an-ip example.com").unwrap_err();
    match e {
        ValidationError::InvalidAddress { token } => assert_eq!(token, "not-an-ip"),
        other => panic!("unexpected error: {:?}", other),
    }
}

#[test]
fn line_with_bad_name_reports_token_and_label() {
    let e = validate_hosts_line("1.2.3.4 good.com -bad.com").unwrap_err();
    match e {
        ValidationError::InvalidName { token, label } => {
            assert_eq!(token, "-bad.com");
            assert_eq!(label.as_deref(), Some("-bad"));
        },
        other => panic!("unexpected error: {:?}", other),
    }
}

#[test]
fn overlong_name_reports_no_label() {
    let long = format!("1.2.3.4 {0}.{0}.{0}.{0}", "c".repeat(63));
    let e = validate_hosts_line(&long).unwrap_err();
    match e {
        ValidationError::InvalidName { token: _, label } => assert!(label.is_none()),
        other => panic!("unexpected error: {:?}", other),
    }
}

#[test]
fn empty_document_is_reported_as_such() {
    let e = validate_hosts_content("  \n\t\n", "https://example.com").unwrap_err();
    assert!(matches!(e, ValidationError::EmptyDocument));
}

#[test]
fn control_character_offset_is_reported() {
    let e = validate_hosts_content("ab\x01cd", "https://example.com").unwrap_err();
    match e {
        ValidationError::IllegalControlCharacter { offset } => assert_eq!(offset, 2),
        other => panic!("unexpected error: {:?}", other),
    }
}

#[test]
fn failing_line_carries_position_text_origin_and_cause() {
    let content = "# header\n127.0.0.1 localhost\nnot-an-ip example.com\n";
    let e = validate_hosts_content(content, "https://origin.example").unwrap_err();
    match e {
        ValidationError::LineValidationError { line_no, text, origin, cause } => {
            assert_eq!(line_no, 3);
            assert_eq!(text, "not-an-ip example.com");
            assert_eq!(origin, "https://origin.example");
            match *cause {
                ValidationError::InvalidAddress { token } => assert_eq!(token, "not-an-ip"),
                other => panic!("unexpected cause: {:?}", other),
            }
        },
        other => panic!("unexpected error: {:?}", other),
    }
}

#[test]
fn document_scenarios_accept_and_reject() {
    assert!(
        validate_hosts_content("127.0.0.1 localhost\n192.168.1.100 example.com", "a").is_ok()
    );
    let e = validate_hosts_content("not-an-ip example.com", "a").unwrap_err();
    match e {
        ValidationError::LineValidationError { cause, .. } => {
            match *cause {
                ValidationError::InvalidAddress { token } => assert_eq!(token, "not-an-ip"),
                other => panic!("unexpected cause: {:?}", other),
            }
        },
        other => panic!("unexpected error: {:?}", other),
    }
    let e = validate_hosts_content("", "a").unwrap_err();
    assert!(matches!(e, ValidationError::EmptyDocument));
}

#[test]
fn tabs_and_crlf_are_accepted_separators() {
    let content = "127.0.0.1\tlocalhost\r\n192.168.1.100   example.com\r\n";
    assert!(validate_hosts_content(content, "https://example.com").is_ok());
}
