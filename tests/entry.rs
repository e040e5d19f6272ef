use goophy::entry::parse_port;
use goophy::{Entry, ParseError, ValidationError};

#[test]
fn parses_floodgap_home() {
    let e = Entry::parse("1Floodgap Home\t/\tfloodgap.com\t70").unwrap();
    assert_eq!(e.kind, '1');
    assert_eq!(e.label, "Floodgap Home");
    assert_eq!(e.locator.as_str(), "/");
    assert_eq!(e.host, "floodgap.com");
    assert_eq!(e.port, 70);
    assert!(e.other.is_empty());
}

#[test]
fn keeps_extra_fields_in_order() {
    let e = Entry::parse("1Home\t/\thost\t70\textra1\textra2").unwrap();
    assert_eq!(e.other, vec!["extra1".to_string(), "extra2".to_string()]);
}

#[test]
fn missing_port_is_truncated() {
    assert_eq!(Entry::parse("1Home\t/\thost").unwrap_err(), ParseError::TruncatedEntry);
}

#[test]
fn non_numeric_port_is_invalid() {
    assert_eq!(Entry::parse("1Home\t/\thost\tNaN").unwrap_err(), ParseError::InvalidPort);
}

#[test]
fn empty_line_is_empty_error() {
    assert_eq!(Entry::parse("").unwrap_err(), ParseError::Empty);
}

#[test]
fn kind_only_is_truncated() {
    assert_eq!(Entry::parse("i").unwrap_err(), ParseError::TruncatedEntry);
    assert_eq!(Entry::parse("iLabel").unwrap_err(), ParseError::TruncatedEntry);
    assert_eq!(Entry::parse("1Label\t/").unwrap_err(), ParseError::TruncatedEntry);
}

#[test]
fn locator_with_line_break_is_refused() {
    assert_eq!(
        Entry::parse("1Label\t/a\rb\thost\t70").unwrap_err(),
        ParseError::InvalidLocator(ValidationError)
    );
}

#[test]
fn unknown_kind_and_empty_fields_pass_through() {
    let e = Entry::parse("Z\t\t\t0\t").unwrap();
    assert_eq!(e.kind, 'Z');
    assert_eq!(e.label, "");
    assert_eq!(e.locator.as_str(), "");
    assert_eq!(e.host, "");
    assert_eq!(e.port, 0);
    assert_eq!(e.other, vec![String::new()]);
}

#[test]
fn multibyte_kind_and_label() {
    let e = Entry::parse("éLäbel\t/ü\thöst\t+0070").unwrap();
    assert_eq!(e.kind, 'é');
    assert_eq!(e.label, "Läbel");
    assert_eq!(e.locator.as_str(), "/ü");
    assert_eq!(e.host, "höst");
    assert_eq!(e.port, 70);
}

#[test]
fn port_bounds() {
    assert_eq!(parse_port("65535"), Some(65535));
    assert_eq!(parse_port("65536"), None);
    assert_eq!(parse_port("0"), Some(0));
    assert_eq!(parse_port("+70"), Some(70));
    assert_eq!(parse_port("000000000000000000000000070"), Some(70));
    assert_eq!(parse_port("99999999999999999999"), None);
    assert_eq!(parse_port(""), None);
    assert_eq!(parse_port("+"), None);
    assert_eq!(parse_port("-1"), None);
    assert_eq!(parse_port(" 70"), None);
    assert_eq!(parse_port("70 "), None);
    assert_eq!(parse_port("7a"), None);
}

#[test]
fn port_agrees_with_std() {
    for s in ["1", "80", "8080", "65535", "65536", "+1", "++1", "0x10", "1e3", "007"] {
        assert_eq!(parse_port(s), s.parse::<u16>().ok(), "{}", s);
    }
}

#[test]
fn entry_from_str() {
    let e: Entry = "0About\t/about.txt\texample.org\t7070".parse().unwrap();
    assert_eq!(e.kind, '0');
    assert_eq!(e.port, 7070);
}
