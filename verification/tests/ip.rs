use anycaster::address::parse_dotted_quad;
use anycaster::ip::{
    add_outcome, command_add_outcome, command_delete_outcome, delete_outcome, listing_shows,
    loopback_lists, parse_address, AddressEntry, Change, IpError, LOOPBACK_INDEX, PREFIX_LEN,
};
use anycaster::text::{chars_of, contains_text, same_text};

#[test]
fn dotted_quads_parse_to_their_value() {
    assert_eq!(parse_dotted_quad("10.0.0.1"), Some(0x0a00_0001));
    assert_eq!(parse_dotted_quad("255.255.255.255"), Some(u32::MAX));
    assert_eq!(parse_dotted_quad("0.0.0.0"), Some(0));
    assert_eq!(parse_dotted_quad("192.168.1.20"), Some(0xc0a8_0114));
}

#[test]
fn malformed_addresses_are_refused() {
    for bad in [
        "", "10.0.0", "10.0.0.1.", "10.0.0.1.5", "256.0.0.1", "01.0.0.1", "10.0.0.001",
        "10..0.1", " 10.0.0.1", "10.0.0.1 ", "10.0.0.1/32", "1e.0.0.1", "a.b.c.d", "::1",
        "1000.0.0.1", "+1.0.0.1",
    ] {
        assert_eq!(parse_dotted_quad(bad), None, "{bad}");
    }
}

#[test]
fn parse_address_reports_the_text() {
    assert!(matches!(parse_address("10.0.0.5"), Ok(0x0a00_0005)));
    match parse_address("not-an-ip") {
        Err(IpError::InvalidAddress(t)) => assert_eq!(t, "not-an-ip"),
        other => panic!("unexpected {:?}", other),
    }
}

#[test]
fn loopback_constants() {
    assert_eq!(LOOPBACK_INDEX, 1);
    assert_eq!(PREFIX_LEN, 32);
}

#[test]
fn netlink_listing_needs_host_prefix() {
    let entries = vec![
        AddressEntry { prefix_len: 8, addresses: vec![0x7f00_0001] },
        AddressEntry { prefix_len: 32, addresses: vec![0x0a00_0002] },
    ];
    assert!(loopback_lists(&entries, 0x0a00_0002));
    assert!(!loopback_lists(&entries, 0x7f00_0001));
    assert!(!loopback_lists(&entries, 0x0a00_0003));
    assert!(!loopback_lists(&Vec::new(), 0x0a00_0002));
}

#[test]
fn command_listing_needs_slash_32() {
    let out = "1: lo: <LOOPBACK,UP>\n    inet 127.0.0.1/8 scope host lo\n    inet 10.0.0.2/32 scope global lo\n";
    assert!(listing_shows(out, "10.0.0.2"));
    assert!(!listing_shows(out, "127.0.0.1"));
    assert!(!listing_shows(out, "10.0.0.3"));
}

#[test]
fn command_listing_matches_whole_addresses() {
    let out = "1: lo: <LOOPBACK,UP>\n    inet 127.0.0.1/8 scope host lo\n    inet 110.0.0.1/32 scope global lo\n";
    assert!(!listing_shows(out, "10.0.0.1"));
    assert!(!listing_shows(out, "0.0.1"));
    assert!(listing_shows(out, "110.0.0.1"));
    assert!(listing_shows("10.0.0.1/32", "10.0.0.1"));
    assert!(!listing_shows("10.0.0.1/8", "10.0.0.1"));
    assert!(!listing_shows("", "10.0.0.1"));
}

#[test]
fn add_exists_is_not_an_error() {
    assert_eq!(add_outcome(Ok(())).unwrap(), Change::Applied);
    assert_eq!(
        add_outcome(Err("Received a netlink error message File exists (os error 17)".to_string())).unwrap(),
        Change::AlreadyInPlace
    );
    assert_eq!(add_outcome(Err("errno 17".to_string())).unwrap(), Change::AlreadyInPlace);
    match add_outcome(Err("Operation not permitted (os error 1)".to_string())) {
        Err(IpError::Rejected(m)) => assert_eq!(m, "Operation not permitted (os error 1)"),
        other => panic!("unexpected {:?}", other),
    }
}

#[test]
fn delete_missing_is_not_an_error() {
    assert_eq!(delete_outcome(Ok(())).unwrap(), Change::Applied);
    assert_eq!(
        delete_outcome(Err("Cannot assign requested address (os error 99)".to_string())).unwrap(),
        Change::AlreadyInPlace
    );
    assert_eq!(delete_outcome(Err("errno 99".to_string())).unwrap(), Change::AlreadyInPlace);
    assert!(matches!(delete_outcome(Err("File exists".to_string())), Err(IpError::Rejected(_))));
}

#[test]
fn command_outcomes() {
    assert_eq!(command_add_outcome(true, String::new()).unwrap(), Change::Applied);
    assert_eq!(
        command_add_outcome(false, "RTNETLINK answers: File exists\n".to_string()).unwrap(),
        Change::AlreadyInPlace
    );
    assert!(matches!(command_add_outcome(false, "boom".to_string()), Err(IpError::Rejected(_))));
    assert_eq!(
        command_delete_outcome(false, "RTNETLINK answers: Cannot assign requested address\n".to_string())
            .unwrap(),
        Change::AlreadyInPlace
    );
    assert!(matches!(
        command_delete_outcome(false, "Cannot assign".to_string()),
        Err(IpError::Rejected(_))
    ));
}

#[test]
fn text_helpers() {
    assert_eq!(chars_of("héllo"), vec!['h', 'é', 'l', 'l', 'o']);
    assert!(contains_text("abcabd", "abd"));
    assert!(contains_text("abc", ""));
    assert!(!contains_text("ab", "abc"));
    assert!(!contains_text("abcab", "abd"));
    assert!(same_text("é", "é"));
    assert!(!same_text("ab", "abc"));
}
