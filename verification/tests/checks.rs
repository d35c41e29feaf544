use anycaster::checks::{
    dns_next, dns_plan, exec_verdict, http_verdict, ntp_request, ntp_verdict, DnsStep, RecordType,
    NTP_PACKET_SIZE,
};
use anycaster::config::DnsQuery;

fn reply(stratum: u8, len: usize) -> Vec<u8> {
    let mut r = vec![0u8; len];
    if len > 1 {
        r[1] = stratum;
    }
    r
}

#[test]
fn ntp_request_is_a_client_v4_packet() {
    let r = ntp_request();
    assert_eq!(r.len(), NTP_PACKET_SIZE);
    assert_eq!(r[0], 0x23);
    assert!(r[1..].iter().all(|b| *b == 0));
}

#[test]
fn ntp_stratum_zero_always_fails() {
    assert!(!ntp_verdict(&reply(0, 48), 1));
    assert!(!ntp_verdict(&reply(0, 48), 15));
}

#[test]
fn ntp_stratum_within_range() {
    assert!(ntp_verdict(&reply(1, 48), 1));
    assert!(!ntp_verdict(&reply(2, 48), 1));
    assert!(ntp_verdict(&reply(2, 48), 2));
    assert!(ntp_verdict(&reply(1, 48), 2));
}

#[test]
fn ntp_short_reply_fails() {
    assert!(!ntp_verdict(&reply(1, 47), 1));
    assert!(!ntp_verdict(&[], 1));
}

#[test]
fn http_status_must_match() {
    assert!(http_verdict(Some(200), 200));
    assert!(!http_verdict(Some(503), 200));
    assert!(http_verdict(Some(204), 204));
    assert!(!http_verdict(None, 200));
}

#[test]
fn exec_exit_code_zero_is_healthy() {
    assert!(exec_verdict(Some(0)));
    assert!(!exec_verdict(Some(1)));
    assert!(!exec_verdict(None));
}

#[test]
fn record_type_names() {
    assert_eq!(RecordType::from_name("A"), Some(RecordType::A));
    assert_eq!(RecordType::from_name("AAAA"), Some(RecordType::AAAA));
    assert_eq!(RecordType::from_name("MX"), Some(RecordType::MX));
    assert_eq!(RecordType::from_name("TXT"), Some(RecordType::TXT));
    assert_eq!(RecordType::from_name("CNAME"), Some(RecordType::CNAME));
    assert_eq!(RecordType::from_name("NS"), Some(RecordType::NS));
    assert_eq!(RecordType::from_name("SOA"), Some(RecordType::SOA));
    assert_eq!(RecordType::from_name("SRV"), Some(RecordType::SRV));
    assert_eq!(RecordType::from_name("PTR"), Some(RecordType::PTR));
    assert_eq!(RecordType::from_name("a"), None);
    assert_eq!(RecordType::from_name("CAA"), None);
    assert_eq!(RecordType::from_name(""), None);
}

#[test]
fn address_lookups_for_a_and_aaaa() {
    assert!(RecordType::A.uses_address_lookup());
    assert!(RecordType::AAAA.uses_address_lookup());
    assert!(!RecordType::MX.uses_address_lookup());
    assert!(!RecordType::PTR.uses_address_lookup());
}

#[test]
fn dns_without_queries_asks_google_a() {
    let plan = dns_plan(&Vec::new());
    assert_eq!(plan, vec![("google.com.".to_string(), "A".to_string())]);
}

#[test]
fn dns_plan_keeps_configured_queries() {
    let qs = vec![
        DnsQuery { name: "google.com".to_string(), record_type: "A".to_string() },
        DnsQuery { name: "example.com".to_string(), record_type: "AAAA".to_string() },
    ];
    let plan = dns_plan(&qs);
    assert_eq!(
        plan,
        vec![
            ("google.com".to_string(), "A".to_string()),
            ("example.com".to_string(), "AAAA".to_string())
        ]
    );
}

fn plan_of(items: &[(&str, &str)]) -> Vec<(String, String)> {
    items.iter().map(|(a, b)| (a.to_string(), b.to_string())).collect()
}

#[test]
fn dns_all_queries_must_succeed() {
    let plan = plan_of(&[("a.example", "A"), ("b.example", "MX")]);
    match dns_next(&plan, &vec![]) {
        DnsStep::Lookup { name, record_type } => {
            assert_eq!(name, "a.example");
            assert_eq!(record_type, RecordType::A);
        }
        other => panic!("unexpected {:?}", other),
    }
    match dns_next(&plan, &vec![true]) {
        DnsStep::Lookup { name, record_type } => {
            assert_eq!(name, "b.example");
            assert_eq!(record_type, RecordType::MX);
        }
        other => panic!("unexpected {:?}", other),
    }
    assert!(matches!(dns_next(&plan, &vec![true, true]), DnsStep::Finished(true)));
    assert!(matches!(dns_next(&plan, &vec![true, false]), DnsStep::Finished(false)));
    assert!(matches!(dns_next(&plan, &vec![false]), DnsStep::Finished(false)));
}

#[test]
fn dns_unsupported_type_only_when_reached() {
    let plan = plan_of(&[("a.example", "A"), ("b.example", "CAA")]);
    assert!(matches!(dns_next(&plan, &vec![]), DnsStep::Lookup { .. }));
    assert!(matches!(dns_next(&plan, &vec![false]), DnsStep::Finished(false)));
    match dns_next(&plan, &vec![true]) {
        DnsStep::Unsupported(t) => assert_eq!(t, "CAA"),
        other => panic!("unexpected {:?}", other),
    }
}

#[test]
fn dns_empty_plan_is_healthy() {
    let plan: Vec<(String, String)> = Vec::new();
    assert!(matches!(dns_next(&plan, &vec![]), DnsStep::Finished(true)));
}
