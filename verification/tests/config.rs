use anycaster::config::{
    default_check_interval, default_dns_port, default_expect_status, default_fall,
    default_max_stratum, default_ntp_port, default_record_type, default_rise, default_timeout,
    exit_withdrawals, Check, Config, Defaults, OnExit, Service,
};

fn service(name: &str, ip: &str, rise: Option<u32>) -> Service {
    Service {
        name: name.to_string(),
        ip: ip.to_string(),
        check: Check::Tcp { host: "127.0.0.1".to_string(), port: 6379, timeout: 3 },
        check_interval: None,
        rise,
        fall: None,
    }
}

#[test]
fn builtin_defaults() {
    let d = Defaults::default();
    assert_eq!(d.check_interval, 5);
    assert_eq!(d.rise, 3);
    assert_eq!(d.fall, 2);
    assert_eq!(d.on_exit, OnExit::Withdraw);
    assert_eq!(OnExit::default(), OnExit::Withdraw);
}

#[test]
fn field_defaults() {
    assert_eq!(default_check_interval(), 5);
    assert_eq!(default_rise(), 3);
    assert_eq!(default_fall(), 2);
    assert_eq!(default_timeout(), 3);
    assert_eq!(default_expect_status(), 200);
    assert_eq!(default_dns_port(), 53);
    assert_eq!(default_ntp_port(), 123);
    assert_eq!(default_max_stratum(), 1);
    assert_eq!(default_record_type(), "A");
}

#[test]
fn per_service_overrides() {
    let d = Defaults { check_interval: 5, rise: 3, fall: 2, on_exit: OnExit::Withdraw };
    let mut s = service("web", "10.0.0.2", Some(7));
    s.check_interval = Some(11);
    assert_eq!(s.check_interval(&d), 11);
    assert_eq!(s.rise(&d), 7);
    assert_eq!(s.fall(&d), 2);
    s.fall = Some(0);
    assert_eq!(s.fall(&d), 0);
}

#[test]
fn service_without_overrides_takes_defaults() {
    let d = Defaults { check_interval: 9, rise: 4, fall: 6, on_exit: OnExit::Maintain };
    let s = service("cache", "10.0.0.3", None);
    assert_eq!(s.check_interval(&d), 9);
    assert_eq!(s.rise(&d), 4);
    assert_eq!(s.fall(&d), 6);
}

#[test]
fn withdraw_on_exit_lists_every_service_ip() {
    let cfg = Config {
        defaults: Defaults::default(),
        services: vec![service("a", "10.0.0.1", None), service("b", "10.0.0.2", None)],
    };
    assert_eq!(exit_withdrawals(&cfg), vec!["10.0.0.1".to_string(), "10.0.0.2".to_string()]);
}

#[test]
fn maintain_on_exit_lists_nothing() {
    let mut d = Defaults::default();
    d.on_exit = OnExit::Maintain;
    let cfg = Config { defaults: d, services: vec![service("a", "10.0.0.1", None)] };
    assert!(exit_withdrawals(&cfg).is_empty());
}
