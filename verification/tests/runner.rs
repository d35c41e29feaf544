use anycaster::runner::{true_or_false_on_error, IpAction, ServiceMonitor, State};

fn feed(m: &mut ServiceMonitor, outcomes: &[bool]) -> Vec<IpAction> {
    let mut actions = Vec::new();
    for &h in outcomes {
        let a = m.observe(h);
        m.confirm(a);
        actions.push(a);
    }
    actions
}

#[test]
fn fresh_absent_service_starts_unhealthy_with_full_fail_streak() {
    let m = ServiceMonitor::new(false, 3, 2);
    assert_eq!(m.state, State::Unhealthy);
    assert_eq!(m.consecutive_ok, 0);
    assert_eq!(m.consecutive_fail, 2);
}

#[test]
fn present_service_resumes_healthy_with_full_ok_streak() {
    let m = ServiceMonitor::new(true, 3, 2);
    assert_eq!(m.state, State::Healthy);
    assert_eq!(m.consecutive_ok, 3);
    assert_eq!(m.consecutive_fail, 0);
}

#[test]
fn advertises_after_rise_successes() {
    let mut m = ServiceMonitor::new(false, 3, 2);
    let actions = feed(&mut m, &[true, true, true]);
    assert_eq!(actions, vec![IpAction::Keep, IpAction::Keep, IpAction::Advertise]);
    assert_eq!(m.state, State::Healthy);
}

#[test]
fn withdraws_after_fall_failures() {
    let mut m = ServiceMonitor::new(true, 3, 2);
    let actions = feed(&mut m, &[false, false]);
    assert_eq!(actions, vec![IpAction::Keep, IpAction::Withdraw]);
    assert_eq!(m.state, State::Unhealthy);
}

#[test]
fn a_failure_resets_the_success_streak() {
    let mut m = ServiceMonitor::new(false, 3, 2);
    let actions = feed(&mut m, &[true, true, false, true, true]);
    assert!(actions.iter().all(|a| *a == IpAction::Keep));
    assert_eq!(m.state, State::Unhealthy);
    assert_eq!(m.consecutive_ok, 2);
    let a = m.observe(true);
    assert_eq!(a, IpAction::Advertise);
}

#[test]
fn single_failure_does_not_withdraw_with_fall_two() {
    let mut m = ServiceMonitor::new(true, 3, 2);
    let actions = feed(&mut m, &[false, true, false, true]);
    assert!(actions.iter().all(|a| *a == IpAction::Keep));
    assert_eq!(m.state, State::Healthy);
}

#[test]
fn unconfirmed_advertise_is_asked_again() {
    let mut m = ServiceMonitor::new(false, 1, 1);
    assert_eq!(m.observe(true), IpAction::Advertise);
    // the add failed: no confirm
    assert_eq!(m.state, State::Unhealthy);
    assert_eq!(m.observe(true), IpAction::Advertise);
    m.confirm(IpAction::Advertise);
    assert_eq!(m.state, State::Healthy);
    assert_eq!(m.observe(true), IpAction::Keep);
}

#[test]
fn unconfirmed_withdraw_is_asked_again() {
    let mut m = ServiceMonitor::new(true, 1, 1);
    assert_eq!(m.observe(false), IpAction::Withdraw);
    assert_eq!(m.observe(false), IpAction::Withdraw);
}

#[test]
fn success_never_withdraws_and_failure_never_advertises() {
    let mut m = ServiceMonitor::new(false, 0, 0);
    assert_eq!(m.observe(false), IpAction::Keep);
    let mut h = ServiceMonitor::new(true, 0, 0);
    assert_eq!(h.observe(true), IpAction::Keep);
}

#[test]
fn rise_zero_advertises_on_first_success() {
    let mut m = ServiceMonitor::new(false, 0, 2);
    assert_eq!(m.observe(true), IpAction::Advertise);
}

#[test]
fn counters_saturate() {
    let mut m = ServiceMonitor::new(true, u32::MAX, 2);
    assert_eq!(m.consecutive_ok, u32::MAX);
    assert_eq!(m.observe(true), IpAction::Keep);
    assert_eq!(m.consecutive_ok, u32::MAX);
}

#[test]
fn streaks_are_exclusive() {
    let mut m = ServiceMonitor::new(false, 3, 2);
    for h in [true, false, true, true, false, false, true] {
        let a = m.observe(h);
        m.confirm(a);
        assert!(m.consecutive_ok == 0 || m.consecutive_fail == 0);
    }
}

#[test]
fn errors_count_as_failures() {
    let ok: Result<bool, String> = Ok(true);
    let no: Result<bool, String> = Ok(false);
    let err: Result<bool, String> = Err("timeout".to_string());
    assert!(true_or_false_on_error(&ok));
    assert!(!true_or_false_on_error(&no));
    assert!(!true_or_false_on_error(&err));
}

#[test]
fn carried_out_changes_alternate_when_some_fail() {
    // (check result, whether the change it asks for succeeds)
    let events = [
        (true, false), (true, false), (true, false), // add asked, fails
        (true, true),                                // add asked again, succeeds
        (false, true), (false, false),               // remove asked, fails
        (false, true),                               // remove asked again, succeeds
        (true, true), (true, true), (true, true),    // add after rise 3
    ];
    let mut m = ServiceMonitor::new(false, 3, 2);
    let mut done = Vec::new();
    let mut asked = Vec::new();
    for (h, ok) in events {
        let a = m.observe(h);
        asked.push(a);
        if a != IpAction::Keep && ok {
            m.confirm(a);
            done.push(a);
        }
    }
    assert_eq!(
        asked,
        vec![
            IpAction::Keep, IpAction::Keep, IpAction::Advertise, IpAction::Advertise,
            IpAction::Keep, IpAction::Withdraw, IpAction::Withdraw,
            IpAction::Keep, IpAction::Keep, IpAction::Advertise,
        ]
    );
    assert_eq!(done, vec![IpAction::Advertise, IpAction::Withdraw, IpAction::Advertise]);
    assert_eq!(m.state, State::Healthy);
}
