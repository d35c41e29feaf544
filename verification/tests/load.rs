use anycaster::load::{load_transition, overloaded, LoadAction};
use std::sync::atomic::Ordering;

#[test]
fn flag_starts_clear() {
    let f = overloaded();
    assert!(!f.load(Ordering::Relaxed));
}

#[test]
fn only_changes_act() {
    assert_eq!(load_transition(false, true), LoadAction::Withdraw);
    assert_eq!(load_transition(true, false), LoadAction::Allow);
    assert_eq!(load_transition(true, true), LoadAction::Keep);
    assert_eq!(load_transition(false, false), LoadAction::Keep);
}
