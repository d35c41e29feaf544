//! System-load guard: while the machine is overloaded all routes are
//! withdrawn. Reading the load average and comparing it with the threshold
//! happen outside the library; this decides what a new reading changes.

use vstd::prelude::*;

verus! {

/// The shared "overloaded" flag, initially clear.
pub fn overloaded() -> std::sync::Arc<std::sync::atomic::AtomicBool> {
    std::sync::Arc::new(std::sync::atomic::AtomicBool::new(false))
}

/// What a new load reading changes.
#[derive(Clone, Copy, Debug, PartialEq, Eq, Structural)]
pub enum LoadAction {
    /// Nothing changes.
    Keep,
    /// The machine became overloaded: set the flag, withdraw all routes.
    Withdraw,
    /// The load recovered: clear the flag, allow routes again.
    Allow,
}

/// The change called for by a reading, given the flag's current value and
/// whether the reading is at or above the threshold.
pub open spec fn load_action_for(was_overloaded: bool, is_overloaded: bool) -> LoadAction {
    if is_overloaded && !was_overloaded {
        LoadAction::Withdraw
    } else if !is_overloaded && was_overloaded {
        LoadAction::Allow
    } else {
        LoadAction::Keep
    }
}

/// Decides the change from the flag's current value and whether the new
/// reading is at or above the threshold; only a change of the overload
/// condition acts.
pub fn load_transition(was_overloaded: bool, is_overloaded: bool) -> (action: LoadAction)
    ensures
        action == load_action_for(was_overloaded, is_overloaded),
{
    if is_overloaded && !was_overloaded {
        LoadAction::Withdraw
    } else if !is_overloaded && was_overloaded {
        LoadAction::Allow
    } else {
        LoadAction::Keep
    }
}

/// The flag value after acting on `action`.
pub open spec fn flag_after(flag: bool, action: LoadAction) -> bool {
    match action {
        LoadAction::Keep => flag,
        LoadAction::Withdraw => true,
        LoadAction::Allow => false,
    }
}

/// After acting on a reading the flag equals the reading's overload
/// condition, and an action is taken exactly when the condition changed.
pub proof fn flag_tracks_reading(was_overloaded: bool, is_overloaded: bool)
    ensures
        flag_after(was_overloaded, load_action_for(was_overloaded, is_overloaded)) == is_overloaded,
        load_action_for(was_overloaded, is_overloaded) == LoadAction::Keep <==> was_overloaded
            == is_overloaded,
{
}

} // verus!
