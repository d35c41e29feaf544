//! Rise/fall hysteresis for one monitored service.
//!
//! A service address is advertised (added to the loopback interface) once
//! `rise` consecutive health checks have succeeded while it was withdrawn,
//! and withdrawn once `fall` consecutive checks have failed while it was
//! advertised. Only these transitions change the interface.

use vstd::prelude::*;

verus! {

/// Whether the service address is currently advertised.
#[derive(Clone, Copy, Debug, PartialEq, Eq, Structural)]
pub enum State {
    Healthy,
    Unhealthy,
}

/// What the caller must do to the loopback interface after a check.
#[derive(Clone, Copy, Debug, PartialEq, Eq, Structural)]
pub enum IpAction {
    /// Leave the interface as it is.
    Keep,
    /// Add the service address.
    Advertise,
    /// Remove the service address.
    Withdraw,
}

/// Per-service monitor: current state and the lengths of the current
/// success and failure streaks.
#[derive(Clone, Copy, Debug)]
pub struct ServiceMonitor {
    pub state: State,
    pub consecutive_ok: u32,
    pub consecutive_fail: u32,
    pub rise: u32,
    pub fall: u32,
}

/// `n + 1`, staying at `u32::MAX` once there.
pub open spec fn saturating_inc(n: u32) -> u32 {
    if n == u32::MAX {
        u32::MAX
    } else {
        (n + 1) as u32
    }
}

/// The monitor a service starts with: an address already on the interface
/// resumes as healthy with a full success streak; otherwise it starts
/// unhealthy with a full failure streak.
pub open spec fn initial_monitor(already_present: bool, rise: u32, fall: u32) -> ServiceMonitor {
    if already_present {
        ServiceMonitor { state: State::Healthy, consecutive_ok: rise, consecutive_fail: 0, rise, fall }
    } else {
        ServiceMonitor { state: State::Unhealthy, consecutive_ok: 0, consecutive_fail: fall, rise, fall }
    }
}

/// The streak counters after one check result; the state is unchanged.
pub open spec fn counted(m: ServiceMonitor, healthy: bool) -> ServiceMonitor {
    if healthy {
        ServiceMonitor {
            state: m.state,
            consecutive_ok: saturating_inc(m.consecutive_ok),
            consecutive_fail: 0,
            rise: m.rise,
            fall: m.fall,
        }
    } else {
        ServiceMonitor {
            state: m.state,
            consecutive_ok: 0,
            consecutive_fail: saturating_inc(m.consecutive_fail),
            rise: m.rise,
            fall: m.fall,
        }
    }
}

/// The interface change called for by a monitor whose counters already
/// include the check result `healthy`.
pub open spec fn action_for(m: ServiceMonitor, healthy: bool) -> IpAction {
    if healthy && m.state == State::Unhealthy && m.consecutive_ok >= m.rise {
        IpAction::Advertise
    } else if !healthy && m.state == State::Healthy && m.consecutive_fail >= m.fall {
        IpAction::Withdraw
    } else {
        IpAction::Keep
    }
}

/// The monitor once an interface change has been carried out.
pub open spec fn applied(m: ServiceMonitor, action: IpAction) -> ServiceMonitor {
    match action {
        IpAction::Keep => m,
        IpAction::Advertise => ServiceMonitor {
            state: State::Healthy,
            consecutive_ok: m.consecutive_ok,
            consecutive_fail: m.consecutive_fail,
            rise: m.rise,
            fall: m.fall,
        },
        IpAction::Withdraw => ServiceMonitor {
            state: State::Unhealthy,
            consecutive_ok: m.consecutive_ok,
            consecutive_fail: m.consecutive_fail,
            rise: m.rise,
            fall: m.fall,
        },
    }
}

/// One check result, with the interface change it calls for carried out.
pub open spec fn step(m: ServiceMonitor, healthy: bool) -> ServiceMonitor {
    let c = counted(m, healthy);
    applied(c, action_for(c, healthy))
}

/// A sequence of check results, every interface change succeeding.
pub open spec fn run(m: ServiceMonitor, outcomes: Seq<bool>) -> ServiceMonitor
    decreases outcomes.len(),
{
    if outcomes.len() == 0 {
        m
    } else {
        step(run(m, outcomes.drop_last()), outcomes.last())
    }
}

/// The last `k` entries of `outcomes` all equal `value`.
pub open spec fn ends_with_streak(outcomes: Seq<bool>, k: int, value: bool) -> bool {
    &&& 0 <= k <= outcomes.len()
    &&& forall|i: int| outcomes.len() - k <= i < outcomes.len() ==> #[trigger] outcomes[i] == value
}

/// `min(j, u32::MAX)`.
pub open spec fn capped(j: int) -> int {
    if j > u32::MAX as int { u32::MAX as int } else { j }
}

proof fn run_keeps_thresholds(m: ServiceMonitor, outcomes: Seq<bool>)
    ensures
        run(m, outcomes).rise == m.rise,
        run(m, outcomes).fall == m.fall,
    decreases outcomes.len(),
{
    if outcomes.len() > 0 {
        run_keeps_thresholds(m, outcomes.drop_last());
    }
}

proof fn success_streak_counted(m: ServiceMonitor, outcomes: Seq<bool>, j: int)
    requires
        j >= 1,
        ends_with_streak(outcomes, j, true),
    ensures
        run(m, outcomes).state == State::Healthy || (run(m, outcomes).consecutive_ok >= capped(j)
            && run(m, outcomes).consecutive_ok < m.rise),
    decreases j,
{
    let p = outcomes.drop_last();
    run_keeps_thresholds(m, p);
    assert(outcomes.last() == true);
    if j > 1 {
        assert(ends_with_streak(p, j - 1, true)) by {
            assert forall|i: int| p.len() - (j - 1) <= i < p.len() implies #[trigger] p[i] == true by {
                assert(p[i] == outcomes[i]);
            }
        }
        success_streak_counted(m, p, j - 1);
    }
}

proof fn failure_streak_counted(m: ServiceMonitor, outcomes: Seq<bool>, j: int)
    requires
        j >= 1,
        ends_with_streak(outcomes, j, false),
    ensures
        run(m, outcomes).state == State::Unhealthy || (run(m, outcomes).consecutive_fail >= capped(j)
            && run(m, outcomes).consecutive_fail < m.fall),
    decreases j,
{
    let p = outcomes.drop_last();
    run_keeps_thresholds(m, p);
    assert(outcomes.last() == false);
    if j > 1 {
        assert(ends_with_streak(p, j - 1, false)) by {
            assert forall|i: int| p.len() - (j - 1) <= i < p.len() implies #[trigger] p[i] == false by {
                assert(p[i] == outcomes[i]);
            }
        }
        failure_streak_counted(m, p, j - 1);
    }
}

/// Rise: whatever the monitor's history, once the last `k` checks have
/// succeeded, with `k` at least `rise` and at least one, the address is
/// advertised.
pub proof fn rise_successes_advertise(m: ServiceMonitor, outcomes: Seq<bool>, k: int)
    requires
        k >= 1,
        k >= m.rise,
        ends_with_streak(outcomes, k, true),
    ensures
        run(m, outcomes).state == State::Healthy,
{
    success_streak_counted(m, outcomes, k);
}

/// Fall: whatever the monitor's history, once the last `k` checks have
/// failed, with `k` at least `fall` and at least one, the address is
/// withdrawn.
pub proof fn fall_failures_withdraw(m: ServiceMonitor, outcomes: Seq<bool>, k: int)
    requires
        k >= 1,
        k >= m.fall,
        ends_with_streak(outcomes, k, false),
    ensures
        run(m, outcomes).state == State::Unhealthy,
{
    failure_streak_counted(m, outcomes, k);
}

/// Hysteresis on the way up: a withdrawn address whose success streak, with
/// the new successes added, stays below `rise` is not advertised.
pub proof fn short_success_streak_keeps_withdrawn(m: ServiceMonitor, outcomes: Seq<bool>)
    requires
        m.state == State::Unhealthy,
        forall|i: int| 0 <= i < outcomes.len() ==> #[trigger] outcomes[i] == true,
        m.consecutive_ok + outcomes.len() < m.rise,
    ensures
        run(m, outcomes).state == State::Unhealthy,
        run(m, outcomes).consecutive_ok == m.consecutive_ok + outcomes.len(),
    decreases outcomes.len(),
{
    if outcomes.len() > 0 {
        let p = outcomes.drop_last();
        assert forall|i: int| 0 <= i < p.len() implies #[trigger] p[i] == true by {
            assert(p[i] == outcomes[i]);
        }
        short_success_streak_keeps_withdrawn(m, p);
        run_keeps_thresholds(m, p);
        assert(outcomes.last() == true);
    }
}

/// Hysteresis on the way down: an advertised address whose failure streak,
/// with the new failures added, stays below `fall` is not withdrawn.
pub proof fn short_failure_streak_keeps_advertised(m: ServiceMonitor, outcomes: Seq<bool>)
    requires
        m.state == State::Healthy,
        forall|i: int| 0 <= i < outcomes.len() ==> #[trigger] outcomes[i] == false,
        m.consecutive_fail + outcomes.len() < m.fall,
    ensures
        run(m, outcomes).state == State::Healthy,
        run(m, outcomes).consecutive_fail == m.consecutive_fail + outcomes.len(),
    decreases outcomes.len(),
{
    if outcomes.len() > 0 {
        let p = outcomes.drop_last();
        assert forall|i: int| 0 <= i < p.len() implies #[trigger] p[i] == false by {
            assert(p[i] == outcomes[i]);
        }
        short_failure_streak_keeps_advertised(m, p);
        run_keeps_thresholds(m, p);
        assert(outcomes.last() == false);
    }
}

/// A change that could not be carried out is asked for again: if a
/// success calls for advertising and the address could not be added, the
/// next success calls for advertising again; likewise for withdrawal.
pub proof fn failed_change_is_retried(m: ServiceMonitor, healthy: bool)
    requires
        action_for(counted(m, healthy), healthy) != IpAction::Keep,
    ensures
        action_for(counted(counted(m, healthy), healthy), healthy) == action_for(
            counted(m, healthy),
            healthy,
        ),
{
}

/// At most one streak is running: a fresh monitor and every monitor after a
/// check have a zero success streak or a zero failure streak.
pub proof fn one_streak_at_a_time(m: ServiceMonitor, healthy: bool, already_present: bool, rise: u32, fall: u32)
    ensures
        step(m, healthy).consecutive_ok == 0 || step(m, healthy).consecutive_fail == 0,
        initial_monitor(already_present, rise, fall).consecutive_ok == 0 || initial_monitor(
            already_present,
            rise,
            fall,
        ).consecutive_fail == 0,
{
}

/// Restart resumes: an address already on the interface resumes as
/// advertised and a single success keeps it so without any interface
/// change; an absent one starts withdrawn, and a single failure does not
/// call for removing it.
pub proof fn restart_resumes_without_change(already_present: bool, rise: u32, fall: u32)
    ensures
        already_present ==> initial_monitor(already_present, rise, fall).state == State::Healthy
            && action_for(counted(initial_monitor(already_present, rise, fall), true), true)
            == IpAction::Keep,
        !already_present ==> initial_monitor(already_present, rise, fall).state == State::Unhealthy
            && action_for(counted(initial_monitor(already_present, rise, fall), false), false)
            == IpAction::Keep,
{
}

// ------------------------------------------------------------------
// Histories in which interface changes may fail.
//
// An event is (check result, change carried out): the second part says
// whether the add or delete the check called for succeeded; it does not
// matter when the check called for no change.

/// One event: count the result and, if the change it calls for succeeded,
/// record the change.
pub open spec fn step_with(m: ServiceMonitor, event: (bool, bool)) -> ServiceMonitor {
    let c = counted(m, event.0);
    if event.1 {
        applied(c, action_for(c, event.0))
    } else {
        c
    }
}

/// The monitor after a history of events.
pub open spec fn history(m: ServiceMonitor, events: Seq<(bool, bool)>) -> ServiceMonitor
    decreases events.len(),
{
    if events.len() == 0 {
        m
    } else {
        step_with(history(m, events.drop_last()), events.last())
    }
}

/// The change asked for by the check of event `k`.
pub open spec fn action_at(m: ServiceMonitor, events: Seq<(bool, bool)>, k: int) -> IpAction {
    action_for(counted(history(m, events.take(k)), events[k].0), events[k].0)
}

/// The check results of a history.
pub open spec fn check_results(events: Seq<(bool, bool)>) -> Seq<bool> {
    events.map_values(|e: (bool, bool)| e.0)
}

/// The changes that were asked for and carried out, in order.
pub open spec fn carried_out(m: ServiceMonitor, events: Seq<(bool, bool)>) -> Seq<IpAction>
    decreases events.len(),
{
    if events.len() == 0 {
        Seq::empty()
    } else {
        let before = carried_out(m, events.drop_last());
        let a = action_at(m, events, events.len() - 1);
        if a != IpAction::Keep && events.last().1 {
            before.push(a)
        } else {
            before
        }
    }
}

/// Whether the address is on the interface, given whether it was there at
/// start and the changes carried out since.
pub open spec fn advertised(initially_present: bool, changes: Seq<IpAction>) -> bool {
    if changes.len() == 0 {
        initially_present
    } else {
        changes.last() == IpAction::Advertise
    }
}

/// Length of the run of `value` that ends `s`.
pub open spec fn trailing(s: Seq<bool>, value: bool) -> nat
    decreases s.len(),
{
    if s.len() == 0 || s.last() != value {
        0
    } else {
        trailing(s.drop_last(), value) + 1
    }
}

proof fn trailing_is_streak(s: Seq<bool>, value: bool, j: int)
    requires
        0 <= j,
    ensures
        ends_with_streak(s, j, value) <==> trailing(s, value) >= j,
        trailing(s, value) <= s.len(),
    decreases s.len(),
{
    if s.len() > 0 {
        let p = s.drop_last();
        trailing_is_streak(p, value, 0);
        if j >= 1 {
            trailing_is_streak(p, value, j - 1);
            if ends_with_streak(s, j, value) {
                assert(s[s.len() - 1] == value);
                assert forall|i: int| p.len() - (j - 1) <= i < p.len() implies #[trigger] p[i] == value by {
                    assert(p[i] == s[i]);
                    assert(s.len() - j <= i);
                }
            }
            if trailing(s, value) >= j {
                assert(ends_with_streak(p, j - 1, value));
                assert forall|i: int| s.len() - j <= i < s.len() implies #[trigger] s[i] == value by {
                    if i < s.len() - 1 {
                        assert(s[i] == p[i]);
                    }
                }
            }
        }
    }
}

/// What holds of the monitor after any history started from
/// `initial_monitor`.
pub open spec fn history_invariant(
    present: bool,
    rise: u32,
    fall: u32,
    events: Seq<(bool, bool)>,
) -> bool {
    let m0 = initial_monitor(present, rise, fall);
    let m = history(m0, events);
    let o = check_results(events);
    let cs = carried_out(m0, events);
    &&& m.rise == rise
    &&& m.fall == fall
    &&& m.state == State::Unhealthy ==> m.consecutive_ok == capped(trailing(o, true) as int)
    &&& m.state == State::Healthy ==> m.consecutive_fail == capped(trailing(o, false) as int)
    &&& (m.state == State::Healthy) == advertised(present, cs)
    &&& forall|i: int| 0 <= i < cs.len() ==> #[trigger] cs[i] != IpAction::Keep
    &&& forall|i: int| 0 <= i < cs.len() - 1 ==> #[trigger] cs[i] != cs[i + 1]
    &&& cs.len() > 0 ==> (cs[0] == IpAction::Withdraw <==> present)
}

proof fn history_invariant_holds(present: bool, rise: u32, fall: u32, events: Seq<(bool, bool)>)
    ensures
        history_invariant(present, rise, fall, events),
    decreases events.len(),
{
    let m0 = initial_monitor(present, rise, fall);
    if events.len() > 0 {
        let q = events.drop_last();
        let e = events.last();
        history_invariant_holds(present, rise, fall, q);
        let b = history(m0, q);
        let oq = check_results(q);
        let o = check_results(events);
        assert(o.drop_last() =~= oq);
        assert(o.last() == e.0);
        assert(events.take(events.len() - 1) =~= q);
        let c = counted(b, e.0);
        let a = action_for(c, e.0);
        assert(action_at(m0, events, events.len() - 1) == a);
        let csq = carried_out(m0, q);
        let cs = carried_out(m0, events);
        if a != IpAction::Keep && e.1 {
            assert(cs == csq.push(a));
            assert forall|i: int| 0 <= i < cs.len() - 1 implies #[trigger] cs[i] != cs[i + 1] by {
                if i < cs.len() - 2 {
                    assert(cs[i] == csq[i] && cs[i + 1] == csq[i + 1]);
                } else {
                    assert(cs[i] == csq.last());
                }
            }
            assert forall|i: int| 0 <= i < cs.len() implies #[trigger] cs[i] != IpAction::Keep by {
                if i < csq.len() {
                    assert(cs[i] == csq[i]);
                }
            }
            if csq.len() > 0 {
                assert(cs[0] == csq[0]);
            }
        } else {
            assert(cs == csq);
        }
    }
}

/// Rise, over any history (changes may have failed): while the address is
/// not on the interface, the check of event `k` asks to add it exactly
/// when the last `max(rise, 1)` check results, up to and including this
/// one, are all healthy; while it is on the interface, no check asks to
/// add it.
pub proof fn advertise_exactly_after_rise(
    present: bool,
    rise: u32,
    fall: u32,
    events: Seq<(bool, bool)>,
    k: int,
)
    requires
        0 <= k < events.len(),
    ensures
        ({
            let m0 = initial_monitor(present, rise, fall);
            let was_advertised = advertised(present, carried_out(m0, events.take(k)));
            let streak = if rise >= 1 { rise as int } else { 1 };
            &&& !was_advertised ==> (action_at(m0, events, k) == IpAction::Advertise
                <==> ends_with_streak(check_results(events.take(k + 1)), streak, true))
            &&& was_advertised ==> action_at(m0, events, k) != IpAction::Advertise
        }),
{
    let m0 = initial_monitor(present, rise, fall);
    let before = events.take(k);
    let upto = events.take(k + 1);
    history_invariant_holds(present, rise, fall, before);
    let o = check_results(before);
    let ou = check_results(upto);
    assert(ou.drop_last() =~= o);
    assert(ou.last() == events[k].0);
    let streak = if rise >= 1 { rise as int } else { 1 };
    trailing_is_streak(ou, true, streak);
    trailing_is_streak(o, true, 0);
}

/// Fall, over any history (changes may have failed): while the address is
/// on the interface, the check of event `k` asks to remove it exactly when
/// the last `max(fall, 1)` check results, up to and including this one,
/// have all failed; while it is not on the interface, no check asks to
/// remove it.
pub proof fn withdraw_exactly_after_fall(
    present: bool,
    rise: u32,
    fall: u32,
    events: Seq<(bool, bool)>,
    k: int,
)
    requires
        0 <= k < events.len(),
    ensures
        ({
            let m0 = initial_monitor(present, rise, fall);
            let was_advertised = advertised(present, carried_out(m0, events.take(k)));
            let streak = if fall >= 1 { fall as int } else { 1 };
            &&& was_advertised ==> (action_at(m0, events, k) == IpAction::Withdraw
                <==> ends_with_streak(check_results(events.take(k + 1)), streak, false))
            &&& !was_advertised ==> action_at(m0, events, k) != IpAction::Withdraw
        }),
{
    let m0 = initial_monitor(present, rise, fall);
    let before = events.take(k);
    let upto = events.take(k + 1);
    history_invariant_holds(present, rise, fall, before);
    let o = check_results(before);
    let ou = check_results(upto);
    assert(ou.drop_last() =~= o);
    assert(ou.last() == events[k].0);
    let streak = if fall >= 1 { fall as int } else { 1 };
    trailing_is_streak(ou, false, streak);
    trailing_is_streak(o, false, 0);
}

/// Over any history, the changes carried out alternate between adding and
/// removing the address, the first being a removal exactly when the
/// address was on the interface at start; and the monitor's state says
/// whether the address is on the interface.
pub proof fn changes_alternate(present: bool, rise: u32, fall: u32, events: Seq<(bool, bool)>)
    ensures
        ({
            let m0 = initial_monitor(present, rise, fall);
            let cs = carried_out(m0, events);
            &&& forall|i: int| 0 <= i < cs.len() ==> #[trigger] cs[i] != IpAction::Keep
            &&& forall|i: int| 0 <= i < cs.len() - 1 ==> #[trigger] cs[i] != cs[i + 1]
            &&& cs.len() > 0 ==> (cs[0] == IpAction::Withdraw <==> present)
            &&& (history(m0, events).state == State::Healthy) == advertised(present, cs)
        }),
{
    history_invariant_holds(present, rise, fall, events);
}

impl ServiceMonitor {
    /// Starts monitoring; `already_present` says whether the address is on
    /// the loopback interface already.
    pub fn new(already_present: bool, rise: u32, fall: u32) -> (m: ServiceMonitor)
        ensures
            m == initial_monitor(already_present, rise, fall),
    {
        if already_present {
            ServiceMonitor { state: State::Healthy, consecutive_ok: rise, consecutive_fail: 0, rise, fall }
        } else {
            ServiceMonitor { state: State::Unhealthy, consecutive_ok: 0, consecutive_fail: fall, rise, fall }
        }
    }

    /// Records one check result and returns the interface change it calls
    /// for. The state itself changes only through `confirm`, once the
    /// change has been carried out.
    pub fn observe(&mut self, healthy: bool) -> (action: IpAction)
        ensures
            *final(self) == counted(*old(self), healthy),
            action == action_for(*final(self), healthy),
            action == IpAction::Advertise ==> healthy && old(self).state == State::Unhealthy,
            action == IpAction::Withdraw ==> !healthy && old(self).state == State::Healthy,
    {
        if healthy {
            self.consecutive_fail = 0;
            self.consecutive_ok = self.consecutive_ok.saturating_add(1);
            if self.state == State::Unhealthy && self.consecutive_ok >= self.rise {
                IpAction::Advertise
            } else {
                IpAction::Keep
            }
        } else {
            self.consecutive_ok = 0;
            self.consecutive_fail = self.consecutive_fail.saturating_add(1);
            if self.state == State::Healthy && self.consecutive_fail >= self.fall {
                IpAction::Withdraw
            } else {
                IpAction::Keep
            }
        }
    }

    /// Records that `action` was carried out on the interface.
    pub fn confirm(&mut self, action: IpAction)
        ensures
            *final(self) == applied(*old(self), action),
    {
        match action {
            IpAction::Keep => {},
            IpAction::Advertise => {
                self.state = State::Healthy;
            },
            IpAction::Withdraw => {
                self.state = State::Unhealthy;
            },
        }
    }
}

/// A check or lookup that ended in an error counts as a negative answer.
pub fn true_or_false_on_error<E>(result: &Result<bool, E>) -> (r: bool)
    ensures
        r == (match result {
            Ok(v) => *v,
            Err(_) => false,
        }),
{
    match result {
        Ok(v) => *v,
        Err(_) => false,
    }
}

} // verus!
