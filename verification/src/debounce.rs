//! Debouncing of a single pin: the switch state that is reported from the levels that the pin
//! takes and the time that passes.
//!
//! The runner calls [`PinDebouncer::on_level`] whenever the pin changes its level and
//! [`PinDebouncer::on_time`] when a timer it was asked to set runs out; both return the new
//! switch state when one is to be reported.
use crate::matrix::Debounce;
use vstd::prelude::*;

verus! {

/// The debouncing state of a pin: the reported state, the pin's last level, the time at which
/// the pin reached the opposite of the reported state (deferred debouncing), and the end of the
/// period in which changes are ignored (eager debouncing). Times are in microseconds.
pub type DebounceState = (bool, bool, Option<u64>, Option<u64>);

/// The debouncer that applies to a change to `target`: the press one for a change to active,
/// the release one otherwise.
pub open spec fn debounce_for(target: bool, press: Debounce, release: Debounce) -> Debounce {
    if target {
        press
    } else {
        release
    }
}

/// The state after looking at the pin at time `now`, and the state to report, if any.
pub open spec fn debounce_evaluate(s: DebounceState, now: u64, press: Debounce, release: Debounce) -> (
    DebounceState,
    Option<bool>,
) {
    let (active, level, pending, holdoff) = s;
    if holdoff matches Some(until) && now < until {
        (s, None)
    } else {
        let target = !active;
        if level != target {
            ((active, level, None, None), None)
        } else {
            match debounce_for(target, press, release) {
                Debounce::Disabled => ((target, level, None, None), Some(target)),
                Debounce::Eager { duration } => (
                    (
                        target,
                        level,
                        None,
                        Some(
                            if now + duration <= u64::MAX {
                                (now + duration) as u64
                            } else {
                                u64::MAX
                            },
                        ),
                    ),
                    Some(target),
                ),
                Debounce::Defer { duration } => {
                    let since = match pending {
                        Some(t) => t,
                        None => now,
                    };
                    if now - since >= duration {
                        ((target, level, None, None), Some(target))
                    } else {
                        ((active, level, Some(since), None), None)
                    }
                },
            }
        }
    }
}

/// Debounces one pin.
pub struct PinDebouncer {
    active: bool,
    level: bool,
    pending_since: Option<u64>,
    holdoff_until: Option<u64>,
}

impl PinDebouncer {
    /// The state as a tuple: reported state, pin level, pending since, ignored until.
    pub closed spec fn state(&self) -> DebounceState {
        (self.active, self.level, self.pending_since, self.holdoff_until)
    }

    /// Whether every recorded time lies at or before `now`.
    pub open spec fn pending_at_most(&self, now: u64) -> bool {
        self.state().2 matches Some(t) ==> t <= now
    }

    /// A debouncer for an inactive pin.
    pub fn new() -> (r: Self)
        ensures
            r.state() == (false, false, None::<u64>, None::<u64>),
    {
        PinDebouncer { active: false, level: false, pending_since: None, holdoff_until: None }
    }

    /// The reported state.
    pub fn is_active(&self) -> (r: bool)
        ensures
            r == self.state().0,
    {
        self.active
    }

    fn evaluate(&mut self, now: u64, press: &Debounce, release: &Debounce) -> (r: Option<bool>)
        requires
            old(self).pending_at_most(now),
        ensures
            (final(self).state(), r) == debounce_evaluate(old(self).state(), now, *press, *release),
            final(self).pending_at_most(now),
    {
        if let Some(until) = self.holdoff_until {
            if now < until {
                return None;
            }
        }
        let target = !self.active;
        if self.level != target {
            self.pending_since = None;
            self.holdoff_until = None;
            return None;
        }
        let debounce = if target {
            *press
        } else {
            *release
        };
        match debounce {
            Debounce::Disabled => {
                self.active = target;
                self.pending_since = None;
                self.holdoff_until = None;
                Some(target)
            },
            Debounce::Eager { duration } => {
                self.active = target;
                self.pending_since = None;
                self.holdoff_until = Some(now.saturating_add(duration));
                Some(target)
            },
            Debounce::Defer { duration } => {
                let since = match self.pending_since {
                    Some(t) => t,
                    None => now,
                };
                self.holdoff_until = None;
                if now - since >= duration {
                    self.active = target;
                    self.pending_since = None;
                    Some(target)
                } else {
                    self.pending_since = Some(since);
                    None
                }
            },
        }
    }

    /// The pin changed to `level` at time `now`; returns the state to report, if any.
    pub fn on_level(&mut self, level: bool, now: u64, press: &Debounce, release: &Debounce) -> (r:
        Option<bool>)
        requires
            old(self).pending_at_most(now),
        ensures
            ({
                let s = old(self).state();
                (final(self).state(), r) == debounce_evaluate(
                    (s.0, level, s.2, s.3),
                    now,
                    *press,
                    *release,
                )
            }),
            final(self).pending_at_most(now),
    {
        self.level = level;
        self.evaluate(now, press, release)
    }

    /// A timer ran out at time `now`; returns the state to report, if any.
    pub fn on_time(&mut self, now: u64, press: &Debounce, release: &Debounce) -> (r: Option<bool>)
        requires
            old(self).pending_at_most(now),
        ensures
            (final(self).state(), r) == debounce_evaluate(old(self).state(), now, *press, *release),
            final(self).pending_at_most(now),
    {
        self.evaluate(now, press, release)
    }
}

/// With deferred debouncing a change is reported only once the pin has stayed at the new level
/// for the whole duration, and it is always the opposite of the state reported before.
pub proof fn law_defer_reports_stable_levels(
    s: DebounceState,
    now: u64,
    duration: u64,
    target: bool,
)
    requires
        s.2 matches Some(t) ==> t <= now,
        s.3.is_none(),
        debounce_evaluate(s, now, Debounce::Defer { duration }, Debounce::Defer { duration }).1
            == Some(target),
    ensures
        target == !s.0,
        s.1 == target,
        match s.2 {
            Some(since) => now - since >= duration,
            None => duration == 0,
        },
{
}

/// With eager debouncing, no change is reported before the period that the last report started
/// has ended.
pub proof fn law_eager_ignores_changes_in_holdoff(
    s: DebounceState,
    now: u64,
    press: Debounce,
    release: Debounce,
)
    requires
        s.3 matches Some(until) && now < until,
    ensures
        debounce_evaluate(s, now, press, release) == (s, None::<bool>),
{
}

/// The reports of a pin alternate: a report is always the opposite of the state reported before
/// and becomes the reported state, and nothing else changes that state. Since a new debouncer
/// starts inactive, its first report is a press.
pub proof fn law_reports_alternate(s: DebounceState, now: u64, press: Debounce, release: Debounce)
    ensures
        ({
            let (next, r) = debounce_evaluate(s, now, press, release);
            match r {
                Some(x) => x == !s.0 && next.0 == x,
                None => next.0 == s.0,
            }
        }),
{
}

} // verus!
