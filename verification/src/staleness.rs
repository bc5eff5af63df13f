//! The staleness policy: when a menu is due for another fetch.

use vstd::prelude::*;
use crate::time::{Date, Timestamp};

verus! {

/// Days ahead of today up to which menus are fetched, unless configured
/// otherwise.
pub const DEFAULT_HORIZON_DAYS: u32 = 7;

/// Time after which today's menu is fetched again: eight hours.
pub const TODAY_INTERVAL_MICROS: u64 = 28_800_000_000;

/// Time after which the menu of a coming day is fetched again: two days.
pub const FUTURE_INTERVAL_MICROS: u64 = 172_800_000_000;

/// The settings of the staleness policy.
#[derive(Debug, Clone, Copy, PartialEq, Eq, Structural)]
pub struct RefreshPolicy {
    /// How many days ahead of today a menu may lie and still be fetched.
    pub horizon_days: u32,
    /// How many days behind today a menu may lie and still be fetched.
    pub look_back_days: u32,
    /// Microseconds after which the menu of today is due again.
    pub today_interval: u64,
    /// Microseconds after which the menu of a coming day is due again.
    pub future_interval: u64,
}

impl RefreshPolicy {
    /// Whether `date` lies in the window around `today` inside which menus
    /// are fetched at all.
    pub open spec fn within_horizon(self, date: Date, today: Date) -> bool {
        today.days - self.look_back_days <= date.days <= today.days + self.horizon_days
    }

    /// Whether a stored fetch from `last_fetched_at` has grown too old at
    /// `now` for the menu of `date`.
    pub open spec fn outdated(self, date: Date, now: Timestamp, last_fetched_at: Timestamp) -> bool {
        let today = now.spec_date();
        if date.days == today.days {
            now.spec_elapsed_since(last_fetched_at) >= self.today_interval
        } else if date.days > today.days {
            now.spec_elapsed_since(last_fetched_at) >= self.future_interval
        } else {
            false
        }
    }

    /// Whether the menu of `date` is due for a fetch at `now`.
    ///
    /// Outside the horizon nothing is ever due. Inside it, a forced refresh
    /// is always due, a menu never fetched is due, and a fetched one is due
    /// once its fetch is outdated.
    pub open spec fn due(
        self,
        date: Date,
        now: Timestamp,
        last_fetched_at: Option<Timestamp>,
        force: bool,
    ) -> bool {
        if !self.within_horizon(date, now.spec_date()) {
            false
        } else if force {
            true
        } else {
            match last_fetched_at {
                None => true,
                Some(t) => self.outdated(date, now, t),
            }
        }
    }

    /// The policy with the given horizon and otherwise the usual settings:
    /// no look-back, eight hours for today, two days for coming days.
    pub open spec fn spec_with_horizon(horizon_days: u32) -> RefreshPolicy {
        RefreshPolicy {
            horizon_days,
            look_back_days: 0,
            today_interval: TODAY_INTERVAL_MICROS,
            future_interval: FUTURE_INTERVAL_MICROS,
        }
    }

    /// Makes the policy with the given horizon and otherwise the usual
    /// settings.
    pub fn with_horizon(horizon_days: u32) -> (p: RefreshPolicy)
        ensures
            p == RefreshPolicy::spec_with_horizon(horizon_days),
    {
        RefreshPolicy {
            horizon_days,
            look_back_days: 0,
            today_interval: TODAY_INTERVAL_MICROS,
            future_interval: FUTURE_INTERVAL_MICROS,
        }
    }

    /// Tells whether `date` lies inside the window around `today`.
    pub fn in_horizon(&self, date: Date, today: Date) -> (r: bool)
        ensures
            r == self.within_horizon(date, today),
    {
        let d = date.days as i64;
        let t = today.days as i64;
        t - (self.look_back_days as i64) <= d && d <= t + (self.horizon_days as i64)
    }

    /// Tells whether the menu of `date` is due for a fetch at `now`.
    pub fn is_due(
        &self,
        date: Date,
        now: Timestamp,
        last_fetched_at: Option<Timestamp>,
        force: bool,
    ) -> (r: bool)
        ensures
            r == self.due(date, now, last_fetched_at, force),
    {
        let today = now.date();
        if !self.in_horizon(date, today) {
            false
        } else if force {
            true
        } else {
            match last_fetched_at {
                None => true,
                Some(t) => {
                    if date.days == today.days {
                        now.has_elapsed(t, self.today_interval)
                    } else if date.days > today.days {
                        now.has_elapsed(t, self.future_interval)
                    } else {
                        false
                    }
                },
            }
        }
    }
}

impl Default for RefreshPolicy {
    fn default() -> (p: RefreshPolicy)
        ensures
            p == RefreshPolicy::spec_with_horizon(DEFAULT_HORIZON_DAYS),
    {
        RefreshPolicy::with_horizon(DEFAULT_HORIZON_DAYS)
    }
}

/// Tells whether the menu of `date` is due for a fetch at `now`, under the
/// usual settings and the given horizon.
pub fn needs_refresh(
    date: Date,
    now: Timestamp,
    last_fetched_at: Option<Timestamp>,
    horizon_days: u32,
    force: bool,
) -> (r: bool)
    ensures
        r == RefreshPolicy::spec_with_horizon(horizon_days).due(date, now, last_fetched_at, force),
{
    RefreshPolicy::with_horizon(horizon_days).is_due(date, now, last_fetched_at, force)
}

/// Whether a menu is due depends only on where its day lies relative to
/// today, on the time that has passed since the last fetch, and on the force
/// flag: two situations that agree in these get the same answer.
pub proof fn lemma_due_depends_on_offsets(
    policy: RefreshPolicy,
    date1: Date,
    now1: Timestamp,
    last1: Option<Timestamp>,
    date2: Date,
    now2: Timestamp,
    last2: Option<Timestamp>,
    force: bool,
)
    requires
        date1.days - now1.spec_date().days == date2.days - now2.spec_date().days,
        last1 is Some <==> last2 is Some,
        last1 is Some ==> now1.spec_elapsed_since(last1->0) == now2.spec_elapsed_since(last2->0),
    ensures
        policy.due(date1, now1, last1, force) == policy.due(date2, now2, last2, force),
{
}

/// Outside the horizon nothing is due, forced or not.
pub proof fn lemma_never_due_outside_horizon(
    policy: RefreshPolicy,
    date: Date,
    now: Timestamp,
    last_fetched_at: Option<Timestamp>,
    force: bool,
)
    requires
        !policy.within_horizon(date, now.spec_date()),
    ensures
        !policy.due(date, now, last_fetched_at, force),
{
}

/// A fetched menu of a past day is due only when the refresh is forced.
pub proof fn lemma_past_due_only_by_force(
    policy: RefreshPolicy,
    date: Date,
    now: Timestamp,
    last_fetched_at: Timestamp,
    force: bool,
)
    requires
        date.days < now.spec_date().days,
    ensures
        policy.due(date, now, Some(last_fetched_at), force) == (force && policy.within_horizon(
            date,
            now.spec_date(),
        )),
{
}

/// Once a menu is due it stays due as long as its day keeps its place
/// relative to today and no new fetch is recorded.
pub proof fn lemma_due_is_monotone_in_elapsed_time(
    policy: RefreshPolicy,
    date: Date,
    now: Timestamp,
    later: Timestamp,
    last_fetched_at: Option<Timestamp>,
    force: bool,
)
    requires
        now.micros <= later.micros,
        now.spec_date() == later.spec_date(),
        policy.due(date, now, last_fetched_at, force),
    ensures
        policy.due(date, later, last_fetched_at, force),
{
}

} // verus!
