//! Calendar days and instants as plain numbers.

use vstd::prelude::*;

verus! {

/// Microseconds in one hour.
pub const MICROS_PER_HOUR: i64 = 3_600_000_000;

/// Microseconds in one day.
pub const MICROS_PER_DAY: i64 = 86_400_000_000;

/// A calendar day, counted in days since 1970-01-01.
#[derive(Debug, Clone, Copy, PartialEq, Eq, Hash, Structural)]
pub struct Date {
    pub days: i32,
}

/// An instant in universal time, counted in microseconds since
/// 1970-01-01 00:00:00.
#[derive(Debug, Clone, Copy, PartialEq, Eq, Hash, Structural)]
pub struct Timestamp {
    pub micros: i64,
}

impl Date {
    /// Makes the day that lies `days` days after 1970-01-01.
    pub fn new(days: i32) -> (d: Date)
        ensures
            d.days == days,
    {
        Date { days }
    }
}

impl Default for Date {
    fn default() -> (d: Date)
        ensures
            d.days == 0,
    {
        Date { days: 0 }
    }
}

impl Timestamp {
    /// The calendar day that the instant falls on.
    pub open spec fn spec_date(self) -> Date {
        Date { days: (self.micros as int / MICROS_PER_DAY as int) as i32 }
    }

    /// Time that has passed from `earlier` to this instant, in
    /// microseconds; negative where `earlier` lies in the future.
    pub open spec fn spec_elapsed_since(self, earlier: Timestamp) -> int {
        self.micros - earlier.micros
    }

    /// Makes the instant that lies `micros` microseconds after the start of
    /// 1970.
    pub fn new(micros: i64) -> (t: Timestamp)
        ensures
            t.micros == micros,
    {
        Timestamp { micros }
    }

    /// Returns the calendar day that the instant falls on.
    pub fn date(&self) -> (d: Date)
        ensures
            d == self.spec_date(),
            d.days as int * MICROS_PER_DAY as int <= self.micros < (d.days as int + 1)
                * MICROS_PER_DAY as int,
    {
        let whole: i64 = if self.micros >= 0 {
            self.micros / MICROS_PER_DAY
        } else {
            -((-(self.micros + 1)) / MICROS_PER_DAY) - 1
        };
        assert(whole == self.micros as int / MICROS_PER_DAY as int) by {
            lemma_floor_of_negative(self.micros as int, MICROS_PER_DAY as int);
        }
        Date { days: whole as i32 }
    }

    /// Tells whether at least `span` microseconds have passed from
    /// `earlier` to this instant.
    pub fn has_elapsed(&self, earlier: Timestamp, span: u64) -> (r: bool)
        ensures
            r == (self.spec_elapsed_since(earlier) >= span),
    {
        (self.micros as i128) - (earlier.micros as i128) >= span as i128
    }
}

/// Floor division of a negative number, by way of a non-negative one.
pub proof fn lemma_floor_of_negative(a: int, d: int)
    requires
        d > 0,
    ensures
        a < 0 ==> a / d == -((-(a + 1)) / d) - 1,
{
    if a < 0 {
        let q = (-(a + 1)) / d;
        let r = (-(a + 1)) % d;
        vstd::arithmetic::div_mod::lemma_fundamental_div_mod(-(a + 1), d);
        vstd::arithmetic::div_mod::lemma_mod_bound(-(a + 1), d);
        assert(a == d * (-q - 1) + (d - 1 - r)) by (nonlinear_arith)
            requires
                -(a + 1) == d * q + r,
        ;
        vstd::arithmetic::div_mod::lemma_fundamental_div_mod_converse(a, d, -q - 1, d - 1 - r);
    }
}

} // verus!
