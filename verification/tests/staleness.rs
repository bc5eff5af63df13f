use mensa_upb::staleness::{
    needs_refresh, RefreshPolicy, DEFAULT_HORIZON_DAYS, FUTURE_INTERVAL_MICROS,
    TODAY_INTERVAL_MICROS,
};
use mensa_upb::time::{Date, Timestamp, MICROS_PER_DAY, MICROS_PER_HOUR};

const TODAY: i32 = 19_884;

fn noon() -> Timestamp {
    Timestamp::new(TODAY as i64 * MICROS_PER_DAY + 12 * MICROS_PER_HOUR)
}

fn hours_before(now: Timestamp, hours: i64) -> Timestamp {
    Timestamp::new(now.micros - hours * MICROS_PER_HOUR)
}

#[test]
fn timestamp_falls_on_its_day() {
    assert_eq!(noon().date(), Date::new(TODAY));
    assert_eq!(Timestamp::new(0).date(), Date::new(0));
    assert_eq!(Timestamp::new(MICROS_PER_DAY - 1).date(), Date::new(0));
    assert_eq!(Timestamp::new(MICROS_PER_DAY).date(), Date::new(1));
    assert_eq!(Timestamp::new(-1).date(), Date::new(-1));
    assert_eq!(Timestamp::new(-MICROS_PER_DAY).date(), Date::new(-1));
    assert_eq!(Timestamp::new(-MICROS_PER_DAY - 1).date(), Date::new(-2));
    assert_eq!(Timestamp::new(i64::MIN).date(), Date::new(-106_751_992));
    assert_eq!(Timestamp::new(i64::MAX).date(), Date::new(106_751_991));
}

#[test]
fn elapsed_time_is_compared_without_overflow() {
    let early = Timestamp::new(i64::MIN);
    let late = Timestamp::new(i64::MAX);
    assert!(late.has_elapsed(early, u64::MAX));
    assert!(!early.has_elapsed(late, 0));
    assert!(late.has_elapsed(late, 0));
    assert!(!late.has_elapsed(late, 1));
}

#[test]
fn today_is_not_due_after_seven_hours() {
    let now = noon();
    assert!(!needs_refresh(Date::new(TODAY), now, Some(hours_before(now, 7)), 7, false));
}

#[test]
fn today_is_due_after_eight_hours() {
    let now = noon();
    assert!(needs_refresh(Date::new(TODAY), now, Some(hours_before(now, 8)), 7, false));
    let just_short = Timestamp::new(now.micros - 8 * MICROS_PER_HOUR + 1);
    assert!(!needs_refresh(Date::new(TODAY), now, Some(just_short), 7, false));
}

#[test]
fn coming_day_is_due_after_two_days() {
    let now = noon();
    let tomorrow = Date::new(TODAY + 1);
    assert!(!needs_refresh(tomorrow, now, Some(hours_before(now, 47)), 7, false));
    assert!(needs_refresh(tomorrow, now, Some(hours_before(now, 48)), 7, false));
}

#[test]
fn never_fetched_is_due() {
    let now = noon();
    assert!(needs_refresh(Date::new(TODAY), now, None, 7, false));
    assert!(needs_refresh(Date::new(TODAY + 7), now, None, 7, false));
}

#[test]
fn beyond_the_horizon_nothing_is_due() {
    let now = noon();
    assert!(!needs_refresh(Date::new(TODAY + 8), now, None, 7, false));
    assert!(!needs_refresh(Date::new(TODAY + 8), now, None, 7, true));
    assert!(!needs_refresh(Date::new(TODAY + 1), now, None, 0, true));
}

#[test]
fn past_days_are_not_refreshed_by_default() {
    let now = noon();
    let yesterday = Date::new(TODAY - 1);
    assert!(!needs_refresh(yesterday, now, None, 7, false));
    assert!(!needs_refresh(yesterday, now, Some(hours_before(now, 1000)), 7, false));
    assert!(!needs_refresh(yesterday, now, None, 7, true));
}

#[test]
fn past_days_inside_the_look_back_are_due_only_by_force_once_fetched() {
    let now = noon();
    let policy = RefreshPolicy {
        horizon_days: 7,
        look_back_days: 2,
        today_interval: TODAY_INTERVAL_MICROS,
        future_interval: FUTURE_INTERVAL_MICROS,
    };
    let yesterday = Date::new(TODAY - 1);
    let long_ago = Some(hours_before(now, 1000));
    assert!(!policy.is_due(yesterday, now, long_ago, false));
    assert!(policy.is_due(yesterday, now, long_ago, true));
    assert!(policy.is_due(yesterday, now, None, false));
    assert!(!policy.is_due(Date::new(TODAY - 3), now, None, true));
    assert!(policy.in_horizon(Date::new(TODAY - 2), Date::new(TODAY)));
    assert!(!policy.in_horizon(Date::new(TODAY - 3), Date::new(TODAY)));
}

#[test]
fn force_is_due_inside_the_horizon() {
    let now = noon();
    assert!(needs_refresh(Date::new(TODAY), now, Some(now), 7, true));
    assert!(needs_refresh(Date::new(TODAY + 7), now, Some(now), 7, true));
}

#[test]
fn a_fetch_from_the_future_is_not_outdated() {
    let now = noon();
    let later = Timestamp::new(now.micros + MICROS_PER_HOUR);
    assert!(!needs_refresh(Date::new(TODAY), now, Some(later), 7, false));
}

#[test]
fn the_answer_depends_on_offsets_only() {
    let policy = RefreshPolicy::default();
    let now = noon();
    let shift = 37 * MICROS_PER_DAY;
    let then = Timestamp::new(now.micros + shift);
    for offset in -1..=8 {
        for hours in [0i64, 7, 8, 47, 48, 100] {
            for force in [false, true] {
                let a = policy.is_due(
                    Date::new(TODAY + offset),
                    now,
                    Some(hours_before(now, hours)),
                    force,
                );
                let b = policy.is_due(
                    Date::new(TODAY + 37 + offset),
                    then,
                    Some(hours_before(then, hours)),
                    force,
                );
                assert_eq!(a, b);
            }
        }
    }
}

#[test]
fn default_policy_has_the_usual_settings() {
    let policy = RefreshPolicy::default();
    assert_eq!(policy.horizon_days, DEFAULT_HORIZON_DAYS);
    assert_eq!(policy.horizon_days, 7);
    assert_eq!(policy.look_back_days, 0);
    assert_eq!(policy.today_interval, 8 * 3_600_000_000);
    assert_eq!(policy.future_interval, 48 * 3_600_000_000);
    assert_eq!(policy, RefreshPolicy::with_horizon(7));
}

#[test]
fn horizon_bounds_do_not_overflow() {
    let policy = RefreshPolicy {
        horizon_days: u32::MAX,
        look_back_days: u32::MAX,
        today_interval: 0,
        future_interval: 0,
    };
    assert!(policy.in_horizon(Date::new(i32::MIN), Date::new(i32::MAX)));
    assert!(policy.in_horizon(Date::new(i32::MAX), Date::new(i32::MIN)));
    let narrow = RefreshPolicy::with_horizon(0);
    assert!(narrow.in_horizon(Date::new(i32::MAX), Date::new(i32::MAX)));
    assert!(!narrow.in_horizon(Date::new(i32::MIN), Date::new(i32::MAX)));
}
