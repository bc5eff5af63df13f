use mensa_upb::cache::MenuCache;
use mensa_upb::canteen::Canteen;
use mensa_upb::decimal::{Decimal, DishPrices, NutritionValues};
use mensa_upb::dish::Dish;
use mensa_upb::dish_type::DishType;
use mensa_upb::menu::Menu;
use mensa_upb::refresh::{check_refresh, complete_refresh, Scrape};
use mensa_upb::staleness::RefreshPolicy;
use mensa_upb::store::{MenuStore, ScrapeAudit};
use mensa_upb::time::{Date, Timestamp, MICROS_PER_DAY, MICROS_PER_HOUR};

const TODAY: i32 = 19_884;

fn noon() -> Timestamp {
    Timestamp::new(TODAY as i64 * MICROS_PER_DAY + 12 * MICROS_PER_HOUR)
}

fn audit(date: Date, canteen: Canteen, hours_ago: i64) -> ScrapeAudit {
    ScrapeAudit {
        scraped_for: date,
        canteen,
        scraped_at: Timestamp::new(noon().micros - hours_ago * MICROS_PER_HOUR),
    }
}

fn dish(name: &str) -> Dish {
    let price = Decimal::from_hundredths(350);
    Dish::new(
        name.to_string(),
        None,
        DishPrices::new(price, price, price),
        vec![],
        DishType::Main,
        NutritionValues::unknown(),
        vec![],
    )
}

#[test]
fn halls_never_fetched_or_fetched_long_ago_are_due() {
    let today = Date::new(TODAY);
    let audits = [
        audit(today, Canteen::Forum, 9),
        audit(today, Canteen::Academica, 20),
        audit(today, Canteen::Academica, 2),
        audit(Date::new(TODAY + 1), Canteen::ZM2, 1),
    ];
    let due = check_refresh(
        &RefreshPolicy::default(),
        today,
        noon(),
        &[Canteen::ZM2, Canteen::Forum, Canteen::Academica, Canteen::Forum],
        &audits,
        false,
    );
    assert_eq!(due, vec![Canteen::Forum, Canteen::ZM2]);
}

#[test]
fn nothing_is_due_when_everything_is_fresh() {
    let today = Date::new(TODAY);
    let audits = [audit(today, Canteen::Forum, 1), audit(today, Canteen::ZM2, 7)];
    let due = check_refresh(
        &RefreshPolicy::default(),
        today,
        noon(),
        &[Canteen::Forum, Canteen::ZM2],
        &audits,
        false,
    );
    assert!(due.is_empty());
    let none = check_refresh(&RefreshPolicy::default(), today, noon(), &[], &audits, true);
    assert!(none.is_empty());
}

#[test]
fn beyond_the_horizon_only_force_refreshes() {
    let far = Date::new(TODAY + 8);
    let candidates = [Canteen::Forum, Canteen::Academica];
    let due = check_refresh(&RefreshPolicy::default(), far, noon(), &candidates, &[], false);
    assert!(due.is_empty());
    let forced = check_refresh(&RefreshPolicy::default(), far, noon(), &candidates, &[], true);
    assert_eq!(forced, vec![Canteen::Academica, Canteen::Forum]);
    let edge = check_refresh(
        &RefreshPolicy::default(),
        Date::new(TODAY + 7),
        noon(),
        &candidates,
        &[],
        false,
    );
    assert_eq!(edge, vec![Canteen::Academica, Canteen::Forum]);
}

#[test]
fn force_takes_every_candidate() {
    let today = Date::new(TODAY);
    let audits = [audit(today, Canteen::Forum, 0), audit(today, Canteen::ZM2, 0)];
    let due = check_refresh(
        &RefreshPolicy::default(),
        today,
        noon(),
        &[Canteen::ZM2, Canteen::Forum, Canteen::Atrium],
        &audits,
        true,
    );
    assert_eq!(due, vec![Canteen::Atrium, Canteen::Forum, Canteen::ZM2]);
}

#[test]
fn a_batch_writes_the_successes_and_skips_the_failures() {
    let today = Date::new(TODAY);
    let mut store = MenuStore::new();
    let mut cache = MenuCache::new();
    cache.insert(Canteen::Forum, today, Menu::new(today));
    cache.insert(Canteen::Academica, today, Menu::new(today));
    cache.insert(Canteen::Forum, Date::new(TODAY + 1), Menu::new(today));
    let outcomes = vec![
        Scrape { canteen: Canteen::Forum, dishes: Some(vec![dish("Schnitzel")]) },
        Scrape { canteen: Canteen::Academica, dishes: None },
        Scrape { canteen: Canteen::ZM2, dishes: Some(vec![]) },
    ];
    assert!(complete_refresh(&mut store, &mut cache, today, &outcomes, noon()));
    assert_eq!(store.latest_dishes(today, Canteen::Forum), vec![dish("Schnitzel")]);
    assert!(store.latest_dishes(today, Canteen::Academica).is_empty());
    assert_eq!(store.last_fetched(today, Canteen::Forum), Some(noon()));
    assert_eq!(store.last_fetched(today, Canteen::Academica), None);
    assert_eq!(store.last_fetched(today, Canteen::ZM2), Some(noon()));
    assert!(!cache.contains(Canteen::Forum, today));
    assert!(cache.contains(Canteen::Academica, today));
    assert!(cache.contains(Canteen::Forum, Date::new(TODAY + 1)));

    let rows_before = store.row_count();
    assert!(complete_refresh(&mut store, &mut cache, today, &outcomes, noon()));
    assert_eq!(store.row_count(), rows_before);
    assert_eq!(store.audits().len(), 4);
}

#[test]
fn a_batch_without_success_writes_nothing() {
    let today = Date::new(TODAY);
    let mut store = MenuStore::new();
    let mut cache = MenuCache::new();
    cache.insert(Canteen::Forum, today, Menu::new(today));
    let failed = vec![Scrape { canteen: Canteen::Forum, dishes: None }];
    assert!(!complete_refresh(&mut store, &mut cache, today, &failed, noon()));
    assert!(!complete_refresh(&mut store, &mut cache, today, &[], noon()));
    assert_eq!(store.row_count(), 0);
    assert!(store.audits().is_empty());
    assert!(cache.contains(Canteen::Forum, today));
}

#[test]
fn after_a_refresh_the_halls_are_fresh_again() {
    let today = Date::new(TODAY);
    let policy = RefreshPolicy::default();
    let mut store = MenuStore::new();
    let mut cache = MenuCache::new();
    let candidates = [Canteen::Forum, Canteen::Academica];
    let due = check_refresh(&policy, today, noon(), &candidates, store.audits(), false);
    assert_eq!(due, vec![Canteen::Academica, Canteen::Forum]);
    let outcomes: Vec<Scrape> = due
        .iter()
        .map(|c| Scrape { canteen: *c, dishes: Some(vec![dish("Schnitzel")]) })
        .collect();
    assert!(complete_refresh(&mut store, &mut cache, today, &outcomes, noon()));
    let again = check_refresh(&policy, today, noon(), &candidates, store.audits(), false);
    assert!(again.is_empty());
    let later = Timestamp::new(noon().micros + 8 * MICROS_PER_HOUR);
    let tonight = check_refresh(&policy, today, later, &candidates, store.audits(), false);
    assert_eq!(tonight, vec![Canteen::Academica, Canteen::Forum]);
}

#[test]
fn plans_are_made_against_the_stored_rows() {
    let today = Date::new(TODAY);
    let mut store = MenuStore::new();
    store.synchronize(today, Canteen::Forum, &[dish("Auflauf"), dish("Bratwurst")], noon());
    store.synchronize(today, Canteen::ZM2, &[dish("Auflauf")], noon());
    store.synchronize(Date::new(TODAY + 1), Canteen::Forum, &[dish("Zander")], noon());
    let outcomes = vec![
        Scrape { canteen: Canteen::Forum, dishes: Some(vec![dish("Bratwurst"), dish("Currywurst")]) },
        Scrape { canteen: Canteen::Academica, dishes: None },
        Scrape { canteen: Canteen::ZM2, dishes: Some(vec![dish("Auflauf")]) },
        Scrape { canteen: Canteen::Atrium, dishes: Some(vec![]) },
    ];
    let plans = mensa_upb::refresh::plan_refresh(today, &outcomes, store.rows());
    assert_eq!(plans.len(), 3);
    assert_eq!(plans[0].canteen, Canteen::Forum);
    assert_eq!(plans[0].plan.stale, vec![dish("Auflauf")]);
    assert_eq!(plans[0].plan.new, vec![dish("Currywurst")]);
    assert_eq!(plans[1].canteen, Canteen::ZM2);
    assert!(plans[1].plan.is_empty());
    assert_eq!(plans[2].canteen, Canteen::Atrium);
    assert!(plans[2].plan.is_empty());
    assert!(mensa_upb::refresh::plan_refresh(today, &[], store.rows()).is_empty());
}

#[test]
fn what_was_seen_is_not_pending() {
    let first = Date::new(TODAY);
    let canteens = [Canteen::Forum, Canteen::ZM2];
    let seen = [
        (Date::new(TODAY), Canteen::ZM2),
        (Date::new(TODAY + 1), Canteen::Forum),
        (Date::new(TODAY + 1), Canteen::ZM2),
        (Date::new(TODAY + 3), Canteen::Forum),
    ];
    assert_eq!(
        mensa_upb::refresh::pending_scrapes(first, 3, &canteens, &seen),
        vec![
            (Date::new(TODAY), Canteen::Forum),
            (Date::new(TODAY + 2), Canteen::Forum),
            (Date::new(TODAY + 2), Canteen::ZM2),
        ]
    );
    assert!(mensa_upb::refresh::pending_scrapes(first, 0, &canteens, &seen).is_empty());
    assert!(mensa_upb::refresh::pending_scrapes(first, 3, &[], &[]).is_empty());
    assert_eq!(
        mensa_upb::refresh::pending_scrapes(Date::new(i32::MAX), 1, &canteens, &[]),
        vec![(Date::new(i32::MAX), Canteen::Forum), (Date::new(i32::MAX), Canteen::ZM2)]
    );
    assert_eq!(mensa_upb::refresh::pending_scrapes(first, 7, &Canteen::all(), &[]).len(), 56);
}

#[test]
fn a_fetched_dish_is_served_and_a_second_refresh_writes_nothing() {
    let day = Date::new(19_884);
    let now = Timestamp::new(19_884 * MICROS_PER_DAY + 9 * MICROS_PER_HOUR);
    let policy = RefreshPolicy::default();
    let mut store = MenuStore::new();
    let mut cache = MenuCache::new();
    let price = Decimal::from_hundredths(350);
    let schnitzel = Dish::new(
        "Schnitzel".to_string(),
        None,
        DishPrices::new(price, Decimal::from_hundredths(550), Decimal::from_hundredths(750)),
        vec![],
        DishType::Main,
        NutritionValues::unknown(),
        vec![Canteen::Forum],
    );

    let due = check_refresh(&policy, day, now, &[Canteen::Forum], store.audits(), false);
    assert_eq!(due, vec![Canteen::Forum]);
    let fetch = vec![Scrape { canteen: Canteen::Forum, dishes: Some(vec![schnitzel.clone()]) }];
    assert!(complete_refresh(&mut store, &mut cache, day, &fetch, now));

    assert_eq!(cache.get(Canteen::Forum, day, day), None);
    let menu = Menu::from_dishes(day, store.latest_dishes(day, Canteen::Forum));
    cache.insert(Canteen::Forum, day, menu);
    let served = cache.get(Canteen::Forum, day, day).unwrap();
    assert_eq!(served.get_main_dishes(), &[schnitzel.clone()]);
    assert!(served.get_side_dishes().is_empty());
    assert!(served.get_desserts().is_empty());
    assert_eq!(served.get_date(), day);
    assert!(store.rows().iter().all(|row| row.is_latest));

    let rows = store.row_count();
    let plans = mensa_upb::refresh::plan_refresh(day, &fetch, store.rows());
    assert!(plans.iter().all(|hall| hall.plan.is_empty()));
    let outcome = store.synchronize(day, Canteen::Forum, &[schnitzel], now);
    assert!(outcome.wrote_nothing());
    assert_eq!(store.row_count(), rows);
}
