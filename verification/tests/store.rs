use mensa_upb::canteen::Canteen;
use mensa_upb::decimal::{Decimal, DishPrices, NutritionValues};
use mensa_upb::dish::Dish;
use mensa_upb::dish_type::DishType;
use mensa_upb::store::{last_fetched_in, MenuStore, ScrapeAudit, SyncOutcome};
use mensa_upb::time::{Date, Timestamp};

fn prices(students: i64) -> DishPrices {
    DishPrices::new(
        Decimal::from_hundredths(students),
        Decimal::from_hundredths(students + 200),
        Decimal::from_hundredths(students + 400),
    )
}

fn dish(name: &str, students: i64, kjoule: Option<i32>) -> Dish {
    Dish::new(
        name.to_string(),
        None,
        prices(students),
        vec![],
        DishType::Main,
        NutritionValues { kjoule, protein: None, carbs: None, fat: None },
        vec![Canteen::Forum],
    )
}

fn day() -> Date {
    Date::new(19_884)
}

#[test]
fn a_new_store_is_empty() {
    let store = MenuStore::new();
    assert_eq!(store.row_count(), 0);
    assert!(store.rows().is_empty());
    assert!(store.audits().is_empty());
    assert!(store.latest_dishes(day(), Canteen::Forum).is_empty());
    assert_eq!(store.last_fetched(day(), Canteen::Forum), None);
}

#[test]
fn first_fetch_is_stored_and_a_second_one_writes_nothing() {
    let mut store = MenuStore::new();
    let fetched = vec![dish("Schnitzel", 350, Some(2100))];
    let first = store.synchronize(day(), Canteen::Forum, &fetched, Timestamp::new(1_000));
    assert_eq!(first, SyncOutcome { marked_stale: 0, inserted: 1 });
    assert!(!first.wrote_nothing());
    assert_eq!(store.latest_dishes(day(), Canteen::Forum), fetched);
    assert_eq!(store.row_count(), 1);
    assert!(store.rows()[0].is_latest);
    assert_eq!(store.rows()[0].date, day());
    assert_eq!(store.rows()[0].canteen, Canteen::Forum);

    let second = store.synchronize(day(), Canteen::Forum, &fetched, Timestamp::new(2_000));
    assert_eq!(second, SyncOutcome { marked_stale: 0, inserted: 0 });
    assert!(second.wrote_nothing());
    assert_eq!(store.row_count(), 1);
    assert_eq!(store.latest_dishes(day(), Canteen::Forum), fetched);
    assert_eq!(store.audits().len(), 2);
    assert_eq!(store.last_fetched(day(), Canteen::Forum), Some(Timestamp::new(2_000)));
}

#[test]
fn stale_rows_are_kept_and_common_rows_stay_untouched() {
    let mut store = MenuStore::new();
    let a = dish("Auflauf", 300, None);
    let b_stored = dish("Bratwurst", 250, Some(1000));
    let b_fetched = dish("Bratwurst", 250, Some(1200));
    let c = dish("Currywurst", 280, None);
    store.synchronize(day(), Canteen::Forum, &[a.clone(), b_stored.clone()], Timestamp::new(1));
    let outcome = store.synchronize(day(), Canteen::Forum, &[b_fetched, c.clone()], Timestamp::new(2));
    assert_eq!(outcome, SyncOutcome { marked_stale: 1, inserted: 1 });
    assert_eq!(store.latest_dishes(day(), Canteen::Forum), vec![b_stored.clone(), c.clone()]);
    let rows = store.rows();
    assert_eq!(rows.len(), 3);
    assert_eq!(rows[0].dish, a);
    assert!(!rows[0].is_latest);
    assert_eq!(rows[1].dish, b_stored);
    assert!(rows[1].is_latest);
    assert_eq!(rows[2].dish, c);
    assert!(rows[2].is_latest);
}

#[test]
fn an_empty_fetch_empties_the_menu_and_is_recorded() {
    let mut store = MenuStore::new();
    store.synchronize(day(), Canteen::Forum, &[dish("Auflauf", 300, None)], Timestamp::new(1));
    let outcome = store.synchronize(day(), Canteen::Forum, &[], Timestamp::new(2));
    assert_eq!(outcome, SyncOutcome { marked_stale: 1, inserted: 0 });
    assert!(store.latest_dishes(day(), Canteen::Forum).is_empty());
    assert_eq!(store.row_count(), 1);
    assert_eq!(
        store.audits(),
        &[
            ScrapeAudit { scraped_for: day(), canteen: Canteen::Forum, scraped_at: Timestamp::new(1) },
            ScrapeAudit { scraped_for: day(), canteen: Canteen::Forum, scraped_at: Timestamp::new(2) },
        ]
    );
    let mut fresh = MenuStore::new();
    let nothing = fresh.synchronize(day(), Canteen::ZM2, &[], Timestamp::new(5));
    assert!(nothing.wrote_nothing());
    assert_eq!(fresh.last_fetched(day(), Canteen::ZM2), Some(Timestamp::new(5)));
    assert_eq!(fresh.last_fetched(day(), Canteen::Forum), None);
}

#[test]
fn other_days_and_halls_are_left_alone() {
    let mut store = MenuStore::new();
    let a = dish("Auflauf", 300, None);
    let b = dish("Bratwurst", 250, None);
    store.synchronize(day(), Canteen::Forum, &[a.clone()], Timestamp::new(1));
    store.synchronize(day(), Canteen::Academica, &[a.clone(), b.clone()], Timestamp::new(2));
    store.synchronize(Date::new(19_885), Canteen::Forum, &[b.clone()], Timestamp::new(3));
    store.synchronize(day(), Canteen::Forum, &[], Timestamp::new(4));
    assert!(store.latest_dishes(day(), Canteen::Forum).is_empty());
    assert_eq!(store.latest_dishes(day(), Canteen::Academica), vec![a, b.clone()]);
    assert_eq!(store.latest_dishes(Date::new(19_885), Canteen::Forum), vec![b]);
    assert_eq!(store.last_fetched(day(), Canteen::Academica), Some(Timestamp::new(2)));
    assert_eq!(store.last_fetched(day(), Canteen::Forum), Some(Timestamp::new(4)));
}

#[test]
fn a_dish_that_comes_back_gets_a_new_row() {
    let mut store = MenuStore::new();
    let a = dish("Auflauf", 300, None);
    store.synchronize(day(), Canteen::Forum, &[a.clone()], Timestamp::new(1));
    store.synchronize(day(), Canteen::Forum, &[], Timestamp::new(2));
    let outcome = store.synchronize(day(), Canteen::Forum, &[a.clone(), a.clone()], Timestamp::new(3));
    assert_eq!(outcome, SyncOutcome { marked_stale: 0, inserted: 1 });
    assert_eq!(store.row_count(), 2);
    assert_eq!(store.latest_dishes(day(), Canteen::Forum), vec![a]);
}

#[test]
fn the_last_fetch_is_the_latest_record() {
    let forum = |at: i64| ScrapeAudit {
        scraped_for: day(),
        canteen: Canteen::Forum,
        scraped_at: Timestamp::new(at),
    };
    let other = ScrapeAudit {
        scraped_for: day(),
        canteen: Canteen::ZM2,
        scraped_at: Timestamp::new(99),
    };
    let audits = [forum(5), other, forum(9), forum(7)];
    assert_eq!(last_fetched_in(&audits, day(), Canteen::Forum), Some(Timestamp::new(9)));
    assert_eq!(last_fetched_in(&audits, day(), Canteen::ZM2), Some(Timestamp::new(99)));
    assert_eq!(last_fetched_in(&audits, day(), Canteen::Atrium), None);
    assert_eq!(last_fetched_in(&audits, Date::new(1), Canteen::Forum), None);
    assert_eq!(last_fetched_in(&[], day(), Canteen::Forum), None);
}
