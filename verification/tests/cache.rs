use mensa_upb::cache::{key_of, MenuCache, DEFAULT_CACHE_THRESHOLD};
use mensa_upb::canteen::Canteen;
use mensa_upb::decimal::{Decimal, DishPrices, NutritionValues};
use mensa_upb::dish::Dish;
use mensa_upb::dish_type::DishType;
use mensa_upb::menu::Menu;
use mensa_upb::time::Date;

const TODAY: i32 = 19_884;

fn menu_with(date: Date, name: &str, canteen: Canteen) -> Menu {
    let price = Decimal::from_hundredths(350);
    Menu::from_dishes(
        date,
        vec![Dish::new(
            name.to_string(),
            None,
            DishPrices::new(price, price, price),
            vec![],
            DishType::Main,
            NutritionValues::unknown(),
            vec![canteen],
        )],
    )
}

#[test]
fn what_was_inserted_is_found() {
    let mut cache = MenuCache::new();
    let today = Date::new(TODAY);
    assert_eq!(cache.len(), 0);
    assert_eq!(cache.get(Canteen::Forum, today, today), None);
    let menu = menu_with(today, "Schnitzel", Canteen::Forum);
    cache.insert(Canteen::Forum, today, menu.clone());
    assert_eq!(cache.len(), 1);
    assert!(cache.contains(Canteen::Forum, today));
    assert!(!cache.contains(Canteen::Academica, today));
    assert!(!cache.contains(Canteen::Forum, Date::new(TODAY + 1)));
    assert_eq!(cache.get(Canteen::Forum, today, today), Some(menu));
    assert_eq!(cache.get(Canteen::Academica, today, today), None);
    let other = menu_with(today, "Auflauf", Canteen::Forum);
    cache.insert(Canteen::Forum, today, other.clone());
    assert_eq!(cache.len(), 1);
    assert_eq!(cache.get(Canteen::Forum, today, today), Some(other));
    cache.invalidate(Canteen::Forum, today);
    assert_eq!(cache.len(), 0);
    assert_eq!(cache.get(Canteen::Forum, today, today), None);
    cache.invalidate(Canteen::Forum, today);
    assert_eq!(cache.len(), 0);
}

#[test]
fn keys_tell_days_and_halls_apart() {
    let mut seen = std::collections::HashSet::new();
    for days in [i32::MIN, -1, 0, 1, TODAY, i32::MAX] {
        for canteen in Canteen::all() {
            assert!(seen.insert(key_of(Date::new(days), canteen)));
        }
    }
    assert_eq!(key_of(Date::new(i32::MIN), Canteen::Academica), 0);
    assert_eq!(key_of(Date::new(0), Canteen::Forum), 0x8000_0000u64 * 8 + 4);
    assert_eq!(key_of(Date::new(i32::MAX), Canteen::ZM2), 0xFFFF_FFFFu64 * 8 + 7);
}

#[test]
fn sweeping_drops_only_the_days_that_have_passed() {
    let mut cache = MenuCache::with_threshold(2);
    let yesterday = Date::new(TODAY - 1);
    let today = Date::new(TODAY);
    let tomorrow = Date::new(TODAY + 1);
    cache.insert(Canteen::Forum, yesterday, menu_with(yesterday, "Gestern", Canteen::Forum));
    cache.insert(Canteen::Forum, today, menu_with(today, "Heute", Canteen::Forum));
    assert_eq!(
        cache.get(Canteen::Forum, yesterday, today),
        Some(menu_with(yesterday, "Gestern", Canteen::Forum))
    );
    assert_eq!(cache.len(), 2);
    cache.insert(Canteen::Forum, tomorrow, menu_with(tomorrow, "Morgen", Canteen::Forum));
    assert_eq!(cache.len(), 3);
    assert_eq!(
        cache.get(Canteen::Forum, today, today),
        Some(menu_with(today, "Heute", Canteen::Forum))
    );
    assert_eq!(cache.len(), 2);
    assert!(!cache.contains(Canteen::Forum, yesterday));
    assert!(cache.contains(Canteen::Forum, today));
    assert!(cache.contains(Canteen::Forum, tomorrow));
    assert_eq!(cache.get(Canteen::Forum, yesterday, today), None);
    assert_eq!(
        cache.get(Canteen::Forum, tomorrow, today),
        Some(menu_with(tomorrow, "Morgen", Canteen::Forum))
    );
}

#[test]
fn the_usual_threshold_is_a_hundred_entries() {
    assert_eq!(DEFAULT_CACHE_THRESHOLD, 100);
    let mut cache = MenuCache::default();
    let today = Date::new(TODAY);
    for i in 1..=100 {
        let past = Date::new(TODAY - i);
        cache.insert(Canteen::Forum, past, Menu::new(past));
    }
    assert_eq!(cache.get(Canteen::ZM2, today, today), None);
    assert_eq!(cache.len(), 100);
    cache.insert(Canteen::Forum, today, Menu::new(today));
    assert_eq!(cache.len(), 101);
    assert_eq!(cache.get(Canteen::Forum, today, today), Some(Menu::new(today)));
    assert_eq!(cache.len(), 1);
}

#[test]
fn cleaning_can_be_asked_for_at_any_size() {
    let mut cache = MenuCache::new();
    let today = Date::new(TODAY);
    for canteen in Canteen::all() {
        for offset in -2..=2 {
            let date = Date::new(TODAY + offset);
            cache.insert(canteen, date, Menu::new(date));
        }
    }
    assert_eq!(cache.len(), 40);
    cache.clean_outdated(today);
    assert_eq!(cache.len(), 24);
    for canteen in Canteen::all() {
        assert!(!cache.contains(canteen, Date::new(TODAY - 1)));
        assert!(!cache.contains(canteen, Date::new(TODAY - 2)));
        assert!(cache.contains(canteen, today));
        assert!(cache.contains(canteen, Date::new(TODAY + 2)));
    }
    cache.clean_outdated(today);
    assert_eq!(cache.len(), 24);
    cache.clean_outdated(Date::new(i32::MAX));
    assert_eq!(cache.len(), 0);
}

#[test]
fn combined_menu_merges_what_is_cached_and_skips_the_rest() {
    let mut cache = MenuCache::new();
    let today = Date::new(TODAY);
    cache.insert(Canteen::Forum, today, menu_with(today, "Schnitzel", Canteen::Forum));
    cache.insert(Canteen::Academica, today, menu_with(today, "Schnitzel", Canteen::Academica));
    cache.insert(Canteen::ZM2, Date::new(TODAY + 1), menu_with(today, "Auflauf", Canteen::ZM2));
    let combined =
        cache.get_combined(&[Canteen::Forum, Canteen::ZM2, Canteen::Academica], today, today);
    assert_eq!(combined.get_main_dishes().len(), 1);
    assert_eq!(combined.get_main_dishes()[0].get_name(), "Schnitzel");
    assert_eq!(
        combined.get_main_dishes()[0].get_canteens(),
        &[Canteen::Academica, Canteen::Forum]
    );
    assert_eq!(combined.get_date(), Date::new(0));
    assert_eq!(cache.get_combined(&[], today, today), Menu::default());
    assert_eq!(cache.get_combined(&[Canteen::Atrium], today, today), Menu::default());
    assert_eq!(cache.len(), 3);
}

#[test]
fn peeking_does_not_sweep() {
    let mut cache = MenuCache::with_threshold(0);
    assert_eq!(cache.threshold(), 0);
    assert_eq!(MenuCache::new().threshold(), 100);
    let yesterday = Date::new(TODAY - 1);
    let today = Date::new(TODAY);
    cache.insert(Canteen::Forum, yesterday, Menu::new(yesterday));
    assert_eq!(cache.peek(Canteen::Forum, yesterday), Some(Menu::new(yesterday)));
    assert_eq!(cache.peek(Canteen::Forum, today), None);
    assert_eq!(cache.len(), 1);
    assert_eq!(cache.get(Canteen::Forum, yesterday, today), None);
    assert_eq!(cache.len(), 0);
    let copy = cache.clone();
    assert_eq!(copy.len(), 0);
}
