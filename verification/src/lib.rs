//! Refresh and synchronisation engine for daily dining-hall menus.
//!
//! The library decides when the menu of a day and hall is due for another
//! fetch, reconciles what was fetched with what is stored without losing
//! history, merges the menus of several halls into one, and keeps assembled
//! menus in a short-lived cache. It performs no input or output: callers
//! hand it the time, the fetched dishes and the stored records as plain
//! values.

pub mod cache;
pub mod canteen;
pub mod decimal;
pub mod dish;
pub mod dish_type;
pub mod governor;
pub mod group;
pub mod locations;
pub mod menu;
pub mod refresh;
pub mod scrape;
pub mod staleness;
pub mod store;
pub mod sync;
pub mod text;
pub mod time;

pub use cache::MenuCache;
pub use canteen::{parse_canteens_comma_separated, Canteen, CanteenExt};
pub use decimal::{
    grams_to_bigdecimal, price_to_bigdecimal, Decimal, DishPrices, NutritionValues,
};
pub use dish::Dish;
pub use dish_type::DishType;
pub use governor::{ClientAddress, UserToken};
pub use menu::Menu;
pub use refresh::{
    check_refresh, complete_refresh, pending_scrapes, plan_refresh, HallPlan, Scrape,
};
pub use scrape::{DetailsElement, DishElement, PriceElement};
pub use staleness::{needs_refresh, RefreshPolicy};
pub use store::{MenuRow, MenuStore, ScrapeAudit, SyncOutcome};
pub use sync::{diff, SyncPlan};
pub use time::{Date, Timestamp};
