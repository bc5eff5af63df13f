//! The refresh cycle around a fetch: which halls to fetch for a day, and
//! what a batch of fetch outcomes changes in storage and cache.

use vstd::prelude::*;
use crate::cache::{cache_key, MenuCache};
use crate::canteen::{Canteen, CANTEEN_COUNT};
use crate::dish::{dish_views, Dish, DishView};
use crate::locations::{contains_canteen, ranked_members, sorted_list};
use crate::menu::MenuView;
use crate::staleness::RefreshPolicy;
use crate::store::{
    last_fetch, last_fetched_in, latest_dishes, latest_dishes_in, lemma_synchronized_elsewhere,
    lemma_synchronized_records_fetch, row_views, MenuRow, MenuRowView, MenuStore, MenuStoreView,
    ScrapeAudit,
};
use crate::sync::{diff, new_dishes, stale_dishes, SyncPlan};
use crate::time::{Date, Timestamp};

verus! {

/// The halls among `candidates` whose menu of `date` is to be fetched at
/// `now`: all of them where the refresh is forced, otherwise those that the
/// policy finds due, given the fetches that `audits` record.
pub open spec fn refresh_set(
    policy: RefreshPolicy,
    date: Date,
    now: Timestamp,
    candidates: Seq<Canteen>,
    audits: Seq<ScrapeAudit>,
    force: bool,
) -> Set<Canteen> {
    Set::new(
        |c: Canteen|
            candidates.contains(c) && (force || policy.due(
                date,
                now,
                last_fetch(audits, date, c),
                false,
            )),
    )
}

/// Decides which halls to fetch for `date`: the halls of the refresh set,
/// each once, sorted by identifier. An empty answer means that nothing is
/// to be done.
pub fn check_refresh(
    policy: &RefreshPolicy,
    date: Date,
    now: Timestamp,
    canteens: &[Canteen],
    audits: &[ScrapeAudit],
    force: bool,
) -> (due: Vec<Canteen>)
    ensures
        due@ == sorted_list(refresh_set(*policy, date, now, canteens@, audits@, force)),
        !force && !policy.within_horizon(date, now.spec_date()) ==> due@.len() == 0,
{
    let ghost set = refresh_set(*policy, date, now, canteens@, audits@, force);
    let mut due: Vec<Canteen> = Vec::new();
    if !force && !policy.in_horizon(date, now.date()) {
        proof {
            lemma_nothing_ranked(set, CANTEEN_COUNT as int);
        }
        return due;
    }
    let mut rank: u8 = 0;
    while rank < CANTEEN_COUNT
        invariant
            rank <= CANTEEN_COUNT,
            set == refresh_set(*policy, date, now, canteens@, audits@, force),
            due@ == ranked_members(set, rank as int),
        decreases CANTEEN_COUNT - rank,
    {
        let c = Canteen::from_rank(rank);
        if contains_canteen(canteens, c) {
            if force || policy.is_due(date, now, last_fetched_in(audits, date, c), false) {
                due.push(c);
            }
        }
        rank += 1;
    }
    due
}

/// A set without members has no ranked members.
proof fn lemma_nothing_ranked(set: Set<Canteen>, upto: int)
    requires
        forall|c: Canteen| !set.contains(c),
    ensures
        ranked_members(set, upto) == Seq::<Canteen>::empty(),
    decreases upto,
{
    if upto > 0 {
        lemma_nothing_ranked(set, upto - 1);
    }
}

/// How the fetch for one hall ended.
#[derive(Debug, Clone, PartialEq, Eq)]
pub struct Scrape {
    pub canteen: Canteen,
    /// The dishes that were read, or `None` where the fetch failed.
    pub dishes: Option<Vec<Dish>>,
}

/// The mathematical value of a [`Scrape`].
pub struct ScrapeView {
    pub canteen: Canteen,
    pub dishes: Option<Seq<DishView>>,
}

impl View for Scrape {
    type V = ScrapeView;

    open spec fn view(&self) -> ScrapeView {
        ScrapeView {
            canteen: self.canteen,
            dishes: match self.dishes {
                Some(d) => Some(dish_views(d@)),
                None => None,
            },
        }
    }
}

/// The mathematical values of a list of fetch outcomes.
pub open spec fn scrape_views(list: Seq<Scrape>) -> Seq<ScrapeView> {
    list.map_values(|s: Scrape| s@)
}

/// The table after the successful fetches among `outcomes` were
/// synchronized one after the other; failed fetches change nothing.
pub open spec fn store_after(
    store: MenuStoreView,
    date: Date,
    outcomes: Seq<ScrapeView>,
    now: Timestamp,
) -> MenuStoreView
    decreases outcomes.len(),
{
    if outcomes.len() == 0 {
        store
    } else {
        let before = store_after(store, date, outcomes.drop_last(), now);
        match outcomes.last().dishes {
            Some(dishes) => before.synchronized(date, outcomes.last().canteen, dishes, now),
            None => before,
        }
    }
}

/// The cache after the entries of the halls that were fetched with success
/// were dropped.
pub open spec fn cache_after(
    entries: Map<u64, MenuView>,
    date: Date,
    outcomes: Seq<ScrapeView>,
) -> Map<u64, MenuView>
    decreases outcomes.len(),
{
    if outcomes.len() == 0 {
        entries
    } else {
        let before = cache_after(entries, date, outcomes.drop_last());
        if outcomes.last().dishes is Some {
            before.remove(cache_key(date, outcomes.last().canteen))
        } else {
            before
        }
    }
}

/// How many of the fetches succeeded.
pub open spec fn successes(outcomes: Seq<ScrapeView>) -> nat
    decreases outcomes.len(),
{
    if outcomes.len() == 0 {
        0
    } else {
        successes(outcomes.drop_last()) + if outcomes.last().dishes is Some {
            1nat
        } else {
            0nat
        }
    }
}

/// Writes a batch of fetch outcomes for `date`: every hall that was fetched
/// with success is synchronized and gets its audit record, and its cache
/// entry is dropped; a hall whose fetch failed is passed over. Tells whether
/// anything was written, that is whether any fetch succeeded.
pub fn complete_refresh(
    store: &mut MenuStore,
    cache: &mut MenuCache,
    date: Date,
    outcomes: &[Scrape],
    now: Timestamp,
) -> (wrote: bool)
    ensures
        final(store)@ == store_after(old(store)@, date, scrape_views(outcomes@), now),
        final(cache)@ == cache_after(old(cache)@, date, scrape_views(outcomes@)),
        final(cache).spec_threshold() == old(cache).spec_threshold(),
        wrote == (successes(scrape_views(outcomes@)) > 0),
        old(store)@.wf() ==> final(store)@.wf(),
{
    let ghost all = scrape_views(outcomes@);
    let mut wrote = false;
    let mut i: usize = 0;
    while i < outcomes.len()
        invariant
            i <= outcomes.len(),
            all == scrape_views(outcomes@),
            store@ == store_after(old(store)@, date, all.take(i as int), now),
            cache@ == cache_after(old(cache)@, date, all.take(i as int)),
            cache.spec_threshold() == old(cache).spec_threshold(),
            wrote == (successes(all.take(i as int)) > 0),
            old(store)@.wf() ==> store@.wf(),
        decreases outcomes.len() - i,
    {
        proof {
            assert(all.take(i + 1).drop_last() =~= all.take(i as int));
        }
        let outcome = &outcomes[i];
        match &outcome.dishes {
            Some(dishes) => {
                store.synchronize(date, outcome.canteen, dishes.as_slice(), now);
                cache.invalidate(outcome.canteen, date);
                wrote = true;
            },
            None => {},
        }
        i += 1;
    }
    assert(all.take(outcomes.len() as int) =~= all);
    wrote
}

/// A hall that was just synchronized is not due again at that instant,
/// unless the refresh is forced: with intervals above zero, a refresh
/// settles the hall until time has passed.
pub proof fn lemma_refresh_settles(
    policy: RefreshPolicy,
    store: MenuStoreView,
    date: Date,
    canteen: Canteen,
    fetched: Seq<DishView>,
    now: Timestamp,
)
    requires
        policy.today_interval > 0,
        policy.future_interval > 0,
    ensures
        !policy.due(
            date,
            now,
            store.synchronized(date, canteen, fetched, now).last_fetched(date, canteen),
            false,
        ),
{
    lemma_synchronized_records_fetch(store, date, canteen, fetched, now, date, canteen);
}

/// What has to be written for one hall of a batch.
#[derive(Debug, Clone, PartialEq, Eq)]
pub struct HallPlan {
    pub canteen: Canteen,
    pub plan: SyncPlan,
}

/// The mathematical value of a [`HallPlan`].
pub struct HallPlanView {
    pub canteen: Canteen,
    pub stale: Seq<DishView>,
    pub new: Seq<DishView>,
}

impl View for HallPlan {
    type V = HallPlanView;

    open spec fn view(&self) -> HallPlanView {
        HallPlanView {
            canteen: self.canteen,
            stale: dish_views(self.plan.stale@),
            new: dish_views(self.plan.new@),
        }
    }
}

/// The mathematical values of a list of plans.
pub open spec fn plan_views(list: Seq<HallPlan>) -> Seq<HallPlanView> {
    list.map_values(|p: HallPlan| p@)
}

/// The plan for one hall: the difference between what was fetched and the
/// latest dishes that `rows` hold for the day and hall.
pub open spec fn hall_plan(
    date: Date,
    canteen: Canteen,
    fetched: Seq<DishView>,
    rows: Seq<MenuRowView>,
) -> HallPlanView {
    HallPlanView {
        canteen,
        stale: stale_dishes(latest_dishes(rows, date, canteen), fetched),
        new: new_dishes(fetched, latest_dishes(rows, date, canteen)),
    }
}

/// The plans of a batch: one for each fetch that succeeded, in the order of
/// the outcomes, each made against the same rows.
pub open spec fn planned(date: Date, outcomes: Seq<ScrapeView>, rows: Seq<MenuRowView>) -> Seq<
    HallPlanView,
>
    decreases outcomes.len(),
{
    if outcomes.len() == 0 {
        Seq::<HallPlanView>::empty()
    } else {
        let before = planned(date, outcomes.drop_last(), rows);
        match outcomes.last().dishes {
            Some(fetched) => before.push(hall_plan(date, outcomes.last().canteen, fetched, rows)),
            None => before,
        }
    }
}

/// Plans the writes of a batch of fetch outcomes for `date` against the
/// stored rows: for each hall that was fetched with success, which of its
/// latest dishes become stale and which fetched dishes are new.
pub fn plan_refresh(date: Date, outcomes: &[Scrape], rows: &[MenuRow]) -> (plans: Vec<HallPlan>)
    ensures
        plan_views(plans@) == planned(date, scrape_views(outcomes@), row_views(rows@)),
{
    let ghost all = scrape_views(outcomes@);
    let mut plans: Vec<HallPlan> = Vec::new();
    let mut i: usize = 0;
    while i < outcomes.len()
        invariant
            i <= outcomes.len(),
            all == scrape_views(outcomes@),
            plan_views(plans@) == planned(date, all.take(i as int), row_views(rows@)),
        decreases outcomes.len() - i,
    {
        proof {
            assert(all.take(i + 1).drop_last() =~= all.take(i as int));
        }
        let outcome = &outcomes[i];
        match &outcome.dishes {
            Some(fetched) => {
                let stored = latest_dishes_in(rows, date, outcome.canteen);
                let plan = diff(fetched.as_slice(), stored.as_slice());
                let hall = HallPlan { canteen: outcome.canteen, plan };
                plans.push(hall);
            },
            None => {},
        }
        i += 1;
    }
    assert(all.take(outcomes.len() as int) =~= all);
    plans
}

/// Whether no hall occurs twice among the outcomes.
pub open spec fn distinct_halls(outcomes: Seq<ScrapeView>) -> bool {
    forall|i: int, j: int|
        0 <= i < j < outcomes.len() ==> (#[trigger] outcomes[i]).canteen != (
        #[trigger] outcomes[j]).canteen
}

/// Writing a batch leaves the latest dishes of every hall that is not in
/// the batch as they were.
pub proof fn lemma_batch_elsewhere(
    store: MenuStoreView,
    date: Date,
    outcomes: Seq<ScrapeView>,
    now: Timestamp,
    other_date: Date,
    other_canteen: Canteen,
)
    requires
        other_date != date || forall|i: int|
            0 <= i < outcomes.len() ==> (#[trigger] outcomes[i]).canteen != other_canteen,
    ensures
        store_after(store, date, outcomes, now).latest(other_date, other_canteen) == store.latest(
            other_date,
            other_canteen,
        ),
    decreases outcomes.len(),
{
    if outcomes.len() > 0 {
        let init = outcomes.drop_last();
        lemma_batch_elsewhere(store, date, init, now, other_date, other_canteen);
        match outcomes.last().dishes {
            Some(fetched) => {
                lemma_synchronized_elsewhere(
                    store_after(store, date, init, now),
                    date,
                    outcomes.last().canteen,
                    fetched,
                    now,
                    other_date,
                    other_canteen,
                );
            },
            None => {},
        }
    }
}

/// Where no hall occurs twice in a batch, the plan that is made for a hall
/// against the rows before the batch is the difference that its own
/// synchronization finds when its turn comes: plans made up front fit the
/// batch.
pub proof fn lemma_plans_fit_the_batch(
    store: MenuStoreView,
    date: Date,
    outcomes: Seq<ScrapeView>,
    now: Timestamp,
    turn: int,
)
    requires
        distinct_halls(outcomes),
        0 <= turn < outcomes.len(),
        outcomes[turn].dishes is Some,
    ensures
        hall_plan(date, outcomes[turn].canteen, outcomes[turn].dishes->0, store.rows) == hall_plan(
            date,
            outcomes[turn].canteen,
            outcomes[turn].dishes->0,
            store_after(store, date, outcomes.take(turn), now).rows,
        ),
{
    let earlier = outcomes.take(turn);
    lemma_batch_elsewhere(store, date, earlier, now, date, outcomes[turn].canteen);
}

/// The days and halls of a run of days that are not among those seen, day
/// by day and within a day in the order of the halls.
pub open spec fn pending(
    first: int,
    day_count: nat,
    canteens: Seq<Canteen>,
    seen: Seq<(Date, Canteen)>,
) -> Seq<(Date, Canteen)>
    decreases day_count,
{
    if day_count == 0 {
        Seq::<(Date, Canteen)>::empty()
    } else {
        pending(first, (day_count - 1) as nat, canteens, seen) + pending_on(
            Date { days: (first + day_count - 1) as i32 },
            canteens,
            seen,
        )
    }
}

/// The halls of one day that are not among those seen, in the order of the
/// halls.
pub open spec fn pending_on(date: Date, canteens: Seq<Canteen>, seen: Seq<(Date, Canteen)>) -> Seq<
    (Date, Canteen),
>
    decreases canteens.len(),
{
    if canteens.len() == 0 {
        Seq::<(Date, Canteen)>::empty()
    } else {
        let before = pending_on(date, canteens.drop_last(), seen);
        if seen.contains((date, canteens.last())) {
            before
        } else {
            before.push((date, canteens.last()))
        }
    }
}

/// Tells whether a day and hall are among those seen.
fn was_seen(seen: &[(Date, Canteen)], date: Date, canteen: Canteen) -> (r: bool)
    ensures
        r == seen@.contains((date, canteen)),
{
    let mut i: usize = 0;
    while i < seen.len()
        invariant
            i <= seen.len(),
            forall|k: int| 0 <= k < i ==> seen@[k] != (date, canteen),
        decreases seen.len() - i,
    {
        if seen[i].0 == date && seen[i].1 == canteen {
            return true;
        }
        i += 1;
    }
    false
}

/// Lists what is left to fetch of `day_count` days from `first` on: every
/// day and hall that was not seen yet.
pub fn pending_scrapes(
    first: Date,
    day_count: u32,
    canteens: &[Canteen],
    seen: &[(Date, Canteen)],
) -> (list: Vec<(Date, Canteen)>)
    requires
        first.days + day_count <= i32::MAX + 1,
    ensures
        list@ == pending(first.days as int, day_count as nat, canteens@, seen@),
{
    let mut list: Vec<(Date, Canteen)> = Vec::new();
    let mut offset: u32 = 0;
    while offset < day_count
        invariant
            offset <= day_count,
            first.days + day_count <= i32::MAX + 1,
            list@ == pending(first.days as int, offset as nat, canteens@, seen@),
        decreases day_count - offset,
    {
        let date = Date { days: (first.days as i64 + offset as i64) as i32 };
        let ghost start = list@;
        let mut i: usize = 0;
        while i < canteens.len()
            invariant
                i <= canteens.len(),
                list@ == start + pending_on(date, canteens@.take(i as int), seen@),
            decreases canteens.len() - i,
        {
            proof {
                assert(canteens@.take(i + 1).drop_last() =~= canteens@.take(i as int));
            }
            if !was_seen(seen, date, canteens[i]) {
                list.push((date, canteens[i]));
            }
            i += 1;
        }
        assert(canteens@.take(canteens.len() as int) =~= canteens@);
        offset += 1;
    }
    list
}

} // verus!
