//! The menu table: every row that was ever written, the flag that tells the
//! latest rows from superseded ones, and the audit of successful fetches.
//!
//! Rows are never deleted. Synchronizing a day and hall clears the flag of
//! the rows that the fetch no longer offers, appends a row for each dish
//! that is new, and records the fetch, all in one step.

use vstd::prelude::*;
use crate::canteen::Canteen;
use crate::dish::{all_distinct, dish_views, offered_by, offers, Dish, DishView};
use crate::sync::{
    after_sync, diff, kept_dishes, lemma_sync_is_idempotent, lemma_sync_keeps_distinct, new_dishes,
    stale_dishes,
};
use crate::time::{Date, Timestamp};

verus! {

/// A stored dish of one day and hall.
#[derive(Debug, Clone, PartialEq, Eq)]
pub struct MenuRow {
    pub date: Date,
    pub canteen: Canteen,
    pub dish: Dish,
    /// Whether the row belongs to the menu that is valid now.
    pub is_latest: bool,
}

/// The mathematical value of a [`MenuRow`].
pub struct MenuRowView {
    pub date: Date,
    pub canteen: Canteen,
    pub dish: DishView,
    pub is_latest: bool,
}

impl View for MenuRow {
    type V = MenuRowView;

    open spec fn view(&self) -> MenuRowView {
        MenuRowView {
            date: self.date,
            canteen: self.canteen,
            dish: self.dish@,
            is_latest: self.is_latest,
        }
    }
}

impl MenuRowView {
    /// Whether the row is a latest row of the given day and hall.
    pub open spec fn is_latest_of(self, date: Date, canteen: Canteen) -> bool {
        self.is_latest && self.date == date && self.canteen == canteen
    }
}

/// The record of one successful fetch.
#[derive(Debug, Clone, Copy, PartialEq, Eq, Structural)]
pub struct ScrapeAudit {
    pub scraped_for: Date,
    pub canteen: Canteen,
    pub scraped_at: Timestamp,
}

/// The mathematical values of a list of rows.
pub open spec fn row_views(rows: Seq<MenuRow>) -> Seq<MenuRowView> {
    rows.map_values(|r: MenuRow| r@)
}

/// The dishes of the latest rows of a day and hall, in the order of the
/// rows.
pub open spec fn latest_dishes(rows: Seq<MenuRowView>, date: Date, canteen: Canteen) -> Seq<
    DishView,
>
    decreases rows.len(),
{
    if rows.len() == 0 {
        Seq::<DishView>::empty()
    } else {
        let before = latest_dishes(rows.drop_last(), date, canteen);
        if rows.last().is_latest_of(date, canteen) {
            before.push(rows.last().dish)
        } else {
            before
        }
    }
}

/// The rows after those latest rows of the day and hall that the fetch no
/// longer offers have lost their flag.
pub open spec fn marked_stale(
    rows: Seq<MenuRowView>,
    date: Date,
    canteen: Canteen,
    fetched: Seq<DishView>,
) -> Seq<MenuRowView> {
    Seq::new(
        rows.len(),
        |i: int|
            if rows[i].is_latest_of(date, canteen) && !offers(fetched, rows[i].dish) {
                MenuRowView { is_latest: false, ..rows[i] }
            } else {
                rows[i]
            },
    )
}

/// One latest row for each of the given dishes.
pub open spec fn rows_of(dishes: Seq<DishView>, date: Date, canteen: Canteen) -> Seq<MenuRowView> {
    Seq::new(
        dishes.len(),
        |i: int| MenuRowView { date, canteen, dish: dishes[i], is_latest: true },
    )
}

/// The time of the most recent recorded fetch for a day and hall, if there
/// is any.
pub open spec fn last_fetch(audits: Seq<ScrapeAudit>, date: Date, canteen: Canteen) -> Option<
    Timestamp,
>
    decreases audits.len(),
{
    if audits.len() == 0 {
        None
    } else {
        let before = last_fetch(audits.drop_last(), date, canteen);
        let a = audits.last();
        if a.scraped_for == date && a.canteen == canteen {
            match before {
                Some(t) if t.micros >= a.scraped_at.micros => before,
                _ => Some(a.scraped_at),
            }
        } else {
            before
        }
    }
}

/// The mathematical value of a [`MenuStore`].
pub struct MenuStoreView {
    pub rows: Seq<MenuRowView>,
    pub audits: Seq<ScrapeAudit>,
}

impl MenuStoreView {
    /// The menu that is valid now for a day and hall.
    pub open spec fn latest(self, date: Date, canteen: Canteen) -> Seq<DishView> {
        latest_dishes(self.rows, date, canteen)
    }

    /// When the day and hall were last fetched with success; `None` where
    /// they never were.
    pub open spec fn last_fetched(self, date: Date, canteen: Canteen) -> Option<Timestamp> {
        last_fetch(self.audits, date, canteen)
    }

    /// Whether, for every day and hall, no two latest rows hold the same
    /// dish.
    pub open spec fn wf(self) -> bool {
        forall|date: Date, canteen: Canteen| all_distinct(#[trigger] self.latest(date, canteen))
    }

    /// The table after a fetch of `fetched` for the day and hall was
    /// synchronized at `now`.
    pub open spec fn synchronized(
        self,
        date: Date,
        canteen: Canteen,
        fetched: Seq<DishView>,
        now: Timestamp,
    ) -> MenuStoreView {
        MenuStoreView {
            rows: marked_stale(self.rows, date, canteen, fetched) + rows_of(
                new_dishes(fetched, self.latest(date, canteen)),
                date,
                canteen,
            ),
            audits: self.audits.push(ScrapeAudit { scraped_for: date, canteen, scraped_at: now }),
        }
    }
}

/// The latest dishes of two lists of rows, one after the other, are the
/// latest dishes of each in turn.
pub proof fn lemma_latest_of_concat(
    a: Seq<MenuRowView>,
    b: Seq<MenuRowView>,
    date: Date,
    canteen: Canteen,
)
    ensures
        latest_dishes(a + b, date, canteen) == latest_dishes(a, date, canteen) + latest_dishes(
            b,
            date,
            canteen,
        ),
    decreases b.len(),
{
    if b.len() > 0 {
        lemma_latest_of_concat(a, b.drop_last(), date, canteen);
        assert((a + b).drop_last() =~= a + b.drop_last());
    }
}

/// Fresh rows of a day and hall hold just their dishes as the latest of
/// that day and hall, and nothing for any other.
pub proof fn lemma_latest_of_fresh_rows(
    dishes: Seq<DishView>,
    date: Date,
    canteen: Canteen,
    other_date: Date,
    other_canteen: Canteen,
)
    ensures
        latest_dishes(rows_of(dishes, date, canteen), date, canteen) == dishes,
        other_date != date || other_canteen != canteen ==> latest_dishes(
            rows_of(dishes, date, canteen),
            other_date,
            other_canteen,
        ) == Seq::<DishView>::empty(),
    decreases dishes.len(),
{
    let rows = rows_of(dishes, date, canteen);
    if dishes.len() > 0 {
        lemma_latest_of_fresh_rows(dishes.drop_last(), date, canteen, other_date, other_canteen);
        assert(rows.drop_last() =~= rows_of(dishes.drop_last(), date, canteen));
    }
}

/// Clearing the flag of what the fetch no longer offers leaves, as the
/// latest of the day and hall, the dishes that were kept; the latest of
/// every other day and hall stay as they were.
pub proof fn lemma_latest_of_marked(
    rows: Seq<MenuRowView>,
    date: Date,
    canteen: Canteen,
    fetched: Seq<DishView>,
    other_date: Date,
    other_canteen: Canteen,
)
    ensures
        latest_dishes(marked_stale(rows, date, canteen, fetched), date, canteen) == kept_dishes(
            latest_dishes(rows, date, canteen),
            fetched,
        ),
        other_date != date || other_canteen != canteen ==> latest_dishes(
            marked_stale(rows, date, canteen, fetched),
            other_date,
            other_canteen,
        ) == latest_dishes(rows, other_date, other_canteen),
    decreases rows.len(),
{
    let marked = marked_stale(rows, date, canteen, fetched);
    if rows.len() > 0 {
        let init = rows.drop_last();
        lemma_latest_of_marked(init, date, canteen, fetched, other_date, other_canteen);
        assert(marked.drop_last() =~= marked_stale(init, date, canteen, fetched));
        let r = rows.last();
        if r.is_latest_of(date, canteen) {
            let before = latest_dishes(init, date, canteen);
            assert(before.push(r.dish).drop_last() =~= before);
        }
    }
}

/// After synchronizing, the latest dishes of the day and hall are the kept
/// dishes followed by the new ones.
pub proof fn lemma_synchronized_latest(
    store: MenuStoreView,
    date: Date,
    canteen: Canteen,
    fetched: Seq<DishView>,
    now: Timestamp,
)
    ensures
        store.synchronized(date, canteen, fetched, now).latest(date, canteen) == after_sync(
            store.latest(date, canteen),
            fetched,
        ),
{
    let marked = marked_stale(store.rows, date, canteen, fetched);
    let fresh = rows_of(new_dishes(fetched, store.latest(date, canteen)), date, canteen);
    lemma_latest_of_concat(marked, fresh, date, canteen);
    lemma_latest_of_marked(store.rows, date, canteen, fetched, date, canteen);
    lemma_latest_of_fresh_rows(
        new_dishes(fetched, store.latest(date, canteen)),
        date,
        canteen,
        date,
        canteen,
    );
}

/// Synchronizing one day and hall leaves the latest dishes of every other
/// day and hall as they were.
pub proof fn lemma_synchronized_elsewhere(
    store: MenuStoreView,
    date: Date,
    canteen: Canteen,
    fetched: Seq<DishView>,
    now: Timestamp,
    other_date: Date,
    other_canteen: Canteen,
)
    requires
        other_date != date || other_canteen != canteen,
    ensures
        store.synchronized(date, canteen, fetched, now).latest(other_date, other_canteen)
            == store.latest(other_date, other_canteen),
{
    let marked = marked_stale(store.rows, date, canteen, fetched);
    let fresh_dishes = new_dishes(fetched, store.latest(date, canteen));
    let fresh = rows_of(fresh_dishes, date, canteen);
    lemma_latest_of_concat(marked, fresh, other_date, other_canteen);
    lemma_latest_of_marked(store.rows, date, canteen, fetched, other_date, other_canteen);
    lemma_latest_of_fresh_rows(fresh_dishes, date, canteen, other_date, other_canteen);
}

/// Synchronizing keeps the table well formed.
pub proof fn lemma_synchronized_keeps_wf(
    store: MenuStoreView,
    date: Date,
    canteen: Canteen,
    fetched: Seq<DishView>,
    now: Timestamp,
)
    requires
        store.wf(),
    ensures
        store.synchronized(date, canteen, fetched, now).wf(),
{
    let after = store.synchronized(date, canteen, fetched, now);
    assert forall|d: Date, c: Canteen| all_distinct(#[trigger] after.latest(d, c)) by {
        if d == date && c == canteen {
            lemma_synchronized_latest(store, date, canteen, fetched, now);
            lemma_sync_keeps_distinct(store.latest(date, canteen), fetched);
        } else {
            lemma_synchronized_elsewhere(store, date, canteen, fetched, now, d, c);
        }
    }
}

/// Synchronizing never deletes or rewrites a row: every row that was there
/// is still there with its day, hall and dish, and no row gets its flag
/// back.
pub proof fn lemma_synchronized_keeps_history(
    store: MenuStoreView,
    date: Date,
    canteen: Canteen,
    fetched: Seq<DishView>,
    now: Timestamp,
    i: int,
)
    requires
        0 <= i < store.rows.len(),
    ensures
        store.synchronized(date, canteen, fetched, now).rows.len() >= store.rows.len(),
        store.synchronized(date, canteen, fetched, now).rows[i].date == store.rows[i].date,
        store.synchronized(date, canteen, fetched, now).rows[i].canteen == store.rows[i].canteen,
        store.synchronized(date, canteen, fetched, now).rows[i].dish == store.rows[i].dish,
        store.synchronized(date, canteen, fetched, now).rows[i].is_latest
            ==> store.rows[i].is_latest,
        store.rows[i].is_latest && (store.rows[i].date != date || store.rows[i].canteen != canteen
            || offers(fetched, store.rows[i].dish)) ==> store.synchronized(
            date,
            canteen,
            fetched,
            now,
        ).rows[i].is_latest,
{
}

/// A second synchronization with the same fetch writes no row: nothing is
/// stale, nothing is new, and the rows stay as the first one left them.
pub proof fn lemma_second_sync_writes_nothing(
    store: MenuStoreView,
    date: Date,
    canteen: Canteen,
    fetched: Seq<DishView>,
    first: Timestamp,
    second: Timestamp,
)
    ensures
        stale_dishes(
            store.synchronized(date, canteen, fetched, first).latest(date, canteen),
            fetched,
        ) == Seq::<DishView>::empty(),
        new_dishes(
            fetched,
            store.synchronized(date, canteen, fetched, first).latest(date, canteen),
        ) == Seq::<DishView>::empty(),
        store.synchronized(date, canteen, fetched, first).synchronized(
            date,
            canteen,
            fetched,
            second,
        ).rows == store.synchronized(date, canteen, fetched, first).rows,
{
    let once = store.synchronized(date, canteen, fetched, first);
    lemma_synchronized_latest(store, date, canteen, fetched, first);
    lemma_sync_is_idempotent(store.latest(date, canteen), fetched);
    lemma_marks_nothing(once.rows, date, canteen, fetched);
}

/// Where the fetch offers every latest dish of the day and hall, clearing
/// flags changes no row.
pub proof fn lemma_marks_nothing(
    rows: Seq<MenuRowView>,
    date: Date,
    canteen: Canteen,
    fetched: Seq<DishView>,
)
    requires
        stale_dishes(latest_dishes(rows, date, canteen), fetched) == Seq::<DishView>::empty(),
    ensures
        marked_stale(rows, date, canteen, fetched) == rows,
    decreases rows.len(),
{
    if rows.len() > 0 {
        let init = rows.drop_last();
        let r = rows.last();
        let before = latest_dishes(init, date, canteen);
        let marked = marked_stale(rows, date, canteen, fetched);
        if r.is_latest_of(date, canteen) {
            assert(before.push(r.dish).drop_last() =~= before);
            let stale = stale_dishes(before.push(r.dish), fetched);
            assert(stale.len() == 0);
        }
        lemma_marks_nothing(init, date, canteen, fetched);
        assert forall|i: int| 0 <= i < rows.len() implies marked[i] == rows[i] by {
            if i < init.len() {
                assert(marked_stale(init, date, canteen, fetched)[i] == init[i]);
            }
        }
    }
}

/// After synchronizing, the day and hall have been fetched: their last
/// fetch is the later of `now` and what was recorded before. Other days and
/// halls keep their record.
pub proof fn lemma_synchronized_records_fetch(
    store: MenuStoreView,
    date: Date,
    canteen: Canteen,
    fetched: Seq<DishView>,
    now: Timestamp,
    other_date: Date,
    other_canteen: Canteen,
)
    ensures
        store.synchronized(date, canteen, fetched, now).last_fetched(date, canteen) == (
        match store.last_fetched(date, canteen) {
            Some(t) if t.micros >= now.micros => Some(t),
            _ => Some(now),
        }),
        other_date != date || other_canteen != canteen ==> store.synchronized(
            date,
            canteen,
            fetched,
            now,
        ).last_fetched(other_date, other_canteen) == store.last_fetched(other_date, other_canteen),
{
    let audits = store.audits.push(ScrapeAudit { scraped_for: date, canteen, scraped_at: now });
    assert(audits.drop_last() =~= store.audits);
}

/// Collects the dishes of the latest rows of a day and hall, in the order
/// of the rows.
pub fn latest_dishes_in(rows: &[MenuRow], date: Date, canteen: Canteen) -> (dishes: Vec<Dish>)
    ensures
        dish_views(dishes@) == latest_dishes(row_views(rows@), date, canteen),
{
    let ghost all = row_views(rows@);
    let mut dishes: Vec<Dish> = Vec::new();
    let mut i: usize = 0;
    while i < rows.len()
        invariant
            i <= rows.len(),
            all == row_views(rows@),
            dish_views(dishes@) == latest_dishes(all.take(i as int), date, canteen),
        decreases rows.len() - i,
    {
        proof {
            assert(all.take(i + 1).drop_last() =~= all.take(i as int));
        }
        let row = &rows[i];
        if row.is_latest && row.date == date && row.canteen == canteen {
            dishes.push(row.dish.clone());
        }
        i += 1;
    }
    assert(all.take(rows.len() as int) =~= all);
    dishes
}

/// Finds the time of the most recent fetch that `audits` record for a day
/// and hall.
pub fn last_fetched_in(audits: &[ScrapeAudit], date: Date, canteen: Canteen) -> (t: Option<
    Timestamp,
>)
    ensures
        t == last_fetch(audits@, date, canteen),
{
    let mut best: Option<Timestamp> = None;
    let mut i: usize = 0;
    while i < audits.len()
        invariant
            i <= audits.len(),
            best == last_fetch(audits@.take(i as int), date, canteen),
        decreases audits.len() - i,
    {
        proof {
            assert(audits@.take(i + 1).drop_last() =~= audits@.take(i as int));
        }
        let a = audits[i];
        if a.scraped_for == date && a.canteen == canteen {
            best = match best {
                Some(t) if t.micros >= a.scraped_at.micros => best,
                _ => Some(a.scraped_at),
            };
        }
        i += 1;
    }
    assert(audits@.take(audits.len() as int) =~= audits@);
    best
}

/// How many rows one synchronization wrote.
#[derive(Debug, Clone, Copy, PartialEq, Eq, Structural)]
pub struct SyncOutcome {
    /// Rows that stopped being the latest.
    pub marked_stale: usize,
    /// Rows that were appended.
    pub inserted: usize,
}

impl SyncOutcome {
    /// Tells whether no row was written.
    pub fn wrote_nothing(&self) -> (r: bool)
        ensures
            r == (self.marked_stale == 0 && self.inserted == 0),
    {
        self.marked_stale == 0 && self.inserted == 0
    }
}

/// The menu table with its fetch audit.
#[derive(Debug, Clone, PartialEq, Eq)]
pub struct MenuStore {
    rows: Vec<MenuRow>,
    audits: Vec<ScrapeAudit>,
}

impl View for MenuStore {
    type V = MenuStoreView;

    closed spec fn view(&self) -> MenuStoreView {
        MenuStoreView { rows: row_views(self.rows@), audits: self.audits@ }
    }
}

impl MenuStore {
    /// Makes a table without rows and without audit records.
    pub fn new() -> (s: MenuStore)
        ensures
            s@.rows == Seq::<MenuRowView>::empty(),
            s@.audits == Seq::<ScrapeAudit>::empty(),
            s@.wf(),
    {
        let s = MenuStore { rows: Vec::new(), audits: Vec::new() };
        s
    }

    /// Returns the number of rows, superseded ones included.
    pub fn row_count(&self) -> (n: usize)
        ensures
            n == self@.rows.len(),
    {
        self.rows.len()
    }

    /// Returns all rows, superseded ones included, in the order in which
    /// they were written.
    pub fn rows(&self) -> (r: &[MenuRow])
        ensures
            row_views(r@) == self@.rows,
    {
        self.rows.as_slice()
    }

    /// Returns the audit records in the order in which they were written.
    pub fn audits(&self) -> (a: &[ScrapeAudit])
        ensures
            a@ == self@.audits,
    {
        self.audits.as_slice()
    }

    /// Returns the dishes of the menu that is valid now for a day and hall.
    pub fn latest_dishes(&self, date: Date, canteen: Canteen) -> (dishes: Vec<Dish>)
        ensures
            dish_views(dishes@) == self@.latest(date, canteen),
    {
        latest_dishes_in(self.rows.as_slice(), date, canteen)
    }

    /// Returns when the day and hall were last fetched with success, or
    /// `None` where they never were.
    pub fn last_fetched(&self, date: Date, canteen: Canteen) -> (t: Option<Timestamp>)
        ensures
            t == self@.last_fetched(date, canteen),
    {
        last_fetched_in(self.audits.as_slice(), date, canteen)
    }

    /// Brings the latest rows of a day and hall in line with a successful
    /// fetch and records the fetch.
    ///
    /// Latest rows whose dish the fetch no longer offers lose their flag;
    /// each fetched dish that storage lacks gets a new latest row; rows of
    /// dishes on both sides stay untouched. The audit record is written
    /// whether or not any row changed.
    pub fn synchronize(
        &mut self,
        date: Date,
        canteen: Canteen,
        fetched: &[Dish],
        now: Timestamp,
    ) -> (outcome: SyncOutcome)
        ensures
            final(self)@ == old(self)@.synchronized(date, canteen, dish_views(fetched@), now),
            outcome.marked_stale == stale_dishes(
                old(self)@.latest(date, canteen),
                dish_views(fetched@),
            ).len(),
            outcome.inserted == new_dishes(
                dish_views(fetched@),
                old(self)@.latest(date, canteen),
            ).len(),
            old(self)@.wf() ==> final(self)@.wf(),
    {
        let ghost before = self@;
        proof {
            if before.wf() {
                lemma_synchronized_keeps_wf(before, date, canteen, dish_views(fetched@), now);
            }
        }
        let ghost f = dish_views(fetched@);
        let persisted = self.latest_dishes(date, canteen);
        let plan = diff(fetched, persisted.as_slice());
        let mut i: usize = 0;
        while i < self.rows.len()
            invariant
                i <= self.rows.len(),
                f == dish_views(fetched@),
                self.rows@.len() == before.rows.len(),
                self.audits@ == before.audits,
                forall|k: int|
                    0 <= k < i ==> (#[trigger] self.rows@[k])@ == marked_stale(
                        before.rows,
                        date,
                        canteen,
                        f,
                    )[k],
                forall|k: int|
                    i <= k < self.rows@.len() ==> (#[trigger] self.rows@[k])@ == before.rows[k],
            decreases self.rows.len() - i,
        {
            let hit = {
                let row = &self.rows[i];
                row.is_latest && row.date == date && row.canteen == canteen && !offered_by(
                    fetched,
                    &row.dish,
                )
            };
            if hit {
                self.rows[i].is_latest = false;
            }
            i += 1;
        }
        let ghost marked = marked_stale(before.rows, date, canteen, f);
        let ghost fresh = new_dishes(f, before.latest(date, canteen));
        let inserted = plan.new.len();
        let marked_count = plan.stale.len();
        let mut j: usize = 0;
        while j < plan.new.len()
            invariant
                j <= plan.new.len(),
                dish_views(plan.new@) == fresh,
                self.audits@ == before.audits,
                row_views(self.rows@) == marked + rows_of(fresh, date, canteen).take(j as int),
            decreases plan.new.len() - j,
        {
            let ghost rows_before = self.rows@;
            let dish = plan.new[j].clone();
            assert(dish@ == fresh[j as int]);
            self.rows.push(MenuRow { date, canteen, dish, is_latest: true });
            assert(row_views(self.rows@) =~= marked + rows_of(fresh, date, canteen).take(j + 1)) by {
                assert(row_views(self.rows@) =~= row_views(rows_before).push(
                    rows_of(fresh, date, canteen)[j as int],
                ));
            }
            j += 1;
        }
        assert(rows_of(fresh, date, canteen).take(plan.new.len() as int) =~= rows_of(
            fresh,
            date,
            canteen,
        ));
        self.audits.push(ScrapeAudit { scraped_for: date, canteen, scraped_at: now });
        SyncOutcome { marked_stale: marked_count, inserted }
    }
}

} // verus!
