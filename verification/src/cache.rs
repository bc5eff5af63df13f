//! The read-through cache of assembled menus.

use std::collections::HashMap;
use vstd::prelude::*;
use crate::canteen::Canteen;
use crate::menu::{Menu, MenuView};
use crate::time::Date;

verus! {

broadcast use vstd::std_specs::hash::group_hash_axioms;

/// The number under which the menu of a day and hall is kept.
pub open spec fn cache_key(date: Date, canteen: Canteen) -> u64 {
    ((date.days + 0x8000_0000) * 8 + canteen.spec_rank()) as u64
}

/// The day that a key stands for.
pub open spec fn key_day(key: u64) -> int {
    key / 8 - 0x8000_0000
}

/// Computes the number under which the menu of a day and hall is kept.
pub fn key_of(date: Date, canteen: Canteen) -> (key: u64)
    ensures
        key == cache_key(date, canteen),
        key_day(key) == date.days,
{
    ((date.days as i64 + 0x8000_0000) as u64) * 8 + canteen.rank() as u64
}

/// Tells whether a key stands for a day before `today`.
fn is_outdated(key: u64, today: Date) -> (r: bool)
    ensures
        r == (key_day(key) < today.days),
{
    ((key / 8) as i128) - 0x8000_0000 < today.days as i128
}

/// The keys of `m` that stand for a day before `today`.
fn outdated_keys(m: &HashMap<u64, Menu>, today: Date) -> (keys: Vec<u64>)
    ensures
        forall|k: u64| keys@.contains(k) <==> m@.contains_key(k) && key_day(k) < today.days,
{
    let mut keys: Vec<u64> = Vec::new();
    for k in it: m.keys()
        invariant
            it.seq().unref().to_set() == m@.dom(),
            forall|j: int|
                0 <= j < keys@.len() ==> m@.contains_key(#[trigger] keys@[j]) && key_day(keys@[j])
                    < today.days,
            forall|j: int|
                0 <= j < it.index() && key_day(#[trigger] it.seq().unref()[j]) < today.days
                    ==> keys@.contains(it.seq().unref()[j]),
    {
        let ghost before = keys@;
        if is_outdated(*k, today) {
            keys.push(*k);
            assert(keys@[before.len() as int] == *k);
        }
        assert forall|j: int|
            0 <= j < it.index() + 1 && key_day(#[trigger] it.seq().unref()[j])
                < today.days implies keys@.contains(it.seq().unref()[j]) by {
            if j < it.index() {
                let i = choose|i: int| 0 <= i < before.len() && before[i] == it.seq().unref()[j];
                assert(keys@[i] == it.seq().unref()[j]);
            }
        }
    }
    keys
}

/// Entries beyond which a read first drops the menus of past days, unless
/// configured otherwise.
pub const DEFAULT_CACHE_THRESHOLD: usize = 100;

/// The entries that are left once the menus of days before `today` are
/// dropped.
pub open spec fn swept(entries: Map<u64, MenuView>, today: Date) -> Map<u64, MenuView> {
    Map::new(
        |k: u64| entries.contains_key(k) && key_day(k) >= today.days,
        |k: u64| entries[k],
    )
}

/// The entries as a read finds them: swept where there are more of them
/// than the threshold allows, untouched otherwise.
pub open spec fn before_read(entries: Map<u64, MenuView>, threshold: usize, today: Date) -> Map<
    u64,
    MenuView,
> {
    if entries.len() > threshold {
        swept(entries, today)
    } else {
        entries
    }
}

/// The menus of the given halls for one day, merged in the order of the
/// halls, starting from the menu without dishes; halls without an entry are
/// passed over.
pub open spec fn combined(entries: Map<u64, MenuView>, canteens: Seq<Canteen>, date: Date) -> MenuView
    decreases canteens.len(),
{
    if canteens.len() == 0 {
        MenuView::empty(Date { days: 0 })
    } else {
        let before = combined(entries, canteens.drop_last(), date);
        let key = cache_key(date, canteens.last());
        if entries.contains_key(key) {
            before.merged(entries[key])
        } else {
            before
        }
    }
}

/// A short-lived store of assembled menus, one per day and hall.
#[derive(Debug, Clone)]
pub struct MenuCache {
    cache: HashMap<u64, Menu>,
    threshold: usize,
}

impl View for MenuCache {
    type V = Map<u64, MenuView>;

    closed spec fn view(&self) -> Map<u64, MenuView> {
        Map::new(|k: u64| self.cache@.contains_key(k), |k: u64| self.cache@[k]@)
    }
}

impl MenuCache {
    /// The number of entries beyond which a read sweeps first.
    pub closed spec fn spec_threshold(&self) -> usize {
        self.threshold
    }

    /// The entries held hold exactly the keys of the map inside.
    proof fn lemma_same_keys(&self)
        ensures
            self@.dom() == self.cache@.dom(),
            self@.dom().finite(),
    {
        assert(self@.dom() =~= self.cache@.dom());
    }

    /// Makes an empty cache with the usual threshold.
    pub fn new() -> (c: MenuCache)
        ensures
            c@ == Map::<u64, MenuView>::empty(),
            c.spec_threshold() == DEFAULT_CACHE_THRESHOLD,
    {
        MenuCache::with_threshold(DEFAULT_CACHE_THRESHOLD)
    }

    /// Makes an empty cache that sweeps once it holds more than `threshold`
    /// entries.
    pub fn with_threshold(threshold: usize) -> (c: MenuCache)
        ensures
            c@ == Map::<u64, MenuView>::empty(),
            c.spec_threshold() == threshold,
    {
        let c = MenuCache { cache: HashMap::new(), threshold };
        c
    }

    /// Returns the number of entries beyond which a read sweeps first.
    pub fn threshold(&self) -> (t: usize)
        ensures
            t == self.spec_threshold(),
    {
        self.threshold
    }

    /// Looks up the menu of a day and hall without sweeping.
    pub fn peek(&self, canteen: Canteen, date: Date) -> (found: Option<Menu>)
        ensures
            match found {
                Some(menu) => self@.contains_key(cache_key(date, canteen)) && menu@
                    == self@[cache_key(date, canteen)],
                None => !self@.contains_key(cache_key(date, canteen)),
            },
    {
        let key = key_of(date, canteen);
        match self.cache.get(&key) {
            Some(menu) => Some(menu.clone()),
            None => None,
        }
    }

    /// Returns the number of entries.
    pub fn len(&self) -> (n: usize)
        ensures
            n == self@.len(),
    {
        proof {
            self.lemma_same_keys();
        }
        self.cache.len()
    }

    /// Tells whether the cache holds the menu of a day and hall.
    pub fn contains(&self, canteen: Canteen, date: Date) -> (r: bool)
        ensures
            r == self@.contains_key(cache_key(date, canteen)),
    {
        let key = key_of(date, canteen);
        self.cache.contains_key(&key)
    }

    /// Stores the menu of a day and hall, in place of any earlier one.
    pub fn insert(&mut self, canteen: Canteen, date: Date, menu: Menu)
        ensures
            final(self)@ == old(self)@.insert(cache_key(date, canteen), menu@),
            final(self).spec_threshold() == old(self).spec_threshold(),
    {
        let key = key_of(date, canteen);
        self.cache.insert(key, menu);
    }

    /// Drops the menu of a day and hall, if there is one.
    pub fn invalidate(&mut self, canteen: Canteen, date: Date)
        ensures
            final(self)@ == old(self)@.remove(cache_key(date, canteen)),
            final(self).spec_threshold() == old(self).spec_threshold(),
    {
        let key = key_of(date, canteen);
        self.cache.remove(&key);
    }

    /// Drops the menus of all days before `today`; every other entry stays
    /// as it is.
    pub fn clean_outdated(&mut self, today: Date)
        ensures
            final(self)@ == swept(old(self)@, today),
            final(self).spec_threshold() == old(self).spec_threshold(),
    {
        let keys = outdated_keys(&self.cache, today);
        let ghost start = self.cache@;
        let mut i: usize = 0;
        while i < keys.len()
            invariant
                i <= keys.len(),
                self.threshold == old(self).threshold,
                start == old(self).cache@,
                forall|k: u64|
                    keys@.contains(k) <==> start.contains_key(k) && key_day(k) < today.days,
                forall|k: u64|
                    self.cache@.contains_key(k) <==> start.contains_key(k) && !keys@.take(
                        i as int,
                    ).contains(k),
                forall|k: u64| self.cache@.contains_key(k) ==> self.cache@[k] == start[k],
            decreases keys.len() - i,
        {
            let key = keys[i];
            self.cache.remove(&key);
            proof {
                let next = keys@.take(i + 1);
                assert forall|k: u64|
                    self.cache@.contains_key(k) <==> start.contains_key(k) && !next.contains(
                        k,
                    ) by {
                    if k == key {
                        assert(next[i as int] == key);
                    }
                }
            }
            i += 1;
        }
        proof {
            assert(keys@.take(keys.len() as int) =~= keys@);
            let target = swept(old(self)@, today);
            assert forall|k: u64| self@.contains_key(k) == target.contains_key(k) by {
                assert(old(self)@.contains_key(k) == start.contains_key(k));
            }
            assert forall|k: u64| self@.contains_key(k) implies self@[k] == target[k] by {
                assert(target.contains_key(k));
            }
        }
    }

    /// Looks up the menu of a day and hall.
    ///
    /// Where the cache holds more entries than its threshold allows, the
    /// menus of days before `today` are dropped first. `None` says that the
    /// cache holds no menu for the day and hall.
    pub fn get(&mut self, canteen: Canteen, date: Date, today: Date) -> (found: Option<Menu>)
        ensures
            final(self)@ == before_read(old(self)@, old(self).spec_threshold(), today),
            final(self).spec_threshold() == old(self).spec_threshold(),
            match found {
                Some(menu) => final(self)@.contains_key(cache_key(date, canteen)) && menu@
                    == final(self)@[cache_key(date, canteen)],
                None => !final(self)@.contains_key(cache_key(date, canteen)),
            },
    {
        if self.len() > self.threshold {
            self.clean_outdated(today);
        }
        self.peek(canteen, date)
    }

    /// Merges the cached menus of the given halls for one day, in the order
    /// of the halls; halls without an entry are passed over. Reads sweep as
    /// [`MenuCache::get`] does.
    pub fn get_combined(&mut self, canteens: &[Canteen], date: Date, today: Date) -> (menu: Menu)
        ensures
            final(self)@ == (if canteens@.len() == 0 {
                old(self)@
            } else {
                before_read(old(self)@, old(self).spec_threshold(), today)
            }),
            final(self).spec_threshold() == old(self).spec_threshold(),
            menu@ == combined(final(self)@, canteens@, date),
    {
        let mut menu = Menu::default();
        let ghost entries = before_read(self@, self.spec_threshold(), today);
        proof {
            lemma_before_read_twice(self@, self.spec_threshold(), today);
        }
        let mut i: usize = 0;
        while i < canteens.len()
            invariant
                i <= canteens.len(),
                self.spec_threshold() == old(self).spec_threshold(),
                entries == before_read(old(self)@, old(self).spec_threshold(), today),
                before_read(entries, self.spec_threshold(), today) == entries,
                self@ == (if i == 0 {
                    old(self)@
                } else {
                    entries
                }),
                menu@ == combined(entries, canteens@.take(i as int), date),
            decreases canteens.len() - i,
        {
            proof {
                assert(canteens@.take(i + 1).drop_last() =~= canteens@.take(i as int));
            }
            match self.get(canteens[i], date, today) {
                Some(found) => {
                    menu = menu.merged(found);
                },
                None => {},
            }
            i += 1;
        }
        assert(canteens@.take(canteens.len() as int) =~= canteens@);
        menu
    }
}

impl Default for MenuCache {
    fn default() -> (c: MenuCache)
        ensures
            c@ == Map::<u64, MenuView>::empty(),
            c.spec_threshold() == DEFAULT_CACHE_THRESHOLD,
    {
        MenuCache::new()
    }
}

/// A key stands for the day it was made of, and two keys are the same only
/// for the same day and hall.
pub proof fn lemma_cache_key(date: Date, canteen: Canteen, other_date: Date, other_canteen: Canteen)
    ensures
        key_day(cache_key(date, canteen)) == date.days,
        cache_key(date, canteen) == cache_key(other_date, other_canteen) ==> date == other_date
            && canteen == other_canteen,
{
    crate::canteen::lemma_rank_round_trip(canteen);
    crate::canteen::lemma_rank_round_trip(other_canteen);
}

/// Sweeping drops exactly the menus of days before today: an entry of
/// today or of a later day stays as it is, an entry of an earlier day is
/// gone.
pub proof fn lemma_sweep_by_day(
    entries: Map<u64, MenuView>,
    today: Date,
    date: Date,
    canteen: Canteen,
)
    ensures
        date.days >= today.days ==> swept(entries, today).contains_key(cache_key(date, canteen))
            == entries.contains_key(cache_key(date, canteen)),
        date.days >= today.days && entries.contains_key(cache_key(date, canteen)) ==> swept(
            entries,
            today,
        )[cache_key(date, canteen)] == entries[cache_key(date, canteen)],
        date.days < today.days ==> !swept(entries, today).contains_key(cache_key(date, canteen)),
{
    lemma_cache_key(date, canteen, date, canteen);
}

/// A read that follows a read finds the entries as the first one left
/// them.
pub proof fn lemma_before_read_twice(entries: Map<u64, MenuView>, threshold: usize, today: Date)
    ensures
        before_read(before_read(entries, threshold, today), threshold, today) == before_read(
            entries,
            threshold,
            today,
        ),
{
}

} // verus!
