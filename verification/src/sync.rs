//! The synchronizer: what has to change in storage so that the latest rows
//! of a day and hall agree with what was just fetched.
//!
//! Dishes are compared by identity alone. A stored dish that is still
//! offered is left as it is, whatever else of it differs in the fetch.

use vstd::prelude::*;
use crate::dish::{all_distinct, dish_views, offered_by, offers, Dish, DishView};

verus! {

/// The stored dishes that the fetch no longer offers, in stored order.
pub open spec fn stale_dishes(persisted: Seq<DishView>, fetched: Seq<DishView>) -> Seq<DishView>
    decreases persisted.len(),
{
    if persisted.len() == 0 {
        Seq::<DishView>::empty()
    } else {
        let before = stale_dishes(persisted.drop_last(), fetched);
        if offers(fetched, persisted.last()) {
            before
        } else {
            before.push(persisted.last())
        }
    }
}

/// The stored dishes that the fetch still offers, in stored order.
pub open spec fn kept_dishes(persisted: Seq<DishView>, fetched: Seq<DishView>) -> Seq<DishView>
    decreases persisted.len(),
{
    if persisted.len() == 0 {
        Seq::<DishView>::empty()
    } else {
        let before = kept_dishes(persisted.drop_last(), fetched);
        if offers(fetched, persisted.last()) {
            before.push(persisted.last())
        } else {
            before
        }
    }
}

/// The fetched dishes that storage does not hold yet, in fetched order. Of
/// fetched dishes that are the same dish only the first counts.
pub open spec fn new_dishes(fetched: Seq<DishView>, persisted: Seq<DishView>) -> Seq<DishView>
    decreases fetched.len(),
{
    if fetched.len() == 0 {
        Seq::<DishView>::empty()
    } else {
        let before = new_dishes(fetched.drop_last(), persisted);
        let d = fetched.last();
        if offers(persisted, d) || offers(fetched.drop_last(), d) {
            before
        } else {
            before.push(d)
        }
    }
}

/// The latest dishes once the difference has been written: what was kept,
/// then what is new.
pub open spec fn after_sync(persisted: Seq<DishView>, fetched: Seq<DishView>) -> Seq<DishView> {
    kept_dishes(persisted, fetched) + new_dishes(fetched, persisted)
}

/// What has to be written for one day and hall.
#[derive(Debug, Clone, PartialEq, Eq)]
pub struct SyncPlan {
    /// Stored dishes whose rows stop being the latest.
    pub stale: Vec<Dish>,
    /// Fetched dishes that get a row of their own.
    pub new: Vec<Dish>,
}

impl SyncPlan {
    /// Whether the plan asks for no write at all.
    pub open spec fn spec_is_empty(&self) -> bool {
        self.stale@.len() == 0 && self.new@.len() == 0
    }

    /// Tells whether the plan asks for no write at all.
    pub fn is_empty(&self) -> (r: bool)
        ensures
            r == self.spec_is_empty(),
    {
        self.stale.len() == 0 && self.new.len() == 0
    }
}

/// Computes what has to be written so that storage agrees with the fetch:
/// the stored dishes that are no longer offered become stale, the fetched
/// dishes that storage lacks are new, and dishes on both sides are left
/// alone.
pub fn diff(fetched: &[Dish], persisted: &[Dish]) -> (plan: SyncPlan)
    ensures
        dish_views(plan.stale@) == stale_dishes(dish_views(persisted@), dish_views(fetched@)),
        dish_views(plan.new@) == new_dishes(dish_views(fetched@), dish_views(persisted@)),
{
    let ghost f = dish_views(fetched@);
    let ghost p = dish_views(persisted@);
    let mut stale: Vec<Dish> = Vec::new();
    let mut i: usize = 0;
    while i < persisted.len()
        invariant
            i <= persisted.len(),
            f == dish_views(fetched@),
            p == dish_views(persisted@),
            dish_views(stale@) == stale_dishes(p.take(i as int), f),
        decreases persisted.len() - i,
    {
        proof {
            assert(p.take(i + 1).drop_last() =~= p.take(i as int));
        }
        if !offered_by(fetched, &persisted[i]) {
            stale.push(persisted[i].clone());
        }
        i += 1;
    }
    assert(p.take(persisted.len() as int) =~= p);
    let mut new: Vec<Dish> = Vec::new();
    let mut j: usize = 0;
    while j < fetched.len()
        invariant
            j <= fetched.len(),
            f == dish_views(fetched@),
            p == dish_views(persisted@),
            dish_views(new@) == new_dishes(f.take(j as int), p),
        decreases fetched.len() - j,
    {
        proof {
            assert(f.take(j + 1).drop_last() =~= f.take(j as int));
            assert(dish_views(fetched@.take(j as int)) =~= f.take(j as int));
        }
        let earlier = slice_prefix(fetched, j);
        if !offered_by(persisted, &fetched[j]) && !offered_by(earlier, &fetched[j]) {
            new.push(fetched[j].clone());
        }
        j += 1;
    }
    assert(f.take(fetched.len() as int) =~= f);
    SyncPlan { stale, new }
}

/// The stale dishes are exactly the stored dishes that the fetch does not
/// offer.
pub proof fn lemma_stale_dishes(persisted: Seq<DishView>, fetched: Seq<DishView>)
    ensures
        forall|k: int|
            0 <= k < stale_dishes(persisted, fetched).len() ==> persisted.contains(
                #[trigger] stale_dishes(persisted, fetched)[k],
            ) && !offers(fetched, stale_dishes(persisted, fetched)[k]),
        forall|i: int|
            0 <= i < persisted.len() && !offers(fetched, persisted[i]) ==> stale_dishes(
                persisted,
                fetched,
            ).contains(#[trigger] persisted[i]),
    decreases persisted.len(),
{
    let stale = stale_dishes(persisted, fetched);
    if persisted.len() > 0 {
        let init = persisted.drop_last();
        let before = stale_dishes(init, fetched);
        lemma_stale_dishes(init, fetched);
        assert forall|i: int|
            0 <= i < persisted.len() && !offers(fetched, persisted[i]) implies stale.contains(
            #[trigger] persisted[i],
        ) by {
            if i < init.len() {
                let k = choose|k: int| 0 <= k < before.len() && before[k] == init[i];
                assert(stale[k] == persisted[i]);
            } else {
                assert(stale[stale.len() - 1] == persisted[i]);
            }
        }
    }
}

/// The kept dishes are exactly the stored dishes that the fetch still
/// offers, each with the value that storage holds.
pub proof fn lemma_kept_dishes(persisted: Seq<DishView>, fetched: Seq<DishView>)
    ensures
        forall|k: int|
            0 <= k < kept_dishes(persisted, fetched).len() ==> persisted.contains(
                #[trigger] kept_dishes(persisted, fetched)[k],
            ) && offers(fetched, kept_dishes(persisted, fetched)[k]),
        forall|i: int|
            0 <= i < persisted.len() && offers(fetched, persisted[i]) ==> kept_dishes(
                persisted,
                fetched,
            ).contains(#[trigger] persisted[i]),
        all_distinct(persisted) ==> all_distinct(kept_dishes(persisted, fetched)),
    decreases persisted.len(),
{
    let kept = kept_dishes(persisted, fetched);
    if persisted.len() > 0 {
        let init = persisted.drop_last();
        let before = kept_dishes(init, fetched);
        lemma_kept_dishes(init, fetched);
        assert forall|i: int|
            0 <= i < persisted.len() && offers(fetched, persisted[i]) implies kept.contains(
            #[trigger] persisted[i],
        ) by {
            if i < init.len() {
                let k = choose|k: int| 0 <= k < before.len() && before[k] == init[i];
                assert(kept[k] == persisted[i]);
            } else {
                assert(kept[kept.len() - 1] == persisted[i]);
            }
        }
        if all_distinct(persisted) {
            assert(all_distinct(init));
        }
    }
}

/// The new dishes are fetched dishes that storage lacks, no two of them the
/// same dish, and every fetched dish that storage lacks is among them.
pub proof fn lemma_new_dishes(fetched: Seq<DishView>, persisted: Seq<DishView>)
    ensures
        forall|k: int|
            0 <= k < new_dishes(fetched, persisted).len() ==> fetched.contains(
                #[trigger] new_dishes(fetched, persisted)[k],
            ) && !offers(persisted, new_dishes(fetched, persisted)[k]),
        all_distinct(new_dishes(fetched, persisted)),
        forall|i: int|
            0 <= i < fetched.len() && !offers(persisted, fetched[i]) ==> offers(
                new_dishes(fetched, persisted),
                #[trigger] fetched[i],
            ),
    decreases fetched.len(),
{
    let new = new_dishes(fetched, persisted);
    if fetched.len() > 0 {
        let init = fetched.drop_last();
        let before = new_dishes(init, persisted);
        let d = fetched.last();
        lemma_new_dishes(init, persisted);
        assert forall|i: int| 0 <= i < fetched.len() && !offers(persisted, fetched[i]) implies offers(
            new,
            #[trigger] fetched[i],
        ) by {
            if i < init.len() {
                let k = choose|k: int| 0 <= k < before.len() && (#[trigger] before[k]).same_as(init[i]);
                assert(new[k].same_as(fetched[i]));
            } else if offers(init, d) {
                let j = choose|j: int| 0 <= j < init.len() && (#[trigger] init[j]).same_as(d);
                lemma_offers_by_identity(persisted, init[j], d);
            } else {
                assert(new[new.len() - 1].same_as(d));
            }
        }
    }
}

/// Whether a list offers a dish depends on the identity of the dish alone.
pub proof fn lemma_offers_by_identity(list: Seq<DishView>, a: DishView, b: DishView)
    requires
        a.same_as(b),
    ensures
        offers(list, a) == offers(list, b),
{
}

/// Where the fetch offers every stored dish, nothing is stale.
pub proof fn lemma_nothing_stale(persisted: Seq<DishView>, fetched: Seq<DishView>)
    requires
        forall|i: int| 0 <= i < persisted.len() ==> offers(fetched, #[trigger] persisted[i]),
    ensures
        stale_dishes(persisted, fetched) == Seq::<DishView>::empty(),
    decreases persisted.len(),
{
    if persisted.len() > 0 {
        let init = persisted.drop_last();
        lemma_nothing_stale(init, fetched);
    }
}

/// Where storage holds every fetched dish, nothing is new.
pub proof fn lemma_nothing_new(fetched: Seq<DishView>, persisted: Seq<DishView>)
    requires
        forall|i: int| 0 <= i < fetched.len() ==> offers(persisted, #[trigger] fetched[i]),
    ensures
        new_dishes(fetched, persisted) == Seq::<DishView>::empty(),
    decreases fetched.len(),
{
    if fetched.len() > 0 {
        let init = fetched.drop_last();
        lemma_nothing_new(init, persisted);
    }
}

/// After the difference has been written, storage and fetch offer the same
/// dishes.
pub proof fn lemma_sync_agrees_with_fetch(
    persisted: Seq<DishView>,
    fetched: Seq<DishView>,
    d: DishView,
)
    ensures
        offers(after_sync(persisted, fetched), d) <==> offers(fetched, d),
{
    let kept = kept_dishes(persisted, fetched);
    let new = new_dishes(fetched, persisted);
    let after = after_sync(persisted, fetched);
    lemma_kept_dishes(persisted, fetched);
    lemma_new_dishes(fetched, persisted);
    if offers(after, d) {
        let i = choose|i: int| 0 <= i < after.len() && (#[trigger] after[i]).same_as(d);
        if i < kept.len() {
            lemma_offers_by_identity(fetched, kept[i], d);
        }
    }
    if offers(fetched, d) {
        let j = choose|j: int| 0 <= j < fetched.len() && (#[trigger] fetched[j]).same_as(d);
        if offers(persisted, fetched[j]) {
            let m = choose|m: int|
                0 <= m < persisted.len() && (#[trigger] persisted[m]).same_as(fetched[j]);
            let k = choose|k: int| 0 <= k < kept.len() && kept[k] == persisted[m];
            assert(after[k] == kept[k]);
        } else {
            let k = choose|k: int| 0 <= k < new.len() && (#[trigger] new[k]).same_as(fetched[j]);
            assert(after[kept.len() + k] == new[k]);
        }
    }
}

/// Synchronizing is idempotent: once the difference has been written, the
/// same fetch asks for no further write.
pub proof fn lemma_sync_is_idempotent(persisted: Seq<DishView>, fetched: Seq<DishView>)
    ensures
        stale_dishes(after_sync(persisted, fetched), fetched) == Seq::<DishView>::empty(),
        new_dishes(fetched, after_sync(persisted, fetched)) == Seq::<DishView>::empty(),
{
    let after = after_sync(persisted, fetched);
    assert forall|i: int| 0 <= i < after.len() implies offers(fetched, #[trigger] after[i]) by {
        lemma_sync_agrees_with_fetch(persisted, fetched, after[i]);
    }
    assert forall|i: int| 0 <= i < fetched.len() implies offers(after, #[trigger] fetched[i]) by {
        lemma_sync_agrees_with_fetch(persisted, fetched, fetched[i]);
    }
    lemma_nothing_stale(after, fetched);
    lemma_nothing_new(fetched, after);
}

/// Synchronizing keeps the stored dishes apart: where no two stored dishes
/// were the same dish before, none are afterwards.
pub proof fn lemma_sync_keeps_distinct(persisted: Seq<DishView>, fetched: Seq<DishView>)
    requires
        all_distinct(persisted),
    ensures
        all_distinct(after_sync(persisted, fetched)),
{
    lemma_kept_dishes(persisted, fetched);
    lemma_new_dishes(fetched, persisted);
}

/// The first `n` items of a slice.
fn slice_prefix(list: &[Dish], n: usize) -> (r: &[Dish])
    requires
        n <= list.len(),
    ensures
        r@ == list@.take(n as int),
{
    vstd::slice::slice_subrange(list, 0, n)
}

} // verus!
