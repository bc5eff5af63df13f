//! Lists of dishes of one category: merging two of them and sorting by
//! name.

use vstd::prelude::*;
use crate::canteen::Canteen;
use crate::dish_type::DishType;
use crate::dish::{
    all_distinct, dish_views, has_dish, offers, same_offer, serves, Dish, DishIdentity, DishView,
};
use crate::locations::{canteen_union, is_canonical, lemma_union_members};
use crate::text::{lemma_lex_le_total, lemma_lex_le_transitive, lex_le, text_le};

verus! {

/// The place of the first dish of `list` that is the same dish as `d`; the
/// length of the list where there is none.
pub open spec fn first_match(list: Seq<DishView>, d: DishView) -> int
    decreases list.len(),
{
    if list.len() == 0 {
        0
    } else if list[0].same_as(d) {
        0
    } else {
        1 + first_match(list.drop_first(), d)
    }
}

/// The list after it has taken in `d`: where it already holds the same
/// dish, the first such entry is served at the halls of both; otherwise `d`
/// is appended.
pub open spec fn absorb(list: Seq<DishView>, d: DishView) -> Seq<DishView> {
    let i = first_match(list, d);
    if i < list.len() {
        list.update(i, list[i].with_canteens(canteen_union(list[i].canteens, d.canteens)))
    } else {
        list.push(d)
    }
}

/// The list `a` after it has taken in the dishes of `b` one by one, in
/// their order.
pub open spec fn merge_group(a: Seq<DishView>, b: Seq<DishView>) -> Seq<DishView>
    decreases b.len(),
{
    if b.len() == 0 {
        a
    } else {
        absorb(merge_group(a, b.drop_last()), b.last())
    }
}

/// Whether the dishes stand in the order of their names.
pub open spec fn sorted_by_name(list: Seq<DishView>) -> bool {
    forall|i: int, j: int|
        0 <= i < j < list.len() ==> lex_le((#[trigger] list[i]).name, (#[trigger] list[j]).name)
}

/// Where a dish called `name` goes into a list sorted by name: behind the
/// last dish whose name does not come after it.
pub open spec fn insert_position(list: Seq<DishView>, name: Seq<char>) -> int
    decreases list.len(),
{
    if list.len() == 0 {
        0
    } else if lex_le(list.last().name, name) {
        list.len() as int
    } else {
        insert_position(list.drop_last(), name)
    }
}

/// The list with `d` put in at its place.
pub open spec fn insert_by_name(list: Seq<DishView>, d: DishView) -> Seq<DishView> {
    list.insert(insert_position(list, d.name), d)
}

/// The dishes sorted by name; dishes of one name keep their order.
pub open spec fn sort_by_name(list: Seq<DishView>) -> Seq<DishView>
    decreases list.len(),
{
    if list.len() == 0 {
        Seq::<DishView>::empty()
    } else {
        insert_by_name(sort_by_name(list.drop_last()), list.last())
    }
}

/// Whether every dish of the list belongs to the category `t`.
pub open spec fn all_of_type(list: Seq<DishView>, t: DishType) -> bool {
    forall|i: int| 0 <= i < list.len() ==> (#[trigger] list[i]).dish_type == t
}

/// Two lists merged and sorted by name.
pub open spec fn merged_group(a: Seq<DishView>, b: Seq<DishView>) -> Seq<DishView> {
    sort_by_name(merge_group(a, b))
}

/// What `first_match` finds: an index up to which no dish matches and at
/// which, inside the list, one does.
pub proof fn lemma_first_match(list: Seq<DishView>, d: DishView)
    ensures
        0 <= first_match(list, d) <= list.len(),
        forall|k: int| 0 <= k < first_match(list, d) ==> !(#[trigger] list[k]).same_as(d),
        first_match(list, d) < list.len() ==> list[first_match(list, d)].same_as(d),
        first_match(list, d) < list.len() <==> offers(list, d),
    decreases list.len(),
{
    if list.len() > 0 {
        if !list[0].same_as(d) {
            let rest = list.drop_first();
            lemma_first_match(rest, d);
            let m = first_match(rest, d);
            assert forall|k: int| 0 <= k < m + 1 implies !(#[trigger] list[k]).same_as(d) by {
                if k > 0 {
                    assert(rest[k - 1] == list[k]);
                }
            }
        }
    }
}

/// An index with no match before it and a match at it is the first match.
pub proof fn lemma_first_match_is(list: Seq<DishView>, d: DishView, i: int)
    requires
        0 <= i <= list.len(),
        forall|k: int| 0 <= k < i ==> !(#[trigger] list[k]).same_as(d),
        i < list.len() ==> list[i].same_as(d),
    ensures
        first_match(list, d) == i,
{
    lemma_first_match(list, d);
}

/// Taking in a dish adds its identity and its halls to what the list
/// offers, and nothing else.
pub proof fn lemma_absorb_offer(list: Seq<DishView>, d: DishView, id: DishIdentity, c: Canteen)
    ensures
        has_dish(absorb(list, d), id) <==> has_dish(list, id) || id == d.identity(),
        serves(absorb(list, d), id, c) <==> serves(list, id, c) || (id == d.identity()
            && d.canteens.contains(c)),
{
    lemma_first_match(list, d);
    let i = first_match(list, d);
    let r = absorb(list, d);
    if i < list.len() {
        lemma_union_members(list[i].canteens, d.canteens);
        assert(r[i].canteens == canteen_union(list[i].canteens, d.canteens));
    }
    if has_dish(list, id) {
        let k = choose|k: int| 0 <= k < list.len() && (#[trigger] list[k]).identity() == id;
        assert(r[k].identity() == id);
    }
    if serves(list, id, c) {
        let k = choose|k: int|
            0 <= k < list.len() && (#[trigger] list[k]).identity() == id
                && list[k].canteens.contains(c);
        assert(r[k].identity() == id && r[k].canteens.contains(c));
    }
}

/// Appending a dish adds its identity and its halls to what a list offers.
pub proof fn lemma_push_offer(list: Seq<DishView>, d: DishView, id: DishIdentity, c: Canteen)
    ensures
        has_dish(list.push(d), id) <==> has_dish(list, id) || id == d.identity(),
        serves(list.push(d), id, c) <==> serves(list, id, c) || (id == d.identity()
            && d.canteens.contains(c)),
{
    let r = list.push(d);
    assert(r[list.len() as int] == d);
    if has_dish(list, id) {
        let k = choose|k: int| 0 <= k < list.len() && (#[trigger] list[k]).identity() == id;
        assert(r[k].identity() == id);
    }
    if serves(list, id, c) {
        let k = choose|k: int|
            0 <= k < list.len() && (#[trigger] list[k]).identity() == id
                && list[k].canteens.contains(c);
        assert(r[k].identity() == id && r[k].canteens.contains(c));
    }
}

/// A merged list offers what either list offers: a dish is in it when it
/// is in one of them, and it is served at a hall when one of them serves it
/// there.
pub proof fn lemma_merge_group_offer(
    a: Seq<DishView>,
    b: Seq<DishView>,
    id: DishIdentity,
    c: Canteen,
)
    ensures
        has_dish(merge_group(a, b), id) <==> has_dish(a, id) || has_dish(b, id),
        serves(merge_group(a, b), id, c) <==> serves(a, id, c) || serves(b, id, c),
    decreases b.len(),
{
    if b.len() > 0 {
        let init = b.drop_last();
        lemma_merge_group_offer(a, init, id, c);
        lemma_absorb_offer(merge_group(a, init), b.last(), id, c);
        assert(b =~= init.push(b.last()));
        lemma_push_offer(init, b.last(), id, c);
    }
}

/// Merging keeps the dishes of a list apart: where no two dishes of `a` are
/// the same dish, no two of the merged list are.
pub proof fn lemma_merge_group_distinct(a: Seq<DishView>, b: Seq<DishView>)
    requires
        all_distinct(a),
    ensures
        all_distinct(merge_group(a, b)),
    decreases b.len(),
{
    if b.len() > 0 {
        let list = merge_group(a, b.drop_last());
        let d = b.last();
        lemma_merge_group_distinct(a, b.drop_last());
        lemma_first_match(list, d);
    }
}

/// Merging never lists a hall twice for a dish: where every dish of both
/// lists names its halls in canonical order, so does every dish of the
/// merged list.
pub proof fn lemma_merge_group_canonical(a: Seq<DishView>, b: Seq<DishView>)
    requires
        forall|i: int| 0 <= i < a.len() ==> is_canonical((#[trigger] a[i]).canteens),
        forall|i: int| 0 <= i < b.len() ==> is_canonical((#[trigger] b[i]).canteens),
    ensures
        forall|i: int|
            0 <= i < merge_group(a, b).len() ==> is_canonical(
                (#[trigger] merge_group(a, b)[i]).canteens,
            ),
    decreases b.len(),
{
    if b.len() > 0 {
        let init = b.drop_last();
        let list = merge_group(a, init);
        let d = b.last();
        lemma_merge_group_canonical(a, init);
        lemma_first_match(list, d);
        let m = first_match(list, d);
        let r = absorb(list, d);
        assert forall|i: int| 0 <= i < r.len() implies is_canonical((#[trigger] r[i]).canteens) by {
            if i == m && m < list.len() {
                lemma_union_members(list[m].canteens, d.canteens);
            }
        }
    }
}

/// Where a dish goes lies inside the list or right behind it; the dishes
/// from there on come strictly after its name, and the dish before, if any,
/// does not.
pub proof fn lemma_insert_position(list: Seq<DishView>, name: Seq<char>)
    ensures
        0 <= insert_position(list, name) <= list.len(),
        forall|k: int|
            insert_position(list, name) <= k < list.len() ==> !lex_le(
                (#[trigger] list[k]).name,
                name,
            ),
        insert_position(list, name) > 0 ==> lex_le(
            list[insert_position(list, name) - 1].name,
            name,
        ),
    decreases list.len(),
{
    if list.len() > 0 && !lex_le(list.last().name, name) {
        let init = list.drop_last();
        lemma_insert_position(init, name);
        assert forall|k: int| insert_position(list, name) <= k < list.len() implies !lex_le(
            (#[trigger] list[k]).name,
            name,
        ) by {
            if k < init.len() {
                assert(init[k] == list[k]);
            }
        }
    }
}

/// Putting a dish into a sorted list leaves the list sorted.
pub proof fn lemma_insert_keeps_sorted(list: Seq<DishView>, d: DishView)
    requires
        sorted_by_name(list),
    ensures
        sorted_by_name(insert_by_name(list, d)),
{
    lemma_insert_position(list, d.name);
    let p = insert_position(list, d.name);
    let r = insert_by_name(list, d);
    assert forall|i: int, j: int| 0 <= i < j < r.len() implies lex_le(
        (#[trigger] r[i]).name,
        (#[trigger] r[j]).name,
    ) by {
        if j == p {
            if i < p - 1 {
                lemma_lex_le_transitive(list[i].name, list[p - 1].name, d.name);
            }
        } else if j > p && i == p {
            lemma_lex_le_total(d.name, list[j - 1].name);
        }
    }
}

/// Putting a dish into a list adds the dish and removes nothing.
pub proof fn lemma_insert_contains(list: Seq<DishView>, d: DishView, x: DishView)
    ensures
        insert_by_name(list, d).contains(x) <==> list.contains(x) || x == d,
        insert_by_name(list, d).to_multiset() == list.to_multiset().insert(d),
{
    lemma_insert_position(list, d.name);
    let p = insert_position(list, d.name);
    let r = insert_by_name(list, d);
    vstd::seq_lib::to_multiset_insert(list, p, d);
    assert(r[p] == d);
    if list.contains(x) {
        let k = choose|k: int| 0 <= k < list.len() && list[k] == x;
        if k < p {
            assert(r[k] == x);
        } else {
            assert(r[k + 1] == x);
        }
    }
}

/// Sorting yields a list in the order of the names.
pub proof fn lemma_sort_sorted(list: Seq<DishView>)
    ensures
        sorted_by_name(sort_by_name(list)),
    decreases list.len(),
{
    if list.len() > 0 {
        lemma_sort_sorted(list.drop_last());
        lemma_insert_keeps_sorted(sort_by_name(list.drop_last()), list.last());
    }
}

/// Sorting only rearranges: the sorted list holds each dish as often as the
/// list did.
pub proof fn lemma_sort_permutes(list: Seq<DishView>)
    ensures
        sort_by_name(list).to_multiset() == list.to_multiset(),
        sort_by_name(list).len() == list.len(),
        forall|x: DishView| sort_by_name(list).contains(x) <==> list.contains(x),
    decreases list.len(),
{
    if list.len() == 0 {
        assert(sort_by_name(list) =~= list);
    } else {
        let init = list.drop_last();
        let d = list.last();
        lemma_sort_permutes(init);
        lemma_insert_position(sort_by_name(init), d.name);
        lemma_insert_contains(sort_by_name(init), d, d);
        assert(list =~= init.push(d));
        vstd::seq_lib::to_multiset_build(init, d);
        assert forall|x: DishView| sort_by_name(list).contains(x) <==> list.contains(x) by {
            lemma_insert_contains(sort_by_name(init), d, x);
            assert(init.contains(x) || x == d <==> list.contains(x));
        }
    }
}

/// Sorting a list that is sorted already changes nothing.
pub proof fn lemma_sort_of_sorted(list: Seq<DishView>)
    requires
        sorted_by_name(list),
    ensures
        sort_by_name(list) == list,
    decreases list.len(),
{
    if list.len() > 0 {
        let init = list.drop_last();
        assert(sorted_by_name(init));
        lemma_sort_of_sorted(init);
    }
}

/// Sorting changes nothing of what a list offers.
pub proof fn lemma_sort_same_offer(list: Seq<DishView>)
    ensures
        same_offer(sort_by_name(list), list),
{
    let sorted = sort_by_name(list);
    lemma_sort_permutes(list);
    assert forall|id: DishIdentity| has_dish(sorted, id) == has_dish(list, id) by {
        if has_dish(sorted, id) {
            let k = choose|k: int| 0 <= k < sorted.len() && (#[trigger] sorted[k]).identity() == id;
            assert(list.contains(sorted[k]));
        }
        if has_dish(list, id) {
            let k = choose|k: int| 0 <= k < list.len() && (#[trigger] list[k]).identity() == id;
            assert(list.contains(list[k]));
        }
    }
    assert forall|id: DishIdentity, c: Canteen| serves(sorted, id, c) == serves(list, id, c) by {
        if serves(sorted, id, c) {
            let k = choose|k: int|
                0 <= k < sorted.len() && (#[trigger] sorted[k]).identity() == id
                    && sorted[k].canteens.contains(c);
            assert(list.contains(sorted[k]));
        }
        if serves(list, id, c) {
            let k = choose|k: int|
                0 <= k < list.len() && (#[trigger] list[k]).identity() == id
                    && list[k].canteens.contains(c);
            assert(list.contains(list[k]));
        }
    }
}

/// Merging and sorting keep a category to itself: two lists of one
/// category merge into a list of that category.
pub proof fn lemma_merged_group_of_type(a: Seq<DishView>, b: Seq<DishView>, t: DishType)
    requires
        all_of_type(a, t),
        all_of_type(b, t),
    ensures
        all_of_type(merge_group(a, b), t),
        all_of_type(merged_group(a, b), t),
    decreases b.len(),
{
    if b.len() > 0 {
        let init = b.drop_last();
        assert(all_of_type(init, t)) by {
            assert forall|i: int| 0 <= i < init.len() implies (#[trigger] init[i]).dish_type
                == t by {
                assert(init[i] == b[i]);
            }
        }
        lemma_merged_group_of_type(a, init, t);
        lemma_first_match(merge_group(a, init), b.last());
        assert(b[b.len() - 1].dish_type == t);
    }
    let merged = merge_group(a, b);
    let sorted = sort_by_name(merged);
    lemma_sort_permutes(merged);
    assert forall|i: int| 0 <= i < sorted.len() implies (#[trigger] sorted[i]).dish_type == t by {
        assert(sorted.contains(sorted[i]));
        assert(merged.contains(sorted[i]));
        let k = choose|k: int| 0 <= k < merged.len() && merged[k] == sorted[i];
        assert(merged[k].dish_type == t);
    }
}

/// Two lists merged and sorted offer what either offers.
pub proof fn lemma_merged_group_offer(
    a: Seq<DishView>,
    b: Seq<DishView>,
    id: DishIdentity,
    c: Canteen,
)
    ensures
        has_dish(merged_group(a, b), id) <==> has_dish(a, id) || has_dish(b, id),
        serves(merged_group(a, b), id, c) <==> serves(a, id, c) || serves(b, id, c),
{
    lemma_sort_same_offer(merge_group(a, b));
    lemma_merge_group_offer(a, b, id, c);
}

/// Merging with nothing changes nothing of a list sorted by name.
pub proof fn lemma_merged_group_identity(a: Seq<DishView>)
    requires
        sorted_by_name(a),
    ensures
        merged_group(a, Seq::<DishView>::empty()) == a,
{
    lemma_sort_of_sorted(a);
}

/// Merging is commutative in what is offered: either order gives the same
/// dishes at the same halls.
pub proof fn lemma_merged_group_commutative(a: Seq<DishView>, b: Seq<DishView>)
    ensures
        same_offer(merged_group(a, b), merged_group(b, a)),
{
    assert forall|id: DishIdentity| has_dish(merged_group(a, b), id) == has_dish(
        merged_group(b, a),
        id,
    ) by {
        lemma_merged_group_offer(a, b, id, Canteen::Forum);
        lemma_merged_group_offer(b, a, id, Canteen::Forum);
    }
    assert forall|id: DishIdentity, c: Canteen| serves(merged_group(a, b), id, c) == serves(
        merged_group(b, a),
        id,
        c,
    ) by {
        lemma_merged_group_offer(a, b, id, c);
        lemma_merged_group_offer(b, a, id, c);
    }
}

/// Merging is associative in what is offered: whichever two of three lists
/// are merged first, the result offers the same dishes at the same halls.
pub proof fn lemma_merged_group_associative(a: Seq<DishView>, b: Seq<DishView>, c: Seq<DishView>)
    ensures
        same_offer(
            merged_group(merged_group(a, b), c),
            merged_group(a, merged_group(b, c)),
        ),
{
    let left = merged_group(merged_group(a, b), c);
    let right = merged_group(a, merged_group(b, c));
    assert forall|id: DishIdentity| has_dish(left, id) == has_dish(right, id) by {
        lemma_merged_group_offer(a, b, id, Canteen::Forum);
        lemma_merged_group_offer(merged_group(a, b), c, id, Canteen::Forum);
        lemma_merged_group_offer(b, c, id, Canteen::Forum);
        lemma_merged_group_offer(a, merged_group(b, c), id, Canteen::Forum);
    }
    assert forall|id: DishIdentity, hall: Canteen| serves(left, id, hall) == serves(
        right,
        id,
        hall,
    ) by {
        lemma_merged_group_offer(a, b, id, hall);
        lemma_merged_group_offer(merged_group(a, b), c, id, hall);
        lemma_merged_group_offer(b, c, id, hall);
        lemma_merged_group_offer(a, merged_group(b, c), id, hall);
    }
}

/// Puts `d` into `group`: merges it into the first entry that is the same
/// dish, or appends it where there is none.
pub fn absorb_dish(group: &mut Vec<Dish>, d: Dish)
    ensures
        dish_views(final(group)@) == absorb(dish_views(old(group)@), d@),
{
    let ghost list = dish_views(group@);
    let mut i: usize = 0;
    while i < group.len()
        invariant
            i <= group.len(),
            list == dish_views(group@),
            group@ == old(group)@,
            forall|k: int| 0 <= k < i ==> !(#[trigger] list[k]).same_as(d@),
        decreases group.len() - i,
    {
        if group[i].same_as(&d) {
            proof {
                lemma_first_match_is(list, d@, i as int);
            }
            group[i].merge(d);
            return ;
        }
        i += 1;
    }
    proof {
        lemma_first_match_is(list, d@, list.len() as int);
    }
    group.push(d);
}

/// Lets `a` take in the dishes of `b` one by one.
pub fn merge_groups(a: Vec<Dish>, b: Vec<Dish>) -> (merged: Vec<Dish>)
    ensures
        dish_views(merged@) == merge_group(dish_views(a@), dish_views(b@)),
{
    let ghost start = dish_views(a@);
    let ghost all = dish_views(b@);
    let mut merged = a;
    for d in it: b
        invariant
            dish_views(it.seq()) == all,
            dish_views(merged@) == merge_group(start, all.take(it.index() as int)),
    {
        proof {
            let next = all.take(it.index() + 1);
            assert(next.drop_last() =~= all.take(it.index() as int));
        }
        absorb_dish(&mut merged, d);
    }
    assert(all.take(all.len() as int) =~= all);
    merged
}

/// Puts `d` at its place into a list sorted by name.
pub fn insert_dish(group: &mut Vec<Dish>, d: Dish)
    ensures
        dish_views(final(group)@) == insert_by_name(dish_views(old(group)@), d@),
{
    let ghost list = dish_views(group@);
    let mut pos: usize = group.len();
    assert(list.take(pos as int) =~= list);
    while pos > 0 && !text_le(group[pos - 1].get_name(), d.get_name())
        invariant
            pos <= group.len(),
            list == dish_views(group@),
            group@ == old(group)@,
            insert_position(list, d@.name) == insert_position(list.take(pos as int), d@.name),
        decreases pos,
    {
        proof {
            assert(list.take(pos as int).drop_last() =~= list.take(pos - 1));
        }
        pos -= 1;
    }
    group.insert(pos, d);
}

/// Sorts dishes by name; dishes of one name keep their order.
pub fn sort_dishes(dishes: Vec<Dish>) -> (sorted: Vec<Dish>)
    ensures
        dish_views(sorted@) == sort_by_name(dish_views(dishes@)),
{
    let ghost all = dish_views(dishes@);
    let mut sorted: Vec<Dish> = Vec::new();
    for d in it: dishes
        invariant
            dish_views(it.seq()) == all,
            dish_views(sorted@) == sort_by_name(all.take(it.index() as int)),
    {
        proof {
            let next = all.take(it.index() + 1);
            assert(next.drop_last() =~= all.take(it.index() as int));
        }
        insert_dish(&mut sorted, d);
    }
    assert(all.take(all.len() as int) =~= all);
    sorted
}

} // verus!
