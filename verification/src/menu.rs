//! The menu of a day: its dishes in three categories, each sorted by name.

use vstd::prelude::*;
use crate::dish::{dish_views, same_offer, Dish, DishView};
use crate::dish_type::DishType;
use crate::group::{
    all_of_type, lemma_merged_group_associative, lemma_merged_group_commutative,
    lemma_merged_group_identity, lemma_merged_group_of_type, lemma_sort_sorted, merge_groups,
    merged_group, sort_dishes, sorted_by_name,
};
use crate::time::Date;

verus! {

/// The dishes of `list` that belong to the category `t`, in their order.
pub open spec fn of_type(list: Seq<DishView>, t: DishType) -> Seq<DishView>
    decreases list.len(),
{
    if list.len() == 0 {
        Seq::<DishView>::empty()
    } else {
        let before = of_type(list.drop_last(), t);
        if list.last().dish_type == t {
            before.push(list.last())
        } else {
            before
        }
    }
}

/// The mathematical value of a [`Menu`].
pub struct MenuView {
    pub date: Date,
    pub main_dishes: Seq<DishView>,
    pub side_dishes: Seq<DishView>,
    pub desserts: Seq<DishView>,
}

impl MenuView {
    /// The menu of `date` without any dish.
    pub open spec fn empty(date: Date) -> MenuView {
        MenuView {
            date,
            main_dishes: Seq::<DishView>::empty(),
            side_dishes: Seq::<DishView>::empty(),
            desserts: Seq::<DishView>::empty(),
        }
    }

    /// Whether every category holds dishes of its own kind only and is
    /// sorted by name.
    pub open spec fn wf(self) -> bool {
        &&& sorted_by_name(self.main_dishes)
        &&& sorted_by_name(self.side_dishes)
        &&& sorted_by_name(self.desserts)
        &&& all_of_type(self.main_dishes, DishType::Main)
        &&& all_of_type(self.side_dishes, DishType::Side)
        &&& all_of_type(self.desserts, DishType::Dessert)
    }

    /// The menu built from a plain list of dishes: each dish goes to its
    /// category, entries that are the same dish become one entry served at
    /// the halls of all of them, and each category is sorted by name.
    pub open spec fn of_dishes(date: Date, dishes: Seq<DishView>) -> MenuView {
        MenuView {
            date,
            main_dishes: merged_group(Seq::<DishView>::empty(), of_type(dishes, DishType::Main)),
            side_dishes: merged_group(Seq::<DishView>::empty(), of_type(dishes, DishType::Side)),
            desserts: merged_group(Seq::<DishView>::empty(), of_type(dishes, DishType::Dessert)),
        }
    }

    /// This menu after it has taken in `other`, category by category. The
    /// day stays that of this menu.
    pub open spec fn merged(self, other: MenuView) -> MenuView {
        MenuView {
            date: self.date,
            main_dishes: merged_group(self.main_dishes, other.main_dishes),
            side_dishes: merged_group(self.side_dishes, other.side_dishes),
            desserts: merged_group(self.desserts, other.desserts),
        }
    }

    /// Whether two menus offer the same dishes at the same halls in every
    /// category, whatever the order of the entries.
    pub open spec fn same_offer(self, other: MenuView) -> bool {
        &&& same_offer(self.main_dishes, other.main_dishes)
        &&& same_offer(self.side_dishes, other.side_dishes)
        &&& same_offer(self.desserts, other.desserts)
    }
}

/// The menu of a day. Each of its three categories holds the dishes of its
/// kind, sorted by name.
#[derive(Debug, PartialEq, Eq)]
pub struct Menu {
    date: Date,
    main_dishes: Vec<Dish>,
    side_dishes: Vec<Dish>,
    desserts: Vec<Dish>,
}

impl View for Menu {
    type V = MenuView;

    closed spec fn view(&self) -> MenuView {
        MenuView {
            date: self.date,
            main_dishes: dish_views(self.main_dishes@),
            side_dishes: dish_views(self.side_dishes@),
            desserts: dish_views(self.desserts@),
        }
    }
}

/// Copies a list of dishes.
fn copy_dishes(list: &Vec<Dish>) -> (r: Vec<Dish>)
    ensures
        dish_views(r@) == dish_views(list@),
{
    let mut out: Vec<Dish> = Vec::new();
    let mut i: usize = 0;
    while i < list.len()
        invariant
            i <= list.len(),
            out@.len() == i,
            forall|k: int| 0 <= k < i ==> out@[k]@ == list@[k]@,
        decreases list.len() - i,
    {
        out.push(list[i].clone());
        i += 1;
    }
    out
}

impl Menu {
    #[verifier::type_invariant]
    spec fn sorted(self) -> bool {
        self@.wf()
    }

    /// Makes the menu of `date` without any dish.
    pub fn new(date: Date) -> (m: Menu)
        ensures
            m@ == MenuView::empty(date),
    {
        let m = Menu {
            date,
            main_dishes: Vec::new(),
            side_dishes: Vec::new(),
            desserts: Vec::new(),
        };
        assert(m@ =~= MenuView::empty(date)) by {
            assert(dish_views(m.main_dishes@) =~= Seq::<DishView>::empty());
        }
        m
    }

    /// Builds the menu of `date` from a plain list of dishes.
    pub fn from_dishes(date: Date, dishes: Vec<Dish>) -> (m: Menu)
        ensures
            m@ == MenuView::of_dishes(date, dish_views(dishes@)),
            m@.wf(),
    {
        let ghost all = dish_views(dishes@);
        let mut main_dishes: Vec<Dish> = Vec::new();
        let mut side_dishes: Vec<Dish> = Vec::new();
        let mut desserts: Vec<Dish> = Vec::new();
        for d in it: dishes
            invariant
                dish_views(it.seq()) == all,
                dish_views(main_dishes@) == of_type(all.take(it.index() as int), DishType::Main),
                dish_views(side_dishes@) == of_type(all.take(it.index() as int), DishType::Side),
                dish_views(desserts@) == of_type(all.take(it.index() as int), DishType::Dessert),
        {
            proof {
                let next = all.take(it.index() + 1);
                assert(next.drop_last() =~= all.take(it.index() as int));
            }
            match d.get_type() {
                DishType::Main => {
                    main_dishes.push(d);
                },
                DishType::Side => {
                    side_dishes.push(d);
                },
                DishType::Dessert => {
                    desserts.push(d);
                },
            }
        }
        proof {
            assert(all.take(all.len() as int) =~= all);
            lemma_of_type(all, DishType::Main);
            lemma_of_type(all, DishType::Side);
            lemma_of_type(all, DishType::Dessert);
        }
        let none: Vec<Dish> = Vec::new();
        Menu::build(date, none, main_dishes, Vec::new(), side_dishes, Vec::new(), desserts)
    }

    /// Merges each category pair and sorts the result.
    fn build(
        date: Date,
        main_a: Vec<Dish>,
        main_b: Vec<Dish>,
        side_a: Vec<Dish>,
        side_b: Vec<Dish>,
        dessert_a: Vec<Dish>,
        dessert_b: Vec<Dish>,
    ) -> (m: Menu)
        requires
            all_of_type(dish_views(main_a@), DishType::Main),
            all_of_type(dish_views(main_b@), DishType::Main),
            all_of_type(dish_views(side_a@), DishType::Side),
            all_of_type(dish_views(side_b@), DishType::Side),
            all_of_type(dish_views(dessert_a@), DishType::Dessert),
            all_of_type(dish_views(dessert_b@), DishType::Dessert),
        ensures
            m@ == (MenuView {
                date,
                main_dishes: merged_group(dish_views(main_a@), dish_views(main_b@)),
                side_dishes: merged_group(dish_views(side_a@), dish_views(side_b@)),
                desserts: merged_group(dish_views(dessert_a@), dish_views(dessert_b@)),
            }),
            m@.wf(),
    {
        let main_dishes = sort_dishes(merge_groups(main_a, main_b));
        let side_dishes = sort_dishes(merge_groups(side_a, side_b));
        let desserts = sort_dishes(merge_groups(dessert_a, dessert_b));
        proof {
            lemma_merged_group_of_type(dish_views(main_a@), dish_views(main_b@), DishType::Main);
            lemma_merged_group_of_type(dish_views(side_a@), dish_views(side_b@), DishType::Side);
            lemma_merged_group_of_type(
                dish_views(dessert_a@),
                dish_views(dessert_b@),
                DishType::Dessert,
            );
            lemma_sort_sorted(crate::group::merge_group(dish_views(main_a@), dish_views(main_b@)));
            lemma_sort_sorted(crate::group::merge_group(dish_views(side_a@), dish_views(side_b@)));
            lemma_sort_sorted(
                crate::group::merge_group(dish_views(dessert_a@), dish_views(dessert_b@)),
            );
        }
        Menu { date, main_dishes, side_dishes, desserts }
    }

    /// Returns the day of the menu.
    pub fn get_date(&self) -> (d: Date)
        ensures
            d == self@.date,
    {
        self.date
    }

    /// Returns the main dishes, sorted by name.
    pub fn get_main_dishes(&self) -> (dishes: &[Dish])
        ensures
            dish_views(dishes@) == self@.main_dishes,
            sorted_by_name(self@.main_dishes),
    {
        proof {
            use_type_invariant(self);
        }
        self.main_dishes.as_slice()
    }

    /// Returns the side dishes, sorted by name.
    pub fn get_side_dishes(&self) -> (dishes: &[Dish])
        ensures
            dish_views(dishes@) == self@.side_dishes,
            sorted_by_name(self@.side_dishes),
    {
        proof {
            use_type_invariant(self);
        }
        self.side_dishes.as_slice()
    }

    /// Returns the desserts, sorted by name.
    pub fn get_desserts(&self) -> (dishes: &[Dish])
        ensures
            dish_views(dishes@) == self@.desserts,
            sorted_by_name(self@.desserts),
    {
        proof {
            use_type_invariant(self);
        }
        self.desserts.as_slice()
    }

    /// Takes in the dishes of `other`, category by category: a dish that
    /// this menu already holds is afterwards served at the halls of both, a
    /// dish that it lacks is added, and each category is sorted by name.
    pub fn merged(self, other: Self) -> (m: Menu)
        ensures
            m@ == self@.merged(other@),
            m@.wf(),
    {
        proof {
            use_type_invariant(&self);
            use_type_invariant(&other);
        }
        let Menu { date, main_dishes, side_dishes, desserts } = self;
        let Menu { date: _, main_dishes: main_b, side_dishes: side_b, desserts: dessert_b } = other;
        Menu::build(date, main_dishes, main_b, side_dishes, side_b, desserts, dessert_b)
    }
}

impl Default for Menu {
    fn default() -> (m: Menu)
        ensures
            m@ == MenuView::empty(Date { days: 0 }),
    {
        Menu::new(Date { days: 0 })
    }
}

impl Clone for Menu {
    fn clone(&self) -> (m: Menu)
        ensures
            m@ == self@,
    {
        proof {
            use_type_invariant(self);
        }
        Menu {
            date: self.date,
            main_dishes: copy_dishes(&self.main_dishes),
            side_dishes: copy_dishes(&self.side_dishes),
            desserts: copy_dishes(&self.desserts),
        }
    }
}

/// The categories of a list of dishes hold dishes of their kind only.
pub proof fn lemma_of_type(list: Seq<DishView>, t: DishType)
    ensures
        all_of_type(of_type(list, t), t),
    decreases list.len(),
{
    if list.len() > 0 {
        lemma_of_type(list.drop_last(), t);
    }
}

/// Merging two well-formed menus gives a well-formed menu.
pub proof fn lemma_merged_is_well_formed(a: MenuView, b: MenuView)
    requires
        a.wf(),
        b.wf(),
    ensures
        a.merged(b).wf(),
{
    lemma_merged_group_of_type(a.main_dishes, b.main_dishes, DishType::Main);
    lemma_merged_group_of_type(a.side_dishes, b.side_dishes, DishType::Side);
    lemma_merged_group_of_type(a.desserts, b.desserts, DishType::Dessert);
    lemma_sort_sorted(crate::group::merge_group(a.main_dishes, b.main_dishes));
    lemma_sort_sorted(crate::group::merge_group(a.side_dishes, b.side_dishes));
    lemma_sort_sorted(crate::group::merge_group(a.desserts, b.desserts));
}

/// Merging with a menu without dishes changes nothing.
pub proof fn lemma_merge_with_empty(a: MenuView, date: Date)
    requires
        a.wf(),
    ensures
        a.merged(MenuView::empty(date)) == a,
{
    lemma_merged_group_identity(a.main_dishes);
    lemma_merged_group_identity(a.side_dishes);
    lemma_merged_group_identity(a.desserts);
}

/// Merging is associative: whichever two of three menus are merged first,
/// the result has the same day and offers the same dishes at the same
/// halls.
pub proof fn lemma_merge_associative(a: MenuView, b: MenuView, c: MenuView)
    ensures
        a.merged(b).merged(c).same_offer(a.merged(b.merged(c))),
        a.merged(b).merged(c).date == a.merged(b.merged(c)).date,
{
    lemma_merged_group_associative(a.main_dishes, b.main_dishes, c.main_dishes);
    lemma_merged_group_associative(a.side_dishes, b.side_dishes, c.side_dishes);
    lemma_merged_group_associative(a.desserts, b.desserts, c.desserts);
}

/// Merging is commutative in what is offered: either order gives the same
/// dishes at the same halls.
pub proof fn lemma_merge_commutative(a: MenuView, b: MenuView)
    ensures
        a.merged(b).same_offer(b.merged(a)),
{
    lemma_merged_group_commutative(a.main_dishes, b.main_dishes);
    lemma_merged_group_commutative(a.side_dishes, b.side_dishes);
    lemma_merged_group_commutative(a.desserts, b.desserts);
}

} // verus!
