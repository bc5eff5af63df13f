//! A dish as it is offered: its name, prices, dietary flags and where it is
//! served.

use vstd::prelude::*;
use crate::canteen::Canteen;
use crate::decimal::{Decimal, DishPrices, NutritionValues};
use crate::dish_type::DishType;
use crate::locations::{canteen_union, union_of};
use crate::text::text_eq;

verus! {

/// The characters of each text of a list.
pub open spec fn texts(list: Seq<String>) -> Seq<Seq<char>> {
    list.map_values(|s: String| s@)
}

/// The characters of a text that may be missing.
pub open spec fn optional_text(text: Option<String>) -> Option<Seq<char>> {
    match text {
        Some(s) => Some(s@),
        None => None,
    }
}

/// The characters of a borrowed text that may be missing.
pub open spec fn optional_slice_text(text: Option<&str>) -> Option<Seq<char>> {
    match text {
        Some(s) => Some(s@),
        None => None,
    }
}

/// What makes two offers the same dish: name, prices and dietary flags.
/// Nutrition values, picture, category and places are no part of it.
pub struct DishIdentity {
    pub name: Seq<char>,
    pub price: DishPrices,
    pub vegetarian: bool,
    pub vegan: bool,
}

/// The mathematical value of a [`Dish`].
pub struct DishView {
    pub name: Seq<char>,
    pub image_src: Option<Seq<char>>,
    pub price: DishPrices,
    pub vegetarian: bool,
    pub vegan: bool,
    pub dish_type: DishType,
    pub nutrition_values: NutritionValues,
    pub extras: Seq<Seq<char>>,
    pub canteens: Seq<Canteen>,
}

impl DishView {
    /// The part of the dish by which it is told apart from others.
    pub open spec fn identity(self) -> DishIdentity {
        DishIdentity {
            name: self.name,
            price: self.price,
            vegetarian: self.vegetarian,
            vegan: self.vegan,
        }
    }

    /// The same dish, served at `canteens`.
    pub open spec fn with_canteens(self, canteens: Seq<Canteen>) -> DishView {
        DishView { canteens, ..self }
    }

    /// Whether two offers are the same dish.
    pub open spec fn same_as(self, other: DishView) -> bool {
        self.identity() == other.identity()
    }
}

/// The mathematical values of a list of dishes.
pub open spec fn dish_views(list: Seq<Dish>) -> Seq<DishView> {
    list.map_values(|d: Dish| d@)
}

/// Whether some dish of `list` is the same dish as `d`.
pub open spec fn offers(list: Seq<DishView>, d: DishView) -> bool {
    exists|i: int| 0 <= i < list.len() && (#[trigger] list[i]).same_as(d)
}

/// Whether `list` holds a dish of the given identity.
pub open spec fn has_dish(list: Seq<DishView>, id: DishIdentity) -> bool {
    exists|i: int| 0 <= i < list.len() && (#[trigger] list[i]).identity() == id
}

/// Whether `list` holds a dish of the given identity that is served at
/// `canteen`.
pub open spec fn serves(list: Seq<DishView>, id: DishIdentity, canteen: Canteen) -> bool {
    exists|i: int|
        0 <= i < list.len() && (#[trigger] list[i]).identity() == id && list[i].canteens.contains(
            canteen,
        )
}

/// Whether two lists offer the same dishes at the same halls, whatever the
/// order of their entries and however the halls of a dish are spread over
/// entries.
pub open spec fn same_offer(x: Seq<DishView>, y: Seq<DishView>) -> bool {
    &&& forall|id: DishIdentity| has_dish(x, id) == has_dish(y, id)
    &&& forall|id: DishIdentity, canteen: Canteen| serves(x, id, canteen) == serves(y, id, canteen)
}

/// Whether no two dishes of `list` are the same dish.
pub open spec fn all_distinct(list: Seq<DishView>) -> bool {
    forall|i: int, j: int| 0 <= i < j < list.len() ==> !(#[trigger] list[i]).same_as(#[trigger] list[j])
}

/// The label that marks a dish as vegan.
pub open spec fn vegan_label() -> Seq<char> {
    "vegan"@
}

/// The label that marks a dish as vegetarian.
pub open spec fn vegetarian_label() -> Seq<char> {
    "vegetarisch"@
}

/// A dish. A vegan dish is always vegetarian as well.
#[derive(Debug, PartialEq, Eq)]
pub struct Dish {
    name: String,
    image_src: Option<String>,
    price: DishPrices,
    vegetarian: bool,
    vegan: bool,
    dish_type: DishType,
    nutrition_values: NutritionValues,
    extras: Vec<String>,
    canteens: Vec<Canteen>,
}

impl View for Dish {
    type V = DishView;

    closed spec fn view(&self) -> DishView {
        DishView {
            name: self.name@,
            image_src: optional_text(self.image_src),
            price: self.price,
            vegetarian: self.vegetarian,
            vegan: self.vegan,
            dish_type: self.dish_type,
            nutrition_values: self.nutrition_values,
            extras: texts(self.extras@),
            canteens: self.canteens@,
        }
    }
}

/// Tells whether `label` occurs among `extras`.
pub fn has_label(extras: &Vec<String>, label: &str) -> (r: bool)
    ensures
        r == texts(extras@).contains(label@),
{
    let mut i: usize = 0;
    while i < extras.len()
        invariant
            i <= extras.len(),
            forall|k: int| 0 <= k < i ==> texts(extras@)[k] != label@,
        decreases extras.len() - i,
    {
        if text_eq(extras[i].as_str(), label) {
            assert(texts(extras@)[i as int] == label@);
            return true;
        }
        i += 1;
    }
    false
}

/// Copies a list of texts.
pub fn copy_texts(list: &Vec<String>) -> (r: Vec<String>)
    ensures
        texts(r@) == texts(list@),
{
    let mut out: Vec<String> = Vec::new();
    let mut i: usize = 0;
    while i < list.len()
        invariant
            i <= list.len(),
            out@.len() == i,
            forall|k: int| 0 <= k < i ==> out@[k]@ == list@[k]@,
        decreases list.len() - i,
    {
        out.push(list[i].clone());
        i += 1;
    }
    out
}

/// Copies a list of halls.
fn copy_canteens(list: &Vec<Canteen>) -> (r: Vec<Canteen>)
    ensures
        r@ == list@,
{
    let mut out: Vec<Canteen> = Vec::new();
    let mut i: usize = 0;
    while i < list.len()
        invariant
            i <= list.len(),
            out@ == list@.take(i as int),
        decreases list.len() - i,
    {
        out.push(list[i]);
        i += 1;
    }
    out
}

impl Dish {
    #[verifier::type_invariant]
    spec fn vegan_is_vegetarian(self) -> bool {
        self.vegan ==> self.vegetarian
    }

    /// Makes a dish as it was read from a menu page. Its dietary flags come
    /// from the labels among `extras`: the vegan label makes it vegan and
    /// vegetarian, the vegetarian label vegetarian.
    pub fn new(
        name: String,
        image_src: Option<String>,
        price: DishPrices,
        extras: Vec<String>,
        dish_type: DishType,
        nutrition_values: NutritionValues,
        canteens: Vec<Canteen>,
    ) -> (d: Dish)
        ensures
            d@ == (DishView {
                name: name@,
                image_src: optional_text(image_src),
                price,
                vegetarian: texts(extras@).contains(vegan_label()) || texts(extras@).contains(
                    vegetarian_label(),
                ),
                vegan: texts(extras@).contains(vegan_label()),
                dish_type,
                nutrition_values,
                extras: texts(extras@),
                canteens: canteens@,
            }),
    {
        let vegan = has_label(&extras, "vegan");
        let vegetarian = vegan || has_label(&extras, "vegetarisch");
        Dish {
            name,
            image_src,
            price,
            vegetarian,
            vegan,
            dish_type,
            nutrition_values,
            extras,
            canteens,
        }
    }

    /// Makes a dish from what storage holds of it. The dish carries no
    /// labels; a dish stored as vegan is vegetarian too.
    pub fn from_stored(
        name: String,
        image_src: Option<String>,
        price: DishPrices,
        vegetarian: bool,
        vegan: bool,
        dish_type: DishType,
        nutrition_values: NutritionValues,
        canteens: Vec<Canteen>,
    ) -> (d: Dish)
        ensures
            d@ == (DishView {
                name: name@,
                image_src: optional_text(image_src),
                price,
                vegetarian: vegetarian || vegan,
                vegan,
                dish_type,
                nutrition_values,
                extras: Seq::<Seq<char>>::empty(),
                canteens: canteens@,
            }),
    {
        let extras: Vec<String> = Vec::new();
        assert(texts(extras@) =~= Seq::<Seq<char>>::empty());
        Dish {
            name,
            image_src,
            price,
            vegetarian: vegetarian || vegan,
            vegan,
            dish_type,
            nutrition_values,
            extras,
            canteens,
        }
    }

    /// Returns the name.
    pub fn get_name(&self) -> (s: &str)
        ensures
            s@ == self@.name,
    {
        self.name.as_str()
    }

    /// Returns the address of the picture, if the dish has one.
    pub fn get_image_src(&self) -> (s: Option<&str>)
        ensures
            optional_slice_text(s) == self@.image_src,
    {
        match &self.image_src {
            Some(s) => Some(s.as_str()),
            None => None,
        }
    }

    /// Returns the three prices.
    pub fn get_prices(&self) -> (p: DishPrices)
        ensures
            p == self@.price,
    {
        self.price
    }

    /// Returns the price for students.
    pub fn get_price_students(&self) -> (p: Decimal)
        ensures
            p == self@.price.students,
    {
        self.price.students
    }

    /// Returns the price for employees.
    pub fn get_price_employees(&self) -> (p: Decimal)
        ensures
            p == self@.price.employees,
    {
        self.price.employees
    }

    /// Returns the price for guests.
    pub fn get_price_guests(&self) -> (p: Decimal)
        ensures
            p == self@.price.guests,
    {
        self.price.guests
    }

    /// Tells whether the dish is vegan.
    pub fn is_vegan(&self) -> (r: bool)
        ensures
            r == self@.vegan,
            r ==> self@.vegetarian,
    {
        proof {
            use_type_invariant(self);
        }
        self.vegan
    }

    /// Tells whether the dish is vegetarian; every vegan dish is.
    pub fn is_vegetarian(&self) -> (r: bool)
        ensures
            r == self@.vegetarian,
            self@.vegan ==> r,
    {
        proof {
            use_type_invariant(self);
        }
        self.vegetarian
    }

    /// Returns the labels the dish was read with.
    pub fn get_extras(&self) -> (e: &[String])
        ensures
            texts(e@) == self@.extras,
    {
        self.extras.as_slice()
    }

    /// Returns the category.
    pub fn get_type(&self) -> (t: DishType)
        ensures
            t == self@.dish_type,
    {
        self.dish_type
    }

    /// Returns what is known of the nutritional value.
    pub fn get_nutrition_values(&self) -> (n: NutritionValues)
        ensures
            n == self@.nutrition_values,
    {
        self.nutrition_values
    }

    /// Returns the halls that serve the dish.
    pub fn get_canteens(&self) -> (c: &[Canteen])
        ensures
            c@ == self@.canteens,
    {
        self.canteens.as_slice()
    }

    /// Tells whether two offers are the same dish: whether they agree in
    /// name, in all three prices and in both dietary flags.
    pub fn same_as(&self, other: &Self) -> (r: bool)
        ensures
            r == self@.same_as(other@),
    {
        self.name == other.name && self.price == other.price && self.vegetarian == other.vegetarian
            && self.vegan == other.vegan
    }

    /// Takes over the halls of `other`: afterwards the dish is served
    /// wherever either was, each hall once, sorted by identifier.
    pub fn merge(&mut self, other: Self)
        ensures
            final(self)@ == old(self)@.with_canteens(
                canteen_union(old(self)@.canteens, other@.canteens),
            ),
    {
        proof {
            use_type_invariant(&*self);
        }
        self.canteens = union_of(self.canteens.as_slice(), other.canteens.as_slice());
    }

    /// The same dish, served at `canteen` alone.
    pub fn at_canteen(self, canteen: Canteen) -> (d: Dish)
        ensures
            d@ == self@.with_canteens(seq![canteen]),
    {
        proof {
            use_type_invariant(&self);
        }
        let mut d = self;
        let mut canteens: Vec<Canteen> = Vec::new();
        canteens.push(canteen);
        d.canteens = canteens;
        d
    }
}

/// Tells whether some dish of `list` is the same dish as `d`.
pub fn offered_by(list: &[Dish], d: &Dish) -> (r: bool)
    ensures
        r == offers(dish_views(list@), d@),
{
    let mut i: usize = 0;
    while i < list.len()
        invariant
            i <= list.len(),
            forall|k: int| 0 <= k < i ==> !(#[trigger] dish_views(list@)[k]).same_as(d@),
        decreases list.len() - i,
    {
        if list[i].same_as(d) {
            assert(dish_views(list@)[i as int].same_as(d@));
            return true;
        }
        i += 1;
    }
    false
}

impl Clone for Dish {
    fn clone(&self) -> (d: Dish)
        ensures
            d@ == self@,
    {
        proof {
            use_type_invariant(self);
        }
        let image_src = match &self.image_src {
            Some(s) => Some(s.clone()),
            None => None,
        };
        Dish {
            name: self.name.clone(),
            image_src,
            price: self.price,
            vegetarian: self.vegetarian,
            vegan: self.vegan,
            dish_type: self.dish_type,
            nutrition_values: self.nutrition_values,
            extras: copy_texts(&self.extras),
            canteens: copy_canteens(&self.canteens),
        }
    }
}

} // verus!
