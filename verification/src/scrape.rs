//! Dishes as a menu page prints them: the texts that stand on the page, and
//! the dish they come to.

use vstd::prelude::*;
use vstd::string::*;
use crate::decimal::{
    grams_of_text, grams_to_bigdecimal, price_of_text, price_to_bigdecimal, Decimal, DishPrices,
    NutritionValues,
};
use crate::dish::{
    copy_texts, optional_text, texts, vegan_label, vegetarian_label, Dish, DishView,
};
use crate::canteen::Canteen;
use crate::dish_type::DishType;
use crate::text::{
    first_word, first_word_of, i32_of_text, join, joined, parse_i32, starts_with, strip_prefix,
    text_eq, trim, trim_end_matches, trimmed, without_suffix,
};

verus! {

/// One price line of a dish: whom the price is for, and the amount. Either
/// text may be missing on the page.
#[derive(Debug, Clone, PartialEq, Eq)]
pub struct PriceElement {
    pub label: Option<String>,
    pub value: Option<String>,
}

/// What the page prints of a dish in its row.
#[derive(Debug, Clone, PartialEq, Eq)]
pub struct DishElement {
    /// The pieces of text of the heading; `None` where the row has no
    /// heading.
    pub name: Option<Vec<String>>,
    /// The path of the picture, if the row shows one.
    pub image_src: Option<String>,
    /// The price lines, in the order of the page.
    pub prices: Vec<PriceElement>,
    /// The titles of the labels that mark the dish.
    pub extras: Vec<String>,
}

/// What the page prints of a dish in its detail row.
#[derive(Debug, Clone, PartialEq, Eq)]
pub struct DetailsElement {
    /// The pieces of text of the nutrition paragraph; `None` where there is
    /// no such paragraph.
    pub nutritions: Option<Vec<String>>,
}

/// The mathematical value of a [`PriceElement`].
pub struct PriceElementView {
    pub label: Option<Seq<char>>,
    pub value: Option<Seq<char>>,
}

impl View for PriceElement {
    type V = PriceElementView;

    open spec fn view(&self) -> PriceElementView {
        PriceElementView { label: optional_text(self.label), value: optional_text(self.value) }
    }
}

/// The mathematical value of a [`DishElement`].
pub struct DishElementView {
    pub name: Option<Seq<Seq<char>>>,
    pub image_src: Option<Seq<char>>,
    pub prices: Seq<PriceElementView>,
    pub extras: Seq<Seq<char>>,
}

impl View for DishElement {
    type V = DishElementView;

    open spec fn view(&self) -> DishElementView {
        DishElementView {
            name: match self.name {
                Some(parts) => Some(texts(parts@)),
                None => None,
            },
            image_src: optional_text(self.image_src),
            prices: self.prices@.map_values(|p: PriceElement| p@),
            extras: texts(self.extras@),
        }
    }
}

/// The address under which the pictures of the page lie.
pub open spec fn image_base() -> Seq<char> {
    "https://www.studierendenwerk-pb.de/"@
}

/// The label of the price for students.
pub open spec fn students_label() -> Seq<char> {
    "Studierende"@
}

/// The label of the price for employees.
pub open spec fn employees_label() -> Seq<char> {
    "Bedienstete"@
}

/// The label of the price for guests.
pub open spec fn guests_label() -> Seq<char> {
    "G\u{e4}ste"@
}

/// The colon that ends a price label.
pub open spec fn colon() -> Seq<char> {
    ":"@
}

/// Whom a price line is for: its label without the white space around it
/// and without the colon at its end. `None` where a text of the line is
/// missing.
pub open spec fn price_label(line: PriceElementView) -> Option<Seq<char>> {
    match (line.label, line.value) {
        (Some(label), Some(_)) => Some(without_suffix(trimmed(label), colon())),
        _ => None,
    }
}

/// The amount text of the first price line that is for `label`; `None`
/// where no line is.
pub open spec fn price_text_for(lines: Seq<PriceElementView>, label: Seq<char>) -> Option<Seq<char>>
    decreases lines.len(),
{
    if lines.len() == 0 {
        None
    } else if price_label(lines[0]) == Some(label) {
        Some(trimmed(lines[0].value->0))
    } else {
        price_text_for(lines.drop_first(), label)
    }
}

/// The price for `label` among the price lines; `None` where no line is for
/// it.
pub open spec fn price_for(lines: Seq<PriceElementView>, label: Seq<char>) -> Option<Decimal> {
    match price_text_for(lines, label) {
        Some(text) => Some(price_of_text(Some(text))),
        None => None,
    }
}

/// The words that open the energy line of the nutrition paragraph.
pub open spec fn energy_prefix() -> Seq<char> {
    "Brennwert = "@
}

/// The words that open the protein line of the nutrition paragraph.
pub open spec fn protein_prefix() -> Seq<char> {
    "Eiwei\u{df} = "@
}

/// The words that open the carbohydrates line of the nutrition paragraph.
pub open spec fn carbs_prefix() -> Seq<char> {
    "Kohlenhydrate = "@
}

/// The words that open the fat line of the nutrition paragraph.
pub open spec fn fat_prefix() -> Seq<char> {
    "Fett = "@
}

/// The energy that the rest of an energy line gives: its first word, read
/// as an integer.
pub open spec fn energy_of(rest: Seq<char>) -> Option<i32> {
    match first_word(rest) {
        Some(word) => i32_of_text(word),
        None => None,
    }
}

/// The nutrition values after one more piece of text has been read. A
/// piece that opens with one of the known words sets that value, also to
/// "missing" where it cannot be read; any other piece changes nothing.
pub open spec fn with_line(values: NutritionValues, piece: Seq<char>) -> NutritionValues {
    let line = trimmed(piece);
    if line.len() == 0 {
        values
    } else if starts_with(line, energy_prefix()) {
        NutritionValues { kjoule: energy_of(line.skip(energy_prefix().len() as int)), ..values }
    } else if starts_with(line, protein_prefix()) {
        NutritionValues {
            protein: grams_of_text(line.skip(protein_prefix().len() as int)),
            ..values
        }
    } else if starts_with(line, carbs_prefix()) {
        NutritionValues { carbs: grams_of_text(line.skip(carbs_prefix().len() as int)), ..values }
    } else if starts_with(line, fat_prefix()) {
        NutritionValues { fat: grams_of_text(line.skip(fat_prefix().len() as int)), ..values }
    } else {
        values
    }
}

/// The nutrition values that the pieces of a nutrition paragraph give,
/// read in their order.
pub open spec fn nutrition_of(pieces: Seq<Seq<char>>) -> NutritionValues
    decreases pieces.len(),
{
    if pieces.len() == 0 {
        NutritionValues::spec_unknown()
    } else {
        with_line(nutrition_of(pieces.drop_last()), pieces.last())
    }
}

/// The dish that a row and its detail row come to; `None` where the row
/// has no heading or lacks one of the three prices.
pub open spec fn dish_of_element(
    element: DishElementView,
    nutritions: Option<Seq<Seq<char>>>,
    dish_type: DishType,
) -> Option<DishView> {
    match (
        element.name,
        price_for(element.prices, students_label()),
        price_for(element.prices, employees_label()),
        price_for(element.prices, guests_label()),
    ) {
        (Some(name), Some(students), Some(employees), Some(guests)) => Some(
            DishView {
                name: trimmed(joined(name)),
                image_src: match element.image_src {
                    Some(path) => Some(image_base() + path),
                    None => None,
                },
                price: DishPrices { students, employees, guests },
                vegetarian: element.extras.contains(vegan_label()) || element.extras.contains(
                    vegetarian_label(),
                ),
                vegan: element.extras.contains(vegan_label()),
                dish_type,
                nutrition_values: match nutritions {
                    Some(pieces) => nutrition_of(pieces),
                    None => NutritionValues::spec_unknown(),
                },
                extras: element.extras,
                canteens: Seq::<Canteen>::empty(),
            },
        ),
        _ => None,
    }
}

/// Finds the price for `label` among the price lines.
pub fn find_price(lines: &[PriceElement], label: &str) -> (price: Option<Decimal>)
    ensures
        price == price_for(lines@.map_values(|p: PriceElement| p@), label@),
{
    let ghost all = lines@.map_values(|p: PriceElement| p@);
    let mut i: usize = 0;
    assert(all.skip(0) =~= all);
    while i < lines.len()
        invariant
            i <= lines.len(),
            all == lines@.map_values(|p: PriceElement| p@),
            price_text_for(all, label@) == price_text_for(all.skip(i as int), label@),
        decreases lines.len() - i,
    {
        proof {
            assert(all.skip(i as int).drop_first() =~= all.skip(i + 1));
        }
        let line = &lines[i];
        match (&line.label, &line.value) {
            (Some(l), Some(v)) => {
                let who = trim_end_matches(trim(l.as_str()), ":");
                if text_eq(who, label) {
                    return Some(price_to_bigdecimal(Some(trim(v.as_str()))));
                }
            },
            _ => {},
        }
        i += 1;
    }
    None
}

/// Reads one more piece of the nutrition paragraph.
pub fn read_nutrition_line(values: NutritionValues, piece: &str) -> (r: NutritionValues)
    ensures
        r == with_line(values, piece@),
{
    let line = trim(piece);
    if line.unicode_len() == 0 {
        return values;
    }
    if let Some(rest) = strip_prefix(line, "Brennwert = ") {
        let kjoule = match first_word_of(rest) {
            Some(word) => parse_i32(word),
            None => None,
        };
        return NutritionValues { kjoule, ..values };
    }
    if let Some(rest) = strip_prefix(line, "Eiwei\u{df} = ") {
        return NutritionValues { protein: grams_to_bigdecimal(rest), ..values };
    }
    if let Some(rest) = strip_prefix(line, "Kohlenhydrate = ") {
        return NutritionValues { carbs: grams_to_bigdecimal(rest), ..values };
    }
    if let Some(rest) = strip_prefix(line, "Fett = ") {
        return NutritionValues { fat: grams_to_bigdecimal(rest), ..values };
    }
    values
}

/// Reads the nutrition values from the pieces of a nutrition paragraph.
pub fn read_nutrition(pieces: &[String]) -> (values: NutritionValues)
    ensures
        values == nutrition_of(texts(pieces@)),
{
    let ghost all = texts(pieces@);
    let mut values = NutritionValues::unknown();
    let mut i: usize = 0;
    while i < pieces.len()
        invariant
            i <= pieces.len(),
            all == texts(pieces@),
            values == nutrition_of(all.take(i as int)),
        decreases pieces.len() - i,
    {
        proof {
            assert(all.take(i + 1).drop_last() =~= all.take(i as int));
        }
        values = read_nutrition_line(values, pieces[i].as_str());
        i += 1;
    }
    assert(all.take(pieces.len() as int) =~= all);
    values
}

impl Dish {
    /// Makes the dish that a row of the menu page and its detail row come
    /// to. `None` where the row has no heading or lacks the price for
    /// students, employees or guests. The dish is served nowhere yet.
    pub fn from_element(element: &DishElement, details: &DetailsElement, dish_type: DishType) -> (d:
        Option<Dish>)
        ensures
            match d {
                Some(dish) => dish_of_element(
                    element@,
                    match details.nutritions {
                        Some(pieces) => Some(texts(pieces@)),
                        None => None,
                    },
                    dish_type,
                ) == Some(dish@),
                None => dish_of_element(
                    element@,
                    match details.nutritions {
                        Some(pieces) => Some(texts(pieces@)),
                        None => None,
                    },
                    dish_type,
                ) is None,
            },
    {
        let name = match &element.name {
            Some(parts) => {
                let whole = join(parts.as_slice());
                String::from_str(trim(whole.as_str()))
            },
            None => {
                return None;
            },
        };
        let students = match find_price(element.prices.as_slice(), "Studierende") {
            Some(p) => p,
            None => {
                return None;
            },
        };
        let employees = match find_price(element.prices.as_slice(), "Bedienstete") {
            Some(p) => p,
            None => {
                return None;
            },
        };
        let guests = match find_price(element.prices.as_slice(), "G\u{e4}ste") {
            Some(p) => p,
            None => {
                return None;
            },
        };
        let image_src = match &element.image_src {
            Some(path) => Some(
                String::from_str("https://www.studierendenwerk-pb.de/").concat(path.as_str()),
            ),
            None => None,
        };
        let nutrition_values = match &details.nutritions {
            Some(pieces) => read_nutrition(pieces.as_slice()),
            None => NutritionValues::unknown(),
        };
        let halls: Vec<Canteen> = Vec::new();
        Some(
            Dish::new(
                name,
                image_src,
                DishPrices { students, employees, guests },
                copy_texts(&element.extras),
                dish_type,
                nutrition_values,
                halls,
            ),
        )
    }
}

} // verus!
