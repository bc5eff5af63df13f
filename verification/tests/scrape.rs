use mensa_upb::decimal::{Decimal, NutritionValues};
use mensa_upb::dish::Dish;
use mensa_upb::dish_type::DishType;
use mensa_upb::scrape::{
    find_price, read_nutrition, read_nutrition_line, DetailsElement, DishElement, PriceElement,
};

fn line(label: &str, value: &str) -> PriceElement {
    PriceElement { label: Some(label.to_string()), value: Some(value.to_string()) }
}

fn row() -> DishElement {
    DishElement {
        name: Some(vec!["\n  Schnitzel ".to_string(), "Wiener Art\n".to_string()]),
        image_src: Some("fileadmin/schnitzel.jpg".to_string()),
        prices: vec![
            line("Studierende:", " 3,50 \u{20ac} "),
            line(" Bedienstete: ", "5,50 \u{20ac}"),
            line("G\u{e4}ste:", "7,50 \u{20ac}"),
        ],
        extras: vec!["Schwein".to_string(), "vegetarisch".to_string()],
    }
}

fn details() -> DetailsElement {
    DetailsElement {
        nutritions: Some(vec![
            " Brennwert = 2100 kJ (502 kcal) ".to_string(),
            "".to_string(),
            "Eiwei\u{df} = 25,5g".to_string(),
            "Kohlenhydrate = 40,0g".to_string(),
            "Fett = 12,25g".to_string(),
            "Salz = 1,0g".to_string(),
        ]),
    }
}

#[test]
fn a_row_comes_to_a_dish() {
    let dish = Dish::from_element(&row(), &details(), DishType::Main).unwrap();
    assert_eq!(dish.get_name(), "Schnitzel Wiener Art");
    assert_eq!(
        dish.get_image_src(),
        Some("https://www.studierendenwerk-pb.de/fileadmin/schnitzel.jpg")
    );
    assert_eq!(dish.get_price_students(), Decimal::from_hundredths(350));
    assert_eq!(dish.get_price_employees(), Decimal::from_hundredths(550));
    assert_eq!(dish.get_price_guests(), Decimal::from_hundredths(750));
    assert_eq!(dish.get_extras(), &["Schwein".to_string(), "vegetarisch".to_string()]);
    assert!(dish.is_vegetarian());
    assert!(!dish.is_vegan());
    assert_eq!(dish.get_type(), DishType::Main);
    assert!(dish.get_canteens().is_empty());
    assert_eq!(
        dish.get_nutrition_values(),
        NutritionValues {
            kjoule: Some(2100),
            protein: Some(Decimal::from_hundredths(2550)),
            carbs: Some(Decimal::from_hundredths(4000)),
            fat: Some(Decimal::from_hundredths(1225)),
        }
    );
}

#[test]
fn a_row_without_heading_or_price_comes_to_nothing() {
    let mut no_name = row();
    no_name.name = None;
    assert_eq!(Dish::from_element(&no_name, &details(), DishType::Main), None);
    for missing in 0..3 {
        let mut e = row();
        e.prices.remove(missing);
        assert_eq!(Dish::from_element(&e, &details(), DishType::Main), None);
    }
    let mut half = row();
    half.prices[0].value = None;
    assert_eq!(Dish::from_element(&half, &details(), DishType::Main), None);
}

#[test]
fn a_bare_row_comes_to_a_bare_dish() {
    let e = DishElement {
        name: Some(vec![]),
        image_src: None,
        prices: vec![
            line("G\u{e4}ste", "x"),
            line("Bedienstete", ""),
            line("Studierende", "1"),
            line("Studierende", "2"),
        ],
        extras: vec!["vegan".to_string()],
    };
    let dish = Dish::from_element(&e, &DetailsElement { nutritions: None }, DishType::Dessert)
        .unwrap();
    assert_eq!(dish.get_name(), "");
    assert_eq!(dish.get_image_src(), None);
    assert_eq!(dish.get_price_students(), Decimal::from_hundredths(100));
    assert_eq!(dish.get_price_employees(), Decimal::from_hundredths(99_999));
    assert_eq!(dish.get_price_guests(), Decimal::from_hundredths(99_999));
    assert!(dish.is_vegan());
    assert!(dish.is_vegetarian());
    assert_eq!(dish.get_type(), DishType::Dessert);
    assert_eq!(dish.get_nutrition_values(), NutritionValues::unknown());
}

#[test]
fn the_first_line_for_a_label_gives_the_price() {
    let lines = vec![
        PriceElement { label: None, value: Some("1".to_string()) },
        PriceElement { label: Some("Studierende".to_string()), value: None },
        line("studierende:", "2"),
        line("\tStudierende::: ", " 3,00 \u{20ac}"),
        line("Studierende", "4"),
    ];
    assert_eq!(find_price(&lines, "Studierende"), Some(Decimal::from_hundredths(300)));
    assert_eq!(find_price(&lines, "studierende"), Some(Decimal::from_hundredths(200)));
    assert_eq!(find_price(&lines, "Bedienstete"), None);
    assert_eq!(find_price(&[], "Studierende"), None);
}

#[test]
fn nutrition_lines_set_their_value_and_later_lines_win() {
    let start = NutritionValues::unknown();
    let energy = read_nutrition_line(start, "Brennwert = 900 kJ");
    assert_eq!(energy.kjoule, Some(900));
    assert_eq!(read_nutrition_line(energy, "Brennwert = viel").kjoule, None);
    assert_eq!(read_nutrition_line(energy, "Brennwert =  kJ").kjoule, None);
    assert_eq!(read_nutrition_line(energy, "Brennwert = ").kjoule, Some(900));
    assert_eq!(read_nutrition_line(energy, "Brennwert =900").kjoule, Some(900));
    assert_eq!(read_nutrition_line(energy, "   ").kjoule, Some(900));
    assert_eq!(read_nutrition_line(energy, "Fett = 1g").kjoule, Some(900));
    assert_eq!(read_nutrition_line(energy, "Fett = 1g").fat, Some(Decimal::from_hundredths(100)));
    let all = read_nutrition(&[
        "Fett = 1g".to_string(),
        "Fett = 2,5g".to_string(),
        "Kohlenhydrate = x".to_string(),
        "Eiwei\u{df} = 3 g".to_string(),
    ]);
    assert_eq!(
        all,
        NutritionValues {
            kjoule: None,
            protein: Some(Decimal::from_hundredths(300)),
            carbs: None,
            fat: Some(Decimal::from_hundredths(250)),
        }
    );
    assert_eq!(read_nutrition(&[]), NutritionValues::unknown());
}
