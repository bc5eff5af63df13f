use mensa_upb::dish_type::DishType;

#[test]
fn categories_have_lowercase_names() {
    assert_eq!(DishType::Main.get_identifier(), "main");
    assert_eq!(DishType::Side.get_identifier(), "side");
    assert_eq!(DishType::Dessert.get_identifier(), "dessert");
    assert_eq!(DishType::Main.to_string(), "main");
    assert_eq!(DishType::Dessert.to_string(), "dessert".to_string());
}

#[test]
fn names_are_read_back() {
    for t in [DishType::Main, DishType::Side, DishType::Dessert] {
        assert_eq!(DishType::parse(t.get_identifier()), Some(t));
    }
    assert_eq!(DishType::parse("Main"), None);
    assert_eq!(DishType::parse("soup"), None);
    assert_eq!(DishType::parse(""), None);
}
