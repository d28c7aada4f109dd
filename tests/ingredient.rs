use ambrosia::Ingredient;

#[test]
fn ingredient_case_is_ignored() {
    assert_eq!(Ingredient::new("BRIE"), Ingredient::new("brie"));
    assert_eq!(Ingredient::new("Brie").as_str(), "brie");
}

#[test]
fn ingredient_normalizing_twice_changes_nothing() {
    for text in ["BRIE", "Fish Sauce", "ÉCLAIR", "ΣΊΣΥΦΟΣ", "", "already lower"] {
        let once = Ingredient::new(text);
        let twice = Ingredient::new(once.as_str());
        assert_eq!(once, twice);
        assert_eq!(once.as_str(), text.to_lowercase());
    }
}

#[test]
fn ingredient_empty_text_is_accepted() {
    assert_eq!(Ingredient::new("").as_str(), "");
}

#[test]
fn ingredient_copies_are_equal() {
    let i = Ingredient::new("Gouda");
    assert_eq!(i.duplicate(), i);
    assert_eq!(i.to_text(), "gouda".to_string());
    assert_ne!(Ingredient::new("gouda"), Ingredient::new("feta"));
}
