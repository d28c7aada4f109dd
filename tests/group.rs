use ambrosia::{Diet, Ingredient, IngredientGroup};

fn group_of(names: &[&str]) -> IngredientGroup {
    let mut g = IngredientGroup::new();
    for n in names {
        g.merge_ingredient(Ingredient::new(n));
    }
    g
}

fn sorted(items: &[Ingredient]) -> Vec<String> {
    let mut v: Vec<String> = items.iter().map(|i| i.as_str().to_string()).collect();
    v.sort();
    v
}

#[test]
fn merge_ingredient_twice_keeps_one() {
    let mut g = IngredientGroup::default();
    g.merge_ingredient(Ingredient::new("camembert"));
    g.merge_ingredient(Ingredient::new("Camembert"));
    assert_eq!(g.ingredients().len(), 1);
    assert!(g.contains(&Ingredient::new("CAMEMBERT")));
    assert!(!g.contains(&Ingredient::new("brie")));
}

#[test]
fn merge_group_is_commutative() {
    let a = group_of(&["brie", "feta"]);
    let b = group_of(&["feta", "gouda"]);
    let mut ab = a.duplicate();
    ab.merge_group(&b);
    let mut ba = b.duplicate();
    ba.merge_group(&a);
    assert_eq!(ab, ba);
    assert_eq!(sorted(ab.ingredients()), vec!["brie", "feta", "gouda"]);
}

#[test]
fn merge_group_with_itself_changes_nothing() {
    let a = group_of(&["brie", "feta"]);
    let mut aa = a.duplicate();
    aa.merge_group(&a);
    assert_eq!(aa, a);
    assert_eq!(aa.ingredients().len(), 2);
}

#[test]
fn empty_group_has_no_ingredients() {
    let g = IngredientGroup::new();
    assert!(g.ingredients().is_empty());
    assert_eq!(g, IngredientGroup::default());
}

#[test]
fn diet_merge_group_bans_members() {
    let mut d = Diet::default();
    d.merge_ingredient(Ingredient::new("Gelatin"));
    d.merge_group(&group_of(&["milk", "cheese"]));
    assert!(d.disallows(&Ingredient::new("MILK")));
    assert!(d.disallows(&Ingredient::new("gelatin")));
    assert!(!d.disallows(&Ingredient::new("rice")));
    assert_eq!(sorted(d.banned_ingredients()), vec!["cheese", "gelatin", "milk"]);
}

#[test]
fn diet_merge_diet_unions_banlists() {
    let mut a = Diet::new();
    a.merge_ingredient(Ingredient::new("egg"));
    let mut b = Diet::new();
    b.merge_ingredient(Ingredient::new("honey"));
    b.merge_ingredient(Ingredient::new("egg"));
    a.merge_diet(&b);
    assert_eq!(sorted(a.banned_ingredients()), vec!["egg", "honey"]);
}
