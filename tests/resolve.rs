use ambrosia::{
    flatten_diets, flatten_groups, Diet, Ingredient, IngredientGroup, NameMap, RawDiet, RawGroup,
    TaxonomyError,
};

fn group_of(names: &[&str]) -> IngredientGroup {
    let mut g = IngredientGroup::new();
    for n in names {
        g.merge_ingredient(Ingredient::new(n));
    }
    g
}

fn raw_group(names: &[&str], subgroups: &[&str]) -> RawGroup {
    RawGroup {
        ingredients: group_of(names),
        subgroups: subgroups.iter().map(|s| s.to_string()).collect(),
    }
}

fn sorted(items: &[Ingredient]) -> Vec<String> {
    let mut v: Vec<String> = items.iter().map(|i| i.as_str().to_string()).collect();
    v.sort();
    v
}

#[test]
fn subgroup_ingredients_are_merged() {
    let mut raw = NameMap::new();
    raw.insert_new("x".to_string(), raw_group(&["salt"], &[]));
    raw.insert_new("seasoning".to_string(), raw_group(&["pepper"], &["x"]));
    let out = flatten_groups(&raw).expect("resolves");
    assert_eq!(out.len(), 2);
    let g = out.get("seasoning").unwrap();
    assert_eq!(sorted(g.ingredients()), vec!["pepper", "salt"]);
    assert_eq!(sorted(out.get("x").unwrap().ingredients()), vec!["salt"]);
}

#[test]
fn subgroups_reach_one_level_only() {
    let mut raw = NameMap::new();
    raw.insert_new("a".to_string(), raw_group(&["one"], &["b"]));
    raw.insert_new("b".to_string(), raw_group(&["two"], &["c"]));
    raw.insert_new("c".to_string(), raw_group(&["three"], &[]));
    let out = flatten_groups(&raw).expect("resolves");
    assert_eq!(sorted(out.get("a").unwrap().ingredients()), vec!["one", "two"]);
    assert_eq!(sorted(out.get("b").unwrap().ingredients()), vec!["three", "two"]);
}

#[test]
fn subgroup_order_does_not_matter() {
    let mut raw = NameMap::new();
    raw.insert_new("a".to_string(), raw_group(&["apple"], &[]));
    raw.insert_new("b".to_string(), raw_group(&["banana"], &[]));
    raw.insert_new("ab".to_string(), raw_group(&["cherry"], &["a", "b"]));
    raw.insert_new("ba".to_string(), raw_group(&["cherry"], &["b", "a", "b"]));
    let out = flatten_groups(&raw).expect("resolves");
    assert_eq!(out.get("ab").unwrap(), out.get("ba").unwrap());
}

#[test]
fn unknown_subgroup_fails_with_names() {
    let mut raw = NameMap::new();
    raw.insert_new("fine".to_string(), raw_group(&["rice"], &[]));
    raw.insert_new("broken".to_string(), raw_group(&["salt"], &["nonexistent"]));
    match flatten_groups(&raw) {
        Err(TaxonomyError::UnresolvedReference { record, reference }) => {
            assert_eq!(record, "broken");
            assert_eq!(reference, "nonexistent");
        }
        other => panic!("unexpected {:?}", other),
    }
}

#[test]
fn empty_group_batch_resolves_to_empty_map() {
    let raw: NameMap<RawGroup> = NameMap::new();
    let out = flatten_groups(&raw).expect("resolves");
    assert_eq!(out.len(), 0);
}

#[test]
fn diet_bans_groups_and_own_ingredients() {
    let mut groups = NameMap::new();
    groups.insert_new("dairy".to_string(), group_of(&["milk", "cheese"]));
    let mut own = Diet::new();
    own.merge_ingredient(Ingredient::new("gelatin"));
    let mut raw = NameMap::new();
    raw.insert_new(
        "strict".to_string(),
        RawDiet { banned_ingredients: own, banned_groups: vec!["dairy".to_string()] },
    );
    let out = flatten_diets(&raw, &groups).expect("resolves");
    let d = out.get("strict").unwrap();
    assert_eq!(sorted(d.banned_ingredients()), vec!["cheese", "gelatin", "milk"]);
}

#[test]
fn unknown_banned_group_fails_with_names() {
    let groups: NameMap<IngredientGroup> = NameMap::new();
    let mut raw = NameMap::new();
    raw.insert_new(
        "pescatarian".to_string(),
        RawDiet { banned_ingredients: Diet::new(), banned_groups: vec!["meat".to_string()] },
    );
    match flatten_diets(&raw, &groups) {
        Err(TaxonomyError::UnresolvedReference { record, reference }) => {
            assert_eq!(record, "pescatarian");
            assert_eq!(reference, "meat");
        }
        other => panic!("unexpected {:?}", other),
    }
}

#[test]
fn name_map_lookups() {
    let mut m = NameMap::new();
    m.insert_new("a".to_string(), 1u32);
    m.insert_new("b".to_string(), 2u32);
    assert_eq!(m.get("b"), Some(&2));
    assert_eq!(m.get("c"), None);
    assert!(m.contains_key("a"));
    assert!(!m.contains_key("A"));
    assert_eq!(m.entries().len(), 2);
}

#[test]
fn banned_group_order_does_not_matter() {
    let mut groups = NameMap::new();
    groups.insert_new("dairy".to_string(), group_of(&["milk"]));
    groups.insert_new("meat".to_string(), group_of(&["beef"]));
    let mut raw = NameMap::new();
    raw.insert_new(
        "one".to_string(),
        RawDiet { banned_ingredients: Diet::new(), banned_groups: vec!["dairy".to_string(), "meat".to_string()] },
    );
    raw.insert_new(
        "two".to_string(),
        RawDiet {
            banned_ingredients: Diet::new(),
            banned_groups: vec!["meat".to_string(), "dairy".to_string(), "meat".to_string()],
        },
    );
    let out = flatten_diets(&raw, &groups).expect("resolves");
    let one = sorted(out.get("one").unwrap().banned_ingredients());
    assert_eq!(one, sorted(out.get("two").unwrap().banned_ingredients()));
    assert_eq!(one, vec!["beef", "milk"]);
}
