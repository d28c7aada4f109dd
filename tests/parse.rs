use ambrosia::{
    decode_group_record, default_diet_documents, default_diets, default_group_documents,
    default_groups, load_diets, load_groups, parse_diets, parse_documents, parse_groups, Doc,
    Ingredient, TaxonomyError,
};

fn texts(docs: &[&str]) -> Vec<String> {
    docs.iter().map(|s| s.to_string()).collect()
}

fn sorted(items: &[Ingredient]) -> Vec<String> {
    let mut v: Vec<String> = items.iter().map(|i| i.as_str().to_string()).collect();
    v.sort();
    v
}

fn group_record_from(raw: &str) {
    let docs = parse_documents(&texts(&[raw])).expect("parse error");
    let group = decode_group_record(0, &"g".to_string(), &docs[0]).expect("parse error");
    assert_eq!(sorted(group.ingredients.ingredients()), vec!["first", "second"]);
    assert_eq!(group.subgroups, vec!["other".to_string()]);
}

#[test]
fn lib_group_unflattened_from_toml() {
    group_record_from("ingredients = [\"first\", \"second\"]\nsubgroups=[\"other\"]");
}

#[test]
fn parse_group_unflattened_from_toml() {
    group_record_from("ingredients = [\"first\", \"second\"]\nsubgroups=[\"other\"]");
}

#[test]
fn default_groups_parses() {
    println!("{}", default_groups().expect("default groups").len());
}

#[test]
fn default_diets_parses() {
    let groups = default_groups().expect("default groups");
    println!("{}", default_diets(&groups).expect("default diets").len());
}

#[test]
fn all_groups_parsed() {
    let groups = default_groups().expect("default groups");
    assert!(groups.len() >= default_group_documents().len());
}

#[test]
fn all_diets_parsed() {
    let groups = default_groups().expect("default groups");
    let diets = default_diets(&groups).expect("default diets");
    assert!(diets.len() >= default_diet_documents().len());
}

#[test]
fn default_vegan_bans_cheese_through_dairy() {
    let groups = default_groups().expect("default groups");
    let diets = default_diets(&groups).expect("default diets");
    let vegan = diets.get("vegan").unwrap();
    assert!(vegan.disallows(&Ingredient::new("Brie")));
    assert!(vegan.disallows(&Ingredient::new("honey")));
    let vegetarian = diets.get("vegetarian").unwrap();
    assert!(!vegetarian.disallows(&Ingredient::new("brie")));
    assert!(vegetarian.disallows(&Ingredient::new("salmon")));
}

#[test]
fn markup_reads_into_documents() {
    let docs = parse_documents(&texts(&["a = \"x\"\nb = [1, \"y\"]\n[c]\nd = true\n"])).unwrap();
    match &docs[0] {
        Doc::Table(top) => {
            assert_eq!(top.len(), 3);
            let a = top.iter().find(|(k, _)| k == "a").unwrap();
            assert!(matches!(&a.1, Doc::Text(s) if s == "x"));
            let b = top.iter().find(|(k, _)| k == "b").unwrap();
            match &b.1 {
                Doc::List(items) => {
                    assert!(matches!(items[0], Doc::Other));
                    assert!(matches!(&items[1], Doc::Text(s) if s == "y"));
                }
                _ => panic!("b is a list"),
            }
            let c = top.iter().find(|(k, _)| k == "c").unwrap();
            assert!(matches!(&c.1, Doc::Table(f) if f.len() == 1));
        }
        _ => panic!("a document is a table"),
    }
}

#[test]
fn groups_from_documents_resolve() {
    let out = load_groups(&texts(&[
        "[groups.x]\ningredients = [\"Salt\"]\n",
        "[groups.seasoning]\ningredients = [\"pepper\"]\nsubgroups = [\"x\"]\n",
    ]))
    .expect("resolves");
    assert_eq!(sorted(out.get("seasoning").unwrap().ingredients()), vec!["pepper", "salt"]);
}

#[test]
fn diets_from_documents_resolve() {
    let groups = load_groups(&texts(&["[groups.dairy]\ningredients = [\"milk\", \"cheese\"]\n"]))
        .expect("resolves");
    let diets = load_diets(
        &texts(&["[diets.d]\nbanned_ingredients = [\"gelatin\"]\nbanned_groups = [\"dairy\"]\n"]),
        &groups,
    )
    .expect("resolves");
    assert_eq!(sorted(diets.get("d").unwrap().banned_ingredients()), vec!["cheese", "gelatin", "milk"]);
}

#[test]
fn unknown_field_is_a_schema_error() {
    let r = parse_groups(&texts(&["[groups.g]\ningredients = [\"a\"]\nbogus = 1\n"]));
    match r {
        Err(TaxonomyError::Schema { document, record, field }) => {
            assert_eq!(document, 0);
            assert_eq!(record, "g");
            assert_eq!(field, "bogus");
        }
        other => panic!("unexpected {:?}", other),
    }
}

#[test]
fn wrong_field_type_is_a_schema_error() {
    let r = parse_groups(&texts(&["[groups.g]\ningredients = \"a\"\n"]));
    assert!(matches!(r, Err(TaxonomyError::Schema { field, .. }) if field == "ingredients"));
}

#[test]
fn missing_banned_groups_is_a_schema_error() {
    let r = parse_diets(&texts(&["[diets.d]\nbanned_ingredients = [\"a\"]\n"]));
    assert!(matches!(r, Err(TaxonomyError::Schema { field, .. }) if field == "banned_groups"));
}

#[test]
fn unknown_section_is_a_schema_error() {
    let r = parse_groups(&texts(&["[diets.d]\nbanned_groups = []\n"]));
    assert!(matches!(r, Err(TaxonomyError::Schema { document: 0, field, .. }) if field == "diets"));
}

#[test]
fn bad_markup_is_a_syntax_error_naming_the_document() {
    let r = parse_groups(&texts(&["[groups.a]\ningredients = []\n", "[groups.b\n"]));
    assert!(matches!(r, Err(TaxonomyError::Syntax { document: 1, .. })));
}

#[test]
fn repeated_name_across_documents_is_rejected() {
    let r = parse_groups(&texts(&["[groups.a]\ningredients = []\n", "[groups.a]\ningredients = [\"x\"]\n"]));
    match r {
        Err(TaxonomyError::DuplicateName { document, record }) => {
            assert_eq!(document, 1);
            assert_eq!(record, "a");
        }
        other => panic!("unexpected {:?}", other),
    }
}

#[test]
fn nonexistent_subgroup_in_documents_fails() {
    let r = load_groups(&texts(&["[groups.g]\nsubgroups = [\"nonexistent\"]\n"]));
    assert!(matches!(r, Err(TaxonomyError::UnresolvedReference { reference, .. }) if reference == "nonexistent"));
}
