use vstd::prelude::*;

use crate::group::{Diet, IngredientGroup};
use crate::document::string_texts;
use crate::load::{
    diets_fail_from, diets_loaded_from, groups_fail_from, groups_loaded_from, load_diets,
    load_groups,
};
use crate::name_map::NameMap;
use crate::resolve::TaxonomyError;

verus! {

#[verifier::external_type_specification]
#[verifier::external_body]
#[verifier::reject_recursive_types(T)]
pub struct ExOnceLock<T>(std::sync::OnceLock<T>);

/// Built-in group: cheeses.
pub const CHEESE_GROUPS: &'static str = "[groups.cheese]\ningredients = [\"brie\", \"camembert\", \"cheddar\", \"feta\", \"gouda\", \"gruyere\", \"mozzarella\", \"parmesan\", \"ricotta\", \"roquefort\"]\n";

/// Built-in group: fish.
pub const FISH_GROUPS: &'static str = "[groups.fish]\ningredients = [\"anchovy\", \"cod\", \"haddock\", \"herring\", \"mackerel\", \"salmon\", \"sardine\", \"trout\", \"tuna\", \"fish sauce\"]\n";

/// Built-in group: meat.
pub const MEAT_GROUPS: &'static str = "[groups.meat]\ningredients = [\"bacon\", \"beef\", \"chicken\", \"duck\", \"ham\", \"lamb\", \"pork\", \"sausage\", \"turkey\", \"veal\"]\n";

/// Built-in group: shellfish.
pub const SHELLFISH_GROUPS: &'static str = "[groups.shellfish]\ningredients = [\"clam\", \"crab\", \"crayfish\", \"lobster\", \"mussel\", \"oyster\", \"prawn\", \"scallop\", \"shrimp\"]\n";

/// Built-in group: dairy, which takes in the cheeses.
pub const DAIRY_GROUPS: &'static str = "[groups.dairy]\ningredients = [\"butter\", \"buttermilk\", \"cream\", \"ghee\", \"milk\", \"sour cream\", \"yogurt\"]\nsubgroups = [\"cheese\"]\n";

/// Built-in diet: vegan.
pub const VEGAN_DIETS: &'static str = "[diets.vegan]\nbanned_ingredients = [\"egg\", \"gelatin\", \"honey\"]\nbanned_groups = [\"dairy\", \"fish\", \"meat\", \"shellfish\"]\n";

/// Built-in diet: vegetarian.
pub const VEGETARIAN_DIETS: &'static str = "[diets.vegetarian]\nbanned_ingredients = [\"gelatin\"]\nbanned_groups = [\"fish\", \"meat\", \"shellfish\"]\n";

/// The texts of the built-in group documents.
pub open spec fn default_group_texts() -> Seq<Seq<char>> {
    seq![CHEESE_GROUPS@, FISH_GROUPS@, MEAT_GROUPS@, SHELLFISH_GROUPS@, DAIRY_GROUPS@]
}

/// The texts of the built-in diet documents.
pub open spec fn default_diet_texts() -> Seq<Seq<char>> {
    seq![VEGAN_DIETS@, VEGETARIAN_DIETS@]
}

/// The built-in group documents.
pub fn default_group_documents() -> (r: Vec<String>)
    ensures
        string_texts(r@) == default_group_texts(),
{
    let r = vec![
        CHEESE_GROUPS.to_owned(),
        FISH_GROUPS.to_owned(),
        MEAT_GROUPS.to_owned(),
        SHELLFISH_GROUPS.to_owned(),
        DAIRY_GROUPS.to_owned(),
    ];
    assert(string_texts(r@) =~= default_group_texts());
    r
}

/// The built-in diet documents.
pub fn default_diet_documents() -> (r: Vec<String>)
    ensures
        string_texts(r@) == default_diet_texts(),
{
    let r = vec![VEGAN_DIETS.to_owned(), VEGETARIAN_DIETS.to_owned()];
    assert(string_texts(r@) =~= default_diet_texts());
    r
}

/// Reads and resolves the built-in groups.
pub fn default_groups() -> (r: Result<NameMap<IngredientGroup>, TaxonomyError>)
    ensures
        r matches Ok(out) ==> out.wf() && groups_loaded_from(default_group_texts(), out@),
        r is Err ==> groups_fail_from(default_group_texts()),
{
    let texts = default_group_documents();
    load_groups(&texts)
}

/// Reads the built-in diets and resolves them against `groups`, the resolved
/// built-in groups.
pub fn default_diets(groups: &NameMap<IngredientGroup>) -> (r: Result<NameMap<Diet>, TaxonomyError>)
    requires
        groups.wf(),
    ensures
        r matches Ok(out) ==> out.wf() && diets_loaded_from(default_diet_texts(), groups@, out@),
        r is Err ==> diets_fail_from(default_diet_texts(), groups@),
{
    let texts = default_diet_documents();
    load_diets(&texts, groups)
}

/// The resolved groups together with the diets resolved against them.
#[derive(Debug)]
pub struct Taxonomy {
    pub groups: NameMap<IngredientGroup>,
    pub diets: NameMap<Diet>,
}

impl Taxonomy {
    /// Neither map holds a name twice.
    pub open spec fn wf(&self) -> bool {
        self.groups.wf() && self.diets.wf()
    }
}

/// Reads and resolves the built-in groups, then the built-in diets against
/// them.
pub fn load_default_taxonomy() -> (r: Result<Taxonomy, TaxonomyError>)
    ensures
        r matches Ok(t) ==> t.wf() && groups_loaded_from(default_group_texts(), t.groups@)
            && diets_loaded_from(default_diet_texts(), t.groups@, t.diets@),
        r is Err ==> groups_fail_from(default_group_texts()) || exists|
            groups: Map<Seq<char>, IngredientGroup>,
        | groups_loaded_from(default_group_texts(), groups) && diets_fail_from(
            default_diet_texts(),
            groups,
        ),
{
    match default_groups() {
        Ok(groups) => match default_diets(&groups) {
            Ok(diets) => Ok(Taxonomy { groups, diets }),
            Err(e) => Err(e),
        },
        Err(e) => Err(e),
    }
}

/// Relies on `OnceLock::new`: a cell that holds nothing yet.
#[verifier::external_body]
fn empty_cell() -> (r: std::sync::OnceLock<Result<Taxonomy, TaxonomyError>>) {
    std::sync::OnceLock::new()
}

/// Relies on `OnceLock::get_or_init`: the first call runs
/// `load_default_taxonomy` and stores its result, and every call, from any
/// thread, returns a reference to that one stored result. No other code
/// fills the cell, so what comes back is a result of `load_default_taxonomy`.
#[verifier::external_body]
fn cell_get_or_load(cell: &std::sync::OnceLock<Result<Taxonomy, TaxonomyError>>) -> (r: &Result<
    Taxonomy,
    TaxonomyError,
>)
    ensures
        r matches Ok(t) ==> t.wf() && groups_loaded_from(default_group_texts(), t.groups@)
            && diets_loaded_from(default_diet_texts(), t.groups@, t.diets@),
        r is Err ==> groups_fail_from(default_group_texts()) || exists|
            groups: Map<Seq<char>, IngredientGroup>,
        | groups_loaded_from(default_group_texts(), groups) && diets_fail_from(
            default_diet_texts(),
            groups,
        ),
{
    cell.get_or_init(load_default_taxonomy)
}

/// The built-in taxonomy, resolved on first use and shared by every later
/// use. Resolution runs at most once per cache, also under concurrent first
/// use; the result cannot be changed afterwards.
#[derive(Debug)]
pub struct TaxonomyCache {
    cell: std::sync::OnceLock<Result<Taxonomy, TaxonomyError>>,
}

impl TaxonomyCache {
    /// A cache that has resolved nothing yet.
    pub fn new() -> (r: TaxonomyCache) {
        TaxonomyCache { cell: empty_cell() }
    }

    /// The built-in taxonomy, or the error that resolving it gave.
    pub fn get(&self) -> (r: &Result<Taxonomy, TaxonomyError>)
        ensures
            r matches Ok(t) ==> t.wf() && groups_loaded_from(default_group_texts(), t.groups@)
                && diets_loaded_from(default_diet_texts(), t.groups@, t.diets@),
            r is Err ==> groups_fail_from(default_group_texts()) || exists|
                groups: Map<Seq<char>, IngredientGroup>,
            | groups_loaded_from(default_group_texts(), groups) && diets_fail_from(
                default_diet_texts(),
                groups,
            ),
{
        cell_get_or_load(&self.cell)
    }
}

} // verus!
