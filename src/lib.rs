//! Dietary restriction rules over food ingredients.
//!
//! Ingredient groups ("cheese", "shellfish") and diets ("vegan") are written
//! as documents that refer to each other by name. This crate reads such
//! documents under a strict schema, resolves the references into flat sets of
//! ingredients, and keeps the resolved built-in taxonomy in a cache that is
//! filled once.

pub mod defaults;
pub mod document;
pub mod group;
pub mod ingredient;
pub mod load;
pub mod name_map;
pub mod resolve;
pub mod set;

pub use defaults::{
    default_diet_documents, default_diets, default_group_documents, default_groups,
    load_default_taxonomy, Taxonomy, TaxonomyCache,
};
pub use document::{
    decode_diet_batch, decode_diet_document, decode_diet_record, decode_group_batch,
    decode_group_document, decode_group_record, decode_text_list, group_of_texts, Doc,
};
pub use group::{lemma_merge_commutative_idempotent, Diet, IngredientGroup};
pub use ingredient::Ingredient;
pub use load::{load_diets, load_groups, parse_diets, parse_documents, parse_groups};
pub use name_map::NameMap;
pub use resolve::{
    flatten_diets, flatten_groups, lemma_diet_resolution_ignores_group_order,
    lemma_resolution_ignores_subgroup_order, RawDiet, RawGroup,
    TaxonomyError,
};
pub use set::IngredientSet;
