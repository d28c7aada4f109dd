use vstd::prelude::*;

use crate::ingredient::Ingredient;
use crate::set::{texts_of, IngredientSet};

verus! {

/// The ingredients that a set holds after the members of `added` were merged
/// into `base`.
pub open spec fn merged(base: Set<Seq<char>>, added: Set<Seq<char>>) -> Set<Seq<char>> {
    base.union(added)
}

/// A flat collection of ingredients; a map of groups gives each its name.
#[derive(Debug, Clone)]
pub struct IngredientGroup {
    ingredients: IngredientSet,
}

impl View for IngredientGroup {
    type V = Set<Seq<char>>;

    open spec fn view(&self) -> Set<Seq<char>> {
        self.set()@
    }
}

impl IngredientGroup {
    /// The set that holds the group's ingredients.
    pub closed spec fn set(&self) -> IngredientSet {
        self.ingredients
    }

    /// No ingredient is held twice.
    pub open spec fn wf(&self) -> bool {
        self.set().wf()
    }

    /// The group with no ingredients.
    pub fn new() -> (r: IngredientGroup)
        ensures
            r.wf(),
            r@ == Set::<Seq<char>>::empty(),
    {
        IngredientGroup { ingredients: IngredientSet::new() }
    }

    /// Merge the contents of another group into `self`.
    pub fn merge_group(&mut self, other: &IngredientGroup)
        requires
            old(self).wf(),
        ensures
            final(self).wf(),
            final(self)@ == merged(old(self)@, other@),
    {
        self.ingredients.insert_all(&other.ingredients);
    }

    /// Merge an ingredient into this group; merging a member again changes
    /// nothing.
    pub fn merge_ingredient(&mut self, ingred: Ingredient)
        requires
            old(self).wf(),
        ensures
            final(self).wf(),
            final(self)@ == old(self)@.insert(ingred@),
    {
        self.ingredients.insert(ingred);
    }

    /// All ingredients of the group, each once.
    pub fn ingredients(&self) -> (r: &[Ingredient])
        ensures
            texts_of(r@).to_set() == self@,
            self.wf() ==> texts_of(r@).no_duplicates(),
    {
        self.ingredients.as_slice()
    }

    /// Whether `ingred` belongs to the group.
    pub fn contains(&self, ingred: &Ingredient) -> (r: bool)
        ensures
            r == self@.contains(ingred@),
    {
        self.ingredients.contains(ingred)
    }

    /// A copy of the group.
    pub fn duplicate(&self) -> (r: IngredientGroup)
        ensures
            r.wf(),
            r@ == self@,
    {
        IngredientGroup { ingredients: self.ingredients.duplicate() }
    }
}

impl Default for IngredientGroup {
    fn default() -> (r: IngredientGroup)
        ensures
            r.wf(),
            r@ == Set::<Seq<char>>::empty(),
    {
        IngredientGroup::new()
    }
}

impl PartialEq for IngredientGroup {
    fn eq(&self, other: &IngredientGroup) -> (r: bool) {
        self.ingredients.same_members(&other.ingredients)
    }
}

impl vstd::std_specs::cmp::PartialEqSpecImpl for IngredientGroup {
    open spec fn obeys_eq_spec() -> bool {
        true
    }

    open spec fn eq_spec(&self, other: &IngredientGroup) -> bool {
        self@ == other@
    }
}

impl Eq for IngredientGroup {
}

/// The ingredients that a diet bans.
#[derive(Debug, Clone)]
pub struct Diet {
    banned_ingredients: IngredientSet,
}

impl View for Diet {
    type V = Set<Seq<char>>;

    open spec fn view(&self) -> Set<Seq<char>> {
        self.set()@
    }
}

impl Diet {
    /// The set that holds the banned ingredients.
    pub closed spec fn set(&self) -> IngredientSet {
        self.banned_ingredients
    }

    /// No ingredient is held twice.
    pub open spec fn wf(&self) -> bool {
        self.set().wf()
    }

    /// The diet that bans nothing.
    pub fn new() -> (r: Diet)
        ensures
            r.wf(),
            r@ == Set::<Seq<char>>::empty(),
    {
        Diet { banned_ingredients: IngredientSet::new() }
    }

    /// Merge a group of ingredients into this diet's banlist.
    pub fn merge_group(&mut self, group: &IngredientGroup)
        requires
            old(self).wf(),
        ensures
            final(self).wf(),
            final(self)@ == merged(old(self)@, group@),
    {
        self.banned_ingredients.insert_all(&group.ingredients);
    }

    /// Merge the banlist of another diet into this one.
    pub fn merge_diet(&mut self, other: &Diet)
        requires
            old(self).wf(),
        ensures
            final(self).wf(),
            final(self)@ == merged(old(self)@, other@),
    {
        self.banned_ingredients.insert_all(&other.banned_ingredients);
    }

    /// Merge an ingredient into this diet's banlist.
    pub fn merge_ingredient(&mut self, ingred: Ingredient)
        requires
            old(self).wf(),
        ensures
            final(self).wf(),
            final(self)@ == old(self)@.insert(ingred@),
    {
        self.banned_ingredients.insert(ingred);
    }

    /// All banned ingredients of the diet, each once.
    pub fn banned_ingredients(&self) -> (r: &[Ingredient])
        ensures
            texts_of(r@).to_set() == self@,
            self.wf() ==> texts_of(r@).no_duplicates(),
    {
        self.banned_ingredients.as_slice()
    }

    /// Whether the diet bans `ingred`.
    pub fn disallows(&self, ingred: &Ingredient) -> (r: bool)
        ensures
            r == self@.contains(ingred@),
    {
        self.banned_ingredients.contains(ingred)
    }
}

impl Default for Diet {
    fn default() -> (r: Diet)
        ensures
            r.wf(),
            r@ == Set::<Seq<char>>::empty(),
    {
        Diet::new()
    }
}

/// Merging is commutative and idempotent: the ingredients that result from
/// merging `b` into `a` are those that result from merging `a` into `b`, and
/// merging a group into itself leaves its ingredients as they were.
pub proof fn lemma_merge_commutative_idempotent(a: IngredientGroup, b: IngredientGroup)
    ensures
        merged(a@, b@) == merged(b@, a@),
        merged(a@, a@) == a@,
{
    assert(merged(a@, b@) =~= merged(b@, a@));
    assert(merged(a@, a@) =~= a@);
}

} // verus!
