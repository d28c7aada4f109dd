use vstd::prelude::*;

use crate::ingredient::Ingredient;

verus! {

/// The texts of a sequence of ingredients, in order.
pub open spec fn texts_of(s: Seq<Ingredient>) -> Seq<Seq<char>> {
    s.map_values(|i: Ingredient| i@)
}

/// A finite set of ingredients without repeats, kept in insertion order.
#[derive(Debug, Clone)]
pub struct IngredientSet {
    items: Vec<Ingredient>,
}

impl View for IngredientSet {
    type V = Set<Seq<char>>;

    open spec fn view(&self) -> Set<Seq<char>> {
        texts_of(self.items()).to_set()
    }
}

impl IngredientSet {
    /// The members, in the order in which they were first added.
    pub closed spec fn items(&self) -> Seq<Ingredient> {
        self.items@
    }

    /// No ingredient is held twice.
    pub open spec fn wf(&self) -> bool {
        texts_of(self.items()).no_duplicates()
    }

    /// The empty set.
    pub fn new() -> (r: IngredientSet)
        ensures
            r.wf(),
            r@ == Set::<Seq<char>>::empty(),
    {
        let r = IngredientSet { items: Vec::new() };
        assert(texts_of(r.items()) =~= Seq::<Seq<char>>::empty());
        r
    }

    /// Whether `ingred` is a member.
    pub fn contains(&self, ingred: &Ingredient) -> (r: bool)
        ensures
            r == self@.contains(ingred@),
    {
        let mut i: usize = 0;
        while i < self.items.len()
            invariant
                0 <= i <= self.items@.len(),
                forall|j: int| 0 <= j < i ==> self.items@[j]@ != ingred@,
            decreases self.items@.len() - i,
        {
            if self.items[i] == *ingred {
                assert(texts_of(self.items())[i as int] == ingred@);
                return true;
            }
            i = i + 1;
        }
        assert(!texts_of(self.items()).contains(ingred@));
        false
    }

    /// Adds `ingred`; adding a member again changes nothing.
    pub fn insert(&mut self, ingred: Ingredient)
        requires
            old(self).wf(),
        ensures
            final(self).wf(),
            final(self)@ == old(self)@.insert(ingred@),
    {
        if !self.contains(&ingred) {
            let ghost before = texts_of(self.items());
            let ghost t = ingred@;
            self.items.push(ingred);
            assert(texts_of(self.items()) =~= before.push(t));
            proof {
                before.lemma_push_to_set_commute(t);
            }
        } else {
            assert(self@.insert(ingred@) =~= self@);
        }
    }

    /// Adds every member of `other`.
    pub fn insert_all(&mut self, other: &IngredientSet)
        requires
            old(self).wf(),
        ensures
            final(self).wf(),
            final(self)@ == old(self)@.union(other@),
    {
        let ghost start = self@;
        let n = other.items.len();
        let mut i: usize = 0;
        while i < n
            invariant
                n == other.items@.len(),
                0 <= i <= n,
                self.wf(),
                self@ == start.union(texts_of(other.items()).take(i as int).to_set()),
            decreases n - i,
        {
            let item = other.items[i].duplicate();
            self.insert(item);
            assert(texts_of(other.items()).take(i + 1) =~= texts_of(other.items()).take(
                i as int,
            ).push(other.items@[i as int]@));
            proof {
                texts_of(other.items()).take(i as int).lemma_push_to_set_commute(
                    other.items@[i as int]@,
                );
            }
            i = i + 1;
        }
        assert(texts_of(other.items()).take(n as int) =~= texts_of(other.items()));
        assert(self@ =~= start.union(other@));
    }

    /// A copy of this set.
    pub fn duplicate(&self) -> (r: IngredientSet)
        ensures
            r.wf(),
            r@ == self@,
    {
        let mut r = IngredientSet::new();
        r.insert_all(self);
        assert(r@ =~= self@);
        r
    }

    /// The members, each once, in the order in which they were first added.
    pub fn as_slice(&self) -> (r: &[Ingredient])
        ensures
            r@ == self.items(),
    {
        self.items.as_slice()
    }

    /// Whether both sets hold the same ingredients.
    pub fn same_members(&self, other: &IngredientSet) -> (r: bool)
        ensures
            r == (self@ == other@),
    {
        let r = self.is_subset_of(other) && other.is_subset_of(self);
        if r {
            assert(self@ =~= other@);
        }
        r
    }

    /// Whether every member of `self` is a member of `other`.
    pub fn is_subset_of(&self, other: &IngredientSet) -> (r: bool)
        ensures
            r == self@.subset_of(other@),
    {
        let mut i: usize = 0;
        while i < self.items.len()
            invariant
                0 <= i <= self.items@.len(),
                forall|j: int| 0 <= j < i ==> other@.contains(#[trigger] self.items@[j]@),
            decreases self.items@.len() - i,
        {
            if !other.contains(&self.items[i]) {
                assert(texts_of(self.items())[i as int] == self.items@[i as int]@);
                return false;
            }
            i = i + 1;
        }
        assert forall|t: Seq<char>| self@.contains(t) implies other@.contains(t) by {
            let j = choose|j: int| 0 <= j < texts_of(self.items()).len() && texts_of(self.items())[j] == t;
            assert(self.items@[j]@ == t);
        }
        true
    }
}

} // verus!
