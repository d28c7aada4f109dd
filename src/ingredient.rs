use vstd::prelude::*;

verus! {

/// What `str::to_lowercase` makes of a text: the lowercase form of each
/// character, so that names that differ only in case are one name.
pub uninterp spec fn lowercase_of(s: Seq<char>) -> Seq<char>;

/// Relies on `str::to_lowercase`: its result depends on the characters alone,
/// and an empty text stays empty.
#[verifier::external_body]
fn to_lowercase(s: &str) -> (r: String)
    ensures
        r@ == lowercase_of(s@),
        s@.len() == 0 ==> r@.len() == 0,
{
    s.to_lowercase()
}

/// One food identity, compared without regard to case.
///
/// The text held is always the lowercase form of the text the ingredient was
/// made from: `Ingredient::new` is the only way in.
#[derive(Debug, Clone, Hash)]
pub struct Ingredient {
    name: String,
}

impl View for Ingredient {
    type V = Seq<char>;

    closed spec fn view(&self) -> Seq<char> {
        self.name@
    }
}

impl Ingredient {
    /// The ingredient named by `name`, in lowercase.
    pub fn new(name: &str) -> (r: Ingredient)
        ensures
            r@ == lowercase_of(name@),
            name@.len() == 0 ==> r@.len() == 0,
    {
        Ingredient { name: to_lowercase(name) }
    }

    /// The normalized text of this ingredient.
    pub fn as_str(&self) -> (r: &str)
        ensures
            r@ == self@,
    {
        self.name.as_str()
    }

    /// The normalized text of this ingredient, as an owned string.
    pub fn to_text(&self) -> (r: String)
        ensures
            r@ == self@,
    {
        self.name.clone()
    }

    /// A second value equal to this one.
    pub fn duplicate(&self) -> (r: Ingredient)
        ensures
            r@ == self@,
    {
        Ingredient { name: self.name.clone() }
    }
}

impl PartialEq for Ingredient {
    fn eq(&self, other: &Ingredient) -> (r: bool) {
        self.name == other.name
    }
}

impl vstd::std_specs::cmp::PartialEqSpecImpl for Ingredient {
    open spec fn obeys_eq_spec() -> bool {
        true
    }

    open spec fn eq_spec(&self, other: &Ingredient) -> bool {
        self@ == other@
    }
}

impl Eq for Ingredient {
}

} // verus!
