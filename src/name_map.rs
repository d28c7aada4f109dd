use vstd::prelude::*;

verus! {

/// The names of a sequence of entries, in order.
pub open spec fn names_of<V>(s: Seq<(String, V)>) -> Seq<Seq<char>> {
    s.map_values(|e: (String, V)| e.0@)
}

/// The map that a sequence of entries stands for; a later entry wins.
pub open spec fn map_of<V>(s: Seq<(String, V)>) -> Map<Seq<char>, V>
    decreases s.len(),
{
    if s.len() == 0 {
        Map::empty()
    } else {
        map_of(s.drop_last()).insert(s.last().0@, s.last().1)
    }
}

/// The names that the map of `s` holds are the names of its entries.
pub proof fn lemma_map_of_dom<V>(s: Seq<(String, V)>)
    ensures
        map_of(s).dom() == names_of(s).to_set(),
    decreases s.len(),
{
    if s.len() > 0 {
        lemma_map_of_dom(s.drop_last());
        assert(names_of(s) =~= names_of(s.drop_last()).push(s.last().0@));
        names_of(s.drop_last()).lemma_push_to_set_commute(s.last().0@);
    } else {
        assert(names_of(s).to_set() =~= Set::empty());
    }
    assert(map_of(s).dom() =~= names_of(s).to_set());
}

/// Where no name repeats, the map of `s` gives each entry's value for its
/// name.
pub proof fn lemma_map_of_entry<V>(s: Seq<(String, V)>, i: int)
    requires
        names_of(s).no_duplicates(),
        0 <= i < s.len(),
    ensures
        map_of(s).contains_key(s[i].0@),
        map_of(s)[s[i].0@] == s[i].1,
    decreases s.len(),
{
    lemma_map_of_dom(s);
    assert(names_of(s)[i] == s[i].0@);
    if i < s.len() - 1 {
        let t = s.drop_last();
        assert(names_of(t) =~= names_of(s).drop_last());
        assert(names_of(s)[s.len() - 1] == s.last().0@);
        lemma_map_of_entry(t, i);
    }
}

/// A map from names to values, kept as a list of entries whose names are
/// unique.
#[derive(Debug, Clone)]
pub struct NameMap<V> {
    entries: Vec<(String, V)>,
}

impl<V> View for NameMap<V> {
    type V = Map<Seq<char>, V>;

    open spec fn view(&self) -> Map<Seq<char>, V> {
        map_of(self.entry_seq())
    }
}

impl<V> NameMap<V> {
    /// The entries, in the order in which their names were first inserted.
    pub closed spec fn entry_seq(&self) -> Seq<(String, V)> {
        self.entries@
    }

    /// No name is held twice.
    pub open spec fn wf(&self) -> bool {
        names_of(self.entry_seq()).no_duplicates()
    }

    /// The empty map.
    pub fn new() -> (r: NameMap<V>)
        ensures
            r.wf(),
            r@ == Map::<Seq<char>, V>::empty(),
            r.entry_seq().len() == 0,
    {
        let r = NameMap { entries: Vec::new() };
        assert(names_of(r.entry_seq()) =~= Seq::<Seq<char>>::empty());
        r
    }

    /// The number of entries.
    pub fn len(&self) -> (r: usize)
        requires
            self.wf(),
        ensures
            r == self.entry_seq().len(),
            r == self@.dom().len(),
    {
        proof {
            lemma_map_of_dom(self.entry_seq());
            names_of(self.entry_seq()).unique_seq_to_set();
        }
        self.entries.len()
    }

    /// The entries, each name once.
    pub fn entries(&self) -> (r: &[(String, V)])
        ensures
            r@ == self.entry_seq(),
    {
        self.entries.as_slice()
    }

    /// Where `name` stands among the entries, if it does.
    fn position(&self, name: &str) -> (r: Option<usize>)
        ensures
            match r {
                Some(i) => i < self.entries@.len() && self.entries@[i as int].0@ == name@,
                None => !names_of(self.entry_seq()).contains(name@),
            },
    {
        let wanted = name.to_owned();
        let mut i: usize = 0;
        while i < self.entries.len()
            invariant
                wanted@ == name@,
                0 <= i <= self.entries@.len(),
                forall|j: int| 0 <= j < i ==> self.entries@[j].0@ != name@,
            decreases self.entries@.len() - i,
        {
            if self.entries[i].0 == wanted {
                return Some(i);
            }
            i = i + 1;
        }
        proof {
            if names_of(self.entry_seq()).contains(name@) {
                let j = choose|j: int|
                    0 <= j < names_of(self.entry_seq()).len() && names_of(self.entry_seq())[j]
                        == name@;
                assert(self.entries@[j].0@ == name@);
            }
        }
        None
    }

    /// Whether `name` has an entry.
    pub fn contains_key(&self, name: &str) -> (r: bool)
        ensures
            r == self@.contains_key(name@),
    {
        proof {
            lemma_map_of_dom(self.entry_seq());
        }
        match self.position(name) {
            Some(i) => {
                assert(names_of(self.entry_seq())[i as int] == name@);
                true
            },
            None => false,
        }
    }

    /// The value held under `name`, if any.
    pub fn get(&self, name: &str) -> (r: Option<&V>)
        requires
            self.wf(),
        ensures
            match r {
                Some(v) => self@.contains_key(name@) && self@[name@] == *v,
                None => !self@.contains_key(name@),
            },
    {
        proof {
            lemma_map_of_dom(self.entry_seq());
        }
        match self.position(name) {
            Some(i) => {
                proof {
                    lemma_map_of_entry(self.entry_seq(), i as int);
                }
                Some(&self.entries[i].1)
            },
            None => None,
        }
    }

    /// Adds an entry under a name that the map does not hold yet.
    pub fn insert_new(&mut self, name: String, value: V)
        requires
            old(self).wf(),
            !old(self)@.contains_key(name@),
        ensures
            final(self).wf(),
            final(self)@ == old(self)@.insert(name@, value),
            final(self).entry_seq() == old(self).entry_seq().push((name, value)),
    {
        proof {
            lemma_map_of_dom(self.entry_seq());
        }
        let ghost before = self.entry_seq();
        self.entries.push((name, value));
        assert(self.entry_seq().drop_last() =~= before);
        assert(names_of(self.entry_seq()) =~= names_of(before).push(name@));
    }
}

} // verus!
