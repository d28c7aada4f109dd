use vstd::prelude::*;

use crate::group::{Diet, IngredientGroup};
use crate::name_map::{lemma_map_of_dom, lemma_map_of_entry, names_of, NameMap};

verus! {

/// A group as written: its own ingredients and the names of the groups whose
/// own ingredients it takes in as well.
#[derive(Debug, Clone)]
pub struct RawGroup {
    pub ingredients: IngredientGroup,
    pub subgroups: Vec<String>,
}

/// A diet as written: its own banned ingredients and the names of the groups
/// that it bans whole.
#[derive(Debug, Clone)]
pub struct RawDiet {
    pub banned_ingredients: Diet,
    pub banned_groups: Vec<String>,
}

/// Why a batch of definitions could not be read or resolved.
#[derive(Debug, Clone)]
pub enum TaxonomyError {
    /// Document `document` of the batch is not valid markup.
    Syntax { document: usize, message: String },
    /// Document `document` has the wrong shape: `record` names the record, or
    /// is empty for the document as a whole, and `field` the offending key.
    Schema { document: usize, record: String, field: String },
    /// Record `record` of document `document` is defined a second time.
    DuplicateName { document: usize, record: String },
    /// Record `record` refers to `reference`, which names nothing.
    UnresolvedReference { record: String, reference: String },
}

/// The own ingredients of the groups named in `names`, taken together.
pub open spec fn subgroup_union(raw: Map<Seq<char>, RawGroup>, names: Seq<String>) -> Set<
    Seq<char>,
>
    decreases names.len(),
{
    if names.len() == 0 {
        Set::empty()
    } else {
        subgroup_union(raw, names.drop_last()).union(raw[names.last()@].ingredients@)
    }
}

/// The ingredients of `g` once resolved in `raw`: its own and the own
/// ingredients of each subgroup it names. A subgroup's own subgroups are not
/// followed: a reference reaches one level deep.
pub open spec fn resolved_group(raw: Map<Seq<char>, RawGroup>, g: RawGroup) -> Set<Seq<char>> {
    g.ingredients@.union(subgroup_union(raw, g.subgroups@))
}

/// Every subgroup that a group of `raw` names is a group of `raw`.
pub open spec fn subgroups_known(raw: Map<Seq<char>, RawGroup>) -> bool {
    forall|k: Seq<char>, j: int|
        #![trigger raw[k].subgroups@[j]]
        raw.contains_key(k) && 0 <= j < raw[k].subgroups@.len() ==> raw.contains_key(
            raw[k].subgroups@[j]@,
        )
}

/// The ingredients of the groups named in `names`, taken from the resolved
/// groups.
pub open spec fn banned_group_union(groups: Map<Seq<char>, IngredientGroup>, names: Seq<String>) -> Set<
    Seq<char>,
>
    decreases names.len(),
{
    if names.len() == 0 {
        Set::empty()
    } else {
        banned_group_union(groups, names.drop_last()).union(groups[names.last()@]@)
    }
}

/// The banlist of `d` once resolved against `groups`: its own banned
/// ingredients and every ingredient of each group it names.
pub open spec fn resolved_diet(groups: Map<Seq<char>, IngredientGroup>, d: RawDiet) -> Set<
    Seq<char>,
> {
    d.banned_ingredients@.union(banned_group_union(groups, d.banned_groups@))
}

/// Every group that a diet of `raw` names is in `groups`.
pub open spec fn banned_groups_known(
    raw: Map<Seq<char>, RawDiet>,
    groups: Map<Seq<char>, IngredientGroup>,
) -> bool {
    forall|k: Seq<char>, j: int|
        #![trigger raw[k].banned_groups@[j]]
        raw.contains_key(k) && 0 <= j < raw[k].banned_groups@.len() ==> groups.contains_key(
            raw[k].banned_groups@[j]@,
        )
}

/// Resolves a batch of groups: each group gets its own ingredients and the own
/// ingredients of every subgroup it names. Fails on the first subgroup name
/// that the batch does not hold.
pub fn flatten_groups(raw: &NameMap<RawGroup>) -> (r: Result<NameMap<IngredientGroup>, TaxonomyError>)
    requires
        raw.wf(),
    ensures
        r is Ok <==> subgroups_known(raw@),
        match r {
            Ok(out) => {
                &&& out.wf()
                &&& out@.dom() == raw@.dom()
                &&& forall|k: Seq<char>| #[trigger]
                    out@.contains_key(k) ==> out@[k]@ == resolved_group(raw@, raw@[k])
            },
            Err(TaxonomyError::UnresolvedReference { record, reference }) => {
                &&& raw@.contains_key(record@)
                &&& !raw@.contains_key(reference@)
                &&& exists|j: int|
                    0 <= j < raw@[record@].subgroups@.len() && #[trigger] raw@[record@].subgroups@[j]@
                        == reference@
            },
            Err(_) => false,
        },
{
    let entries = raw.entries();
    let n = entries.len();
    let mut out: NameMap<IngredientGroup> = NameMap::new();
    let mut i: usize = 0;
    while i < n
        invariant
            raw.wf(),
            entries@ == raw.entry_seq(),
            n == entries@.len(),
            0 <= i <= n,
            out.wf(),
            names_of(out.entry_seq()) == names_of(raw.entry_seq()).take(i as int),
            forall|t: int|
                0 <= t < i ==> #[trigger] out.entry_seq()[t].1@ == resolved_group(
                    raw@,
                    raw.entry_seq()[t].1,
                ),
            forall|t: int, j: int|
                #![trigger raw.entry_seq()[t].1.subgroups@[j]]
                0 <= t < i && 0 <= j < raw.entry_seq()[t].1.subgroups@.len() ==> raw@.contains_key(
                    raw.entry_seq()[t].1.subgroups@[j]@,
                ),
        decreases n - i,
    {
        let name = &entries[i].0;
        let record = &entries[i].1;
        proof {
            lemma_map_of_entry(raw.entry_seq(), i as int);
        }
        let mut group = IngredientGroup::new();
        group.merge_group(&record.ingredients);
        let m = record.subgroups.len();
        let mut j: usize = 0;
        while j < m
            invariant
                raw.wf(),
                raw@.contains_key(name@),
                raw@[name@] == *record,
                m == record.subgroups@.len(),
                0 <= j <= m,
                group.wf(),
                group@ == record.ingredients@.union(
                    subgroup_union(raw@, record.subgroups@.take(j as int)),
                ),
                forall|u: int|
                    0 <= u < j ==> raw@.contains_key(#[trigger] record.subgroups@[u]@),
            decreases m - j,
        {
            let sub = &record.subgroups[j];
            match raw.get(sub.as_str()) {
                None => {
                    assert(raw@[name@].subgroups@[j as int] == *sub);
                    assert(!subgroups_known(raw@));
                    return Err(
                        TaxonomyError::UnresolvedReference {
                            record: name.clone(),
                            reference: sub.clone(),
                        },
                    );
                },
                Some(found) => {
                    group.merge_group(&found.ingredients);
                    assert(record.subgroups@.take(j + 1).drop_last() =~= record.subgroups@.take(
                        j as int,
                    ));
                    assert(group@ =~= record.ingredients@.union(
                        subgroup_union(raw@, record.subgroups@.take(j + 1)),
                    ));
                },
            }
            j = j + 1;
        }
        assert(record.subgroups@.take(m as int) =~= record.subgroups@);
        proof {
            lemma_map_of_dom(out.entry_seq());
            if out@.contains_key(name@) {
                let t = choose|t: int|
                    0 <= t < names_of(out.entry_seq()).len() && names_of(out.entry_seq())[t]
                        == name@;
                assert(names_of(raw.entry_seq())[t] == names_of(raw.entry_seq())[i as int]);
            }
        }
        let ghost before = out.entry_seq();
        out.insert_new(name.clone(), group);
        assert(names_of(out.entry_seq()) =~= names_of(raw.entry_seq()).take(i + 1));
        assert forall|t: int| 0 <= t < i + 1 implies #[trigger] out.entry_seq()[t].1@
            == resolved_group(raw@, raw.entry_seq()[t].1) by {
            if t < i {
                assert(out.entry_seq()[t] == before[t]);
            }
        }
        i = i + 1;
    }
    assert(names_of(raw.entry_seq()).take(n as int) =~= names_of(raw.entry_seq()));
    proof {
        lemma_map_of_dom(out.entry_seq());
        lemma_map_of_dom(raw.entry_seq());
        assert forall|k: Seq<char>| #[trigger] out@.contains_key(k) implies out@[k]@
            == resolved_group(raw@, raw@[k]) by {
            let t = choose|t: int|
                0 <= t < names_of(out.entry_seq()).len() && names_of(out.entry_seq())[t] == k;
            lemma_map_of_entry(out.entry_seq(), t);
            lemma_map_of_entry(raw.entry_seq(), t);
        }
        assert forall|k: Seq<char>, j: int|
            raw@.contains_key(k) && 0 <= j < raw@[k].subgroups@.len() implies raw@.contains_key(
            #[trigger] raw@[k].subgroups@[j]@,
        ) by {
            let t = choose|t: int|
                0 <= t < names_of(raw.entry_seq()).len() && names_of(raw.entry_seq())[t] == k;
            lemma_map_of_entry(raw.entry_seq(), t);
            assert(raw.entry_seq()[t].1.subgroups@[j] == raw@[k].subgroups@[j]);
        }
    }
    Ok(out)
}

/// Resolves a batch of diets against resolved groups: each diet bans its own
/// ingredients and every ingredient of each group it names. Fails on the
/// first group name that `groups` does not hold.
pub fn flatten_diets(raw: &NameMap<RawDiet>, groups: &NameMap<IngredientGroup>) -> (r: Result<
    NameMap<Diet>,
    TaxonomyError,
>)
    requires
        raw.wf(),
        groups.wf(),
    ensures
        r is Ok <==> banned_groups_known(raw@, groups@),
        match r {
            Ok(out) => {
                &&& out.wf()
                &&& out@.dom() == raw@.dom()
                &&& forall|k: Seq<char>| #[trigger]
                    out@.contains_key(k) ==> out@[k]@ == resolved_diet(groups@, raw@[k])
            },
            Err(TaxonomyError::UnresolvedReference { record, reference }) => {
                &&& raw@.contains_key(record@)
                &&& !groups@.contains_key(reference@)
                &&& exists|j: int|
                    0 <= j < raw@[record@].banned_groups@.len()
                        && #[trigger] raw@[record@].banned_groups@[j]@ == reference@
            },
            Err(_) => false,
        },
{
    let entries = raw.entries();
    let n = entries.len();
    let mut out: NameMap<Diet> = NameMap::new();
    let mut i: usize = 0;
    while i < n
        invariant
            raw.wf(),
            groups.wf(),
            entries@ == raw.entry_seq(),
            n == entries@.len(),
            0 <= i <= n,
            out.wf(),
            names_of(out.entry_seq()) == names_of(raw.entry_seq()).take(i as int),
            forall|t: int|
                0 <= t < i ==> #[trigger] out.entry_seq()[t].1@ == resolved_diet(
                    groups@,
                    raw.entry_seq()[t].1,
                ),
            forall|t: int, j: int|
                #![trigger raw.entry_seq()[t].1.banned_groups@[j]]
                0 <= t < i && 0 <= j < raw.entry_seq()[t].1.banned_groups@.len()
                    ==> groups@.contains_key(raw.entry_seq()[t].1.banned_groups@[j]@),
        decreases n - i,
    {
        let name = &entries[i].0;
        let record = &entries[i].1;
        proof {
            lemma_map_of_entry(raw.entry_seq(), i as int);
        }
        let mut diet = Diet::new();
        diet.merge_diet(&record.banned_ingredients);
        let m = record.banned_groups.len();
        let mut j: usize = 0;
        while j < m
            invariant
                groups.wf(),
                raw@.contains_key(name@),
                raw@[name@] == *record,
                m == record.banned_groups@.len(),
                0 <= j <= m,
                diet.wf(),
                diet@ == record.banned_ingredients@.union(
                    banned_group_union(groups@, record.banned_groups@.take(j as int)),
                ),
                forall|u: int|
                    0 <= u < j ==> groups@.contains_key(#[trigger] record.banned_groups@[u]@),
            decreases m - j,
        {
            let group_name = &record.banned_groups[j];
            match groups.get(group_name.as_str()) {
                None => {
                    assert(raw@[name@].banned_groups@[j as int] == *group_name);
                    assert(!banned_groups_known(raw@, groups@));
                    return Err(
                        TaxonomyError::UnresolvedReference {
                            record: name.clone(),
                            reference: group_name.clone(),
                        },
                    );
                },
                Some(found) => {
                    diet.merge_group(found);
                    assert(record.banned_groups@.take(j + 1).drop_last()
                        =~= record.banned_groups@.take(j as int));
                    assert(diet@ =~= record.banned_ingredients@.union(
                        banned_group_union(groups@, record.banned_groups@.take(j + 1)),
                    ));
                },
            }
            j = j + 1;
        }
        assert(record.banned_groups@.take(m as int) =~= record.banned_groups@);
        proof {
            lemma_map_of_dom(out.entry_seq());
            if out@.contains_key(name@) {
                let t = choose|t: int|
                    0 <= t < names_of(out.entry_seq()).len() && names_of(out.entry_seq())[t]
                        == name@;
                assert(names_of(raw.entry_seq())[t] == names_of(raw.entry_seq())[i as int]);
            }
        }
        let ghost before = out.entry_seq();
        out.insert_new(name.clone(), diet);
        assert(names_of(out.entry_seq()) =~= names_of(raw.entry_seq()).take(i + 1));
        assert forall|t: int| 0 <= t < i + 1 implies #[trigger] out.entry_seq()[t].1@
            == resolved_diet(groups@, raw.entry_seq()[t].1) by {
            if t < i {
                assert(out.entry_seq()[t] == before[t]);
            }
        }
        i = i + 1;
    }
    assert(names_of(raw.entry_seq()).take(n as int) =~= names_of(raw.entry_seq()));
    proof {
        lemma_map_of_dom(out.entry_seq());
        lemma_map_of_dom(raw.entry_seq());
        assert forall|k: Seq<char>| #[trigger] out@.contains_key(k) implies out@[k]@
            == resolved_diet(groups@, raw@[k]) by {
            let t = choose|t: int|
                0 <= t < names_of(out.entry_seq()).len() && names_of(out.entry_seq())[t] == k;
            lemma_map_of_entry(out.entry_seq(), t);
            lemma_map_of_entry(raw.entry_seq(), t);
        }
        assert forall|k: Seq<char>, j: int|
            raw@.contains_key(k) && 0 <= j < raw@[k].banned_groups@.len()
                implies groups@.contains_key(#[trigger] raw@[k].banned_groups@[j]@) by {
            let t = choose|t: int|
                0 <= t < names_of(raw.entry_seq()).len() && names_of(raw.entry_seq())[t] == k;
            lemma_map_of_entry(raw.entry_seq(), t);
            assert(raw.entry_seq()[t].1.banned_groups@[j] == raw@[k].banned_groups@[j]);
        }
    }
    Ok(out)
}

/// An ingredient is among the own ingredients of the groups named in `names`
/// exactly when one of those groups holds it.
pub proof fn lemma_subgroup_union_members(raw: Map<Seq<char>, RawGroup>, names: Seq<String>)
    ensures
        forall|x: Seq<char>|
            #[trigger] subgroup_union(raw, names).contains(x) <==> exists|j: int|
                0 <= j < names.len() && #[trigger] raw[names[j]@].ingredients@.contains(x),
    decreases names.len(),
{
    if names.len() > 0 {
        let rest = names.drop_last();
        lemma_subgroup_union_members(raw, rest);
        assert forall|x: Seq<char>| #[trigger] subgroup_union(raw, names).contains(x) implies exists|
            j: int,
        | 0 <= j < names.len() && #[trigger] raw[names[j]@].ingredients@.contains(x) by {
            if subgroup_union(raw, rest).contains(x) {
                let j = choose|j: int|
                    0 <= j < rest.len() && #[trigger] raw[rest[j]@].ingredients@.contains(x);
                assert(names[j] == rest[j]);
            } else {
                assert(raw[names[names.len() - 1]@].ingredients@.contains(x));
            }
        }
        assert forall|x: Seq<char>|
            (exists|j: int|
                0 <= j < names.len() && #[trigger] raw[names[j]@].ingredients@.contains(
                    x,
                )) implies #[trigger] subgroup_union(raw, names).contains(x) by {
            let j = choose|j: int|
                0 <= j < names.len() && #[trigger] raw[names[j]@].ingredients@.contains(x);
            if j < names.len() - 1 {
                assert(rest[j] == names[j]);
                assert(raw[rest[j]@].ingredients@.contains(x));
                assert(subgroup_union(raw, rest).contains(x));
            } else {
                assert(names.last() == names[j]);
            }
        }
    }
}

/// The order in which a group lists its subgroups, and any repeats among
/// them, do not change what it resolves to: two groups with the same own
/// ingredients that name the same subgroups resolve to the same ingredients.
pub proof fn lemma_resolution_ignores_subgroup_order(
    raw: Map<Seq<char>, RawGroup>,
    a: RawGroup,
    b: RawGroup,
)
    requires
        a.ingredients@ == b.ingredients@,
        a.subgroups@.map_values(|s: String| s@).to_set() == b.subgroups@.map_values(
            |s: String| s@,
        ).to_set(),
    ensures
        resolved_group(raw, a) == resolved_group(raw, b),
{
    let sa = a.subgroups@;
    let sb = b.subgroups@;
    let va = sa.map_values(|s: String| s@);
    let vb = sb.map_values(|s: String| s@);
    lemma_subgroup_union_members(raw, sa);
    lemma_subgroup_union_members(raw, sb);
    assert forall|x: Seq<char>| subgroup_union(raw, sa).contains(x) implies #[trigger] subgroup_union(
        raw,
        sb,
    ).contains(x) by {
        let j = choose|j: int| 0 <= j < sa.len() && #[trigger] raw[sa[j]@].ingredients@.contains(x);
        assert(va[j] == sa[j]@);
        assert(va.to_set().contains(sa[j]@));
        let u = choose|u: int| 0 <= u < vb.len() && #[trigger] vb[u] == sa[j]@;
        assert(raw[sb[u]@].ingredients@.contains(x));
    }
    assert forall|x: Seq<char>| subgroup_union(raw, sb).contains(x) implies #[trigger] subgroup_union(
        raw,
        sa,
    ).contains(x) by {
        let j = choose|j: int| 0 <= j < sb.len() && #[trigger] raw[sb[j]@].ingredients@.contains(x);
        assert(vb[j] == sb[j]@);
        assert(vb.to_set().contains(sb[j]@));
        let u = choose|u: int| 0 <= u < va.len() && #[trigger] va[u] == sb[j]@;
        assert(raw[sa[u]@].ingredients@.contains(x));
    }
    assert(subgroup_union(raw, sa) =~= subgroup_union(raw, sb));
}

/// An ingredient is among the ingredients of the resolved groups named in
/// `names` exactly when one of those groups holds it.
pub proof fn lemma_banned_group_union_members(groups: Map<Seq<char>, IngredientGroup>, names: Seq<String>)
    ensures
        forall|x: Seq<char>|
            #[trigger] banned_group_union(groups, names).contains(x) <==> exists|j: int|
                0 <= j < names.len() && #[trigger] groups[names[j]@]@.contains(x),
    decreases names.len(),
{
    if names.len() > 0 {
        let rest = names.drop_last();
        lemma_banned_group_union_members(groups, rest);
        assert forall|x: Seq<char>| #[trigger] banned_group_union(groups, names).contains(x) implies exists|
            j: int,
        | 0 <= j < names.len() && #[trigger] groups[names[j]@]@.contains(x) by {
            if banned_group_union(groups, rest).contains(x) {
                let j = choose|j: int|
                    0 <= j < rest.len() && #[trigger] groups[rest[j]@]@.contains(x);
                assert(names[j] == rest[j]);
            } else {
                assert(groups[names[names.len() - 1]@]@.contains(x));
            }
        }
        assert forall|x: Seq<char>|
            (exists|j: int|
                0 <= j < names.len() && #[trigger] groups[names[j]@]@.contains(
                    x,
                )) implies #[trigger] banned_group_union(groups, names).contains(x) by {
            let j = choose|j: int|
                0 <= j < names.len() && #[trigger] groups[names[j]@]@.contains(x);
            if j < names.len() - 1 {
                assert(rest[j] == names[j]);
                assert(groups[rest[j]@]@.contains(x));
                assert(banned_group_union(groups, rest).contains(x));
            } else {
                assert(names.last() == names[j]);
            }
        }
    }
}

/// The order in which a diet lists its banned groups, and any repeats among
/// them, do not change its banlist: two diets with the same own banned
/// ingredients that name the same groups resolve to the same banlist.
pub proof fn lemma_diet_resolution_ignores_group_order(
    groups: Map<Seq<char>, IngredientGroup>,
    a: RawDiet,
    b: RawDiet,
)
    requires
        a.banned_ingredients@ == b.banned_ingredients@,
        a.banned_groups@.map_values(|s: String| s@).to_set() == b.banned_groups@.map_values(
            |s: String| s@,
        ).to_set(),
    ensures
        resolved_diet(groups, a) == resolved_diet(groups, b),
{
    let sa = a.banned_groups@;
    let sb = b.banned_groups@;
    let va = sa.map_values(|s: String| s@);
    let vb = sb.map_values(|s: String| s@);
    lemma_banned_group_union_members(groups, sa);
    lemma_banned_group_union_members(groups, sb);
    assert forall|x: Seq<char>| banned_group_union(groups, sa).contains(x) implies #[trigger] banned_group_union(
        groups,
        sb,
    ).contains(x) by {
        let j = choose|j: int| 0 <= j < sa.len() && #[trigger] groups[sa[j]@]@.contains(x);
        assert(va[j] == sa[j]@);
        assert(va.to_set().contains(sa[j]@));
        let u = choose|u: int| 0 <= u < vb.len() && #[trigger] vb[u] == sa[j]@;
        assert(groups[sb[u]@]@.contains(x));
    }
    assert forall|x: Seq<char>| banned_group_union(groups, sb).contains(x) implies #[trigger] banned_group_union(
        groups,
        sa,
    ).contains(x) by {
        let j = choose|j: int| 0 <= j < sb.len() && #[trigger] groups[sb[j]@]@.contains(x);
        assert(vb[j] == sb[j]@);
        assert(vb.to_set().contains(sb[j]@));
        let u = choose|u: int| 0 <= u < va.len() && #[trigger] va[u] == sb[j]@;
        assert(groups[sa[u]@]@.contains(x));
    }
    assert(banned_group_union(groups, sa) =~= banned_group_union(groups, sb));
}

} // verus!
