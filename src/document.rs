use vstd::prelude::*;

use crate::group::{Diet, IngredientGroup};
use crate::ingredient::{lowercase_of, Ingredient};
use crate::name_map::{lemma_map_of_dom, names_of, NameMap};
use crate::resolve::{RawDiet, RawGroup, TaxonomyError};

verus! {

/// A value of a structured key-value document.
#[derive(Debug)]
pub enum Doc {
    /// A text.
    Text(String),
    /// A list of values.
    List(Vec<Doc>),
    /// Keys with their values, in the order the document gives them.
    Table(Vec<(String, Doc)>),
    /// Any other scalar: a number, a truth value, a date.
    Other,
}

/// Whether `v` is a list whose items are all texts.
pub open spec fn is_text_list(v: Doc) -> bool {
    match v {
        Doc::List(items) => forall|i: int| 0 <= i < items@.len() ==> #[trigger] items@[i] is Text,
        _ => false,
    }
}

/// The text of a value that is a text, else the empty text.
pub open spec fn text_of(v: Doc) -> Seq<char> {
    match v {
        Doc::Text(s) => s@,
        _ => Seq::empty(),
    }
}

/// The texts of a list of texts, in order.
pub open spec fn list_texts(v: Doc) -> Seq<Seq<char>> {
    match v {
        Doc::List(items) => items@.map_values(|d: Doc| text_of(d)),
        _ => Seq::empty(),
    }
}

/// The value of the last entry of `fields` under `key`.
pub open spec fn field(fields: Seq<(String, Doc)>, key: Seq<char>) -> Option<Doc>
    decreases fields.len(),
{
    if fields.len() == 0 {
        None
    } else if fields.last().0@ == key {
        Some(fields.last().1)
    } else {
        field(fields.drop_last(), key)
    }
}

/// The texts listed under `key`; none where the key is absent.
pub open spec fn field_texts(fields: Seq<(String, Doc)>, key: Seq<char>) -> Seq<Seq<char>> {
    match field(fields, key) {
        Some(v) => list_texts(v),
        None => Seq::empty(),
    }
}

/// Whether `entry` is a field of a group record: a known key with a list of
/// texts.
pub open spec fn group_field_ok(entry: (String, Doc)) -> bool {
    (entry.0@ == "ingredients"@ || entry.0@ == "subgroups"@) && is_text_list(entry.1)
}

/// Whether `entry` is a field of a diet record: a known key with a list of
/// texts.
pub open spec fn diet_field_ok(entry: (String, Doc)) -> bool {
    (entry.0@ == "banned_ingredients"@ || entry.0@ == "banned_groups"@) && is_text_list(entry.1)
}

/// The entries of a table; none for any other value.
pub open spec fn table_fields(v: Doc) -> Seq<(String, Doc)> {
    match v {
        Doc::Table(fields) => fields@,
        _ => Seq::empty(),
    }
}

/// Whether `v` is a well-formed group record. Both fields may be left out.
pub open spec fn group_record_ok(v: Doc) -> bool {
    &&& v is Table
    &&& forall|i: int|
        0 <= i < table_fields(v).len() ==> #[trigger] group_field_ok(table_fields(v)[i])
}

/// Whether `v` is a well-formed diet record. `banned_groups` must be present.
pub open spec fn diet_record_ok(v: Doc) -> bool {
    &&& v is Table
    &&& forall|i: int|
        0 <= i < table_fields(v).len() ==> #[trigger] diet_field_ok(table_fields(v)[i])
    &&& field(table_fields(v), "banned_groups"@) is Some
}

/// The ingredients named by a list of texts, each in lowercase.
pub open spec fn ingredient_set(texts: Seq<Seq<char>>) -> Set<Seq<char>> {
    texts.map_values(|t: Seq<char>| lowercase_of(t)).to_set()
}

/// The texts of a sequence of strings, in order.
pub open spec fn string_texts(s: Seq<String>) -> Seq<Seq<char>> {
    s.map_values(|x: String| x@)
}

/// Whether `g` is what the group record `v` says.
pub open spec fn group_decoded_from(g: RawGroup, v: Doc) -> bool {
    &&& g.ingredients@ == ingredient_set(field_texts(table_fields(v), "ingredients"@))
    &&& string_texts(g.subgroups@) == field_texts(table_fields(v), "subgroups"@)
}

/// Whether `d` is what the diet record `v` says.
pub open spec fn diet_decoded_from(d: RawDiet, v: Doc) -> bool {
    &&& d.banned_ingredients@ == ingredient_set(
        field_texts(table_fields(v), "banned_ingredients"@),
    )
    &&& string_texts(d.banned_groups@) == field_texts(table_fields(v), "banned_groups"@)
}

/// The texts of a list of texts; `None` for any other value.
pub fn decode_text_list(v: &Doc) -> (r: Option<Vec<String>>)
    ensures
        r is Some <==> is_text_list(*v),
        r matches Some(texts) ==> string_texts(texts@) == list_texts(*v),
{
    match v {
        Doc::List(items) => {
            let mut out: Vec<String> = Vec::new();
            let mut i: usize = 0;
            while i < items.len()
                invariant
                    *v == Doc::List(*items),
                    0 <= i <= items@.len(),
                    out@.len() == i,
                    forall|j: int| 0 <= j < i ==> #[trigger] items@[j] is Text,
                    forall|j: int| 0 <= j < i ==> #[trigger] out@[j]@ == text_of(items@[j]),
                decreases items@.len() - i,
            {
                match &items[i] {
                    Doc::Text(s) => {
                        out.push(s.clone());
                    },
                    _ => {
                        assert(!(items@[i as int] is Text));
                        assert(!is_text_list(*v));
                        return None;
                    },
                }
                i = i + 1;
            }
            assert(string_texts(out@) =~= list_texts(*v));
            Some(out)
        },
        _ => None,
    }
}

/// The ingredients named by `texts`, each in lowercase, as a group.
pub fn group_of_texts(texts: &Vec<String>) -> (r: IngredientGroup)
    ensures
        r.wf(),
        r@ == ingredient_set(string_texts(texts@)),
{
    let mut g = IngredientGroup::new();
    let mut i: usize = 0;
    while i < texts.len()
        invariant
            0 <= i <= texts@.len(),
            g.wf(),
            g@ == ingredient_set(string_texts(texts@).take(i as int)),
        decreases texts@.len() - i,
    {
        g.merge_ingredient(Ingredient::new(texts[i].as_str()));
        proof {
            let s = string_texts(texts@);
            assert(s.take(i + 1) =~= s.take(i as int).push(texts@[i as int]@));
            let f = |t: Seq<char>| lowercase_of(t);
            assert(s.take(i + 1).map_values(f) =~= s.take(i as int).map_values(f).push(
                lowercase_of(texts@[i as int]@),
            ));
            s.take(i as int).map_values(f).lemma_push_to_set_commute(lowercase_of(texts@[i as int]@));
        }
        i = i + 1;
    }
    assert(string_texts(texts@).take(texts@.len() as int) =~= string_texts(texts@));
    g
}

/// The keys of a record's fields are distinct texts.
proof fn lemma_keys_differ()
    ensures
        "ingredients"@ != "subgroups"@,
        "banned_ingredients"@ != "banned_groups"@,
{
    reveal_strlit("ingredients");
    reveal_strlit("subgroups");
    reveal_strlit("banned_ingredients");
    reveal_strlit("banned_groups");
    assert("ingredients"@.len() != "subgroups"@.len());
    assert("banned_ingredients"@.len() != "banned_groups"@.len());
}

/// The field entries of `fields` up to `i` tell, for `key`, what the entry at
/// `i` tells if it is under `key`, else what the earlier ones tell.
proof fn lemma_field_step(fields: Seq<(String, Doc)>, i: int, key: Seq<char>)
    requires
        0 <= i < fields.len(),
    ensures
        field(fields.take(i + 1), key) == if fields[i].0@ == key {
            Some(fields[i].1)
        } else {
            field(fields.take(i), key)
        },
{
    assert(fields.take(i + 1).drop_last() =~= fields.take(i));
}

/// Reads a group record. Fails on a value that is not a table, and on the
/// first field that has an unknown key or is not a list of texts.
pub fn decode_group_record(document: usize, name: &String, v: &Doc) -> (r: Result<
    RawGroup,
    TaxonomyError,
>)
    ensures
        r is Ok <==> group_record_ok(*v),
        match r {
            Ok(g) => group_decoded_from(g, *v),
            Err(TaxonomyError::Schema { document: d, record, field: f }) => {
                &&& d == document
                &&& record@ == name@
                &&& !(v is Table) ==> f@ == Seq::<char>::empty()
                &&& v is Table ==> exists|i: int|
                    0 <= i < table_fields(*v).len() && !group_field_ok(table_fields(*v)[i])
                        && #[trigger] table_fields(*v)[i].0@ == f@
            },
            Err(_) => false,
        },
{
    match v {
        Doc::Table(fields) => {
            let ingredients_key = "ingredients".to_owned();
            let subgroups_key = "subgroups".to_owned();
            let mut ingredients = IngredientGroup::new();
            let mut subgroups: Vec<String> = Vec::new();
            assert(Seq::<Seq<char>>::empty().map_values(|t: Seq<char>| lowercase_of(t)).to_set()
                =~= Set::<Seq<char>>::empty());
            assert(string_texts(subgroups@) =~= Seq::<Seq<char>>::empty());
            let mut i: usize = 0;
            while i < fields.len()
                invariant
                    *v == Doc::Table(*fields),
                    ingredients_key@ == "ingredients"@,
                    subgroups_key@ == "subgroups"@,
                    0 <= i <= fields@.len(),
                    forall|j: int| 0 <= j < i ==> #[trigger] group_field_ok(fields@[j]),
                    ingredients@ == ingredient_set(
                        field_texts(fields@.take(i as int), "ingredients"@),
                    ),
                    string_texts(subgroups@) == field_texts(
                        fields@.take(i as int),
                        "subgroups"@,
                    ),
                decreases fields@.len() - i,
            {
                let key = &fields[i].0;
                proof {
                    lemma_keys_differ();
                    lemma_field_step(fields@, i as int, "ingredients"@);
                    lemma_field_step(fields@, i as int, "subgroups"@);
                    assert(table_fields(*v)[i as int] == fields@[i as int]);
                }
                if *key == ingredients_key || *key == subgroups_key {
                    match decode_text_list(&fields[i].1) {
                        Some(texts) => {
                            if *key == ingredients_key {
                                ingredients = group_of_texts(&texts);
                            } else {
                                subgroups = texts;
                            }
                        },
                        None => {
                            assert(!group_field_ok(fields@[i as int]));
                            return Err(
                                TaxonomyError::Schema {
                                    document,
                                    record: name.clone(),
                                    field: key.clone(),
                                },
                            );
                        },
                    }
                } else {
                    assert(!group_field_ok(fields@[i as int]));
                    return Err(
                        TaxonomyError::Schema { document, record: name.clone(), field: key.clone() },
                    );
                }
                i = i + 1;
            }
            assert(fields@.take(fields@.len() as int) =~= fields@);
            Ok(RawGroup { ingredients, subgroups })
        },
        _ => Err(TaxonomyError::Schema { document, record: name.clone(), field: String::new() }),
    }
}

/// Reads a diet record. Fails on a value that is not a table, on the first
/// field that has an unknown key or is not a list of texts, and where
/// `banned_groups` is missing.
pub fn decode_diet_record(document: usize, name: &String, v: &Doc) -> (r: Result<
    RawDiet,
    TaxonomyError,
>)
    ensures
        r is Ok <==> diet_record_ok(*v),
        match r {
            Ok(d) => diet_decoded_from(d, *v),
            Err(TaxonomyError::Schema { document: d, record, field: f }) => {
                &&& d == document
                &&& record@ == name@
                &&& !(v is Table) ==> f@ == Seq::<char>::empty()
                &&& v is Table ==> (exists|i: int|
                    0 <= i < table_fields(*v).len() && !diet_field_ok(table_fields(*v)[i])
                        && #[trigger] table_fields(*v)[i].0@ == f@) || (f@ == "banned_groups"@
                    && field(table_fields(*v), "banned_groups"@) is None)
            },
            Err(_) => false,
        },
{
    match v {
        Doc::Table(fields) => {
            let ingredients_key = "banned_ingredients".to_owned();
            let groups_key = "banned_groups".to_owned();
            let mut banned = IngredientGroup::new();
            let mut groups: Vec<String> = Vec::new();
            let mut has_groups = false;
            assert(Seq::<Seq<char>>::empty().map_values(|t: Seq<char>| lowercase_of(t)).to_set()
                =~= Set::<Seq<char>>::empty());
            assert(string_texts(groups@) =~= Seq::<Seq<char>>::empty());
            let mut i: usize = 0;
            while i < fields.len()
                invariant
                    *v == Doc::Table(*fields),
                    ingredients_key@ == "banned_ingredients"@,
                    groups_key@ == "banned_groups"@,
                    0 <= i <= fields@.len(),
                    forall|j: int| 0 <= j < i ==> #[trigger] diet_field_ok(fields@[j]),
                    banned@ == ingredient_set(
                        field_texts(fields@.take(i as int), "banned_ingredients"@),
                    ),
                    string_texts(groups@) == field_texts(fields@.take(i as int), "banned_groups"@),
                    has_groups == field(fields@.take(i as int), "banned_groups"@) is Some,
                decreases fields@.len() - i,
            {
                let key = &fields[i].0;
                proof {
                    lemma_keys_differ();
                    lemma_field_step(fields@, i as int, "banned_ingredients"@);
                    lemma_field_step(fields@, i as int, "banned_groups"@);
                    assert(table_fields(*v)[i as int] == fields@[i as int]);
                }
                if *key == ingredients_key || *key == groups_key {
                    match decode_text_list(&fields[i].1) {
                        Some(texts) => {
                            if *key == ingredients_key {
                                banned = group_of_texts(&texts);
                            } else {
                                groups = texts;
                                has_groups = true;
                            }
                        },
                        None => {
                            assert(!diet_field_ok(fields@[i as int]));
                            return Err(
                                TaxonomyError::Schema {
                                    document,
                                    record: name.clone(),
                                    field: key.clone(),
                                },
                            );
                        },
                    }
                } else {
                    assert(!diet_field_ok(fields@[i as int]));
                    return Err(
                        TaxonomyError::Schema { document, record: name.clone(), field: key.clone() },
                    );
                }
                i = i + 1;
            }
            assert(fields@.take(fields@.len() as int) =~= fields@);
            if !has_groups {
                return Err(
                    TaxonomyError::Schema { document, record: name.clone(), field: groups_key },
                );
            }
            let mut banned_ingredients = Diet::new();
            banned_ingredients.merge_group(&banned);
            assert(banned_ingredients@ =~= banned@);
            Ok(RawDiet { banned_ingredients, banned_groups: groups })
        },
        _ => Err(TaxonomyError::Schema { document, record: name.clone(), field: String::new() }),
    }
}

/// The records of a document whose one entry is a table under `key`; `None`
/// for a document of any other shape.
pub open spec fn section(doc: Doc, key: Seq<char>) -> Option<Seq<(String, Doc)>> {
    match doc {
        Doc::Table(top) => if top@.len() == 1 && top@[0].0@ == key && top@[0].1 is Table {
            Some(table_fields(top@[0].1))
        } else {
            None
        },
        _ => None,
    }
}

/// The names of the records in the section of `doc` under `key`.
pub open spec fn section_names(doc: Doc, key: Seq<char>) -> Set<Seq<char>> {
    match section(doc, key) {
        Some(recs) => names_of(recs).to_set(),
        None => Set::empty(),
    }
}

/// The names of all records under `key` in a batch of documents.
pub open spec fn batch_names(docs: Seq<Doc>, key: Seq<char>) -> Set<Seq<char>>
    decreases docs.len(),
{
    if docs.len() == 0 {
        Set::empty()
    } else {
        batch_names(docs.drop_last(), key).union(section_names(docs.last(), key))
    }
}

/// No two records share a name, and none takes a name of `taken`.
pub open spec fn names_fresh(recs: Seq<(String, Doc)>, taken: Set<Seq<char>>) -> bool {
    &&& names_of(recs).no_duplicates()
    &&& forall|i: int| 0 <= i < recs.len() ==> !taken.contains(#[trigger] names_of(recs)[i])
}

/// The document that an error names, where it names one.
pub open spec fn error_document(e: TaxonomyError) -> Option<usize> {
    match e {
        TaxonomyError::Syntax { document, .. } => Some(document),
        TaxonomyError::Schema { document, .. } => Some(document),
        TaxonomyError::DuplicateName { document, .. } => Some(document),
        TaxonomyError::UnresolvedReference { .. } => None,
    }
}

/// Whether `doc` is a well-formed group document, given the names that
/// earlier documents took: one `groups` table of well-formed records with
/// new names.
pub open spec fn group_document_ok(doc: Doc, taken: Set<Seq<char>>) -> bool {
    &&& section(doc, "groups"@) is Some
    &&& names_fresh(section(doc, "groups"@)->Some_0, taken)
    &&& forall|i: int|
        0 <= i < section(doc, "groups"@)->Some_0.len() ==> #[trigger] group_record_ok(
            section(doc, "groups"@)->Some_0[i].1,
        )
}

/// Whether `after` is `before` with the group records `recs` added.
pub open spec fn groups_added(
    before: Map<Seq<char>, RawGroup>,
    after: Map<Seq<char>, RawGroup>,
    recs: Seq<(String, Doc)>,
) -> bool {
    &&& after.dom() == before.dom().union(names_of(recs).to_set())
    &&& forall|k: Seq<char>| #[trigger] before.contains_key(k) ==> after[k] == before[k]
    &&& forall|i: int|
        0 <= i < recs.len() ==> #[trigger] group_decoded_from(after[recs[i].0@], recs[i].1)
}

/// Reads one group document into `batch`. Fails where the document is not one
/// `groups` table, where a record is malformed, and where a record's name is
/// already taken.
pub fn decode_group_document(document: usize, doc: &Doc, batch: &mut NameMap<RawGroup>) -> (r:
    Result<(), TaxonomyError>)
    requires
        old(batch).wf(),
    ensures
        final(batch).wf(),
        r is Ok <==> group_document_ok(*doc, old(batch)@.dom()),
        r is Ok ==> groups_added(old(batch)@, final(batch)@, section(*doc, "groups"@)->Some_0),
        r matches Err(e) ==> error_document(e) == Some(document),
        r matches Err(e) ==> e is Schema || e is DuplicateName,
{
    let key = "groups".to_owned();
    match doc {
        Doc::Table(top) => {
            if top.len() != 1 {
                return Err(TaxonomyError::Schema { document, record: String::new(), field: key });
            }
            if top[0].0 != key {
                return Err(
                    TaxonomyError::Schema {
                        document,
                        record: String::new(),
                        field: top[0].0.clone(),
                    },
                );
            }
            match &top[0].1 {
                Doc::Table(recs) => {
                    let ghost before = batch@;
                    assert(names_of(recs@.take(0)) =~= Seq::<Seq<char>>::empty());
                    assert(before.dom().union(names_of(recs@.take(0)).to_set()) =~= before.dom());
                    let mut i: usize = 0;
                    while i < recs.len()
                        invariant
                            section(*doc, "groups"@) == Some(recs@),
                            before == old(batch)@,
                            0 <= i <= recs@.len(),
                            batch.wf(),
                            batch@.dom() == before.dom().union(names_of(recs@.take(i as int)).to_set()),
                            forall|k: Seq<char>| #[trigger] before.contains_key(k) ==> batch@[k] == before[k],
                            forall|t: int|
                                0 <= t < i ==> #[trigger] group_decoded_from(batch@[recs@[t].0@], recs@[t].1),
                            forall|t: int| 0 <= t < i ==> #[trigger] group_record_ok(recs@[t].1),
                            names_fresh(recs@.take(i as int), before.dom()),
                        decreases recs@.len() - i,
                    {
                        let name = &recs[i].0;
                        let ghost prefix = names_of(recs@.take(i as int));
                        assert(names_of(recs@.take(i + 1)) =~= prefix.push(name@));
                        assert(names_of(recs@)[i as int] == name@);
                        if batch.contains_key(name.as_str()) {
                            proof {
                                if !before.contains_key(name@) {
                                    assert(prefix.to_set().contains(name@));
                                    let t = choose|t: int| 0 <= t < prefix.len() && prefix[t] == name@;
                                    assert(names_of(recs@)[t] == prefix[t]);
                                    assert(!names_of(recs@).no_duplicates());
                                } else {
                                    assert(before.dom().contains(names_of(recs@)[i as int]));
                                }
                                assert(!names_fresh(recs@, before.dom()));
                            }
                            return Err(TaxonomyError::DuplicateName { document, record: name.clone() });
                        }
                        match decode_group_record(document, name, &recs[i].1) {
                            Ok(g) => {
                                let ghost mid = batch@;
                                batch.insert_new(name.clone(), g);
                                proof {
                                    prefix.lemma_push_to_set_commute(name@);
                                    assert(batch@.dom() =~= before.dom().union(
                                        names_of(recs@.take(i + 1)).to_set(),
                                    ));
                                    assert forall|t: int| 0 <= t < i + 1 implies #[trigger] group_decoded_from(
                                        batch@[recs@[t].0@],
                                        recs@[t].1,
                                    ) by {
                                        if t < i {
                                            assert(prefix[t] == recs@[t].0@);
                                            assert(mid.contains_key(recs@[t].0@));
                                        }
                                    }
                                    assert forall|t: int| 0 <= t < i + 1 implies !before.dom().contains(
                                        #[trigger] names_of(recs@.take(i + 1))[t],
                                    ) by {
                                        if t < i {
                                            assert(names_of(recs@.take(i + 1))[t] == prefix[t]);
                                        }
                                    }
                                }
                            },
                            Err(e) => {
                                return Err(e);
                            },
                        }
                        i = i + 1;
                    }
                    assert(recs@.take(recs@.len() as int) =~= recs@);
                    Ok(())
                },
                _ => Err(TaxonomyError::Schema { document, record: String::new(), field: key }),
            }
        },
        _ => Err(TaxonomyError::Schema { document, record: String::new(), field: String::new() }),
    }
}

/// Whether `docs` is a well-formed batch of group documents: each one is
/// well-formed and takes only names that no earlier one took.
pub open spec fn group_batch_ok(docs: Seq<Doc>) -> bool {
    forall|d: int|
        0 <= d < docs.len() ==> #[trigger] group_document_ok(
            docs[d],
            batch_names(docs.take(d), "groups"@),
        )
}

/// Whether `m` holds what a batch of group documents says: the records of
/// all documents, each under its name.
pub open spec fn group_batch_decoded(docs: Seq<Doc>, m: Map<Seq<char>, RawGroup>) -> bool {
    &&& m.dom() == batch_names(docs, "groups"@)
    &&& forall|d: int, i: int|
        0 <= d < docs.len() && 0 <= i < section(docs[d], "groups"@)->Some_0.len()
            ==> #[trigger] group_decoded_from(
            m[section(docs[d], "groups"@)->Some_0[i].0@],
            section(docs[d], "groups"@)->Some_0[i].1,
        )
}

/// Reads a batch of group documents into one map of records. A malformed
/// document aborts the whole batch, and the error names it.
pub fn decode_group_batch(docs: &Vec<Doc>) -> (r: Result<NameMap<RawGroup>, TaxonomyError>)
    ensures
        r is Ok <==> group_batch_ok(docs@),
        r matches Ok(batch) ==> batch.wf() && group_batch_decoded(docs@, batch@),
        r matches Err(e) ==> error_document(e) matches Some(d) && d < docs@.len(),
        r matches Err(e) ==> e is Schema || e is DuplicateName,
{
    let mut batch: NameMap<RawGroup> = NameMap::new();
    assert(batch_names(docs@.take(0), "groups"@) =~= Set::<Seq<char>>::empty());
    let mut d: usize = 0;
    while d < docs.len()
        invariant
            0 <= d <= docs@.len(),
            batch.wf(),
            batch@.dom() == batch_names(docs@.take(d as int), "groups"@),
            forall|e: int|
                0 <= e < d ==> #[trigger] group_document_ok(
                    docs@[e],
                    batch_names(docs@.take(e), "groups"@),
                ),
            forall|e: int, i: int|
                0 <= e < d && 0 <= i < section(docs@[e], "groups"@)->Some_0.len()
                    ==> #[trigger] group_decoded_from(
                    batch@[section(docs@[e], "groups"@)->Some_0[i].0@],
                    section(docs@[e], "groups"@)->Some_0[i].1,
                ) && batch@.contains_key(section(docs@[e], "groups"@)->Some_0[i].0@),
        decreases docs@.len() - d,
    {
        let ghost before = batch@;
        match decode_group_document(d, &docs[d], &mut batch) {
            Ok(()) => {
                proof {
                    let recs = section(docs@[d as int], "groups"@)->Some_0;
                    assert(docs@.take(d + 1).drop_last() =~= docs@.take(d as int));
                    assert(batch@.dom() =~= batch_names(docs@.take(d + 1), "groups"@));
                    assert forall|e: int, i: int|
                        0 <= e < d + 1 && 0 <= i < section(docs@[e], "groups"@)->Some_0.len()
                            implies #[trigger] group_decoded_from(
                            batch@[section(docs@[e], "groups"@)->Some_0[i].0@],
                            section(docs@[e], "groups"@)->Some_0[i].1,
                        ) && batch@.contains_key(section(docs@[e], "groups"@)->Some_0[i].0@) by {
                        if e == d {
                            assert(group_decoded_from(batch@[recs[i].0@], recs[i].1));
                            assert(names_of(recs)[i] == recs[i].0@);
                            assert(names_of(recs).to_set().contains(recs[i].0@));
                        } else {
                            assert(group_decoded_from(
                                before[section(docs@[e], "groups"@)->Some_0[i].0@],
                                section(docs@[e], "groups"@)->Some_0[i].1,
                            ));
                            assert(before.contains_key(section(docs@[e], "groups"@)->Some_0[i].0@));
                        }
                    }
                }
            },
            Err(e) => {
                assert(!group_batch_ok(docs@));
                return Err(e);
            },
        }
        d = d + 1;
    }
    assert(docs@.take(docs@.len() as int) =~= docs@);
    Ok(batch)
}

/// Whether `doc` is a well-formed diet document, given the names that
/// earlier documents took: one `diets` table of well-formed records with
/// new names.
pub open spec fn diet_document_ok(doc: Doc, taken: Set<Seq<char>>) -> bool {
    &&& section(doc, "diets"@) is Some
    &&& names_fresh(section(doc, "diets"@)->Some_0, taken)
    &&& forall|i: int|
        0 <= i < section(doc, "diets"@)->Some_0.len() ==> #[trigger] diet_record_ok(
            section(doc, "diets"@)->Some_0[i].1,
        )
}

/// Whether `after` is `before` with the diet records `recs` added.
pub open spec fn diets_added(
    before: Map<Seq<char>, RawDiet>,
    after: Map<Seq<char>, RawDiet>,
    recs: Seq<(String, Doc)>,
) -> bool {
    &&& after.dom() == before.dom().union(names_of(recs).to_set())
    &&& forall|k: Seq<char>| #[trigger] before.contains_key(k) ==> after[k] == before[k]
    &&& forall|i: int|
        0 <= i < recs.len() ==> #[trigger] diet_decoded_from(after[recs[i].0@], recs[i].1)
}

/// Reads one diet document into `batch`. Fails where the document is not one
/// `diets` table, where a record is malformed, and where a record's name is
/// already taken.
pub fn decode_diet_document(document: usize, doc: &Doc, batch: &mut NameMap<RawDiet>) -> (r:
    Result<(), TaxonomyError>)
    requires
        old(batch).wf(),
    ensures
        final(batch).wf(),
        r is Ok <==> diet_document_ok(*doc, old(batch)@.dom()),
        r is Ok ==> diets_added(old(batch)@, final(batch)@, section(*doc, "diets"@)->Some_0),
        r matches Err(e) ==> error_document(e) == Some(document),
        r matches Err(e) ==> e is Schema || e is DuplicateName,
{
    let key = "diets".to_owned();
    match doc {
        Doc::Table(top) => {
            if top.len() != 1 {
                return Err(TaxonomyError::Schema { document, record: String::new(), field: key });
            }
            if top[0].0 != key {
                return Err(
                    TaxonomyError::Schema {
                        document,
                        record: String::new(),
                        field: top[0].0.clone(),
                    },
                );
            }
            match &top[0].1 {
                Doc::Table(recs) => {
                    let ghost before = batch@;
                    assert(names_of(recs@.take(0)) =~= Seq::<Seq<char>>::empty());
                    assert(before.dom().union(names_of(recs@.take(0)).to_set()) =~= before.dom());
                    let mut i: usize = 0;
                    while i < recs.len()
                        invariant
                            section(*doc, "diets"@) == Some(recs@),
                            before == old(batch)@,
                            0 <= i <= recs@.len(),
                            batch.wf(),
                            batch@.dom() == before.dom().union(names_of(recs@.take(i as int)).to_set()),
                            forall|k: Seq<char>| #[trigger] before.contains_key(k) ==> batch@[k] == before[k],
                            forall|t: int|
                                0 <= t < i ==> #[trigger] diet_decoded_from(batch@[recs@[t].0@], recs@[t].1),
                            forall|t: int| 0 <= t < i ==> #[trigger] diet_record_ok(recs@[t].1),
                            names_fresh(recs@.take(i as int), before.dom()),
                        decreases recs@.len() - i,
                    {
                        let name = &recs[i].0;
                        let ghost prefix = names_of(recs@.take(i as int));
                        assert(names_of(recs@.take(i + 1)) =~= prefix.push(name@));
                        assert(names_of(recs@)[i as int] == name@);
                        if batch.contains_key(name.as_str()) {
                            proof {
                                if !before.contains_key(name@) {
                                    assert(prefix.to_set().contains(name@));
                                    let t = choose|t: int| 0 <= t < prefix.len() && prefix[t] == name@;
                                    assert(names_of(recs@)[t] == prefix[t]);
                                    assert(!names_of(recs@).no_duplicates());
                                } else {
                                    assert(before.dom().contains(names_of(recs@)[i as int]));
                                }
                                assert(!names_fresh(recs@, before.dom()));
                            }
                            return Err(TaxonomyError::DuplicateName { document, record: name.clone() });
                        }
                        match decode_diet_record(document, name, &recs[i].1) {
                            Ok(g) => {
                                let ghost mid = batch@;
                                batch.insert_new(name.clone(), g);
                                proof {
                                    prefix.lemma_push_to_set_commute(name@);
                                    assert(batch@.dom() =~= before.dom().union(
                                        names_of(recs@.take(i + 1)).to_set(),
                                    ));
                                    assert forall|t: int| 0 <= t < i + 1 implies #[trigger] diet_decoded_from(
                                        batch@[recs@[t].0@],
                                        recs@[t].1,
                                    ) by {
                                        if t < i {
                                            assert(prefix[t] == recs@[t].0@);
                                            assert(mid.contains_key(recs@[t].0@));
                                        }
                                    }
                                    assert forall|t: int| 0 <= t < i + 1 implies !before.dom().contains(
                                        #[trigger] names_of(recs@.take(i + 1))[t],
                                    ) by {
                                        if t < i {
                                            assert(names_of(recs@.take(i + 1))[t] == prefix[t]);
                                        }
                                    }
                                }
                            },
                            Err(e) => {
                                return Err(e);
                            },
                        }
                        i = i + 1;
                    }
                    assert(recs@.take(recs@.len() as int) =~= recs@);
                    Ok(())
                },
                _ => Err(TaxonomyError::Schema { document, record: String::new(), field: key }),
            }
        },
        _ => Err(TaxonomyError::Schema { document, record: String::new(), field: String::new() }),
    }
}

/// Whether `docs` is a well-formed batch of diet documents: each one is
/// well-formed and takes only names that no earlier one took.
pub open spec fn diet_batch_ok(docs: Seq<Doc>) -> bool {
    forall|d: int|
        0 <= d < docs.len() ==> #[trigger] diet_document_ok(
            docs[d],
            batch_names(docs.take(d), "diets"@),
        )
}

/// Whether `m` holds what a batch of diet documents says: the records of
/// all documents, each under its name.
pub open spec fn diet_batch_decoded(docs: Seq<Doc>, m: Map<Seq<char>, RawDiet>) -> bool {
    &&& m.dom() == batch_names(docs, "diets"@)
    &&& forall|d: int, i: int|
        0 <= d < docs.len() && 0 <= i < section(docs[d], "diets"@)->Some_0.len()
            ==> #[trigger] diet_decoded_from(
            m[section(docs[d], "diets"@)->Some_0[i].0@],
            section(docs[d], "diets"@)->Some_0[i].1,
        )
}

/// Reads a batch of diet documents into one map of records. A malformed
/// document aborts the whole batch, and the error names it.
pub fn decode_diet_batch(docs: &Vec<Doc>) -> (r: Result<NameMap<RawDiet>, TaxonomyError>)
    ensures
        r is Ok <==> diet_batch_ok(docs@),
        r matches Ok(batch) ==> batch.wf() && diet_batch_decoded(docs@, batch@),
        r matches Err(e) ==> error_document(e) matches Some(d) && d < docs@.len(),
        r matches Err(e) ==> e is Schema || e is DuplicateName,
{
    let mut batch: NameMap<RawDiet> = NameMap::new();
    assert(batch_names(docs@.take(0), "diets"@) =~= Set::<Seq<char>>::empty());
    let mut d: usize = 0;
    while d < docs.len()
        invariant
            0 <= d <= docs@.len(),
            batch.wf(),
            batch@.dom() == batch_names(docs@.take(d as int), "diets"@),
            forall|e: int|
                0 <= e < d ==> #[trigger] diet_document_ok(
                    docs@[e],
                    batch_names(docs@.take(e), "diets"@),
                ),
            forall|e: int, i: int|
                0 <= e < d && 0 <= i < section(docs@[e], "diets"@)->Some_0.len()
                    ==> #[trigger] diet_decoded_from(
                    batch@[section(docs@[e], "diets"@)->Some_0[i].0@],
                    section(docs@[e], "diets"@)->Some_0[i].1,
                ) && batch@.contains_key(section(docs@[e], "diets"@)->Some_0[i].0@),
        decreases docs@.len() - d,
    {
        let ghost before = batch@;
        match decode_diet_document(d, &docs[d], &mut batch) {
            Ok(()) => {
                proof {
                    let recs = section(docs@[d as int], "diets"@)->Some_0;
                    assert(docs@.take(d + 1).drop_last() =~= docs@.take(d as int));
                    assert(batch@.dom() =~= batch_names(docs@.take(d + 1), "diets"@));
                    assert forall|e: int, i: int|
                        0 <= e < d + 1 && 0 <= i < section(docs@[e], "diets"@)->Some_0.len()
                            implies #[trigger] diet_decoded_from(
                            batch@[section(docs@[e], "diets"@)->Some_0[i].0@],
                            section(docs@[e], "diets"@)->Some_0[i].1,
                        ) && batch@.contains_key(section(docs@[e], "diets"@)->Some_0[i].0@) by {
                        if e == d {
                            assert(diet_decoded_from(batch@[recs[i].0@], recs[i].1));
                            assert(names_of(recs)[i] == recs[i].0@);
                            assert(names_of(recs).to_set().contains(recs[i].0@));
                        } else {
                            assert(diet_decoded_from(
                                before[section(docs@[e], "diets"@)->Some_0[i].0@],
                                section(docs@[e], "diets"@)->Some_0[i].1,
                            ));
                            assert(before.contains_key(section(docs@[e], "diets"@)->Some_0[i].0@));
                        }
                    }
                }
            },
            Err(e) => {
                assert(!diet_batch_ok(docs@));
                return Err(e);
            },
        }
        d = d + 1;
    }
    assert(docs@.take(docs@.len() as int) =~= docs@);
    Ok(batch)
}

/// Every name of a batch is the name of some record of some document.
pub proof fn lemma_batch_names_witness(docs: Seq<Doc>, key: Seq<char>, k: Seq<char>)
    requires
        batch_names(docs, key).contains(k),
    ensures
        exists|d: int, i: int|
            0 <= d < docs.len() && section(docs[d], key) is Some && 0 <= i < section(
                docs[d],
                key,
            )->Some_0.len() && (#[trigger] section(docs[d], key)->Some_0[i]).0@ == k,
    decreases docs.len(),
{
    let rest = docs.drop_last();
    if batch_names(rest, key).contains(k) {
        lemma_batch_names_witness(rest, key, k);
        let (d, i) = choose|d: int, i: int|
            0 <= d < rest.len() && section(rest[d], key) is Some && 0 <= i < section(
                rest[d],
                key,
            )->Some_0.len() && (#[trigger] section(rest[d], key)->Some_0[i]).0@ == k;
        assert(rest[d] == docs[d]);
        assert((section(docs[d], key)->Some_0[i]).0@ == k);
    } else {
        let d = docs.len() - 1;
        assert(docs.last() == docs[d]);
        let recs = section(docs[d], key)->Some_0;
        assert(names_of(recs).to_set().contains(k));
        let i = choose|i: int| 0 <= i < names_of(recs).len() && names_of(recs)[i] == k;
        assert((section(docs[d], key)->Some_0[i]).0@ == k);
    }
}

} // verus!
