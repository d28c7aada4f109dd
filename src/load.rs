use vstd::prelude::*;

use crate::document::{
    diet_decoded_from, group_decoded_from, decode_diet_batch, decode_group_batch, diet_batch_decoded, diet_batch_ok, error_document,
    group_batch_decoded, group_batch_ok, lemma_batch_names_witness, section, string_texts, Doc,
};
use crate::group::IngredientGroup;
use crate::name_map::NameMap;
use crate::resolve::{
    banned_groups_known, flatten_diets, flatten_groups, resolved_diet, resolved_group,
    subgroups_known, RawDiet, RawGroup, TaxonomyError,
};
use crate::group::Diet;

verus! {

#[verifier::external_type_specification]
#[verifier::external_body]
pub struct ExTomlValue(toml::Value);

/// The document that a TOML text reads as, or `None` where the text is not
/// valid TOML.
pub uninterp spec fn markup_of(text: Seq<char>) -> Option<Doc>;

/// Relies on `toml::Value`'s variants: texts, arrays and tables carry over
/// one for one; every other scalar becomes `Doc::Other`.
#[verifier::external_body]
fn doc_of_value(v: toml::Value) -> Doc {
    match v {
        toml::Value::String(s) => Doc::Text(s),
        toml::Value::Array(items) => Doc::List(items.into_iter().map(doc_of_value).collect()),
        toml::Value::Table(t) => Doc::Table(t.into_iter().map(|(k, x)| (k, doc_of_value(x))).collect()),
        _ => Doc::Other,
    }
}

/// Relies on `toml::from_str` into a `toml::Table`: it reads a TOML document,
/// and the same text always reads the same way.
#[verifier::external_body]
fn parse_markup(text: &str) -> (r: Result<Doc, String>)
    ensures
        r is Ok <==> markup_of(text@) is Some,
        r matches Ok(d) ==> markup_of(text@) == Some(d),
{
    match toml::from_str::<toml::Table>(text) {
        Ok(t) => Ok(doc_of_value(toml::Value::Table(t))),
        Err(e) => Err(e.to_string()),
    }
}

/// Every text of `texts` is a valid document.
pub open spec fn all_parse(texts: Seq<Seq<char>>) -> bool {
    forall|i: int| 0 <= i < texts.len() ==> (#[trigger] markup_of(texts[i])) is Some
}

/// The documents that `texts` read as.
pub open spec fn parsed_docs(texts: Seq<Seq<char>>) -> Seq<Doc> {
    texts.map_values(|t: Seq<char>| markup_of(t)->Some_0)
}

/// Reads the texts of a batch into documents. Fails on the first text that is
/// not a valid document, and names it.
pub fn parse_documents(texts: &Vec<String>) -> (r: Result<Vec<Doc>, TaxonomyError>)
    ensures
        r is Ok <==> all_parse(string_texts(texts@)),
        r matches Ok(docs) ==> docs@ == parsed_docs(string_texts(texts@)),
        r matches Err(e) ==> e matches TaxonomyError::Syntax { document, .. } && document
            < texts@.len() && markup_of(texts@[document as int]@) is None,
{
    let mut docs: Vec<Doc> = Vec::new();
    let mut i: usize = 0;
    while i < texts.len()
        invariant
            0 <= i <= texts@.len(),
            docs@.len() == i,
            forall|j: int| 0 <= j < i ==> (#[trigger] markup_of(texts@[j]@)) is Some,
            forall|j: int| 0 <= j < i ==> Some(#[trigger] docs@[j]) == markup_of(texts@[j]@),
        decreases texts@.len() - i,
    {
        match parse_markup(texts[i].as_str()) {
            Ok(d) => {
                docs.push(d);
            },
            Err(message) => {
                assert(string_texts(texts@)[i as int] == texts@[i as int]@);
                return Err(TaxonomyError::Syntax { document: i, message });
            },
        }
        i = i + 1;
    }
    assert(docs@ =~= parsed_docs(string_texts(texts@)));
    assert forall|j: int| 0 <= j < texts@.len() implies (#[trigger] markup_of(
        string_texts(texts@)[j],
    )) is Some by {
        assert(string_texts(texts@)[j] == texts@[j]@);
    }
    Ok(docs)
}

/// Reads a batch of group documents into unresolved records.
pub fn parse_groups(texts: &Vec<String>) -> (r: Result<NameMap<RawGroup>, TaxonomyError>)
    ensures
        r is Ok <==> all_parse(string_texts(texts@)) && group_batch_ok(parsed_docs(string_texts(texts@))),
        r matches Ok(batch) ==> batch.wf() && group_batch_decoded(parsed_docs(string_texts(texts@)), batch@),
        r matches Err(e) ==> error_document(e) matches Some(d) && d < texts@.len(),
        r matches Err(TaxonomyError::Syntax { document, .. }) ==> markup_of(
            texts@[document as int]@,
        ) is None,
{
    match parse_documents(texts) {
        Ok(docs) => decode_group_batch(&docs),
        Err(e) => Err(e),
    }
}

/// Reads a batch of diet documents into unresolved records.
pub fn parse_diets(texts: &Vec<String>) -> (r: Result<NameMap<RawDiet>, TaxonomyError>)
    ensures
        r is Ok <==> all_parse(string_texts(texts@)) && diet_batch_ok(parsed_docs(string_texts(texts@))),
        r matches Ok(batch) ==> batch.wf() && diet_batch_decoded(parsed_docs(string_texts(texts@)), batch@),
        r matches Err(e) ==> error_document(e) matches Some(d) && d < texts@.len(),
        r matches Err(TaxonomyError::Syntax { document, .. }) ==> markup_of(
            texts@[document as int]@,
        ) is None,
{
    match parse_documents(texts) {
        Ok(docs) => decode_diet_batch(&docs),
        Err(e) => Err(e),
    }
}

/// Whether `out` is the batch `raw` with every group resolved.
pub open spec fn groups_resolved(
    raw: Map<Seq<char>, RawGroup>,
    out: Map<Seq<char>, IngredientGroup>,
) -> bool {
    &&& out.dom() == raw.dom()
    &&& forall|k: Seq<char>| #[trigger]
        out.contains_key(k) ==> out[k]@ == resolved_group(raw, raw[k])
}

/// Whether `out` is the batch `raw` with every diet resolved against
/// `groups`.
pub open spec fn diets_resolved(
    raw: Map<Seq<char>, RawDiet>,
    groups: Map<Seq<char>, IngredientGroup>,
    out: Map<Seq<char>, Diet>,
) -> bool {
    &&& out.dom() == raw.dom()
    &&& forall|k: Seq<char>| #[trigger]
        out.contains_key(k) ==> out[k]@ == resolved_diet(groups, raw[k])
}

/// Whether `out` is what the group documents `texts` resolve to: every text
/// parses, the batch is well-formed, and its records resolve to `out`.
pub open spec fn groups_loaded_from(texts: Seq<Seq<char>>, out: Map<Seq<char>, IngredientGroup>) -> bool {
    &&& all_parse(texts)
    &&& group_batch_ok(parsed_docs(texts))
    &&& exists|raw: Map<Seq<char>, RawGroup>|
        group_batch_decoded(parsed_docs(texts), raw) && subgroups_known(raw) && groups_resolved(
            raw,
            out,
        )
}

/// Whether the group documents `texts` fail to load: one does not parse, the
/// batch is malformed, or a subgroup name is unknown.
pub open spec fn groups_fail_from(texts: Seq<Seq<char>>) -> bool {
    ||| !all_parse(texts)
    ||| !group_batch_ok(parsed_docs(texts))
    ||| forall|raw: Map<Seq<char>, RawGroup>|
        #[trigger] group_batch_decoded(parsed_docs(texts), raw) ==> !subgroups_known(raw)
}

/// Reads and resolves a batch of group documents.
pub fn load_groups(texts: &Vec<String>) -> (r: Result<NameMap<IngredientGroup>, TaxonomyError>)
    ensures
        r matches Ok(out) ==> out.wf() && groups_loaded_from(string_texts(texts@), out@),
        r is Err ==> groups_fail_from(string_texts(texts@)),
{
    match parse_groups(texts) {
        Ok(raw) => {
            let r = flatten_groups(&raw);
            let ghost docs = parsed_docs(string_texts(texts@));
            assert(group_batch_decoded(docs, raw@));
            proof {
                if r is Err {
                    assert forall|m: Map<Seq<char>, RawGroup>|
                        #[trigger] group_batch_decoded(docs, m) implies !subgroups_known(m) by {
                        if subgroups_known(m) {
                            lemma_group_decoding_agrees(docs, m, raw@);
                        }
                    }
                }
            }
            r
        },
        Err(e) => Err(e),
    }
}

/// Whether `out` is what the diet documents `texts` resolve to against
/// `groups`: every text parses, the batch is well-formed, and its records
/// resolve to `out`.
pub open spec fn diets_loaded_from(
    texts: Seq<Seq<char>>,
    groups: Map<Seq<char>, IngredientGroup>,
    out: Map<Seq<char>, Diet>,
) -> bool {
    &&& all_parse(texts)
    &&& diet_batch_ok(parsed_docs(texts))
    &&& exists|raw: Map<Seq<char>, RawDiet>|
        diet_batch_decoded(parsed_docs(texts), raw) && banned_groups_known(raw, groups)
            && diets_resolved(raw, groups, out)
}

/// Whether the diet documents `texts` fail to load against `groups`: one does
/// not parse, the batch is malformed, or a banned group name is unknown.
pub open spec fn diets_fail_from(texts: Seq<Seq<char>>, groups: Map<Seq<char>, IngredientGroup>) -> bool {
    ||| !all_parse(texts)
    ||| !diet_batch_ok(parsed_docs(texts))
    ||| forall|raw: Map<Seq<char>, RawDiet>|
        #[trigger] diet_batch_decoded(parsed_docs(texts), raw) ==> !banned_groups_known(raw, groups)
}

/// Two maps read from the same group documents agree on whether every
/// subgroup they name is known.
pub proof fn lemma_group_decoding_agrees(
    docs: Seq<Doc>,
    m1: Map<Seq<char>, RawGroup>,
    m2: Map<Seq<char>, RawGroup>,
)
    requires
        group_batch_decoded(docs, m1),
        group_batch_decoded(docs, m2),
        subgroups_known(m1),
    ensures
        subgroups_known(m2),
{
    assert forall|k: Seq<char>, j: int|
        m2.contains_key(k) && 0 <= j < m2[k].subgroups@.len() implies m2.contains_key(
        #[trigger] m2[k].subgroups@[j]@,
    ) by {
        lemma_batch_names_witness(docs, "groups"@, k);
        let (d, i) = choose|d: int, i: int|
            0 <= d < docs.len() && section(docs[d], "groups"@) is Some && 0 <= i < section(
                docs[d],
                "groups"@,
            )->Some_0.len() && (#[trigger] section(docs[d], "groups"@)->Some_0[i]).0@ == k;
        let rec = section(docs[d], "groups"@)->Some_0[i];
        assert(group_decoded_from(m1[rec.0@], rec.1));
        assert(group_decoded_from(m2[rec.0@], rec.1));
        assert(m1.contains_key(k));
        assert(string_texts(m1[k].subgroups@) == string_texts(m2[k].subgroups@));
        assert(string_texts(m1[k].subgroups@).len() == m1[k].subgroups@.len());
        assert(string_texts(m2[k].subgroups@).len() == m2[k].subgroups@.len());
        assert(string_texts(m2[k].subgroups@)[j] == m2[k].subgroups@[j]@);
        assert(string_texts(m1[k].subgroups@)[j] == m1[k].subgroups@[j]@);
        assert(m1[k].subgroups@[j]@ == m2[k].subgroups@[j]@);
    }
}

/// Two maps read from the same diet documents agree on whether every group
/// they ban is in `groups`.
pub proof fn lemma_diet_decoding_agrees(
    docs: Seq<Doc>,
    groups: Map<Seq<char>, IngredientGroup>,
    m1: Map<Seq<char>, RawDiet>,
    m2: Map<Seq<char>, RawDiet>,
)
    requires
        diet_batch_decoded(docs, m1),
        diet_batch_decoded(docs, m2),
        banned_groups_known(m1, groups),
    ensures
        banned_groups_known(m2, groups),
{
    assert forall|k: Seq<char>, j: int|
        m2.contains_key(k) && 0 <= j < m2[k].banned_groups@.len() implies groups.contains_key(
        #[trigger] m2[k].banned_groups@[j]@,
    ) by {
        lemma_batch_names_witness(docs, "diets"@, k);
        let (d, i) = choose|d: int, i: int|
            0 <= d < docs.len() && section(docs[d], "diets"@) is Some && 0 <= i < section(
                docs[d],
                "diets"@,
            )->Some_0.len() && (#[trigger] section(docs[d], "diets"@)->Some_0[i]).0@ == k;
        let rec = section(docs[d], "diets"@)->Some_0[i];
        assert(diet_decoded_from(m1[rec.0@], rec.1));
        assert(diet_decoded_from(m2[rec.0@], rec.1));
        assert(m1.contains_key(k));
        assert(string_texts(m1[k].banned_groups@) == string_texts(m2[k].banned_groups@));
        assert(string_texts(m1[k].banned_groups@).len() == m1[k].banned_groups@.len());
        assert(string_texts(m2[k].banned_groups@).len() == m2[k].banned_groups@.len());
        assert(string_texts(m2[k].banned_groups@)[j] == m2[k].banned_groups@[j]@);
        assert(string_texts(m1[k].banned_groups@)[j] == m1[k].banned_groups@[j]@);
        assert(m1[k].banned_groups@[j]@ == m2[k].banned_groups@[j]@);
    }
}

/// Reads a batch of diet documents and resolves it against `groups`.
pub fn load_diets(texts: &Vec<String>, groups: &NameMap<IngredientGroup>) -> (r: Result<
    NameMap<Diet>,
    TaxonomyError,
>)
    requires
        groups.wf(),
    ensures
        r matches Ok(out) ==> out.wf() && diets_loaded_from(string_texts(texts@), groups@, out@),
        r is Err ==> diets_fail_from(string_texts(texts@), groups@),
{
    match parse_diets(texts) {
        Ok(raw) => {
            let r = flatten_diets(&raw, groups);
            let ghost docs = parsed_docs(string_texts(texts@));
            assert(diet_batch_decoded(docs, raw@));
            proof {
                if r is Err {
                    assert forall|m: Map<Seq<char>, RawDiet>|
                        #[trigger] diet_batch_decoded(docs, m) implies !banned_groups_known(
                        m,
                        groups@,
                    ) by {
                        if banned_groups_known(m, groups@) {
                            lemma_diet_decoding_agrees(docs, groups@, m, raw@);
                        }
                    }
                }
            }
            r
        },
        Err(e) => Err(e),
    }
}

} // verus!
