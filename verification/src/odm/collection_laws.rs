//! What searches find and what writes keep.
use crate::entries::{
    keys_ordered, lemma_lookup_with_entry, lemma_lookup_without_entry, lookup, with_entry,
};
use crate::json::{entries_model, field, list_model, Json, Value};
use crate::number::{Number, NumberModel};
use crate::odm::collection::{
    batch_view, canonical_text, external, filled_in, find_outcome, first_match, id_outcome,
    immutable_names, is_unset, load_outcome, looked_at, mirrored, optional_ids, prepare_outcome,
    present, stages_one, update_step, Collection, DocumentId, Staged, UpdateModel,
};
use crate::odm::error::{OdmError, OdmFailure};
use crate::odm::query::query_outcome;
use crate::odm::schema::{document_failure, SchemaModel};
use crate::odm::update::update_outcome;
use vstd::prelude::*;

verus! {

/// Whether a document matches a query.
pub open spec fn matching(query: Value) -> spec_fn((Seq<char>, Value)) -> bool {
    |d: (Seq<char>, Value)| query_outcome(d.1, query) == Ok::<bool, OdmFailure>(true)
}

/// Documents as callers see them.
pub open spec fn shown(schema: SchemaModel) -> spec_fn((Seq<char>, Value)) -> Value {
    |d: (Seq<char>, Value)| external(schema, d.1)
}

/// A search from a place on finds the documents behind that match, after what was found.
proof fn lemma_find_from(
    schema: SchemaModel,
    documents: Seq<(Seq<char>, Value)>,
    query: Value,
    from: int,
    found: Seq<Value>,
)
    requires
        0 <= from <= documents.len(),
        forall|i: int|
            from <= i < documents.len() ==> query_outcome((#[trigger] documents[i]).1, query) is Ok,
    ensures
        find_outcome(schema, documents, query, from, found) == Ok::<Seq<Value>, OdmFailure>(
            found + documents.skip(from).filter(matching(query)).map_values(shown(schema)),
        ),
    decreases documents.len() - from,
{
    reveal(Seq::filter);
    let left = documents.skip(from);
    if from == documents.len() {
        assert(left.filter(matching(query)).map_values(shown(schema)) =~= Seq::empty());
        assert(found + Seq::<Value>::empty() =~= found);
    } else {
        let rest = documents.skip(from + 1);
        let one = seq![documents[from]];
        assert(left =~= one + rest);
        Seq::filter_distributes_over_add(one, rest, matching(query));
        let none = Seq::<(Seq<char>, Value)>::empty();
        assert(one.drop_last() =~= none);
        assert(none.filter(matching(query)) == none);
        assert(one.last() == documents[from]);
        let others = rest.filter(matching(query));
        if matching(query)(documents[from]) {
            let next = found.push(external(schema, documents[from].1));
            lemma_find_from(schema, documents, query, from + 1, next);
            assert(one.filter(matching(query)) =~= one);
            assert(found + (one + others).map_values(shown(schema)) =~= next + others.map_values(
                shown(schema),
            ));
        } else {
            lemma_find_from(schema, documents, query, from + 1, found);
            assert(one.filter(matching(query)) =~= Seq::empty());
            assert(Seq::empty() + others =~= others);
        }
    }
}

/// Where a query is in error on none of the documents, a search finds exactly those that match,
/// each as callers see it, in order.
pub proof fn lemma_find_is_filter(
    schema: SchemaModel,
    documents: Seq<(Seq<char>, Value)>,
    query: Value,
)
    requires
        forall|i: int|
            0 <= i < documents.len() ==> query_outcome((#[trigger] documents[i]).1, query) is Ok,
    ensures
        find_outcome(schema, documents, query, 0, Seq::empty()) == Ok::<Seq<Value>, OdmFailure>(
            documents.filter(
                |d: (Seq<char>, Value)|
                    query_outcome(d.1, query) == Ok::<bool, OdmFailure>(true),
            ).map_values(|d: (Seq<char>, Value)| external(schema, d.1)),
        ),
{
    lemma_find_from(schema, documents, query, 0, Seq::empty());
    assert(documents.skip(0) =~= documents);
    let result = documents.filter(matching(query)).map_values(shown(schema));
    assert(Seq::<Value>::empty() + result =~= result);
}

/// A document is among what a search finds exactly where it matches.
pub proof fn lemma_found_matches(
    schema: SchemaModel,
    documents: Seq<(Seq<char>, Value)>,
    query: Value,
    value: Value,
)
    requires
        find_outcome(schema, documents, query, 0, Seq::empty()) is Ok,
    ensures
        find_outcome(schema, documents, query, 0, Seq::empty())->Ok_0.contains(value)
            <==> exists|i: int|
            0 <= i < documents.len() && query_outcome((#[trigger] documents[i]).1, query) == Ok::<
                bool,
                OdmFailure,
            >(true) && value == external(schema, documents[i].1),
{
    lemma_find_error(schema, documents, query, 0, Seq::empty());
    lemma_find_is_filter(schema, documents, query);
    let keep = matching(query);
    let kept = documents.filter(keep);
    let found = kept.map_values(shown(schema));
    assert(find_outcome(schema, documents, query, 0, Seq::empty())->Ok_0 == found);
    #[allow(deprecated)]
    documents.filter_lemma(keep);
    if found.contains(value) {
        let k = choose|k: int| 0 <= k < found.len() && found[k] == value;
        documents.lemma_filter_contains_rev(keep, kept[k]);
        assert(kept.contains(kept[k]));
        let i = choose|i: int| 0 <= i < documents.len() && documents[i] == kept[k];
        assert(keep(documents[i]));
    }
    if exists|i: int|
        0 <= i < documents.len() && query_outcome((#[trigger] documents[i]).1, query) == Ok::<
            bool,
            OdmFailure,
        >(true) && value == external(schema, documents[i].1) {
        let i = choose|i: int|
            0 <= i < documents.len() && query_outcome((#[trigger] documents[i]).1, query) == Ok::<
                bool,
                OdmFailure,
            >(true) && value == external(schema, documents[i].1);
        assert(keep(documents[i]));
        assert(kept.contains(documents[i]));
        let k = choose|k: int| 0 <= k < kept.len() && kept[k] == documents[i];
        assert(found[k] == value);
    }
}

/// A search fails exactly where the query is in error on some document, with the error on the
/// first of these.
proof fn lemma_find_error(
    schema: SchemaModel,
    documents: Seq<(Seq<char>, Value)>,
    query: Value,
    from: int,
    found: Seq<Value>,
)
    requires
        0 <= from,
    ensures
        find_outcome(schema, documents, query, from, found) is Ok <==> forall|i: int|
            from <= i < documents.len() ==> query_outcome((#[trigger] documents[i]).1, query) is Ok,
        find_outcome(schema, documents, query, from, found) is Err ==> exists|i: int|
            from <= i < documents.len() && query_outcome((#[trigger] documents[i]).1, query)
                == Err::<bool, OdmFailure>(
                find_outcome(schema, documents, query, from, found)->Err_0,
            ) && forall|j: int|
                from <= j < i ==> query_outcome((#[trigger] documents[j]).1, query) is Ok,
    decreases documents.len() - from,
{
    if from < documents.len() {
        let next = if query_outcome(documents[from].1, query) == Ok::<bool, OdmFailure>(true) {
            found.push(external(schema, documents[from].1))
        } else {
            found
        };
        lemma_find_error(schema, documents, query, from + 1, next);
    }
}

/// A search fails exactly where the query is in error on some of the documents, with the error
/// on the first of these.
pub proof fn lemma_find_fails(
    schema: SchemaModel,
    documents: Seq<(Seq<char>, Value)>,
    query: Value,
)
    ensures
        find_outcome(schema, documents, query, 0, Seq::empty()) is Ok <==> forall|i: int|
            0 <= i < documents.len() ==> query_outcome((#[trigger] documents[i]).1, query) is Ok,
        find_outcome(schema, documents, query, 0, Seq::empty()) is Err ==> exists|i: int|
            0 <= i < documents.len() && query_outcome((#[trigger] documents[i]).1, query) == Err::<
                bool,
                OdmFailure,
            >(find_outcome(schema, documents, query, 0, Seq::empty())->Err_0) && forall|j: int|
                0 <= j < i ==> query_outcome((#[trigger] documents[j]).1, query) is Ok,
{
    lemma_find_error(schema, documents, query, 0, Seq::empty());
}

/// A search without candidates looks at every document; one with candidates at the documents of
/// those ids that there are, in the order of the ids.
pub proof fn lemma_documents_looked_at(view: Seq<(Seq<char>, Value)>, ids: Seq<Seq<char>>)
    ensures
        looked_at(view, None) == view,
        looked_at(view, Some(ids)) == ids.filter(
            |id: Seq<char>| lookup(view, id) is Some,
        ).map_values(|id: Seq<char>| (id, lookup(view, id)->0)),
{
    lemma_present(view, ids, ids.len() as int);
    assert(ids.take(ids.len() as int) =~= ids);
}

/// The documents of the first ids.
proof fn lemma_present(view: Seq<(Seq<char>, Value)>, ids: Seq<Seq<char>>, n: int)
    requires
        0 <= n <= ids.len(),
    ensures
        present(view, ids, n) == ids.take(n).filter(
            |id: Seq<char>| lookup(view, id) is Some,
        ).map_values(|id: Seq<char>| (id, lookup(view, id)->0)),
    decreases n,
{
    reveal(Seq::filter);
    let keep = |id: Seq<char>| lookup(view, id) is Some;
    let pair = |id: Seq<char>| (id, lookup(view, id)->0);
    let taken = ids.take(n);
    if n > 0 {
        lemma_present(view, ids, n - 1);
        assert(taken.drop_last() =~= ids.take(n - 1));
        assert(taken.last() == ids[n - 1]);
        let before = ids.take(n - 1).filter(keep);
        assert(before.push(ids[n - 1]).map_values(pair) =~= before.map_values(pair).push(
            pair(ids[n - 1]),
        ));
    } else {
        assert(taken.filter(keep).map_values(pair) =~= Seq::empty());
    }
}

/// Callers see every field of a document, but for `_id` where the primary key is another field.
pub proof fn lemma_shown_fields(
    schema: SchemaModel,
    entries: Seq<(Seq<char>, Value)>,
    key: Seq<char>,
)
    requires
        keys_ordered(entries),
    ensures
        external(schema, Value::Object(entries)) is Object,
        field(external(schema, Value::Object(entries)), key) == if key == "_id"@
            && schema.primary_key != "_id"@ {
            None
        } else {
            lookup(entries, key)
        },
{
    lemma_lookup_without_entry(entries, "_id"@, key);
}

/// The primary key is a text, a number or a truth value: it is kept under that text, the
/// numeral of the number, or `true` or `false`. Nothing else is a primary key.
pub proof fn lemma_primary_key_texts(value: Value, n: int, m: int, s: Seq<char>)
    ensures
        canonical_text(value) is Ok <==> value is Text || value is Number || value is Bool,
        canonical_text(Value::Text(s)) == Ok::<Seq<char>, OdmFailure>(s),
        canonical_text(Value::Bool(true)) == Ok::<Seq<char>, OdmFailure>("true"@),
        canonical_text(Value::Bool(false)) == Ok::<Seq<char>, OdmFailure>("false"@),
        n >= 0 ==> crate::text::numeral_value(
            canonical_text(Value::Number(NumberModel::Integer(n)))->Ok_0,
        ) == Some(n as nat),
        n > 0 ==> canonical_text(Value::Number(NumberModel::Integer(-n))) == Ok::<
            Seq<char>,
            OdmFailure,
        >(seq!['-'] + canonical_text(Value::Number(NumberModel::Integer(n)))->Ok_0),
        n >= 0 && m >= 0 && n != m ==> canonical_text(Value::Number(NumberModel::Integer(n)))
            != canonical_text(Value::Number(NumberModel::Integer(m))),
{
    if n >= 0 {
        crate::text::lemma_decimal_reads(n as nat);
    }
    if m >= 0 {
        crate::text::lemma_decimal_reads(m as nat);
    }
}

/// What is made ready to be inserted keeps every field that was given. The primary key is
/// filled in where it is missing or null, the time of creation likewise, the time of the last
/// update is set, and a copy of the id is kept where the primary key is another field than
/// `_id`. The document is kept under the text of its primary key, and it passes the schema.
pub proof fn lemma_prepared_document(
    schema: SchemaModel,
    entries: Seq<(Seq<char>, Value)>,
    generated: Seq<char>,
    now: Seq<char>,
    key: Seq<char>,
)
    requires
        prepare_outcome(schema, Value::Object(entries), generated, now) is Ok,
    ensures
        ({
            let (id, kept) = prepare_outcome(
                schema,
                Value::Object(entries),
                generated,
                now,
            )->Ok_0;
            let created = if schema.timestamps is Some {
                Some((schema.timestamps->0).0)
            } else {
                None
            };
            let updated = if schema.timestamps is Some {
                Some((schema.timestamps->0).1)
            } else {
                None
            };
            let copied = schema.primary_key != "_id"@;
            let given = lookup(entries, key);
            let missing = given is None || given->0 is Null;
            &&& kept is Object
            &&& document_failure(schema, kept) is None
            &&& canonical_text(field(kept, schema.primary_key)->0) == Ok::<Seq<char>, OdmFailure>(id)
            &&& copied ==> field(kept, "_id"@) == Some(Value::Text(id))
            &&& !(copied && key == "_id"@) ==> {
                &&& Some(key) == updated ==> field(kept, key) == Some(Value::Text(now))
                &&& Some(key) != updated && !missing ==> field(kept, key) == given
                &&& Some(key) != updated && missing && key == schema.primary_key ==> field(
                    kept,
                    key,
                ) == Some(Value::Text(generated))
                &&& Some(key) != updated && missing && key != schema.primary_key && Some(key)
                    == created ==> field(kept, key) == Some(Value::Text(now))
                &&& Some(key) != updated && missing && key != schema.primary_key && Some(key)
                    != created ==> field(kept, key) == given
            }
        }),
{
    let pk = schema.primary_key;
    let keyed = if is_unset(entries, pk) {
        with_entry(entries, pk, Value::Text(generated))
    } else {
        entries
    };
    lemma_lookup_with_entry(entries, pk, Value::Text(generated), key);
    if schema.timestamps is Some {
        let (created_at, updated_at) = schema.timestamps->0;
        let created = if is_unset(keyed, created_at) {
            with_entry(keyed, created_at, Value::Text(now))
        } else {
            keyed
        };
        lemma_lookup_with_entry(keyed, created_at, Value::Text(now), key);
        lemma_lookup_with_entry(entries, pk, Value::Text(generated), created_at);
        lemma_lookup_with_entry(created, updated_at, Value::Text(now), key);
    }
    let filled = filled_in(schema, entries, generated, now);
    let id = id_outcome(schema, Value::Object(filled))->Ok_0;
    lemma_lookup_with_entry(filled, "_id"@, Value::Text(id), key);
    lemma_lookup_with_entry(filled, "_id"@, Value::Text(id), pk);
    lemma_lookup_with_entry(filled, "_id"@, Value::Text(id), "_id"@);
}

/// Making a document ready fails exactly where it is no object, has no primary key that could be
/// generated, has one that is no key, or would not pass the schema as it would be kept.
pub proof fn lemma_preparing_fails(
    schema: SchemaModel,
    document: Value,
    generated: Seq<char>,
    now: Seq<char>,
)
    ensures
        !(document is Object) ==> prepare_outcome(schema, document, generated, now) is Err,
        document is Object && !schema.auto_generate_primary_key && (lookup(
            document->Object_0,
            schema.primary_key,
        ) is None || lookup(document->Object_0, schema.primary_key)->0 is Null)
            ==> prepare_outcome(schema, document, generated, now) is Err,
        document is Object && schema.timestamps is None && schema.primary_key == "_id"@ && lookup(
            document->Object_0,
            "_id"@,
        ) is Some && !(lookup(document->Object_0, "_id"@)->0 is Null) ==> (prepare_outcome(
            schema,
            document,
            generated,
            now,
        ) is Ok <==> canonical_text(lookup(document->Object_0, "_id"@)->0) is Ok
            && document_failure(schema, document) is None),
{
}

/// A batch that is taken has ids that differ from one another and from those that were there;
/// each document is found under its id, and every document that was there as before.
pub proof fn lemma_batch_is_kept(
    schema: SchemaModel,
    prepared: Seq<(Seq<char>, Value)>,
    view: Seq<(Seq<char>, Value)>,
)
    ensures
        batch_view(schema, prepared, 0, view) is Ok <==> {
            &&& forall|i: int|
                0 <= i < prepared.len() ==> lookup(view, (#[trigger] prepared[i]).0) is None
            &&& forall|i: int, j: int|
                0 <= i < j < prepared.len() ==> (#[trigger] prepared[i]).0 != (
                #[trigger] prepared[j]).0
        },
        batch_view(schema, prepared, 0, view) is Ok ==> {
            let after = batch_view(schema, prepared, 0, view)->Ok_0;
            &&& forall|i: int|
                0 <= i < prepared.len() ==> lookup(after, (#[trigger] prepared[i]).0) == Some(
                    prepared[i].1,
                )
            &&& forall|id: Seq<char>|
                (forall|i: int| 0 <= i < prepared.len() ==> (#[trigger] prepared[i]).0 != id)
                    ==> #[trigger] lookup(after, id) == lookup(view, id)
        },
{
    lemma_batch_from(schema, prepared, 0, view);
}

/// The same of the documents of a batch from a place on.
proof fn lemma_batch_from(
    schema: SchemaModel,
    prepared: Seq<(Seq<char>, Value)>,
    from: int,
    view: Seq<(Seq<char>, Value)>,
)
    requires
        0 <= from,
    ensures
        batch_view(schema, prepared, from, view) is Ok <==> {
            &&& forall|i: int|
                from <= i < prepared.len() ==> lookup(view, (#[trigger] prepared[i]).0) is None
            &&& forall|i: int, j: int|
                from <= i < j < prepared.len() ==> (#[trigger] prepared[i]).0 != (
                #[trigger] prepared[j]).0
        },
        batch_view(schema, prepared, from, view) is Ok ==> {
            let after = batch_view(schema, prepared, from, view)->Ok_0;
            &&& forall|i: int|
                from <= i < prepared.len() ==> lookup(after, (#[trigger] prepared[i]).0) == Some(
                    prepared[i].1,
                )
            &&& forall|id: Seq<char>|
                (forall|i: int| from <= i < prepared.len() ==> (#[trigger] prepared[i]).0 != id)
                    ==> #[trigger] lookup(after, id) == lookup(view, id)
        },
    decreases prepared.len() - from,
{
    if from < prepared.len() && lookup(view, prepared[from].0) is None {
        let (id, document) = prepared[from];
        let next = with_entry(view, id, document);
        lemma_batch_from(schema, prepared, from + 1, next);
        assert forall|other: Seq<char>| #[trigger] lookup(next, other) == if other == id {
            Some(document)
        } else {
            lookup(view, other)
        } by {
            lemma_lookup_with_entry(view, id, document, other);
        }
        let after = batch_view(schema, prepared, from + 1, next);
        if after is Ok {
            assert forall|i: int, j: int| from <= i < j < prepared.len() implies (
            #[trigger] prepared[i]).0 != (#[trigger] prepared[j]).0 by {
                if i == from {
                    assert(lookup(next, prepared[j].0) is None);
                }
            }
            assert forall|i: int| from <= i < prepared.len() implies lookup(
                view,
                (#[trigger] prepared[i]).0,
            ) is None by {
                if i > from {
                    assert(lookup(next, prepared[i].0) is None);
                }
            }
            assert forall|i: int| from <= i < prepared.len() implies lookup(
                after->Ok_0,
                (#[trigger] prepared[i]).0,
            ) == Some(prepared[i].1) by {
                if i == from {
                    assert(lookup(after->Ok_0, id) == lookup(next, id));
                }
            }
            assert forall|other: Seq<char>|
                (forall|i: int| from <= i < prepared.len() ==> (#[trigger] prepared[i]).0
                    != other) implies #[trigger] lookup(after->Ok_0, other) == lookup(
                view,
                other,
            ) by {
                assert(prepared[from].0 != other);
                assert(lookup(after->Ok_0, other) == lookup(next, other));
            }
        } else if (forall|i: int|
            from <= i < prepared.len() ==> lookup(view, (#[trigger] prepared[i]).0) is None) && (
        forall|i: int, j: int|
            from <= i < j < prepared.len() ==> (#[trigger] prepared[i]).0 != (
            #[trigger] prepared[j]).0) {
            assert forall|i: int| from + 1 <= i < prepared.len() implies lookup(
                next,
                (#[trigger] prepared[i]).0,
            ) is None by {
                assert(prepared[from].0 != prepared[i].0);
            }
        }
    }
}

/// Stored documents that are loaded all pass the schema and have different ids; each is found
/// under its id, and nothing else is.
pub proof fn lemma_loaded_documents(schema: SchemaModel, stored: Seq<Value>, id: Seq<char>)
    requires
        load_outcome(schema, stored, 0, Seq::empty()) is Ok,
    ensures
        ({
            let view = load_outcome(schema, stored, 0, Seq::empty())->Ok_0;
            &&& forall|i: int|
                0 <= i < stored.len() ==> document_failure(schema, #[trigger] stored[i]) is None
                    && id_outcome(schema, stored[i]) is Ok
            &&& forall|i: int, j: int|
                0 <= i < j < stored.len() ==> id_outcome(schema, #[trigger] stored[i])
                    != id_outcome(schema, #[trigger] stored[j])
            &&& lookup(view, id) is Some <==> exists|i: int|
                0 <= i < stored.len() && id_outcome(schema, #[trigger] stored[i]) == Ok::<
                    Seq<char>,
                    OdmFailure,
                >(id)
            &&& forall|i: int|
                0 <= i < stored.len() && id_outcome(schema, #[trigger] stored[i]) == Ok::<
                    Seq<char>,
                    OdmFailure,
                >(id) ==> lookup(view, id) == Some(mirrored(schema, stored[i], id))
        }),
{
    lemma_loaded_from(schema, stored, 0, Seq::empty());
}

/// The same of the stored documents from a place on.
proof fn lemma_loaded_from(
    schema: SchemaModel,
    stored: Seq<Value>,
    from: int,
    view: Seq<(Seq<char>, Value)>,
)
    requires
        0 <= from,
        load_outcome(schema, stored, from, view) is Ok,
    ensures
        ({
            let after = load_outcome(schema, stored, from, view)->Ok_0;
            &&& forall|i: int|
                from <= i < stored.len() ==> document_failure(schema, #[trigger] stored[i]) is None
                    && id_outcome(schema, stored[i]) is Ok && lookup(
                    view,
                    id_outcome(schema, stored[i])->Ok_0,
                ) is None
            &&& forall|i: int, j: int|
                from <= i < j < stored.len() ==> id_outcome(schema, #[trigger] stored[i])
                    != id_outcome(schema, #[trigger] stored[j])
            &&& forall|id: Seq<char>|
                (forall|i: int|
                    from <= i < stored.len() ==> id_outcome(schema, #[trigger] stored[i]) != Ok::<
                        Seq<char>,
                        OdmFailure,
                    >(id)) ==> #[trigger] lookup(after, id) == lookup(view, id)
            &&& forall|i: int|
                from <= i < stored.len() ==> lookup(
                    after,
                    id_outcome(schema, #[trigger] stored[i])->Ok_0,
                ) == Some(
                    mirrored(schema, stored[i], id_outcome(schema, stored[i])->Ok_0),
                )
        }),
    decreases stored.len() - from,
{
    if from < stored.len() {
        let own = id_outcome(schema, stored[from])->Ok_0;
        let kept = mirrored(schema, stored[from], own);
        let next = with_entry(view, own, kept);
        lemma_loaded_from(schema, stored, from + 1, next);
        let after = load_outcome(schema, stored, from, view)->Ok_0;
        assert forall|other: Seq<char>| #[trigger] lookup(next, other) == if other == own {
            Some(kept)
        } else {
            lookup(view, other)
        } by {
            lemma_lookup_with_entry(view, own, kept, other);
        }
        assert forall|i: int| from <= i < stored.len() implies document_failure(
            schema,
            #[trigger] stored[i],
        ) is None && id_outcome(schema, stored[i]) is Ok && lookup(
            view,
            id_outcome(schema, stored[i])->Ok_0,
        ) is None by {
            if i > from {
                assert(lookup(next, id_outcome(schema, stored[i])->Ok_0) is None);
            }
        }
        assert forall|i: int, j: int| from <= i < j < stored.len() implies id_outcome(
            schema,
            #[trigger] stored[i],
        ) != id_outcome(schema, #[trigger] stored[j]) by {
            if i == from {
                assert(lookup(next, id_outcome(schema, stored[j])->Ok_0) is None);
            }
        }
        assert(forall|i: int|
            from + 1 <= i < stored.len() ==> id_outcome(schema, #[trigger] stored[i]) != Ok::<
                Seq<char>,
                OdmFailure,
            >(own)) by {
            assert(stored[from] == stored[from]);
        }
        assert(lookup(after, own) == lookup(next, own));
        assert forall|id: Seq<char>|
            (forall|i: int|
                from <= i < stored.len() ==> id_outcome(schema, #[trigger] stored[i]) != Ok::<
                    Seq<char>,
                    OdmFailure,
                >(id)) implies #[trigger] lookup(after, id) == lookup(view, id) by {
            assert(id_outcome(schema, stored[from]) != Ok::<Seq<char>, OdmFailure>(id));
            assert(lookup(after, id) == lookup(next, id));
        }
    }
}

/// A stored document is kept with every field that it has, and with a copy of its id where it
/// has none and the primary key is another field than `_id`.
pub proof fn lemma_mirrored_fields(
    schema: SchemaModel,
    entries: Seq<(Seq<char>, Value)>,
    id: Seq<char>,
    key: Seq<char>,
)
    ensures
        mirrored(schema, Value::Object(entries), id) is Object,
        field(mirrored(schema, Value::Object(entries), id), key) == if key == "_id"@
            && schema.primary_key != "_id"@ && lookup(entries, key) is None {
            Some(Value::Text(id))
        } else {
            lookup(entries, key)
        },
{
    lemma_lookup_with_entry(entries, "_id"@, Value::Text(id), key);
}

/// The first document that matches is found, none where none does.
proof fn lemma_first_match(documents: Seq<(Seq<char>, Value)>, query: Value, from: int)
    requires
        0 <= from,
    ensures
        match first_match(documents, query, from) {
            Ok(Some(at)) => {
                &&& from <= at < documents.len()
                &&& query_outcome(documents[at].1, query) == Ok::<bool, OdmFailure>(true)
                &&& forall|i: int|
                    from <= i < at ==> query_outcome((#[trigger] documents[i]).1, query) == Ok::<
                        bool,
                        OdmFailure,
                    >(false)
            },
            Ok(None) => forall|i: int|
                from <= i < documents.len() ==> query_outcome((#[trigger] documents[i]).1, query)
                    == Ok::<bool, OdmFailure>(false),
            Err(e) => exists|i: int|
                from <= i < documents.len() && query_outcome((#[trigger] documents[i]).1, query)
                    == Err::<bool, OdmFailure>(e),
        },
    decreases documents.len() - from,
{
    if from < documents.len() {
        lemma_first_match(documents, query, from + 1);
    }
}

/// An update goes to the first document that matches, and to none where none does. What it
/// stages under that document's id is the document as the operators leave it, with the time of
/// the update where the schema keeps it; it passes the schema and keeps its primary key. Where
/// the operators change nothing, the document is given as it is.
pub proof fn lemma_updated_document<F: Fn(&Number, &Number) -> Option<Number>>(
    schema: SchemaModel,
    documents: Seq<(Seq<char>, Value)>,
    query: Value,
    operations: Value,
    add_reals: F,
    now: Seq<char>,
    key: Seq<char>,
)
    requires
        update_step(schema, documents, query, operations, add_reals, now) is Ok,
    ensures
        match update_step(schema, documents, query, operations, add_reals, now)->Ok_0 {
            UpdateModel::NotFound => forall|i: int|
                0 <= i < documents.len() ==> query_outcome((#[trigger] documents[i]).1, query)
                    == Ok::<bool, OdmFailure>(false),
            UpdateModel::Unchanged(seen) => exists|at: int|
                0 <= at < documents.len() && is_first(documents, query, at) && seen == external(
                    schema,
                    update_outcome(
                        (#[trigger] documents[at]).1,
                        operations,
                        immutable_names(schema),
                        add_reals,
                    ).0,
                ) && update_outcome(
                    documents[at].1,
                    operations,
                    immutable_names(schema),
                    add_reals,
                ).1 == Ok::<bool, OdmFailure>(false),
            UpdateModel::Changed { id, document } => exists|at: int|
                0 <= at < documents.len() && is_first(documents, query, at) && (
                #[trigger] documents[at]).0 == id && {
                    let (after, told) = update_outcome(
                        documents[at].1,
                        operations,
                        immutable_names(schema),
                        add_reals,
                    );
                    &&& told == Ok::<bool, OdmFailure>(true)
                    &&& document_failure(schema, document) is None
                    &&& id_outcome(schema, document) == Ok::<Seq<char>, OdmFailure>(id)
                    &&& after is Object ==> document is Object && field(document, key) == if
                        schema.timestamps is Some && key == (schema.timestamps->0).1 {
                        Some(Value::Text(now))
                    } else {
                        field(after, key)
                    }
                },
        },
{
    lemma_first_match(documents, query, 0);
    let first = first_match(documents, query, 0)->Ok_0;
    if first is Some {
        let at = first->0;
        assert(is_first(documents, query, at));
        let (after, told) = update_outcome(
            documents[at].1,
            operations,
            immutable_names(schema),
            add_reals,
        );
        if after is Object && schema.timestamps is Some {
            lemma_lookup_with_entry(
                after->Object_0,
                (schema.timestamps->0).1,
                Value::Text(now),
                key,
            );
        }
        assert(documents[at] == documents[at]);
    }
}

/// Whether the document at a place is the first that matches.
pub open spec fn is_first(
    documents: Seq<(Seq<char>, Value)>,
    query: Value,
    at: int,
) -> bool {
    &&& query_outcome(documents[at].1, query) == Ok::<bool, OdmFailure>(true)
    &&& forall|i: int|
        0 <= i < at ==> query_outcome((#[trigger] documents[i]).1, query) == Ok::<
            bool,
            OdmFailure,
        >(false)
}

/// No update may change the primary key or `_id`; every other field may.
pub proof fn lemma_immutable_fields(schema: SchemaModel, name: Seq<char>)
    ensures
        immutable_names(schema).contains(name) <==> name == "_id"@ || name == schema.primary_key,
{
    let names = immutable_names(schema);
    if name == "_id"@ {
        assert(names[0] == name || names[1] == name);
    }
    if name == schema.primary_key {
        assert(names[0] == name || names[1] == name);
    }
}

/// `find` gives exactly the documents that match, of those that it looks at, each as callers see
/// it, in order. It fails only where the query is in error on one of them.
pub proof fn lemma_find(
    collection: &Collection,
    query: &Json,
    candidates: &Option<Vec<String>>,
    r: Result<Vec<Json>, OdmError>,
)
    requires
        call_ensures(Collection::find, (collection, query, candidates), r),
    ensures
        ({
            let documents = looked_at(collection@.documents, optional_ids(*candidates));
            &&& candidates is None ==> documents == collection@.documents
            &&& r is Ok <==> forall|i: int|
                0 <= i < documents.len() ==> query_outcome(
                    (#[trigger] documents[i]).1,
                    query@,
                ) is Ok
            &&& r is Ok ==> list_model(r->Ok_0@) == documents.filter(
                |d: (Seq<char>, Value)|
                    query_outcome(d.1, query@) == Ok::<bool, OdmFailure>(true),
            ).map_values(|d: (Seq<char>, Value)| external(collection@.schema, d.1))
        }),
{
    let documents = looked_at(collection@.documents, optional_ids(*candidates));
    lemma_find_fails(collection@.schema, documents, query@);
    if r is Ok {
        lemma_find_is_filter(collection@.schema, documents, query@);
    }
}

/// `find_one` gives the first document that matches, of those that it looks at, as callers see
/// it, and nothing where none matches.
pub proof fn lemma_find_one(
    collection: &Collection,
    query: &Json,
    candidates: &Option<Vec<String>>,
    r: Result<Option<Json>, OdmError>,
)
    requires
        call_ensures(Collection::find_one, (collection, query, candidates), r),
        r is Ok,
    ensures
        ({
            let documents = looked_at(collection@.documents, optional_ids(*candidates));
            &&& r->Ok_0 is None <==> forall|i: int|
                0 <= i < documents.len() ==> query_outcome(
                    (#[trigger] documents[i]).1,
                    query@,
                ) == Ok::<bool, OdmFailure>(false)
            &&& r->Ok_0 is Some ==> exists|at: int|
                0 <= at < documents.len() && is_first(documents, query@, at) && r->Ok_0->0@
                    == external(collection@.schema, (#[trigger] documents[at]).1)
        }),
{
    let documents = looked_at(collection@.documents, optional_ids(*candidates));
    lemma_find_fails(collection@.schema, documents, query@);
    lemma_find_is_filter(collection@.schema, documents, query@);
    lemma_first_match(documents, query@, 0);
    lemma_first_of_filter(collection@.schema, documents, query@, 0);
    assert(documents.skip(0) =~= documents);
}

/// The first document that passes a filter is the first that matches.
proof fn lemma_first_of_filter(
    schema: SchemaModel,
    documents: Seq<(Seq<char>, Value)>,
    query: Value,
    from: int,
)
    requires
        0 <= from <= documents.len(),
        forall|i: int|
            0 <= i < documents.len() ==> query_outcome((#[trigger] documents[i]).1, query) is Ok,
    ensures
        ({
            let kept = documents.skip(from).filter(matching(query)).map_values(shown(schema));
            match first_match(documents, query, from) {
                Ok(Some(at)) => kept.len() > 0 && kept[0] == external(schema, documents[at].1),
                Ok(None) => kept.len() == 0,
                Err(_) => false,
            }
        }),
    decreases documents.len() - from,
{
    reveal(Seq::filter);
    let left = documents.skip(from);
    let none = Seq::<(Seq<char>, Value)>::empty();
    assert(none.filter(matching(query)) == none);
    if from == documents.len() {
        assert(left =~= none);
    } else {
        let rest = documents.skip(from + 1);
        let one = seq![documents[from]];
        assert(left =~= one + rest);
        Seq::filter_distributes_over_add(one, rest, matching(query));
        assert(one.drop_last() =~= none);
        assert(one.last() == documents[from]);
        lemma_first_of_filter(schema, documents, query, from + 1);
        if matching(query)(documents[from]) {
            assert(one.filter(matching(query)) =~= one);
            assert(left.filter(matching(query))[0] == documents[from]);
        } else {
            assert(one.filter(matching(query)) =~= none);
            assert(none + rest.filter(matching(query)) =~= rest.filter(matching(query)));
        }
    }
}

/// `find_by_id` gives the document that is kept under the text of a key, as callers see it.
pub proof fn lemma_find_by_id(
    collection: &Collection,
    id: DocumentId,
    r: Result<Option<Json>, OdmError>,
)
    requires
        call_ensures(Collection::find_by_id, (collection, id), r),
    ensures
        r is Ok <==> id.0@ is Text || id.0@ is Number || id.0@ is Bool,
        id.0@ is Text ==> {
            let kept = lookup(collection@.documents, id.0@->Text_0);
            &&& r->Ok_0 is Some <==> kept is Some
            &&& r->Ok_0 is Some ==> r->Ok_0->0@ == external(collection@.schema, kept->0)
        },
{
}

/// A document that one call of `insert_one` staged is found by its id once it was committed, as
/// callers see it; every other document is found as before.
pub proof fn lemma_inserted_is_found(
    before: &Collection,
    document: Json,
    staged: Result<Staged, OdmError>,
    collection: &mut Collection,
    results: Vec<Json>,
    id: Seq<char>,
)
    requires
        call_ensures(Collection::insert_one, (before, document), staged),
        staged is Ok,
        old(collection)@ == before@,
        call_ensures(Collection::commit, (collection, staged->Ok_0), results),
    ensures
        staged->Ok_0.writes@.len() == 1,
        results@.len() == 1,
        ({
            let (own, kept) = staged->Ok_0.writes@[0];
            &&& lookup(before@.documents, own@) is None
            &&& lookup(final(collection)@.documents, own@) == Some(kept@)
            &&& results@[0]@ == external(before@.schema, kept@)
            &&& canonical_text(field(kept@, before@.schema.primary_key)->0) == Ok::<
                Seq<char>,
                OdmFailure,
            >(own@)
            &&& document_failure(before@.schema, kept@) is None
            &&& id != own@ ==> lookup(final(collection)@.documents, id) == lookup(
                before@.documents,
                id,
            )
        }),
        final(collection)@.name == before@.name,
        final(collection)@.schema == before@.schema,
{
    let (generated, now) = choose|generated: Seq<char>, now: Seq<char>|
        crate::ids::is_random_id(generated) && crate::clock::is_timestamp(now)
            && match #[trigger] prepare_outcome(before@.schema, document@, generated, now) {
            Ok((id, kept)) => if lookup(before@.documents, id) is Some {
                staged is Err
            } else {
                staged is Ok && stages_one(before@, staged->Ok_0, id, kept)
            },
            Err(e) => staged is Err,
        };
    let (own, kept) = prepare_outcome(before@.schema, document@, generated, now)->Ok_0;
    let writes = staged->Ok_0.writes@;
    assert(entries_model(writes) == seq![(own, kept)]);
    assert(entries_model(writes).len() == writes.len());
    assert(entries_model(writes)[0] == (writes[0].0@, writes[0].1@));
    assert(list_model(results@).len() == results@.len());
    assert(list_model(results@)[0] == results@[0]@);
    lemma_prepared_document(before@.schema, document@->Object_0, generated, now, own);
    lemma_lookup_with_entry(before@.documents, own, kept, own);
    lemma_lookup_with_entry(before@.documents, own, kept, id);
}

} // verus!
