//! Which schemas are sound and which documents pass them.
use crate::entries::{lemma_key_is_found, lemma_lookup_is_an_entry, lookup};
use crate::json::{Json, Value};
use crate::odm::error::OdmError;
use crate::odm::schema::{
    definition_failure, document_failure, field_failure, fields_failure, is_indexed, is_primary,
    is_unique, names_where, undeclared_failure, FieldDefinition, FieldType, ModelSchema,
    SchemaModel,
};
use vstd::prelude::*;

verus! {

/// Whether a value is of the kind that a field asks for.
pub open spec fn is_of_kind(kind: FieldType, value: Value) -> bool {
    match value {
        Value::Null => kind == FieldType::Any,
        Value::Bool(_) => kind == FieldType::Any || kind == FieldType::Boolean,
        Value::Number(_) => kind == FieldType::Any || kind == FieldType::Number,
        Value::Text(_) => kind == FieldType::Any || kind == FieldType::String || kind
            == FieldType::Timestamp,
        Value::List(_) => kind == FieldType::Any || kind == FieldType::Array,
        Value::Object(_) => kind == FieldType::Any || kind == FieldType::Object,
    }
}

/// Whether an object has a field as it is declared: it is there if it is required, is null only
/// if it may be missing or null, and is otherwise of its kind.
pub open spec fn has_as_declared(
    entries: Seq<(Seq<char>, Value)>,
    declared: FieldDefinition,
) -> bool {
    let value = lookup(entries, declared.name@);
    &&& value is None ==> !declared.required
    &&& value is Some && value->0 is Null ==> !declared.required || declared.nullable
    &&& value is Some && !(value->0 is Null) ==> is_of_kind(declared.field_type, value->0)
}

/// A field is in order exactly where an object has it as it is declared; a failure names it.
proof fn lemma_field(declared: FieldDefinition, entries: Seq<(Seq<char>, Value)>)
    ensures
        field_failure(declared, entries) is None <==> has_as_declared(entries, declared),
        field_failure(declared, entries) is Some ==> field_failure(declared, entries)->0
            is Validation && field_failure(declared, entries)->0->Validation_field
            == declared.name@,
{
}

/// All fields are in order exactly where an object has each as it is declared; a failure names
/// one that it has not.
proof fn lemma_fields(
    fields: Seq<(Seq<char>, FieldDefinition)>,
    entries: Seq<(Seq<char>, Value)>,
    from: int,
)
    requires
        0 <= from,
    ensures
        fields_failure(fields, entries, from) is None <==> forall|i: int|
            from <= i < fields.len() ==> has_as_declared(entries, (#[trigger] fields[i]).1),
        fields_failure(fields, entries, from) is Some ==> exists|i: int|
            from <= i < fields.len() && !has_as_declared(entries, (#[trigger] fields[i]).1)
                && fields_failure(fields, entries, from)->0 is Validation && fields_failure(
                fields,
                entries,
                from,
            )->0->Validation_field == fields[i].1.name@,
    decreases fields.len() - from,
{
    if from < fields.len() {
        lemma_field(fields[from].1, entries);
        lemma_fields(fields, entries, from + 1);
    }
}

/// No key is undeclared exactly where each is `_id` or the name of a field; a failure names one
/// that is.
proof fn lemma_undeclared(
    fields: Seq<(Seq<char>, FieldDefinition)>,
    entries: Seq<(Seq<char>, Value)>,
    from: int,
)
    requires
        0 <= from,
    ensures
        undeclared_failure(fields, entries, from) is None <==> forall|i: int|
            from <= i < entries.len() ==> is_declared(fields, (#[trigger] entries[i]).0),
        undeclared_failure(fields, entries, from) is Some ==> exists|i: int|
            from <= i < entries.len() && !is_declared(fields, (#[trigger] entries[i]).0)
                && undeclared_failure(fields, entries, from)->0 is Validation
                && undeclared_failure(fields, entries, from)->0->Validation_field == entries[i].0,
    decreases entries.len() - from,
{
    if from < entries.len() {
        lemma_undeclared(fields, entries, from + 1);
        let key = entries[from].0;
        lemma_lookup_is_an_entry(fields, key);
        if is_declared(fields, key) && key != "_id"@ {
            let i = choose|i: int| 0 <= i < fields.len() && (#[trigger] fields[i]).0 == key;
            assert(lookup(fields, key) is Some);
        }
    }
}

/// Whether a key is `_id` or the name of a field.
pub open spec fn is_declared(fields: Seq<(Seq<char>, FieldDefinition)>, key: Seq<char>) -> bool {
    key == "_id"@ || exists|i: int| 0 <= i < fields.len() && (#[trigger] fields[i]).0 == key
}

/// A document passes a schema exactly where it is an object that has every field as it is
/// declared and, if the schema is strict, no other field but `_id`. A failure names a field that
/// is not as it should be.
pub proof fn lemma_valid_documents(schema: SchemaModel, document: Value)
    ensures
        document_failure(schema, document) is None <==> {
            &&& document is Object
            &&& forall|i: int|
                0 <= i < schema.fields.len() ==> has_as_declared(
                    document->Object_0,
                    (#[trigger] schema.fields[i]).1,
                )
            &&& schema.strict ==> forall|i: int|
                0 <= i < document->Object_0.len() ==> is_declared(
                    schema.fields,
                    (#[trigger] document->Object_0[i]).0,
                )
        },
        document_failure(schema, document) is Some ==> {
            let failure = document_failure(schema, document)->0;
            &&& failure is Validation
            &&& {
                ||| !(document is Object) && failure->Validation_field == "$document"@
                ||| document is Object && exists|i: int|
                    0 <= i < schema.fields.len() && !has_as_declared(
                        document->Object_0,
                        (#[trigger] schema.fields[i]).1,
                    ) && failure->Validation_field == schema.fields[i].1.name@
                ||| document is Object && schema.strict && exists|i: int|
                    0 <= i < document->Object_0.len() && !is_declared(
                        schema.fields,
                        (#[trigger] document->Object_0[i]).0,
                    ) && failure->Validation_field == document->Object_0[i].0
            }
        },
{
    match document {
        Value::Object(entries) => {
            lemma_fields(schema.fields, entries, 0);
            lemma_undeclared(schema.fields, entries, 0);
        },
        _ => {},
    }
}

/// The names of fields with a property are those of the fields that have it, in order.
proof fn lemma_names_where(
    fields: Seq<(Seq<char>, FieldDefinition)>,
    property: spec_fn(FieldDefinition) -> bool,
)
    ensures
        names_where(fields, property) == fields.filter(
            |f: (Seq<char>, FieldDefinition)| property(f.1),
        ).map_values(|f: (Seq<char>, FieldDefinition)| f.1.name@),
    decreases fields.len(),
{
    reveal(Seq::filter);
    let keep = |f: (Seq<char>, FieldDefinition)| property(f.1);
    let name = |f: (Seq<char>, FieldDefinition)| f.1.name@;
    if fields.len() > 0 {
        lemma_names_where(fields.drop_last(), property);
        let before = fields.drop_last().filter(keep);
        assert(before.push(fields.last()).map_values(name) =~= before.map_values(name).push(
            name(fields.last()),
        ));
    } else {
        assert(names_where(fields, property) =~= fields.filter(keep).map_values(name));
    }
}

/// The indexed fields are those that are marked as indexed, unique or the primary key; the
/// unique ones those that are marked as unique or the primary key. They are told in order.
pub proof fn lemma_marked_fields(fields: Seq<(Seq<char>, FieldDefinition)>)
    ensures
        names_where(fields, is_indexed()) == fields.filter(
            |f: (Seq<char>, FieldDefinition)| f.1.indexed || f.1.unique || f.1.primary_key,
        ).map_values(|f: (Seq<char>, FieldDefinition)| f.1.name@),
        names_where(fields, is_unique()) == fields.filter(
            |f: (Seq<char>, FieldDefinition)| f.1.unique || f.1.primary_key,
        ).map_values(|f: (Seq<char>, FieldDefinition)| f.1.name@),
        names_where(fields, is_primary()) == fields.filter(
            |f: (Seq<char>, FieldDefinition)| f.1.primary_key,
        ).map_values(|f: (Seq<char>, FieldDefinition)| f.1.name@),
{
    lemma_names_where(fields, is_indexed());
    lemma_names_where(fields, is_unique());
    lemma_names_where(fields, is_primary());
    assert((|f: (Seq<char>, FieldDefinition)| is_indexed()(f.1)) =~= (
    |f: (Seq<char>, FieldDefinition)| f.1.indexed || f.1.unique || f.1.primary_key));
    assert((|f: (Seq<char>, FieldDefinition)| is_unique()(f.1)) =~= (
    |f: (Seq<char>, FieldDefinition)| f.1.unique || f.1.primary_key));
    assert((|f: (Seq<char>, FieldDefinition)| is_primary()(f.1)) =~= (
    |f: (Seq<char>, FieldDefinition)| f.1.primary_key));
}

/// A schema is sound exactly where its collection has a name that is more than blanks, no two
/// fields are marked as the primary key, one that is marked is the primary key, and a strict
/// schema declares the primary key.
pub proof fn lemma_sound_schemas(schema: SchemaModel)
    ensures
        definition_failure(schema) is None <==> {
            &&& exists|i: int|
                0 <= i < schema.collection.len() && !crate::text::is_blank(
                    #[trigger] schema.collection[i],
                )
            &&& forall|i: int, j: int|
                0 <= i < j < schema.fields.len() ==> !((#[trigger] schema.fields[i]).1.primary_key
                    && (#[trigger] schema.fields[j]).1.primary_key)
            &&& forall|i: int|
                0 <= i < schema.fields.len() && (#[trigger] schema.fields[i]).1.primary_key
                    ==> schema.fields[i].1.name@ == schema.primary_key
            &&& schema.strict ==> exists|i: int|
                0 <= i < schema.fields.len() && (#[trigger] schema.fields[i]).0
                    == schema.primary_key
        },
{
    lemma_primaries(schema.fields);
    lemma_lookup_is_an_entry(schema.fields, schema.primary_key);
    let primaries = names_where(schema.fields, is_primary());
    if primaries.len() == 1 {
        let i = choose|i: int|
            0 <= i < schema.fields.len() && (#[trigger] schema.fields[i]).1.primary_key
                && schema.fields[i].1.name@ == primaries[0];
        assert(schema.fields[i].1.primary_key);
    }
    if exists|i: int|
        0 <= i < schema.fields.len() && (#[trigger] schema.fields[i]).0 == schema.primary_key {
        let i = choose|i: int|
            0 <= i < schema.fields.len() && (#[trigger] schema.fields[i]).0 == schema.primary_key;
        lemma_key_is_found(schema.fields, i);
    }
    if crate::text::all_blank(schema.collection) {
        assert(forall|i: int|
            0 <= i < schema.collection.len() ==> crate::text::is_blank(
                #[trigger] schema.collection[i],
            ));
    }
}

/// How many fields are marked as the primary key.
proof fn lemma_primaries(fields: Seq<(Seq<char>, FieldDefinition)>)
    ensures
        ({
            let names = names_where(fields, is_primary());
            &&& names.len() == 0 <==> forall|i: int|
                0 <= i < fields.len() ==> !(#[trigger] fields[i]).1.primary_key
            &&& names.len() == 1 ==> exists|i: int|
                0 <= i < fields.len() && (#[trigger] fields[i]).1.primary_key
                    && fields[i].1.name@ == names[0]
            &&& names.len() == 1 ==> forall|i: int|
                0 <= i < fields.len() && (#[trigger] fields[i]).1.primary_key
                    ==> fields[i].1.name@ == names[0]
            &&& names.len() <= 1 <==> forall|i: int, j: int|
                0 <= i < j < fields.len() ==> !((#[trigger] fields[i]).1.primary_key && (
                #[trigger] fields[j]).1.primary_key)
        }),
    decreases fields.len(),
{
    if fields.len() > 0 {
        let front = fields.drop_last();
        let n = fields.len() - 1;
        lemma_primaries(front);
        assert(forall|i: int| 0 <= i < n ==> front[i] == #[trigger] fields[i]);
        let before = names_where(front, is_primary());
        let names = names_where(fields, is_primary());
        if fields[n].1.primary_key {
            assert(names == before.push(fields[n].1.name@));
            if before.len() > 0 {
                let i = choose|i: int|
                    0 <= i < front.len() && (#[trigger] front[i]).1.primary_key;
                assert(fields[i].1.primary_key);
                assert(0 <= i < n);
            } else {
                assert forall|i: int| 0 <= i < n implies !(#[trigger] fields[i]).1.primary_key by {
                    assert(!front[i].1.primary_key);
                }
                assert(names[0] == fields[n].1.name@);
            }
        } else {
            assert(names == before);
            if before.len() == 1 {
                let i = choose|i: int|
                    0 <= i < front.len() && (#[trigger] front[i]).1.primary_key
                        && front[i].1.name@ == before[0];
                assert(fields[i].1.primary_key);
            }
            if before.len() == 0 {
                assert forall|i: int| 0 <= i < fields.len() implies !(
                #[trigger] fields[i]).1.primary_key by {
                    if i < n {
                        assert(!front[i].1.primary_key);
                    }
                }
            } else {
                let i = choose|i: int|
                    0 <= i < front.len() && (#[trigger] front[i]).1.primary_key;
                assert(fields[i].1.primary_key);
            }
            if before.len() <= 1 {
                assert forall|i: int, j: int| 0 <= i < j < fields.len() implies !((
                #[trigger] fields[i]).1.primary_key && (#[trigger] fields[j]).1.primary_key) by {
                    if j < n {
                        assert(front[i] == fields[i] && front[j] == fields[j]);
                    }
                }
            } else {
                let (i, j) = choose|i: int, j: int|
                    0 <= i < j < front.len() && (#[trigger] front[i]).1.primary_key && (
                    #[trigger] front[j]).1.primary_key;
                assert(fields[i].1.primary_key && fields[j].1.primary_key);
            }
        }
    }
}

/// `validate_document` accepts exactly the objects that have every field as it is declared and,
/// if the schema is strict, no other field but `_id`.
pub proof fn lemma_validate_document(
    schema: &ModelSchema,
    document: &Json,
    r: Result<(), OdmError>,
)
    requires
        call_ensures(ModelSchema::validate_document, (schema, document), r),
    ensures
        r is Ok <==> {
            &&& document@ is Object
            &&& forall|i: int|
                0 <= i < schema@.fields.len() ==> has_as_declared(
                    document@->Object_0,
                    (#[trigger] schema@.fields[i]).1,
                )
            &&& schema@.strict ==> forall|i: int|
                0 <= i < document@->Object_0.len() ==> is_declared(
                    schema@.fields,
                    (#[trigger] document@->Object_0[i]).0,
                )
        },
{
    lemma_valid_documents(schema@, document@);
}

/// `FieldType::matches` goes by the kind of the value.
pub proof fn lemma_matches(field_type: FieldType, value: &Json, r: bool)
    requires
        call_ensures(FieldType::matches, (field_type, value), r),
    ensures
        r == is_of_kind(field_type, value@),
{
}

} // verus!
