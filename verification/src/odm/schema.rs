//! Schemas: what fields the documents of a collection have.
use crate::entries::{lookup, with_entry, TextMap};
use crate::json::{Json, JsonObject, Value};
use crate::odm::error::{outcome, OdmError, OdmFailure};
use crate::text;
use crate::text::texts;
use vstd::prelude::*;

verus! {

/// The type of a field.
#[derive(Clone, Copy, PartialEq, Eq, Structural, Debug)]
pub enum FieldType {
    Any,
    String,
    Number,
    Boolean,
    Object,
    Array,
    Timestamp,
}

/// Whether a value is of a type; a timestamp is a text.
pub open spec fn type_matches(field_type: FieldType, value: Value) -> bool {
    match field_type {
        FieldType::Any => true,
        FieldType::String => value is Text,
        FieldType::Timestamp => value is Text,
        FieldType::Number => value is Number,
        FieldType::Boolean => value is Bool,
        FieldType::Object => value is Object,
        FieldType::Array => value is List,
    }
}

/// The name of a type.
pub open spec fn name_of_type(field_type: FieldType) -> Seq<char> {
    match field_type {
        FieldType::Any => "Any"@,
        FieldType::String => "String"@,
        FieldType::Number => "Number"@,
        FieldType::Boolean => "Boolean"@,
        FieldType::Object => "Object"@,
        FieldType::Array => "Array"@,
        FieldType::Timestamp => "Timestamp"@,
    }
}

impl FieldType {
    /// Whether a value is of this type; every value is of type `Any`.
    pub fn matches(self, value: &Json) -> (r: bool)
        ensures
            r == type_matches(self, value@),
    {
        match self {
            FieldType::Any => true,
            FieldType::String => matches!(value, Json::String(_)),
            FieldType::Timestamp => matches!(value, Json::String(_)),
            FieldType::Number => matches!(value, Json::Number(_)),
            FieldType::Boolean => matches!(value, Json::Bool(_)),
            FieldType::Object => matches!(value, Json::Object(_)),
            FieldType::Array => matches!(value, Json::Array(_)),
        }
    }

    /// The name of this type.
    pub fn name(self) -> (r: String)
        ensures
            r@ == name_of_type(self),
    {
        match self {
            FieldType::Any => text::owned("Any"),
            FieldType::String => text::owned("String"),
            FieldType::Number => text::owned("Number"),
            FieldType::Boolean => text::owned("Boolean"),
            FieldType::Object => text::owned("Object"),
            FieldType::Array => text::owned("Array"),
            FieldType::Timestamp => text::owned("Timestamp"),
        }
    }
}

/// What is required of one field.
#[derive(PartialEq, Eq, Debug)]
pub struct FieldDefinition {
    pub name: String,
    pub field_type: FieldType,
    pub required: bool,
    pub nullable: bool,
    pub primary_key: bool,
    pub unique: bool,
    pub indexed: bool,
}

impl Clone for FieldDefinition {
    fn clone(&self) -> (r: Self)
        ensures
            r == *self,
    {
        FieldDefinition { name: self.name.clone(), ..*self }
    }
}

impl FieldDefinition {
    /// A field of a type of which nothing else is required.
    pub fn new(name: &str, field_type: FieldType) -> (r: FieldDefinition)
        ensures
            r.name@ == name@,
            r.field_type == field_type,
            !r.required && !r.nullable && !r.primary_key && !r.unique && !r.indexed,
    {
        FieldDefinition {
            name: text::owned(name),
            field_type,
            required: false,
            nullable: false,
            primary_key: false,
            unique: false,
            indexed: false,
        }
    }

    /// The field, to be present.
    pub fn required(self) -> (r: FieldDefinition)
        ensures
            r == (FieldDefinition { required: true, ..self }),
    {
        FieldDefinition { required: true, ..self }
    }

    /// The field, which may be null.
    pub fn nullable(self) -> (r: FieldDefinition)
        ensures
            r == (FieldDefinition { nullable: true, ..self }),
    {
        FieldDefinition { nullable: true, ..self }
    }

    /// The field as the primary key, which is unique, indexed and required.
    pub fn primary_key(self) -> (r: FieldDefinition)
        ensures
            r == (FieldDefinition {
                primary_key: true,
                unique: true,
                indexed: true,
                required: true,
                ..self
            }),
    {
        FieldDefinition { primary_key: true, unique: true, indexed: true, required: true, ..self }
    }

    /// The field with a unique value, which is indexed.
    pub fn unique(self) -> (r: FieldDefinition)
        ensures
            r == (FieldDefinition { unique: true, indexed: true, ..self }),
    {
        FieldDefinition { unique: true, indexed: true, ..self }
    }

    /// The field, indexed.
    pub fn indexed(self) -> (r: FieldDefinition)
        ensures
            r == (FieldDefinition { indexed: true, ..self }),
    {
        FieldDefinition { indexed: true, ..self }
    }
}

/// The fields that hold when a document was created and last updated.
#[derive(PartialEq, Eq, Debug)]
pub struct TimestampDefinition {
    pub created_at: String,
    pub updated_at: String,
}

impl Clone for TimestampDefinition {
    fn clone(&self) -> (r: Self)
        ensures
            r == *self,
    {
        TimestampDefinition {
            created_at: self.created_at.clone(),
            updated_at: self.updated_at.clone(),
        }
    }
}

/// The schema of a collection.
#[derive(PartialEq, Eq, Debug)]
pub struct ModelSchema {
    model_name: String,
    collection: String,
    fields: TextMap<FieldDefinition>,
    primary_key: String,
    strict: bool,
    auto_generate_primary_key: bool,
    timestamps: Option<TimestampDefinition>,
    version: u32,
}

/// The model of a schema.
pub struct SchemaModel {
    pub model_name: Seq<char>,
    pub collection: Seq<char>,
    pub fields: Seq<(Seq<char>, FieldDefinition)>,
    pub primary_key: Seq<char>,
    pub strict: bool,
    pub auto_generate_primary_key: bool,
    pub timestamps: Option<(Seq<char>, Seq<char>)>,
    pub version: u32,
}

/// The names of the timestamp fields.
pub open spec fn timestamp_names(t: Option<TimestampDefinition>) -> Option<
    (Seq<char>, Seq<char>),
> {
    match t {
        Some(names) => Some((names.created_at@, names.updated_at@)),
        None => None,
    }
}

impl View for ModelSchema {
    type V = SchemaModel;

    closed spec fn view(&self) -> SchemaModel {
        SchemaModel {
            model_name: self.model_name@,
            collection: self.collection@,
            fields: self.fields@,
            primary_key: self.primary_key@,
            strict: self.strict,
            auto_generate_primary_key: self.auto_generate_primary_key,
            timestamps: timestamp_names(self.timestamps),
            version: self.version,
        }
    }
}

impl Clone for ModelSchema {
    fn clone(&self) -> (r: Self)
        ensures
            r@ == self@,
    {
        let r = ModelSchema {
            model_name: self.model_name.clone(),
            collection: self.collection.clone(),
            fields: self.fields.clone(),
            primary_key: self.primary_key.clone(),
            strict: self.strict,
            auto_generate_primary_key: self.auto_generate_primary_key,
            timestamps: match &self.timestamps {
                Some(names) => Some(names.clone()),
                None => None,
            },
            version: self.version,
        };
        assert(r@.fields =~= self@.fields);
        r
    }
}

/// Whether every field stands under its own name, in order of names.
pub open spec fn fields_named(fields: Seq<(Seq<char>, FieldDefinition)>) -> bool {
    &&& crate::entries::keys_ordered(fields)
    &&& forall|i: int| 0 <= i < fields.len() ==> (#[trigger] fields[i]).1.name@ == fields[i].0
}

/// Setting a field under its name keeps the fields named.
proof fn lemma_fields_named(fields: Seq<(Seq<char>, FieldDefinition)>, field: FieldDefinition)
    requires
        fields_named(fields),
    ensures
        fields_named(with_entry(fields, field.name@, field)),
    decreases fields.len(),
{
    crate::entries::lemma_with_entry_ordered(fields, field.name@, field);
    lemma_names_kept(fields, field);
}

/// Setting a field under its name leaves every field under its own.
proof fn lemma_names_kept(fields: Seq<(Seq<char>, FieldDefinition)>, field: FieldDefinition)
    requires
        forall|i: int| 0 <= i < fields.len() ==> (#[trigger] fields[i]).1.name@ == fields[i].0,
    ensures
        forall|i: int|
            0 <= i < with_entry(fields, field.name@, field).len() ==> (#[trigger] with_entry(
                fields,
                field.name@,
                field,
            )[i]).1.name@ == with_entry(fields, field.name@, field)[i].0,
    decreases fields.len(),
{
    if fields.len() > 0 && fields[0].0 != field.name@ && !text::text_lt(field.name@, fields[0].0) {
        let rest = fields.skip(1);
        assert forall|i: int| 0 <= i < rest.len() implies (#[trigger] rest[i]).1.name@
            == rest[i].0 by {
            assert(rest[i] == fields[i + 1]);
        }
        lemma_names_kept(rest, field);
        let after = with_entry(fields, field.name@, field);
        assert forall|i: int| 0 <= i < after.len() implies (#[trigger] after[i]).1.name@
            == after[i].0 by {
            if i > 0 {
                assert(after[i] == with_entry(rest, field.name@, field)[i - 1]);
            }
        }
    }
}

/// The fields with one of a name added, where none of that name is there yet.
pub open spec fn with_default_field(
    fields: Seq<(Seq<char>, FieldDefinition)>,
    name: Seq<char>,
    after: Seq<(Seq<char>, FieldDefinition)>,
) -> bool {
    if lookup(fields, name) is Some {
        after == fields
    } else {
        exists|field: FieldDefinition|
            is_timestamp_field(field, name) && after == #[trigger] with_entry(fields, name, field)
    }
}

/// Whether a field is a plain timestamp of a name.
pub open spec fn is_timestamp_field(field: FieldDefinition, name: Seq<char>) -> bool {
    &&& field.name@ == name
    &&& field.field_type == FieldType::Timestamp
    &&& !field.required && !field.nullable && !field.primary_key && !field.unique && !field.indexed
}

/// A strict schema without fields, whose primary key `_id` is generated.
pub open spec fn first_schema(model_name: Seq<char>, collection: Seq<char>) -> SchemaModel {
    SchemaModel {
        model_name,
        collection,
        fields: Seq::empty(),
        primary_key: "_id"@,
        strict: true,
        auto_generate_primary_key: true,
        timestamps: None,
        version: 1,
    }
}

/// A schema with a field added, or replaced; one that is marked as the primary key becomes it.
pub open spec fn with_field(schema: SchemaModel, field: FieldDefinition) -> SchemaModel {
    SchemaModel {
        primary_key: if field.primary_key {
            field.name@
        } else {
            schema.primary_key
        },
        fields: with_entry(schema.fields, field.name@, field),
        ..schema
    }
}

/// Whether a schema comes of another by enabling timestamps under two field names, which are
/// declared where they are not yet.
pub open spec fn timestamps_enabled(
    before: SchemaModel,
    created_at: Seq<char>,
    updated_at: Seq<char>,
    after: SchemaModel,
) -> bool {
    &&& exists|between: Seq<(Seq<char>, FieldDefinition)>|
        #[trigger] with_default_field(before.fields, created_at, between) && with_default_field(
            between,
            updated_at,
            after.fields,
        )
    &&& after == (SchemaModel {
        fields: after.fields,
        timestamps: Some((created_at, updated_at)),
        ..before
    })
}

/// A call that changes a schema.
pub enum SchemaStep {
    /// `field` or `add_field`.
    Field(FieldDefinition),
    /// `set_collection`.
    Collection(Seq<char>),
    /// `strict` or `set_strict`.
    Strict(bool),
    /// `auto_generate_primary_key` or `set_auto_generate_primary_key`.
    AutoGenerate(bool),
    /// `set_version`.
    Version(u32),
    /// `timestamps` or `enable_timestamps`.
    Timestamps(Seq<char>, Seq<char>),
}

/// Whether a schema comes of another by a call.
pub open spec fn steps_to(before: SchemaModel, step: SchemaStep, after: SchemaModel) -> bool {
    match step {
        SchemaStep::Field(field) => after == with_field(before, field),
        SchemaStep::Collection(collection) => after == (SchemaModel { collection, ..before }),
        SchemaStep::Strict(strict) => after == (SchemaModel { strict, ..before }),
        SchemaStep::AutoGenerate(enabled) => after == (SchemaModel {
            auto_generate_primary_key: enabled,
            ..before
        }),
        SchemaStep::Version(version) => after == (SchemaModel { version, ..before }),
        SchemaStep::Timestamps(created_at, updated_at) => timestamps_enabled(
            before,
            created_at,
            updated_at,
            after,
        ),
    }
}

/// Whether schemas follow one another, call by call, from a new one.
pub open spec fn is_history(
    model_name: Seq<char>,
    collection: Seq<char>,
    steps: Seq<SchemaStep>,
    schemas: Seq<SchemaModel>,
) -> bool {
    &&& schemas.len() == steps.len() + 1
    &&& schemas[0] == first_schema(model_name, collection)
    &&& forall|i: int|
        0 <= i < steps.len() ==> steps_to(schemas[i], #[trigger] steps[i], schemas[i + 1])
}

/// Whether a call adds a field that is marked as the primary key.
pub open spec fn marks_primary(step: SchemaStep) -> bool {
    step matches SchemaStep::Field(field) && field.primary_key
}

/// Whatever calls a new schema went through, its primary key is the field that was added
/// last with the mark of one, or `_id` if none was. That this field was replaced later by one
/// without the mark makes no difference.
pub proof fn lemma_primary_key_of_history(
    model_name: Seq<char>,
    collection: Seq<char>,
    steps: Seq<SchemaStep>,
    schemas: Seq<SchemaModel>,
)
    requires
        is_history(model_name, collection, steps, schemas),
    ensures
        (forall|i: int| 0 <= i < steps.len() ==> !marks_primary(#[trigger] steps[i]))
            ==> schemas.last().primary_key == "_id"@,
        forall|i: int|
            0 <= i < steps.len() && marks_primary(#[trigger] steps[i]) && (forall|j: int|
                i < j < steps.len() ==> !marks_primary(#[trigger] steps[j]))
                ==> schemas.last().primary_key == steps[i]->Field_0.name@,
    decreases steps.len(),
{
    if steps.len() > 0 {
        let n = steps.len() - 1;
        let fewer = steps.drop_last();
        let earlier = schemas.drop_last();
        assert(steps_to(schemas[n], steps[n], schemas[n + 1]));
        assert forall|i: int| 0 <= i < fewer.len() implies steps_to(
            earlier[i],
            #[trigger] fewer[i],
            earlier[i + 1],
        ) by {
            assert(fewer[i] == steps[i]);
        }
        lemma_primary_key_of_history(model_name, collection, fewer, earlier);
        assert(earlier.last() == schemas[n]);
        if !marks_primary(steps[n]) {
            assert(schemas.last().primary_key == schemas[n].primary_key);
            assert forall|i: int|
                0 <= i < steps.len() && marks_primary(#[trigger] steps[i]) && (forall|j: int|
                    i < j < steps.len() ==> !marks_primary(
                        #[trigger] steps[j],
                    )) implies schemas.last().primary_key == steps[i]->Field_0.name@ by {
                assert(fewer[i] == steps[i]);
                assert forall|j: int| i < j < fewer.len() implies !marks_primary(
                    #[trigger] fewer[j],
                ) by {
                    assert(fewer[j] == steps[j]);
                }
            }
            if forall|i: int| 0 <= i < steps.len() ==> !marks_primary(#[trigger] steps[i]) {
                assert forall|i: int| 0 <= i < fewer.len() implies !marks_primary(
                    #[trigger] fewer[i],
                ) by {
                    assert(fewer[i] == steps[i]);
                }
            }
        }
    }
}

/// The names of the fields that have a property, in order.
pub open spec fn names_where(
    fields: Seq<(Seq<char>, FieldDefinition)>,
    property: spec_fn(FieldDefinition) -> bool,
) -> Seq<Seq<char>>
    decreases fields.len(),
{
    if fields.len() == 0 {
        Seq::empty()
    } else {
        let before = names_where(fields.drop_last(), property);
        if property(fields.last().1) {
            before.push(fields.last().1.name@)
        } else {
            before
        }
    }
}

/// Whether a field is indexed, be it as a unique field or as the primary key.
pub open spec fn is_indexed() -> spec_fn(FieldDefinition) -> bool {
    |f: FieldDefinition| f.indexed || f.unique || f.primary_key
}

/// Whether a field has a unique value, be it as the primary key.
pub open spec fn is_unique() -> spec_fn(FieldDefinition) -> bool {
    |f: FieldDefinition| f.unique || f.primary_key
}

/// Whether a field is marked as the primary key.
pub open spec fn is_primary() -> spec_fn(FieldDefinition) -> bool {
    |f: FieldDefinition| f.primary_key
}

/// Whether a schema admits every document: it is not strict, and its one field is the text
/// `_id`, the primary key, which is generated.
pub open spec fn is_schemaless(schema: SchemaModel, collection: Seq<char>) -> bool {
    &&& schema.model_name == "Document"@
    &&& schema.collection == collection
    &&& schema.primary_key == "_id"@
    &&& !schema.strict
    &&& schema.auto_generate_primary_key
    &&& schema.timestamps is None
    &&& schema.version == 1
    &&& schema.fields.len() == 1
    &&& schema.fields[0].0 == "_id"@
    &&& schema.fields[0].1.name@ == "_id"@
    &&& schema.fields[0].1.field_type == FieldType::String
    &&& schema.fields[0].1.required
    &&& !schema.fields[0].1.nullable
    &&& schema.fields[0].1.primary_key
    &&& schema.fields[0].1.unique
    &&& schema.fields[0].1.indexed
}

/// What is wrong with a schema, if anything.
pub open spec fn definition_failure(schema: SchemaModel) -> Option<OdmFailure> {
    let primaries = names_where(schema.fields, is_primary());
    if text::all_blank(schema.collection) {
        Some(OdmFailure::InvalidSchema("collection name cannot be empty"@))
    } else if primaries.len() > 1 {
        Some(OdmFailure::InvalidSchema("only one primary key is supported"@))
    } else if primaries.len() == 1 && primaries[0] != schema.primary_key {
        Some(
            OdmFailure::InvalidSchema(
                "primary key metadata is inconsistent for `"@ + primaries[0] + "`"@,
            ),
        )
    } else if schema.strict && lookup(schema.fields, schema.primary_key) is None {
        Some(
            OdmFailure::InvalidSchema(
                "primary key `"@ + schema.primary_key + "` is not declared as a field"@,
            ),
        )
    } else {
        None
    }
}

/// A document that fails validation at a field.
pub open spec fn invalid_field(field: Seq<char>, message: Seq<char>) -> OdmFailure {
    OdmFailure::Validation { field, message }
}

/// What is wrong with a field of a document, if anything.
pub open spec fn field_failure(
    field: FieldDefinition,
    entries: Seq<(Seq<char>, Value)>,
) -> Option<OdmFailure> {
    match lookup(entries, field.name@) {
        None => if field.required {
            Some(invalid_field(field.name@, "required field is missing"@))
        } else {
            None
        },
        Some(Value::Null) => if field.required && !field.nullable {
            Some(invalid_field(field.name@, "required field cannot be null"@))
        } else {
            None
        },
        Some(value) => if !type_matches(field.field_type, value) {
            Some(invalid_field(field.name@, "expected "@ + name_of_type(field.field_type)))
        } else {
            None
        },
    }
}

/// What is wrong with the first field from `from` on with which something is.
pub open spec fn fields_failure(
    fields: Seq<(Seq<char>, FieldDefinition)>,
    entries: Seq<(Seq<char>, Value)>,
    from: int,
) -> Option<OdmFailure>
    decreases fields.len() - from,
{
    if from < 0 || from >= fields.len() {
        None
    } else {
        match field_failure(fields[from].1, entries) {
            Some(e) => Some(e),
            None => fields_failure(fields, entries, from + 1),
        }
    }
}

/// The first key from `from` on that is no declared field; `_id` always is one.
pub open spec fn undeclared_failure(
    fields: Seq<(Seq<char>, FieldDefinition)>,
    entries: Seq<(Seq<char>, Value)>,
    from: int,
) -> Option<OdmFailure>
    decreases entries.len() - from,
{
    if from < 0 || from >= entries.len() {
        None
    } else if entries[from].0 != "_id"@ && lookup(fields, entries[from].0) is None {
        Some(invalid_field(entries[from].0, "field is not declared in the strict schema"@))
    } else {
        undeclared_failure(fields, entries, from + 1)
    }
}

/// What is wrong with a document under a schema, if anything.
pub open spec fn document_failure(schema: SchemaModel, document: Value) -> Option<OdmFailure> {
    match document {
        Value::Object(entries) => match fields_failure(schema.fields, entries, 0) {
            Some(e) => Some(e),
            None => if schema.strict {
                undeclared_failure(schema.fields, entries, 0)
            } else {
                None
            },
        },
        _ => Some(invalid_field("$document"@, "document must be a JSON object"@)),
    }
}

/// An outcome that is an error where there is something wrong.
pub open spec fn checked(failure: Option<OdmFailure>) -> Result<(), OdmFailure> {
    match failure {
        Some(e) => Err(e),
        None => Ok(()),
    }
}

/// An error that a document fails validation at a field.
pub fn validation(field: &str, message: &str) -> (r: OdmError)
    ensures
        r@ == invalid_field(field@, message@),
{
    OdmError::Validation { field: text::owned(field), message: text::owned(message) }
}

impl ModelSchema {
    /// Whether the declared fields stand under their own names.
    pub open spec fn wf(self) -> bool {
        fields_named(self@.fields)
    }

    /// A strict schema without fields, whose primary key `_id` is generated.
    pub fn new(model_name: &str, collection: &str) -> (r: ModelSchema)
        ensures
            r.wf(),
            r@ == first_schema(model_name@, collection@),
    {
        ModelSchema {
            model_name: text::owned(model_name),
            collection: text::owned(collection),
            fields: TextMap::new(),
            primary_key: text::owned("_id"),
            strict: true,
            auto_generate_primary_key: true,
            timestamps: None,
            version: 1,
        }
    }

    /// A schema that admits every field, with a text primary key `_id` that is generated.
    pub fn schemaless(collection: &str) -> (r: ModelSchema)
        ensures
            r.wf(),
            is_schemaless(r@, collection@),
    {
        let mut schema: ModelSchema = ModelSchema::new("Document", collection);
        schema.strict = false;
        schema.add_field(
            FieldDefinition::new("_id", FieldType::String).primary_key().required(),
        );
        schema
    }

    /// The schema with a field added.
    pub fn field(self, field: FieldDefinition) -> (r: ModelSchema)
        ensures
            self.wf() ==> r.wf(),
            r@ == with_field(self@, field),
    {
        let mut schema: ModelSchema = self;
        schema.add_field(field);
        schema
    }

    /// Adds a field or replaces the one of its name; a primary key becomes that of the schema.
    pub fn add_field(&mut self, field: FieldDefinition)
        ensures
            old(self).wf() ==> final(self).wf(),
            final(self)@ == with_field(old(self)@, field),
    {
        proof {
            if self.wf() {
                lemma_fields_named(self@.fields, field);
            }
        }
        if field.primary_key {
            self.primary_key = field.name.clone();
        }
        let name: String = field.name.clone();
        self.fields.insert(name, field);
    }

    /// Sets the name of the collection.
    pub fn set_collection(&mut self, collection: &str)
        ensures
            final(self)@ == (SchemaModel { collection: collection@, ..old(self)@ }),
    {
        self.collection = text::owned(collection);
    }

    /// Makes the schema strict, so that it refuses undeclared fields, or not.
    pub fn set_strict(&mut self, strict: bool)
        ensures
            final(self)@ == (SchemaModel { strict, ..old(self)@ }),
    {
        self.strict = strict;
    }

    /// The schema made strict or not.
    pub fn strict(self, strict: bool) -> (r: ModelSchema)
        ensures
            r@ == (SchemaModel { strict, ..self@ }),
    {
        ModelSchema { strict, ..self }
    }

    /// Makes the schema generate missing primary keys, or not.
    pub fn set_auto_generate_primary_key(&mut self, enabled: bool)
        ensures
            final(self)@ == (SchemaModel { auto_generate_primary_key: enabled, ..old(self)@ }),
    {
        self.auto_generate_primary_key = enabled;
    }

    /// The schema made to generate missing primary keys, or not.
    pub fn auto_generate_primary_key(self, enabled: bool) -> (r: ModelSchema)
        ensures
            r@ == (SchemaModel { auto_generate_primary_key: enabled, ..self@ }),
    {
        ModelSchema { auto_generate_primary_key: enabled, ..self }
    }

    /// Sets the version of the schema.
    pub fn set_version(&mut self, version: u32)
        ensures
            final(self)@ == (SchemaModel { version, ..old(self)@ }),
    {
        self.version = version;
    }

    /// Declares a field as a timestamp, where no field of its name is declared.
    fn declare_timestamp(&mut self, name: &str)
        ensures
            old(self).wf() ==> final(self).wf(),
            with_default_field(old(self)@.fields, name@, final(self)@.fields),
            final(self)@ == (SchemaModel { fields: final(self)@.fields, ..old(self)@ }),
    {
        if !self.fields.contains_key(name) {
            let field: FieldDefinition = FieldDefinition::new(name, FieldType::Timestamp);
            proof {
                if self.wf() {
                    lemma_fields_named(self@.fields, field);
                }
                assert(is_timestamp_field(field, name@));
            }
            self.fields.insert(text::owned(name), field);
        }
    }

    /// Enables timestamps under two field names, which are declared where they are not yet.
    pub fn enable_timestamps(&mut self, created_at: &str, updated_at: &str)
        ensures
            old(self).wf() ==> final(self).wf(),
            timestamps_enabled(old(self)@, created_at@, updated_at@, final(self)@),
    {
        self.declare_timestamp(created_at);
        let ghost between = self@.fields;
        self.declare_timestamp(updated_at);
        self.timestamps = Some(
            TimestampDefinition {
                created_at: text::owned(created_at),
                updated_at: text::owned(updated_at),
            },
        );
        assert(with_default_field(old(self)@.fields, created_at@, between));
    }

    /// The schema with timestamps enabled.
    pub fn timestamps(self, created_at: &str, updated_at: &str) -> (r: ModelSchema)
        ensures
            self.wf() ==> r.wf(),
            timestamps_enabled(self@, created_at@, updated_at@, r@),
    {
        let mut schema: ModelSchema = self;
        schema.enable_timestamps(created_at, updated_at);
        schema
    }

    /// The name of the model.
    pub fn model_name(&self) -> (r: &str)
        ensures
            r@ == self@.model_name,
    {
        self.model_name.as_str()
    }

    /// The name of the collection.
    pub fn collection(&self) -> (r: &str)
        ensures
            r@ == self@.collection,
    {
        self.collection.as_str()
    }

    /// The declared fields by name.
    pub fn fields(&self) -> (r: &TextMap<FieldDefinition>)
        ensures
            r@ == self@.fields,
    {
        &self.fields
    }

    /// The name of the primary key.
    pub fn primary_key(&self) -> (r: &str)
        ensures
            r@ == self@.primary_key,
    {
        self.primary_key.as_str()
    }

    /// Whether the schema refuses undeclared fields.
    pub fn strict_mode(&self) -> (r: bool)
        ensures
            r == self@.strict,
    {
        self.strict
    }

    /// Whether missing primary keys are generated.
    pub fn auto_generates_primary_key(&self) -> (r: bool)
        ensures
            r == self@.auto_generate_primary_key,
    {
        self.auto_generate_primary_key
    }

    /// The timestamp fields, where timestamps are enabled.
    pub fn timestamp_definition(&self) -> (r: Option<&TimestampDefinition>)
        ensures
            match self@.timestamps {
                Some((created_at, updated_at)) => r is Some && r->0.created_at@ == created_at
                    && r->0.updated_at@ == updated_at,
                None => r is None,
            },
    {
        self.timestamps.as_ref()
    }

    /// The version of the schema.
    pub fn version(&self) -> (r: u32)
        ensures
            r == self@.version,
    {
        self.version
    }

    /// The names of the fields that are chosen for a property, in order.
    fn names_of<F: Fn(&FieldDefinition) -> bool>(
        &self,
        chosen: F,
        Ghost(property): Ghost<spec_fn(FieldDefinition) -> bool>,
    ) -> (r: Vec<String>)
        requires
            forall|f: &FieldDefinition| call_requires(chosen, (f,)),
            forall|f: &FieldDefinition, b: bool| #[trigger]
                call_ensures(chosen, (f,), b) ==> b == property(*f),
        ensures
            texts(r@) == names_where(self@.fields, property),
    {
        let mut out: Vec<String> = Vec::new();
        let mut i: usize = 0;
        assert(self@.fields.take(0) =~= Seq::empty());
        assert(texts(out@) =~= Seq::empty());
        while i < self.fields.len()
            invariant
                i <= self@.fields.len(),
                self.fields@ == self@.fields,
                forall|f: &FieldDefinition| call_requires(chosen, (f,)),
                forall|f: &FieldDefinition, b: bool| #[trigger]
                    call_ensures(chosen, (f,), b) ==> b == property(*f),
                texts(out@) == names_where(self@.fields.take(i as int), property),
            decreases self@.fields.len() - i,
        {
            let field: &FieldDefinition = self.fields.value_at(i);
            let ghost before = texts(out@);
            assert(self@.fields.take(i + 1).drop_last() =~= self@.fields.take(i as int));
            if chosen(field) {
                out.push(field.name.clone());
                assert(texts(out@) =~= before.push(field.name@));
            }
            i += 1;
        }
        assert(self@.fields.take(i as int) =~= self@.fields);
        out
    }

    /// The names of the indexed fields, the unique ones and the primary key among them.
    pub fn indexed_fields(&self) -> (r: Vec<String>)
        ensures
            texts(r@) == names_where(self@.fields, is_indexed()),
    {
        let chosen = |f: &FieldDefinition| -> (b: bool)
            ensures
                b == is_indexed()(*f),
            { f.indexed || f.unique || f.primary_key };
        self.names_of(chosen, Ghost(is_indexed()))
    }

    /// The names of the fields with unique values, the primary key among them.
    pub fn unique_fields(&self) -> (r: Vec<String>)
        ensures
            texts(r@) == names_where(self@.fields, is_unique()),
    {
        let chosen = |f: &FieldDefinition| -> (b: bool)
            ensures
                b == is_unique()(*f),
            { f.unique || f.primary_key };
        self.names_of(chosen, Ghost(is_unique()))
    }

    /// The names of the fields that are marked as the primary key.
    fn primary_fields(&self) -> (r: Vec<String>)
        ensures
            texts(r@) == names_where(self@.fields, is_primary()),
    {
        let chosen = |f: &FieldDefinition| -> (b: bool)
            ensures
                b == is_primary()(*f),
            { f.primary_key };
        self.names_of(chosen, Ghost(is_primary()))
    }

    /// Checks the schema itself: a collection name that is not blank, at most
    /// one primary key, and one that is declared where the schema is strict.
    pub fn validate_definition(&self) -> (r: Result<(), OdmError>)
        ensures
            outcome(r) == checked(definition_failure(self@)),
    {
        if text::is_all_blank(self.collection.as_str()) {
            return Err(OdmError::InvalidSchema(text::owned("collection name cannot be empty")));
        }
        let primaries: Vec<String> = self.primary_fields();
        if primaries.len() > 1 {
            return Err(OdmError::InvalidSchema(text::owned("only one primary key is supported")));
        }
        if primaries.len() == 1 {
            assert(texts(primaries@)[0] == primaries@[0]@);
            if !text::same_text(primaries[0].as_str(), self.primary_key.as_str()) {
                return Err(
                    OdmError::InvalidSchema(
                        text::join3(
                            "primary key metadata is inconsistent for `",
                            primaries[0].as_str(),
                            "`",
                        ),
                    ),
                );
            }
        }
        if self.strict && !self.fields.contains_key(self.primary_key.as_str()) {
            return Err(
                OdmError::InvalidSchema(
                    text::join3(
                        "primary key `",
                        self.primary_key.as_str(),
                        "` is not declared as a field",
                    ),
                ),
            );
        }
        Ok(())
    }

    /// Checks one field of a document.
    fn validate_field(field: &FieldDefinition, object: &JsonObject) -> (r: Result<(), OdmError>)
        ensures
            outcome(r) == checked(field_failure(*field, object@)),
    {
        match object.get(field.name.as_str()) {
            None => {
                if field.required {
                    return Err(validation(field.name.as_str(), "required field is missing"));
                }
            },
            Some(value) => {
                if value.is_null() {
                    if field.required && !field.nullable {
                        return Err(
                            validation(field.name.as_str(), "required field cannot be null"),
                        );
                    }
                } else if !field.field_type.matches(value) {
                    let name: String = field.field_type.name();
                    let message: String = text::join2("expected ", name.as_str());
                    return Err(validation(field.name.as_str(), message.as_str()));
                }
            },
        }
        Ok(())
    }

    /// Checks a document: required fields, null values, types and, where the
    /// schema is strict, that every field is declared.
    pub fn validate_document(&self, document: &Json) -> (r: Result<(), OdmError>)
        ensures
            outcome(r) == checked(document_failure(self@, document@)),
    {
        let object: &JsonObject = match document {
            Json::Object(object) => object,
            _ => {
                return Err(validation("$document", "document must be a JSON object"));
            },
        };
        let mut i: usize = 0;
        while i < self.fields.len()
            invariant
                i <= self@.fields.len(),
                self.fields@ == self@.fields,
                document@ == Value::Object(object@),
                fields_failure(self@.fields, object@, 0) == fields_failure(
                    self@.fields,
                    object@,
                    i as int,
                ),
            decreases self@.fields.len() - i,
        {
            match Self::validate_field(self.fields.value_at(i), object) {
                Ok(()) => {},
                Err(e) => {
                    return Err(e);
                },
            }
            i += 1;
        }
        if self.strict {
            let mut k: usize = 0;
            while k < object.len()
                invariant
                    k <= object@.len(),
                    self.fields@ == self@.fields,
                    self@.strict,
                    document@ == Value::Object(object@),
                    fields_failure(self@.fields, object@, 0) is None,
                    undeclared_failure(self@.fields, object@, 0) == undeclared_failure(
                        self@.fields,
                        object@,
                        k as int,
                    ),
                decreases object@.len() - k,
            {
                let key: &String = object.key_at(k);
                if !text::same_text(key.as_str(), "_id") && !self.fields.contains_key(
                    key.as_str(),
                ) {
                    return Err(
                        validation(key.as_str(), "field is not declared in the strict schema"),
                    );
                }
                k += 1;
            }
        }
        Ok(())
    }
}

} // verus!
