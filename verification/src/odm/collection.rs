//! Collections: documents by primary key, under a schema.
//!
//! A collection holds the local view of its documents. A write is staged
//! against that view, checked as a whole, and committed once it was stored.
use crate::clock;
use crate::clock::is_timestamp;
use crate::entries::{lookup, with_entry, without_entry};
use crate::ids;
use crate::ids::is_random_id;
use crate::json::{entries_model, field, json_eq, list_model, Json, JsonObject, Value};
use crate::number::{number_text, Number};
use crate::odm::error::{OdmError, OdmFailure};
use crate::odm::query;
use crate::odm::query::query_outcome;
use crate::odm::schema::{
    definition_failure, document_failure, invalid_field, is_schemaless, validation, ModelSchema,
    SchemaModel,
};
use crate::odm::transaction::{
    options_failure, validate_write_options, ConsistencyLevel, TransactionContext, WriteOptions,
};
use crate::odm::update;
use crate::odm::update::{is_addition, update_outcome};
use crate::text;
use crate::text::{text_lt, texts};
use vstd::prelude::*;
use vstd::std_specs::cmp::PartialEqSpecImpl;

verus! {

/// A primary key to look a document up by.
#[derive(Debug)]
pub struct DocumentId(pub Json);

impl DocumentId {
    /// The key as a JSON value.
    pub fn into_value(self) -> (r: Json)
        ensures
            r == self.0,
    {
        self.0
    }

    /// The key that is a text.
    pub fn text(value: &str) -> (r: DocumentId)
        ensures
            r.0@ == Value::Text(value@),
    {
        DocumentId(Json::String(text::owned(value)))
    }
}

impl Clone for DocumentId {
    fn clone(&self) -> (r: Self)
        ensures
            r.0@ == self.0@,
    {
        DocumentId(self.0.clone())
    }
}

impl PartialEq for DocumentId {
    fn eq(&self, other: &DocumentId) -> (r: bool) {
        self.0.same(&other.0)
    }
}

impl PartialEqSpecImpl for DocumentId {
    open spec fn obeys_eq_spec() -> bool {
        true
    }

    open spec fn eq_spec(&self, other: &DocumentId) -> bool {
        json_eq(self.0@, other.0@)
    }
}

impl From<Json> for DocumentId {
    fn from(value: Json) -> (r: Self) {
        DocumentId(value)
    }
}

impl vstd::std_specs::convert::FromSpecImpl<Json> for DocumentId {
    open spec fn obeys_from_spec() -> bool {
        true
    }

    open spec fn from_spec(value: Json) -> Self {
        DocumentId(value)
    }
}

impl From<String> for DocumentId {
    fn from(value: String) -> (r: Self) {
        DocumentId(Json::String(value))
    }
}

impl vstd::std_specs::convert::FromSpecImpl<String> for DocumentId {
    open spec fn obeys_from_spec() -> bool {
        true
    }

    open spec fn from_spec(value: String) -> Self {
        DocumentId(Json::String(value))
    }
}

impl From<i64> for DocumentId {
    fn from(value: i64) -> (r: Self) {
        DocumentId(Json::Number(Number::Signed(value)))
    }
}

impl vstd::std_specs::convert::FromSpecImpl<i64> for DocumentId {
    open spec fn obeys_from_spec() -> bool {
        true
    }

    open spec fn from_spec(value: i64) -> Self {
        DocumentId(Json::Number(Number::Signed(value)))
    }
}

impl From<i32> for DocumentId {
    fn from(value: i32) -> (r: Self) {
        DocumentId(Json::Number(Number::Signed(value as i64)))
    }
}

impl vstd::std_specs::convert::FromSpecImpl<i32> for DocumentId {
    open spec fn obeys_from_spec() -> bool {
        true
    }

    open spec fn from_spec(value: i32) -> Self {
        DocumentId(Json::Number(Number::Signed(value as i64)))
    }
}

impl From<u64> for DocumentId {
    fn from(value: u64) -> (r: Self) {
        DocumentId(Json::Number(Number::Unsigned(value)))
    }
}

impl vstd::std_specs::convert::FromSpecImpl<u64> for DocumentId {
    open spec fn obeys_from_spec() -> bool {
        true
    }

    open spec fn from_spec(value: u64) -> Self {
        DocumentId(Json::Number(Number::Unsigned(value)))
    }
}

impl From<u32> for DocumentId {
    fn from(value: u32) -> (r: Self) {
        DocumentId(Json::Number(Number::Unsigned(value as u64)))
    }
}

impl vstd::std_specs::convert::FromSpecImpl<u32> for DocumentId {
    open spec fn obeys_from_spec() -> bool {
        true
    }

    open spec fn from_spec(value: u32) -> Self {
        DocumentId(Json::Number(Number::Unsigned(value as u64)))
    }
}

impl From<bool> for DocumentId {
    fn from(value: bool) -> (r: Self) {
        DocumentId(Json::Bool(value))
    }
}

impl vstd::std_specs::convert::FromSpecImpl<bool> for DocumentId {
    open spec fn obeys_from_spec() -> bool {
        true
    }

    open spec fn from_spec(value: bool) -> Self {
        DocumentId(Json::Bool(value))
    }
}

/// The text under which a primary key is kept.
pub open spec fn canonical_text(value: Value) -> Result<Seq<char>, OdmFailure> {
    match value {
        Value::Text(s) => Ok(s),
        Value::Number(n) => Ok(number_text(n)),
        Value::Bool(b) => Ok(
            if b {
                "true"@
            } else {
                "false"@
            },
        ),
        _ => Err(invalid_field("$id"@, "primary keys must be strings, numbers, or booleans"@)),
    }
}

/// The outcome of an operation that gives a text, all taken by their models.
pub open spec fn text_outcome(r: Result<String, OdmError>) -> Result<Seq<char>, OdmFailure> {
    match r {
        Ok(s) => Ok(s@),
        Err(e) => Err(e@),
    }
}

/// The text under which a primary key is kept.
pub fn canonical_value(value: &Json) -> (r: Result<String, OdmError>)
    ensures
        text_outcome(r) == canonical_text(value@),
{
    match value {
        Json::String(s) => Ok(s.clone()),
        Json::Number(n) => Ok(n.render()),
        Json::Bool(b) => Ok(
            if *b {
                text::owned("true")
            } else {
                text::owned("false")
            },
        ),
        _ => Err(validation("$id", "primary keys must be strings, numbers, or booleans")),
    }
}

/// The text under which a document is kept: that of its primary key.
pub open spec fn id_outcome(schema: SchemaModel, document: Value) -> Result<
    Seq<char>,
    OdmFailure,
> {
    match field(document, schema.primary_key) {
        Some(value) => canonical_text(value),
        None => Err(invalid_field(schema.primary_key, "primary key is missing"@)),
    }
}

/// Whether a field of an object is absent or null.
pub open spec fn is_unset(entries: Seq<(Seq<char>, Value)>, key: Seq<char>) -> bool {
    lookup(entries, key) is None || lookup(entries, key)->0 is Null
}

/// An object with its missing primary key and its timestamps filled in.
pub open spec fn filled_in(
    schema: SchemaModel,
    entries: Seq<(Seq<char>, Value)>,
    generated: Seq<char>,
    now: Seq<char>,
) -> Seq<(Seq<char>, Value)> {
    let keyed = if is_unset(entries, schema.primary_key) {
        with_entry(entries, schema.primary_key, Value::Text(generated))
    } else {
        entries
    };
    match schema.timestamps {
        Some((created_at, updated_at)) => {
            let created = if is_unset(keyed, created_at) {
                with_entry(keyed, created_at, Value::Text(now))
            } else {
                keyed
            };
            with_entry(created, updated_at, Value::Text(now))
        },
        None => keyed,
    }
}

/// A document made ready to be inserted, with the text that it is kept under.
pub open spec fn prepare_outcome(
    schema: SchemaModel,
    document: Value,
    generated: Seq<char>,
    now: Seq<char>,
) -> Result<(Seq<char>, Value), OdmFailure> {
    match document {
        Value::Object(entries) => if is_unset(entries, schema.primary_key)
            && !schema.auto_generate_primary_key {
            Err(invalid_field(schema.primary_key, "primary key is required"@))
        } else {
            let filled = filled_in(schema, entries, generated, now);
            match id_outcome(schema, Value::Object(filled)) {
                Err(e) => Err(e),
                Ok(id) => {
                    let kept = if schema.primary_key != "_id"@ {
                        with_entry(filled, "_id"@, Value::Text(id))
                    } else {
                        filled
                    };
                    match document_failure(schema, Value::Object(kept)) {
                        Some(e) => Err(e),
                        None => Ok((id, Value::Object(kept))),
                    }
                },
            }
        },
        _ => Err(invalid_field("$document"@, "document must be a JSON object"@)),
    }
}

/// A document as callers see it: without the copy of its id where the primary
/// key is another field.
pub open spec fn external(schema: SchemaModel, document: Value) -> Value {
    match document {
        Value::Object(entries) => if schema.primary_key != "_id"@ {
            Value::Object(without_entry(entries, "_id"@))
        } else {
            document
        },
        _ => document,
    }
}

/// A value that is already there.
pub open spec fn duplicate(schema: SchemaModel, id: Seq<char>) -> OdmFailure {
    OdmFailure::DuplicateKey { field: schema.primary_key, value: id }
}

/// A stored document as the local view keeps it, with a copy of its id where
/// the primary key is another field.
pub open spec fn mirrored(schema: SchemaModel, document: Value, id: Seq<char>) -> Value {
    match document {
        Value::Object(entries) => if schema.primary_key != "_id"@ && lookup(
            entries,
            "_id"@,
        ) is None {
            Value::Object(with_entry(entries, "_id"@, Value::Text(id)))
        } else {
            document
        },
        _ => document,
    }
}

/// The local view once the stored documents from `from` on were added to it.
pub open spec fn load_outcome(
    schema: SchemaModel,
    stored: Seq<Value>,
    from: int,
    view: Seq<(Seq<char>, Value)>,
) -> Result<Seq<(Seq<char>, Value)>, OdmFailure>
    decreases stored.len() - from,
{
    if from < 0 || from >= stored.len() {
        Ok(view)
    } else {
        match document_failure(schema, stored[from]) {
            Some(e) => Err(e),
            None => match id_outcome(schema, stored[from]) {
                Err(e) => Err(e),
                Ok(id) => if lookup(view, id) is Some {
                    Err(duplicate(schema, id))
                } else {
                    load_outcome(
                        schema,
                        stored,
                        from + 1,
                        with_entry(view, id, mirrored(schema, stored[from], id)),
                    )
                },
            },
        }
    }
}

/// The documents that a search looks at: all, or those of the given ids.
pub open spec fn looked_at(
    view: Seq<(Seq<char>, Value)>,
    candidates: Option<Seq<Seq<char>>>,
) -> Seq<(Seq<char>, Value)> {
    match candidates {
        None => view,
        Some(ids) => present(view, ids, ids.len() as int),
    }
}

/// The documents of the first `n` ids that there are.
pub open spec fn present(
    view: Seq<(Seq<char>, Value)>,
    ids: Seq<Seq<char>>,
    n: int,
) -> Seq<(Seq<char>, Value)>
    decreases n,
{
    if n <= 0 {
        Seq::empty()
    } else {
        let before = present(view, ids, n - 1);
        match lookup(view, ids[n - 1]) {
            Some(document) => before.push((ids[n - 1], document)),
            None => before,
        }
    }
}

/// What a search finds among the documents from `from` on, after what it found before.
pub open spec fn find_outcome(
    schema: SchemaModel,
    documents: Seq<(Seq<char>, Value)>,
    query: Value,
    from: int,
    found: Seq<Value>,
) -> Result<Seq<Value>, OdmFailure>
    decreases documents.len() - from,
{
    if from < 0 || from >= documents.len() {
        Ok(found)
    } else {
        match query_outcome(documents[from].1, query) {
            Err(e) => Err(e),
            Ok(true) => find_outcome(
                schema,
                documents,
                query,
                from + 1,
                found.push(external(schema, documents[from].1)),
            ),
            Ok(false) => find_outcome(schema, documents, query, from + 1, found),
        }
    }
}

/// The place of the first document from `from` on that matches.
pub open spec fn first_match(
    documents: Seq<(Seq<char>, Value)>,
    query: Value,
    from: int,
) -> Result<Option<int>, OdmFailure>
    decreases documents.len() - from,
{
    if from < 0 || from >= documents.len() {
        Ok(None)
    } else {
        match query_outcome(documents[from].1, query) {
            Err(e) => Err(e),
            Ok(true) => Ok(Some(from)),
            Ok(false) => first_match(documents, query, from + 1),
        }
    }
}

/// The fields that no update may change, in order.
pub open spec fn immutable_names(schema: SchemaModel) -> Seq<Seq<char>> {
    if schema.primary_key == "_id"@ {
        seq!["_id"@]
    } else if text_lt(schema.primary_key, "_id"@) {
        seq![schema.primary_key, "_id"@]
    } else {
        seq!["_id"@, schema.primary_key]
    }
}

/// A document with the time of its last update set.
pub open spec fn touched(schema: SchemaModel, document: Value, now: Seq<char>) -> Value {
    match (schema.timestamps, document) {
        (Some((_, updated_at)), Value::Object(entries)) => Value::Object(
            with_entry(entries, updated_at, Value::Text(now)),
        ),
        _ => document,
    }
}

/// What an update of one document comes to.
pub enum UpdateModel {
    NotFound,
    Unchanged(Value),
    Changed { id: Seq<char>, document: Value },
}

/// What updating the first document that matches comes to.
pub open spec fn update_step<F: Fn(&Number, &Number) -> Option<Number>>(
    schema: SchemaModel,
    documents: Seq<(Seq<char>, Value)>,
    query: Value,
    operations: Value,
    add_reals: F,
    now: Seq<char>,
) -> Result<UpdateModel, OdmFailure> {
    match first_match(documents, query, 0) {
        Err(e) => Err(e),
        Ok(None) => Ok(UpdateModel::NotFound),
        Ok(Some(at)) => {
            let id = documents[at].0;
            match update_outcome(
                documents[at].1,
                operations,
                immutable_names(schema),
                add_reals,
            ) {
                (_, Err(e)) => Err(e),
                (after, Ok(false)) => Ok(UpdateModel::Unchanged(external(schema, after))),
                (after, Ok(true)) => {
                    let document = touched(schema, after, now);
                    if schema.timestamps is Some && !(after is Object) {
                        Err(invalid_field("$document"@, "document must be a JSON object"@))
                    } else {
                        match document_failure(schema, document) {
                            Some(e) => Err(e),
                            None => match id_outcome(schema, document) {
                                Err(e) => Err(e),
                                Ok(after_id) => if after_id != id {
                                    Err(OdmFailure::ImmutableField(schema.primary_key))
                                } else {
                                    Ok(UpdateModel::Changed { id, document })
                                },
                            },
                        }
                    }
                },
            }
        },
    }
}

/// A collection: its name, its schema and the local view of its documents.
#[derive(Debug)]
pub struct Collection {
    name: String,
    schema: ModelSchema,
    documents: JsonObject,
}

/// The model of a collection.
pub struct CollectionModel {
    pub name: Seq<char>,
    pub schema: SchemaModel,
    pub documents: Seq<(Seq<char>, Value)>,
}

impl View for Collection {
    type V = CollectionModel;

    closed spec fn view(&self) -> CollectionModel {
        CollectionModel {
            name: self.name@,
            schema: self.schema@,
            documents: self.documents@,
        }
    }
}

/// A write that was checked and is to be stored: the local view after it, the
/// documents to store by id, and the documents as the caller gets them.
#[derive(Debug)]
pub struct Staged {
    pub documents: JsonObject,
    pub writes: Vec<(String, Json)>,
    pub results: Vec<Json>,
}

/// What an update of one document comes to.
#[derive(Debug)]
pub enum UpdateStep {
    /// No document matches.
    NotFound,
    /// The document that matches stays as it is.
    Unchanged(Json),
    /// The document that matches changes.
    Changed(Staged),
}

/// Whether a staged write puts one document under its id.
pub open spec fn stages_one(
    collection: CollectionModel,
    staged: Staged,
    id: Seq<char>,
    document: Value,
) -> bool {
    &&& staged.documents@ == with_entry(collection.documents, id, document)
    &&& entries_model(staged.writes@) == seq![(id, document)]
    &&& list_model(staged.results@) == seq![external(collection.schema, document)]
}

/// The model of optional ids.
pub open spec fn optional_ids(candidates: Option<Vec<String>>) -> Option<Seq<Seq<char>>> {
    match candidates {
        Some(ids) => Some(texts(ids@)),
        None => None,
    }
}

/// What staging a batch of prepared documents from `from` on gives, after those before.
pub open spec fn batch_view(
    schema: SchemaModel,
    prepared: Seq<(Seq<char>, Value)>,
    from: int,
    view: Seq<(Seq<char>, Value)>,
) -> Result<Seq<(Seq<char>, Value)>, OdmFailure>
    decreases prepared.len() - from,
{
    if from < 0 || from >= prepared.len() {
        Ok(view)
    } else if lookup(view, prepared[from].0) is Some {
        Err(duplicate(schema, prepared[from].0))
    } else {
        batch_view(
            schema,
            prepared,
            from + 1,
            with_entry(view, prepared[from].0, prepared[from].1),
        )
    }
}

/// The documents of a batch as callers see them.
pub open spec fn externals(schema: SchemaModel, prepared: Seq<(Seq<char>, Value)>) -> Seq<Value> {
    prepared.map_values(|e: (Seq<char>, Value)| external(schema, e.1))
}

impl Collection {
    /// A collection without documents under a schema, which takes its name.
    pub fn new(name: &str, schema: ModelSchema) -> (r: Result<Collection, OdmError>)
        ensures
            ({
                let named = SchemaModel { collection: name@, ..schema@ };
                match definition_failure(named) {
                    Some(e) => r is Err && r->Err_0@ == e,
                    None => r is Ok && r->Ok_0@ == (CollectionModel {
                        name: name@,
                        schema: named,
                        documents: Seq::empty(),
                    }),
                }
            }),
    {
        if text::is_all_blank(name) {
            return Err(OdmError::InvalidSchema(text::owned("collection name cannot be empty")));
        }
        let mut schema: ModelSchema = schema;
        schema.set_collection(name);
        match schema.validate_definition() {
            Ok(()) => {},
            Err(e) => {
                return Err(e);
            },
        }
        Ok(Collection { name: text::owned(name), schema, documents: JsonObject::new() })
    }

    /// A collection without documents that admits every document and generates text keys
    /// `_id` for those that have none.
    pub fn schemaless(name: &str) -> (r: Result<Collection, OdmError>)
        ensures
            text::all_blank(name@) ==> r is Err && r->Err_0@ == OdmFailure::InvalidSchema(
                "collection name cannot be empty"@,
            ),
            !text::all_blank(name@) ==> r is Ok && r->Ok_0@.name == name@ && is_schemaless(
                r->Ok_0@.schema,
                name@,
            ) && r->Ok_0@.documents == Seq::<(Seq<char>, Value)>::empty(),
    {
        let schema: ModelSchema = ModelSchema::schemaless(name);
        proof {
            let fields = schema@.fields;
            assert(fields.drop_last() =~= Seq::empty());
            assert(crate::odm::schema::names_where(
                fields.drop_last(),
                crate::odm::schema::is_primary(),
            ) =~= Seq::empty());
            assert(crate::odm::schema::names_where(fields, crate::odm::schema::is_primary())
                =~= seq!["_id"@]);
        }
        Self::new(name, schema)
    }

    /// The name of the collection.
    pub fn name(&self) -> (r: &str)
        ensures
            r@ == self@.name,
    {
        self.name.as_str()
    }

    /// The schema of the collection.
    pub fn schema(&self) -> (r: &ModelSchema)
        ensures
            r@ == self@.schema,
    {
        &self.schema
    }

    /// The local view of the documents.
    pub fn documents(&self) -> (r: &JsonObject)
        ensures
            r@ == self@.documents,
    {
        &self.documents
    }

    /// A local atomic transaction that starts now.
    pub fn begin_transaction(&self) -> (r: TransactionContext)
        ensures
            is_random_id(r.id@),
            r.consistency == ConsistencyLevel::LocalAtomic,
    {
        TransactionContext::local()
    }

    /// The text under which a document is kept.
    pub fn document_id(&self, document: &Json) -> (r: Result<String, OdmError>)
        ensures
            text_outcome(r) == id_outcome(self@.schema, document@),
    {
        match document.get(self.schema.primary_key()) {
            Some(value) => canonical_value(value),
            None => Err(validation(self.schema.primary_key(), "primary key is missing")),
        }
    }

    /// A document as callers see it.
    pub fn external_document(&self, document: Json) -> (r: Json)
        ensures
            r@ == external(self@.schema, document@),
    {
        match document {
            Json::Object(object) => {
                let mut object: JsonObject = object;
                if !text::same_text(self.schema.primary_key(), "_id") {
                    object.remove("_id");
                }
                Json::Object(object)
            },
            other => other,
        }
    }

    /// Whether a field of an object is absent or null.
    fn unset(object: &JsonObject, key: &str) -> (r: bool)
        ensures
            r == is_unset(object@, key@),
    {
        match object.get(key) {
            Some(value) => value.is_null(),
            None => true,
        }
    }

    /// Makes a document ready to be inserted, given the key to use where it has
    /// none and the present time.
    pub fn prepare_with(&self, document: Json, generated: &str, now: &str) -> (r: Result<
        (String, Json),
        OdmError,
    >)
        ensures
            match prepare_outcome(self@.schema, document@, generated@, now@) {
                Ok((id, kept)) => r is Ok && r->Ok_0.0@ == id && r->Ok_0.1@ == kept,
                Err(e) => r is Err && r->Err_0@ == e,
            },
    {
        let mut object: JsonObject = match document {
            Json::Object(object) => object,
            _ => {
                return Err(validation("$document", "document must be a JSON object"));
            },
        };
        let primary_key: String = text::owned(self.schema.primary_key());
        if Self::unset(&object, primary_key.as_str()) {
            if self.schema.auto_generates_primary_key() {
                object.insert(primary_key.clone(), Json::String(text::owned(generated)));
            } else {
                return Err(validation(primary_key.as_str(), "primary key is required"));
            }
        }
        match self.schema.timestamp_definition() {
            Some(timestamps) => {
                if Self::unset(&object, timestamps.created_at.as_str()) {
                    object.insert(timestamps.created_at.clone(), Json::String(text::owned(now)));
                }
                object.insert(timestamps.updated_at.clone(), Json::String(text::owned(now)));
            },
            None => {},
        }
        let filled: Json = Json::Object(object);
        let id: String = match self.document_id(&filled) {
            Ok(id) => id,
            Err(e) => {
                return Err(e);
            },
        };
        let kept: Json = match filled {
            Json::Object(object) => {
                let mut object: JsonObject = object;
                if !text::same_text(primary_key.as_str(), "_id") {
                    object.insert(text::owned("_id"), Json::String(id.clone()));
                }
                Json::Object(object)
            },
            other => other,
        };
        match self.schema.validate_document(&kept) {
            Ok(()) => Ok((id, kept)),
            Err(e) => Err(e),
        }
    }

    /// Makes a document ready to be inserted: fills in a random primary key where
    /// it has none, and the timestamps.
    pub fn prepare_insert(&self, document: Json) -> (r: Result<(String, Json), OdmError>)
        ensures
            exists|generated: Seq<char>, now: Seq<char>|
                is_random_id(generated) && is_timestamp(now) && match #[trigger] prepare_outcome(
                    self@.schema,
                    document@,
                    generated,
                    now,
                ) {
                    Ok((id, kept)) => r is Ok && r->Ok_0.0@ == id && r->Ok_0.1@ == kept,
                    Err(e) => r is Err && r->Err_0@ == e,
                },
    {
        let generated: String = ids::random_id();
        let now: String = clock::now_timestamp();
        let ghost before = document@;
        let r: Result<(String, Json), OdmError> = self.prepare_with(
            document,
            generated.as_str(),
            now.as_str(),
        );
        assert(is_random_id(generated@) && is_timestamp(now@) && match prepare_outcome(
            self@.schema,
            before,
            generated@,
            now@,
        ) {
            Ok((id, kept)) => r is Ok && r->Ok_0.0@ == id && r->Ok_0.1@ == kept,
            Err(e) => r is Err && r->Err_0@ == e,
        });
        r
    }

    /// Loads the stored documents into the local view, which stays as it was
    /// where one of them is refused.
    pub fn refresh(&mut self, stored: Vec<Json>) -> (r: Result<(), OdmError>)
        ensures
            match load_outcome(old(self)@.schema, list_model(stored@), 0, Seq::empty()) {
                Ok(view) => r is Ok && final(self)@ == (CollectionModel {
                    documents: view,
                    ..old(self)@
                }),
                Err(e) => r is Err && r->Err_0@ == e && final(self)@ == old(self)@,
            },
    {
        let ghost models = list_model(stored@);
        let mut view: JsonObject = JsonObject::new();
        let mut i: usize = 0;
        while i < stored.len()
            invariant
                i <= stored.len(),
                models == list_model(stored@),
                self@ == old(self)@,
                load_outcome(self@.schema, models, 0, Seq::empty()) == load_outcome(
                    self@.schema,
                    models,
                    i as int,
                    view@,
                ),
            decreases stored.len() - i,
        {
            let document: &Json = &stored[i];
            assert(models[i as int] == document@);
            match self.schema.validate_document(document) {
                Ok(()) => {},
                Err(e) => {
                    return Err(e);
                },
            }
            let id: String = match self.document_id(document) {
                Ok(id) => id,
                Err(e) => {
                    return Err(e);
                },
            };
            if view.contains_key(id.as_str()) {
                return Err(
                    OdmError::DuplicateKey {
                        field: text::owned(self.schema.primary_key()),
                        value: id,
                    },
                );
            }
            let kept: Json = match document.clone() {
                Json::Object(object) => {
                    let mut object: JsonObject = object;
                    if !text::same_text(self.schema.primary_key(), "_id") && !object.contains_key(
                        "_id",
                    ) {
                        object.insert(text::owned("_id"), Json::String(id.clone()));
                    }
                    Json::Object(object)
                },
                other => other,
            };
            view.insert(id, kept);
            i += 1;
        }
        self.documents = view;
        Ok(())
    }

    /// Stages the insertion of a prepared document; its id may not be there yet.
    pub fn stage_one(&self, id: String, document: Json) -> (r: Result<Staged, OdmError>)
        ensures
            if lookup(self@.documents, id@) is Some {
                r is Err && r->Err_0@ == duplicate(self@.schema, id@)
            } else {
                r is Ok && stages_one(self@, r->Ok_0, id@, document@)
            },
    {
        if self.documents.contains_key(id.as_str()) {
            return Err(
                OdmError::DuplicateKey { field: text::owned(self.schema.primary_key()), value: id },
            );
        }
        Ok(self.put_one(id, document))
    }

    /// The write that puts one document under its id.
    fn put_one(&self, id: String, document: Json) -> (r: Staged)
        ensures
            stages_one(self@, r, id@, document@),
    {
        let mut documents: JsonObject = self.documents.clone();
        documents.insert(id.clone(), document.clone());
        let result: Json = self.external_document(document.clone());
        let mut writes: Vec<(String, Json)> = Vec::new();
        let mut results: Vec<Json> = Vec::new();
        writes.push((id, document));
        results.push(result);
        assert(entries_model(writes@) =~= seq![(id@, document@)]);
        assert(list_model(results@) =~= seq![external(self@.schema, document@)]);
        Staged { documents, writes, results }
    }

    /// Stages the insertion of one document.
    pub fn insert_one_with_options(&self, document: Json, options: &WriteOptions) -> (r: Result<
        Staged,
        OdmError,
    >)
        ensures
            match options_failure(*options) {
                Some(e) => r is Err && r->Err_0@ == e,
                None => exists|generated: Seq<char>, now: Seq<char>|
                    is_random_id(generated) && is_timestamp(now) && match #[trigger] prepare_outcome(
                        self@.schema,
                        document@,
                        generated,
                        now,
                    ) {
                        Ok((id, kept)) => if lookup(self@.documents, id) is Some {
                            r is Err && r->Err_0@ == duplicate(self@.schema, id)
                        } else {
                            r is Ok && stages_one(self@, r->Ok_0, id, kept)
                        },
                        Err(e) => r is Err && r->Err_0@ == e,
                    },
            },
    {
        match validate_write_options(options) {
            Ok(()) => {},
            Err(e) => {
                return Err(e);
            },
        }
        match self.prepare_insert(document) {
            Ok((id, kept)) => self.stage_one(id, kept),
            Err(e) => Err(e),
        }
    }

    /// Stages the insertion of one document with default options.
    pub fn insert_one(&self, document: Json) -> (r: Result<Staged, OdmError>)
        ensures
            exists|generated: Seq<char>, now: Seq<char>|
                is_random_id(generated) && is_timestamp(now) && match #[trigger] prepare_outcome(
                    self@.schema,
                    document@,
                    generated,
                    now,
                ) {
                    Ok((id, kept)) => if lookup(self@.documents, id) is Some {
                        r is Err && r->Err_0@ == duplicate(self@.schema, id)
                    } else {
                        r is Ok && stages_one(self@, r->Ok_0, id, kept)
                    },
                    Err(e) => r is Err && r->Err_0@ == e,
                },
    {
        self.insert_one_with_options(document, &WriteOptions { transaction: None })
    }

    /// Stages the insertion of a batch of prepared documents as a whole: none of
    /// their ids may be there yet, nor occur twice.
    pub fn stage_batch(&self, prepared: Vec<(String, Json)>) -> (r: Result<Staged, OdmError>)
        ensures
            match batch_view(
                self@.schema,
                entries_model(prepared@),
                0,
                self@.documents,
            ) {
                Ok(view) => r is Ok && r->Ok_0.documents@ == view && entries_model(
                    r->Ok_0.writes@,
                ) == entries_model(prepared@) && list_model(r->Ok_0.results@) == externals(
                    self@.schema,
                    entries_model(prepared@),
                ),
                Err(e) => r is Err && r->Err_0@ == e,
            },
    {
        let ghost models = entries_model(prepared@);
        let mut documents: JsonObject = self.documents.clone();
        let mut results: Vec<Json> = Vec::new();
        let mut i: usize = 0;
        while i < prepared.len()
            invariant
                i <= prepared.len(),
                models == entries_model(prepared@),
                list_model(results@) == externals(self@.schema, models.take(i as int)),
                batch_view(self@.schema, models, 0, self@.documents) == batch_view(
                    self@.schema,
                    models,
                    i as int,
                    documents@,
                ),
            decreases prepared.len() - i,
        {
            assert(models[i as int] == (prepared@[i as int].0@, prepared@[i as int].1@));
            let id: &String = &prepared[i].0;
            if documents.contains_key(id.as_str()) {
                return Err(
                    OdmError::DuplicateKey {
                        field: text::owned(self.schema.primary_key()),
                        value: id.clone(),
                    },
                );
            }
            documents.insert(id.clone(), prepared[i].1.clone());
            let result: Json = self.external_document(prepared[i].1.clone());
            let ghost before = list_model(results@);
            results.push(result);
            assert(list_model(results@) =~= before.push(result@));
            assert(externals(self@.schema, models.take(i + 1)) =~= externals(
                self@.schema,
                models.take(i as int),
            ).push(external(self@.schema, models[i as int].1)));
            i += 1;
        }
        assert(models.take(i as int) =~= models);
        Ok(Staged { documents, writes: prepared, results })
    }

    /// Stages the insertion of a batch of documents: all of them are checked
    /// before any is stored.
    pub fn insert_with_options(&self, documents: Vec<Json>, options: &WriteOptions) -> (r: Result<
        Staged,
        OdmError,
    >)
        ensures
            match options_failure(*options) {
                Some(e) => r is Err && r->Err_0@ == e,
                None => inserts_batch(self@, list_model(documents@), r),
            },
    {
        match validate_write_options(options) {
            Ok(()) => {},
            Err(e) => {
                return Err(e);
            },
        }
        let ghost models = list_model(documents@);
        let mut view: JsonObject = self.documents.clone();
        let mut prepared: Vec<(String, Json)> = Vec::new();
        let mut i: usize = 0;
        assert(entries_model(prepared@) =~= Seq::empty());
        while i < documents.len()
            invariant
                i <= documents.len(),
                models == list_model(documents@),
                prepared.len() == i,
                prepares_all(self@.schema, models.take(i as int), entries_model(prepared@)),
                batch_view(self@.schema, entries_model(prepared@), 0, self@.documents) == Ok::<
                    Seq<(Seq<char>, Value)>,
                    OdmFailure,
                >(view@),
                options_failure(*options) is None,
            decreases documents.len() - i,
        {
            assert(models[i as int] == documents@[i as int]@);
            let ghost before = entries_model(prepared@);
            match self.prepare_insert(documents[i].clone()) {
                Ok((id, kept)) => {
                    let duplicated: bool = view.contains_key(id.as_str());
                    view.insert(id.clone(), kept.clone());
                    assert(prepares(self@.schema, models[i as int], (id@, kept@)));
                    prepared.push((id, kept));
                    let ghost made = entries_model(prepared@);
                    proof {
                        assert(made =~= before.push((id@, kept@)));
                        lemma_batch_push(
                            self@.schema,
                            before,
                            0,
                            self@.documents,
                            (id@, kept@),
                        );
                        assert forall|j: int| 0 <= j < i + 1 implies prepares(
                            self@.schema,
                            #[trigger] models.take(i + 1)[j],
                            made[j],
                        ) by {
                            if j < i {
                                assert(models.take(i + 1)[j] == models.take(i as int)[j]);
                            }
                        }
                        assert(prepares_all(self@.schema, models.take(i + 1), made));
                    }
                    if duplicated {
                        return Err(
                            OdmError::DuplicateKey {
                                field: text::owned(self.schema.primary_key()),
                                value: prepared[i].0.clone(),
                            },
                        );
                    }
                },
                Err(e) => {
                    assert(refuses(self@.schema, models[i as int], e@));
                    return Err(e);
                },
            }
            i += 1;
        }
        let ghost made = entries_model(prepared@);
        assert(models.take(i as int) =~= models);
        self.stage_batch(prepared)
    }

    /// Stages the insertion of a batch of documents with default options.
    pub fn insert(&self, documents: Vec<Json>) -> (r: Result<Staged, OdmError>)
        ensures
            inserts_batch(self@, list_model(documents@), r),
    {
        self.insert_with_options(documents, &WriteOptions { transaction: None })
    }

    /// Makes the local view that of a write that was stored.
    pub fn commit(&mut self, staged: Staged) -> (r: Vec<Json>)
        ensures
            final(self)@ == (CollectionModel { documents: staged.documents@, ..old(self)@ }),
            r == staged.results,
    {
        self.documents = staged.documents;
        staged.results
    }

    /// The documents that a search looks at, by id.
    fn select(&self, candidates: &Option<Vec<String>>) -> (r: Vec<(String, Json)>)
        ensures
            entries_model(r@) == looked_at(self@.documents, optional_ids(*candidates)),
    {
        let mut out: Vec<(String, Json)> = Vec::new();
        match candidates {
            None => {
                let mut i: usize = 0;
                while i < self.documents.len()
                    invariant
                        i <= self@.documents.len(),
                        self.documents@ == self@.documents,
                        entries_model(out@) == self@.documents.take(i as int),
                    decreases self@.documents.len() - i,
                {
                    let ghost before = entries_model(out@);
                    let key: String = self.documents.key_at(i).clone();
                    let value: Json = self.documents.value_at(i).clone();
                    out.push((key, value));
                    assert(entries_model(out@) =~= before.push((key@, value@)));
                    assert(self@.documents.take(i + 1) =~= self@.documents.take(i as int).push(
                        self@.documents[i as int],
                    ));
                    i += 1;
                }
                assert(self@.documents.take(i as int) =~= self@.documents);
            },
            Some(ids) => {
                let mut i: usize = 0;
                assert(entries_model(out@) =~= Seq::empty());
                while i < ids.len()
                    invariant
                        i <= ids.len(),
                        self.documents@ == self@.documents,
                        entries_model(out@) == present(self@.documents, texts(ids@), i as int),
                    decreases ids.len() - i,
                {
                    assert(texts(ids@)[i as int] == ids@[i as int]@);
                    let ghost before = entries_model(out@);
                    match self.documents.get(ids[i].as_str()) {
                        Some(document) => {
                            let value: Json = document.clone();
                            out.push((ids[i].clone(), value));
                            assert(entries_model(out@) =~= before.push((ids@[i as int]@, value@)));
                        },
                        None => {},
                    }
                    i += 1;
                }
            },
        }
        out
    }

    /// The documents that match a query, in order of id. Where an index narrows
    /// the search, only the documents with the given ids are looked at.
    pub fn find(&self, query: &Json, candidates: &Option<Vec<String>>) -> (r: Result<
        Vec<Json>,
        OdmError,
    >)
        ensures
            match find_outcome(
                self@.schema,
                looked_at(self@.documents, optional_ids(*candidates)),
                query@,
                0,
                Seq::empty(),
            ) {
                Ok(found) => r is Ok && list_model(r->Ok_0@) == found,
                Err(e) => r is Err && r->Err_0@ == e,
            },
    {
        let selected: Vec<(String, Json)> = self.select(candidates);
        let ghost models = entries_model(selected@);
        let mut out: Vec<Json> = Vec::new();
        let mut i: usize = 0;
        assert(list_model(out@) =~= Seq::empty());
        while i < selected.len()
            invariant
                i <= selected.len(),
                models == entries_model(selected@),
                models == looked_at(self@.documents, optional_ids(*candidates)),
                find_outcome(self@.schema, models, query@, 0, Seq::empty()) == find_outcome(
                    self@.schema,
                    models,
                    query@,
                    i as int,
                    list_model(out@),
                ),
            decreases selected.len() - i,
        {
            assert(models[i as int].1 == selected@[i as int].1@);
            match query::matches_query(&selected[i].1, query) {
                Err(e) => {
                    return Err(e);
                },
                Ok(true) => {
                    let ghost before = list_model(out@);
                    let result: Json = self.external_document(selected[i].1.clone());
                    out.push(result);
                    assert(list_model(out@) =~= before.push(result@));
                },
                Ok(false) => {},
            }
            i += 1;
        }
        Ok(out)
    }

    /// The first document that matches a query.
    pub fn find_one(&self, query: &Json, candidates: &Option<Vec<String>>) -> (r: Result<
        Option<Json>,
        OdmError,
    >)
        ensures
            match find_outcome(
                self@.schema,
                looked_at(self@.documents, optional_ids(*candidates)),
                query@,
                0,
                Seq::empty(),
            ) {
                Ok(found) => r is Ok && if found.len() > 0 {
                    r->Ok_0 is Some && r->Ok_0->0@ == found[0]
                } else {
                    r->Ok_0 is None
                },
                Err(e) => r is Err && r->Err_0@ == e,
            },
    {
        match self.find(query, candidates) {
            Err(e) => Err(e),
            Ok(found) => if found.len() > 0 {
                assert(list_model(found@)[0] == found@[0]@);
                Ok(Some(found[0].clone()))
            } else {
                Ok(None)
            },
        }
    }

    /// The document with a primary key.
    pub fn find_by_id(&self, id: DocumentId) -> (r: Result<Option<Json>, OdmError>)
        ensures
            match canonical_text(id.0@) {
                Err(e) => r is Err && r->Err_0@ == e,
                Ok(key) => r is Ok && match lookup(self@.documents, key) {
                    Some(document) => r->Ok_0 is Some && r->Ok_0->0@ == external(
                        self@.schema,
                        document,
                    ),
                    None => r->Ok_0 is None,
                },
            },
    {
        let key: String = match canonical_value(&id.0) {
            Ok(key) => key,
            Err(e) => {
                return Err(e);
            },
        };
        match self.documents.get(key.as_str()) {
            Some(document) => Ok(Some(self.external_document(document.clone()))),
            None => Ok(None),
        }
    }

    /// The fields that no update may change.
    fn immutable_fields(&self) -> (r: Vec<String>)
        ensures
            texts(r@) == immutable_names(self@.schema),
    {
        let primary_key: String = text::owned(self.schema.primary_key());
        let own: String = text::owned("_id");
        let mut out: Vec<String> = Vec::new();
        match text::relate(primary_key.as_str(), own.as_str()) {
            text::Relation::Same => {
                out.push(own);
                assert(texts(out@) =~= immutable_names(self@.schema));
            },
            text::Relation::Before => {
                out.push(primary_key);
                out.push(own);
                assert(texts(out@) =~= immutable_names(self@.schema));
            },
            text::Relation::After => {
                out.push(own);
                out.push(primary_key);
                assert(texts(out@) =~= immutable_names(self@.schema));
            },
        }
        out
    }

    /// Updates the first document that matches a query, given the present time.
    pub fn update_at<F: Fn(&Number, &Number) -> Option<Number>>(
        &self,
        query: &Json,
        operations: &Json,
        candidates: &Option<Vec<String>>,
        add_reals: &F,
        now: &str,
    ) -> (r: Result<UpdateStep, OdmError>)
        requires
            is_addition(*add_reals),
        ensures
            updates(
                self@,
                looked_at(self@.documents, optional_ids(*candidates)),
                query@,
                operations@,
                *add_reals,
                now@,
                r,
            ),
    {
        let selected: Vec<(String, Json)> = self.select(candidates);
        let ghost models = entries_model(selected@);
        let mut i: usize = 0;
        let mut matched: bool = false;
        while i < selected.len() && !matched
            invariant
                i <= selected.len(),
                models == entries_model(selected@),
                models == looked_at(self@.documents, optional_ids(*candidates)),
                matched ==> i < selected.len() && first_match(models, query@, 0) == Ok::<
                    Option<int>,
                    OdmFailure,
                >(Some(i as int)),
                !matched ==> first_match(models, query@, 0) == first_match(
                    models,
                    query@,
                    i as int,
                ),
            decreases selected.len() - i, if matched { 0int } else { 1int },
        {
            assert(models[i as int].1 == selected@[i as int].1@);
            match query::matches_query(&selected[i].1, query) {
                Err(e) => {
                    return Err(e);
                },
                Ok(true) => {
                    matched = true;
                },
                Ok(false) => {
                    i += 1;
                },
            }
        }
        if !matched {
            return Ok(UpdateStep::NotFound);
        }
        assert(models[i as int] == (selected@[i as int].0@, selected@[i as int].1@));
        let id: String = selected[i].0.clone();
        let mut document: Json = selected[i].1.clone();
        let immutable: Vec<String> = self.immutable_fields();
        let changed: bool = match update::apply_update(
            &mut document,
            operations,
            &immutable,
            add_reals,
        ) {
            Ok(changed) => changed,
            Err(e) => {
                return Err(e);
            },
        };
        if !changed {
            return Ok(UpdateStep::Unchanged(self.external_document(document)));
        }
        let ghost after = document@;
        let document: Json = match self.schema.timestamp_definition() {
            Some(timestamps) => match document {
                Json::Object(object) => {
                    let mut object: JsonObject = object;
                    object.insert(timestamps.updated_at.clone(), Json::String(text::owned(now)));
                    Json::Object(object)
                },
                _ => {
                    return Err(validation("$document", "document must be a JSON object"));
                },
            },
            None => document,
        };
        assert(document@ == touched(self@.schema, after, now@));
        match self.schema.validate_document(&document) {
            Ok(()) => {},
            Err(e) => {
                return Err(e);
            },
        }
        let after_id: String = match self.document_id(&document) {
            Ok(after_id) => after_id,
            Err(e) => {
                return Err(e);
            },
        };
        if !text::same_text(after_id.as_str(), id.as_str()) {
            return Err(OdmError::ImmutableField(text::owned(self.schema.primary_key())));
        }
        Ok(UpdateStep::Changed(self.put_one(id, document)))
    }

    /// Updates the first document that matches a query and stages the write.
    pub fn update_with_options<F: Fn(&Number, &Number) -> Option<Number>>(
        &self,
        query: &Json,
        operations: &Json,
        candidates: &Option<Vec<String>>,
        options: &WriteOptions,
        add_reals: &F,
    ) -> (r: Result<UpdateStep, OdmError>)
        requires
            is_addition(*add_reals),
        ensures
            match options_failure(*options) {
                Some(e) => r is Err && r->Err_0@ == e,
                None => exists|now: Seq<char>|
                    is_timestamp(now) && #[trigger] updates(
                        self@,
                        looked_at(self@.documents, optional_ids(*candidates)),
                        query@,
                        operations@,
                        *add_reals,
                        now,
                        r,
                    ),
            },
    {
        match validate_write_options(options) {
            Ok(()) => {},
            Err(e) => {
                return Err(e);
            },
        }
        let now: String = clock::now_timestamp();
        self.update_at(query, operations, candidates, add_reals, now.as_str())
    }

    /// Updates the first document that matches a query and stages the write, with
    /// default options.
    pub fn update<F: Fn(&Number, &Number) -> Option<Number>>(
        &self,
        query: &Json,
        operations: &Json,
        candidates: &Option<Vec<String>>,
        add_reals: &F,
    ) -> (r: Result<UpdateStep, OdmError>)
        requires
            is_addition(*add_reals),
        ensures
            exists|now: Seq<char>|
                is_timestamp(now) && #[trigger] updates(
                    self@,
                    looked_at(self@.documents, optional_ids(*candidates)),
                    query@,
                    operations@,
                    *add_reals,
                    now,
                    r,
                ),
    {
        self.update_with_options(
            query,
            operations,
            candidates,
            &WriteOptions { transaction: None },
            add_reals,
        )
    }
}

/// Whether an update gives what it should.
pub open spec fn updates<F: Fn(&Number, &Number) -> Option<Number>>(
    collection: CollectionModel,
    documents: Seq<(Seq<char>, Value)>,
    query: Value,
    operations: Value,
    add_reals: F,
    now: Seq<char>,
    r: Result<UpdateStep, OdmError>,
) -> bool {
    match update_step(collection.schema, documents, query, operations, add_reals, now) {
        Err(e) => r is Err && r->Err_0@ == e,
        Ok(UpdateModel::NotFound) => r is Ok && r->Ok_0 is NotFound,
        Ok(UpdateModel::Unchanged(document)) => r is Ok && r->Ok_0 is Unchanged
            && r->Ok_0->Unchanged_0@ == document,
        Ok(UpdateModel::Changed { id, document }) => r is Ok && r->Ok_0 is Changed && stages_one(
            collection,
            r->Ok_0->Changed_0,
            id,
            document,
        ),
    }
}

/// Whether a document can be prepared to the given id and document.
pub open spec fn prepares(schema: SchemaModel, document: Value, kept: (Seq<char>, Value)) -> bool {
    exists|generated: Seq<char>, now: Seq<char>|
        is_random_id(generated) && is_timestamp(now) && #[trigger] prepare_outcome(
            schema,
            document,
            generated,
            now,
        ) == Ok::<(Seq<char>, Value), OdmFailure>(kept)
}

/// Whether a document can be refused with the given error.
pub open spec fn refuses(schema: SchemaModel, document: Value, e: OdmFailure) -> bool {
    exists|generated: Seq<char>, now: Seq<char>|
        is_random_id(generated) && is_timestamp(now) && #[trigger] prepare_outcome(
            schema,
            document,
            generated,
            now,
        ) == Err::<(Seq<char>, Value), OdmFailure>(e)
}

/// Whether each document can be prepared to the id and document at its place.
pub open spec fn prepares_all(
    schema: SchemaModel,
    documents: Seq<Value>,
    kept: Seq<(Seq<char>, Value)>,
) -> bool {
    &&& kept.len() == documents.len()
    &&& forall|i: int|
        0 <= i < documents.len() ==> prepares(schema, #[trigger] documents[i], kept[i])
}

/// Adding one document to a batch adds it to the view that the batch gives.
proof fn lemma_batch_push(
    schema: SchemaModel,
    prepared: Seq<(Seq<char>, Value)>,
    from: int,
    view: Seq<(Seq<char>, Value)>,
    next: (Seq<char>, Value),
)
    requires
        0 <= from <= prepared.len(),
        batch_view(schema, prepared, from, view) is Ok,
    ensures
        batch_view(schema, prepared.push(next), from, view) == ({
            let after = batch_view(schema, prepared, from, view)->Ok_0;
            if lookup(after, next.0) is Some {
                Err::<Seq<(Seq<char>, Value)>, OdmFailure>(duplicate(schema, next.0))
            } else {
                Ok(with_entry(after, next.0, next.1))
            }
        }),
    decreases prepared.len() - from,
{
    let more = prepared.push(next);
    if from < prepared.len() {
        assert(more[from] == prepared[from]);
        lemma_batch_push(
            schema,
            prepared,
            from + 1,
            with_entry(view, prepared[from].0, prepared[from].1),
            next,
        );
    } else {
        assert(more[from] == next);
        reveal_with_fuel(batch_view, 2);
    }
}

/// Whether inserting a batch gives what it should: documents are prepared and
/// checked against the view one after another, up to the first that is refused
/// or has an id that is already there.
pub open spec fn inserts_batch(
    collection: CollectionModel,
    documents: Seq<Value>,
    r: Result<Staged, OdmError>,
) -> bool {
    exists|kept: Seq<(Seq<char>, Value)>|
        kept.len() <= documents.len() && #[trigger] prepares_all(
            collection.schema,
            documents.take(kept.len() as int),
            kept,
        ) && match batch_view(collection.schema, kept, 0, collection.documents) {
            Err(e) => r is Err && r->Err_0@ == e,
            Ok(view) => if kept.len() < documents.len() {
                r is Err && refuses(collection.schema, documents[kept.len() as int], r->Err_0@)
            } else {
                r is Ok && r->Ok_0.documents@ == view && entries_model(r->Ok_0.writes@) == kept
                    && list_model(r->Ok_0.results@) == externals(collection.schema, kept)
            },
        }
}

} // verus!
