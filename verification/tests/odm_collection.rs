use guardian_db::json::{Json, JsonObject};
use guardian_db::number::Number;
use guardian_db::odm::collection::{canonical_value, Collection, DocumentId, Staged, UpdateStep};
use guardian_db::odm::error::OdmError;
use guardian_db::odm::schema::{FieldDefinition, FieldType, ModelSchema};
use guardian_db::odm::transaction::{ConsistencyLevel, TransactionContext, WriteOptions};

fn number(n: &serde_json::Number) -> Number {
    match (n.as_u64(), n.as_i64(), n.as_f64()) {
        (Some(u), _, _) => Number::Unsigned(u),
        (None, Some(i), _) => Number::Signed(i),
        (None, None, Some(f)) => Number::Real {
            bits: f.to_bits(),
            text: n.to_string(),
        },
        (None, None, None) => panic!("no number: {}", n),
    }
}

fn library(value: &serde_json::Value) -> Json {
    match value {
        serde_json::Value::Null => Json::Null,
        serde_json::Value::Bool(b) => Json::Bool(*b),
        serde_json::Value::Number(n) => Json::Number(number(n)),
        serde_json::Value::String(s) => Json::String(s.clone()),
        serde_json::Value::Array(items) => Json::Array(items.iter().map(library).collect()),
        serde_json::Value::Object(map) => {
            let mut object = JsonObject::new();
            for (key, item) in map {
                object.insert(key.clone(), library(item));
            }
            Json::Object(object)
        }
    }
}

fn json(text: &str) -> Json {
    library(&serde_json::from_str(text).unwrap())
}

fn no_sum(_: &Number, _: &Number) -> Option<Number> {
    None
}

fn users() -> ModelSchema {
    ModelSchema::new("User", "users")
        .field(FieldDefinition::new("email", FieldType::String).primary_key())
        .field(FieldDefinition::new("age", FieldType::Number).required())
        .field(FieldDefinition::new("tags", FieldType::Array).indexed())
        .strict(true)
}

fn words<T>(r: Result<T, OdmError>) -> String {
    match r {
        Ok(_) => panic!("taken"),
        Err(e) => e.render(),
    }
}

fn put(collection: &mut Collection, document: &str) -> Json {
    let staged: Staged = collection.insert_one(json(document)).unwrap();
    let mut results = collection.commit(staged);
    assert_eq!(results.len(), 1);
    results.remove(0)
}

#[test]
fn a_schema_tells_its_fields() {
    let schema = users();
    assert_eq!(schema.model_name(), "User");
    assert_eq!(schema.collection(), "users");
    assert_eq!(schema.primary_key(), "email");
    assert!(schema.strict_mode());
    assert_eq!(schema.fields().len(), 3);
    assert_eq!(schema.unique_fields(), vec!["email".to_string()]);
    assert_eq!(
        schema.indexed_fields(),
        vec!["email".to_string(), "tags".to_string()]
    );
    assert!(schema.validate_definition().is_ok());
}

#[test]
fn an_unsound_schema_is_refused() {
    assert_eq!(
        words(ModelSchema::new("M", " ").validate_definition()),
        "invalid schema: collection name cannot be empty"
    );
    let two = ModelSchema::new("M", "c")
        .field(FieldDefinition::new("a", FieldType::Any).primary_key())
        .field(FieldDefinition::new("b", FieldType::Any).primary_key());
    assert_eq!(
        words(two.validate_definition()),
        "invalid schema: only one primary key is supported"
    );
    let missing = ModelSchema::new("M", "c").strict(true);
    assert_eq!(
        words(missing.validate_definition()),
        "invalid schema: primary key `_id` is not declared as a field"
    );
}

#[test]
fn a_document_is_held_to_its_schema() {
    let schema = users();
    assert!(schema
        .validate_document(&json(r#"{ "email": "a", "age": 3, "_id": "a" }"#))
        .is_ok());
    assert_eq!(
        words(schema.validate_document(&json("1"))),
        "validation failed for field `$document`: document must be a JSON object"
    );
    assert_eq!(
        words(schema.validate_document(&json(r#"{ "email": "a" }"#))),
        "validation failed for field `age`: required field is missing"
    );
    assert_eq!(
        words(schema.validate_document(&json(r#"{ "email": "a", "age": null }"#))),
        "validation failed for field `age`: required field cannot be null"
    );
    assert_eq!(
        words(schema.validate_document(&json(r#"{ "email": "a", "age": "x" }"#))),
        "validation failed for field `age`: expected Number"
    );
    assert_eq!(
        words(schema.validate_document(&json(r#"{ "email": "a", "age": 1, "z": 1 }"#))),
        "validation failed for field `z`: field is not declared in the strict schema"
    );
}

#[test]
fn what_is_inserted_is_found() {
    let mut collection = Collection::new("users", users()).unwrap();
    let shown = put(&mut collection, r#"{ "email": "b@x", "age": 30 }"#);
    assert!(shown.same(&json(r#"{ "email": "b@x", "age": 30 }"#)));
    put(&mut collection, r#"{ "email": "a@x", "age": 20 }"#);

    let found = collection.find_by_id(DocumentId::text("b@x")).unwrap().unwrap();
    assert!(found.same(&json(r#"{ "email": "b@x", "age": 30 }"#)));
    assert!(collection.find_by_id(DocumentId::text("c@x")).unwrap().is_none());

    let all = collection.find(&json("{}"), &None).unwrap();
    assert_eq!(all.len(), 2);
    assert!(all[0].get("email").unwrap().same(&json("\"a@x\"")));
    let old = collection.find_one(&json(r#"{ "age": { "$gt": 25 } }"#), &None).unwrap();
    assert!(old.unwrap().get("email").unwrap().same(&json("\"b@x\"")));
}

#[test]
fn a_primary_key_is_taken_once() {
    let mut collection = Collection::new("users", users()).unwrap();
    put(&mut collection, r#"{ "email": "a", "age": 1 }"#);
    assert_eq!(
        words(collection.insert_one(json(r#"{ "email": "a", "age": 2 }"#))),
        "duplicate value for unique field `email`: a"
    );
    let batch = vec![
        json(r#"{ "email": "b", "age": 1 }"#),
        json(r#"{ "email": "b", "age": 2 }"#),
    ];
    assert!(matches!(
        collection.insert(batch),
        Err(OdmError::DuplicateKey { .. })
    ));
    assert_eq!(collection.documents().len(), 1);
}

#[test]
fn a_batch_is_taken_as_a_whole() {
    let mut collection = Collection::schemaless("things").unwrap();
    let staged = collection
        .insert(vec![json(r#"{ "_id": "2" }"#), json(r#"{ "_id": "1" }"#)])
        .unwrap();
    assert_eq!(staged.writes.len(), 2);
    assert_eq!(staged.writes[0].0, "2");
    let results = collection.commit(staged);
    assert!(results[0].same(&json(r#"{ "_id": "2" }"#)));
    assert_eq!(collection.documents().len(), 2);
    assert!(collection.insert(vec![]).unwrap().writes.is_empty());
}

#[test]
fn a_missing_key_is_generated_or_refused() {
    let mut collection = Collection::schemaless("things").unwrap();
    let shown = put(&mut collection, r#"{ "x": 1 }"#);
    match shown.get("_id").unwrap() {
        Json::String(id) => {
            assert_eq!(id.len(), 36);
            assert_eq!(id.as_bytes()[14], b'4');
        }
        other => panic!("no text: {:?}", other),
    }
    let strict = Collection::new(
        "users",
        ModelSchema::new("U", "users")
            .field(FieldDefinition::new("k", FieldType::Any).primary_key())
            .auto_generate_primary_key(false),
    )
    .unwrap();
    assert_eq!(
        words(strict.insert_one(json("{}"))),
        "validation failed for field `k`: primary key is required"
    );
}

#[test]
fn timestamps_are_filled_in() {
    let schema = ModelSchema::schemaless("things").timestamps("created", "updated");
    let collection = Collection::new("things", schema).unwrap();
    let (id, document) = collection
        .prepare_with(json(r#"{ "created": "before" }"#), "generated", "now")
        .unwrap();
    assert_eq!(id, "generated");
    assert!(document.same(&json(
        r#"{ "_id": "generated", "created": "before", "updated": "now" }"#
    )));
    let (_, timed) = collection.prepare_insert(json("{}")).unwrap();
    match timed.get("updated").unwrap() {
        Json::String(text) => {
            let shape: String = text
                .chars()
                .map(|c| if c.is_ascii_digit() { '0' } else { c })
                .collect();
            assert_eq!(shape, "0000-00-00T00:00:00.000Z");
        }
        other => panic!("no text: {:?}", other),
    }
}

#[test]
fn an_update_is_staged_validated_and_committed() {
    let mut collection = Collection::new("users", users()).unwrap();
    put(&mut collection, r#"{ "email": "a", "age": 1 }"#);
    let step = collection
        .update_at(
            &json(r#"{ "email": "a" }"#),
            &json(r#"{ "$inc": { "age": 4 } }"#),
            &None,
            &no_sum,
            "now",
        )
        .unwrap();
    match step {
        UpdateStep::Changed(staged) => {
            let results = collection.commit(staged);
            assert!(results[0].same(&json(r#"{ "email": "a", "age": 5 }"#)));
        }
        _ => panic!("not changed"),
    }
    let again = collection
        .update(
            &json(r#"{ "email": "a" }"#),
            &json(r#"{ "$set": { "age": 5 } }"#),
            &None,
            &no_sum,
        )
        .unwrap();
    assert!(matches!(again, UpdateStep::Unchanged(_)));
    let none = collection
        .update_at(
            &json(r#"{ "email": "z" }"#),
            &json(r#"{ "$set": { "age": 4 } }"#),
            &None,
            &no_sum,
            "now",
        )
        .unwrap();
    assert!(matches!(none, UpdateStep::NotFound));
    let same = collection
        .update_at(
            &json("{}"),
            &json(r#"{ "$set": { "age": 5 } }"#),
            &None,
            &no_sum,
            "now",
        )
        .unwrap();
    assert!(matches!(same, UpdateStep::Unchanged(_)));
    assert_eq!(
        words(collection.update_at(
            &json("{}"),
            &json(r#"{ "$set": { "email": "b" } }"#),
            &None,
            &no_sum,
            "now",
        )),
        "immutable field `email` cannot be updated"
    );
    assert_eq!(
        words(collection.update_at(
            &json("{}"),
            &json(r#"{ "$set": { "age": "old" } }"#),
            &None,
            &no_sum,
            "now",
        )),
        "validation failed for field `age`: expected Number"
    );
}

#[test]
fn a_replicated_write_is_refused() {
    let collection = Collection::schemaless("things").unwrap();
    let options = WriteOptions {
        transaction: Some(TransactionContext::with_consistency(
            ConsistencyLevel::Replicated,
        )),
    };
    assert!(matches!(
        collection.insert_one_with_options(json("{}"), &options),
        Err(OdmError::UnsupportedConsistency(_))
    ));
    assert!(matches!(
        collection.update_with_options(&json("{}"), &json("{}"), &None, &options, &no_sum),
        Err(OdmError::UnsupportedConsistency(_))
    ));
    let local = WriteOptions {
        transaction: Some(collection.begin_transaction()),
    };
    assert!(collection
        .insert_one_with_options(json("{}"), &local)
        .is_ok());
    assert!(WriteOptions::default().transaction.is_none());
    assert!(TransactionContext::local().started_at > 1_600_000_000_000);
}

#[test]
fn stored_documents_are_loaded_by_key() {
    let mut collection = Collection::new("users", users()).unwrap();
    collection
        .refresh(vec![
            json(r#"{ "email": "b", "age": 1 }"#),
            json(r#"{ "email": "a", "age": 2 }"#),
        ])
        .unwrap();
    assert_eq!(collection.documents().key_at(0), "a");
    assert!(matches!(
        collection.refresh(vec![
            json(r#"{ "email": "b", "age": 1 }"#),
            json(r#"{ "email": "b", "age": 2 }"#),
        ]),
        Err(OdmError::DuplicateKey { .. })
    ));
    assert_eq!(collection.documents().len(), 2);
}

#[test]
fn scalars_are_keys() {
    assert_eq!(canonical_value(&json("\"s\"")).unwrap(), "s");
    assert_eq!(canonical_value(&json("-7")).unwrap(), "-7");
    assert_eq!(canonical_value(&json("1.5")).unwrap(), "1.5");
    assert_eq!(canonical_value(&json("true")).unwrap(), "true");
    assert_eq!(
        words(canonical_value(&json("[]"))),
        "validation failed for field `$id`: primary keys must be strings, numbers, or booleans"
    );
    assert_eq!(
        canonical_value(&DocumentId::from(12u32).into_value()).unwrap(),
        "12"
    );
    assert_eq!(
        canonical_value(&DocumentId::from("k".to_string()).into_value()).unwrap(),
        "k"
    );
    assert_eq!(
        canonical_value(&DocumentId::from(-3i64).into_value()).unwrap(),
        "-3"
    );
    assert_eq!(
        canonical_value(&DocumentId::from(false).into_value()).unwrap(),
        "false"
    );
}

#[test]
fn a_collection_needs_a_name() {
    assert_eq!(
        words(Collection::schemaless("  ")),
        "invalid schema: collection name cannot be empty"
    );
    let collection = Collection::new("other", users()).unwrap();
    assert_eq!(collection.name(), "other");
    assert_eq!(collection.schema().collection(), "other");
}

#[test]
fn a_schemaless_collection_takes_any_document() {
    let mut collection = Collection::schemaless("things").unwrap();
    let schema = collection.schema();
    assert_eq!(schema.model_name(), "Document");
    assert_eq!(schema.collection(), "things");
    assert_eq!(schema.version(), 1);
    assert!(!schema.strict_mode());
    assert_eq!(schema.fields().len(), 1);
    let id = schema.fields().get("_id").unwrap();
    assert_eq!(
        *id,
        FieldDefinition::new("_id", FieldType::String).primary_key()
    );
    assert_eq!(*schema, ModelSchema::schemaless("things"));
    let kept = put(&mut collection, r#"{ "anything": [1, { "x": null }] }"#);
    assert!(matches!(kept.get("_id"), Some(Json::String(_))));
}

#[test]
fn the_last_field_with_the_mark_is_the_primary_key() {
    let text = |name: &str| FieldDefinition::new(name, FieldType::String);
    let mut schema = ModelSchema::new("Model", "models").strict(false);
    assert_eq!(schema.primary_key(), "_id");
    schema.add_field(text("first").primary_key());
    let mut schema = schema.field(text("second").primary_key()).timestamps("c", "u");
    schema.add_field(text("other"));
    schema.set_version(4);
    assert_eq!(schema.primary_key(), "second");
    schema.add_field(text("second"));
    assert_eq!(schema.primary_key(), "second");
    let copy = schema.clone();
    assert_eq!(copy, schema);
    schema.set_version(5);
    assert_ne!(copy, schema);
    assert_eq!(copy.timestamp_definition().cloned(), schema.timestamp_definition().cloned());
}

#[test]
fn keys_are_compared_as_values() {
    assert!(DocumentId::from(1i64) == DocumentId(Json::Number(Number::Unsigned(1))));
    assert!(DocumentId::from(1i64) != DocumentId::text("1"));
    assert!(DocumentId::text("a").clone() == DocumentId::from("a".to_string()));
}

#[test]
fn options_are_copied_whole() {
    let context = TransactionContext::with_consistency(ConsistencyLevel::Replicated);
    assert_eq!(context.clone(), context);
    assert_ne!(context, TransactionContext::local());
    let options = WriteOptions { transaction: Some(context) };
    assert_eq!(options.clone().transaction, options.transaction);
}
