use guardian_db::json::{Json, JsonObject};
use guardian_db::number::Number;
use guardian_db::odm::error::OdmError;
use guardian_db::odm::query::{matches_query, value_at_path};

fn number(n: &serde_json::Number) -> Number {
    match (n.as_u64(), n.as_i64(), n.as_f64()) {
        (Some(u), _, _) => Number::Unsigned(u),
        (None, Some(i), _) => Number::Signed(i),
        (None, None, Some(f)) => Number::Real {
            bits: f.to_bits(),
            text: n.to_string(),
        },
        (None, None, None) => panic!("no number: {}", n),
    }
}

fn library(value: &serde_json::Value) -> Json {
    match value {
        serde_json::Value::Null => Json::Null,
        serde_json::Value::Bool(b) => Json::Bool(*b),
        serde_json::Value::Number(n) => Json::Number(number(n)),
        serde_json::Value::String(s) => Json::String(s.clone()),
        serde_json::Value::Array(items) => Json::Array(items.iter().map(library).collect()),
        serde_json::Value::Object(map) => {
            let mut object = JsonObject::new();
            for (key, item) in map {
                object.insert(key.clone(), library(item));
            }
            Json::Object(object)
        }
    }
}

fn json(text: &str) -> Json {
    library(&serde_json::from_str(text).unwrap())
}

fn matched(document: &str, query: &str) -> bool {
    matches_query(&json(document), &json(query)).unwrap()
}

fn refusal(document: &str, query: &str) -> String {
    match matches_query(&json(document), &json(query)) {
        Ok(_) => panic!("the query was taken"),
        Err(e) => e.render(),
    }
}

#[test]
fn a_dotted_path_leads_into_objects() {
    let doc = json(r#"{ "a": { "b": { "c": 3 } }, "l": [ { "x": 1 } ] }"#);
    assert!(value_at_path(&doc, "a.b.c").unwrap().same(&json("3")));
    assert!(value_at_path(&doc, "a.b.d").is_none());
    assert!(value_at_path(&doc, "l.x").is_none());
}

#[test]
fn equality_looks_into_arrays() {
    assert!(matched(r#"{ "tags": ["a", "b"] }"#, r#"{ "tags": "b" }"#));
    assert!(matched(r#"{ "tags": ["a", "b"] }"#, r#"{ "tags": ["a", "b"] }"#));
    assert!(!matched(r#"{ "tags": ["a", "b"] }"#, r#"{ "tags": "c" }"#));
    assert!(!matched("{}", r#"{ "tags": null }"#));
}

#[test]
fn an_integer_is_not_the_real_of_the_same_value() {
    assert!(!matched(r#"{ "n": 1 }"#, r#"{ "n": 1.0 }"#));
    assert!(matched(r#"{ "n": 1 }"#, r#"{ "n": { "$gte": 1.0, "$lte": 1.0 } }"#));
}

#[test]
fn comparisons_order_numbers_and_texts() {
    let doc = r#"{ "n": 5, "r": 2.5, "s": "m" }"#;
    assert!(matched(doc, r#"{ "n": { "$gt": 4, "$lt": 5.5 } }"#));
    assert!(!matched(doc, r#"{ "n": { "$gt": 5 } }"#));
    assert!(matched(doc, r#"{ "n": { "$gte": 5, "$lte": 5 } }"#));
    assert!(matched(doc, r#"{ "r": { "$gt": 2, "$lt": 3 } }"#));
    assert!(matched(doc, r#"{ "s": { "$gt": "a", "$lt": "z" } }"#));
    assert!(!matched(doc, r#"{ "s": { "$gt": 1 } }"#));
    assert!(!matched(doc, r#"{ "missing": { "$lt": 1 } }"#));
    assert!(matched(r#"{ "n": -1 }"#, r#"{ "n": { "$lt": 0 } }"#));
    assert!(matched(r#"{ "n": -0.0 }"#, r#"{ "n": { "$gte": 0 } }"#));
}

#[test]
fn large_integers_are_ordered_as_reals() {
    let doc = r#"{ "n": 9007199254740993 }"#;
    assert!(!matched(doc, r#"{ "n": { "$gt": 9007199254740992 } }"#));
    assert!(matched(doc, r#"{ "n": { "$gte": 9007199254740992 } }"#));
}

#[test]
fn membership_existence_and_size() {
    let doc = r#"{ "k": "a", "l": [1, 2, 3] }"#;
    assert!(matched(doc, r#"{ "k": { "$in": ["b", "a"] } }"#));
    assert!(!matched(doc, r#"{ "k": { "$nin": ["b", "a"] } }"#));
    assert!(matched(doc, r#"{ "m": { "$nin": ["b"] } }"#));
    assert!(matched(doc, r#"{ "m": { "$ne": 1 } }"#));
    assert!(matched(doc, r#"{ "m": { "$exists": false }, "k": { "$exists": true } }"#));
    assert!(matched(doc, r#"{ "l": { "$size": 3 } }"#));
    assert!(!matched(doc, r#"{ "k": { "$size": 1 } }"#));
}

#[test]
fn logical_operators_combine_queries() {
    let doc = r#"{ "a": 1, "b": 2 }"#;
    assert!(matched(doc, r#"{ "$and": [ { "a": 1 }, { "b": 2 } ] }"#));
    assert!(!matched(doc, r#"{ "$and": [ { "a": 1 }, { "b": 3 } ] }"#));
    assert!(matched(doc, r#"{ "$or": [ { "a": 9 }, { "b": 2 } ] }"#));
    assert!(!matched(doc, r#"{ "$or": [] }"#));
    assert!(matched(doc, r#"{ "$and": [] }"#));
    assert!(matched(doc, r#"{ "$nor": [ { "a": 9 }, { "b": 9 } ] }"#));
    assert!(!matched(doc, r#"{ "$nor": [ { "a": 1 } ] }"#));
}

#[test]
fn malformed_queries_are_refused_in_words() {
    assert_eq!(refusal("{}", "1"), "invalid query: query must be a JSON object");
    assert_eq!(refusal("{}", r#"{ "$and": 1 }"#), "invalid query: $and expects an array");
    assert_eq!(refusal("{}", r#"{ "$or": 1 }"#), "invalid query: $or expects an array");
    assert_eq!(refusal("{}", r#"{ "$nor": 1 }"#), "invalid query: $nor expects an array");
    assert_eq!(
        refusal("{}", r#"{ "$xor": [] }"#),
        "invalid query: unsupported logical operator `$xor`"
    );
    assert_eq!(
        refusal("{}", r#"{ "a": { "$in": 1 } }"#),
        "invalid query: $in expects an array"
    );
    assert_eq!(
        refusal("{}", r#"{ "a": { "$nin": 1 } }"#),
        "invalid query: $nin expects an array"
    );
    assert_eq!(
        refusal("{}", r#"{ "a": { "$exists": 1 } }"#),
        "invalid query: $exists expects a boolean"
    );
    assert_eq!(
        refusal("{}", r#"{ "a": { "$size": -1 } }"#),
        "invalid query: $size expects a non-negative integer"
    );
    assert_eq!(
        refusal("{}", r#"{ "a": { "$near": 1 } }"#),
        "invalid query: unsupported field operator `$near`"
    );
    assert!(matches!(
        matches_query(&json("{}"), &json("[]")),
        Err(OdmError::InvalidQuery(_))
    ));
}

#[test]
fn logical_operators_join_their_clauses() {
    let doc = r#"{ "a": 1, "b": 2 }"#;
    for (first, second) in [(1, 2), (1, 3), (0, 2), (0, 3)] {
        let clauses = format!(r#"[{{ "a": {} }}, {{ "b": {} }}]"#, first, second);
        let both = first == 1 && second == 2;
        let some = first == 1 || second == 2;
        assert_eq!(matched(doc, &format!(r#"{{ "$and": {} }}"#, clauses)), both);
        assert_eq!(matched(doc, &format!(r#"{{ "$or": {} }}"#, clauses)), some);
        assert_eq!(matched(doc, &format!(r#"{{ "$nor": {} }}"#, clauses)), !some);
        let joined = format!(r#"{{ "a": {}, "b": {} }}"#, first, second);
        assert_eq!(matched(doc, &joined), both);
    }
    assert!(matched(doc, r#"{ "$and": [] }"#));
    assert!(!matched(doc, r#"{ "$or": [] }"#));
    assert!(matched(doc, r#"{ "$nor": [] }"#));
    assert!(matched(doc, "{}"));
}
