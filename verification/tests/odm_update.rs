use guardian_db::json::{Json, JsonObject};
use guardian_db::number::Number;
use guardian_db::odm::error::OdmError;
use guardian_db::odm::query::value_at_path;
use guardian_db::odm::update::{apply_update, set_path, unset_path};

fn number(n: &serde_json::Number) -> Number {
    match (n.as_u64(), n.as_i64(), n.as_f64()) {
        (Some(u), _, _) => Number::Unsigned(u),
        (None, Some(i), _) => Number::Signed(i),
        (None, None, Some(f)) => Number::Real {
            bits: f.to_bits(),
            text: n.to_string(),
        },
        (None, None, None) => panic!("no number: {}", n),
    }
}

fn library(value: &serde_json::Value) -> Json {
    match value {
        serde_json::Value::Null => Json::Null,
        serde_json::Value::Bool(b) => Json::Bool(*b),
        serde_json::Value::Number(n) => Json::Number(number(n)),
        serde_json::Value::String(s) => Json::String(s.clone()),
        serde_json::Value::Array(items) => Json::Array(items.iter().map(library).collect()),
        serde_json::Value::Object(map) => {
            let mut object = JsonObject::new();
            for (key, item) in map {
                object.insert(key.clone(), library(item));
            }
            Json::Object(object)
        }
    }
}

fn json(text: &str) -> Json {
    library(&serde_json::from_str(text).unwrap())
}

fn as_float(n: &Number) -> f64 {
    match n {
        Number::Unsigned(u) => *u as f64,
        Number::Signed(i) => *i as f64,
        Number::Real { bits, .. } => f64::from_bits(*bits),
    }
}

fn add_reals(a: &Number, b: &Number) -> Option<Number> {
    serde_json::Number::from_f64(as_float(a) + as_float(b)).map(|n| number(&n))
}

fn no_immutable() -> Vec<String> {
    Vec::new()
}

fn update(doc: &mut Json, operations: &str, immutable: &Vec<String>) -> Result<bool, OdmError> {
    apply_update(doc, &json(operations), immutable, &add_reals)
}

fn at<'a>(doc: &'a Json, path: &str) -> &'a Json {
    value_at_path(doc, path).unwrap()
}

fn is_i64(value: &Json) -> bool {
    match value {
        Json::Number(n) => n.as_i64().is_some(),
        _ => false,
    }
}

#[test]
fn inc_preserves_integer_type() {
    let mut doc = json(r#"{ "counter": 1024 }"#);
    let changed = update(&mut doc, r#"{ "$inc": { "counter": 1 } }"#, &no_immutable()).unwrap();
    assert!(changed);
    assert!(at(&doc, "counter").same(&json("1025")));
    assert!(
        is_i64(at(&doc, "counter")),
        "expected integer, got {:?}",
        at(&doc, "counter")
    );
}

#[test]
fn inc_on_missing_field_starts_at_zero_integer() {
    let mut doc = json("{}");
    update(&mut doc, r#"{ "$inc": { "n": 5 } }"#, &no_immutable()).unwrap();
    assert!(at(&doc, "n").same(&json("5")));
    assert!(is_i64(at(&doc, "n")));
}

#[test]
fn inc_with_negative_integer() {
    let mut doc = json(r#"{ "n": 10 }"#);
    update(&mut doc, r#"{ "$inc": { "n": -3 } }"#, &no_immutable()).unwrap();
    assert!(at(&doc, "n").same(&json("7")));
    assert!(is_i64(at(&doc, "n")));
}

#[test]
fn inc_with_float_operand_yields_float() {
    let mut doc = json(r#"{ "n": 1 }"#);
    update(&mut doc, r#"{ "$inc": { "n": 0.5 } }"#, &no_immutable()).unwrap();
    assert!(at(&doc, "n").same(&json("1.5")));
}

#[test]
fn inc_on_float_target_yields_float() {
    let mut doc = json(r#"{ "n": 2.5 }"#);
    update(&mut doc, r#"{ "$inc": { "n": 1 } }"#, &no_immutable()).unwrap();
    assert!(at(&doc, "n").same(&json("3.5")));
}

#[test]
fn inc_non_numeric_target_errors() {
    let mut doc = json(r#"{ "n": "abc" }"#);
    let err = update(&mut doc, r#"{ "$inc": { "n": 1 } }"#, &no_immutable());
    assert!(matches!(err, Err(OdmError::InvalidUpdate(_))));
}

#[test]
fn inc_non_numeric_operand_errors() {
    let mut doc = json(r#"{ "n": 1 }"#);
    let err = update(&mut doc, r#"{ "$inc": { "n": "x" } }"#, &no_immutable());
    assert!(matches!(err, Err(OdmError::InvalidUpdate(_))));
}

#[test]
fn set_nested_path_creates_intermediate_objects() {
    let mut doc = json("{}");
    update(&mut doc, r#"{ "$set": { "a.b.c": 7 } }"#, &no_immutable()).unwrap();
    let a = doc.get("a").unwrap();
    let b = a.get("b").unwrap();
    assert!(b.get("c").unwrap().same(&json("7")));
}

#[test]
fn set_same_value_reports_no_change() {
    let mut doc = json(r#"{ "x": 1 }"#);
    let changed = update(&mut doc, r#"{ "$set": { "x": 1 } }"#, &no_immutable()).unwrap();
    assert!(!changed);
}

#[test]
fn unset_removes_field() {
    let mut doc = json(r#"{ "x": 1, "y": 2 }"#);
    let changed = update(&mut doc, r#"{ "$unset": { "x": "" } }"#, &no_immutable()).unwrap();
    assert!(changed);
    assert!(doc.get("x").is_none());
    assert!(at(&doc, "y").same(&json("2")));
}

#[test]
fn unset_missing_field_is_noop() {
    let mut doc = json(r#"{ "y": 2 }"#);
    let changed = update(&mut doc, r#"{ "$unset": { "x": "" } }"#, &no_immutable()).unwrap();
    assert!(!changed);
}

#[test]
fn immutable_field_is_rejected() {
    let mut immutable = Vec::new();
    immutable.push("id".to_string());
    let mut doc = json(r#"{ "id": "a" }"#);
    let err = update(&mut doc, r#"{ "$set": { "id": "b" } }"#, &immutable);
    assert!(matches!(err, Err(OdmError::ImmutableField(_))));
}

#[test]
fn replacement_update_without_operator_is_rejected() {
    let mut doc = json(r#"{ "x": 1 }"#);
    let err = update(&mut doc, r#"{ "x": 2 }"#, &no_immutable());
    assert!(matches!(err, Err(OdmError::InvalidUpdate(_))));
}

#[test]
fn unsupported_operator_is_rejected() {
    let mut doc = json(r#"{ "x": 1 }"#);
    let err = update(&mut doc, r#"{ "$push": { "x": 2 } }"#, &no_immutable());
    assert!(matches!(err, Err(OdmError::InvalidUpdate(_))));
}

#[test]
fn empty_operations_report_no_change() {
    let mut doc = json(r#"{ "x": 1 }"#);
    let changed = update(&mut doc, "{}", &no_immutable()).unwrap();
    assert!(!changed);
}

#[test]
fn inc_preserves_integer_representation() {
    let mut document = json(r#"{ "counter": 1024 }"#);
    let changed = update(
        &mut document,
        r#"{ "$inc": { "counter": 1, "created": 2 } }"#,
        &no_immutable(),
    )
    .unwrap();
    assert!(changed);
    assert!(at(&document, "counter").same(&json("1025")));
    assert!(at(&document, "created").same(&json("2")));
    assert!(is_i64(at(&document, "counter")));
}

#[test]
fn inc_keeps_fractional_arithmetic_fractional() {
    let mut document = json(r#"{ "counter": 1.25 }"#);
    update(&mut document, r#"{ "$inc": { "counter": 0.5 } }"#, &no_immutable()).unwrap();
    assert!(at(&document, "counter").same(&json("1.75")));
}

#[test]
fn inc_reports_integer_overflow() {
    let mut document = json(&format!("{{ \"counter\": {} }}", u64::MAX));
    let error = update(&mut document, r#"{ "$inc": { "counter": 1 } }"#, &no_immutable())
        .unwrap_err();
    assert!(matches!(error, OdmError::InvalidUpdate(message) if message.contains("overflowed")));
}

#[test]
fn inc_beyond_signed_range_stays_unsigned() {
    let mut document = json(&format!("{{ \"counter\": {} }}", i64::MAX));
    update(&mut document, r#"{ "$inc": { "counter": 1 } }"#, &no_immutable()).unwrap();
    assert!(at(&document, "counter").same(&json("9223372036854775808")));
}

#[test]
fn inc_of_a_non_finite_sum_is_refused() {
    let mut document = json(r#"{ "n": 1.7e308 }"#);
    let error = update(&mut document, r#"{ "$inc": { "n": 1.7e308 } }"#, &no_immutable())
        .unwrap_err();
    assert_eq!(
        error.render(),
        "invalid update: $inc for `n` produced a non-finite number"
    );
}

#[test]
fn what_is_set_is_read_back_and_what_is_unset_is_gone() {
    let mut document = json(r#"{ "a": { "x": 1 } }"#);
    assert!(set_path(&mut document, "a.b.c", json(r#"["v"]"#)).unwrap());
    assert!(at(&document, "a.b.c").same(&json(r#"["v"]"#)));
    assert!(at(&document, "a.x").same(&json("1")));
    assert!(!set_path(&mut document, "a.b.c", json(r#"["v"]"#)).unwrap());
    assert!(unset_path(&mut document, "a.b.c").unwrap());
    assert!(value_at_path(&document, "a.b.c").is_none());
    assert!(value_at_path(&document, "a.b").is_some());
    assert!(!unset_path(&mut document, "a.b.c").unwrap());
}

#[test]
fn a_path_through_a_scalar_is_refused() {
    let mut document = json(r#"{ "a": 1 }"#);
    assert!(matches!(
        set_path(&mut document, "a.b", Json::Null),
        Err(OdmError::InvalidUpdate(_))
    ));
}

#[test]
fn a_path_is_set_beside_the_others() {
    let mut doc = json(r#"{ "a": { "b": 1, "c": 2 }, "d": 3 }"#);
    assert!(set_path(&mut doc, "a.b", json("5")).unwrap());
    assert!(at(&doc, "a.b").same(&json("5")));
    assert!(at(&doc, "a.c").same(&json("2")));
    assert!(at(&doc, "d").same(&json("3")));
    assert!(!set_path(&mut doc, "a.b", json("5")).unwrap());
    assert!(set_path(&mut doc, "x.y.z", json("null")).unwrap());
    assert!(value_at_path(&doc, "x.y.w").is_none());
    let before = doc.clone();
    assert!(set_path(&mut doc, "d.e", json("1")).is_err());
    assert!(set_path(&mut doc, "a..b", json("1")).is_err());
    assert!(doc.same(&before));

    assert!(unset_path(&mut doc, "a.b").unwrap());
    assert!(value_at_path(&doc, "a.b").is_none());
    assert!(at(&doc, "a.c").same(&json("2")));
    assert!(!unset_path(&mut doc, "a.b").unwrap());
    assert!(unset_path(&mut doc, "a.").is_err());
}
