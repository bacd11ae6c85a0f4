//! Queries: matching documents against conditions on their fields.
use crate::json::{field, json_eq, list_model, Json, JsonObject, Value};
use crate::number::{number_relation, Number, NumberModel};
use crate::odm::error::{outcome, OdmError, OdmFailure};
use crate::text;
use crate::text::{pieces, texts, Relation};
use vstd::prelude::*;

verus! {

/// The value that a path of keys leads to.
pub open spec fn at_path(document: Value, segments: Seq<Seq<char>>) -> Option<Value>
    decreases segments.len(),
{
    if segments.len() == 0 {
        Some(document)
    } else {
        match field(document, segments[0]) {
            Some(next) => at_path(next, segments.skip(1)),
            None => None,
        }
    }
}

/// Follows the segments from `from` on.
fn follow<'a>(document: &'a Json, segments: &Vec<String>, from: usize) -> (r: Option<&'a Json>)
    requires
        from <= segments.len(),
    ensures
        match at_path(document@, texts(segments@).skip(from as int)) {
            Some(value) => r is Some && r->0@ == value,
            None => r is None,
        },
    decreases segments.len() - from,
{
    let ghost left = texts(segments@).skip(from as int);
    if from == segments.len() {
        assert(left.len() == 0);
        return Some(document);
    }
    assert(left[0] == segments@[from as int]@);
    assert(left.skip(1) =~= texts(segments@).skip(from + 1));
    match document.get(segments[from].as_str()) {
        Some(next) => follow(next, segments, from + 1),
        None => None,
    }
}

/// The value that a dotted path leads to, if every segment of it exists.
pub fn value_at_path<'a>(document: &'a Json, path: &str) -> (r: Option<&'a Json>)
    ensures
        match at_path(document@, pieces(path@, '.')) {
            Some(value) => r is Some && r->0@ == value,
            None => r is None,
        },
{
    let segments: Vec<String> = text::split(path, '.');
    assert(texts(segments@).skip(0) =~= texts(segments@));
    follow(document, &segments, 0)
}

/// Equality in queries: of the value itself, or of one of its items where it is an array.
pub open spec fn contains_or_equals(actual: Value, expected: Value) -> bool {
    json_eq(actual, expected) || match actual {
        Value::List(items) => exists|i: int|
            0 <= i < items.len() && json_eq(#[trigger] items[i], expected),
        _ => false,
    }
}

/// Equality in queries: of the value itself, or of one of its items where it is an array.
fn values_equal(actual: &Json, expected: &Json) -> (r: bool)
    ensures
        r == contains_or_equals(actual@, expected@),
{
    if actual.same(expected) {
        return true;
    }
    match actual {
        Json::Array(items) => {
            let mut i: usize = 0;
            while i < items.len()
                invariant
                    i <= items.len(),
                    actual@ == Value::List(list_model(items@)),
                    !json_eq(actual@, expected@),
                    forall|j: int|
                        0 <= j < i ==> !json_eq(#[trigger] list_model(items@)[j], expected@),
                decreases items.len() - i,
            {
                assert(list_model(items@)[i as int] == items@[i as int]@);
                if items[i].same(expected) {
                    return true;
                }
                i += 1;
            }
            false
        },
        _ => false,
    }
}

/// The order of two values: of numbers as doubles, of texts by code point; no
/// other values are ordered.
pub open spec fn value_relation(actual: Option<Value>, expected: Value) -> Option<Relation> {
    match (actual, expected) {
        (Some(Value::Number(x)), Value::Number(y)) => number_relation(x, y),
        (Some(Value::Text(x)), Value::Text(y)) => Some(text::text_relation(x, y)),
        _ => None,
    }
}

/// The order of two values, where they have one.
fn compare(actual: Option<&Json>, expected: &Json) -> (r: Option<Relation>)
    ensures
        r == value_relation(optional(actual), expected@),
{
    match (actual, expected) {
        (Some(Json::Number(x)), Json::Number(y)) => x.relate(y),
        (Some(Json::String(x)), Json::String(y)) => Some(text::relate(x.as_str(), y.as_str())),
        _ => None,
    }
}

/// The model of an optional value.
pub open spec fn optional(value: Option<&Json>) -> Option<Value> {
    match value {
        Some(v) => Some(v@),
        None => None,
    }
}

/// Whether some item equals the actual value.
pub open spec fn among(actual: Value, items: Seq<Value>) -> bool {
    exists|i: int| 0 <= i < items.len() && contains_or_equals(actual, #[trigger] items[i])
}

/// What one field operator says of a field's value.
pub open spec fn operator_outcome(
    actual: Option<Value>,
    operator: Seq<char>,
    operand: Value,
) -> Result<bool, OdmFailure> {
    let relation = value_relation(actual, operand);
    if operator == "$eq"@ {
        Ok(actual is Some && contains_or_equals(actual->0, operand))
    } else if operator == "$ne"@ {
        Ok(!(actual is Some && contains_or_equals(actual->0, operand)))
    } else if operator == "$gt"@ {
        Ok(relation == Some(Relation::After))
    } else if operator == "$gte"@ {
        Ok(relation == Some(Relation::After) || relation == Some(Relation::Same))
    } else if operator == "$lt"@ {
        Ok(relation == Some(Relation::Before))
    } else if operator == "$lte"@ {
        Ok(relation == Some(Relation::Before) || relation == Some(Relation::Same))
    } else if operator == "$in"@ {
        match operand {
            Value::List(items) => Ok(actual is Some && among(actual->0, items)),
            _ => Err(OdmFailure::InvalidQuery("$in expects an array"@)),
        }
    } else if operator == "$nin"@ {
        match operand {
            Value::List(items) => Ok(!(actual is Some && among(actual->0, items))),
            _ => Err(OdmFailure::InvalidQuery("$nin expects an array"@)),
        }
    } else if operator == "$exists"@ {
        match operand {
            Value::Bool(expected) => Ok((actual is Some) == expected),
            _ => Err(OdmFailure::InvalidQuery("$exists expects a boolean"@)),
        }
    } else if operator == "$size"@ {
        match operand {
            Value::Number(NumberModel::Integer(expected)) if expected >= 0 => Ok(
                match actual {
                    Some(Value::List(items)) => items.len() == expected,
                    _ => false,
                },
            ),
            _ => Err(OdmFailure::InvalidQuery("$size expects a non-negative integer"@)),
        }
    } else {
        Err(OdmFailure::InvalidQuery("unsupported field operator `"@ + operator + "`"@))
    }
}

/// What the field operators from `from` on say together, up to the first that
/// does not hold or is in error.
pub open spec fn operators_outcome(
    actual: Option<Value>,
    operators: Seq<(Seq<char>, Value)>,
    from: int,
) -> Result<bool, OdmFailure>
    decreases operators.len() - from,
{
    if from < 0 || from >= operators.len() {
        Ok(true)
    } else {
        match operator_outcome(actual, operators[from].0, operators[from].1) {
            Ok(true) => operators_outcome(actual, operators, from + 1),
            other => other,
        }
    }
}

/// Whether a key is an operator's name.
pub open spec fn is_operator(key: Seq<char>) -> bool {
    key.len() > 0 && key[0] == '$'
}

/// Whether some key is an operator's name.
pub open spec fn has_operator(entries: Seq<(Seq<char>, Value)>) -> bool {
    exists|i: int| 0 <= i < entries.len() && is_operator((#[trigger] entries[i]).0)
}

/// What a condition says of a field's value: its operators, or equality with
/// the condition where it holds none.
pub open spec fn condition_outcome(actual: Option<Value>, condition: Value) -> Result<
    bool,
    OdmFailure,
> {
    match condition {
        Value::Object(operators) if has_operator(operators) => operators_outcome(
            actual,
            operators,
            0,
        ),
        _ => Ok(actual is Some && contains_or_equals(actual->0, condition)),
    }
}

/// What a query says of a document.
pub open spec fn query_outcome(document: Value, query: Value) -> Result<bool, OdmFailure>
    decreases query, 0int,
{
    match query {
        Value::Object(entries) => entries_outcome(document, entries, 0),
        _ => Err(OdmFailure::InvalidQuery("query must be a JSON object"@)),
    }
}

/// What the entries of a query from `from` on say together, up to the first
/// that does not hold or is in error.
pub open spec fn entries_outcome(
    document: Value,
    entries: Seq<(Seq<char>, Value)>,
    from: int,
) -> Result<bool, OdmFailure>
    decreases entries, entries.len() - from + 1,
{
    if from < 0 || from >= entries.len() {
        Ok(true)
    } else {
        let key = entries[from].0;
        let condition = entries[from].1;
        let one = if key == "$and"@ {
            match condition {
                Value::List(clauses) => all_clauses(document, clauses, 0),
                _ => Err(OdmFailure::InvalidQuery("$and expects an array"@)),
            }
        } else if key == "$or"@ {
            match condition {
                Value::List(clauses) => any_clause(document, clauses, 0),
                _ => Err(OdmFailure::InvalidQuery("$or expects an array"@)),
            }
        } else if key == "$nor"@ {
            match condition {
                Value::List(clauses) => match any_clause(document, clauses, 0) {
                    Ok(matched) => Ok(!matched),
                    Err(e) => Err(e),
                },
                _ => Err(OdmFailure::InvalidQuery("$nor expects an array"@)),
            }
        } else if is_operator(key) {
            Err(OdmFailure::InvalidQuery("unsupported logical operator `"@ + key + "`"@))
        } else {
            condition_outcome(at_path(document, pieces(key, '.')), condition)
        };
        match one {
            Ok(true) => entries_outcome(document, entries, from + 1),
            other => other,
        }
    }
}

/// Whether every clause from `from` on matches, up to the first that does not or is in error.
pub open spec fn all_clauses(document: Value, clauses: Seq<Value>, from: int) -> Result<
    bool,
    OdmFailure,
>
    decreases clauses, clauses.len() - from + 1,
{
    if from < 0 || from >= clauses.len() {
        Ok(true)
    } else {
        match query_outcome(document, clauses[from]) {
            Ok(true) => all_clauses(document, clauses, from + 1),
            other => other,
        }
    }
}

/// Whether some clause from `from` on matches, up to the first that does or is in error.
pub open spec fn any_clause(document: Value, clauses: Seq<Value>, from: int) -> Result<
    bool,
    OdmFailure,
>
    decreases clauses, clauses.len() - from + 1,
{
    if from < 0 || from >= clauses.len() {
        Ok(false)
    } else {
        match query_outcome(document, clauses[from]) {
            Ok(false) => any_clause(document, clauses, from + 1),
            other => other,
        }
    }
}

/// An error that tells what is wrong with a query.
fn invalid(message: &str) -> (r: OdmError)
    ensures
        r@ == OdmFailure::InvalidQuery(message@),
{
    OdmError::InvalidQuery(text::owned(message))
}

/// Whether a key is an operator's name.
pub fn names_operator(key: &str) -> (r: bool)
    ensures
        r == is_operator(key@),
{
    let x: Vec<char> = text::chars_of(key);
    x.len() > 0 && x[0] == '$'
}

/// Whether some item equals the actual value.
fn is_among(actual: &Json, items: &Vec<Json>) -> (r: bool)
    ensures
        r == among(actual@, list_model(items@)),
{
    let mut i: usize = 0;
    while i < items.len()
        invariant
            i <= items.len(),
            forall|j: int|
                0 <= j < i ==> !contains_or_equals(actual@, #[trigger] list_model(items@)[j]),
        decreases items.len() - i,
    {
        assert(list_model(items@)[i as int] == items@[i as int]@);
        if values_equal(actual, &items[i]) {
            return true;
        }
        i += 1;
    }
    false
}

/// What one field operator says of a field's value.
fn matches_operator(actual: Option<&Json>, operator: &str, operand: &Json) -> (r: Result<
    bool,
    OdmError,
>)
    ensures
        outcome(r) == operator_outcome(optional(actual), operator@, operand@),
{
    if text::same_text(operator, "$eq") {
        return Ok(
            match actual {
                Some(value) => values_equal(value, operand),
                None => false,
            },
        );
    }
    if text::same_text(operator, "$ne") {
        return Ok(
            match actual {
                Some(value) => !values_equal(value, operand),
                None => true,
            },
        );
    }
    if text::same_text(operator, "$gt") {
        return Ok(matches!(compare(actual, operand), Some(Relation::After)));
    }
    if text::same_text(operator, "$gte") {
        return Ok(
            matches!(compare(actual, operand), Some(Relation::After) | Some(Relation::Same)),
        );
    }
    if text::same_text(operator, "$lt") {
        return Ok(matches!(compare(actual, operand), Some(Relation::Before)));
    }
    if text::same_text(operator, "$lte") {
        return Ok(
            matches!(compare(actual, operand), Some(Relation::Before) | Some(Relation::Same)),
        );
    }
    if text::same_text(operator, "$in") {
        return match operand {
            Json::Array(items) => Ok(
                match actual {
                    Some(value) => is_among(value, items),
                    None => false,
                },
            ),
            _ => Err(invalid("$in expects an array")),
        };
    }
    if text::same_text(operator, "$nin") {
        return match operand {
            Json::Array(items) => Ok(
                match actual {
                    Some(value) => !is_among(value, items),
                    None => true,
                },
            ),
            _ => Err(invalid("$nin expects an array")),
        };
    }
    if text::same_text(operator, "$exists") {
        return match operand {
            Json::Bool(expected) => Ok(actual.is_some() == *expected),
            _ => Err(invalid("$exists expects a boolean")),
        };
    }
    if text::same_text(operator, "$size") {
        let expected: Option<u64> = match operand {
            Json::Number(n) => n.as_u64(),
            _ => None,
        };
        return match expected {
            Some(size) => Ok(
                match actual {
                    Some(Json::Array(items)) => items.len() as u64 == size,
                    _ => false,
                },
            ),
            None => Err(invalid("$size expects a non-negative integer")),
        };
    }
    let message: String = text::join3("unsupported field operator `", operator, "`");
    Err(OdmError::InvalidQuery(message))
}

/// What a condition says of a field's value.
pub fn matches_condition(actual: Option<&Json>, condition: &Json) -> (r: Result<bool, OdmError>)
    ensures
        outcome(r) == condition_outcome(optional(actual), condition@),
{
    match condition {
        Json::Object(operators) => {
            let mut found: bool = false;
            let mut i: usize = 0;
            while i < operators.len()
                invariant
                    i <= operators@.len(),
                    found == exists|j: int|
                        0 <= j < i && is_operator((#[trigger] operators@[j]).0),
                decreases operators@.len() - i,
            {
                if names_operator(operators.key_at(i).as_str()) {
                    assert(is_operator(operators@[i as int].0));
                    found = true;
                }
                i += 1;
            }
            if found {
                let mut k: usize = 0;
                while k < operators.len()
                    invariant
                        k <= operators@.len(),
                        condition_outcome(optional(actual), condition@) == operators_outcome(
                            optional(actual),
                            operators@,
                            k as int,
                        ),
                    decreases operators@.len() - k,
                {
                    let one: Result<bool, OdmError> = matches_operator(
                        actual,
                        operators.key_at(k).as_str(),
                        operators.value_at(k),
                    );
                    match one {
                        Ok(true) => {},
                        _ => {
                            return one;
                        },
                    }
                    k += 1;
                }
                return Ok(true);
            }
        },
        _ => {},
    }
    Ok(
        match actual {
            Some(value) => values_equal(value, condition),
            None => false,
        },
    )
}

/// Whether a document matches a query.
///
/// A query is an object of conditions on dotted paths and of the logical
/// operators `$and`, `$or` and `$nor` over lists of queries.
pub fn matches_query(document: &Json, query: &Json) -> (r: Result<bool, OdmError>)
    ensures
        outcome(r) == query_outcome(document@, query@),
    decreases query@, 0int,
{
    match query {
        Json::Object(entries) => {
            assert(decreases_to!(query@ => query@->Object_0));
            matches_object(document, entries)
        },
        _ => Err(invalid("query must be a JSON object")),
    }
}

/// Whether a document matches every entry of a query.
fn matches_object(document: &Json, query: &JsonObject) -> (r: Result<bool, OdmError>)
    ensures
        outcome(r) == entries_outcome(document@, query@, 0),
    decreases query@, 1int,
{
    let mut i: usize = 0;
    while i < query.len()
        invariant
            i <= query@.len(),
            entries_outcome(document@, query@, 0) == entries_outcome(
                document@,
                query@,
                i as int,
            ),
        decreases query@.len() - i,
    {
        let key: &String = query.key_at(i);
        let condition: &Json = query.value_at(i);
        proof {
            assert(decreases_to!(query@ => query@[i as int]));
            assert(decreases_to!(query@[i as int] => query@[i as int].1));
            if condition@ is List {
                assert(decreases_to!(condition@ => condition@->List_0));
            }
        }
        let one: Result<bool, OdmError> = if text::same_text(key.as_str(), "$and") {
            match condition {
                Json::Array(clauses) => matches_all(document, clauses),
                _ => Err(invalid("$and expects an array")),
            }
        } else if text::same_text(key.as_str(), "$or") {
            match condition {
                Json::Array(clauses) => matches_any(document, clauses),
                _ => Err(invalid("$or expects an array")),
            }
        } else if text::same_text(key.as_str(), "$nor") {
            match condition {
                Json::Array(clauses) => match matches_any(document, clauses) {
                    Ok(matched) => Ok(!matched),
                    Err(e) => Err(e),
                },
                _ => Err(invalid("$nor expects an array")),
            }
        } else if names_operator(key.as_str()) {
            let message: String = text::join3(
                "unsupported logical operator `",
                key.as_str(),
                "`",
            );
            Err(OdmError::InvalidQuery(message))
        } else {
            let actual: Option<&Json> = value_at_path(document, key.as_str());
            matches_condition(actual, condition)
        };
        match one {
            Ok(true) => {},
            _ => {
                return one;
            },
        }
        i += 1;
    }
    Ok(true)
}

/// Whether a document matches every clause.
fn matches_all(document: &Json, clauses: &Vec<Json>) -> (r: Result<bool, OdmError>)
    ensures
        outcome(r) == all_clauses(document@, list_model(clauses@), 0),
    decreases list_model(clauses@), 1int,
{
    let mut i: usize = 0;
    while i < clauses.len()
        invariant
            i <= clauses.len(),
            all_clauses(document@, list_model(clauses@), 0) == all_clauses(
                document@,
                list_model(clauses@),
                i as int,
            ),
        decreases clauses.len() - i,
    {
        assert(list_model(clauses@)[i as int] == clauses@[i as int]@);
        assert(decreases_to!(list_model(clauses@) => list_model(clauses@)[i as int]));
        let one: Result<bool, OdmError> = matches_query(document, &clauses[i]);
        match one {
            Ok(true) => {},
            _ => {
                return one;
            },
        }
        i += 1;
    }
    Ok(true)
}

/// Whether a document matches some clause.
fn matches_any(document: &Json, clauses: &Vec<Json>) -> (r: Result<bool, OdmError>)
    ensures
        outcome(r) == any_clause(document@, list_model(clauses@), 0),
    decreases list_model(clauses@), 1int,
{
    let mut i: usize = 0;
    while i < clauses.len()
        invariant
            i <= clauses.len(),
            any_clause(document@, list_model(clauses@), 0) == any_clause(
                document@,
                list_model(clauses@),
                i as int,
            ),
        decreases clauses.len() - i,
    {
        assert(list_model(clauses@)[i as int] == clauses@[i as int]@);
        assert(decreases_to!(list_model(clauses@) => list_model(clauses@)[i as int]));
        let one: Result<bool, OdmError> = matches_query(document, &clauses[i]);
        match one {
            Ok(false) => {},
            _ => {
                return one;
            },
        }
        i += 1;
    }
    Ok(false)
}

/// `$ne` holds exactly where `$eq` does not, and `$nin` exactly where `$in` does not.
pub proof fn lemma_negated_operators(actual: Option<Value>, operand: Value, items: Seq<Value>)
    ensures
        operator_outcome(actual, "$eq"@, operand) is Ok,
        operator_outcome(actual, "$ne"@, operand) == Ok::<bool, OdmFailure>(
            !operator_outcome(actual, "$eq"@, operand)->Ok_0,
        ),
        operator_outcome(actual, "$in"@, Value::List(items)) is Ok,
        operator_outcome(actual, "$nin"@, Value::List(items)) == Ok::<bool, OdmFailure>(
            !operator_outcome(actual, "$in"@, Value::List(items))->Ok_0,
        ),
{
    lemma_operator_names();
}

/// `$gte` holds where `$gt` does or the values are equally ordered, `$lte` where
/// `$lt` does or they are; `$gt` and `$lt` never hold together.
pub proof fn lemma_order_operators(actual: Option<Value>, operand: Value)
    ensures
        operator_outcome(actual, "$gte"@, operand) == Ok::<bool, OdmFailure>(
            operator_outcome(actual, "$gt"@, operand)->Ok_0 || value_relation(actual, operand)
                == Some(Relation::Same),
        ),
        operator_outcome(actual, "$lte"@, operand) == Ok::<bool, OdmFailure>(
            operator_outcome(actual, "$lt"@, operand)->Ok_0 || value_relation(actual, operand)
                == Some(Relation::Same),
        ),
        !(operator_outcome(actual, "$gt"@, operand)->Ok_0 && operator_outcome(
            actual,
            "$lt"@,
            operand,
        )->Ok_0),
{
    lemma_operator_names();
}

/// The names of the operators are distinct.
proof fn lemma_operator_names()
    ensures
        "$eq"@.len() == 3 && "$eq"@[1] == 'e',
        "$ne"@.len() == 3 && "$ne"@[1] == 'n',
        "$gt"@.len() == 3 && "$gt"@[1] == 'g',
        "$lt"@.len() == 3 && "$lt"@[1] == 'l',
        "$in"@.len() == 3 && "$in"@[1] == 'i',
        "$gte"@.len() == 4 && "$gte"@[1] == 'g',
        "$lte"@.len() == 4 && "$lte"@[1] == 'l',
        "$nin"@.len() == 4 && "$nin"@[1] == 'n',
{
    reveal_strlit("$eq");
    reveal_strlit("$ne");
    reveal_strlit("$gt");
    reveal_strlit("$lt");
    reveal_strlit("$in");
    reveal_strlit("$gte");
    reveal_strlit("$lte");
    reveal_strlit("$nin");
}

/// Clauses of which none is in error all match where each does, and some matches where
/// one does.
proof fn lemma_clauses(document: Value, clauses: Seq<Value>, from: int)
    requires
        0 <= from,
        forall|i: int|
            from <= i < clauses.len() ==> query_outcome(document, #[trigger] clauses[i]) is Ok,
    ensures
        all_clauses(document, clauses, from) == Ok::<bool, OdmFailure>(
            forall|i: int|
                from <= i < clauses.len() ==> query_outcome(document, #[trigger] clauses[i])->Ok_0,
        ),
        any_clause(document, clauses, from) == Ok::<bool, OdmFailure>(
            exists|i: int|
                from <= i < clauses.len() && query_outcome(document, #[trigger] clauses[i])->Ok_0,
        ),
    decreases clauses.len() - from,
{
    if from < clauses.len() {
        lemma_clauses(document, clauses, from + 1);
        assert(query_outcome(document, clauses[from]) is Ok);
    }
}

/// A query of one entry.
pub open spec fn single(key: Seq<char>, condition: Value) -> Value {
    Value::Object(seq![(key, condition)])
}

/// Of clauses of which none is in error, `$and` matches where all of them do, `$or` where some
/// does, and `$nor` where `$or` does not. Without clauses `$and` and `$nor` match, and `$or`
/// does not.
pub proof fn lemma_logical_operators(document: Value, clauses: Seq<Value>)
    requires
        forall|i: int|
            0 <= i < clauses.len() ==> query_outcome(document, #[trigger] clauses[i]) is Ok,
    ensures
        query_outcome(document, single("$and"@, Value::List(clauses))) == Ok::<bool, OdmFailure>(
            forall|i: int|
                0 <= i < clauses.len() ==> query_outcome(document, #[trigger] clauses[i])->Ok_0,
        ),
        query_outcome(document, single("$or"@, Value::List(clauses))) == Ok::<bool, OdmFailure>(
            exists|i: int|
                0 <= i < clauses.len() && query_outcome(document, #[trigger] clauses[i])->Ok_0,
        ),
        query_outcome(document, single("$nor"@, Value::List(clauses))) == Ok::<bool, OdmFailure>(
            !query_outcome(document, single("$or"@, Value::List(clauses)))->Ok_0,
        ),
        clauses.len() == 0 ==> query_outcome(document, single("$and"@, Value::List(clauses)))
            == Ok::<bool, OdmFailure>(true),
        clauses.len() == 0 ==> query_outcome(document, single("$or"@, Value::List(clauses)))
            == Ok::<bool, OdmFailure>(false),
        clauses.len() == 0 ==> query_outcome(document, single("$nor"@, Value::List(clauses)))
            == Ok::<bool, OdmFailure>(true),
{
    reveal_strlit("$and");
    reveal_strlit("$or");
    reveal_strlit("$nor");
    reveal_with_fuel(entries_outcome, 2);
    lemma_clauses(document, clauses, 0);
    assert("$and"@[1] == 'a' && "$or"@[1] == 'o' && "$nor"@[1] == 'n');
    assert(query_outcome(document, single("$and"@, Value::List(clauses))) == all_clauses(
        document,
        clauses,
        0,
    ));
    assert(query_outcome(document, single("$or"@, Value::List(clauses))) == any_clause(
        document,
        clauses,
        0,
    ));
}

/// The entries of a query from `from` on match together where each alone does, and are not in
/// error where none alone is.
proof fn lemma_entries_match(document: Value, entries: Seq<(Seq<char>, Value)>, from: int)
    requires
        0 <= from,
    ensures
        entries_outcome(document, entries, from) == Ok::<bool, OdmFailure>(true) <==> forall|i: int|
            from <= i < entries.len() ==> query_outcome(
                document,
                single((#[trigger] entries[i]).0, entries[i].1),
            ) == Ok::<bool, OdmFailure>(true),
        (forall|i: int|
            from <= i < entries.len() ==> query_outcome(
                document,
                single((#[trigger] entries[i]).0, entries[i].1),
            ) is Ok) ==> entries_outcome(document, entries, from) is Ok,
    decreases entries.len() - from,
{
    if from < entries.len() {
        lemma_entries_match(document, entries, from + 1);
        reveal_with_fuel(entries_outcome, 2);
        let alone = single(entries[from].0, entries[from].1);
        assert(alone->Object_0[0] == entries[from]);
        assert(entries_outcome(document, entries, from) == match query_outcome(document, alone) {
            Ok(true) => entries_outcome(document, entries, from + 1),
            other => other,
        });
    }
}

/// A query of several entries matches where each entry alone does, and is not in error where
/// none of them alone is.
pub proof fn lemma_query_matches_each(document: Value, entries: Seq<(Seq<char>, Value)>)
    ensures
        query_outcome(document, Value::Object(entries)) == Ok::<bool, OdmFailure>(true)
            <==> forall|i: int|
            0 <= i < entries.len() ==> query_outcome(
                document,
                single((#[trigger] entries[i]).0, entries[i].1),
            ) == Ok::<bool, OdmFailure>(true),
        (forall|i: int|
            0 <= i < entries.len() ==> query_outcome(
                document,
                single((#[trigger] entries[i]).0, entries[i].1),
            ) is Ok) ==> query_outcome(document, Value::Object(entries)) is Ok,
{
    lemma_entries_match(document, entries, 0);
}

/// A query without entries matches every document.
pub proof fn lemma_empty_query_matches(document: Value)
    ensures
        query_outcome(document, Value::Object(Seq::empty())) == Ok::<bool, OdmFailure>(true),
{
}

} // verus!
