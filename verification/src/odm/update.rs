//! Updates: setting, removing and incrementing fields of a document.
use crate::entries::{lemma_replaced_at, lookup, replaced, with_entry, without_entry};
use crate::json::{json_eq, Json, JsonObject, Value};
use crate::number::{Number, NumberModel};
use crate::odm::error::{outcome, OdmError, OdmFailure};
use crate::odm::query;
use crate::odm::query::{at_path, is_operator};
use crate::text;
use crate::text::{begins_with, pieces, texts};
use vstd::prelude::*;

verus! {

/// Whether a path is a field or leads into it.
pub open spec fn within(path: Seq<char>, field: Seq<char>) -> bool {
    path == field || begins_with(path, field + "."@)
}

/// The first of the fields that a path is or leads into.
pub open spec fn first_within(path: Seq<char>, fields: Seq<Seq<char>>) -> Option<Seq<char>>
    decreases fields.len(),
{
    if fields.len() == 0 {
        None
    } else if within(path, fields[0]) {
        Some(fields[0])
    } else {
        first_within(path, fields.skip(1))
    }
}

/// Refuses a path that is or leads into a field that may not change.
fn ensure_mutable(path: &str, immutable_fields: &Vec<String>) -> (r: Result<(), OdmError>)
    ensures
        outcome(r) == match first_within(path@, texts(immutable_fields@)) {
            Some(field) => Err::<(), OdmFailure>(OdmFailure::ImmutableField(field)),
            None => Ok(()),
        },
{
    let mut i: usize = 0;
    assert(texts(immutable_fields@).skip(0) =~= texts(immutable_fields@));
    while i < immutable_fields.len()
        invariant
            i <= immutable_fields.len(),
            first_within(path@, texts(immutable_fields@)) == first_within(
                path@,
                texts(immutable_fields@).skip(i as int),
            ),
        decreases immutable_fields.len() - i,
    {
        let ghost left = texts(immutable_fields@).skip(i as int);
        assert(left[0] == immutable_fields@[i as int]@);
        assert(left.skip(1) =~= texts(immutable_fields@).skip(i + 1));
        let field: &String = &immutable_fields[i];
        let below: String = text::join2(field.as_str(), ".");
        if text::same_text(path, field.as_str()) || text::starts_with(path, below.as_str()) {
            return Err(OdmError::ImmutableField(field.clone()));
        }
        i += 1;
    }
    Ok(())
}

/// What is wrong where a path cannot be set.
#[derive(Clone, Copy, PartialEq, Eq, Structural, Debug)]
pub enum Obstacle {
    /// A value on the way is no object.
    Traversal,
    /// The value that is to hold the field is no object.
    Target,
}

/// A document with the field that a path of keys leads to set to a value, and
/// whether that changes it; objects that are missing on the way are created.
pub open spec fn set_at(document: Value, segments: Seq<Seq<char>>, value: Value) -> Result<
    (Value, bool),
    Obstacle,
>
    decreases segments.len(),
{
    let key = segments[0];
    if segments.len() <= 1 {
        match document {
            Value::Object(entries) => Ok(
                (
                    Value::Object(with_entry(entries, key, value)),
                    !(lookup(entries, key) is Some && json_eq(lookup(entries, key)->0, value)),
                ),
            ),
            _ => Err(Obstacle::Target),
        }
    } else {
        match document {
            Value::Object(entries) => match lookup(entries, key) {
                Some(child) => match set_at(child, segments.skip(1), value) {
                    Ok((after, changed)) => Ok(
                        (Value::Object(replaced(entries, key, after)), changed),
                    ),
                    Err(e) => Err(e),
                },
                None => match set_at(Value::Object(Seq::empty()), segments.skip(1), value) {
                    Ok((after, changed)) => Ok(
                        (Value::Object(with_entry(entries, key, after)), changed),
                    ),
                    Err(e) => Err(e),
                },
            },
            _ => Err(Obstacle::Traversal),
        }
    }
}

/// A document without the field that a path of keys leads to, and whether it was there.
pub open spec fn unset_at(document: Value, segments: Seq<Seq<char>>) -> (Value, bool)
    decreases segments.len(),
{
    let key = segments[0];
    match document {
        Value::Object(entries) => if segments.len() <= 1 {
            (Value::Object(without_entry(entries, key)), lookup(entries, key) is Some)
        } else {
            match lookup(entries, key) {
                Some(child) => {
                    let (after, removed) = unset_at(child, segments.skip(1));
                    (Value::Object(replaced(entries, key, after)), removed)
                },
                None => (document, false),
            }
        },
        _ => (document, false),
    }
}

/// Sets the field that the segments from `from` on lead to.
fn set_in(document: &mut Json, segments: &Vec<String>, from: usize, value: Json) -> (r: Result<
    bool,
    Obstacle,
>)
    requires
        from < segments.len(),
    ensures
        match set_at(old(document)@, texts(segments@).skip(from as int), value@) {
            Ok((after, changed)) => r == Ok::<bool, Obstacle>(changed) && final(document)@
                == after,
            Err(e) => r == Err::<bool, Obstacle>(e) && final(document)@ == old(document)@,
        },
    decreases segments.len() - from,
{
    let ghost left = texts(segments@).skip(from as int);
    let ghost before = document@;
    assert(left[0] == segments@[from as int]@);
    assert(left.skip(1) =~= texts(segments@).skip(from + 1));
    let key: &String = &segments[from];
    match document {
        Json::Object(object) => {
            if from + 1 == segments.len() {
                let changed: bool = match object.get(key.as_str()) {
                    Some(present) => !present.same(&value),
                    None => true,
                };
                object.insert(key.clone(), value);
                Ok(changed)
            } else {
                match object.position(key.as_str()) {
                    Some(i) => {
                        let ghost entries = object@;
                        let child: &mut Json = object.value_mut(i);
                        let r: Result<bool, Obstacle> = set_in(child, segments, from + 1, value);
                        proof {
                            let after = (*child)@;
                            lemma_replaced_at(entries, key@, after, i as int);
                            if r is Err {
                                assert(entries.update(i as int, (key@, after)) =~= entries);
                            }
                        }
                        r
                    },
                    None => {
                        let mut child: Json = Json::Object(JsonObject::new());
                        match set_in(&mut child, segments, from + 1, value) {
                            Ok(changed) => {
                                object.insert(key.clone(), child);
                                Ok(changed)
                            },
                            Err(e) => Err(e),
                        }
                    },
                }
            }
        },
        _ => if from + 1 == segments.len() {
            Err(Obstacle::Target)
        } else {
            Err(Obstacle::Traversal)
        },
    }
}

/// Removes the field that the segments from `from` on lead to.
fn unset_in(document: &mut Json, segments: &Vec<String>, from: usize) -> (r: bool)
    requires
        from < segments.len(),
    ensures
        (final(document)@, r) == unset_at(old(document)@, texts(segments@).skip(from as int)),
    decreases segments.len() - from,
{
    let ghost left = texts(segments@).skip(from as int);
    assert(left[0] == segments@[from as int]@);
    assert(left.skip(1) =~= texts(segments@).skip(from + 1));
    let key: &String = &segments[from];
    match document {
        Json::Object(object) => {
            if from + 1 == segments.len() {
                object.remove(key.as_str())
            } else {
                match object.position(key.as_str()) {
                    Some(i) => {
                        let ghost entries = object@;
                        let child: &mut Json = object.value_mut(i);
                        let r: bool = unset_in(child, segments, from + 1);
                        proof {
                            lemma_replaced_at(entries, key@, (*child)@, i as int);
                        }
                        r
                    },
                    None => false,
                }
            }
        },
        _ => false,
    }
}

/// Whether some segment of a path is empty.
pub open spec fn has_empty(segments: Seq<Seq<char>>) -> bool {
    exists|i: int| 0 <= i < segments.len() && (#[trigger] segments[i]).len() == 0
}

/// Whether some segment of a path is empty.
fn any_empty(segments: &Vec<String>) -> (r: bool)
    ensures
        r == has_empty(texts(segments@)),
{
    let mut i: usize = 0;
    while i < segments.len()
        invariant
            i <= segments.len(),
            forall|j: int| 0 <= j < i ==> (#[trigger] texts(segments@)[j]).len() != 0,
        decreases segments.len() - i,
    {
        assert(texts(segments@)[i as int] == segments@[i as int]@);
        if segments[i].as_str().is_empty() {
            return true;
        }
        i += 1;
    }
    false
}

/// An update that cannot be carried out, with what is wrong with a path.
pub open spec fn path_failure(before: Seq<char>, path: Seq<char>, after: Seq<char>) -> OdmFailure {
    OdmFailure::InvalidUpdate(before + path + after)
}

/// An error that tells what is wrong with a path.
fn path_error(before: &str, path: &str, after: &str) -> (r: OdmError)
    ensures
        r@ == path_failure(before@, path@, after@),
{
    OdmError::InvalidUpdate(text::join3(before, path, after))
}

/// What setting a dotted path leaves and tells.
pub open spec fn set_outcome(document: Value, path: Seq<char>, value: Value) -> (
    Value,
    Result<bool, OdmFailure>,
) {
    let segments = pieces(path, '.');
    if has_empty(segments) {
        (document, Err(path_failure("invalid field path `"@, path, "`"@)))
    } else {
        match set_at(document, segments, value) {
            Ok((after, changed)) => (after, Ok(changed)),
            Err(Obstacle::Traversal) => (
                document,
                Err(path_failure("cannot traverse `"@, path, "` through a non-object"@)),
            ),
            Err(Obstacle::Target) => (
                document,
                Err(path_failure("cannot set `"@, path, "` on a non-object"@)),
            ),
        }
    }
}

/// Sets the field that a dotted path leads to; tells whether that changed the document.
pub fn set_path(document: &mut Json, path: &str, value: Json) -> (r: Result<bool, OdmError>)
    ensures
        (final(document)@, outcome(r)) == set_outcome(old(document)@, path@, value@),
{
    let segments: Vec<String> = text::split(path, '.');
    if any_empty(&segments) {
        return Err(path_error("invalid field path `", path, "`"));
    }
    assert(texts(segments@).skip(0) =~= texts(segments@));
    match set_in(document, &segments, 0, value) {
        Ok(changed) => Ok(changed),
        Err(Obstacle::Traversal) => Err(
            path_error("cannot traverse `", path, "` through a non-object"),
        ),
        Err(Obstacle::Target) => Err(path_error("cannot set `", path, "` on a non-object")),
    }
}

/// What removing a dotted path leaves and tells.
pub open spec fn unset_outcome(document: Value, path: Seq<char>) -> (
    Value,
    Result<bool, OdmFailure>,
) {
    let segments = pieces(path, '.');
    if has_empty(segments) {
        (document, Err(path_failure("invalid field path `"@, path, "`"@)))
    } else {
        let (after, removed) = unset_at(document, segments);
        (after, Ok(removed))
    }
}

/// Removes the field that a dotted path leads to; tells whether it was there.
pub fn unset_path(document: &mut Json, path: &str) -> (r: Result<bool, OdmError>)
    ensures
        (final(document)@, outcome(r)) == unset_outcome(old(document)@, path@),
{
    let segments: Vec<String> = text::split(path, '.');
    if any_empty(&segments) {
        return Err(path_error("invalid field path `", path, "`"));
    }
    assert(texts(segments@).skip(0) =~= texts(segments@));
    Ok(unset_in(document, &segments, 0))
}

/// The model of an optional number.
pub open spec fn optional_number(n: Option<Number>) -> Option<NumberModel> {
    match n {
        Some(value) => Some(value@),
        None => None,
    }
}

/// Whether an addition of doubles can be called on all numbers and gives equal
/// results for equal operands.
pub open spec fn is_addition<F: Fn(&Number, &Number) -> Option<Number>>(add_reals: F) -> bool {
    &&& forall|x: &Number, y: &Number| #[trigger] call_requires(add_reals, (x, y))
    &&& forall|
        x: &Number,
        y: &Number,
        r: Option<Number>,
        u: &Number,
        v: &Number,
        s: Option<Number>,
    |
        #![trigger call_ensures(add_reals, (x, y), r), call_ensures(add_reals, (u, v), s)]
        x@ == u@ && y@ == v@ && call_ensures(add_reals, (x, y), r) && call_ensures(
            add_reals,
            (u, v),
            s,
        ) ==> optional_number(r) == optional_number(s)
}

/// Whether an addition of doubles can give `m` for `x` and `y`.
pub open spec fn can_give<F: Fn(&Number, &Number) -> Option<Number>>(
    add_reals: F,
    x: NumberModel,
    y: NumberModel,
    m: Option<NumberModel>,
) -> bool {
    exists|a: &Number, b: &Number, r: Option<Number>|
        a@ == x && b@ == y && #[trigger] call_ensures(add_reals, (a, b), r) && optional_number(r)
            == m
}

/// What an addition of doubles gives: their sum, or nothing where it is not finite.
pub open spec fn real_sum<F: Fn(&Number, &Number) -> Option<Number>>(
    add_reals: F,
    x: NumberModel,
    y: NumberModel,
) -> Option<NumberModel> {
    choose|m: Option<NumberModel>| can_give(add_reals, x, y, m)
}

/// The sum of two numbers: of integers exactly, else of doubles.
pub open spec fn sum_outcome<F: Fn(&Number, &Number) -> Option<Number>>(
    left: NumberModel,
    right: NumberModel,
    path: Seq<char>,
    add_reals: F,
) -> Result<NumberModel, OdmFailure> {
    match (left, right) {
        (NumberModel::Integer(x), NumberModel::Integer(y)) => if i64::MIN <= x + y <= u64::MAX {
            Ok(NumberModel::Integer(x + y))
        } else {
            Err(path_failure("$inc for `"@, path, "` overflowed the JSON integer range"@))
        },
        _ => match real_sum(add_reals, left, right) {
            Some(sum) => Ok(sum),
            None => Err(path_failure("$inc for `"@, path, "` produced a non-finite number"@)),
        },
    }
}

/// The sum of two numbers: of integers exactly, else of doubles.
///
/// Integers stay integers, so that 1024 and 1 add to 1025 and not to 1025.0.
fn add_numbers<F: Fn(&Number, &Number) -> Option<Number>>(
    left: &Number,
    right: &Number,
    path: &str,
    add_reals: &F,
) -> (r: Result<Number, OdmError>)
    requires
        is_addition(*add_reals),
    ensures
        match sum_outcome(left@, right@, path@, *add_reals) {
            Ok(sum) => r is Ok && r->Ok_0@ == sum,
            Err(e) => r is Err && r->Err_0@ == e,
        },
{
    match (left.integer(), right.integer()) {
        (Some(x), Some(y)) => {
            let sum: i128 = x + y;
            match Number::from_integer(sum) {
                Some(n) => Ok(n),
                None => Err(
                    path_error("$inc for `", path, "` overflowed the JSON integer range"),
                ),
            }
        },
        _ => {
            let sum: Option<Number> = add_reals(left, right);
            proof {
                let m = real_sum(*add_reals, left@, right@);
                assert(call_ensures(*add_reals, (left, right), sum));
                assert(can_give(*add_reals, left@, right@, optional_number(sum)));
                assert(can_give(*add_reals, left@, right@, m));
                assert(m == optional_number(sum));
            }
            match sum {
                Some(n) => Ok(n),
                None => Err(path_error("$inc for `", path, "` produced a non-finite number")),
            }
        },
    }
}

/// What incrementing a dotted path leaves and tells.
pub open spec fn increment_outcome<F: Fn(&Number, &Number) -> Option<Number>>(
    document: Value,
    path: Seq<char>,
    increment: Value,
    add_reals: F,
) -> (Value, Result<bool, OdmFailure>) {
    match increment {
        Value::Number(step) => {
            let current = match at_path(document, pieces(path, '.')) {
                None => Some(NumberModel::Integer(0)),
                Some(Value::Number(n)) => Some(n),
                Some(_) => None,
            };
            match current {
                None => (document, Err(path_failure("$inc target `"@, path, "` must be numeric"@))),
                Some(n) => match sum_outcome(n, step, path, add_reals) {
                    Ok(sum) => set_outcome(document, path, Value::Number(sum)),
                    Err(e) => (document, Err(e)),
                },
            }
        },
        _ => (document, Err(path_failure("$inc value for `"@, path, "` must be numeric"@))),
    }
}

/// Adds to the number that a dotted path leads to; a missing field counts as zero.
fn increment_path<F: Fn(&Number, &Number) -> Option<Number>>(
    document: &mut Json,
    path: &str,
    increment: &Json,
    add_reals: &F,
) -> (r: Result<bool, OdmError>)
    requires
        is_addition(*add_reals),
    ensures
        (final(document)@, outcome(r)) == increment_outcome(
            old(document)@,
            path@,
            increment@,
            *add_reals,
        ),
{
    let step: &Number = match increment {
        Json::Number(n) => n,
        _ => {
            return Err(path_error("$inc value for `", path, "` must be numeric"));
        },
    };
    let current: Number = match query::value_at_path(document, path) {
        None => Number::Unsigned(0),
        Some(Json::Number(n)) => n.clone(),
        Some(_) => {
            return Err(path_error("$inc target `", path, "` must be numeric"));
        },
    };
    match add_numbers(&current, step, path, add_reals) {
        Ok(sum) => set_path(document, path, Json::Number(sum)),
        Err(e) => Err(e),
    }
}

/// An update operator.
#[derive(Clone, Copy, PartialEq, Eq, Structural, Debug)]
pub enum Operator {
    Assign,
    Remove,
    Increment,
}

/// The operator of a name.
pub open spec fn operator_named(name: Seq<char>) -> Option<Operator> {
    if name == "$set"@ {
        Some(Operator::Assign)
    } else if name == "$unset"@ {
        Some(Operator::Remove)
    } else if name == "$inc"@ {
        Some(Operator::Increment)
    } else {
        None
    }
}

/// What applying an operator to one path leaves and tells.
pub open spec fn step_outcome<F: Fn(&Number, &Number) -> Option<Number>>(
    operator: Operator,
    document: Value,
    path: Seq<char>,
    operand: Value,
    add_reals: F,
) -> (Value, Result<bool, OdmFailure>) {
    match operator {
        Operator::Assign => set_outcome(document, path, operand),
        Operator::Remove => unset_outcome(document, path),
        Operator::Increment => increment_outcome(document, path, operand, add_reals),
    }
}

/// What applying an operator to the paths from `from` on leaves and tells, up
/// to the first that is refused or in error.
pub open spec fn fields_outcome<F: Fn(&Number, &Number) -> Option<Number>>(
    operator: Operator,
    document: Value,
    fields: Seq<(Seq<char>, Value)>,
    immutable: Seq<Seq<char>>,
    add_reals: F,
    from: int,
    changed: bool,
) -> (Value, Result<bool, OdmFailure>)
    decreases fields.len() - from,
{
    if from < 0 || from >= fields.len() {
        (document, Ok(changed))
    } else {
        let path = fields[from].0;
        match first_within(path, immutable) {
            Some(field) => (document, Err(OdmFailure::ImmutableField(field))),
            None => match step_outcome(operator, document, path, fields[from].1, add_reals) {
                (after, Ok(one)) => fields_outcome(
                    operator,
                    after,
                    fields,
                    immutable,
                    add_reals,
                    from + 1,
                    changed || one,
                ),
                (after, Err(e)) => (after, Err(e)),
            },
        }
    }
}

/// What applying the operators from `from` on leaves and tells, up to the first
/// that is in error.
pub open spec fn operations_outcome<F: Fn(&Number, &Number) -> Option<Number>>(
    document: Value,
    operations: Seq<(Seq<char>, Value)>,
    immutable: Seq<Seq<char>>,
    add_reals: F,
    from: int,
    changed: bool,
) -> (Value, Result<bool, OdmFailure>)
    decreases operations.len() - from,
{
    if from < 0 || from >= operations.len() {
        (document, Ok(changed))
    } else {
        let name = operations[from].0;
        match operator_named(name) {
            None => (
                document,
                Err(path_failure("unsupported update operator `"@, name, "`"@)),
            ),
            Some(operator) => match operations[from].1 {
                Value::Object(fields) => match fields_outcome(
                    operator,
                    document,
                    fields,
                    immutable,
                    add_reals,
                    0,
                    changed,
                ) {
                    (after, Ok(so_far)) => operations_outcome(
                        after,
                        operations,
                        immutable,
                        add_reals,
                        from + 1,
                        so_far,
                    ),
                    (after, Err(e)) => (after, Err(e)),
                },
                _ => (document, Err(OdmFailure::InvalidUpdate(name + " expects an object"@))),
            },
        }
    }
}

/// What an update leaves of a document and tells.
pub open spec fn update_outcome<F: Fn(&Number, &Number) -> Option<Number>>(
    document: Value,
    operations: Value,
    immutable: Seq<Seq<char>>,
    add_reals: F,
) -> (Value, Result<bool, OdmFailure>) {
    match operations {
        Value::Object(entries) => if entries.len() == 0 {
            (document, Ok(false))
        } else if exists|i: int|
            0 <= i < entries.len() && !is_operator((#[trigger] entries[i]).0) {
            (
                document,
                Err(
                    OdmFailure::InvalidUpdate(
                        "replacement updates are not supported; use operators such as $set"@,
                    ),
                ),
            )
        } else {
            operations_outcome(document, entries, immutable, add_reals, 0, false)
        },
        _ => (
            document,
            Err(OdmFailure::InvalidUpdate("update operations must be a JSON object"@)),
        ),
    }
}

/// The operator of a name.
fn parse_operator(name: &str) -> (r: Option<Operator>)
    ensures
        r == operator_named(name@),
{
    if text::same_text(name, "$set") {
        Some(Operator::Assign)
    } else if text::same_text(name, "$unset") {
        Some(Operator::Remove)
    } else if text::same_text(name, "$inc") {
        Some(Operator::Increment)
    } else {
        None
    }
}

/// Applies an operator to one path.
fn apply_step<F: Fn(&Number, &Number) -> Option<Number>>(
    operator: Operator,
    document: &mut Json,
    path: &str,
    operand: &Json,
    add_reals: &F,
) -> (r: Result<bool, OdmError>)
    requires
        is_addition(*add_reals),
    ensures
        (final(document)@, outcome(r)) == step_outcome(
            operator,
            old(document)@,
            path@,
            operand@,
            *add_reals,
        ),
{
    match operator {
        Operator::Assign => set_path(document, path, operand.clone()),
        Operator::Remove => unset_path(document, path),
        Operator::Increment => increment_path(document, path, operand, add_reals),
    }
}

/// Applies an operator to every path of its operand.
fn apply_operator<F: Fn(&Number, &Number) -> Option<Number>>(
    operator: Operator,
    document: &mut Json,
    fields: &JsonObject,
    immutable_fields: &Vec<String>,
    add_reals: &F,
    before: bool,
) -> (r: Result<bool, OdmError>)
    requires
        is_addition(*add_reals),
    ensures
        (final(document)@, outcome(r)) == fields_outcome(
            operator,
            old(document)@,
            fields@,
            texts(immutable_fields@),
            *add_reals,
            0,
            before,
        ),
{
    let ghost whole = fields_outcome(
        operator,
        document@,
        fields@,
        texts(immutable_fields@),
        *add_reals,
        0,
        before,
    );
    let mut changed: bool = before;
    let mut i: usize = 0;
    while i < fields.len()
        invariant
            i <= fields@.len(),
            is_addition(*add_reals),
            whole == fields_outcome(
                operator,
                old(document)@,
                fields@,
                texts(immutable_fields@),
                *add_reals,
                0,
                before,
            ),
            whole == fields_outcome(
                operator,
                document@,
                fields@,
                texts(immutable_fields@),
                *add_reals,
                i as int,
                changed,
            ),
        decreases fields@.len() - i,
    {
        let path: &String = fields.key_at(i);
        match ensure_mutable(path.as_str(), immutable_fields) {
            Ok(()) => {},
            Err(e) => {
                return Err(e);
            },
        }
        match apply_step(operator, document, path.as_str(), fields.value_at(i), add_reals) {
            Ok(one) => {
                changed = changed || one;
            },
            Err(e) => {
                return Err(e);
            },
        }
        i += 1;
    }
    Ok(changed)
}

/// Applies the update operators `$set`, `$unset` and `$inc` to a document;
/// tells whether it was modified.
///
/// Operators are applied in the order of their names and paths in key order.
/// Updates without an operator, paths into `immutable_fields` and unknown
/// operators are refused. Sums with a double are left to `add_reals`.
pub fn apply_update<F: Fn(&Number, &Number) -> Option<Number>>(
    document: &mut Json,
    operations: &Json,
    immutable_fields: &Vec<String>,
    add_reals: &F,
) -> (r: Result<bool, OdmError>)
    requires
        is_addition(*add_reals),
    ensures
        (final(document)@, outcome(r)) == update_outcome(
            old(document)@,
            operations@,
            texts(immutable_fields@),
            *add_reals,
        ),
{
    let entries: &JsonObject = match operations {
        Json::Object(object) => object,
        _ => {
            return Err(
                OdmError::InvalidUpdate(text::owned("update operations must be a JSON object")),
            );
        },
    };
    let mut i: usize = 0;
    while i < entries.len()
        invariant
            i <= entries@.len(),
            document@ == old(document)@,
            operations@ == Value::Object(entries@),
            forall|j: int| 0 <= j < i ==> is_operator((#[trigger] entries@[j]).0),
        decreases entries@.len() - i,
    {
        if !query::names_operator(entries.key_at(i).as_str()) {
            assert(!is_operator(entries@[i as int].0));
            return Err(
                OdmError::InvalidUpdate(
                    text::owned(
                        "replacement updates are not supported; use operators such as $set",
                    ),
                ),
            );
        }
        i += 1;
    }
    let ghost whole = update_outcome(
        document@,
        operations@,
        texts(immutable_fields@),
        *add_reals,
    );
    let mut changed: bool = false;
    let mut k: usize = 0;
    while k < entries.len()
        invariant
            k <= entries@.len(),
            is_addition(*add_reals),
            whole == update_outcome(
                old(document)@,
                operations@,
                texts(immutable_fields@),
                *add_reals,
            ),
            whole == operations_outcome(
                document@,
                entries@,
                texts(immutable_fields@),
                *add_reals,
                k as int,
                changed,
            ),
        decreases entries@.len() - k,
    {
        let name: &String = entries.key_at(k);
        let operator: Operator = match parse_operator(name.as_str()) {
            Some(operator) => operator,
            None => {
                return Err(path_error("unsupported update operator `", name.as_str(), "`"));
            },
        };
        let fields: &JsonObject = match entries.value_at(k) {
            Json::Object(fields) => fields,
            _ => {
                return Err(
                    OdmError::InvalidUpdate(text::join2(name.as_str(), " expects an object")),
                );
            },
        };
        match apply_operator(operator, document, fields, immutable_fields, add_reals, changed) {
            Ok(so_far) => {
                changed = so_far;
            },
            Err(e) => {
                return Err(e);
            },
        }
        k += 1;
    }
    Ok(changed)
}

} // verus!
