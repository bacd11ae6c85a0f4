//! What updates keep and what reads give back of them.
use crate::entries::{
    lemma_absent_stays, lemma_lookup_replaced, lemma_lookup_with_entry, lemma_lookup_without_entry,
    lemma_replaced_same, lemma_with_entry_again, lookup, with_entry,
};
use crate::json::{
    field, json_eq, lemma_json_eq_reflexive, lemma_lookup_ordered, lemma_replaced_deep,
    lemma_with_entry_deep, lemma_without_entry_deep, ordered, ranked, Value,
};
use crate::number::{Number, NumberModel};
use crate::odm::collection::{
    id_outcome, load_outcome, mirrored, prepare_outcome, stages_one, update_step, CollectionModel,
    Staged, UpdateModel,
};
use crate::odm::error::OdmFailure;
use crate::odm::query::at_path;
use crate::odm::schema::{document_failure, SchemaModel};
use crate::odm::update::{
    fields_outcome, first_within, has_empty, operations_outcome, set_at, set_outcome, step_outcome,
    sum_outcome, unset_at, unset_outcome, update_outcome, within, Operator,
};
use crate::text;
use crate::text::{begins_with, pieces};
use vstd::prelude::*;

verus! {

/// A value that was set at a path of keys is found there.
proof fn lemma_read_after_set_at(document: Value, segments: Seq<Seq<char>>, value: Value)
    requires
        segments.len() > 0,
        set_at(document, segments, value) is Ok,
    ensures
        at_path(set_at(document, segments, value)->Ok_0.0, segments) == Some(value),
    decreases segments.len(),
{
    let after = set_at(document, segments, value)->Ok_0.0;
    let entries = document->Object_0;
    let key = segments[0];
    let rest = segments.skip(1);
    if segments.len() == 1 {
        lemma_lookup_with_entry(entries, key, value, key);
        assert(at_path(value, rest) == Some(value));
    } else {
        match lookup(entries, key) {
            Some(child) => {
                lemma_read_after_set_at(child, rest, value);
                lemma_lookup_replaced(entries, key, set_at(child, rest, value)->Ok_0.0, key);
            },
            None => {
                let child = Value::Object(Seq::empty());
                lemma_read_after_set_at(child, rest, value);
                lemma_lookup_with_entry(entries, key, set_at(child, rest, value)->Ok_0.0, key);
            },
        }
    }
}

/// A path of keys that was removed leads nowhere.
proof fn lemma_read_after_unset_at(document: Value, segments: Seq<Seq<char>>)
    requires
        segments.len() > 0,
        ordered(document),
    ensures
        at_path(unset_at(document, segments).0, segments) is None,
    decreases segments.len(),
{
    let key = segments[0];
    let rest = segments.skip(1);
    match document {
        Value::Object(entries) => {
            if segments.len() == 1 {
                lemma_lookup_without_entry(entries, key, key);
            } else {
                match lookup(entries, key) {
                    Some(child) => {
                        lemma_lookup_ordered(entries, key);
                        lemma_read_after_unset_at(child, rest);
                        lemma_lookup_replaced(entries, key, unset_at(child, rest).0, key);
                    },
                    None => {},
                }
            }
        },
        _ => {},
    }
}

/// A path leads into the field that its first segment names.
pub proof fn lemma_first_segment(path: Seq<char>)
    ensures
        pieces(path, '.').len() > 0,
        within(path, pieces(path, '.')[0]),
        pieces(path, '.').len() == 1 ==> path == pieces(path, '.')[0],
        pieces(path, '.').len() > 1 ==> begins_with(path, pieces(path, '.')[0] + "."@),
    decreases path.len(),
{
    reveal_strlit(".");
    let parts = pieces(path, '.');
    if path.len() == 0 {
        assert(path =~= parts[0]);
    } else {
        let front = path.drop_last();
        lemma_first_segment(front);
        let before = pieces(front, '.');
        let head = before[0];
        if path.last() == '.' {
            assert(parts[0] == head);
            if before.len() == 1 {
                assert(path.take((head.len() + 1) as int) =~= head + "."@);
            } else {
                assert(path.take((head.len() + 1) as int) =~= front.take((head.len() + 1) as int));
            }
        } else if before.len() == 1 {
            assert(parts.len() == 1);
            assert(path =~= parts[0]);
        } else {
            assert(parts[0] == head);
            assert(path.take((head.len() + 1) as int) =~= front.take((head.len() + 1) as int));
        }
    }
}

/// Setting a path leaves every field but its first segment as it was.
proof fn lemma_set_keeps(document: Value, segments: Seq<Seq<char>>, value: Value, key: Seq<char>)
    requires
        segments.len() > 0,
        segments[0] != key,
        set_at(document, segments, value) is Ok,
    ensures
        field(set_at(document, segments, value)->Ok_0.0, key) == field(document, key),
{
    let entries = document->Object_0;
    if segments.len() == 1 {
        lemma_lookup_with_entry(entries, segments[0], value, key);
    } else {
        match lookup(entries, segments[0]) {
            Some(child) => {
                let after = set_at(child, segments.skip(1), value)->Ok_0.0;
                lemma_lookup_replaced(entries, segments[0], after, key);
            },
            None => {
                let child = Value::Object(Seq::empty());
                let after = set_at(child, segments.skip(1), value)->Ok_0.0;
                lemma_lookup_with_entry(entries, segments[0], after, key);
            },
        }
    }
}

/// Removing a path leaves every field but its first segment as it was.
proof fn lemma_unset_keeps(document: Value, segments: Seq<Seq<char>>, key: Seq<char>)
    requires
        segments.len() > 0,
        segments[0] != key,
        ordered(document),
    ensures
        field(unset_at(document, segments).0, key) == field(document, key),
{
    match document {
        Value::Object(entries) => {
            if segments.len() == 1 {
                lemma_lookup_without_entry(entries, segments[0], key);
            } else if lookup(entries, segments[0]) is Some {
                let child = lookup(entries, segments[0])->0;
                let after = unset_at(child, segments.skip(1)).0;
                lemma_lookup_replaced(entries, segments[0], after, key);
            }
        },
        _ => {},
    }
}

/// Setting a path keeps the keys of every object in order.
pub(crate) proof fn lemma_set_ordered(document: Value, segments: Seq<Seq<char>>, value: Value)
    requires
        segments.len() > 0,
        ordered(document),
        ordered(value),
        set_at(document, segments, value) is Ok,
    ensures
        ordered(set_at(document, segments, value)->Ok_0.0),
    decreases segments.len(),
{
    let entries = document->Object_0;
    if segments.len() == 1 {
        lemma_with_entry_deep(entries, segments[0], value);
    } else {
        match lookup(entries, segments[0]) {
            Some(child) => {
                lemma_lookup_ordered(entries, segments[0]);
                lemma_set_ordered(child, segments.skip(1), value);
                let after = set_at(child, segments.skip(1), value)->Ok_0.0;
                lemma_replaced_deep(entries, segments[0], after);
            },
            None => {
                let child = Value::Object(Seq::empty());
                lemma_set_ordered(child, segments.skip(1), value);
                let after = set_at(child, segments.skip(1), value)->Ok_0.0;
                lemma_with_entry_deep(entries, segments[0], after);
            },
        }
    }
}

/// Removing a path keeps the keys of every object in order.
pub(crate) proof fn lemma_unset_ordered(document: Value, segments: Seq<Seq<char>>)
    requires
        segments.len() > 0,
        ordered(document),
    ensures
        ordered(unset_at(document, segments).0),
    decreases segments.len(),
{
    match document {
        Value::Object(entries) => {
            if segments.len() == 1 {
                lemma_without_entry_deep(entries, segments[0]);
            } else if lookup(entries, segments[0]) is Some {
                let child = lookup(entries, segments[0])->0;
                lemma_lookup_ordered(entries, segments[0]);
                lemma_unset_ordered(child, segments.skip(1));
                let after = unset_at(child, segments.skip(1)).0;
                lemma_replaced_deep(entries, segments[0], after);
            }
        },
        _ => {},
    }
}

/// The first of the fields that a path leads into is found where one of them is such.
proof fn lemma_first_within(path: Seq<char>, fields: Seq<Seq<char>>, at: int)
    requires
        0 <= at < fields.len(),
        within(path, fields[at]),
    ensures
        first_within(path, fields) is Some,
    decreases fields.len(),
{
    if !within(path, fields[0]) {
        assert(fields.skip(1)[at - 1] == fields[at]);
        lemma_first_within(path, fields.skip(1), at - 1);
    }
}

/// Whether two paths of keys part: neither leads along the other.
pub open spec fn apart(a: Seq<Seq<char>>, b: Seq<Seq<char>>) -> bool {
    exists|i: int| 0 <= i < a.len() && i < b.len() && a[i] != #[trigger] b[i]
}

/// Paths that part after the same first key part behind it.
proof fn lemma_apart_behind(a: Seq<Seq<char>>, b: Seq<Seq<char>>)
    requires
        apart(a, b),
        a[0] == b[0],
    ensures
        a.len() > 1 && b.len() > 1,
        apart(a.skip(1), b.skip(1)),
{
    let i = choose|i: int| 0 <= i < a.len() && i < b.len() && a[i] != #[trigger] b[i];
    assert(a.skip(1)[i - 1] == a[i]);
    assert(b.skip(1)[i - 1] == b[i]);
}

/// Setting a path of keys leaves what every path that parts from it leads to.
proof fn lemma_set_at_frame(
    document: Value,
    segments: Seq<Seq<char>>,
    value: Value,
    other: Seq<Seq<char>>,
)
    requires
        apart(segments, other),
        set_at(document, segments, value) is Ok,
    ensures
        at_path(set_at(document, segments, value)->Ok_0.0, other) == at_path(document, other),
    decreases segments.len(),
{
    if segments[0] != other[0] {
        lemma_set_keeps(document, segments, value, other[0]);
    } else {
        lemma_apart_behind(segments, other);
        let entries = document->Object_0;
        let key = segments[0];
        let rest = segments.skip(1);
        let child = match lookup(entries, key) {
            Some(child) => child,
            None => Value::Object(Seq::empty()),
        };
        let after = set_at(child, rest, value)->Ok_0.0;
        lemma_set_at_frame(child, rest, value, other.skip(1));
        if lookup(entries, key) is Some {
            lemma_lookup_replaced(entries, key, after, key);
        }
        lemma_lookup_with_entry(entries, key, after, key);
        if lookup(entries, key) is None {
            assert(field(child, other[1]) is None);
            assert(at_path(child, other.skip(1)) is None);
        }
    }
}

/// Setting a path of keys tells whether it led to another value before, or to none.
proof fn lemma_set_at_tells(document: Value, segments: Seq<Seq<char>>, value: Value)
    requires
        segments.len() > 0,
        set_at(document, segments, value) is Ok,
    ensures
        set_at(document, segments, value)->Ok_0.1 == !(at_path(document, segments) is Some
            && json_eq(at_path(document, segments)->0, value)),
    decreases segments.len(),
{
    let entries = document->Object_0;
    let key = segments[0];
    let rest = segments.skip(1);
    if segments.len() == 1 {
        assert(field(document, key) == lookup(entries, key));
        assert(rest.len() == 0);
    } else {
        match lookup(entries, key) {
            Some(child) => {
                lemma_set_at_tells(child, rest, value);
            },
            None => {
                let child = Value::Object(Seq::empty());
                lemma_set_at_tells(child, rest, value);
                assert(field(child, rest[0]) is None);
                assert(at_path(child, rest) is None);
            },
        }
    }
}

/// Setting a path of keys again changes nothing.
proof fn lemma_set_at_again(document: Value, segments: Seq<Seq<char>>, value: Value)
    requires
        segments.len() > 0,
        set_at(document, segments, value) is Ok,
    ensures
        ({
            let after = set_at(document, segments, value)->Ok_0.0;
            set_at(after, segments, value) is Ok && set_at(after, segments, value)->Ok_0.0 == after
        }),
    decreases segments.len(),
{
    let entries = document->Object_0;
    let key = segments[0];
    let rest = segments.skip(1);
    if segments.len() == 1 {
        lemma_with_entry_again(entries, key, value);
    } else {
        let child = match lookup(entries, key) {
            Some(child) => child,
            None => Value::Object(Seq::empty()),
        };
        lemma_set_at_again(child, rest, value);
        let set = set_at(child, rest, value)->Ok_0.0;
        if lookup(entries, key) is Some {
            lemma_lookup_replaced(entries, key, set, key);
        }
        lemma_lookup_with_entry(entries, key, set, key);
        let after = set_at(document, segments, value)->Ok_0.0->Object_0;
        assert(lookup(after, key) == Some(set));
        lemma_replaced_same(after, key, set);
    }
}

/// What setting a dotted path does: the value is read back there, it is told whether the path
/// led to another value before, every path that parts from it leads to what it did, and setting
/// it again to a value that equals itself changes nothing. Where it fails, the document is left
/// as it was.
pub proof fn lemma_set_path_law(document: Value, path: Seq<char>, value: Value)
    ensures
        ({
            let segments = pieces(path, '.');
            let (after, result) = set_outcome(document, path, value);
            match result {
                Ok(changed) => {
                    &&& at_path(after, segments) == Some(value)
                    &&& changed == !(at_path(document, segments) is Some && json_eq(
                        at_path(document, segments)->0,
                        value,
                    ))
                    &&& forall|other: Seq<char>|
                        apart(segments, pieces(other, '.')) ==> #[trigger] at_path(
                            after,
                            pieces(other, '.'),
                        ) == at_path(document, pieces(other, '.'))
                    &&& ranked(value) ==> set_outcome(after, path, value) == (
                        after,
                        Ok::<bool, OdmFailure>(false),
                    )
                },
                Err(_) => after == document,
            }
        }),
{
    let segments = pieces(path, '.');
    let (after, result) = set_outcome(document, path, value);
    text::lemma_pieces_nonempty(path, '.');
    if result is Ok {
        lemma_read_after_set_at(document, segments, value);
        lemma_set_at_tells(document, segments, value);
        lemma_set_at_again(document, segments, value);
        lemma_set_at_tells(after, segments, value);
        if ranked(value) {
            lemma_json_eq_reflexive(value);
        }
        assert forall|other: Seq<char>|
            apart(segments, pieces(other, '.')) implies #[trigger] at_path(
            after,
            pieces(other, '.'),
        ) == at_path(document, pieces(other, '.')) by {
            lemma_set_at_frame(document, segments, value, pieces(other, '.'));
        }
    }
}

/// Removing a path of keys leaves what every path that parts from it leads to.
proof fn lemma_unset_at_frame(
    document: Value,
    segments: Seq<Seq<char>>,
    other: Seq<Seq<char>>,
)
    requires
        apart(segments, other),
        ordered(document),
    ensures
        at_path(unset_at(document, segments).0, other) == at_path(document, other),
    decreases segments.len(),
{
    if segments[0] != other[0] {
        lemma_unset_keeps(document, segments, other[0]);
    } else {
        lemma_apart_behind(segments, other);
        match document {
            Value::Object(entries) => {
                let key = segments[0];
                if lookup(entries, key) is Some {
                    let child = lookup(entries, key)->0;
                    lemma_lookup_ordered(entries, key);
                    lemma_unset_at_frame(child, segments.skip(1), other.skip(1));
                    let after = unset_at(child, segments.skip(1)).0;
                    lemma_lookup_replaced(entries, key, after, key);
                }
            },
            _ => {},
        }
    }
}

/// Removing a path of keys tells whether it led anywhere; one that does not is left.
proof fn lemma_unset_at_tells(document: Value, segments: Seq<Seq<char>>)
    requires
        segments.len() > 0,
    ensures
        unset_at(document, segments).1 == (at_path(document, segments) is Some),
        at_path(document, segments) is None ==> unset_at(document, segments).0 == document,
    decreases segments.len(),
{
    let key = segments[0];
    let rest = segments.skip(1);
    match document {
        Value::Object(entries) => {
            if segments.len() == 1 {
                assert(field(document, key) == lookup(entries, key));
                assert(rest.len() == 0);
                if lookup(entries, key) is None {
                    lemma_absent_stays(entries, key);
                }
            } else if lookup(entries, key) is Some {
                let child = lookup(entries, key)->0;
                lemma_unset_at_tells(child, rest);
                lemma_replaced_same(entries, key, child);
            }
        },
        _ => {},
    }
}

/// What removing a dotted path does: the path leads nowhere, it is told whether it led
/// anywhere before, every path that parts from it leads to what it did, and removing it again
/// changes nothing. Where it fails, the document is left as it was.
pub proof fn lemma_unset_path_law(document: Value, path: Seq<char>)
    requires
        ordered(document),
    ensures
        ({
            let segments = pieces(path, '.');
            let (after, result) = unset_outcome(document, path);
            match result {
                Ok(removed) => {
                    &&& at_path(after, segments) is None
                    &&& removed == (at_path(document, segments) is Some)
                    &&& forall|other: Seq<char>|
                        apart(segments, pieces(other, '.')) ==> #[trigger] at_path(
                            after,
                            pieces(other, '.'),
                        ) == at_path(document, pieces(other, '.'))
                    &&& unset_outcome(after, path) == (after, Ok::<bool, OdmFailure>(false))
                },
                Err(_) => after == document,
            }
        }),
{
    let segments = pieces(path, '.');
    let (after, result) = unset_outcome(document, path);
    text::lemma_pieces_nonempty(path, '.');
    if result is Ok {
        lemma_read_after_unset_at(document, segments);
        lemma_unset_at_tells(document, segments);
        lemma_unset_at_tells(after, segments);
        assert forall|other: Seq<char>|
            apart(segments, pieces(other, '.')) implies #[trigger] at_path(
            after,
            pieces(other, '.'),
        ) == at_path(document, pieces(other, '.')) by {
            lemma_unset_at_frame(document, segments, pieces(other, '.'));
        }
    }
}

/// One step of an update keeps key order and every field that its path does not lead into.
proof fn lemma_step_keeps<F: Fn(&Number, &Number) -> Option<Number>>(
    operator: Operator,
    document: Value,
    path: Seq<char>,
    operand: Value,
    add_reals: F,
    key: Seq<char>,
)
    requires
        ordered(document),
        ordered(operand),
    ensures
        ordered(step_outcome(operator, document, path, operand, add_reals).0),
        !within(path, key) ==> field(
            step_outcome(operator, document, path, operand, add_reals).0,
            key,
        ) == field(document, key),
{
    let segments = pieces(path, '.');
    lemma_first_segment(path);
    let current = match at_path(document, segments) {
        Some(Value::Number(n)) => n,
        _ => NumberModel::Integer(0),
    };
    let set_value = match operator {
        Operator::Increment => Value::Number(
            sum_outcome(current, operand->Number_0, path, add_reals)->Ok_0,
        ),
        _ => operand,
    };
    match operator {
        Operator::Remove => {
            if !has_empty(segments) {
                lemma_unset_ordered(document, segments);
                if !within(path, key) {
                    lemma_unset_keeps(document, segments, key);
                }
            }
        },
        _ => {
            let result = step_outcome(operator, document, path, operand, add_reals);
            if result.1 is Ok {
                assert(result == set_outcome(document, path, set_value));
                lemma_set_ordered(document, segments, set_value);
                if !within(path, key) {
                    lemma_set_keeps(document, segments, set_value, key);
                }
            } else {
                assert(result.0 == document);
            }
        },
    }
}

/// Applying an operator keeps key order and every field that may not change.
proof fn lemma_fields_keep<F: Fn(&Number, &Number) -> Option<Number>>(
    operator: Operator,
    document: Value,
    fields: Seq<(Seq<char>, Value)>,
    immutable: Seq<Seq<char>>,
    add_reals: F,
    from: int,
    changed: bool,
    at: int,
)
    requires
        ordered(document),
        ordered(Value::Object(fields)),
        0 <= from,
        0 <= at < immutable.len(),
    ensures
        ordered(
            fields_outcome(operator, document, fields, immutable, add_reals, from, changed).0,
        ),
        field(
            fields_outcome(operator, document, fields, immutable, add_reals, from, changed).0,
            immutable[at],
        ) == field(document, immutable[at]),
    decreases fields.len() - from,
{
    if from < fields.len() {
        let path = fields[from].0;
        if first_within(path, immutable) is None {
            if within(path, immutable[at]) {
                lemma_first_within(path, immutable, at);
            }
            lemma_step_keeps(operator, document, path, fields[from].1, add_reals, immutable[at]);
            let (after, one) = step_outcome(operator, document, path, fields[from].1, add_reals);
            if one is Ok {
                lemma_fields_keep(
                    operator,
                    after,
                    fields,
                    immutable,
                    add_reals,
                    from + 1,
                    changed || one->Ok_0,
                    at,
                );
            }
        }
    }
}

/// Applying operators keeps key order and every field that may not change.
proof fn lemma_operations_keep<F: Fn(&Number, &Number) -> Option<Number>>(
    document: Value,
    operations: Seq<(Seq<char>, Value)>,
    immutable: Seq<Seq<char>>,
    add_reals: F,
    from: int,
    changed: bool,
    at: int,
)
    requires
        ordered(document),
        ordered(Value::Object(operations)),
        0 <= from,
        0 <= at < immutable.len(),
    ensures
        ordered(operations_outcome(document, operations, immutable, add_reals, from, changed).0),
        field(
            operations_outcome(document, operations, immutable, add_reals, from, changed).0,
            immutable[at],
        ) == field(document, immutable[at]),
    decreases operations.len() - from,
{
    if from < operations.len() && operations[from].1 is Object {
        let fields = operations[from].1->Object_0;
        assert(ordered(operations[from].1));
        match crate::odm::update::operator_named(operations[from].0) {
            Some(operator) => {
                lemma_fields_keep(
                    operator,
                    document,
                    fields,
                    immutable,
                    add_reals,
                    0,
                    changed,
                    at,
                );
                let (after, so_far) = fields_outcome(
                    operator,
                    document,
                    fields,
                    immutable,
                    add_reals,
                    0,
                    changed,
                );
                if so_far is Ok {
                    lemma_operations_keep(
                        after,
                        operations,
                        immutable,
                        add_reals,
                        from + 1,
                        so_far->Ok_0,
                        at,
                    );
                }
            },
            None => {},
        }
    }
}

/// An update, whether it succeeds or fails, leaves every immutable field as it
/// was and every object's keys in order.
pub proof fn lemma_update_keeps_immutable<F: Fn(&Number, &Number) -> Option<Number>>(
    document: Value,
    operations: Value,
    immutable: Seq<Seq<char>>,
    add_reals: F,
    at: int,
)
    requires
        ordered(document),
        ordered(operations),
        0 <= at < immutable.len(),
    ensures
        ordered(update_outcome(document, operations, immutable, add_reals).0),
        field(update_outcome(document, operations, immutable, add_reals).0, immutable[at])
            == field(document, immutable[at]),
{
    match operations {
        Value::Object(entries) => {
            lemma_operations_keep(document, entries, immutable, add_reals, 0, false, at);
        },
        _ => {},
    }
}

/// Whether every document is kept under the text of its own primary key.
pub open spec fn keyed_by_id(schema: SchemaModel, documents: Seq<(Seq<char>, Value)>) -> bool {
    forall|i: int|
        0 <= i < documents.len() ==> id_outcome(schema, (#[trigger] documents[i]).1) == Ok::<
            Seq<char>,
            OdmFailure,
        >(documents[i].0)
}

/// A document put under the text of its primary key keeps the others keyed.
pub proof fn lemma_put_keeps_keys(
    schema: SchemaModel,
    documents: Seq<(Seq<char>, Value)>,
    id: Seq<char>,
    document: Value,
)
    requires
        keyed_by_id(schema, documents),
        id_outcome(schema, document) == Ok::<Seq<char>, OdmFailure>(id),
    ensures
        keyed_by_id(schema, with_entry(documents, id, document)),
    decreases documents.len(),
{
    if documents.len() > 0 && documents[0].0 != id && !text::text_lt(id, documents[0].0) {
        let rest = documents.skip(1);
        assert(keyed_by_id(schema, rest)) by {
            assert forall|i: int| 0 <= i < rest.len() implies id_outcome(
                schema,
                (#[trigger] rest[i]).1,
            ) == Ok::<Seq<char>, OdmFailure>(rest[i].0) by {
                assert(rest[i] == documents[i + 1]);
            }
        }
        lemma_put_keeps_keys(schema, rest, id, document);
        let after = with_entry(documents, id, document);
        assert forall|i: int| 0 <= i < after.len() implies id_outcome(
            schema,
            (#[trigger] after[i]).1,
        ) == Ok::<Seq<char>, OdmFailure>(after[i].0) by {
            if i > 0 {
                assert(after[i] == with_entry(rest, id, document)[i - 1]);
            }
        }
    }
}

/// A prepared document is kept under the text of its own primary key.
pub proof fn lemma_prepared_is_keyed(
    schema: SchemaModel,
    document: Value,
    generated: Seq<char>,
    now: Seq<char>,
)
    requires
        prepare_outcome(schema, document, generated, now) is Ok,
    ensures
        ({
            let (id, kept) = prepare_outcome(schema, document, generated, now)->Ok_0;
            &&& id_outcome(schema, kept) == Ok::<Seq<char>, OdmFailure>(id)
            &&& document_failure(schema, kept) is None
        }),
{
    let entries = document->Object_0;
    let filled = crate::odm::collection::filled_in(schema, entries, generated, now);
    let (id, kept) = prepare_outcome(schema, document, generated, now)->Ok_0;
    if schema.primary_key != "_id"@ {
        lemma_lookup_with_entry(filled, "_id"@, Value::Text(id), schema.primary_key);
    }
}

/// Loading stored documents keeps each under the text of its own primary key.
pub proof fn lemma_load_keys(
    schema: SchemaModel,
    stored: Seq<Value>,
    from: int,
    view: Seq<(Seq<char>, Value)>,
)
    requires
        keyed_by_id(schema, view),
        load_outcome(schema, stored, from, view) is Ok,
    ensures
        keyed_by_id(schema, load_outcome(schema, stored, from, view)->Ok_0),
    decreases stored.len() - from,
{
    if 0 <= from < stored.len() {
        let document = stored[from];
        let id = id_outcome(schema, document)->Ok_0;
        let kept = mirrored(schema, document, id);
        match document {
            Value::Object(entries) => {
                lemma_lookup_with_entry(entries, "_id"@, Value::Text(id), schema.primary_key);
            },
            _ => {},
        }
        lemma_put_keeps_keys(schema, view, id, kept);
        lemma_load_keys(schema, stored, from + 1, with_entry(view, id, kept));
    }
}

/// An update keeps every document under the text of its own primary key.
pub proof fn lemma_update_keeps_keys<F: Fn(&Number, &Number) -> Option<Number>>(
    schema: SchemaModel,
    view: Seq<(Seq<char>, Value)>,
    documents: Seq<(Seq<char>, Value)>,
    query: Value,
    operations: Value,
    add_reals: F,
    now: Seq<char>,
)
    requires
        keyed_by_id(schema, view),
        update_step(schema, documents, query, operations, add_reals, now) matches Ok(
            UpdateModel::Changed { .. },
        ),
    ensures
        update_step(schema, documents, query, operations, add_reals, now) matches Ok(
            UpdateModel::Changed { id, document },
        ) && keyed_by_id(schema, with_entry(view, id, document)) && document_failure(
            schema,
            document,
        ) is None,
{
    let step = update_step(schema, documents, query, operations, add_reals, now)->Ok_0;
    lemma_put_keeps_keys(schema, view, step->id, step->document);
}

/// A document that was staged is found under its id once it was committed, and
/// every other document as before.
pub proof fn lemma_find_after_write(
    collection: CollectionModel,
    staged: Staged,
    id: Seq<char>,
    document: Value,
    other: Seq<char>,
)
    requires
        stages_one(collection, staged, id, document),
    ensures
        lookup(staged.documents@, id) == Some(document),
        other != id ==> lookup(staged.documents@, other) == lookup(collection.documents, other),
{
    lemma_lookup_with_entry(collection.documents, id, document, id);
    lemma_lookup_with_entry(collection.documents, id, document, other);
}

} // verus!
