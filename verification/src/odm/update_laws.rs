//! What updates do to documents, operator by operator and path by path.
use crate::entries::lookup;
use crate::json::{json_eq, ordered, Json, Value};
use crate::number::{Number, NumberModel};
use crate::odm::error::{OdmError, OdmFailure};
use crate::odm::laws::{
    apart, lemma_set_ordered, lemma_set_path_law, lemma_unset_ordered, lemma_unset_path_law,
};
use crate::odm::query::{at_path, is_operator};
use crate::odm::update::{
    apply_update, fields_outcome, first_within, has_empty, increment_outcome, operations_outcome,
    operator_named,
    set_at, set_outcome, step_outcome, update_outcome, within, Operator,
};
use crate::text::pieces;
use vstd::prelude::*;

verus! {

/// The update that applies one operator to one path.
pub open spec fn applies(operator: Seq<char>, path: Seq<char>, operand: Value) -> Value {
    Value::Object(seq![(operator, Value::Object(seq![(path, operand)]))])
}

/// Whether a path is a field or leads into it.
pub open spec fn leads_into(path: Seq<char>, name: Seq<char>) -> bool {
    path == name || (name.len() < path.len() && path.take(name.len() as int) == name
        && path[name.len() as int] == '.')
}

/// A path leads into a field where it is within it.
proof fn lemma_leads_into(path: Seq<char>, name: Seq<char>)
    ensures
        within(path, name) == leads_into(path, name),
{
    reveal_strlit(".");
    let below = name + "."@;
    if path.len() >= below.len() {
        let start = path.take(below.len() as int);
        if start == below {
            assert(path.take(name.len() as int) =~= below.take(name.len() as int));
            assert(below.take(name.len() as int) =~= name);
            assert(path[name.len() as int] == start[name.len() as int]);
        }
        if path.take(name.len() as int) == name && path[name.len() as int] == '.' {
            assert forall|i: int| 0 <= i < below.len() implies start[i] == below[i] by {
                if i < name.len() {
                    assert(path.take(name.len() as int)[i] == name[i]);
                }
            }
            assert(start =~= below);
        }
    }
}

/// The first field that a path leads into is one of the fields, and is missing only where it
/// leads into none.
proof fn lemma_first_leads(path: Seq<char>, fields: Seq<Seq<char>>)
    ensures
        match first_within(path, fields) {
            Some(f) => fields.contains(f) && leads_into(path, f),
            None => forall|i: int| 0 <= i < fields.len() ==> !leads_into(path, #[trigger] fields[i]),
        },
    decreases fields.len(),
{
    if fields.len() > 0 {
        lemma_leads_into(path, fields[0]);
        let rest = fields.skip(1);
        lemma_first_leads(path, rest);
        if within(path, fields[0]) {
            assert(fields[0] == fields[0int]);
            assert(fields.contains(fields[0]));
        } else {
            match first_within(path, rest) {
                Some(f) => {
                    let i = choose|i: int| 0 <= i < rest.len() && rest[i] == f;
                    assert(fields[i + 1] == f);
                },
                None => {
                    assert forall|i: int| 0 <= i < fields.len() implies !leads_into(
                        path,
                        #[trigger] fields[i],
                    ) by {
                        if i > 0 {
                            assert(rest[i - 1] == fields[i]);
                        }
                    }
                },
            }
        }
    }
}

/// The names of the operators are those of operators, and differ.
proof fn lemma_operator_names()
    ensures
        is_operator("$set"@) && is_operator("$unset"@) && is_operator("$inc"@),
        "$set"@ != "$unset"@ && "$set"@ != "$inc"@ && "$unset"@ != "$inc"@,
{
    reveal_strlit("$set");
    reveal_strlit("$unset");
    reveal_strlit("$inc");
    assert("$set"@[1] == 's' && "$inc"@[1] == 'i');
}

/// One operator on one path does what its step does, unless the path leads into a field that
/// may not change.
proof fn lemma_applies<F: Fn(&Number, &Number) -> Option<Number>>(
    document: Value,
    name: Seq<char>,
    path: Seq<char>,
    operand: Value,
    immutable: Seq<Seq<char>>,
    add_reals: F,
)
    requires
        operator_named(name) is Some,
    ensures
        update_outcome(document, applies(name, path, operand), immutable, add_reals)
            == match first_within(path, immutable) {
            Some(f) => (document, Err(OdmFailure::ImmutableField(f))),
            None => step_outcome(operator_named(name)->0, document, path, operand, add_reals),
        },
{
    lemma_operator_names();
    let fields = seq![(path, operand)];
    let entries = seq![(name, Value::Object(fields))];
    assert(entries[0] == (name, Value::Object(fields)));
    assert(fields[0] == (path, operand));
    reveal_with_fuel(operations_outcome, 2);
    reveal_with_fuel(fields_outcome, 2);
    let operator = operator_named(name)->0;
    assert(forall|i: int| 0 <= i < entries.len() ==> is_operator((#[trigger] entries[i]).0));
    assert(fields_outcome(operator, document, fields, immutable, add_reals, 0, false)
        == match first_within(path, immutable) {
        Some(f) => (document, Err(OdmFailure::ImmutableField(f))),
        None => step_outcome(operator, document, path, operand, add_reals),
    });
}

/// Setting a path of keys succeeds exactly where each beginning of the path leads to an object
/// or nowhere.
proof fn lemma_set_at_succeeds(document: Value, segments: Seq<Seq<char>>, value: Value)
    requires
        segments.len() > 0,
    ensures
        set_at(document, segments, value) is Ok <==> forall|k: int|
            0 <= k < segments.len() && #[trigger] at_path(document, segments.take(k)) is Some
                ==> at_path(document, segments.take(k))->0 is Object,
    decreases segments.len(),
{
    let none = segments.take(0);
    assert(at_path(document, none) == Some(document));
    if document is Object && segments.len() > 1 {
        let rest = segments.skip(1);
        let next = lookup(document->Object_0, segments[0]);
        let child = match next {
            Some(child) => child,
            None => Value::Object(Seq::empty()),
        };
        lemma_set_at_succeeds(child, rest, value);
        assert forall|k: int| 0 < k < segments.len() implies #[trigger] at_path(
            document,
            segments.take(k),
        ) == match next {
            Some(child) => at_path(child, rest.take(k - 1)),
            None => None,
        } by {
            assert(segments.take(k).skip(1) =~= rest.take(k - 1));
            assert(segments.take(k)[0] == segments[0]);
        }
        if next is None {
            assert forall|k: int| 0 <= k < rest.len() && #[trigger] at_path(
                child,
                rest.take(k),
            ) is Some implies at_path(child, rest.take(k))->0 is Object by {
                if k > 0 {
                    assert(rest.take(k)[0] == rest[0]);
                }
            }
        } else {
            if set_at(child, rest, value) is Ok {
                assert forall|k: int| 0 <= k < segments.len() && #[trigger] at_path(
                    document,
                    segments.take(k),
                ) is Some implies at_path(document, segments.take(k))->0 is Object by {
                    if k > 0 {
                        assert(at_path(child, rest.take(k - 1)) == at_path(
                            document,
                            segments.take(k),
                        ));
                    }
                }
            } else {
                let k = choose|k: int|
                    0 <= k < rest.len() && #[trigger] at_path(child, rest.take(k)) is Some && !(
                    at_path(child, rest.take(k))->0 is Object);
                assert(at_path(document, segments.take(k + 1)) == at_path(child, rest.take(k)));
            }
        }
    } else if document is Object {
        assert forall|k: int| 0 <= k < segments.len() && #[trigger] at_path(
            document,
            segments.take(k),
        ) is Some implies at_path(document, segments.take(k))->0 is Object by {
            assert(k == 0);
        }
    }
}

/// Whether a dotted path can be set in a document: none of its segments is empty, and each
/// beginning of it leads to an object or nowhere.
pub open spec fn can_be_set(document: Value, path: Seq<char>) -> bool {
    let segments = pieces(path, '.');
    &&& forall|i: int| 0 <= i < segments.len() ==> (#[trigger] segments[i]).len() > 0
    &&& forall|k: int|
        0 <= k < segments.len() && #[trigger] at_path(document, segments.take(k)) is Some
            ==> at_path(document, segments.take(k))->0 is Object
}

/// Setting a dotted path succeeds exactly where it can be set.
proof fn lemma_set_succeeds(document: Value, path: Seq<char>, value: Value)
    ensures
        set_outcome(document, path, value).1 is Ok <==> can_be_set(document, path),
{
    let segments = pieces(path, '.');
    crate::text::lemma_pieces_nonempty(path, '.');
    lemma_set_at_succeeds(document, segments, value);
    if has_empty(segments) {
        let i = choose|i: int| 0 <= i < segments.len() && (#[trigger] segments[i]).len() == 0;
        assert(segments[i].len() == 0);
    }
}

/// Whether a document comes of another by changing what one path leads to and nothing that a
/// path which parts from it leads to.
pub open spec fn changes_only(before: Value, path: Seq<char>, after: Value) -> bool {
    forall|other: Seq<char>|
        apart(pieces(path, '.'), pieces(other, '.')) ==> #[trigger] at_path(
            after,
            pieces(other, '.'),
        ) == at_path(before, pieces(other, '.'))
}

/// `$set` lets a path lead to the operand and changes nothing else; it tells whether the path
/// led to something else before. It fails exactly where the path leads into a field that may
/// not change or cannot be set, and then changes nothing.
pub proof fn lemma_set_operator<F: Fn(&Number, &Number) -> Option<Number>>(
    document: Value,
    path: Seq<char>,
    operand: Value,
    immutable: Seq<Seq<char>>,
    add_reals: F,
)
    ensures
        ({
            let segments = pieces(path, '.');
            let (after, r) = update_outcome(
                document,
                applies("$set"@, path, operand),
                immutable,
                add_reals,
            );
            &&& r is Ok <==> can_be_set(document, path) && forall|i: int|
                0 <= i < immutable.len() ==> !leads_into(path, #[trigger] immutable[i])
            &&& r is Ok ==> at_path(after, segments) == Some(operand)
            &&& r is Ok ==> changes_only(document, path, after)
            &&& r is Ok ==> r->Ok_0 == !(at_path(document, segments) is Some && json_eq(
                at_path(document, segments)->0,
                operand,
            ))
            &&& r is Err ==> after == document
        }),
{
    lemma_operator_names();
    lemma_applies(document, "$set"@, path, operand, immutable, add_reals);
    lemma_first_leads(path, immutable);
    lemma_set_succeeds(document, path, operand);
    lemma_set_path_law(document, path, operand);
    if first_within(path, immutable) is Some {
        let f = first_within(path, immutable)->0;
        let i = choose|i: int| 0 <= i < immutable.len() && immutable[i] == f;
        assert(leads_into(path, immutable[i]));
    }
}

/// `$unset` lets a path lead nowhere and changes nothing else; it tells whether the path led
/// anywhere before. It fails exactly where the path leads into a field that may not change or
/// has an empty segment, and then changes nothing.
pub proof fn lemma_unset_operator<F: Fn(&Number, &Number) -> Option<Number>>(
    document: Value,
    path: Seq<char>,
    operand: Value,
    immutable: Seq<Seq<char>>,
    add_reals: F,
)
    requires
        ordered(document),
    ensures
        ({
            let segments = pieces(path, '.');
            let (after, r) = update_outcome(
                document,
                applies("$unset"@, path, operand),
                immutable,
                add_reals,
            );
            &&& r is Ok <==> (forall|i: int|
                0 <= i < segments.len() ==> (#[trigger] segments[i]).len() > 0) && (forall|i: int|
                0 <= i < immutable.len() ==> !leads_into(path, #[trigger] immutable[i]))
            &&& r is Ok ==> at_path(after, segments) is None
            &&& r is Ok ==> changes_only(document, path, after)
            &&& r is Ok ==> r->Ok_0 == at_path(document, segments) is Some
            &&& r is Err ==> after == document
        }),
{
    lemma_operator_names();
    lemma_applies(document, "$unset"@, path, operand, immutable, add_reals);
    lemma_first_leads(path, immutable);
    lemma_unset_path_law(document, path);
    let segments = pieces(path, '.');
    if has_empty(segments) {
        let i = choose|i: int| 0 <= i < segments.len() && (#[trigger] segments[i]).len() == 0;
        assert(segments[i].len() == 0);
    }
    if first_within(path, immutable) is Some {
        let f = first_within(path, immutable)->0;
        let i = choose|i: int| 0 <= i < immutable.len() && immutable[i] == f;
        assert(leads_into(path, immutable[i]));
    }
}

/// `$inc` with an integer adds it to the integer that a path leads to, or to zero where it
/// leads nowhere, and changes nothing else; it tells whether that is another number. It fails
/// exactly where the path leads into a field that may not change or cannot be set, or the sum
/// is no JSON integer, and then changes nothing.
pub proof fn lemma_increment_operator<F: Fn(&Number, &Number) -> Option<Number>>(
    document: Value,
    path: Seq<char>,
    step: int,
    immutable: Seq<Seq<char>>,
    add_reals: F,
)
    requires
        ({
            let value = at_path(document, pieces(path, '.'));
            value is Some ==> value->0 is Number && value->0->Number_0 is Integer
        }),
    ensures
        ({
            let segments = pieces(path, '.');
            let current = match at_path(document, segments) {
                Some(value) => value->Number_0->Integer_0,
                None => 0,
            };
            let (after, r) = update_outcome(
                document,
                applies("$inc"@, path, Value::Number(NumberModel::Integer(step))),
                immutable,
                add_reals,
            );
            &&& r is Ok <==> can_be_set(document, path) && i64::MIN <= current + step <= u64::MAX
                && forall|i: int|
                0 <= i < immutable.len() ==> !leads_into(path, #[trigger] immutable[i])
            &&& r is Ok ==> at_path(after, segments) == Some(
                Value::Number(NumberModel::Integer(current + step)),
            )
            &&& r is Ok ==> changes_only(document, path, after)
            &&& r is Ok ==> r->Ok_0 == (step != 0 || at_path(document, segments) is None)
            &&& r is Err ==> after == document
        }),
{
    lemma_operator_names();
    let segments = pieces(path, '.');
    let operand = Value::Number(NumberModel::Integer(step));
    let current = match at_path(document, segments) {
        Some(value) => value->Number_0->Integer_0,
        None => 0,
    };
    let sum = Value::Number(NumberModel::Integer(current + step));
    lemma_applies(document, "$inc"@, path, operand, immutable, add_reals);
    lemma_first_leads(path, immutable);
    lemma_set_succeeds(document, path, sum);
    lemma_set_path_law(document, path, sum);
    if at_path(document, segments) is Some {
        assert(at_path(document, segments) == Some(Value::Number(NumberModel::Integer(current))));
    }
    if first_within(path, immutable) is Some {
        let f = first_within(path, immutable)->0;
        let i = choose|i: int| 0 <= i < immutable.len() && immutable[i] == f;
        assert(leads_into(path, immutable[i]));
    }
}

/// `$inc` fails where the operand is no number or the path leads to something else than one,
/// and then changes nothing. Where it succeeds, the path leads to a number.
pub proof fn lemma_increment_needs_numbers<F: Fn(&Number, &Number) -> Option<Number>>(
    document: Value,
    path: Seq<char>,
    operand: Value,
    immutable: Seq<Seq<char>>,
    add_reals: F,
)
    ensures
        ({
            let segments = pieces(path, '.');
            let (after, r) = update_outcome(
                document,
                applies("$inc"@, path, operand),
                immutable,
                add_reals,
            );
            &&& r is Ok ==> operand is Number
            &&& r is Ok && at_path(document, segments) is Some ==> at_path(
                document,
                segments,
            )->0 is Number
            &&& r is Ok ==> at_path(after, segments) is Some && at_path(
                after,
                segments,
            )->0 is Number
            &&& r is Ok ==> changes_only(document, path, after)
            &&& r is Err ==> after == document
        }),
{
    lemma_operator_names();
    let segments = pieces(path, '.');
    lemma_applies(document, "$inc"@, path, operand, immutable, add_reals);
    let (after, r) = increment_outcome(document, path, operand, add_reals);
    if r is Ok {
        let current = match at_path(document, segments) {
            Some(Value::Number(n)) => n,
            _ => NumberModel::Integer(0),
        };
        let sum = Value::Number(
            crate::odm::update::sum_outcome(current, operand->Number_0, path, add_reals)->Ok_0,
        );
        assert((after, r) == set_outcome(document, path, sum));
        lemma_set_path_law(document, path, sum);
    } else if operand is Number {
        let current = match at_path(document, segments) {
            Some(Value::Number(n)) => n,
            _ => NumberModel::Integer(0),
        };
        let result = crate::odm::update::sum_outcome(
            current,
            operand->Number_0,
            path,
            add_reals,
        );
        if result is Ok {
            lemma_set_path_law(document, path, Value::Number(result->Ok_0));
        }
    }
}

/// What a field operator leaves does not hang on what was told before, and it tells what the
/// paths tell and that.
proof fn lemma_flag_is_carried<F: Fn(&Number, &Number) -> Option<Number>>(
    operator: Operator,
    document: Value,
    fields: Seq<(Seq<char>, Value)>,
    immutable: Seq<Seq<char>>,
    add_reals: F,
    from: int,
    changed: bool,
)
    ensures
        ({
            let plain = fields_outcome(operator, document, fields, immutable, add_reals, from, false);
            let (after, r) = fields_outcome(
                operator,
                document,
                fields,
                immutable,
                add_reals,
                from,
                changed,
            );
            &&& after == plain.0
            &&& r is Ok <==> plain.1 is Ok
            &&& r is Ok ==> r->Ok_0 == (changed || plain.1->Ok_0)
            &&& r is Err ==> r == plain.1
        }),
    decreases fields.len() - from,
{
    if 0 <= from < fields.len() && first_within(fields[from].0, immutable) is None {
        let (next, one) = step_outcome(
            operator,
            document,
            fields[from].0,
            fields[from].1,
            add_reals,
        );
        if one is Ok {
            lemma_flag_is_carried(
                operator,
                next,
                fields,
                immutable,
                add_reals,
                from + 1,
                changed || one->Ok_0,
            );
            lemma_flag_is_carried(
                operator,
                next,
                fields,
                immutable,
                add_reals,
                from + 1,
                one->Ok_0,
            );
        }
    }
}

/// The same holds of several operators.
proof fn lemma_flag_is_carried_on<F: Fn(&Number, &Number) -> Option<Number>>(
    document: Value,
    operations: Seq<(Seq<char>, Value)>,
    immutable: Seq<Seq<char>>,
    add_reals: F,
    from: int,
    changed: bool,
)
    ensures
        ({
            let plain = operations_outcome(document, operations, immutable, add_reals, from, false);
            let (after, r) = operations_outcome(
                document,
                operations,
                immutable,
                add_reals,
                from,
                changed,
            );
            &&& after == plain.0
            &&& r is Ok <==> plain.1 is Ok
            &&& r is Ok ==> r->Ok_0 == (changed || plain.1->Ok_0)
            &&& r is Err ==> r == plain.1
        }),
    decreases operations.len() - from,
{
    if 0 <= from < operations.len() && operator_named(operations[from].0) is Some
        && operations[from].1 is Object {
        let operator = operator_named(operations[from].0)->0;
        let fields = operations[from].1->Object_0;
        lemma_flag_is_carried(operator, document, fields, immutable, add_reals, 0, changed);
        let (next, one) = fields_outcome(
            operator,
            document,
            fields,
            immutable,
            add_reals,
            0,
            false,
        );
        if one is Ok {
            lemma_flag_is_carried_on(
                next,
                operations,
                immutable,
                add_reals,
                from + 1,
                changed || one->Ok_0,
            );
            lemma_flag_is_carried_on(
                next,
                operations,
                immutable,
                add_reals,
                from + 1,
                one->Ok_0,
            );
        }
    }
}

/// Applying an operator from a place on is applying it to the paths behind.
proof fn lemma_fields_behind<F: Fn(&Number, &Number) -> Option<Number>>(
    operator: Operator,
    document: Value,
    fields: Seq<(Seq<char>, Value)>,
    immutable: Seq<Seq<char>>,
    add_reals: F,
    from: int,
    changed: bool,
)
    requires
        1 <= from,
        fields.len() >= 1,
    ensures
        fields_outcome(operator, document, fields, immutable, add_reals, from, changed)
            == fields_outcome(
            operator,
            document,
            fields.skip(1),
            immutable,
            add_reals,
            from - 1,
            changed,
        ),
    decreases fields.len() - from,
{
    if from < fields.len() {
        assert(fields.skip(1)[from - 1] == fields[from]);
        let (next, one) = step_outcome(
            operator,
            document,
            fields[from].0,
            fields[from].1,
            add_reals,
        );
        if one is Ok {
            lemma_fields_behind(
                operator,
                next,
                fields,
                immutable,
                add_reals,
                from + 1,
                changed || one->Ok_0,
            );
        }
    }
}

/// Applying operators from a place on is applying those behind.
proof fn lemma_operations_behind<F: Fn(&Number, &Number) -> Option<Number>>(
    document: Value,
    operations: Seq<(Seq<char>, Value)>,
    immutable: Seq<Seq<char>>,
    add_reals: F,
    from: int,
    changed: bool,
)
    requires
        1 <= from,
        operations.len() >= 1,
    ensures
        operations_outcome(document, operations, immutable, add_reals, from, changed)
            == operations_outcome(
            document,
            operations.skip(1),
            immutable,
            add_reals,
            from - 1,
            changed,
        ),
    decreases operations.len() - from,
{
    if from < operations.len() {
        assert(operations.skip(1)[from - 1] == operations[from]);
        if operator_named(operations[from].0) is Some && operations[from].1 is Object {
            let (next, one) = fields_outcome(
                operator_named(operations[from].0)->0,
                document,
                operations[from].1->Object_0,
                immutable,
                add_reals,
                0,
                changed,
            );
            if one is Ok {
                lemma_operations_behind(
                    next,
                    operations,
                    immutable,
                    add_reals,
                    from + 1,
                    one->Ok_0,
                );
            }
        }
    }
}

/// An update of several operators does what the update of the first and then the update of the
/// others do. It tells whether either changed something, and fails where either fails.
pub proof fn lemma_operators_one_after_the_other<F: Fn(&Number, &Number) -> Option<Number>>(
    document: Value,
    operations: Seq<(Seq<char>, Value)>,
    immutable: Seq<Seq<char>>,
    add_reals: F,
)
    requires
        operations.len() > 0,
        forall|i: int|
            0 <= i < operations.len() ==> (#[trigger] operations[i]).0.len() > 0
                && operations[i].0[0] == '$',
    ensures
        ({
            let (between, first) = update_outcome(
                document,
                Value::Object(seq![operations[0]]),
                immutable,
                add_reals,
            );
            let (last, others) = update_outcome(
                between,
                Value::Object(operations.skip(1)),
                immutable,
                add_reals,
            );
            let (after, r) = update_outcome(
                document,
                Value::Object(operations),
                immutable,
                add_reals,
            );
            match (first, others) {
                (Ok(a), Ok(b)) => after == last && r == Ok::<bool, OdmFailure>(a || b),
                (Ok(_), Err(e)) => after == last && r == Err::<bool, OdmFailure>(e),
                (Err(e), _) => after == between && r == Err::<bool, OdmFailure>(e),
            }
        }),
{
    let one = seq![operations[0]];
    let rest = operations.skip(1);
    assert(one[0] == operations[0]);
    assert(is_operator(operations[0].0));
    assert(forall|i: int| 0 <= i < one.len() ==> is_operator((#[trigger] one[i]).0));
    assert forall|i: int| 0 <= i < rest.len() implies is_operator((#[trigger] rest[i]).0) by {
        assert(rest[i] == operations[i + 1]);
    }
    assert(forall|i: int|
        0 <= i < operations.len() ==> is_operator((#[trigger] operations[i]).0));
    reveal_with_fuel(operations_outcome, 2);
    if operator_named(operations[0].0) is Some && operations[0].1 is Object {
        let (between, first) = fields_outcome(
            operator_named(operations[0].0)->0,
            document,
            operations[0].1->Object_0,
            immutable,
            add_reals,
            0,
            false,
        );
        assert(update_outcome(document, Value::Object(one), immutable, add_reals) == (
            between,
            first,
        ));
        if first is Ok {
            lemma_operations_behind(
                between,
                operations,
                immutable,
                add_reals,
                1,
                first->Ok_0,
            );
            lemma_flag_is_carried_on(between, rest, immutable, add_reals, 0, first->Ok_0);
            assert(update_outcome(between, Value::Object(rest), immutable, add_reals)
                == operations_outcome(between, rest, immutable, add_reals, 0, false));
        }
    }
}

/// An operator on several paths does what the operator on the first and then on the others
/// does. It tells whether either changed something, and fails where either fails.
pub proof fn lemma_paths_one_after_the_other<F: Fn(&Number, &Number) -> Option<Number>>(
    document: Value,
    name: Seq<char>,
    fields: Seq<(Seq<char>, Value)>,
    immutable: Seq<Seq<char>>,
    add_reals: F,
)
    requires
        fields.len() > 0,
        name == "$set"@ || name == "$unset"@ || name == "$inc"@,
    ensures
        ({
            let (between, first) = update_outcome(
                document,
                applies(name, fields[0].0, fields[0].1),
                immutable,
                add_reals,
            );
            let (last, others) = update_outcome(
                between,
                Value::Object(seq![(name, Value::Object(fields.skip(1)))]),
                immutable,
                add_reals,
            );
            let (after, r) = update_outcome(
                document,
                Value::Object(seq![(name, Value::Object(fields))]),
                immutable,
                add_reals,
            );
            match (first, others) {
                (Ok(a), Ok(b)) => after == last && r == Ok::<bool, OdmFailure>(a || b),
                (Ok(_), Err(e)) => after == last && r == Err::<bool, OdmFailure>(e),
                (Err(e), _) => after == between && r == Err::<bool, OdmFailure>(e),
            }
        }),
{
    lemma_operator_names();
    let operator = operator_named(name)->0;
    lemma_applies(document, name, fields[0].0, fields[0].1, immutable, add_reals);
    lemma_one_operator(document, name, fields, immutable, add_reals);
    if first_within(fields[0].0, immutable) is None {
        let (between, first) = step_outcome(
            operator,
            document,
            fields[0].0,
            fields[0].1,
            add_reals,
        );
        if first is Ok {
            lemma_one_operator(between, name, fields.skip(1), immutable, add_reals);
            lemma_fields_behind(
                operator,
                between,
                fields,
                immutable,
                add_reals,
                1,
                first->Ok_0,
            );
            lemma_flag_is_carried(
                operator,
                between,
                fields.skip(1),
                immutable,
                add_reals,
                0,
                first->Ok_0,
            );
        }
    }
}

/// An update with one operator does what that does to its paths.
proof fn lemma_one_operator<F: Fn(&Number, &Number) -> Option<Number>>(
    document: Value,
    name: Seq<char>,
    fields: Seq<(Seq<char>, Value)>,
    immutable: Seq<Seq<char>>,
    add_reals: F,
)
    requires
        operator_named(name) is Some,
    ensures
        update_outcome(
            document,
            Value::Object(seq![(name, Value::Object(fields))]),
            immutable,
            add_reals,
        ) == fields_outcome(
            operator_named(name)->0,
            document,
            fields,
            immutable,
            add_reals,
            0,
            false,
        ),
{
    lemma_operator_names();
    let entries = seq![(name, Value::Object(fields))];
    assert(entries[0] == (name, Value::Object(fields)));
    assert(forall|i: int| 0 <= i < entries.len() ==> is_operator((#[trigger] entries[i]).0));
    reveal_with_fuel(operations_outcome, 2);
}

/// An update without operators changes nothing; one with a key that is no operator is refused
/// before anything changes, and so is what is no object.
pub proof fn lemma_refused_updates<F: Fn(&Number, &Number) -> Option<Number>>(
    document: Value,
    operations: Value,
    immutable: Seq<Seq<char>>,
    add_reals: F,
)
    ensures
        ({
            let (after, r) = update_outcome(document, operations, immutable, add_reals);
            &&& operations is Object && operations->Object_0.len() == 0 ==> after == document && r
                == Ok::<bool, OdmFailure>(false)
            &&& operations is Object && (exists|i: int|
                0 <= i < operations->Object_0.len() && ((#[trigger] operations->Object_0[i]).0.len()
                    == 0 || operations->Object_0[i].0[0] != '$')) ==> after == document && r is Err
            &&& !(operations is Object) ==> after == document && r is Err
            &&& r is Ok && operations is Object ==> forall|i: int|
                0 <= i < operations->Object_0.len() ==> (#[trigger] operations->Object_0[i]).1 is Object
                    && (operations->Object_0[i].0 == "$set"@ || operations->Object_0[i].0
                    == "$unset"@ || operations->Object_0[i].0 == "$inc"@)
        }),
{
    if operations is Object {
        let entries = operations->Object_0;
        if exists|i: int|
            0 <= i < entries.len() && ((#[trigger] entries[i]).0.len() == 0 || entries[i].0[0]
                != '$') {
            let i = choose|i: int|
                0 <= i < entries.len() && ((#[trigger] entries[i]).0.len() == 0 || entries[i].0[0]
                    != '$');
            assert(!is_operator(entries[i].0));
        } else {
            lemma_known_operators(document, entries, immutable, add_reals, 0, false);
        }
    }
}

/// Operators that succeed are known and come with paths.
proof fn lemma_known_operators<F: Fn(&Number, &Number) -> Option<Number>>(
    document: Value,
    operations: Seq<(Seq<char>, Value)>,
    immutable: Seq<Seq<char>>,
    add_reals: F,
    from: int,
    changed: bool,
)
    requires
        0 <= from,
    ensures
        operations_outcome(document, operations, immutable, add_reals, from, changed).1 is Ok
            ==> forall|i: int|
            from <= i < operations.len() ==> (#[trigger] operations[i]).1 is Object && (
            operations[i].0 == "$set"@ || operations[i].0 == "$unset"@ || operations[i].0
                == "$inc"@),
    decreases operations.len() - from,
{
    if from < operations.len() && operator_named(operations[from].0) is Some
        && operations[from].1 is Object {
        let (next, one) = fields_outcome(
            operator_named(operations[from].0)->0,
            document,
            operations[from].1->Object_0,
            immutable,
            add_reals,
            0,
            changed,
        );
        if one is Ok {
            lemma_known_operators(next, operations, immutable, add_reals, from + 1, one->Ok_0);
        }
    }
}

/// Whether an operator did to what a path leads to what it is for.
pub open spec fn did(
    name: Seq<char>,
    before: Option<Value>,
    operand: Value,
    after: Option<Value>,
) -> bool {
    &&& name == "$set"@ ==> after == Some(operand)
    &&& name == "$unset"@ ==> after is None
    &&& name == "$inc"@ ==> operand is Number && after is Some && after->0 is Number && (before
        is Some ==> before->0 is Number)
    &&& name == "$inc"@ && operand->Number_0 is Integer && (before is Some
        ==> before->0->Number_0 is Integer) ==> after == Some(
        Value::Number(
            NumberModel::Integer(
                operand->Number_0->Integer_0 + match before {
                    Some(value) => value->Number_0->Integer_0,
                    None => 0,
                },
            ),
        ),
    )
}

/// A step of an operator that succeeds does what it is for and changes nothing else.
proof fn lemma_step_did<F: Fn(&Number, &Number) -> Option<Number>>(
    name: Seq<char>,
    document: Value,
    path: Seq<char>,
    operand: Value,
    add_reals: F,
)
    requires
        operator_named(name) is Some,
        ordered(document),
        ordered(operand),
        step_outcome(operator_named(name)->0, document, path, operand, add_reals).1 is Ok,
    ensures
        ({
            let after = step_outcome(
                operator_named(name)->0,
                document,
                path,
                operand,
                add_reals,
            ).0;
            &&& ordered(after)
            &&& changes_only(document, path, after)
            &&& did(
                name,
                at_path(document, pieces(path, '.')),
                operand,
                at_path(after, pieces(path, '.')),
            )
        }),
{
    lemma_operator_names();
    let segments = pieces(path, '.');
    crate::text::lemma_pieces_nonempty(path, '.');
    match operator_named(name)->0 {
        Operator::Assign => {
            lemma_set_path_law(document, path, operand);
            lemma_set_ordered(document, segments, operand);
        },
        Operator::Remove => {
            lemma_unset_path_law(document, path);
            lemma_unset_ordered(document, segments);
        },
        Operator::Increment => {
            let current = match at_path(document, segments) {
                Some(Value::Number(n)) => n,
                _ => NumberModel::Integer(0),
            };
            let sum = Value::Number(
                crate::odm::update::sum_outcome(
                    current,
                    operand->Number_0,
                    path,
                    add_reals,
                )->Ok_0,
            );
            lemma_set_path_law(document, path, sum);
            lemma_set_ordered(document, segments, sum);
        },
    }
}

/// Whether paths part pairwise.
pub open spec fn all_apart(fields: Seq<(Seq<char>, Value)>) -> bool {
    forall|i: int, j: int|
        0 <= i < fields.len() && 0 <= j < fields.len() && i != j ==> apart(
            pieces((#[trigger] fields[i]).0, '.'),
            pieces((#[trigger] fields[j]).0, '.'),
        )
}

/// Whether a path parts from each of others.
pub open spec fn apart_from_all(path: Seq<char>, fields: Seq<(Seq<char>, Value)>) -> bool {
    forall|i: int|
        0 <= i < fields.len() ==> apart(
            pieces((#[trigger] fields[i]).0, '.'),
            pieces(path, '.'),
        )
}

/// An operator that succeeds on paths that part did to each of them, from `from` on, what it is
/// for, and changed nothing else.
proof fn lemma_fields_did<F: Fn(&Number, &Number) -> Option<Number>>(
    name: Seq<char>,
    document: Value,
    fields: Seq<(Seq<char>, Value)>,
    immutable: Seq<Seq<char>>,
    add_reals: F,
    from: int,
    changed: bool,
)
    requires
        operator_named(name) is Some,
        0 <= from,
        ordered(document),
        ordered(Value::Object(fields)),
        all_apart(fields),
        fields_outcome(
            operator_named(name)->0,
            document,
            fields,
            immutable,
            add_reals,
            from,
            changed,
        ).1 is Ok,
    ensures
        ({
            let after = fields_outcome(
                operator_named(name)->0,
                document,
                fields,
                immutable,
                add_reals,
                from,
                changed,
            ).0;
            &&& ordered(after)
            &&& forall|i: int|
                from <= i < fields.len() ==> did(
                    name,
                    at_path(document, pieces((#[trigger] fields[i]).0, '.')),
                    fields[i].1,
                    at_path(after, pieces(fields[i].0, '.')),
                )
            &&& forall|other: Seq<char>|
                (forall|i: int|
                    from <= i < fields.len() ==> apart(
                        pieces((#[trigger] fields[i]).0, '.'),
                        pieces(other, '.'),
                    )) ==> #[trigger] at_path(after, pieces(other, '.')) == at_path(
                    document,
                    pieces(other, '.'),
                )
        }),
    decreases fields.len() - from,
{
    if from < fields.len() {
        let operator = operator_named(name)->0;
        let (path, operand) = fields[from];
        assert(ordered(fields[from].1));
        lemma_step_did(name, document, path, operand, add_reals);
        let (next, one) = step_outcome(operator, document, path, operand, add_reals);
        lemma_fields_did(
            name,
            next,
            fields,
            immutable,
            add_reals,
            from + 1,
            changed || one->Ok_0,
        );
        let after = fields_outcome(
            operator,
            document,
            fields,
            immutable,
            add_reals,
            from,
            changed,
        ).0;
        assert(after == fields_outcome(
            operator,
            next,
            fields,
            immutable,
            add_reals,
            from + 1,
            changed || one->Ok_0,
        ).0);
        assert(at_path(after, pieces(path, '.')) == at_path(next, pieces(path, '.')));
        assert forall|i: int| from <= i < fields.len() implies did(
            name,
            at_path(document, pieces((#[trigger] fields[i]).0, '.')),
            fields[i].1,
            at_path(after, pieces(fields[i].0, '.')),
        ) by {
            if i > from {
                assert(apart(pieces(fields[from].0, '.'), pieces(fields[i].0, '.')));
                assert(at_path(next, pieces(fields[i].0, '.')) == at_path(
                    document,
                    pieces(fields[i].0, '.'),
                ));
            }
        }
        assert forall|other: Seq<char>|
            (forall|i: int|
                from <= i < fields.len() ==> apart(
                    pieces((#[trigger] fields[i]).0, '.'),
                    pieces(other, '.'),
                )) implies #[trigger] at_path(after, pieces(other, '.')) == at_path(
            document,
            pieces(other, '.'),
        ) by {
            assert(apart(pieces(fields[from].0, '.'), pieces(other, '.')));
            assert(at_path(next, pieces(other, '.')) == at_path(document, pieces(other, '.')));
        }
    }
}

/// The paths of the operators from `from` on, with their operands.
pub open spec fn all_paths(operations: Seq<(Seq<char>, Value)>, from: int) -> Seq<
    (Seq<char>, Value),
>
    decreases operations.len() - from,
{
    if from < 0 || from >= operations.len() {
        Seq::empty()
    } else {
        operations[from].1->Object_0 + all_paths(operations, from + 1)
    }
}

/// The paths of an operator are among all, behind one another.
proof fn lemma_own_paths(operations: Seq<(Seq<char>, Value)>, from: int, at: int, i: int)
    requires
        0 <= from <= at < operations.len(),
        0 <= i < operations[at].1->Object_0.len(),
    ensures
        all_paths(operations, from).contains(operations[at].1->Object_0[i]),
    decreases at - from,
{
    let own = operations[from].1->Object_0;
    let rest = all_paths(operations, from + 1);
    if at == from {
        assert((own + rest)[i] == own[i]);
    } else {
        lemma_own_paths(operations, from + 1, at, i);
        let k = choose|k: int| 0 <= k < rest.len() && rest[k] == operations[at].1->Object_0[i];
        assert((own + rest)[own.len() + k] == rest[k]);
    }
}

/// Operators that succeed on paths that all part did to each of them, from `from` on, what they
/// are for, and changed nothing else.
proof fn lemma_operations_did<F: Fn(&Number, &Number) -> Option<Number>>(
    document: Value,
    operations: Seq<(Seq<char>, Value)>,
    immutable: Seq<Seq<char>>,
    add_reals: F,
    from: int,
    changed: bool,
)
    requires
        0 <= from,
        ordered(document),
        ordered(Value::Object(operations)),
        all_apart(all_paths(operations, from)),
        operations_outcome(document, operations, immutable, add_reals, from, changed).1 is Ok,
    ensures
        ({
            let after = operations_outcome(
                document,
                operations,
                immutable,
                add_reals,
                from,
                changed,
            ).0;
            &&& forall|k: int, i: int|
                from <= k < operations.len() && 0 <= i < operations[k].1->Object_0.len() ==> did(
                    operations[k].0,
                    at_path(
                        document,
                        pieces((#[trigger] operations[k].1->Object_0[i]).0, '.'),
                    ),
                    operations[k].1->Object_0[i].1,
                    at_path(after, pieces(operations[k].1->Object_0[i].0, '.')),
                )
            &&& forall|other: Seq<char>|
                apart_from_all(other, all_paths(operations, from)) ==> #[trigger] at_path(
                    after,
                    pieces(other, '.'),
                ) == at_path(document, pieces(other, '.'))
        }),
    decreases operations.len() - from,
{
    if from < operations.len() {
        let name = operations[from].0;
        let fields = operations[from].1->Object_0;
        let rest = all_paths(operations, from + 1);
        let all = all_paths(operations, from);
        assert(all == fields + rest);
        assert(ordered(operations[from].1));
        assert forall|i: int, j: int|
            0 <= i < fields.len() && 0 <= j < fields.len() && i != j implies apart(
            pieces((#[trigger] fields[i]).0, '.'),
            pieces((#[trigger] fields[j]).0, '.'),
        ) by {
            assert(all[i] == fields[i] && all[j] == fields[j]);
        }
        assert forall|i: int, j: int|
            0 <= i < rest.len() && 0 <= j < rest.len() && i != j implies apart(
            pieces((#[trigger] rest[i]).0, '.'),
            pieces((#[trigger] rest[j]).0, '.'),
        ) by {
            assert(all[fields.len() + i] == rest[i] && all[fields.len() + j] == rest[j]);
        }
        let (next, one) = fields_outcome(
            operator_named(name)->0,
            document,
            fields,
            immutable,
            add_reals,
            0,
            changed,
        );
        lemma_fields_did(name, document, fields, immutable, add_reals, 0, changed);
        lemma_operations_did(next, operations, immutable, add_reals, from + 1, one->Ok_0);
        let after = operations_outcome(
            document,
            operations,
            immutable,
            add_reals,
            from,
            changed,
        ).0;
        assert(after == operations_outcome(
            next,
            operations,
            immutable,
            add_reals,
            from + 1,
            one->Ok_0,
        ).0);
        assert forall|k: int, i: int|
            from <= k < operations.len() && 0 <= i < operations[k].1->Object_0.len() implies did(
            operations[k].0,
            at_path(document, pieces((#[trigger] operations[k].1->Object_0[i]).0, '.')),
            operations[k].1->Object_0[i].1,
            at_path(after, pieces(operations[k].1->Object_0[i].0, '.')),
        ) by {
            let path = operations[k].1->Object_0[i].0;
            if k == from {
                assert(fields[i] == operations[k].1->Object_0[i]);
                assert forall|j: int| 0 <= j < rest.len() implies apart(
                    pieces((#[trigger] rest[j]).0, '.'),
                    pieces(path, '.'),
                ) by {
                    assert(all[fields.len() + j] == rest[j] && all[i] == fields[i]);
                }
                assert(apart_from_all(path, rest));
                assert(at_path(after, pieces(path, '.')) == at_path(next, pieces(path, '.')));
            } else {
                lemma_own_paths(operations, from + 1, k, i);
                let at = choose|at: int|
                    0 <= at < rest.len() && rest[at] == operations[k].1->Object_0[i];
                assert forall|j: int| 0 <= j < fields.len() implies apart(
                    pieces((#[trigger] fields[j]).0, '.'),
                    pieces(path, '.'),
                ) by {
                    assert(all[fields.len() + at] == rest[at] && all[j] == fields[j]);
                }
                assert(at_path(next, pieces(path, '.')) == at_path(document, pieces(path, '.')));
            }
        }
        assert forall|other: Seq<char>|
            apart_from_all(other, all) implies #[trigger] at_path(after, pieces(other, '.'))
            == at_path(document, pieces(other, '.')) by {
            assert forall|j: int| 0 <= j < fields.len() implies apart(
                pieces((#[trigger] fields[j]).0, '.'),
                pieces(other, '.'),
            ) by {
                assert(all[j] == fields[j]);
            }
            assert forall|j: int| 0 <= j < rest.len() implies apart(
                pieces((#[trigger] rest[j]).0, '.'),
                pieces(other, '.'),
            ) by {
                assert(all[fields.len() + j] == rest[j]);
            }
            assert(apart_from_all(other, rest));
            assert(at_path(next, pieces(other, '.')) == at_path(document, pieces(other, '.')));
        }
    }
}

/// An update that succeeds, with paths that all part, did every operator on every path: each
/// path under `$set` leads to its operand, each under `$unset` nowhere, and each under `$inc` to
/// the sum. Every path that parts from all of these leads to what it did.
pub proof fn lemma_update_does_everything<F: Fn(&Number, &Number) -> Option<Number>>(
    document: Value,
    operations: Seq<(Seq<char>, Value)>,
    immutable: Seq<Seq<char>>,
    add_reals: F,
)
    requires
        ordered(document),
        ordered(Value::Object(operations)),
        all_apart(all_paths(operations, 0)),
        update_outcome(document, Value::Object(operations), immutable, add_reals).1 is Ok,
    ensures
        ({
            let after = update_outcome(
                document,
                Value::Object(operations),
                immutable,
                add_reals,
            ).0;
            &&& forall|k: int, i: int|
                0 <= k < operations.len() && 0 <= i < operations[k].1->Object_0.len() ==> did(
                    operations[k].0,
                    at_path(
                        document,
                        pieces((#[trigger] operations[k].1->Object_0[i]).0, '.'),
                    ),
                    operations[k].1->Object_0[i].1,
                    at_path(after, pieces(operations[k].1->Object_0[i].0, '.')),
                )
            &&& forall|other: Seq<char>|
                apart_from_all(other, all_paths(operations, 0)) ==> #[trigger] at_path(
                    after,
                    pieces(other, '.'),
                ) == at_path(document, pieces(other, '.'))
        }),
{
    if operations.len() > 0 {
        lemma_operations_did(document, operations, immutable, add_reals, 0, false);
    }
}

/// An update that `apply_update` carries out, with paths that all part, did every operator on
/// every path and changed nothing that a path which parts from all of these leads to.
pub proof fn lemma_apply_update<F: Fn(&Number, &Number) -> Option<Number>>(
    document: &mut Json,
    operations: &Json,
    immutable_fields: &Vec<String>,
    add_reals: &F,
    r: Result<bool, OdmError>,
)
    requires
        call_ensures(
            apply_update::<F>,
            (document, operations, immutable_fields, add_reals),
            r,
        ),
        r is Ok,
        ordered(old(document)@),
        ordered(operations@),
        all_apart(all_paths(operations@->Object_0, 0)),
    ensures
        operations@ is Object,
        forall|k: int, i: int|
            0 <= k < operations@->Object_0.len() && 0 <= i
                < operations@->Object_0[k].1->Object_0.len() ==> did(
                operations@->Object_0[k].0,
                at_path(
                    old(document)@,
                    pieces((#[trigger] operations@->Object_0[k].1->Object_0[i]).0, '.'),
                ),
                operations@->Object_0[k].1->Object_0[i].1,
                at_path(
                    final(document)@,
                    pieces(operations@->Object_0[k].1->Object_0[i].0, '.'),
                ),
            ),
        forall|other: Seq<char>|
            apart_from_all(other, all_paths(operations@->Object_0, 0)) ==> #[trigger] at_path(
                final(document)@,
                pieces(other, '.'),
            ) == at_path(old(document)@, pieces(other, '.')),
{
    if operations@ is Object {
        lemma_update_does_everything(
            old(document)@,
            operations@->Object_0,
            crate::text::texts(immutable_fields@),
            *add_reals,
        );
    }
}

} // verus!
