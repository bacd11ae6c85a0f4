//! What queries say of documents, operator by operator.
use crate::entries::lookup;
use crate::json::{json_eq, Json, Value};
use crate::number::NumberModel;
use crate::odm::error::{OdmError, OdmFailure};
use crate::odm::query::{
    at_path, condition_outcome, entries_outcome, has_operator, is_operator, matches_query,
    operator_outcome, operators_outcome, query_outcome, value_at_path,
};
use crate::text::{pieces, text_lt};
use vstd::arithmetic::power2::pow2;
use vstd::prelude::*;

verus! {

/// The query that asks one operator of one field.
pub open spec fn asks(key: Seq<char>, operator: Seq<char>, operand: Value) -> Value {
    Value::Object(seq![(key, Value::Object(seq![(operator, operand)]))])
}

/// Whether a key does not begin as operators do.
pub open spec fn names_field(key: Seq<char>) -> bool {
    key.len() == 0 || key[0] != '$'
}

/// A query that asks something of one field says what that says of the field's value.
proof fn lemma_asked(document: Value, key: Seq<char>, condition: Value)
    requires
        names_field(key),
    ensures
        query_outcome(document, Value::Object(seq![(key, condition)])) == condition_outcome(
            at_path(document, pieces(key, '.')),
            condition,
        ),
{
    reveal_strlit("$and");
    reveal_strlit("$or");
    reveal_strlit("$nor");
    reveal_with_fuel(entries_outcome, 2);
    let entries = seq![(key, condition)];
    assert(entries[0] == (key, condition));
}

/// A query that asks one operator of one field says what that says of the field's value.
proof fn lemma_asks(document: Value, key: Seq<char>, operator: Seq<char>, operand: Value)
    requires
        names_field(key),
        operator.len() > 0,
        operator[0] == '$',
    ensures
        query_outcome(document, asks(key, operator, operand)) == operator_outcome(
            at_path(document, pieces(key, '.')),
            operator,
            operand,
        ),
{
    let operators = seq![(operator, operand)];
    lemma_asked(document, key, Value::Object(operators));
    assert(operators[0] == (operator, operand));
    assert(is_operator(operators[0].0));
    assert(has_operator(operators));
    reveal_with_fuel(operators_outcome, 2);
}

/// The names of the operators.
proof fn lemma_names()
    ensures
        "$eq"@ == seq!['$', 'e', 'q'],
        "$ne"@ == seq!['$', 'n', 'e'],
        "$gt"@ == seq!['$', 'g', 't'],
        "$gte"@ == seq!['$', 'g', 't', 'e'],
        "$lt"@ == seq!['$', 'l', 't'],
        "$lte"@ == seq!['$', 'l', 't', 'e'],
        "$in"@ == seq!['$', 'i', 'n'],
        "$nin"@ == seq!['$', 'n', 'i', 'n'],
        "$exists"@ == seq!['$', 'e', 'x', 'i', 's', 't', 's'],
        "$size"@ == seq!['$', 's', 'i', 'z', 'e'],
{
    reveal_strlit("$eq");
    reveal_strlit("$ne");
    reveal_strlit("$gt");
    reveal_strlit("$gte");
    reveal_strlit("$lt");
    reveal_strlit("$lte");
    reveal_strlit("$in");
    reveal_strlit("$nin");
    reveal_strlit("$exists");
    reveal_strlit("$size");
    assert("$eq"@ =~= seq!['$', 'e', 'q']);
    assert("$ne"@ =~= seq!['$', 'n', 'e']);
    assert("$gt"@ =~= seq!['$', 'g', 't']);
    assert("$gte"@ =~= seq!['$', 'g', 't', 'e']);
    assert("$lt"@ =~= seq!['$', 'l', 't']);
    assert("$lte"@ =~= seq!['$', 'l', 't', 'e']);
    assert("$in"@ =~= seq!['$', 'i', 'n']);
    assert("$nin"@ =~= seq!['$', 'n', 'i', 'n']);
    assert("$exists"@ =~= seq!['$', 'e', 'x', 'i', 's', 't', 's']);
    assert("$size"@ =~= seq!['$', 's', 'i', 'z', 'e']);
}

/// The names of the operators differ.
proof fn lemma_names_differ()
    ensures
        "$eq"@ != "$ne"@ && "$eq"@ != "$gt"@ && "$eq"@ != "$lt"@ && "$eq"@ != "$in"@,
        "$ne"@ != "$gt"@ && "$ne"@ != "$lt"@ && "$ne"@ != "$in"@,
        "$gt"@ != "$lt"@ && "$gt"@ != "$in"@ && "$lt"@ != "$in"@,
        "$gte"@ != "$lte"@ && "$gte"@ != "$nin"@ && "$lte"@ != "$nin"@,
        "$eq"@.len() == 3 && "$ne"@.len() == 3 && "$gt"@.len() == 3 && "$lt"@.len() == 3
            && "$in"@.len() == 3,
        "$gte"@.len() == 4 && "$lte"@.len() == 4 && "$nin"@.len() == 4,
        "$exists"@.len() == 7 && "$size"@.len() == 5,
        "$eq"@[0] == '$' && "$ne"@[0] == '$' && "$gt"@[0] == '$' && "$lt"@[0] == '$'
            && "$in"@[0] == '$',
        "$gte"@[0] == '$' && "$lte"@[0] == '$' && "$nin"@[0] == '$' && "$exists"@[0] == '$'
            && "$size"@[0] == '$',
{
    lemma_names();
    assert("$eq"@[1] == 'e' && "$ne"@[1] == 'n' && "$gt"@[1] == 'g' && "$lt"@[1] == 'l');
    assert("$in"@[1] == 'i' && "$gte"@[1] == 'g' && "$lte"@[1] == 'l' && "$nin"@[1] == 'n');
}

/// `$eq` holds of a field exactly where its value equals the operand, or is a list with an
/// item that does; `$ne` holds exactly where that is not so. A condition that holds no
/// operator asks the same as `$eq`.
pub proof fn lemma_equality_law(document: Value, key: Seq<char>, operand: Value)
    requires
        names_field(key),
    ensures
        ({
            let value = at_path(document, pieces(key, '.'));
            let equal = value is Some && (json_eq(value->0, operand) || (value->0 is List
                && exists|i: int|
                0 <= i < value->0->List_0.len() && json_eq(
                    #[trigger] value->0->List_0[i],
                    operand,
                )));
            &&& query_outcome(document, asks(key, "$eq"@, operand)) == Ok::<bool, OdmFailure>(equal)
            &&& query_outcome(document, asks(key, "$ne"@, operand)) == Ok::<bool, OdmFailure>(
                !equal,
            )
            &&& !(operand is Object && exists|i: int|
                0 <= i < operand->Object_0.len() && !names_field(
                    (#[trigger] operand->Object_0[i]).0,
                )) ==> query_outcome(document, Value::Object(seq![(key, operand)])) == Ok::<
                bool,
                OdmFailure,
            >(equal)
        }),
{
    lemma_names_differ();
    lemma_asks(document, key, "$eq"@, operand);
    lemma_asks(document, key, "$ne"@, operand);
    lemma_asked(document, key, operand);
}

/// `$in` holds of a field exactly where `$eq` does with one of the items; `$nin` exactly where
/// that is not so.
pub proof fn lemma_membership_law(document: Value, key: Seq<char>, items: Seq<Value>)
    requires
        names_field(key),
    ensures
        ({
            let some = exists|i: int|
                0 <= i < items.len() && query_outcome(
                    document,
                    asks(key, "$eq"@, #[trigger] items[i]),
                ) == Ok::<bool, OdmFailure>(true);
            &&& query_outcome(document, asks(key, "$in"@, Value::List(items))) == Ok::<
                bool,
                OdmFailure,
            >(some)
            &&& query_outcome(document, asks(key, "$nin"@, Value::List(items))) == Ok::<
                bool,
                OdmFailure,
            >(!some)
        }),
{
    lemma_names_differ();
    let value = at_path(document, pieces(key, '.'));
    lemma_asks(document, key, "$in"@, Value::List(items));
    lemma_asks(document, key, "$nin"@, Value::List(items));
    assert forall|i: int| 0 <= i < items.len() implies query_outcome(
        document,
        asks(key, "$eq"@, #[trigger] items[i]),
    ) == operator_outcome(value, "$eq"@, items[i]) by {
        lemma_asks(document, key, "$eq"@, items[i]);
    }
    let some = exists|i: int|
        0 <= i < items.len() && query_outcome(document, asks(key, "$eq"@, #[trigger] items[i]))
            == Ok::<bool, OdmFailure>(true);
    if some {
        let i = choose|i: int|
            0 <= i < items.len() && query_outcome(document, asks(key, "$eq"@, #[trigger] items[i]))
                == Ok::<bool, OdmFailure>(true);
        assert(operator_outcome(value, "$eq"@, items[i]) == Ok::<bool, OdmFailure>(true));
    } else if value is Some && crate::odm::query::among(value->0, items) {
        let i = choose|i: int|
            0 <= i < items.len() && crate::odm::query::contains_or_equals(
                value->0,
                #[trigger] items[i],
            );
        assert(query_outcome(document, asks(key, "$eq"@, items[i])) == operator_outcome(
            value,
            "$eq"@,
            items[i],
        ));
    }
}

/// `$exists` holds of a field exactly where it is there as asked; `$size` exactly where its
/// value is a list of so many items.
pub proof fn lemma_presence_law(document: Value, key: Seq<char>, expected: bool, size: int)
    requires
        names_field(key),
        size >= 0,
    ensures
        ({
            let value = at_path(document, pieces(key, '.'));
            &&& query_outcome(document, asks(key, "$exists"@, Value::Bool(expected))) == Ok::<
                bool,
                OdmFailure,
            >(expected == (value is Some))
            &&& query_outcome(
                document,
                asks(key, "$size"@, Value::Number(NumberModel::Integer(size))),
            ) == Ok::<bool, OdmFailure>(
                value is Some && value->0 is List && value->0->List_0.len() == size,
            )
        }),
{
    lemma_names_differ();
    lemma_asks(document, key, "$exists"@, Value::Bool(expected));
    lemma_asks(document, key, "$size"@, Value::Number(NumberModel::Integer(size)));
}

/// Whether the order operators say of a field that its value stands to the operand as told;
/// where it stands to it in no way, none of them holds.
pub open spec fn stands(
    document: Value,
    key: Seq<char>,
    operand: Value,
    below: bool,
    same: bool,
    above: bool,
) -> bool {
    &&& query_outcome(document, asks(key, "$lt"@, operand)) == Ok::<bool, OdmFailure>(below)
    &&& query_outcome(document, asks(key, "$lte"@, operand)) == Ok::<bool, OdmFailure>(
        below || same,
    )
    &&& query_outcome(document, asks(key, "$gt"@, operand)) == Ok::<bool, OdmFailure>(above)
    &&& query_outcome(document, asks(key, "$gte"@, operand)) == Ok::<bool, OdmFailure>(
        above || same,
    )
}

/// The order operators go by how the value stands to the operand.
proof fn lemma_stands(document: Value, key: Seq<char>, operand: Value)
    requires
        names_field(key),
    ensures
        ({
            let relation = crate::odm::query::value_relation(
                at_path(document, pieces(key, '.')),
                operand,
            );
            stands(
                document,
                key,
                operand,
                relation == Some(crate::text::Relation::Before),
                relation == Some(crate::text::Relation::Same),
                relation == Some(crate::text::Relation::After),
            )
        }),
{
    lemma_names_differ();
    lemma_asks(document, key, "$lt"@, operand);
    lemma_asks(document, key, "$lte"@, operand);
    lemma_asks(document, key, "$gt"@, operand);
    lemma_asks(document, key, "$gte"@, operand);
}

/// Integers of a magnitude below two to the power of fifty-three are compared by value. Larger
/// ones are compared as the doubles nearest to them, which never inverts their order.
pub proof fn lemma_integers_are_compared(document: Value, key: Seq<char>, x: int, y: int)
    requires
        names_field(key),
        at_path(document, pieces(key, '.')) == Some(Value::Number(NumberModel::Integer(x))),
    ensures
        ({
            let operand = Value::Number(NumberModel::Integer(y));
            let limit: int = 0x20_0000_0000_0000;
            &&& -limit < x < limit && -limit < y < limit ==> stands(
                document,
                key,
                operand,
                x < y,
                x == y,
                x > y,
            )
            &&& x == y ==> stands(document, key, operand, false, true, false)
            &&& x < y ==> stands(document, key, operand, true, false, false) || stands(
                document,
                key,
                operand,
                false,
                true,
                false,
            )
            &&& x > y ==> stands(document, key, operand, false, false, true) || stands(
                document,
                key,
                operand,
                false,
                true,
                false,
            )
        }),
{
    lemma_stands(document, key, Value::Number(NumberModel::Integer(y)));
    if x < y {
        crate::number::lemma_integer_order(x, y);
    } else if y < x {
        crate::number::lemma_integer_order(y, x);
    }
}

/// Whether bits are those of a double without a sign, up to infinity.
pub open spec fn is_positive(bits: u64) -> bool {
    bits <= 0x7ff0_0000_0000_0000
}

/// Whether bits are those of a double with a sign, down to negative infinity.
pub open spec fn is_negative(bits: u64) -> bool {
    0x8000_0000_0000_0000 <= bits <= 0xfff0_0000_0000_0000
}

/// Doubles are compared by value: positive ones in the order of their bits, negative ones the
/// other way round, zeros as equal; what is not a number stands to nothing.
pub proof fn lemma_doubles_are_compared(
    document: Value,
    key: Seq<char>,
    a: u64,
    b: u64,
    left: Seq<char>,
    right: Seq<char>,
)
    requires
        names_field(key),
        at_path(document, pieces(key, '.')) == Some(
            Value::Number(NumberModel::Real { bits: a, text: left }),
        ),
    ensures
        ({
            let operand = Value::Number(NumberModel::Real { bits: b, text: right });
            &&& is_positive(a) && is_positive(b) ==> stands(
                document,
                key,
                operand,
                a < b,
                a == b,
                a > b,
            )
            &&& is_negative(a) && is_negative(b) ==> stands(
                document,
                key,
                operand,
                a > b,
                a == b,
                a < b,
            )
            &&& is_negative(a) && is_positive(b) ==> stands(
                document,
                key,
                operand,
                a != 0x8000_0000_0000_0000 || b != 0,
                a == 0x8000_0000_0000_0000 && b == 0,
                false,
            )
            &&& is_positive(a) && is_negative(b) ==> stands(
                document,
                key,
                operand,
                false,
                a == 0 && b == 0x8000_0000_0000_0000,
                a != 0 || b != 0x8000_0000_0000_0000,
            )
            &&& !(is_positive(a) || is_negative(a)) || !(is_positive(b) || is_negative(b))
                ==> stands(document, key, operand, false, false, false)
        }),
{
    lemma_stands(document, key, Value::Number(NumberModel::Real { bits: b, text: right }));
    crate::number::lemma_real_rank(a);
    crate::number::lemma_real_rank(b);
}

/// An integer and a double of the same value are equal in order: of an integer between a power
/// of two and the next, the double holds the power in its exponent and what is over it in its
/// fraction.
pub proof fn lemma_integer_is_its_double(
    document: Value,
    key: Seq<char>,
    n: nat,
    power: nat,
    bits: u64,
    text: Seq<char>,
)
    requires
        names_field(key),
        at_path(document, pieces(key, '.')) == Some(Value::Number(NumberModel::Integer(n as int))),
        power <= 52,
        pow2(power) <= n < 2 * pow2(power),
        bits == (power + 1023) * 0x10_0000_0000_0000 + (n - pow2(power)) * pow2(
            (52 - power) as nat,
        ),
    ensures
        stands(
            document,
            key,
            Value::Number(NumberModel::Real { bits, text }),
            false,
            true,
            false,
        ),
{
    lemma_stands(document, key, Value::Number(NumberModel::Real { bits, text }));
    crate::number::lemma_exact_rank(n, power);
    crate::number::lemma_real_rank(bits);
}

/// Texts are compared by code point.
pub proof fn lemma_texts_are_compared(
    document: Value,
    key: Seq<char>,
    s: Seq<char>,
    t: Seq<char>,
)
    requires
        names_field(key),
        at_path(document, pieces(key, '.')) == Some(Value::Text(s)),
    ensures
        stands(document, key, Value::Text(t), text_lt(s, t), s == t, text_lt(t, s)),
{
    lemma_stands(document, key, Value::Text(t));
    crate::text::lemma_text_lt_total(s, t);
    crate::text::lemma_text_lt_irreflexive(s);
    if text_lt(s, t) && text_lt(t, s) {
        crate::text::lemma_text_lt_transitive(s, t, s);
    }
}

/// Nothing else is compared: a field that is not there, and values that are not both numbers or
/// both texts.
pub proof fn lemma_others_are_not_compared(document: Value, key: Seq<char>, operand: Value)
    requires
        names_field(key),
        ({
            let value = at_path(document, pieces(key, '.'));
            value is Some ==> !(value->0 is Number && operand is Number) && !(value->0 is Text
                && operand is Text)
        }),
    ensures
        stands(document, key, operand, false, false, false),
{
    lemma_stands(document, key, operand);
}

/// The operators are refused with operands that mean nothing to them, and so is whatever else
/// looks like an operator.
pub proof fn lemma_refused_operators(
    document: Value,
    key: Seq<char>,
    operator: Seq<char>,
    operand: Value,
)
    requires
        names_field(key),
        !names_field(operator),
    ensures
        query_outcome(document, asks(key, operator, operand)) is Err <==> {
            ||| (operator == "$in"@ || operator == "$nin"@) && !(operand is List)
            ||| operator == "$exists"@ && !(operand is Bool)
            ||| operator == "$size"@ && !(operand is Number && operand->Number_0 is Integer
                && operand->Number_0->Integer_0 >= 0)
            ||| operator != "$eq"@ && operator != "$ne"@ && operator != "$gt"@ && operator
                != "$gte"@ && operator != "$lt"@ && operator != "$lte"@ && operator != "$in"@
                && operator != "$nin"@ && operator != "$exists"@ && operator != "$size"@
        },
{
    lemma_names_differ();
    lemma_asks(document, key, operator, operand);
}

/// Operators from `from` on hold together where each does.
proof fn lemma_operators_together(
    actual: Option<Value>,
    operators: Seq<(Seq<char>, Value)>,
    from: int,
)
    requires
        0 <= from,
    ensures
        operators_outcome(actual, operators, from) == Ok::<bool, OdmFailure>(true) <==> forall|
            i: int,
        |
            from <= i < operators.len() ==> operator_outcome(
                actual,
                (#[trigger] operators[i]).0,
                operators[i].1,
            ) == Ok::<bool, OdmFailure>(true),
        (forall|i: int|
            from <= i < operators.len() ==> operator_outcome(
                actual,
                (#[trigger] operators[i]).0,
                operators[i].1,
            ) is Ok) ==> operators_outcome(actual, operators, from) is Ok,
    decreases operators.len() - from,
{
    if from < operators.len() {
        lemma_operators_together(actual, operators, from + 1);
    }
}

/// Several operators hold of a field exactly where each of them alone does, and are refused
/// only where one of them alone is.
pub proof fn lemma_several_operators(
    document: Value,
    key: Seq<char>,
    operators: Seq<(Seq<char>, Value)>,
)
    requires
        names_field(key),
        operators.len() > 0,
        forall|i: int| 0 <= i < operators.len() ==> !names_field((#[trigger] operators[i]).0),
    ensures
        query_outcome(document, Value::Object(seq![(key, Value::Object(operators))])) == Ok::<
            bool,
            OdmFailure,
        >(true) <==> forall|i: int|
            0 <= i < operators.len() ==> query_outcome(
                document,
                asks(key, (#[trigger] operators[i]).0, operators[i].1),
            ) == Ok::<bool, OdmFailure>(true),
        (forall|i: int|
            0 <= i < operators.len() ==> query_outcome(
                document,
                asks(key, (#[trigger] operators[i]).0, operators[i].1),
            ) is Ok) ==> query_outcome(
            document,
            Value::Object(seq![(key, Value::Object(operators))]),
        ) is Ok,
{
    let value = at_path(document, pieces(key, '.'));
    lemma_asked(document, key, Value::Object(operators));
    assert(is_operator(operators[0].0));
    assert(has_operator(operators));
    lemma_operators_together(value, operators, 0);
    assert forall|i: int| 0 <= i < operators.len() implies query_outcome(
        document,
        asks(key, (#[trigger] operators[i]).0, operators[i].1),
    ) == operator_outcome(value, operators[i].0, operators[i].1) by {
        lemma_asks(document, key, operators[i].0, operators[i].1);
    }
}

/// What is no object is no query; neither is one that asks for anything but a list with a
/// logical operator, nor one with another operator in place of a field.
pub proof fn lemma_refused_queries(document: Value, query: Value, key: Seq<char>)
    ensures
        !(query is Object) ==> query_outcome(document, query) is Err,
        (key == "$and"@ || key == "$or"@ || key == "$nor"@) && !(query is List) ==> query_outcome(
            document,
            Value::Object(seq![(key, query)]),
        ) is Err,
        !names_field(key) && key != "$and"@ && key != "$or"@ && key != "$nor"@ ==> query_outcome(
            document,
            Value::Object(seq![(key, query)]),
        ) is Err,
{
    reveal_strlit("$and");
    reveal_strlit("$or");
    reveal_strlit("$nor");
    reveal_with_fuel(entries_outcome, 2);
    let entries = seq![(key, query)];
    assert(entries[0] == (key, query));
    assert("$and"@[1] == 'a' && "$or"@[1] == 'o' && "$nor"@[1] == 'n');
}

/// A path of keys leads to a value exactly where there are objects all the way, each with the
/// next under the next key.
pub proof fn lemma_path_is_followed(
    document: Value,
    segments: Seq<Seq<char>>,
    way: Seq<Value>,
)
    requires
        is_way(document, segments, way),
    ensures
        at_path(document, segments) == Some(way.last()),
    decreases segments.len(),
{
    if segments.len() > 0 {
        let rest = way.skip(1);
        assert(way[0] is Object);
        assert forall|i: int| 0 <= i < segments.len() - 1 implies (#[trigger] rest[i]) is Object
            && lookup(rest[i]->Object_0, segments.skip(1)[i]) == Some(rest[i + 1]) by {
            assert(rest[i] == way[i + 1]);
        }
        lemma_path_is_followed(way[1], segments.skip(1), rest);
    }
}

/// Where a path of keys leads to a value, there are objects all the way.
pub proof fn lemma_path_has_a_way(document: Value, segments: Seq<Seq<char>>)
    requires
        at_path(document, segments) is Some,
    ensures
        exists|way: Seq<Value>| #[trigger]
            is_way(document, segments, way) && way.last() == at_path(document, segments)->0,
    decreases segments.len(),
{
    if segments.len() == 0 {
        assert(is_way(document, segments, seq![document]));
        assert(seq![document].last() == document);
    } else {
        let next = lookup(document->Object_0, segments[0])->0;
        lemma_path_has_a_way(next, segments.skip(1));
        let rest = choose|way: Seq<Value>| #[trigger]
            is_way(next, segments.skip(1), way) && way.last() == at_path(
                next,
                segments.skip(1),
            )->0;
        let way = seq![document] + rest;
        assert forall|i: int| 0 <= i < segments.len() implies (#[trigger] way[i]) is Object
            && lookup(way[i]->Object_0, segments[i]) == Some(way[i + 1]) by {
            if i > 0 {
                assert(way[i] == rest[i - 1]);
                assert(segments.skip(1)[i - 1] == segments[i]);
            }
        }
        assert(is_way(document, segments, way));
        assert(way.last() == rest.last());
    }
}

/// Whether values lie on the way that a path of keys leads from a document.
pub open spec fn is_way(document: Value, segments: Seq<Seq<char>>, way: Seq<Value>) -> bool {
    &&& way.len() == segments.len() + 1
    &&& way[0] == document
    &&& forall|i: int|
        0 <= i < segments.len() ==> (#[trigger] way[i]) is Object && lookup(
            way[i]->Object_0,
            segments[i],
        ) == Some(way[i + 1])
}

/// What `matches_query` answers is what the query says of the document.
pub proof fn lemma_matches_query(document: &Json, query: &Json, r: Result<bool, OdmError>)
    requires
        call_ensures(matches_query, (document, query), r),
    ensures
        r is Ok ==> query_outcome(document@, query@) == Ok::<bool, OdmFailure>(r->Ok_0),
        r is Err ==> query_outcome(document@, query@) == Err::<bool, OdmFailure>(r->Err_0@),
{
}

/// What `value_at_path` gives is what the path leads to.
pub proof fn lemma_value_at_path(document: &Json, path: &str, r: Option<&Json>)
    requires
        call_ensures(value_at_path, (document, path), r),
    ensures
        r is Some <==> at_path(document@, pieces(path@, '.')) is Some,
        r is Some ==> at_path(document@, pieces(path@, '.')) == Some(r->0@),
{
}

} // verus!
