//! JSON documents.
//!
//! An object keeps its entries in key order, so that two objects with the same
//! entries are written, compared and walked alike.
use crate::entries::{
    keys_ordered, lemma_entry_absent, lemma_entry_at, lemma_replaced_shape, lemma_set_at,
    lemma_with_entry_ordered, lemma_without_entry_ordered, lookup, replaced, with_entry,
    without_entry,
};
use crate::number::{number_eq, Number, NumberModel};
use crate::text;
use vstd::prelude::*;

verus! {

/// The mathematical model of a JSON value.
pub enum Value {
    Null,
    Bool(bool),
    Number(NumberModel),
    Text(Seq<char>),
    List(Seq<Value>),
    Object(Seq<(Seq<char>, Value)>),
}

/// A JSON value.
#[derive(Debug)]
pub enum Json {
    Null,
    Bool(bool),
    Number(Number),
    String(String),
    Array(Vec<Json>),
    Object(JsonObject),
}

/// A JSON object: keys and values, in key order.
#[derive(Debug)]
pub struct JsonObject {
    entries: Vec<(String, Json)>,
}

impl Json {
    /// What the value stands for.
    pub open spec fn model(self) -> Value
        decreases self,
    {
        match self {
            Json::Null => Value::Null,
            Json::Bool(b) => Value::Bool(b),
            Json::Number(n) => Value::Number(n@),
            Json::String(s) => Value::Text(s@),
            Json::Array(items) => Value::List(list_model(items@)),
            Json::Object(object) => Value::Object(object.model()),
        }
    }
}

impl JsonObject {
    /// The entries in key order.
    pub closed spec fn model(self) -> Seq<(Seq<char>, Value)>
        decreases self,
    {
        entries_model(self.entries@)
    }
}

/// The models of the items of an array.
pub open spec fn list_model(items: Seq<Json>) -> Seq<Value>
    decreases items,
{
    Seq::new(
        items.len(),
        |i: int|
            if 0 <= i < items.len() {
                items[i].model()
            } else {
                Value::Null
            },
    )
}

/// The models of the entries of an object.
pub open spec fn entries_model(entries: Seq<(String, Json)>) -> Seq<(Seq<char>, Value)>
    decreases entries,
{
    Seq::new(
        entries.len(),
        |i: int|
            if 0 <= i < entries.len() {
                (entries[i].0@, entries[i].1.model())
            } else {
                (Seq::empty(), Value::Null)
            },
    )
}

impl View for Json {
    type V = Value;

    open spec fn view(&self) -> Value {
        self.model()
    }
}

impl View for JsonObject {
    type V = Seq<(Seq<char>, Value)>;

    open spec fn view(&self) -> Seq<(Seq<char>, Value)> {
        self.model()
    }
}

impl JsonObject {
    /// An object without entries.
    pub fn new() -> (r: JsonObject)
        ensures
            r@ == Seq::<(Seq<char>, Value)>::empty(),
    {
        let r = JsonObject { entries: Vec::new() };
        assert(r@ =~= Seq::empty());
        r
    }

    /// The number of entries.
    pub fn len(&self) -> (r: usize)
        ensures
            r == self@.len(),
    {
        self.entries.len()
    }

    /// The key of the entry at a place.
    pub fn key_at(&self, i: usize) -> (r: &String)
        requires
            i < self@.len(),
        ensures
            r@ == self@[i as int].0,
    {
        &self.entries[i].0
    }

    /// The value of the entry at a place.
    pub fn value_at(&self, i: usize) -> (r: &Json)
        requires
            i < self@.len(),
        ensures
            r@ == self@[i as int].1,
    {
        &self.entries[i].1
    }

    /// Where a key stands.
    pub fn position(&self, key: &str) -> (r: Option<usize>)
        ensures
            match r {
                Some(i) => i < self@.len() && self@[i as int].0 == key@ && lookup(self@, key@)
                    == Some(self@[i as int].1) && without_entry(self@, key@) == self@.remove(
                    i as int,
                ) && (forall|j: int| 0 <= j < i ==> (#[trigger] self@[j]).0 != key@),
                None => lookup(self@, key@) is None && without_entry(self@, key@) == self@ && (
                forall|j: int| 0 <= j < self@.len() ==> (#[trigger] self@[j]).0 != key@),
            },
    {
        let mut i: usize = 0;
        while i < self.entries.len()
            invariant
                i <= self.entries.len(),
                self.entries.len() == self@.len(),
                forall|j: int| 0 <= j < i ==> (#[trigger] self@[j]).0 != key@,
            decreases self.entries.len() - i,
        {
            assert(self@[i as int].0 == self.entries@[i as int].0@);
            if text::same_text(self.entries[i].0.as_str(), key) {
                proof {
                    lemma_entry_at(self@, key@, i as int);
                }
                return Some(i);
            }
            i += 1;
        }
        proof {
            lemma_entry_absent(self@, key@);
        }
        None
    }

    /// The value under a key.
    pub fn get(&self, key: &str) -> (r: Option<&Json>)
        ensures
            match lookup(self@, key@) {
                Some(value) => r is Some && r->0@ == value,
                None => r is None,
            },
    {
        match self.position(key) {
            Some(i) => Some(self.value_at(i)),
            None => None,
        }
    }

    /// Whether there is a value under a key.
    pub fn contains_key(&self, key: &str) -> (r: bool)
        ensures
            r == lookup(self@, key@) is Some,
    {
        self.position(key).is_some()
    }

    /// Sets a key to a value.
    pub fn insert(&mut self, key: String, value: Json)
        ensures
            final(self)@ == with_entry(old(self)@, key@, value@),
    {
        let ghost before = self@;
        let mut i: usize = 0;
        while i < self.entries.len()
            invariant_except_break
                i <= self.entries.len(),
                before == self@,
                self.entries.len() == self@.len(),
                forall|j: int|
                    0 <= j < i ==> (#[trigger] self@[j]).0 != key@ && !text::text_lt(
                        key@,
                        self@[j].0,
                    ),
            ensures
                i <= self.entries.len(),
                before == self@,
                self.entries.len() == self@.len(),
                forall|j: int|
                    0 <= j < i ==> (#[trigger] self@[j]).0 != key@ && !text::text_lt(
                        key@,
                        self@[j].0,
                    ),
                i < self@.len() ==> self@[i as int].0 == key@ || text::text_lt(
                    key@,
                    self@[i as int].0,
                ),
            decreases self.entries.len() - i,
        {
            assert(self@[i as int].0 == self.entries@[i as int].0@);
            let relation = text::relate(key.as_str(), self.entries[i].0.as_str());
            if relation != text::Relation::After {
                break;
            }
            i += 1;
        }
        proof {
            lemma_set_at(before, key@, value@, i as int);
        }
        if i < self.entries.len() && text::same_text(self.entries[i].0.as_str(), key.as_str()) {
            assert(before[i as int].0 == key@);
            self.entries.set(i, (key, value));
            assert(self@ =~= before.update(i as int, (key@, value@)));
        } else {
            assert(i < before.len() ==> before[i as int].0 == self.entries@[i as int].0@);
            self.entries.insert(i, (key, value));
            assert(self@ =~= before.insert(i as int, (key@, value@)));
        }
    }

    /// Removes a key; tells whether it was there.
    pub fn remove(&mut self, key: &str) -> (r: bool)
        ensures
            final(self)@ == without_entry(old(self)@, key@),
            r == lookup(old(self)@, key@) is Some,
    {
        let ghost before = self@;
        match self.position(key) {
            Some(i) => {
                self.entries.remove(i);
                assert(self@ =~= before.remove(i as int));
                true
            },
            None => false,
        }
    }

    /// The value of the entry at a place, to be changed.
    pub fn value_mut(&mut self, i: usize) -> (r: &mut Json)
        requires
            i < old(self)@.len(),
        ensures
            (*r)@ == old(self)@[i as int].1,
            final(self)@ == old(self)@.update(
                i as int,
                (old(self)@[i as int].0, (*final(r))@),
            ),
    {
        &mut self.entries[i].1
    }
}

/// Equality of JSON values: numbers as numbers, arrays item by item, objects entry by entry.
pub open spec fn json_eq(a: Value, b: Value) -> bool
    decreases a,
{
    match (a, b) {
        (Value::Null, Value::Null) => true,
        (Value::Bool(x), Value::Bool(y)) => x == y,
        (Value::Number(x), Value::Number(y)) => number_eq(x, y),
        (Value::Text(x), Value::Text(y)) => x == y,
        (Value::List(x), Value::List(y)) => x.len() == y.len() && forall|i: int|
            0 <= i < x.len() ==> json_eq(#[trigger] x[i], y[i]),
        (Value::Object(x), Value::Object(y)) => x.len() == y.len() && forall|i: int|
            0 <= i < x.len() ==> (#[trigger] x[i]).0 == y[i].0 && json_eq(x[i].1, y[i].1),
        _ => false,
    }
}

/// Whether every number within a value has a rank, as every JSON number does.
pub open spec fn ranked(value: Value) -> bool
    decreases value,
{
    match value {
        Value::Number(n) => number_eq(n, n),
        Value::List(items) => forall|i: int| 0 <= i < items.len() ==> ranked(#[trigger] items[i]),
        Value::Object(entries) => forall|i: int|
            0 <= i < entries.len() ==> ranked((#[trigger] entries[i]).1),
        _ => true,
    }
}

/// Whether no number within a value is a double.
pub open spec fn is_whole(value: Value) -> bool
    decreases value,
{
    match value {
        Value::Number(n) => n is Integer,
        Value::List(items) => forall|i: int| 0 <= i < items.len() ==> is_whole(#[trigger] items[i]),
        Value::Object(entries) => forall|i: int|
            0 <= i < entries.len() ==> is_whole((#[trigger] entries[i]).1),
        _ => true,
    }
}

/// Values without doubles are equal exactly where they are the same.
pub proof fn lemma_json_eq_is_sameness(a: Value, b: Value)
    requires
        is_whole(a),
    ensures
        json_eq(a, b) <==> a == b,
    decreases a,
{
    match (a, b) {
        (Value::List(x), Value::List(y)) => {
            assert(decreases_to!(a => x));
            if x.len() == y.len() {
                assert forall|i: int| 0 <= i < x.len() implies json_eq(#[trigger] x[i], y[i])
                    == (x[i] == y[i]) by {
                    assert(decreases_to!(x => x[i]));
                    lemma_json_eq_is_sameness(x[i], y[i]);
                }
                if json_eq(a, b) {
                    assert(x =~= y);
                }
            }
        },
        (Value::Object(x), Value::Object(y)) => {
            assert(decreases_to!(a => x));
            if x.len() == y.len() {
                assert forall|i: int| 0 <= i < x.len() implies json_eq(
                    (#[trigger] x[i]).1,
                    y[i].1,
                ) == (x[i].1 == y[i].1) by {
                    assert(decreases_to!(x => x[i]));
                    assert(decreases_to!(x[i] => x[i].1));
                    lemma_json_eq_is_sameness(x[i].1, y[i].1);
                }
                if json_eq(a, b) {
                    assert(x =~= y);
                }
            }
        },
        _ => {},
    }
}

/// Doubles are equal exactly where both are numbers and have the same bits, or are both zero;
/// how they are written makes no difference, and an integer never equals a double.
pub proof fn lemma_json_eq_of_doubles(x: u64, s: Seq<char>, y: u64, t: Seq<char>, n: int)
    ensures
        ({
            let a = Value::Number(NumberModel::Real { bits: x, text: s });
            let b = Value::Number(NumberModel::Real { bits: y, text: t });
            let whole = Value::Number(NumberModel::Integer(n));
            let is_number = x <= 0x7ff0_0000_0000_0000 || 0x8000_0000_0000_0000 <= x
                <= 0xfff0_0000_0000_0000;
            let is_zero = |z: u64| z == 0 || z == 0x8000_0000_0000_0000;
            &&& json_eq(a, b) <==> is_number && (x == y || is_zero(x) && is_zero(y))
            &&& !json_eq(a, whole) && !json_eq(whole, a)
        }),
{
    crate::number::lemma_real_rank(x);
    crate::number::lemma_real_rank(y);
}

/// A value equals itself.
pub proof fn lemma_json_eq_reflexive(value: Value)
    requires
        ranked(value),
    ensures
        json_eq(value, value),
    decreases value,
{
    match value {
        Value::List(items) => {
            assert forall|i: int| 0 <= i < items.len() implies json_eq(
                #[trigger] items[i],
                items[i],
            ) by {
                assert(decreases_to!(value => items));
                assert(decreases_to!(items => items[i]));
                lemma_json_eq_reflexive(items[i]);
            }
        },
        Value::Object(entries) => {
            assert forall|i: int| 0 <= i < entries.len() implies (#[trigger] entries[i]).0
                == entries[i].0 && json_eq(entries[i].1, entries[i].1) by {
                assert(decreases_to!(value => entries));
                assert(decreases_to!(entries => entries[i]));
                assert(decreases_to!(entries[i] => entries[i].1));
                lemma_json_eq_reflexive(entries[i].1);
            }
        },
        _ => {},
    }
}

impl Clone for Json {
    fn clone(&self) -> (r: Self)
        ensures
            r@ == self@,
        decreases self@,
    {
        match self {
            Json::Null => Json::Null,
            Json::Bool(b) => Json::Bool(*b),
            Json::Number(n) => Json::Number(n.clone()),
            Json::String(s) => Json::String(s.clone()),
            Json::Array(items) => {
                let mut out: Vec<Json> = Vec::new();
                let mut i: usize = 0;
                while i < items.len()
                    invariant
                        i <= items.len(),
                        out.len() == i,
                        *self == Json::Array(*items),
                        forall|j: int| 0 <= j < i ==> (#[trigger] out@[j])@ == items@[j]@,
                    decreases items.len() - i,
                {
                    assert(self@ == Value::List(list_model(items@)));
                    assert(decreases_to!(self@ => self@->List_0));
                    assert(decreases_to!(list_model(items@) => list_model(items@)[i as int]));
                    let item: Json = items[i].clone();
                    out.push(item);
                    i += 1;
                }
                assert(list_model(out@) =~= list_model(items@));
                Json::Array(out)
            },
            Json::Object(object) => {
                let mut out: Vec<(String, Json)> = Vec::new();
                let mut i: usize = 0;
                while i < object.entries.len()
                    invariant
                        i <= object.entries.len(),
                        out.len() == i,
                        *self == Json::Object(*object),
                        forall|j: int|
                            0 <= j < i ==> (#[trigger] out@[j]).0@ == object.entries@[j].0@
                                && out@[j].1@ == object.entries@[j].1@,
                    decreases object.entries.len() - i,
                {
                    assert(self@ == Value::Object(object@));
                    assert(decreases_to!(self@ => self@->Object_0));
                    assert(decreases_to!(object@ => object@[i as int]));
                    assert(decreases_to!(object@[i as int] => object@[i as int].1));
                    let key: String = object.entries[i].0.clone();
                    let value: Json = object.entries[i].1.clone();
                    out.push((key, value));
                    i += 1;
                }
                assert(entries_model(out@) =~= entries_model(object.entries@));
                Json::Object(JsonObject { entries: out })
            },
        }
    }
}

impl Clone for JsonObject {
    fn clone(&self) -> (r: Self)
        ensures
            r@ == self@,
    {
        let mut out: Vec<(String, Json)> = Vec::new();
        let mut i: usize = 0;
        while i < self.entries.len()
            invariant
                i <= self.entries.len(),
                out.len() == i,
                forall|j: int|
                    0 <= j < i ==> (#[trigger] out@[j]).0@ == self.entries@[j].0@ && out@[j].1@
                        == self.entries@[j].1@,
            decreases self.entries.len() - i,
        {
            let key: String = self.entries[i].0.clone();
            let value: Json = self.entries[i].1.clone();
            out.push((key, value));
            i += 1;
        }
        assert(entries_model(out@) =~= entries_model(self.entries@));
        JsonObject { entries: out }
    }
}

impl Json {
    /// Whether two values are equal.
    pub fn same(&self, other: &Json) -> (r: bool)
        ensures
            r == json_eq(self@, other@),
        decreases self@,
    {
        match (self, other) {
            (Json::Null, Json::Null) => true,
            (Json::Bool(x), Json::Bool(y)) => *x == *y,
            (Json::Number(x), Json::Number(y)) => x.same(y),
            (Json::String(x), Json::String(y)) => *x == *y,
            (Json::Array(x), Json::Array(y)) => {
                if x.len() != y.len() {
                    return false;
                }
                let mut i: usize = 0;
                while i < x.len()
                    invariant
                        x.len() == y.len(),
                        i <= x.len(),
                        *self == Json::Array(*x),
                        *other == Json::Array(*y),
                        forall|j: int|
                            0 <= j < i ==> json_eq(#[trigger] list_model(x@)[j], list_model(y@)[j]),
                    decreases x.len() - i,
                {
                    assert(list_model(x@)[i as int] == x@[i as int]@);
                    assert(list_model(y@)[i as int] == y@[i as int]@);
                    assert(self@ == Value::List(list_model(x@)));
                    assert(decreases_to!(self@ => self@->List_0));
                    assert(decreases_to!(list_model(x@) => list_model(x@)[i as int]));
                    if !x[i].same(&y[i]) {
                        assert(!json_eq(list_model(x@)[i as int], list_model(y@)[i as int]));
                        return false;
                    }
                    i += 1;
                }
                assert(self@ == Value::List(list_model(x@)) && other@ == Value::List(list_model(y@)));
                true
            },
            (Json::Object(x), Json::Object(y)) => {
                assert(x@.len() == x.entries@.len() && y@.len() == y.entries@.len());
                if x.entries.len() != y.entries.len() {
                    return false;
                }
                let mut i: usize = 0;
                while i < x.entries.len()
                    invariant
                        x.entries.len() == y.entries.len(),
                        i <= x.entries.len(),
                        *self == Json::Object(*x),
                        *other == Json::Object(*y),
                        forall|j: int|
                            0 <= j < i ==> (#[trigger] x@[j]).0 == y@[j].0 && json_eq(
                                x@[j].1,
                                y@[j].1,
                            ),
                    decreases x.entries.len() - i,
                {
                    assert(x@[i as int] == (x.entries@[i as int].0@, x.entries@[i as int].1@));
                    assert(y@[i as int] == (y.entries@[i as int].0@, y.entries@[i as int].1@));
                    assert(self@ == Value::Object(x@));
                    assert(decreases_to!(self@ => self@->Object_0));
                    assert(decreases_to!(x@ => x@[i as int]));
                    assert(decreases_to!(x@[i as int] => x@[i as int].1));
                    if !(x.entries[i].0 == y.entries[i].0) || !x.entries[i].1.same(
                        &y.entries[i].1,
                    ) {
                        assert(x@[i as int].0 != y@[i as int].0 || !json_eq(
                            x@[i as int].1,
                            y@[i as int].1,
                        ));
                        return false;
                    }
                    i += 1;
                }
                assert(self@ == Value::Object(x@) && other@ == Value::Object(y@));
                assert(x@.len() == x.entries@.len() && y@.len() == y.entries@.len());
                true
            },
            _ => false,
        }
    }

    /// Whether the value is null.
    pub fn is_null(&self) -> (r: bool)
        ensures
            r == (self@ is Null),
    {
        matches!(self, Json::Null)
    }

    /// The value under a key of an object.
    pub fn get(&self, key: &str) -> (r: Option<&Json>)
        ensures
            match field(self@, key@) {
                Some(value) => r is Some && r->0@ == value,
                None => r is None,
            },
    {
        match self {
            Json::Object(object) => object.get(key),
            _ => None,
        }
    }
}

/// The value under a key, where the value is an object that holds it.
pub open spec fn field(value: Value, key: Seq<char>) -> Option<Value> {
    match value {
        Value::Object(entries) => lookup(entries, key),
        _ => None,
    }
}

/// Whether every object within a value has its keys in order.
pub open spec fn ordered(value: Value) -> bool
    decreases value,
{
    match value {
        Value::List(items) => forall|i: int| 0 <= i < items.len() ==> ordered(#[trigger] items[i]),
        Value::Object(entries) => keys_ordered(entries) && forall|i: int|
            0 <= i < entries.len() ==> ordered((#[trigger] entries[i]).1),
        _ => true,
    }
}

/// What is found in an ordered object is ordered.
pub proof fn lemma_lookup_ordered(entries: Seq<(Seq<char>, Value)>, key: Seq<char>)
    requires
        forall|i: int| 0 <= i < entries.len() ==> ordered((#[trigger] entries[i]).1),
    ensures
        lookup(entries, key) is Some ==> ordered(lookup(entries, key)->0),
    decreases entries.len(),
{
    if entries.len() > 0 && entries[0].0 != key {
        let rest = entries.skip(1);
        assert forall|i: int| 0 <= i < rest.len() implies ordered((#[trigger] rest[i]).1) by {
            assert(rest[i] == entries[i + 1]);
        }
        lemma_lookup_ordered(rest, key);
    }
}

/// An ordered object stays one when a key is set to an ordered value.
pub proof fn lemma_with_entry_deep(entries: Seq<(Seq<char>, Value)>, key: Seq<char>, value: Value)
    requires
        ordered(Value::Object(entries)),
        ordered(value),
    ensures
        ordered(Value::Object(with_entry(entries, key, value))),
{
    lemma_with_entry_ordered(entries, key, value);
    lemma_with_entry_values(entries, key, value);
}

/// Setting a key keeps the values ordered.
proof fn lemma_with_entry_values(entries: Seq<(Seq<char>, Value)>, key: Seq<char>, value: Value)
    requires
        forall|i: int| 0 <= i < entries.len() ==> ordered((#[trigger] entries[i]).1),
        ordered(value),
    ensures
        forall|i: int|
            0 <= i < with_entry(entries, key, value).len() ==> ordered(
                (#[trigger] with_entry(entries, key, value)[i]).1,
            ),
    decreases entries.len(),
{
    if entries.len() > 0 && entries[0].0 != key && !text::text_lt(key, entries[0].0) {
        let rest = entries.skip(1);
        assert forall|i: int| 0 <= i < rest.len() implies ordered((#[trigger] rest[i]).1) by {
            assert(rest[i] == entries[i + 1]);
        }
        lemma_with_entry_values(rest, key, value);
        let after = with_entry(entries, key, value);
        assert forall|i: int| 0 <= i < after.len() implies ordered((#[trigger] after[i]).1) by {
            if i > 0 {
                assert(after[i] == with_entry(rest, key, value)[i - 1]);
            }
        }
    }
}

/// An ordered object stays one when a value in it is replaced by an ordered one.
pub proof fn lemma_replaced_deep(entries: Seq<(Seq<char>, Value)>, key: Seq<char>, value: Value)
    requires
        ordered(Value::Object(entries)),
        ordered(value),
    ensures
        ordered(Value::Object(replaced(entries, key, value))),
{
    lemma_replaced_shape(entries, key, value);
    let after = replaced(entries, key, value);
    assert forall|i: int, j: int| 0 <= i < j < after.len() implies text::text_lt(
        (#[trigger] after[i]).0,
        (#[trigger] after[j]).0,
    ) by {
        assert(text::text_lt(entries[i].0, entries[j].0));
    }
    assert forall|i: int| 0 <= i < after.len() implies ordered((#[trigger] after[i]).1) by {
        assert(after[i].1 == entries[i].1 || after[i].1 == value);
    }
}

/// An ordered object stays one when a key is removed.
pub proof fn lemma_without_entry_deep(entries: Seq<(Seq<char>, Value)>, key: Seq<char>)
    requires
        ordered(Value::Object(entries)),
    ensures
        ordered(Value::Object(without_entry(entries, key))),
{
    lemma_without_entry_ordered(entries, key);
    lemma_without_entry_values(entries, key);
}

/// Removing a key keeps the values ordered.
proof fn lemma_without_entry_values(entries: Seq<(Seq<char>, Value)>, key: Seq<char>)
    requires
        forall|i: int| 0 <= i < entries.len() ==> ordered((#[trigger] entries[i]).1),
    ensures
        forall|i: int|
            0 <= i < without_entry(entries, key).len() ==> ordered(
                (#[trigger] without_entry(entries, key)[i]).1,
            ),
    decreases entries.len(),
{
    if entries.len() > 0 {
        let rest = entries.skip(1);
        assert forall|i: int| 0 <= i < rest.len() implies ordered((#[trigger] rest[i]).1) by {
            assert(rest[i] == entries[i + 1]);
        }
        if entries[0].0 != key {
            lemma_without_entry_values(rest, key);
            let after = without_entry(entries, key);
            assert forall|i: int| 0 <= i < after.len() implies ordered((#[trigger] after[i]).1) by {
                if i > 0 {
                    assert(after[i] == without_entry(rest, key)[i - 1]);
                }
            }
        }
    }
}

} // verus!
