//! JSON values, as the services of brokers send them.
use crate::binary64::Real;
use crate::text::{copy_texts, same, str_views, views};
use vstd::prelude::*;

verus! {

/// A JSON value, with its text.
#[derive(Debug)]
pub struct Json {
    pub text: String,
    pub shape: Shape,
}

/// What a JSON value is.
#[derive(Debug)]
pub enum Shape {
    Null,
    Bool(bool),
    Number { unsigned: Option<u64>, signed: Option<i64>, value: Option<Real> },
    Text(String),
    List(Vec<Json>),
    Object { keys: Vec<String>, values: Vec<Json> },
}

/// A JSON value as contracts speak of it.
pub struct JsonFacts {
    pub text: Seq<char>,
    pub shape: ShapeFacts,
}

/// What a JSON value is, as contracts speak of it.
pub enum ShapeFacts {
    Null,
    Bool(bool),
    Number { unsigned: Option<u64>, signed: Option<i64>, value: Option<Real> },
    Text(Seq<char>),
    List(Seq<JsonFacts>),
    Object { keys: Seq<Seq<char>>, values: Seq<JsonFacts> },
}

pub open spec fn json_facts(json: Json) -> JsonFacts
    decreases json,
{
    JsonFacts { text: json.text@, shape: shape_facts(json.shape) }
}

pub open spec fn shape_facts(shape: Shape) -> ShapeFacts
    decreases shape,
{
    match shape {
        Shape::Null => ShapeFacts::Null,
        Shape::Bool(b) => ShapeFacts::Bool(b),
        Shape::Number { unsigned, signed, value } => ShapeFacts::Number {
            unsigned,
            signed,
            value,
        },
        Shape::Text(t) => ShapeFacts::Text(t@),
        Shape::List(items) => ShapeFacts::List(
            Seq::new(
                items@.len(),
                |i: int|
                    if 0 <= i < items@.len() {
                        json_facts(items@[i])
                    } else {
                        arbitrary()
                    },
            ),
        ),
        Shape::Object { keys, values } => ShapeFacts::Object {
            keys: views(keys@),
            values: Seq::new(
                values@.len(),
                |i: int|
                    if 0 <= i < values@.len() {
                        json_facts(values@[i])
                    } else {
                        arbitrary()
                    },
            ),
        },
    }
}

impl View for Json {
    type V = JsonFacts;

    open spec fn view(&self) -> JsonFacts {
        json_facts(*self)
    }
}

/// The values of a list, as contracts speak of them.
pub open spec fn json_views(v: Seq<Json>) -> Seq<JsonFacts> {
    Seq::new(v.len(), |i: int| v[i]@)
}

/// A list is what its values are.
pub proof fn list_facts(items: Vec<Json>)
    ensures
        shape_facts(Shape::List(items)) == ShapeFacts::List(json_views(items@)),
{
    let list = shape_facts(Shape::List(items))->List_0;
    assert(list =~= json_views(items@));
}

/// The length of the longest text in a value.
pub open spec fn room_of(json: JsonFacts) -> nat
    decreases json,
{
    match json.shape {
        ShapeFacts::Text(t) => t.len(),
        ShapeFacts::List(items) => rooms_of(items),
        ShapeFacts::Object { values, .. } => rooms_of(values),
        _ => 0,
    }
}

/// The length of the longest text in some values.
pub open spec fn rooms_of(items: Seq<JsonFacts>) -> nat
    decreases items,
{
    if items.len() == 0 {
        0
    } else {
        let before = rooms_of(items.drop_last());
        let last = room_of(items.last());
        if before > last {
            before
        } else {
            last
        }
    }
}

/// The place of a key, or -1.
pub open spec fn key_place(keys: Seq<Seq<char>>, key: Seq<char>) -> int
    decreases keys.len(),
{
    if keys.len() == 0 {
        -1
    } else {
        let before = key_place(keys.drop_last(), key);
        if before >= 0 {
            before
        } else if keys.last() == key {
            keys.len() - 1
        } else {
            -1
        }
    }
}

proof fn key_place_bounds(keys: Seq<Seq<char>>, key: Seq<char>)
    ensures
        -1 <= key_place(keys, key) < keys.len(),
    decreases keys.len(),
{
    if keys.len() > 0 {
        key_place_bounds(keys.drop_last(), key);
    }
}

proof fn key_place_stays(keys: Seq<Seq<char>>, key: Seq<char>, n: int)
    requires
        0 <= n <= keys.len(),
        key_place(keys.take(n), key) >= 0,
    ensures
        key_place(keys, key) == key_place(keys.take(n), key),
    decreases keys.len() - n,
{
    if n < keys.len() {
        assert(keys.take(n + 1).drop_last() =~= keys.take(n));
        key_place_stays(keys, key, n + 1);
    } else {
        assert(keys.take(n) =~= keys);
    }
}

/// The field of an object under a key.
pub open spec fn field_of(json: JsonFacts, key: Seq<char>) -> Option<JsonFacts> {
    match json.shape {
        ShapeFacts::Object { keys, values } => if 0 <= key_place(keys, key) < values.len() {
            Some(values[key_place(keys, key)])
        } else {
            None
        },
        _ => None,
    }
}

/// The characters of a text value.
pub open spec fn string_of(json: JsonFacts) -> Option<Seq<char>> {
    match json.shape {
        ShapeFacts::Text(t) => Some(t),
        _ => None,
    }
}

/// The number of a value, where it is one that is not negative and has no fraction.
pub open spec fn unsigned_of(json: JsonFacts) -> Option<u64> {
    match json.shape {
        ShapeFacts::Number { unsigned, .. } => unsigned,
        _ => None,
    }
}

pub open spec fn json_option(json: Option<&Json>) -> Option<JsonFacts> {
    match json {
        Some(j) => Some(j@),
        None => None,
    }
}

impl Json {
    pub fn field(&self, key: &str) -> (r: Option<&Json>)
        ensures
            json_option(r) == field_of(self@, key@),
    {
        match &self.shape {
            Shape::Object { keys, values } => {
                let mut i: usize = 0;
                assert(views(keys@).take(0) =~= Seq::empty());
                while i < keys.len()
                    invariant
                        i <= keys@.len(),
                        key_place(views(keys@).take(i as int), key@) == -1,
                        self.shape == (Shape::Object { keys: *keys, values: *values }),
                    decreases keys@.len() - i,
                {
                    assert(views(keys@).take(i + 1).drop_last() =~= views(keys@).take(i as int));
                    if same(keys[i].as_str(), key) {
                        proof {
                            key_place_stays(views(keys@), key@, i + 1);
                        }
                        if i < values.len() {
                            return Some(&values[i]);
                        }
                        return None;
                    }
                    i += 1;
                }
                assert(views(keys@).take(i as int) =~= views(keys@));
                None
            },
            _ => None,
        }
    }

    pub fn as_str(&self) -> (r: Option<&str>)
        ensures
            match r {
                Some(t) => string_of(self@) == Some(t@),
                None => string_of(self@) is None,
            },
    {
        match &self.shape {
            Shape::Text(t) => Some(t.as_str()),
            _ => None,
        }
    }

    pub fn as_u64(&self) -> (r: Option<u64>)
        ensures
            r == unsigned_of(self@),
    {
        match &self.shape {
            Shape::Number { unsigned, .. } => *unsigned,
            _ => None,
        }
    }
}

#[verifier::external_type_specification]
#[verifier::external_body]
pub struct ExValue(serde_json::Value);

/// What a `serde_json::Value` holds.
pub uninterp spec fn value_facts(value: serde_json::Value) -> JsonFacts;

/// What `serde_json::from_str` makes of a text when it reads a `serde_json::Value`, or
/// the message of its error.
pub uninterp spec fn parsed_text(text: Seq<char>) -> Result<JsonFacts, Seq<char>>;

/// What `serde_json::from_slice` makes of bytes when it reads a `serde_json::Value`, or
/// the message of its error.
pub uninterp spec fn parsed_bytes(bytes: Seq<u8>) -> Result<JsonFacts, Seq<char>>;

/// Calls `serde_json::from_str`. What it returns depends on the text alone; it is named
/// and not described, but for one thing: every text in the value is shorter than the text
/// that was read, which holds its characters between two quotes.
#[verifier::external_body]
fn parse_value(text: &str) -> (r: Result<serde_json::Value, String>)
    ensures
        match r {
            Ok(value) => parsed_text(text@) == Ok::<JsonFacts, Seq<char>>(value_facts(value))
                && room_of(value_facts(value)) < text@.len(),
            Err(e) => parsed_text(text@) == Err::<JsonFacts, Seq<char>>(e@),
        },
{
    serde_json::from_str(text).map_err(|e| e.to_string())
}

/// Calls `serde_json::from_slice`. What it returns depends on the bytes alone; it is named
/// and not described.
#[verifier::external_body]
fn parse_value_bytes(bytes: &[u8]) -> (r: Result<serde_json::Value, String>)
    ensures
        match r {
            Ok(value) => parsed_bytes(bytes@) == Ok::<JsonFacts, Seq<char>>(value_facts(value)),
            Err(e) => parsed_bytes(bytes@) == Err::<JsonFacts, Seq<char>>(e@),
        },
{
    serde_json::from_slice(bytes).map_err(|e| e.to_string())
}

/// Takes a `serde_json::Value` apart: the text that its `to_string` gives, and what its
/// variant holds.
#[verifier::external_body]
fn open_value(value: &serde_json::Value) -> (r: Json)
    ensures
        r@ == value_facts(*value),
{
    let shape = match value {
        serde_json::Value::Null => Shape::Null,
        serde_json::Value::Bool(b) => Shape::Bool(*b),
        serde_json::Value::Number(n) => Shape::Number { unsigned: n.as_u64(), signed: n.as_i64(), value: n.as_f64().map(|x| Real { bits: x.to_bits() }) },
        serde_json::Value::String(s) => Shape::Text(s.clone()),
        serde_json::Value::Array(items) => Shape::List(items.iter().map(open_value).collect()),
        serde_json::Value::Object(map) => Shape::Object { keys: map.keys().cloned().collect(), values: map.values().map(open_value).collect() },
    };
    Json { text: value.to_string(), shape }
}

/// Reads a JSON text.
pub fn read_json(text: &str) -> (r: Result<Json, String>)
    ensures
        match r {
            Ok(json) => parsed_text(text@) == Ok::<JsonFacts, Seq<char>>(json@) && room_of(json@)
                < text@.len(),
            Err(e) => parsed_text(text@) == Err::<JsonFacts, Seq<char>>(e@),
        },
{
    match parse_value(text) {
        Ok(value) => Ok(open_value(&value)),
        Err(e) => Err(e),
    }
}

/// Reads a JSON text from its bytes.
pub fn read_json_bytes(bytes: &[u8]) -> (r: Result<Json, String>)
    ensures
        match r {
            Ok(json) => parsed_bytes(bytes@) == Ok::<JsonFacts, Seq<char>>(json@),
            Err(e) => parsed_bytes(bytes@) == Err::<JsonFacts, Seq<char>>(e@),
        },
{
    match parse_value_bytes(bytes) {
        Ok(value) => Ok(open_value(&value)),
        Err(e) => Err(e),
    }
}

/// The first of some fields that is there.
pub open spec fn first_field(json: JsonFacts, keys: Seq<Seq<char>>) -> Option<JsonFacts>
    decreases keys.len(),
{
    if keys.len() == 0 {
        None
    } else {
        match field_of(json, keys[0]) {
            Some(value) => Some(value),
            None => first_field(json, keys.drop_first()),
        }
    }
}

pub fn value_field<'a>(json: &'a Json, keys: &Vec<&'static str>) -> (r: Option<&'a Json>)
    ensures
        json_option(r) == first_field(json@, str_views(keys@)),
{
    let ghost names = str_views(keys@);
    let mut i: usize = 0;
    assert(names.skip(0) =~= names);
    while i < keys.len()
        invariant
            i <= keys@.len(),
            names == str_views(keys@),
            first_field(json@, names) == first_field(json@, names.skip(i as int)),
        decreases keys@.len() - i,
    {
        assert(names.skip(i as int).drop_first() =~= names.skip(i + 1));
        assert(names.skip(i as int)[0] == keys@[i as int]@);
        match json.field(keys[i]) {
            Some(value) => return Some(value),
            None => {},
        }
        i += 1;
    }
    None
}

impl Clone for Json {
    fn clone(&self) -> (r: Json)
        ensures
            r@ == self@,
        decreases self,
    {
        let shape = match &self.shape {
            Shape::Null => Shape::Null,
            Shape::Bool(b) => Shape::Bool(*b),
            Shape::Number { unsigned, signed, value } => Shape::Number {
                unsigned: *unsigned,
                signed: *signed,
                value: *value,
            },
            Shape::Text(t) => Shape::Text(t.clone()),
            Shape::List(items) => {
                let mut out: Vec<Json> = Vec::new();
                let mut i: usize = 0;
                while i < items.len()
                    invariant
                        i <= items@.len(),
                        self.shape == Shape::List(*items),
                        out@.len() == i,
                        forall|k: int| 0 <= k < i ==> json_facts(#[trigger] out@[k]) == json_facts(items@[k]),
                    decreases items@.len() - i,
                {
                    assert(decreases_to!(*self => self.shape));
                    assert(decreases_to!(self.shape => self.shape->List_0));
                    assert(decreases_to!(*items => items@));
                    assert(decreases_to!(items@ => items@[i as int]));
                    out.push(items[i].clone());
                    i += 1;
                }
                assert(shape_facts(Shape::List(out))->List_0 =~= shape_facts(self.shape)->List_0);
                Shape::List(out)
            },
            Shape::Object { keys, values } => {
                let names = copy_texts(keys);
                let mut out: Vec<Json> = Vec::new();
                let mut i: usize = 0;
                while i < values.len()
                    invariant
                        i <= values@.len(),
                        self.shape == (Shape::Object { keys: *keys, values: *values }),
                        out@.len() == i,
                        forall|k: int| 0 <= k < i ==> json_facts(#[trigger] out@[k]) == json_facts(values@[k]),
                    decreases values@.len() - i,
                {
                    assert(decreases_to!(*self => self.shape));
                    assert(decreases_to!(self.shape => self.shape->values));
                    assert(decreases_to!(*values => values@));
                    assert(decreases_to!(values@ => values@[i as int]));
                    out.push(values[i].clone());
                    i += 1;
                }
                let copy = Shape::Object { keys: names, values: out };
                assert(shape_facts(copy)->values =~= shape_facts(self.shape)->values);
                copy
            },
        };
        Json { text: self.text.clone(), shape }
    }
}

/// A field is found under its key: the value that stands with the first of the keys that is it,
/// and none where no key is.
pub proof fn fields_are_found_under_their_keys(
    keys: Seq<Seq<char>>,
    values: Seq<JsonFacts>,
    text: Seq<char>,
    key: Seq<char>,
)
    requires
        keys.len() == values.len(),
    ensures
        ({
            let json = JsonFacts { text, shape: ShapeFacts::Object { keys, values } };
            match field_of(json, key) {
                Some(value) => exists|i: int|
                    {
                        &&& 0 <= i < keys.len()
                        &&& #[trigger] keys[i] == key
                        &&& values[i] == value
                        &&& forall|k: int| 0 <= k < i ==> #[trigger] keys[k] != key
                    },
                None => !keys.contains(key),
            }
        }),
{
    key_place_is_first(keys, key);
    let i = key_place(keys, key);
    if i >= 0 {
        assert(keys[i] == key);
    }
}

proof fn key_place_is_first(keys: Seq<Seq<char>>, key: Seq<char>)
    ensures
        -1 <= key_place(keys, key) < keys.len(),
        key_place(keys, key) >= 0 ==> keys[key_place(keys, key)] == key,
        forall|k: int| 0 <= k < key_place(keys, key) ==> #[trigger] keys[k] != key,
        key_place(keys, key) < 0 ==> !keys.contains(key),
    decreases keys.len(),
{
    if keys.len() > 0 {
        let d = keys.drop_last();
        key_place_is_first(d, key);
        assert forall|i: int|
            #![trigger d[i]]
            #![trigger keys[i]]
            0 <= i < d.len() implies d[i] == keys[i] by {}
        if key_place(keys, key) < 0 && keys.contains(key) {
            let i = choose|i: int| 0 <= i < keys.len() && keys[i] == key;
            if i < d.len() {
                assert(d[i] == key);
            }
        }
        assert forall|k: int| 0 <= k < key_place(keys, key) implies #[trigger] keys[k] != key by {
            if key_place(d, key) < 0 {
                assert(!d.contains(d[k]) || d[k] != key);
                assert(d[k] == keys[k]);
                assert(d.contains(d[k]));
            }
        }
    }
}

/// Of several keys the value of the first that there is a field under is taken.
pub proof fn first_field_is_of_the_first_key(json: JsonFacts, keys: Seq<Seq<char>>)
    ensures
        match first_field(json, keys) {
            Some(value) => exists|i: int|
                {
                    &&& 0 <= i < keys.len()
                    &&& #[trigger] field_of(json, keys[i]) == Some(value)
                    &&& forall|k: int| 0 <= k < i ==> (#[trigger] field_of(json, keys[k])) is None
                },
            None => forall|i: int|
                0 <= i < keys.len() ==> (#[trigger] field_of(json, keys[i])) is None,
        },
    decreases keys.len(),
{
    if keys.len() > 0 && field_of(json, keys[0]) is None {
        let d = keys.drop_first();
        first_field_is_of_the_first_key(json, d);
        match first_field(json, d) {
            Some(value) => {
                let i = choose|i: int|
                    {
                        &&& 0 <= i < d.len()
                        &&& #[trigger] field_of(json, d[i]) == Some(value)
                        &&& forall|k: int| 0 <= k < i ==> (#[trigger] field_of(json, d[k])) is None
                    };
                assert(keys[i + 1] == d[i]);
                assert(field_of(json, keys[i + 1]) == Some(value));
                assert forall|k: int| 0 <= k < i + 1 implies (
                #[trigger] field_of(json, keys[k])) is None by {
                    if k > 0 {
                        assert(d[k - 1] == keys[k]);
                        assert(field_of(json, d[k - 1]) is None);
                    }
                }
            },
            None => {
                assert forall|i: int| 0 <= i < keys.len() implies (
                #[trigger] field_of(json, keys[i])) is None by {
                    if i > 0 {
                        assert(d[i - 1] == keys[i]);
                        assert(field_of(json, d[i - 1]) is None);
                    }
                }
            },
        }
    } else if keys.len() > 0 {
        assert(field_of(json, keys[0]) == first_field(json, keys));
    }
}

} // verus!
