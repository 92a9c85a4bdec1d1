//! A JSON document tree held as plain values, with the accessors that the workflow logic
//! reads. Objects are sequences of entries kept in key order, as a sorted map keeps them.
use vstd::prelude::*;
use crate::text::{decimal, u64_to_decimal};

verus! {

/// Mathematical model of a JSON value.
pub enum Json {
    Null,
    Bool(bool),
    /// The number's text and, when it is a non-negative integer that fits, its `u64` value.
    Number(Seq<char>, Option<u64>),
    Str(Seq<char>),
    Array(Seq<Json>),
    Object(Seq<(Seq<char>, Json)>),
}

/// A JSON number: the text a JSON writer prints for it and its `u64` value when it has one.
#[derive(Debug)]
pub struct JsonNumber {
    pub text: String,
    pub unsigned: Option<u64>,
}

/// A JSON value.
#[derive(Debug)]
pub enum JsonValue {
    Null,
    Bool(bool),
    Number(JsonNumber),
    Str(String),
    Array(Vec<JsonValue>),
    Object(Vec<(String, JsonValue)>),
}

/// The model of a JSON value.
pub open spec fn json_of(v: JsonValue) -> Json
    decreases v,
{
    match v {
        JsonValue::Null => Json::Null,
        JsonValue::Bool(b) => Json::Bool(b),
        JsonValue::Number(n) => Json::Number(n.text@, n.unsigned),
        JsonValue::Str(s) => Json::Str(s@),
        JsonValue::Array(items) => Json::Array(
            Seq::new(
                items@.len(),
                |i: int|
                    if 0 <= i < items@.len() {
                        json_of(items@[i])
                    } else {
                        Json::Null
                    },
            ),
        ),
        JsonValue::Object(entries) => Json::Object(
            Seq::new(
                entries@.len(),
                |i: int|
                    if 0 <= i < entries@.len() {
                        (entries@[i].0@, json_of(entries@[i].1))
                    } else {
                        (Seq::empty(), Json::Null)
                    },
            ),
        ),
    }
}

impl View for JsonValue {
    type V = Json;

    open spec fn view(&self) -> Json {
        json_of(*self)
    }
}

/// Model of a sequence of entries.
pub open spec fn entries_view(es: Seq<(String, JsonValue)>) -> Seq<(Seq<char>, Json)> {
    Seq::new(es.len(), |i: int| (es[i].0@, es[i].1@))
}

/// Model of a sequence of values.
pub open spec fn values_view(vs: Seq<JsonValue>) -> Seq<Json> {
    Seq::new(vs.len(), |i: int| vs[i]@)
}

// ---------------------------------------------------------------------------------------------
// Reading.
// ---------------------------------------------------------------------------------------------
/// The value stored under `key` among `es` (the first entry with that key).
pub open spec fn entry_get(es: Seq<(Seq<char>, Json)>, key: Seq<char>) -> Option<Json>
    decreases es.len(),
{
    if es.len() == 0 {
        None
    } else if es[0].0 == key {
        Some(es[0].1)
    } else {
        entry_get(es.drop_first(), key)
    }
}

/// `v[key]` when `v` is an object holding `key`.
pub open spec fn get(v: Json, key: Seq<char>) -> Option<Json> {
    match v {
        Json::Object(es) => entry_get(es, key),
        _ => None,
    }
}

/// The text of a string value.
pub open spec fn as_str(v: Json) -> Option<Seq<char>> {
    match v {
        Json::Str(s) => Some(s),
        _ => None,
    }
}

/// The value of a non-negative integer number.
pub open spec fn as_u64(v: Json) -> Option<u64> {
    match v {
        Json::Number(_, u) => u,
        _ => None,
    }
}

/// The value of a boolean.
pub open spec fn as_bool(v: Json) -> Option<bool> {
    match v {
        Json::Bool(b) => Some(b),
        _ => None,
    }
}

/// The items of an array.
pub open spec fn as_array(v: Json) -> Option<Seq<Json>> {
    match v {
        Json::Array(items) => Some(items),
        _ => None,
    }
}

/// The entries of an object.
pub open spec fn as_object(v: Json) -> Option<Seq<(Seq<char>, Json)>> {
    match v {
        Json::Object(es) => Some(es),
        _ => None,
    }
}

/// `items[i]` when it exists.
pub open spec fn item(items: Seq<Json>, i: int) -> Option<Json> {
    if 0 <= i < items.len() {
        Some(items[i])
    } else {
        None
    }
}

/// `get` followed by `as_str`.
pub open spec fn get_str(v: Json, key: Seq<char>) -> Option<Seq<char>> {
    match get(v, key) {
        Some(x) => as_str(x),
        None => None,
    }
}

/// `get` followed by `as_object`.
pub open spec fn get_object(v: Json, key: Seq<char>) -> Option<Seq<(Seq<char>, Json)>> {
    match get(v, key) {
        Some(x) => as_object(x),
        None => None,
    }
}

/// `get` followed by `as_array`.
pub open spec fn get_array(v: Json, key: Seq<char>) -> Option<Seq<Json>> {
    match get(v, key) {
        Some(x) => as_array(x),
        None => None,
    }
}

/// The value stored under `key` among the entries `es`.
pub fn entries_get<'a>(es: &'a Vec<(String, JsonValue)>, key: &str) -> (r: Option<&'a JsonValue>)
    ensures
        r matches Some(x) ==> entry_get(entries_view(es@), key@) == Some(x@),
        r is None ==> entry_get(entries_view(es@), key@) is None,
{
    let mut i: usize = 0;
    assert(entries_view(es@).skip(0) =~= entries_view(es@));
    while i < es.len()
        invariant
            i <= es@.len(),
            entry_get(entries_view(es@), key@) == entry_get(
                entries_view(es@).skip(i as int),
                key@,
            ),
        decreases es@.len() - i,
    {
        let ghost rest = entries_view(es@).skip(i as int);
        assert(rest.drop_first() =~= entries_view(es@).skip(i + 1));
        if crate::text::str_equal(es[i].0.as_str(), key) {
            return Some(&es[i].1);
        }
        i += 1;
    }
    None
}

impl JsonValue {
    /// `self[key]` when `self` is an object holding `key`.
    pub fn get<'a>(&'a self, key: &str) -> (r: Option<&'a JsonValue>)
        ensures
            r matches Some(x) ==> get(self@, key@) == Some(x@),
            r is None ==> get(self@, key@) is None,
    {
        match self {
            JsonValue::Object(es) => {
                assert(as_object(self@).unwrap() =~= entries_view(es@));
                entries_get(es, key)
            },
            _ => None,
        }
    }

    /// The text of a string value.
    pub fn as_str(&self) -> (r: Option<&String>)
        ensures
            r matches Some(s) ==> as_str(self@) == Some(s@),
            r is None ==> as_str(self@) is None,
    {
        match self {
            JsonValue::Str(s) => Some(s),
            _ => None,
        }
    }

    /// The value of a non-negative integer number.
    pub fn as_u64(&self) -> (r: Option<u64>)
        ensures
            r == as_u64(self@),
    {
        match self {
            JsonValue::Number(n) => n.unsigned,
            _ => None,
        }
    }

    /// The value of a boolean.
    pub fn as_bool(&self) -> (r: Option<bool>)
        ensures
            r == as_bool(self@),
    {
        match self {
            JsonValue::Bool(b) => Some(*b),
            _ => None,
        }
    }

    /// The items of an array.
    pub fn as_array(&self) -> (r: Option<&Vec<JsonValue>>)
        ensures
            r matches Some(v) ==> as_array(self@) == Some(values_view(v@)),
            r is None ==> as_array(self@) is None,
    {
        match self {
            JsonValue::Array(items) => {
                assert(values_view(items@) =~= as_array(self@).unwrap());
                Some(items)
            },
            _ => None,
        }
    }

    /// The entries of an object.
    pub fn as_object(&self) -> (r: Option<&Vec<(String, JsonValue)>>)
        ensures
            r matches Some(v) ==> as_object(self@) == Some(entries_view(v@)),
            r is None ==> as_object(self@) is None,
    {
        match self {
            JsonValue::Object(es) => {
                assert(entries_view(es@) =~= as_object(self@).unwrap());
                Some(es)
            },
            _ => None,
        }
    }

    /// A copy of this value.
    pub fn deep_copy(&self) -> (r: JsonValue)
        ensures
            r@ == self@,
        decreases self@,
    {
        match self {
            JsonValue::Null => JsonValue::Null,
            JsonValue::Bool(b) => JsonValue::Bool(*b),
            JsonValue::Number(n) => JsonValue::Number(
                JsonNumber { text: n.text.clone(), unsigned: n.unsigned },
            ),
            JsonValue::Str(s) => JsonValue::Str(s.clone()),
            JsonValue::Array(items) => {
                assert(as_array(self@).unwrap() =~= values_view(items@));
                let mut out: Vec<JsonValue> = Vec::new();
                let mut i: usize = 0;
                while i < items.len()
                    invariant
                        i <= items@.len(),
                        as_array(self@) == Some(values_view(items@)),
                        out@.len() == i,
                        forall|j: int| 0 <= j < i ==> out@[j]@ == items@[j]@,
                    decreases items@.len() - i,
                {
                    proof {
                        let s = as_array(self@).unwrap();
                        assert(s[i as int] == items@[i as int]@);
                        assert(decreases_to!(self@ => s[i as int]));
                    }
                    let c = items[i].deep_copy();
                    out.push(c);
                    i += 1;
                }
                let r = JsonValue::Array(out);
                assert(r@ == self@) by {
                    assert(values_view(out@) =~= values_view(items@));
                    assert(as_array(r@).unwrap() =~= as_array(self@).unwrap());
                }
                r
            },
            JsonValue::Object(es) => {
                assert(as_object(self@).unwrap() =~= entries_view(es@));
                let mut out: Vec<(String, JsonValue)> = Vec::new();
                let mut i: usize = 0;
                while i < es.len()
                    invariant
                        i <= es@.len(),
                        as_object(self@) == Some(entries_view(es@)),
                        out@.len() == i,
                        forall|j: int| 0 <= j < i ==> out@[j].0@ == es@[j].0@ && out@[j].1@ == es@[j].1@,
                    decreases es@.len() - i,
                {
                    proof {
                        let s = as_object(self@).unwrap();
                        assert(s[i as int].1 == es@[i as int].1@);
                        assert(decreases_to!(s[i as int] => s[i as int].1));
                        assert(decreases_to!(self@ => s[i as int].1));
                    }
                    let c = es[i].1.deep_copy();
                    out.push((es[i].0.clone(), c));
                    i += 1;
                }
                let r = JsonValue::Object(out);
                assert(r@ == self@) by {
                    assert(as_object(r@).unwrap() =~= as_object(self@).unwrap());
                }
                r
            },
        }
    }

    /// A string value.
    pub fn string(s: String) -> (r: JsonValue)
        ensures
            r@ == Json::Str(s@),
    {
        JsonValue::Str(s)
    }

    /// The number `n`, written in decimal.
    pub fn unsigned(n: u64) -> (r: JsonValue)
        ensures
            r@ == Json::Number(decimal(n as nat), Some(n)),
    {
        JsonValue::Number(JsonNumber { text: u64_to_decimal(n), unsigned: Some(n) })
    }

    /// An array of the given items.
    pub fn array(items: Vec<JsonValue>) -> (r: JsonValue)
        ensures
            r@ == Json::Array(values_view(items@)),
    {
        let r = JsonValue::Array(items);
        assert(as_array(r@).unwrap() =~= values_view(items@));
        r
    }

    /// An object of the given entries.
    pub fn object(es: Vec<(String, JsonValue)>) -> (r: JsonValue)
        ensures
            r@ == Json::Object(entries_view(es@)),
    {
        let r = JsonValue::Object(es);
        assert(as_object(r@).unwrap() =~= entries_view(es@));
        r
    }
}

// ---------------------------------------------------------------------------------------------
// Parsing JSON text.
// ---------------------------------------------------------------------------------------------
/// The value that `serde_json::from_str::<serde_json::Value>` parses from `text`, in the model
/// of this module; none when the text is not JSON.
pub uninterp spec fn json_parse(text: Seq<char>) -> Option<Json>;

/// Trusted: serde_json's document tree `serde_json::Value`, held opaque.
#[verifier::external_type_specification]
#[verifier::external_body]
pub struct ExSerdeValue(serde_json::Value);

/// Model of an optional JSON value.
pub open spec fn opt_value(o: Option<JsonValue>) -> Option<Json> {
    match o {
        Some(v) => Some(v@),
        None => None,
    }
}

/// Trusted: a serde_json tree, variant by variant, as a value of this module. Numbers keep the
/// text serde_json writes for them and their `u64` value (`Number::as_u64`); objects keep the
/// entries in the order serde_json's map yields them, which is key order.
#[verifier::external_body]
fn from_serde(v: &serde_json::Value) -> JsonValue {
    match v {
        serde_json::Value::Null => JsonValue::Null,
        serde_json::Value::Bool(b) => JsonValue::Bool(*b),
        serde_json::Value::Number(n) => JsonValue::Number(
            JsonNumber { text: n.to_string(), unsigned: n.as_u64() },
        ),
        serde_json::Value::String(s) => JsonValue::Str(s.clone()),
        serde_json::Value::Array(a) => JsonValue::Array(a.iter().map(from_serde).collect()),
        serde_json::Value::Object(m) => JsonValue::Object(
            m.iter().map(|(k, x)| (k.clone(), from_serde(x))).collect(),
        ),
    }
}

/// Trusted: `serde_json::from_str::<serde_json::Value>(text)`, converted; the result is
/// named `json_parse`. The parse is all or nothing: text that is not JSON gives none.
#[verifier::external_body]
pub(crate) fn parse_json(text: &str) -> (r: Option<JsonValue>)
    ensures
        opt_value(r) == json_parse(text@),
{
    match serde_json::from_str::<serde_json::Value>(text) {
        Ok(v) => Some(from_serde(&v)),
        Err(_) => None,
    }
}

// ---------------------------------------------------------------------------------------------
// Writing into an object, in key order.
// ---------------------------------------------------------------------------------------------
/// Key order: lexicographic by code point, which is the byte order of UTF-8 text.
pub open spec fn key_lt(a: Seq<char>, b: Seq<char>) -> bool
    decreases a.len(),
{
    if b.len() == 0 {
        false
    } else if a.len() == 0 {
        true
    } else if a[0] < b[0] {
        true
    } else if a[0] == b[0] {
        key_lt(a.drop_first(), b.drop_first())
    } else {
        false
    }
}

/// `es` after inserting `value` under `key` as a sorted map does: the entry with that key
/// gets the new value, or a new entry stands before the first greater key.
pub open spec fn entry_insert(es: Seq<(Seq<char>, Json)>, key: Seq<char>, value: Json) -> Seq<
    (Seq<char>, Json),
>
    decreases es.len(),
{
    if es.len() == 0 {
        seq![(key, value)]
    } else if key_lt(es[0].0, key) {
        seq![es[0]] + entry_insert(es.drop_first(), key, value)
    } else if es[0].0 == key {
        es.update(0, (key, value))
    } else {
        seq![(key, value)] + es
    }
}

/// Whether `a` orders before `b`.
pub fn key_less(a: &str, b: &str) -> (r: bool)
    ensures
        r == key_lt(a@, b@),
{
    let va = crate::text::to_chars(a);
    let vb = crate::text::to_chars(b);
    let mut i: usize = 0;
    assert(va@.skip(0) =~= va@);
    assert(vb@.skip(0) =~= vb@);
    while i < va.len() && i < vb.len() && va[i] == vb[i]
        invariant
            i <= va@.len(),
            i <= vb@.len(),
            key_lt(va@, vb@) == key_lt(va@.skip(i as int), vb@.skip(i as int)),
        decreases va@.len() - i,
    {
        assert(va@.skip(i as int).drop_first() =~= va@.skip(i + 1));
        assert(vb@.skip(i as int).drop_first() =~= vb@.skip(i + 1));
        i += 1;
    }
    if i == vb.len() {
        false
    } else if i == va.len() {
        true
    } else {
        va[i] < vb[i]
    }
}

proof fn lemma_entry_insert(es: Seq<(Seq<char>, Json)>, key: Seq<char>, value: Json, p: int)
    requires
        0 <= p <= es.len(),
        forall|j: int| 0 <= j < p ==> key_lt(#[trigger] es[j].0, key),
        p < es.len() ==> !key_lt(es[p].0, key),
    ensures
        p < es.len() && es[p].0 == key ==> entry_insert(es, key, value) == es.update(
            p,
            (key, value),
        ),
        !(p < es.len() && es[p].0 == key) ==> entry_insert(es, key, value) == es.insert(
            p,
            (key, value),
        ),
    decreases p,
{
    if p > 0 {
        lemma_entry_insert(es.drop_first(), key, value, p - 1);
        if p < es.len() && es[p].0 == key {
            assert(seq![es[0]] + es.drop_first().update(p - 1, (key, value)) =~= es.update(
                p,
                (key, value),
            ));
        } else {
            assert(seq![es[0]] + es.drop_first().insert(p - 1, (key, value)) =~= es.insert(
                p,
                (key, value),
            ));
        }
    } else {
        if es.len() == 0 {
            assert(seq![(key, value)] =~= es.insert(0, (key, value)));
        } else if es[0].0 != key {
            assert(seq![(key, value)] + es =~= es.insert(0, (key, value)));
        }
    }
}

/// Insert `value` under `key` into the object entries `es`, as a sorted map does.
pub fn insert_entry(es: &mut Vec<(String, JsonValue)>, key: String, value: JsonValue)
    ensures
        entries_view(final(es)@) == entry_insert(entries_view(old(es)@), key@, value@),
{
    let ghost old_es = entries_view(es@);
    let mut p: usize = 0;
    while p < es.len() && key_less(es[p].0.as_str(), key.as_str())
        invariant
            p <= es@.len(),
            es@ == old(es)@,
            old_es == entries_view(es@),
            forall|j: int| 0 <= j < p ==> key_lt(#[trigger] old_es[j].0, key@),
        decreases es@.len() - p,
    {
        p += 1;
    }
    proof {
        lemma_entry_insert(old_es, key@, value@, p as int);
    }
    if p < es.len() && crate::text::str_equal(es[p].0.as_str(), key.as_str()) {
        let ghost kv = key@;
        let ghost vv = value@;
        es.set(p, (key, value));
        assert(entries_view(es@) =~= old_es.update(p as int, (kv, vv)));
    } else {
        let ghost kv = key@;
        let ghost vv = value@;
        es.insert(p, (key, value));
        assert(entries_view(es@) =~= old_es.insert(p as int, (kv, vv)));
    }
}


// ---------------------------------------------------------------------------------------------
// Laws.
// ---------------------------------------------------------------------------------------------
/// No key orders before itself.
pub proof fn lemma_key_lt_irreflexive(a: Seq<char>)
    ensures
        !key_lt(a, a),
    decreases a.len(),
{
    if a.len() > 0 {
        lemma_key_lt_irreflexive(a.drop_first());
    }
}

/// Writing into an object, then reading: the key written reads back the value written, and
/// every other key reads what it read before.
pub proof fn entry_insert_then_get(
    es: Seq<(Seq<char>, Json)>,
    key: Seq<char>,
    value: Json,
    other: Seq<char>,
)
    ensures
        entry_get(entry_insert(es, key, value), key) == Some(value),
        other != key ==> entry_get(entry_insert(es, key, value), other) == entry_get(es, other),
    decreases es.len(),
{
    lemma_key_lt_irreflexive(key);
    if es.len() == 0 {
        assert(seq![(key, value)].drop_first() =~= es);
    } else if key_lt(es[0].0, key) {
        entry_insert_then_get(es.drop_first(), key, value, other);
        let r = entry_insert(es, key, value);
        assert(r.drop_first() =~= entry_insert(es.drop_first(), key, value));
        assert(es[0].0 != key);
    } else if es[0].0 == key {
        let r = es.update(0, (key, value));
        assert(r.drop_first() =~= es.drop_first());
    } else {
        let r = seq![(key, value)] + es;
        assert(r.drop_first() =~= es);
    }
}

/// Key order is transitive.
pub proof fn lemma_key_lt_transitive(a: Seq<char>, b: Seq<char>, c: Seq<char>)
    requires
        key_lt(a, b),
        key_lt(b, c),
    ensures
        key_lt(a, c),
    decreases a.len(),
{
    if a.len() > 0 && b.len() > 0 && c.len() > 0 && a[0] == b[0] && b[0] == c[0] {
        lemma_key_lt_transitive(a.drop_first(), b.drop_first(), c.drop_first());
    }
}

/// Two different keys are ordered one way or the other.
pub proof fn lemma_key_lt_total(a: Seq<char>, b: Seq<char>)
    requires
        a != b,
    ensures
        key_lt(a, b) || key_lt(b, a),
    decreases a.len(),
{
    if a.len() > 0 && b.len() > 0 && a[0] == b[0] {
        if a.drop_first() == b.drop_first() {
            assert(a =~= seq![a[0]] + a.drop_first());
            assert(b =~= seq![b[0]] + b.drop_first());
        }
        lemma_key_lt_total(a.drop_first(), b.drop_first());
    } else if a.len() == 0 && b.len() == 0 {
        assert(a =~= b);
    } else if a.len() > 0 && b.len() > 0 {
        assert(a[0] < b[0] || b[0] < a[0]);
    }
}

/// Whether the keys of `es` strictly increase.
pub open spec fn keys_increasing(es: Seq<(Seq<char>, Json)>) -> bool {
    forall|i: int, j: int| 0 <= i < j < es.len() ==> key_lt(#[trigger] es[i].0, #[trigger] es[j].0)
}

/// Inserting keeps the keys strictly increasing, and every entry of the result is an entry of
/// `es` or the one inserted.
pub proof fn lemma_entry_insert_sorted(es: Seq<(Seq<char>, Json)>, key: Seq<char>, value: Json)
    requires
        keys_increasing(es),
    ensures
        keys_increasing(entry_insert(es, key, value)),
        forall|i: int|
            0 <= i < entry_insert(es, key, value).len() ==> (#[trigger] entry_insert(
                es,
                key,
                value,
            )[i] == (key, value) || es.contains(entry_insert(es, key, value)[i])),
        forall|i: int|
            0 <= i < entry_insert(es, key, value).len() ==> (#[trigger] entry_insert(
                es,
                key,
                value,
            )[i]).0 == key || exists|j: int| 0 <= j < es.len() && es[j].0 == entry_insert(es, key, value)[i].0,
    decreases es.len(),
{
    let r = entry_insert(es, key, value);
    if es.len() == 0 {
    } else if key_lt(es[0].0, key) {
        let t = es.drop_first();
        assert forall|i: int, j: int| 0 <= i < j < t.len() implies key_lt(#[trigger] t[i].0, #[trigger] t[j].0) by {
            assert(t[i] == es[i + 1] && t[j] == es[j + 1]);
        }
        lemma_entry_insert_sorted(t, key, value);
        let rt = entry_insert(t, key, value);
        assert(r == seq![es[0]] + rt);
        assert forall|i: int, j: int| 0 <= i < j < r.len() implies key_lt(#[trigger] r[i].0, #[trigger] r[j].0) by {
            if i == 0 {
                assert(r[j] == rt[j - 1]);
                if rt[j - 1].0 == key {
                } else {
                    let m = choose|m: int| 0 <= m < t.len() && t[m].0 == rt[j - 1].0;
                    assert(es[m + 1] == t[m]);
                    assert(key_lt(es[0].0, es[m + 1].0));
                }
            } else {
                assert(r[i] == rt[i - 1] && r[j] == rt[j - 1]);
            }
        }
        assert forall|i: int| 0 <= i < r.len() implies (#[trigger] r[i] == (key, value) || es.contains(r[i])) by {
            if i == 0 {
                assert(es[0] == r[0]);
            } else {
                assert(r[i] == rt[i - 1]);
                if rt[i - 1] != (key, value) {
                    let m = choose|m: int| 0 <= m < t.len() && t[m] == rt[i - 1];
                    assert(es[m + 1] == t[m]);
                }
            }
        }
        assert forall|i: int| 0 <= i < r.len() implies (#[trigger] r[i]).0 == key || exists|j: int|
            0 <= j < es.len() && es[j].0 == r[i].0 by {
            if i == 0 {
                assert(es[0].0 == r[0].0);
            } else {
                assert(r[i] == rt[i - 1]);
                if rt[i - 1].0 != key {
                    let m = choose|m: int| 0 <= m < t.len() && t[m].0 == rt[i - 1].0;
                    assert(es[m + 1] == t[m]);
                }
            }
        }
    } else if es[0].0 == key {
        assert forall|i: int, j: int| 0 <= i < j < r.len() implies key_lt(#[trigger] r[i].0, #[trigger] r[j].0) by {
            assert(r[i].0 == es[i].0 && r[j].0 == es[j].0);
        }
        assert forall|i: int| 0 <= i < r.len() implies (#[trigger] r[i] == (key, value) || es.contains(r[i])) by {
            if i > 0 {
                assert(r[i] == es[i]);
            }
        }
        assert forall|i: int| 0 <= i < r.len() implies (#[trigger] r[i]).0 == key || exists|j: int|
            0 <= j < es.len() && es[j].0 == r[i].0 by {
            assert(r[i].0 == es[i].0);
        }
    } else {
        lemma_key_lt_total(es[0].0, key);
        assert(r == seq![(key, value)] + es);
        assert forall|i: int, j: int| 0 <= i < j < r.len() implies key_lt(#[trigger] r[i].0, #[trigger] r[j].0) by {
            if i == 0 {
                assert(r[j] == es[j - 1]);
                if j > 1 {
                    lemma_key_lt_transitive(key, es[0].0, es[j - 1].0);
                }
            } else {
                assert(r[i] == es[i - 1] && r[j] == es[j - 1]);
            }
        }
        assert forall|i: int| 0 <= i < r.len() implies (#[trigger] r[i] == (key, value) || es.contains(r[i])) by {
            if i > 0 {
                assert(r[i] == es[i - 1]);
            }
        }
        assert forall|i: int| 0 <= i < r.len() implies (#[trigger] r[i]).0 == key || exists|j: int|
            0 <= j < es.len() && es[j].0 == r[i].0 by {
            if i > 0 {
                assert(r[i] == es[i - 1]);
            }
        }
    }
}

/// Inserting a key greater than every key appends it.
pub proof fn lemma_entry_insert_last(es: Seq<(Seq<char>, Json)>, key: Seq<char>, value: Json)
    requires
        forall|i: int| 0 <= i < es.len() ==> key_lt(#[trigger] es[i].0, key),
    ensures
        entry_insert(es, key, value) == es.push((key, value)),
    decreases es.len(),
{
    if es.len() == 0 {
        assert(seq![(key, value)] =~= es.push((key, value)));
    } else {
        let t = es.drop_first();
        assert forall|i: int| 0 <= i < t.len() implies key_lt(#[trigger] t[i].0, key) by {
            assert(t[i] == es[i + 1]);
        }
        lemma_entry_insert_last(t, key, value);
        assert(seq![es[0]] + t.push((key, value)) =~= es.push((key, value)));
    }
}

} // verus!
