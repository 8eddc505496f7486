use vstd::prelude::*;

use crate::json::{fields_distinct, field_lookup, get_field, object_field, JNumber, JValue, JsonView};
use crate::value_aggregate::ValueAggregate;

verus! {

/// The name of the field that holds the key of a key-value pair object.
pub open spec fn key_field_name() -> Seq<char> {
    seq!['k', 'e', 'y']
}

/// The name of the field that holds the value of a key-value pair object.
pub open spec fn value_field_name() -> Seq<char> {
    seq!['v', 'a', 'l', 'u', 'e']
}

/// `"key"`, the name of the key field.
pub fn key_field() -> (name: String)
    ensures
        name@ == key_field_name(),
{
    let name = String::from_str("key");
    proof {
        reveal_strlit("key");
    }
    name
}

/// `"value"`, the name of the value field.
pub fn value_field() -> (name: String)
    ensures
        name@ == value_field_name(),
{
    let name = String::from_str("value");
    proof {
        reveal_strlit("value");
    }
    name
}

/// The decimal digit for `d`, which is below ten.
pub open spec fn digit_char(d: nat) -> char {
    (48 + d) as char
}

/// The decimal notation of `n`, without leading zeros.
pub open spec fn decimal(n: nat) -> Seq<char>
    decreases n,
{
    if n < 10 {
        seq![digit_char(n)]
    } else {
        decimal(n / 10).push(digit_char(n % 10))
    }
}

/// The decimal notation of `i`, with a minus sign where it is negative.
pub open spec fn signed_decimal(i: int) -> Seq<char> {
    if i < 0 {
        seq!['-'] + decimal((-i) as nat)
    } else {
        decimal(i as nat)
    }
}

/// The text of the decimal digit `d`.
fn digit_text(d: u64) -> (text: &'static str)
    requires
        d < 10,
    ensures
        text@ == seq![digit_char(d as nat)],
{
    proof {
        reveal_strlit("0");
        reveal_strlit("1");
        reveal_strlit("2");
        reveal_strlit("3");
        reveal_strlit("4");
        reveal_strlit("5");
        reveal_strlit("6");
        reveal_strlit("7");
        reveal_strlit("8");
        reveal_strlit("9");
    }
    match d {
        0 => "0",
        1 => "1",
        2 => "2",
        3 => "3",
        4 => "4",
        5 => "5",
        6 => "6",
        7 => "7",
        8 => "8",
        _ => "9",
    }
}

/// The decimal digits of `value`, without sign or leading zeros: what its `Display` writes.
pub(crate) fn u64_to_string(value: u64) -> (text: String)
    ensures
        text@ == decimal(value as nat),
    decreases value,
{
    if value < 10 {
        String::from_str(digit_text(value))
    } else {
        let mut text = u64_to_string(value / 10);
        text.append(digit_text(value % 10));
        assert(text@ =~= decimal((value / 10) as nat).push(digit_char((value % 10) as nat)));
        text
    }
}

/// A minus sign where `value` is negative, then the decimal digits of its magnitude
/// without leading zeros: what its `Display` writes.
pub(crate) fn i64_to_string(value: i64) -> (text: String)
    ensures
        text@ == signed_decimal(value as int),
{
    if value < 0 {
        let magnitude: u64 = (0i128 - value as i128) as u64;
        let digits = u64_to_string(magnitude);
        let mut text = String::from_str("-");
        text.append(digits.as_str());
        proof {
            reveal_strlit("-");
        }
        assert(text@ =~= seq!['-'] + decimal((-(value as int)) as nat));
        text
    } else {
        u64_to_string(value as u64)
    }
}

/// A key of a stream map: a string or an integer.
#[derive(Clone, Debug, PartialEq, Eq)]
pub enum StreamMapKey {
    Str(String),
    U64(u64),
    I64(i64),
}

/// A stream map key as mathematics sees it.
pub enum KeyView {
    Str(Seq<char>),
    U64(u64),
    I64(i64),
}

impl View for StreamMapKey {
    type V = KeyView;

    open spec fn view(&self) -> KeyView {
        match self {
            StreamMapKey::Str(s) => KeyView::Str(s@),
            StreamMapKey::U64(v) => KeyView::U64(*v),
            StreamMapKey::I64(v) => KeyView::I64(*v),
        }
    }
}

/// The key that a JSON value stands for: a string, or an integer, as `i64` where it fits
/// and as `u64` otherwise.
pub open spec fn key_of_json(value: JsonView) -> Option<KeyView> {
    match value {
        JsonView::String(s) => Some(KeyView::Str(s)),
        JsonView::Number(n) => {
            if n.spec_fits_i64() {
                Some(KeyView::I64(n.integer() as i64))
            } else if n.spec_fits_u64() {
                Some(KeyView::U64(n.integer() as u64))
            } else {
                None
            }
        },
        _ => None,
    }
}

/// The key of a key-value pair object, where it has a key field that stands for a key.
pub open spec fn kvpair_key(value: JsonView) -> Option<KeyView> {
    match object_field(value, key_field_name()) {
        Some(key) => key_of_json(key),
        None => None,
    }
}

/// A key as a JSON value.
pub open spec fn key_json(key: KeyView) -> JsonView {
    match key {
        KeyView::Str(s) => JsonView::String(s),
        KeyView::U64(v) => JsonView::Number(JNumber::PosInt(v)),
        KeyView::I64(v) => {
            if v < 0 {
                JsonView::Number(JNumber::NegInt(v))
            } else {
                JsonView::Number(JNumber::PosInt(v as u64))
            }
        },
    }
}

/// The key-value pair object `{"key": key, "value": value}`.
pub open spec fn kvpair_json(key: KeyView, value: JsonView) -> JsonView {
    JsonView::Object(seq![(key_field_name(), key_json(key)), (value_field_name(), value)])
}

/// The text of a key: the string itself, or the decimal notation of the integer.
pub open spec fn key_text(key: KeyView) -> Seq<char> {
    match key {
        KeyView::Str(s) => s,
        KeyView::U64(v) => decimal(v as nat),
        KeyView::I64(v) => signed_decimal(v as int),
    }
}

impl StreamMapKey {
    /// The key that `value` stands for, where it stands for one.
    pub fn from_value(value: JValue) -> (key: Option<StreamMapKey>)
        ensures
            key matches Some(k) ==> key_of_json(value@) == Some(k@),
            key is None ==> key_of_json(value@) is None,
    {
        match value {
            JValue::String(s) => Some(StreamMapKey::Str(s)),
            JValue::Number(n) => {
                if let Some(v) = n.as_i64() {
                    Some(StreamMapKey::I64(v))
                } else if let Some(v) = n.as_u64() {
                    Some(StreamMapKey::U64(v))
                } else {
                    None
                }
            },
            _ => None,
        }
    }

    /// The key of a key-value pair object, where it has one.
    pub fn from_kvpair(value: &ValueAggregate) -> (key: Option<StreamMapKey>)
        ensures
            key matches Some(k) ==> kvpair_key(value@.result) == Some(k@),
            key is None ==> kvpair_key(value@.result) is None,
    {
        let object = match value.get_result().as_object() {
            Some(object) => object,
            None => return None,
        };
        let name = key_field();
        let key = match get_field(object, &name) {
            Some(key) => key.deep_copy(),
            None => return None,
        };
        StreamMapKey::from_value(key)
    }

    /// The key as a JSON value.
    pub fn to_json(&self) -> (value: JValue)
        ensures
            value@ == key_json(self@),
    {
        match self {
            StreamMapKey::Str(s) => JValue::String(s.clone()),
            StreamMapKey::U64(v) => JValue::Number(JNumber::PosInt(*v)),
            StreamMapKey::I64(v) => {
                if *v < 0 {
                    JValue::Number(JNumber::NegInt(*v))
                } else {
                    JValue::Number(JNumber::PosInt(*v as u64))
                }
            },
        }
    }

    /// The text of the key: the string itself, or the decimal notation of the integer.
    pub fn to_text(&self) -> (text: String)
        ensures
            text@ == key_text(self@),
    {
        match self {
            StreamMapKey::Str(s) => s.clone(),
            StreamMapKey::U64(v) => u64_to_string(*v),
            StreamMapKey::I64(v) => i64_to_string(*v),
        }
    }

    /// Whether the two keys are the same key.
    pub fn same_as(&self, other: &StreamMapKey) -> (same: bool)
        ensures
            same == (self@ == other@),
    {
        match (self, other) {
            (StreamMapKey::Str(a), StreamMapKey::Str(b)) => *a == *b,
            (StreamMapKey::U64(a), StreamMapKey::U64(b)) => *a == *b,
            (StreamMapKey::I64(a), StreamMapKey::I64(b)) => *a == *b,
            _ => false,
        }
    }

    /// A copy of the key.
    pub fn duplicate(&self) -> (copy: StreamMapKey)
        ensures
            copy@ == self@,
    {
        match self {
            StreamMapKey::Str(s) => StreamMapKey::Str(s.clone()),
            StreamMapKey::U64(v) => StreamMapKey::U64(*v),
            StreamMapKey::I64(v) => StreamMapKey::I64(*v),
        }
    }
}

/// The key-value pair object `{"key": key, "value": value}`.
pub fn from_key_value(key: StreamMapKey, value: &JValue) -> (object: JValue)
    ensures
        object@ == kvpair_json(key@, value@),
        fields_distinct(object@->Object_0),
{
    let mut fields: Vec<(String, JValue)> = Vec::new();
    fields.push((key_field(), key.to_json()));
    fields.push((value_field(), value.deep_copy()));
    let object = JValue::Object(fields);
    assert(object@ == kvpair_json(key@, value@)) by {
        if let JsonView::Object(a) = object@ {
            assert(a =~= seq![(key_field_name(), key_json(key@)), (value_field_name(), value@)]);
        }
    }
    assert(key_field_name() != value_field_name()) by {
        assert(key_field_name().len() != value_field_name().len());
    }
    object
}

/// A key-value pair object gives back the value it was made with.
pub proof fn lemma_kvpair_value(key: KeyView, value: JsonView)
    ensures
        object_field(kvpair_json(key, value), value_field_name()) == Some(value),
{
    let fields = seq![(key_field_name(), key_json(key)), (value_field_name(), value)];
    assert(key_field_name() != value_field_name()) by {
        assert(key_field_name().len() != value_field_name().len());
    }
    assert(fields.drop_first() =~= seq![(value_field_name(), value)]);
    assert(field_lookup(fields.drop_first(), value_field_name()) == Some(value));
}

/// Whether a key is in the form that reading a key gives: an integer is read as an `i64`
/// where it fits, so only a `u64` key above `i64::MAX` is read as a `u64`.
pub open spec fn key_in_read_form(key: KeyView) -> bool {
    key matches KeyView::U64(v) ==> v > i64::MAX
}

/// A key-value pair object gives back the key it was made with, where that key is in the
/// form that reading a key gives: a `u64` key below 2^63 comes back as the same integer
/// in an `i64`.
pub proof fn lemma_kvpair_key(key: KeyView, value: JsonView)
    requires
        key_in_read_form(key),
    ensures
        kvpair_key(kvpair_json(key, value)) == Some(key),
{
}

} // verus!
