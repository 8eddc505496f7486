use vstd::prelude::*;

use crate::results::{collect_results, lemma_first_error_stays};
use crate::stream_map_key::{decimal, i64_to_string, signed_decimal, u64_to_string};

verus! {

/// A value of the interface types through which the interpreter hands back its outcome.
/// A float is held as the text that `{:?}` writes for it, which is all that is read of it
/// here.
#[derive(Debug, PartialEq)]
pub enum IValue {
    Boolean(bool),
    S8(i8),
    S16(i16),
    S32(i32),
    S64(i64),
    U8(u8),
    U16(u16),
    U32(u32),
    U64(u64),
    F32(String),
    F64(String),
    String(String),
    ByteArray(Vec<u8>),
    Array(Vec<IValue>),
    I32(i32),
    I64(i64),
    /// The fields of a record. Interface types give a record at least one field; the
    /// reading below refuses any count but five.
    Record(Vec<IValue>),
}

/// An interface value as mathematics sees it.
pub enum IValueView {
    Boolean(bool),
    S8(i8),
    S16(i16),
    S32(i32),
    S64(i64),
    U8(u8),
    U16(u16),
    U32(u32),
    U64(u64),
    F32(Seq<char>),
    F64(Seq<char>),
    String(Seq<char>),
    ByteArray(Seq<u8>),
    Array(Seq<IValueView>),
    I32(i32),
    I64(i64),
    Record(Seq<IValueView>),
}

impl IValue {
    pub open spec fn ivalue_view(self) -> IValueView
        decreases self,
    {
        match self {
            IValue::Boolean(v) => IValueView::Boolean(v),
            IValue::S8(v) => IValueView::S8(v),
            IValue::S16(v) => IValueView::S16(v),
            IValue::S32(v) => IValueView::S32(v),
            IValue::S64(v) => IValueView::S64(v),
            IValue::U8(v) => IValueView::U8(v),
            IValue::U16(v) => IValueView::U16(v),
            IValue::U32(v) => IValueView::U32(v),
            IValue::U64(v) => IValueView::U64(v),
            IValue::F32(t) => IValueView::F32(t@),
            IValue::F64(t) => IValueView::F64(t@),
            IValue::String(s) => IValueView::String(s@),
            IValue::ByteArray(a) => IValueView::ByteArray(a@),
            IValue::Array(items) => IValueView::Array(
                Seq::new(
                    items@.len(),
                    |i: int|
                        if 0 <= i < items@.len() {
                            items@[i].ivalue_view()
                        } else {
                            IValueView::Boolean(false)
                        },
                ),
            ),
            IValue::I32(v) => IValueView::I32(v),
            IValue::I64(v) => IValueView::I64(v),
            IValue::Record(items) => IValueView::Record(
                Seq::new(
                    items@.len(),
                    |i: int|
                        if 0 <= i < items@.len() {
                            items@[i].ivalue_view()
                        } else {
                            IValueView::Boolean(false)
                        },
                ),
            ),
        }
    }
}

impl View for IValue {
    type V = IValueView;

    open spec fn view(&self) -> IValueView {
        self.ivalue_view()
    }
}

/// The views of a sequence of interface values.
pub open spec fn ivalues_view(values: Seq<IValue>) -> Seq<IValueView> {
    values.map_values(|v: IValue| v@)
}

/// `name(inner)`: how a derived `Debug` writes a variant with one field.
pub open spec fn variant(name: Seq<char>, inner: Seq<char>) -> Seq<char> {
    name + "("@ + inner + ")"@
}

/// The texts joined with `", "` between them.
pub open spec fn joined(texts: Seq<Seq<char>>) -> Seq<char>
    decreases texts.len(),
{
    if texts.len() == 0 {
        Seq::empty()
    } else if texts.len() == 1 {
        texts[0]
    } else {
        joined(texts.drop_last()) + ", "@ + texts.last()
    }
}

/// `[a, b, c]`: how `Debug` writes a sequence whose items read `a`, `b` and `c`.
pub open spec fn list_text(texts: Seq<Seq<char>>) -> Seq<char> {
    "["@ + joined(texts) + "]"@
}

/// The text that `{:?}` writes for a string: quoted, with its characters escaped.
pub uninterp spec fn str_debug_text(s: Seq<char>) -> Seq<char>;

/// The text that `{:?}` writes for an interface value: the name of its variant, then its
/// field in brackets, written as `Debug` writes an integer, a string or a sequence.
pub open spec fn ivalue_debug_text(value: IValueView) -> Seq<char>
    decreases value,
{
    match value {
        IValueView::Boolean(b) => variant("Boolean"@, if b { "true"@ } else { "false"@ }),
        IValueView::S8(v) => variant("S8"@, signed_decimal(v as int)),
        IValueView::S16(v) => variant("S16"@, signed_decimal(v as int)),
        IValueView::S32(v) => variant("S32"@, signed_decimal(v as int)),
        IValueView::S64(v) => variant("S64"@, signed_decimal(v as int)),
        IValueView::U8(v) => variant("U8"@, decimal(v as nat)),
        IValueView::U16(v) => variant("U16"@, decimal(v as nat)),
        IValueView::U32(v) => variant("U32"@, decimal(v as nat)),
        IValueView::U64(v) => variant("U64"@, decimal(v as nat)),
        IValueView::F32(t) => variant("F32"@, t),
        IValueView::F64(t) => variant("F64"@, t),
        IValueView::String(s) => variant("String"@, str_debug_text(s)),
        IValueView::ByteArray(bytes) => variant("ByteArray"@, list_text(bytes_texts(bytes))),
        IValueView::Array(items) => variant("Array"@, list_text(ivalues_texts(items))),
        IValueView::I32(v) => variant("I32"@, signed_decimal(v as int)),
        IValueView::I64(v) => variant("I64"@, signed_decimal(v as int)),
        IValueView::Record(items) => variant("Record"@, list_text(ivalues_texts(items))),
    }
}

/// The decimal texts of bytes.
pub open spec fn bytes_texts(bytes: Seq<u8>) -> Seq<Seq<char>> {
    bytes.map_values(|b: u8| decimal(b as nat))
}

/// The `Debug` texts of interface values, in order.
pub open spec fn ivalues_texts(values: Seq<IValueView>) -> Seq<Seq<char>>
    decreases values,
{
    if values.len() == 0 {
        Seq::empty()
    } else {
        ivalues_texts(values.drop_last()).push(ivalue_debug_text(values.last()))
    }
}

/// `ivalues_texts` holds the text of each value at its place.
proof fn lemma_ivalues_texts(values: Seq<IValueView>)
    ensures
        ivalues_texts(values).len() == values.len(),
        forall|i: int| 0 <= i < values.len() ==> #[trigger] ivalues_texts(values)[i] == ivalue_debug_text(values[i]),
    decreases values.len(),
{
    if values.len() > 0 {
        lemma_ivalues_texts(values.drop_last());
    }
}

/// The text that `{:?}` writes for a sequence of interface values.
pub open spec fn ivalues_debug_text(values: Seq<IValueView>) -> Seq<char> {
    list_text(ivalues_texts(values))
}

/// `format!("{:?}", s)`: std's `Debug` of a string slice, which quotes it and escapes its
/// characters. The contract names that text and says nothing more of it.
#[verifier::external_body]
fn str_debug(s: &str) -> (text: String)
    ensures
        text@ == str_debug_text(s@),
{
    format!("{:?}", s)
}

/// `name(inner)`.
fn variant_text(name: &str, inner: &str) -> (text: String)
    ensures
        text@ == variant(name@, inner@),
{
    let mut text = String::from_str(name);
    text.append("(");
    text.append(inner);
    text.append(")");
    assert(text@ =~= variant(name@, inner@));
    text
}

/// `[` + `body` + `]`.
fn bracketed(body: &str) -> (text: String)
    ensures
        text@ == "["@ + body@ + "]"@,
{
    let mut text = String::from_str("[");
    text.append(body);
    text.append("]");
    text
}

/// Appends the `i`-th text of a list to the joined texts before it.
proof fn lemma_joined_push(texts: Seq<Seq<char>>, i: int)
    requires
        0 <= i < texts.len(),
    ensures
        joined(texts.take(i + 1)) == if i == 0 {
            texts[0]
        } else {
            joined(texts.take(i)) + ", "@ + texts[i]
        },
{
    assert(texts.take(i + 1).drop_last() =~= texts.take(i));
}

/// `[b0, b1, ...]`, the bytes in decimal.
fn bytes_debug(bytes: &Vec<u8>) -> (text: String)
    ensures
        text@ == list_text(bytes_texts(bytes@)),
{
    let ghost texts = bytes_texts(bytes@);
    let mut body = String::new();
    let mut i: usize = 0;
    assert(texts.take(0).len() == 0);
    while i < bytes.len()
        invariant
            texts == bytes_texts(bytes@),
            i <= bytes.len(),
            body@ == joined(texts.take(i as int)),
        decreases bytes.len() - i,
    {
        let t = u64_to_string(bytes[i] as u64);
        proof {
            lemma_joined_push(texts, i as int);
        }
        if i > 0 {
            body.append(", ");
        }
        body.append(t.as_str());
        i = i + 1;
    }
    assert(texts.take(i as int) =~= texts);
    bracketed(body.as_str())
}

/// `[v0, v1, ...]`, each value as `{:?}` writes it.
fn ivalues_debug(values: &Vec<IValue>) -> (text: String)
    ensures
        text@ == ivalues_debug_text(ivalues_view(values@)),
    decreases values,
{
    let ghost texts = ivalues_texts(ivalues_view(values@));
    proof {
        lemma_ivalues_texts(ivalues_view(values@));
    }
    let mut body = String::new();
    let mut i: usize = 0;
    assert(texts.take(0).len() == 0);
    while i < values.len()
        invariant
            texts == ivalues_texts(ivalues_view(values@)),
            texts.len() == values@.len(),
            forall|j: int| 0 <= j < values@.len() ==> #[trigger] texts[j] == ivalue_debug_text(values@[j]@),
            i <= values.len(),
            body@ == joined(texts.take(i as int)),
        decreases values.len() - i,
    {
        proof {
            broadcast use vstd::std_specs::vec::axiom_vec_index_decreases;
        }
        assert(decreases_to!(*values => values[i as int]));
        let t = ivalue_debug(&values[i]);
        proof {
            lemma_joined_push(texts, i as int);
        }
        if i > 0 {
            body.append(", ");
        }
        body.append(t.as_str());
        i = i + 1;
    }
    assert(texts.take(i as int) =~= texts);
    bracketed(body.as_str())
}

/// The text that `{:?}` writes for `value`.
fn ivalue_debug(value: &IValue) -> (text: String)
    ensures
        text@ == ivalue_debug_text(value@),
    decreases value,
{
    match value {
        IValue::Boolean(b) => variant_text("Boolean", if *b { "true" } else { "false" }),
        IValue::S8(v) => variant_text("S8", i64_to_string(*v as i64).as_str()),
        IValue::S16(v) => variant_text("S16", i64_to_string(*v as i64).as_str()),
        IValue::S32(v) => variant_text("S32", i64_to_string(*v as i64).as_str()),
        IValue::S64(v) => variant_text("S64", i64_to_string(*v).as_str()),
        IValue::U8(v) => variant_text("U8", u64_to_string(*v as u64).as_str()),
        IValue::U16(v) => variant_text("U16", u64_to_string(*v as u64).as_str()),
        IValue::U32(v) => variant_text("U32", u64_to_string(*v as u64).as_str()),
        IValue::U64(v) => variant_text("U64", u64_to_string(*v).as_str()),
        IValue::F32(t) => variant_text("F32", t.as_str()),
        IValue::F64(t) => variant_text("F64", t.as_str()),
        IValue::String(s) => variant_text("String", str_debug(s.as_str()).as_str()),
        IValue::ByteArray(bytes) => variant_text("ByteArray", bytes_debug(bytes).as_str()),
        IValue::Array(items) => {
            assert(decreases_to!(*value => (*value)->Array_0));
            let inner = ivalues_debug(items);
            assert(ivalues_view(items@) =~= value@->Array_0);
            variant_text("Array", inner.as_str())
        },
        IValue::I32(v) => variant_text("I32", i64_to_string(*v as i64).as_str()),
        IValue::I64(v) => variant_text("I64", i64_to_string(*v).as_str()),
        IValue::Record(items) => {
            assert(decreases_to!(*value => (*value)->Record_0));
            let inner = ivalues_debug(items);
            assert(ivalues_view(items@) =~= value@->Record_0);
            variant_text("Record", inner.as_str())
        },
    }
}

/// `prefix`, then `got`.
fn message(prefix: &str, got: &String) -> (text: String)
    ensures
        text@ == prefix@ + got@,
{
    let mut text = String::from_str(prefix);
    text.append(got.as_str());
    text
}

/// `prefix`, `field`, `", got "`, then `got`.
fn field_message(prefix: &str, field: &str, got: &String) -> (text: String)
    ensures
        text@ == prefix@ + field@ + ", got "@ + got@,
{
    let mut text = String::from_str(prefix);
    text.append(field);
    text.append(", got ");
    text.append(got.as_str());
    text
}

/// The code that the outcome of a successful run has.
pub const INTERPRETER_SUCCESS: i32 = 0;

/// Describes a result returned at the end of the interpreter execution.
#[derive(Debug, PartialEq, Eq)]
pub struct InterpreterOutcome {
    /// A return code, where INTERPRETER_SUCCESS means success.
    pub ret_code: i32,
    /// Contains error message if ret_code != INTERPRETER_SUCCESS.
    pub error_message: String,
    /// Contains script data that should be preserved in an executor of this interpreter
    /// regardless of ret_code value.
    pub data: Vec<u8>,
    /// Public keys of peers that should receive data.
    pub next_peer_pks: Vec<String>,
    /// Collected parameters of all met call instructions that could be executed on a
    /// current peer.
    pub call_requests: Vec<u8>,
}

/// An outcome as mathematics sees it.
pub struct OutcomeView {
    pub ret_code: i32,
    pub error_message: Seq<char>,
    pub data: Seq<u8>,
    pub next_peer_pks: Seq<Seq<char>>,
    pub call_requests: Seq<u8>,
}

impl View for InterpreterOutcome {
    type V = OutcomeView;

    open spec fn view(&self) -> OutcomeView {
        OutcomeView {
            ret_code: self.ret_code,
            error_message: self.error_message@,
            data: self.data@,
            next_peer_pks: self.next_peer_pks@.map_values(|s: String| s@),
            call_requests: self.call_requests@,
        }
    }
}

/// The fields of a record, or the error for any other value.
pub open spec fn spec_try_as_record(value: IValueView) -> Result<Seq<IValueView>, Seq<char>> {
    match value {
        IValueView::Record(fields) => Ok(fields),
        v => Err("expected record for InterpreterOutcome, got "@ + ivalue_debug_text(v)),
    }
}

/// The integer of an `S32` value, or the error for any other value.
pub open spec fn spec_try_as_i32(value: IValueView, field_name: Seq<char>) -> Result<i32, Seq<char>> {
    match value {
        IValueView::S32(v) => Ok(v),
        v => Err("expected an i32 for "@ + field_name + ", got "@ + ivalue_debug_text(v)),
    }
}

/// The string of a `String` value, or the error for any other value.
pub open spec fn spec_try_as_string(value: IValueView, field_name: Seq<char>) -> Result<
    Seq<char>,
    Seq<char>,
> {
    match value {
        IValueView::String(s) => Ok(s),
        v => Err("expected a string for "@ + field_name + ", got "@ + ivalue_debug_text(v)),
    }
}

/// The byte of a `U8` value, or the error for any other value.
pub open spec fn byte_step() -> spec_fn(int, IValueView) -> Result<u8, Seq<char>> {
    |_i: int, v: IValueView|
        match v {
            IValueView::U8(b) => Ok(b),
            v => Err("expected a byte, got "@ + ivalue_debug_text(v)),
        }
}

/// The string of a `String` value, or the error for any other value.
pub open spec fn string_step() -> spec_fn(int, IValueView) -> Result<Seq<char>, Seq<char>> {
    |_i: int, v: IValueView|
        match v {
            IValueView::String(s) => Ok(s),
            v => Err("expected string for next_peer_pks, got "@ + ivalue_debug_text(v)),
        }
}

/// The bytes of a sequence of `U8` values, or the error for the first value that is no
/// byte.
pub open spec fn bytes_of(items: Seq<IValueView>) -> Result<Seq<u8>, Seq<char>> {
    collect_results(items, byte_step())
}

/// The strings of a sequence of `String` values, or the error for the first value that
/// is no string.
pub open spec fn strings_of(items: Seq<IValueView>) -> Result<Seq<Seq<char>>, Seq<char>> {
    collect_results(items, string_step())
}

/// The bytes of an array of bytes or of a byte array, or the error.
pub open spec fn spec_try_as_byte_vec(value: IValueView, field_name: Seq<char>) -> Result<
    Seq<u8>,
    Seq<char>,
> {
    match value {
        IValueView::Array(items) => bytes_of(items),
        IValueView::ByteArray(bytes) => Ok(bytes),
        v => Err("expected a Vec<u8> for "@ + field_name + ", got "@ + ivalue_debug_text(v)),
    }
}

/// The strings of an array of strings, or the error.
pub open spec fn spec_try_as_string_vec(value: IValueView, field_name: Seq<char>) -> Result<
    Seq<Seq<char>>,
    Seq<char>,
> {
    match value {
        IValueView::Array(items) => strings_of(items),
        v => Err("expected an array for "@ + field_name + ", got "@ + ivalue_debug_text(v)),
    }
}

/// The outcome that a record of five fields describes, or the error: the fields are read
/// from the last to the first, and the first that is refused gives the error.
pub open spec fn spec_from_ivalue(value: IValueView) -> Result<OutcomeView, Seq<char>> {
    match spec_try_as_record(value) {
        Err(e) => Err(e),
        Ok(fields) => if fields.len() != 5 {
            Err("expected InterpreterOutcome struct with 5 fields, got "@ + ivalues_debug_text(fields))
        } else {
            match spec_try_as_byte_vec(fields[4], "call_requests"@) {
                Err(e) => Err(e),
                Ok(call_requests) => match spec_try_as_string_vec(fields[3], "next_peer_pks"@) {
                    Err(e) => Err(e),
                    Ok(next_peer_pks) => match spec_try_as_byte_vec(fields[2], "data"@) {
                        Err(e) => Err(e),
                        Ok(data) => match spec_try_as_string(fields[1], "error_message"@) {
                            Err(e) => Err(e),
                            Ok(error_message) => match spec_try_as_i32(fields[0], "ret_code"@) {
                                Err(e) => Err(e),
                                Ok(ret_code) => Ok(
                                    OutcomeView {
                                        ret_code,
                                        error_message,
                                        data,
                                        next_peer_pks,
                                        call_requests,
                                    },
                                ),
                            },
                        },
                    },
                },
            }
        }
    }
}

/// The record in which an outcome is handed over: its fields in order, the byte fields as
/// byte arrays and the peers as an array of strings.
pub open spec fn outcome_record(outcome: OutcomeView) -> IValueView {
    IValueView::Record(
        seq![
            IValueView::S32(outcome.ret_code),
            IValueView::String(outcome.error_message),
            IValueView::ByteArray(outcome.data),
            IValueView::Array(outcome.next_peer_pks.map_values(|s: Seq<char>| IValueView::String(s))),
            IValueView::ByteArray(outcome.call_requests),
        ],
    )
}

/// Reading the record of an outcome gives back the outcome.
pub proof fn lemma_outcome_record_roundtrip(outcome: OutcomeView)
    ensures
        spec_from_ivalue(outcome_record(outcome)) == Ok::<OutcomeView, Seq<char>>(outcome),
{
    lemma_strings_of_strings(outcome.next_peer_pks);
}

/// An array of strings reads back as its strings.
proof fn lemma_strings_of_strings(strings: Seq<Seq<char>>)
    ensures
        strings_of(strings.map_values(|s: Seq<char>| IValueView::String(s))) == Ok::<Seq<Seq<char>>, Seq<char>>(
            strings,
        ),
    decreases strings.len(),
{
    if strings.len() == 0 {
        assert(strings =~= Seq::<Seq<char>>::empty());
    } else {
        let init = strings.drop_last();
        lemma_strings_of_strings(init);
        assert(strings.map_values(|s: Seq<char>| IValueView::String(s)).drop_last() =~= init.map_values(
            |s: Seq<char>| IValueView::String(s),
        ));
        assert(strings =~= init.push(strings.last()));
        assert(strings.map_values(|s: Seq<char>| IValueView::String(s)).last() == IValueView::String(
            strings.last(),
        ));
    }
}

impl InterpreterOutcome {
    /// Reads an outcome from the record of five fields that the interpreter hands back.
    pub fn from_ivalue(ivalue: IValue) -> (outcome: Result<Self, String>)
        ensures
            match spec_from_ivalue(ivalue@) {
                Ok(v) => outcome matches Ok(o) && o@ == v,
                Err(e) => outcome matches Err(m) && m@ == e,
            },
    {
        let mut record_values = match try_as_record(ivalue) {
            Ok(values) => values,
            Err(e) => return Err(e),
        };
        if record_values.len() != 5 {
            let got = ivalues_debug(&record_values);
            return Err(message("expected InterpreterOutcome struct with 5 fields, got ", &got));
        }
        let ghost fields = ivalues_view(record_values@);
        let v4 = record_values.pop().unwrap();
        assert(v4@ == fields[4]);
        let call_requests = match try_as_byte_vec(v4, "call_requests") {
            Ok(v) => v,
            Err(e) => return Err(e),
        };
        let v3 = record_values.pop().unwrap();
        assert(v3@ == fields[3]);
        let next_peer_pks = match try_as_string_vec(v3, "next_peer_pks") {
            Ok(v) => v,
            Err(e) => return Err(e),
        };
        let v2 = record_values.pop().unwrap();
        assert(v2@ == fields[2]);
        let data = match try_as_byte_vec(v2, "data") {
            Ok(v) => v,
            Err(e) => return Err(e),
        };
        let v1 = record_values.pop().unwrap();
        assert(v1@ == fields[1]);
        let error_message = match try_as_string(v1, "error_message") {
            Ok(v) => v,
            Err(e) => return Err(e),
        };
        let v0 = record_values.pop().unwrap();
        assert(v0@ == fields[0]);
        let ret_code = match try_as_i32(v0, "ret_code") {
            Ok(v) => v,
            Err(e) => return Err(e),
        };
        let outcome = Self { ret_code, error_message, data, next_peer_pks, call_requests };
        Ok(outcome)
    }
}

/// The fields of a record.
pub fn try_as_record(ivalue: IValue) -> (fields: Result<Vec<IValue>, String>)
    ensures
        match spec_try_as_record(ivalue@) {
            Ok(f) => fields matches Ok(v) && ivalues_view(v@) == f,
            Err(e) => fields matches Err(m) && m@ == e,
        },
{
    match ivalue {
        IValue::Record(record_values) => {
            assert(ivalues_view(record_values@) =~= ivalue@->Record_0);
            Ok(record_values)
        },
        v => Err(message("expected record for InterpreterOutcome, got ", &ivalue_debug(&v))),
    }
}

/// The integer of an `S32` value.
pub fn try_as_i32(ivalue: IValue, field_name: &str) -> (value: Result<i32, String>)
    ensures
        match spec_try_as_i32(ivalue@, field_name@) {
            Ok(i) => value == Ok::<i32, String>(i),
            Err(e) => value matches Err(m) && m@ == e,
        },
{
    match ivalue {
        IValue::S32(value) => Ok(value),
        v => Err(field_message("expected an i32 for ", field_name, &ivalue_debug(&v))),
    }
}

/// The string of a `String` value.
pub fn try_as_string(ivalue: IValue, field_name: &str) -> (value: Result<String, String>)
    ensures
        match spec_try_as_string(ivalue@, field_name@) {
            Ok(s) => value matches Ok(v) && v@ == s,
            Err(e) => value matches Err(m) && m@ == e,
        },
{
    match ivalue {
        IValue::String(value) => Ok(value),
        v => Err(field_message("expected a string for ", field_name, &ivalue_debug(&v))),
    }
}

/// The bytes of an array of `U8` values or of a byte array.
pub fn try_as_byte_vec(ivalue: IValue, field_name: &str) -> (value: Result<Vec<u8>, String>)
    ensures
        match spec_try_as_byte_vec(ivalue@, field_name@) {
            Ok(b) => value matches Ok(v) && v@ == b,
            Err(e) => value matches Err(m) && m@ == e,
        },
{
    match ivalue {
        IValue::Array(array) => {
            let ghost items = ivalues_view(array@);
            assert(items =~= ivalue@->Array_0);
            let mut bytes: Vec<u8> = Vec::new();
            let mut i: usize = 0;
            assert(items.take(0) =~= Seq::<IValueView>::empty());
            while i < array.len()
                invariant
                    items == ivalues_view(array@),
                    ivalue@ is Array,
                    items == ivalue@->Array_0,
                    i <= array.len(),
                    bytes_of(items.take(i as int)) == Ok::<Seq<u8>, Seq<char>>(bytes@),
                decreases array.len() - i,
            {
                assert(items.take(i + 1).drop_last() =~= items.take(i as int));
                match &array[i] {
                    IValue::U8(byte) => {
                        bytes.push(*byte);
                    },
                    v => {
                        let m = message("expected a byte, got ", &ivalue_debug(v));
                        assert(items[i as int] == v@);
                        assert(items.take(i + 1).last() == v@);
                        assert(!(v@ is U8));
                        assert(bytes_of(items.take(i + 1)) == Err::<Seq<u8>, Seq<char>>(m@));
                        proof {
                            lemma_first_error_stays(items, byte_step(), i as int);
                        }
                        return Err(m);
                    },
                }
                i = i + 1;
            }
            assert(items.take(i as int) =~= items);
            Ok(bytes)
        },
        IValue::ByteArray(array) => Ok(array),
        v => Err(field_message("expected a Vec<u8> for ", field_name, &ivalue_debug(&v))),
    }
}

/// The strings of an array of `String` values.
pub fn try_as_string_vec(ivalue: IValue, field_name: &str) -> (value: Result<Vec<String>, String>)
    ensures
        match spec_try_as_string_vec(ivalue@, field_name@) {
            Ok(s) => value matches Ok(v) && v@.map_values(|x: String| x@) == s,
            Err(e) => value matches Err(m) && m@ == e,
        },
{
    match ivalue {
        IValue::Array(ar_values) => {
            let ghost items = ivalues_view(ar_values@);
            assert(items =~= ivalue@->Array_0);
            let mut strings: Vec<String> = Vec::new();
            let mut i: usize = 0;
            assert(items.take(0) =~= Seq::<IValueView>::empty());
            assert(strings@.map_values(|x: String| x@) =~= Seq::<Seq<char>>::empty());
            while i < ar_values.len()
                invariant
                    items == ivalues_view(ar_values@),
                    ivalue@ is Array,
                    items == ivalue@->Array_0,
                    i <= ar_values.len(),
                    strings_of(items.take(i as int)) == Ok::<Seq<Seq<char>>, Seq<char>>(
                        strings@.map_values(|x: String| x@),
                    ),
                decreases ar_values.len() - i,
            {
                assert(items.take(i + 1).drop_last() =~= items.take(i as int));
                match &ar_values[i] {
                    IValue::String(s) => {
                        let ghost before = strings@;
                        strings.push(s.clone());
                        assert(strings@.map_values(|x: String| x@) =~= before.map_values(|x: String| x@).push(s@));
                    },
                    v => {
                        let m = message("expected string for next_peer_pks, got ", &ivalue_debug(v));
                        assert(items[i as int] == v@);
                        assert(items.take(i + 1).last() == v@);
                        assert(!(v@ is String));
                        assert(strings_of(items.take(i + 1)) == Err::<Seq<Seq<char>>, Seq<char>>(m@));
                        proof {
                            lemma_first_error_stays(items, string_step(), i as int);
                        }
                        return Err(m);
                    },
                }
                i = i + 1;
            }
            assert(items.take(i as int) =~= items);
            Ok(strings)
        },
        v => Err(field_message("expected an array for ", field_name, &ivalue_debug(&v))),
    }
}

} // verus!
