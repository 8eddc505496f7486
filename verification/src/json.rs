use vstd::prelude::*;

verus! {

/// A JSON number, held as `serde_json` holds it: a non-negative integer, a negative
/// integer, or a finite float given by its IEEE 754 bits.
#[derive(Clone, Copy, Debug, PartialEq, Eq, Structural)]
pub enum JNumber {
    PosInt(u64),
    /// Always less than zero.
    NegInt(i64),
    Float(u64),
}

impl JNumber {
    /// Whether the number is an integer that fits in an `i64`.
    pub open spec fn spec_fits_i64(self) -> bool {
        match self {
            JNumber::PosInt(v) => v <= i64::MAX,
            JNumber::NegInt(_) => true,
            JNumber::Float(_) => false,
        }
    }

    /// Whether the number is an integer that fits in a `u64`.
    pub open spec fn spec_fits_u64(self) -> bool {
        self is PosInt
    }

    /// The integer the number stands for, where it is one.
    pub open spec fn integer(self) -> int {
        match self {
            JNumber::PosInt(v) => v as int,
            JNumber::NegInt(v) => v as int,
            JNumber::Float(_) => 0,
        }
    }

    pub fn is_i64(&self) -> (fits: bool)
        ensures
            fits == self.spec_fits_i64(),
    {
        match self {
            JNumber::PosInt(v) => *v <= 0x7fff_ffff_ffff_ffff,
            JNumber::NegInt(_) => true,
            JNumber::Float(_) => false,
        }
    }

    pub fn is_u64(&self) -> (fits: bool)
        ensures
            fits == self.spec_fits_u64(),
    {
        match self {
            JNumber::PosInt(_) => true,
            _ => false,
        }
    }

    pub fn as_i64(&self) -> (value: Option<i64>)
        ensures
            self.spec_fits_i64() ==> value == Some(self.integer() as i64),
            !self.spec_fits_i64() ==> value is None,
    {
        match self {
            JNumber::PosInt(v) => {
                if *v <= 0x7fff_ffff_ffff_ffff {
                    Some(*v as i64)
                } else {
                    None
                }
            },
            JNumber::NegInt(v) => Some(*v),
            JNumber::Float(_) => None,
        }
    }

    pub fn as_u64(&self) -> (value: Option<u64>)
        ensures
            self.spec_fits_u64() ==> value == Some(self.integer() as u64),
            !self.spec_fits_u64() ==> value is None,
    {
        match self {
            JNumber::PosInt(v) => Some(*v),
            _ => None,
        }
    }
}

/// A JSON value, the values that AIR scripts handle.
#[derive(Debug, PartialEq)]
pub enum JValue {
    Null,
    Bool(bool),
    Number(JNumber),
    String(String),
    Array(Vec<JValue>),
    /// The fields of an object, in order. Every object that this crate builds names each
    /// field once (`fields_distinct`), as `serde_json` objects do; a lookup takes the first
    /// field of a name.
    Object(Vec<(String, JValue)>),
}

/// A JSON value as mathematics sees it.
pub enum JsonView {
    Null,
    Bool(bool),
    Number(JNumber),
    String(Seq<char>),
    Array(Seq<JsonView>),
    Object(Seq<(Seq<char>, JsonView)>),
}

impl JValue {
    pub open spec fn json(self) -> JsonView
        decreases self,
    {
        match self {
            JValue::Null => JsonView::Null,
            JValue::Bool(b) => JsonView::Bool(b),
            JValue::Number(n) => JsonView::Number(n),
            JValue::String(s) => JsonView::String(s@),
            JValue::Array(items) => JsonView::Array(
                Seq::new(
                    items@.len(),
                    |i: int|
                        if 0 <= i < items@.len() {
                            items@[i].json()
                        } else {
                            JsonView::Null
                        },
                ),
            ),
            JValue::Object(fields) => JsonView::Object(
                Seq::new(
                    fields@.len(),
                    |i: int|
                        if 0 <= i < fields@.len() {
                            (fields@[i].0@, fields@[i].1.json())
                        } else {
                            (Seq::empty(), JsonView::Null)
                        },
                ),
            ),
        }
    }
}

impl View for JValue {
    type V = JsonView;

    open spec fn view(&self) -> JsonView {
        self.json()
    }
}

/// No two fields have the same name.
pub open spec fn fields_distinct(fields: Seq<(Seq<char>, JsonView)>) -> bool {
    forall|a: int, b: int|
        0 <= a < fields.len() && 0 <= b < fields.len() && a != b ==> #[trigger] fields[a].0
            != #[trigger] fields[b].0
}

/// The value of the first field named `name`; `None` where there is none.
pub open spec fn field_lookup(fields: Seq<(Seq<char>, JsonView)>, name: Seq<char>) -> Option<
    JsonView,
>
    decreases fields.len(),
{
    if fields.len() == 0 {
        None
    } else if fields[0].0 == name {
        Some(fields[0].1)
    } else {
        field_lookup(fields.drop_first(), name)
    }
}

/// The value of field `name` of `value`, where `value` is an object that has one.
pub open spec fn object_field(value: JsonView, name: Seq<char>) -> Option<JsonView> {
    match value {
        JsonView::Object(fields) => field_lookup(fields, name),
        _ => None,
    }
}

proof fn lemma_field_lookup_skip(fields: Seq<(Seq<char>, JsonView)>, name: Seq<char>, i: int)
    requires
        0 <= i < fields.len(),
        fields[i].0 != name,
    ensures
        field_lookup(fields.skip(i), name) == field_lookup(fields.skip(i + 1), name),
{
    assert(fields.skip(i).drop_first() =~= fields.skip(i + 1));
}

impl JValue {
    /// A copy of the value, down to its leaves.
    pub fn deep_copy(&self) -> (copy: JValue)
        ensures
            copy@ == self@,
        decreases self,
    {
        match self {
            JValue::Null => JValue::Null,
            JValue::Bool(b) => JValue::Bool(*b),
            JValue::Number(n) => JValue::Number(*n),
            JValue::String(s) => JValue::String(s.clone()),
            JValue::Array(items) => {
                let mut copies: Vec<JValue> = Vec::new();
                let mut i: usize = 0;
                while i < items.len()
                    invariant
                        *self == JValue::Array(*items),
                        i <= items.len(),
                        copies@.len() == i,
                        forall|j: int| 0 <= j < i ==> #[trigger] copies@[j]@ == items@[j]@,
                    decreases items.len() - i,
                {
                    proof {
                        broadcast use vstd::std_specs::vec::axiom_vec_index_decreases;
                    }
                    assert(decreases_to!(*items => items[i as int]));
                    assert(decreases_to!(*self => (*self)->Array_0));
                    let c = items[i].deep_copy();
                    copies.push(c);
                    i = i + 1;
                }
                let copy = JValue::Array(copies);
                assert(copy@ == self@) by {
                    if let JsonView::Array(a) = copy@ {
                        if let JsonView::Array(b) = self@ {
                            assert forall|j: int| 0 <= j < a.len() implies a[j] == b[j] by {
                                assert(copies@[j]@ == items@[j]@);
                            }
                            assert(a =~= b);
                        }
                    }
                }
                copy
            },
            JValue::Object(fields) => {
                let mut copies: Vec<(String, JValue)> = Vec::new();
                let mut i: usize = 0;
                while i < fields.len()
                    invariant
                        *self == JValue::Object(*fields),
                        i <= fields.len(),
                        copies@.len() == i,
                        forall|j: int|
                            0 <= j < i ==> #[trigger] copies@[j].0@ == fields@[j].0@ && copies@[j].1@
                                == fields@[j].1@,
                    decreases fields.len() - i,
                {
                    proof {
                        broadcast use vstd::std_specs::vec::axiom_vec_index_decreases;
                    }
                    assert(decreases_to!(*fields => fields[i as int]));
                    assert(decreases_to!(fields[i as int] => fields[i as int].1));
                    assert(decreases_to!(*self => (*self)->Object_0));
                    let name = fields[i].0.clone();
                    let c = fields[i].1.deep_copy();
                    copies.push((name, c));
                    i = i + 1;
                }
                let copy = JValue::Object(copies);
                assert(copy@ == self@) by {
                    if let JsonView::Object(a) = copy@ {
                        if let JsonView::Object(b) = self@ {
                            assert forall|j: int| 0 <= j < a.len() implies a[j] == b[j] by {
                                assert(copies@[j].0@ == fields@[j].0@);
                            }
                            assert(a =~= b);
                        }
                    }
                }
                copy
            },
        }
    }

    /// The fields of the value, where it is an object.
    pub fn as_object(&self) -> (fields: Option<&Vec<(String, JValue)>>)
        ensures
            self@ is Object <==> fields is Some,
            fields matches Some(f) ==> self@ == JValue::Object(*f)@,
    {
        match self {
            JValue::Object(fields) => Some(fields),
            _ => None,
        }
    }
}

impl Clone for JValue {
    fn clone(&self) -> (copy: Self)
        ensures
            copy@ == self@,
    {
        self.deep_copy()
    }
}

/// The value of the first field called `name` among `fields`.
pub fn get_field<'a>(fields: &'a Vec<(String, JValue)>, name: &String) -> (value: Option<&'a JValue>)
    ensures
        value matches Some(v) ==> field_lookup(JValue::Object(*fields)@->Object_0, name@) == Some(v@),
        value is None ==> field_lookup(JValue::Object(*fields)@->Object_0, name@) is None,
{
    let ghost all = JValue::Object(*fields)@->Object_0;
    let mut i: usize = 0;
    assert(all.skip(0) =~= all);
    while i < fields.len()
        invariant
            all == JValue::Object(*fields)@->Object_0,
            all.len() == fields@.len(),
            i <= fields.len(),
            field_lookup(all, name@) == field_lookup(all.skip(i as int), name@),
        decreases fields.len() - i,
    {
        if fields[i].0 == *name {
            assert(all.skip(i as int)[0] == all[i as int]);
            return Some(&fields[i].1);
        }
        proof {
            lemma_field_lookup_skip(all, name@, i as int);
        }
        i = i + 1;
    }
    assert(all.skip(i as int).len() == 0);
    None
}

} // verus!
