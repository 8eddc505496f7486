use vstd::prelude::*;

use crate::errors::{CatchableError, CatchableErrorView, ExecutionError, ExecutionResult, LambdaError, LambdaErrorView};
use crate::json::{fields_distinct, field_lookup, get_field, JNumber, JValue, JsonView};
use crate::lambda_ast::{lambda_text, AccessorView, Functor, LambdaAST, LambdaView, ValueAccessor};
use crate::security_tetraplet::{Provenance, SecurityTetraplet, TetrapletView};
use crate::value_aggregate::ValueAggregate;

verus! {

/// The value that one accessor selects from `value`, or the error.
pub open spec fn select_step(value: JsonView, accessor: AccessorView) -> Result<JsonView, LambdaErrorView> {
    match accessor {
        AccessorView::ArrayAccess(idx) => match value {
            JsonView::Array(items) => if idx < items.len() {
                Ok(items[idx as int])
            } else {
                Err(LambdaErrorView::ValueNotContainsSuchArrayIdx { value, idx })
            },
            _ => Err(LambdaErrorView::ArrayAccessorNotMatchValue { value, idx }),
        },
        AccessorView::FieldAccessByName(field_name) => match value {
            JsonView::Object(fields) => match field_lookup(fields, field_name) {
                Some(v) => Ok(v),
                None => Err(LambdaErrorView::JsonValueNotContainsSuchField { value, field_name }),
            },
            _ => Err(LambdaErrorView::FieldAccessorNotMatchValue { value, field_name }),
        },
    }
}

/// The value that a path of accessors selects from `value`, step after step, or the error
/// of the first step that fails.
pub open spec fn select_path(value: JsonView, path: Seq<AccessorView>) -> Result<JsonView, LambdaErrorView>
    decreases path.len(),
{
    if path.len() == 0 {
        Ok(value)
    } else {
        match select_step(value, path[0]) {
            Err(e) => Err(e),
            Ok(v) => select_path(v, path.drop_first()),
        }
    }
}

/// The value that a lambda selects from `value`, or the error.
pub open spec fn select_by_lambda(value: JsonView, lambda: LambdaView) -> Result<JsonView, CatchableErrorView> {
    match lambda {
        LambdaView::ValuePath(path) => match select_path(value, path) {
            Ok(v) => Ok(v),
            Err(e) => Err(CatchableErrorView::LambdaApplierError(e)),
        },
        LambdaView::Functor(Functor::Length) => match value {
            JsonView::Array(items) => Ok(JsonView::Number(JNumber::PosInt(items.len() as u64))),
            _ => Err(CatchableErrorView::LengthFunctorAppliedToNotArray(value)),
        },
    }
}

/// An empty path selects the value itself, and selecting by `a + b` is selecting by `a`,
/// then by `b` from what `a` selected; where `a` fails, so does `a + b`, with its error.
pub proof fn lemma_select_path_concat(value: JsonView, a: Seq<AccessorView>, b: Seq<AccessorView>)
    ensures
        select_path(value, Seq::empty()) == Ok::<JsonView, LambdaErrorView>(value),
        select_path(value, a + b) == match select_path(value, a) {
            Ok(v) => select_path(v, b),
            Err(e) => Err(e),
        },
    decreases a.len(),
{
    if a.len() > 0 {
        assert((a + b).drop_first() =~= a.drop_first() + b);
        assert((a + b)[0] == a[0]);
        match select_step(value, a[0]) {
            Ok(v) => lemma_select_path_concat(v, a.drop_first(), b),
            Err(_) => {},
        }
    } else {
        assert(a + b =~= b);
    }
}

/// An array accessor selects the item at its index, or is refused with the array and the
/// index where the array has no such item.
pub proof fn lemma_array_accessor(items: Seq<JsonView>, idx: u32)
    ensures
        idx < items.len() ==> select_path(JsonView::Array(items), seq![AccessorView::ArrayAccess(idx)])
            == Ok::<JsonView, LambdaErrorView>(items[idx as int]),
        idx >= items.len() ==> select_path(JsonView::Array(items), seq![AccessorView::ArrayAccess(idx)])
            == Err::<JsonView, LambdaErrorView>(
            LambdaErrorView::ValueNotContainsSuchArrayIdx { value: JsonView::Array(items), idx },
        ),
{
    let path = seq![AccessorView::ArrayAccess(idx)];
    assert(path.drop_first() =~= Seq::<AccessorView>::empty());
    assert(path[0] == AccessorView::ArrayAccess(idx));
    if idx < items.len() {
        assert(select_path(items[idx as int], path.drop_first()) == Ok::<JsonView, LambdaErrorView>(items[idx as int]));
    }
}

/// Among fields with distinct names, the first field of a name is the only one.
proof fn lemma_field_lookup_distinct(fields: Seq<(Seq<char>, JsonView)>, j: int)
    requires
        fields_distinct(fields),
        0 <= j < fields.len(),
    ensures
        field_lookup(fields, fields[j].0) == Some(fields[j].1),
    decreases j,
{
    if j > 0 {
        let rest = fields.drop_first();
        assert(fields[0].0 != fields[j].0);
        assert(rest[j - 1] == fields[j]);
        assert(fields_distinct(rest)) by {
            assert forall|a: int, b: int|
                0 <= a < rest.len() && 0 <= b < rest.len() && a != b implies #[trigger] rest[a].0 != #[trigger] rest[b].0 by {
                assert(rest[a] == fields[a + 1] && rest[b] == fields[b + 1]);
            }
        }
        lemma_field_lookup_distinct(rest, j - 1);
    }
}

/// A field accessor on an object whose names are distinct selects the value of the field
/// of that name.
pub proof fn lemma_field_accessor(fields: Seq<(Seq<char>, JsonView)>, j: int)
    requires
        fields_distinct(fields),
        0 <= j < fields.len(),
    ensures
        select_path(JsonView::Object(fields), seq![AccessorView::FieldAccessByName(fields[j].0)])
            == Ok::<JsonView, LambdaErrorView>(fields[j].1),
{
    lemma_field_lookup_distinct(fields, j);
    let path = seq![AccessorView::FieldAccessByName(fields[j].0)];
    assert(path.drop_first() =~= Seq::<AccessorView>::empty());
    assert(path[0] == AccessorView::FieldAccessByName(fields[j].0));
    assert(select_path(fields[j].1, path.drop_first()) == Ok::<JsonView, LambdaErrorView>(fields[j].1));
}

/// The length functor gives the number of items of any array, the empty one included,
/// and refuses exactly the values that are no arrays, with the value in its error.
pub proof fn lemma_length_functor(value: JsonView)
    ensures
        value is Array ==> select_by_lambda(value, LambdaView::Functor(Functor::Length)) is Ok,
        value is Array && value->Array_0.len() <= u64::MAX ==> select_by_lambda(
            value,
            LambdaView::Functor(Functor::Length),
        )->Ok_0 == JsonView::Number(JNumber::PosInt(value->Array_0.len() as u64)),
        value is Array && value->Array_0.len() <= u64::MAX ==> select_by_lambda(
            value,
            LambdaView::Functor(Functor::Length),
        )->Ok_0->Number_0.integer() == value->Array_0.len(),
        !(value is Array) ==> select_by_lambda(value, LambdaView::Functor(Functor::Length)) == Err::<
            JsonView,
            CatchableErrorView,
        >(CatchableErrorView::LengthFunctorAppliedToNotArray(value)),
{
}

/// The value that a lambda selects from a scalar.
pub fn select_by_lambda_from_scalar(value: &JValue, lambda: &LambdaAST) -> (selected: ExecutionResult<JValue>)
    ensures
        match select_by_lambda(value@, lambda@) {
            Ok(v) => selected matches Ok(s) && s@ == v,
            Err(e) => selected matches Err(ExecutionError::Catchable(c)) && c@ == e,
        },
{
    match lambda {
        LambdaAST::ValuePath(path) => match select_by_path(value, path) {
            Ok(v) => Ok(v.deep_copy()),
            Err(e) => Err(ExecutionError::Catchable(CatchableError::LambdaApplierError(e))),
        },
        LambdaAST::Functor(Functor::Length) => match value {
            JValue::Array(items) => Ok(JValue::Number(JNumber::PosInt(items.len() as u64))),
            _ => Err(ExecutionError::Catchable(CatchableError::LengthFunctorAppliedToNotArray(value.deep_copy()))),
        },
    }
}

/// The value that a path of accessors selects from `value`.
fn select_by_path<'v>(value: &'v JValue, path: &Vec<ValueAccessor>) -> (selected: Result<&'v JValue, LambdaError>)
    ensures
        match select_path(value@, path@.map_values(|a: ValueAccessor| a@)) {
            Ok(v) => selected matches Ok(s) && s@ == v,
            Err(e) => selected matches Err(err) && err@ == e,
        },
{
    let ghost pv = path@.map_values(|a: ValueAccessor| a@);
    let mut current: &JValue = value;
    let mut i: usize = 0;
    assert(pv.skip(0) =~= pv);
    while i < path.len()
        invariant
            pv == path@.map_values(|a: ValueAccessor| a@),
            i <= path.len(),
            select_path(value@, pv) == select_path(current@, pv.skip(i as int)),
        decreases path.len() - i,
    {
        let ghost rest = pv.skip(i as int);
        assert(rest[0] == path@[i as int]@);
        assert(rest.drop_first() =~= pv.skip(i + 1));
        match &path[i] {
            ValueAccessor::ArrayAccess { idx } => match current {
                JValue::Array(items) => {
                    if (*idx as usize) < items.len() {
                        current = &items[*idx as usize];
                    } else {
                        return Err(LambdaError::ValueNotContainsSuchArrayIdx { value: current.deep_copy(), idx: *idx });
                    }
                },
                _ => {
                    return Err(LambdaError::ArrayAccessorNotMatchValue { value: current.deep_copy(), idx: *idx });
                },
            },
            ValueAccessor::FieldAccessByName { field_name } => match current.as_object() {
                Some(fields) => match get_field(fields, field_name) {
                    Some(v) => {
                        current = v;
                    },
                    None => {
                        return Err(
                            LambdaError::JsonValueNotContainsSuchField {
                                value: current.deep_copy(),
                                field_name: field_name.clone(),
                            },
                        );
                    },
                },
                None => {
                    return Err(
                        LambdaError::FieldAccessorNotMatchValue { value: current.deep_copy(), field_name: field_name.clone() },
                    );
                },
            },
        }
        i = i + 1;
    }
    assert(pv.skip(i as int).len() == 0);
    Ok(current)
}

/// The tetraplet of a value selected by `lambda` from a value with `tetraplet`: the text of
/// the lambda is added to its lens.
pub fn populate_tetraplet_with_lambda(tetraplet: SecurityTetraplet, lambda: &LambdaAST) -> (populated: SecurityTetraplet)
    ensures
        populated@ == (TetrapletView { lens: tetraplet@.lens + lambda_text(lambda@), ..tetraplet@ }),
{
    let mut tetraplet = tetraplet;
    let text = lambda.to_text();
    tetraplet.add_lens(text.as_str());
    tetraplet
}

impl ValueAggregate {
    /// The part of the value that `lambda` selects.
    pub fn apply_lambda(&self, lambda: &LambdaAST) -> (selected: ExecutionResult<JValue>)
        ensures
            match select_by_lambda(self@.result, lambda@) {
                Ok(v) => selected matches Ok(s) && s@ == v,
                Err(e) => selected matches Err(ExecutionError::Catchable(c)) && c@ == e,
            },
    {
        let selected_value = select_by_lambda_from_scalar(self.get_result(), lambda);
        selected_value
    }

    /// The part of the value that `lambda` selects, with the tetraplet of the value whose
    /// lens the lambda extends, and the provenance of the value.
    pub fn apply_lambda_with_tetraplets(&self, lambda: &LambdaAST, _root_provenance: &Provenance) -> (selected:
        ExecutionResult<(JValue, SecurityTetraplet, Provenance)>)
        ensures
            match select_by_lambda(self@.result, lambda@) {
                Ok(v) => selected matches Ok((s, t, p)) && s@ == v && t@ == (TetrapletView {
                    lens: self@.tetraplet.lens + lambda_text(lambda@),
                    ..self@.tetraplet
                }) && p@ == self@.provenance,
                Err(e) => selected matches Err(ExecutionError::Catchable(c)) && c@ == e,
            },
    {
        let selected_value = match select_by_lambda_from_scalar(self.get_result(), lambda) {
            Ok(v) => v,
            Err(e) => return Err(e),
        };
        let tetraplet = populate_tetraplet_with_lambda(self.get_tetraplet(), lambda);
        Ok((selected_value, tetraplet, self.get_provenance()))
    }

    /// The value itself.
    pub fn as_jvalue(&self) -> (value: JValue)
        ensures
            value@ == self@.result,
    {
        self.get_result().deep_copy()
    }

    /// The value itself, out of its box.
    pub fn into_jvalue(self: Box<Self>) -> (value: JValue)
        ensures
            value@ == self@.result,
    {
        self.get_result().deep_copy()
    }

    /// The tetraplets of the value: its own.
    pub fn as_tetraplets(&self) -> (tetraplets: Vec<SecurityTetraplet>)
        ensures
            tetraplets@.len() == 1,
            tetraplets@[0]@ == self@.tetraplet,
    {
        let mut tetraplets = Vec::new();
        tetraplets.push(self.get_tetraplet());
        tetraplets
    }
}

} // verus!
