//! The typed value model: the tagged union stored in document fields, and its
//! lossless conversion to and from a generic external value.

use vstd::prelude::*;

verus! {

/// The type of a single field value inside a document.
///
/// Decimal numbers are kept in their original textual form (the `F64`
/// variant holds text, not a binary float), so that converting a value to
/// and from its external representation never loses precision. Equality is
/// variant-exact: values of different variants are never equal, even when
/// they would be numerically equivalent.
#[derive(Debug, Hash)]
pub enum DataType {
    Null,
    Bool(bool),
    F64(String),
    I64(i64),
    U64(u64),
    String(String),
}

/// The mathematical value of a `DataType`: the same shape, with text as a
/// sequence of characters.
pub enum DataTypeView {
    Null,
    Bool(bool),
    F64(Seq<char>),
    I64(i64),
    U64(u64),
    String(Seq<char>),
}

impl View for DataType {
    type V = DataTypeView;

    open spec fn view(&self) -> DataTypeView {
        match self {
            DataType::Null => DataTypeView::Null,
            DataType::Bool(b) => DataTypeView::Bool(*b),
            DataType::F64(s) => DataTypeView::F64(s@),
            DataType::I64(n) => DataTypeView::I64(*n),
            DataType::U64(n) => DataTypeView::U64(*n),
            DataType::String(s) => DataTypeView::String(s@),
        }
    }
}

impl PartialEq for DataType {
    fn eq(&self, other: &Self) -> (r: bool) {
        match (self, other) {
            (DataType::Null, DataType::Null) => true,
            (DataType::Bool(a), DataType::Bool(b)) => a == b,
            (DataType::F64(a), DataType::F64(b)) => *a == *b,
            (DataType::I64(a), DataType::I64(b)) => a == b,
            (DataType::U64(a), DataType::U64(b)) => a == b,
            (DataType::String(a), DataType::String(b)) => *a == *b,
            _ => false,
        }
    }
}

impl vstd::std_specs::cmp::PartialEqSpecImpl for DataType {
    open spec fn obeys_eq_spec() -> bool {
        true
    }

    open spec fn eq_spec(&self, other: &Self) -> bool {
        self@ == other@
    }
}

impl Clone for DataType {
    fn clone(&self) -> (res: Self)
        ensures
            res == *self,
    {
        match self {
            DataType::Null => DataType::Null,
            DataType::Bool(val) => DataType::Bool(*val),
            DataType::String(val) => DataType::String(val.clone()),
            DataType::F64(val) => DataType::F64(val.clone()),
            DataType::I64(val) => DataType::I64(*val),
            DataType::U64(val) => DataType::U64(*val),
        }
    }
}

/// A generic external value, as handed across the store's boundary, reduced
/// to the shapes the store distinguishes. Numbers arrive already classified
/// by the boundary layer: an exact integer with no sign, an exact negative
/// integer, or a number in fractional or exponent form carried as its
/// textual representation. `Composite` stands for any other external shape
/// (such as an array or a nested object), which the store does not model.
#[derive(Debug)]
pub enum ExternalValue {
    Null,
    Bool(bool),
    PosInt(u64),
    NegInt(i64),
    Decimal(String),
    Text(String),
    Composite,
}

/// The mathematical value of an `ExternalValue`.
pub enum ExternalValueView {
    Null,
    Bool(bool),
    PosInt(u64),
    NegInt(i64),
    Decimal(Seq<char>),
    Text(Seq<char>),
    Composite,
}

impl View for ExternalValue {
    type V = ExternalValueView;

    open spec fn view(&self) -> ExternalValueView {
        match self {
            ExternalValue::Null => ExternalValueView::Null,
            ExternalValue::Bool(b) => ExternalValueView::Bool(*b),
            ExternalValue::PosInt(n) => ExternalValueView::PosInt(*n),
            ExternalValue::NegInt(n) => ExternalValueView::NegInt(*n),
            ExternalValue::Decimal(s) => ExternalValueView::Decimal(s@),
            ExternalValue::Text(s) => ExternalValueView::Text(s@),
            ExternalValue::Composite => ExternalValueView::Composite,
        }
    }
}

impl PartialEq for ExternalValue {
    fn eq(&self, other: &Self) -> (r: bool) {
        match (self, other) {
            (ExternalValue::Null, ExternalValue::Null) => true,
            (ExternalValue::Bool(a), ExternalValue::Bool(b)) => a == b,
            (ExternalValue::PosInt(a), ExternalValue::PosInt(b)) => a == b,
            (ExternalValue::NegInt(a), ExternalValue::NegInt(b)) => a == b,
            (ExternalValue::Decimal(a), ExternalValue::Decimal(b)) => *a == *b,
            (ExternalValue::Text(a), ExternalValue::Text(b)) => *a == *b,
            (ExternalValue::Composite, ExternalValue::Composite) => true,
            _ => false,
        }
    }
}

impl vstd::std_specs::cmp::PartialEqSpecImpl for ExternalValue {
    open spec fn obeys_eq_spec() -> bool {
        true
    }

    open spec fn eq_spec(&self, other: &Self) -> bool {
        self@ == other@
    }
}

/// What converting an external value into the store's representation yields:
/// unsigned exact integers become `U64`, negative exact integers become
/// `I64`, fractional or exponent forms keep their text as `F64`, and any
/// unmodeled shape collapses to `Null`.
pub open spec fn from_external_spec(v: ExternalValueView) -> DataTypeView {
    match v {
        ExternalValueView::Null => DataTypeView::Null,
        ExternalValueView::Bool(b) => DataTypeView::Bool(b),
        ExternalValueView::PosInt(n) => DataTypeView::U64(n),
        ExternalValueView::NegInt(n) => DataTypeView::I64(n),
        ExternalValueView::Decimal(s) => DataTypeView::F64(s),
        ExternalValueView::Text(s) => DataTypeView::String(s),
        ExternalValueView::Composite => DataTypeView::Null,
    }
}

/// The inverse of [`from_external_spec`]: what converting a stored value
/// back to its external form yields.
pub open spec fn to_external_spec(d: DataTypeView) -> ExternalValueView {
    match d {
        DataTypeView::Null => ExternalValueView::Null,
        DataTypeView::Bool(b) => ExternalValueView::Bool(b),
        DataTypeView::U64(n) => ExternalValueView::PosInt(n),
        DataTypeView::I64(n) => ExternalValueView::NegInt(n),
        DataTypeView::F64(s) => ExternalValueView::Decimal(s),
        DataTypeView::String(s) => ExternalValueView::Text(s),
    }
}

/// Converts an external value into the store's internal representation.
pub fn from_external(value: &ExternalValue) -> (r: DataType)
    ensures
        r@ == from_external_spec(value@),
{
    match value {
        ExternalValue::Null => DataType::Null,
        ExternalValue::Bool(b) => DataType::Bool(*b),
        ExternalValue::PosInt(n) => DataType::U64(*n),
        ExternalValue::NegInt(n) => DataType::I64(*n),
        ExternalValue::Decimal(s) => DataType::F64(s.clone()),
        ExternalValue::Text(s) => DataType::String(s.clone()),
        ExternalValue::Composite => DataType::Null,
    }
}

/// Converts a stored value back to its external form. Decimal text is
/// handed back exactly as it was stored, so no precision is lost on the
/// way out.
pub fn to_external(value: &DataType) -> (r: ExternalValue)
    ensures
        r@ == to_external_spec(value@),
{
    match value {
        DataType::Null => ExternalValue::Null,
        DataType::Bool(b) => ExternalValue::Bool(*b),
        DataType::U64(n) => ExternalValue::PosInt(*n),
        DataType::I64(n) => ExternalValue::NegInt(*n),
        DataType::F64(s) => ExternalValue::Decimal(s.clone()),
        DataType::String(s) => ExternalValue::Text(s.clone()),
    }
}

/// Round trip: converting any representable external value into the store
/// and back yields the value unchanged. `Composite` is the one unmodeled
/// shape (it collapses to `Null` on the way in), so it is excluded.
pub proof fn lemma_external_round_trip(v: ExternalValueView)
    requires
        !(v is Composite),
    ensures
        to_external_spec(from_external_spec(v)) == v,
{
}

/// The reverse round trip holds for every stored value: converting it to
/// its external form and back in yields the value unchanged.
pub proof fn lemma_internal_round_trip(d: DataTypeView)
    ensures
        from_external_spec(to_external_spec(d)) == d,
{
}

/// True when two values carry the same variant tag, whatever they hold.
pub open spec fn same_variant(a: DataTypeView, b: DataTypeView) -> bool {
    match (a, b) {
        (DataTypeView::Null, DataTypeView::Null) => true,
        (DataTypeView::Bool(_), DataTypeView::Bool(_)) => true,
        (DataTypeView::F64(_), DataTypeView::F64(_)) => true,
        (DataTypeView::I64(_), DataTypeView::I64(_)) => true,
        (DataTypeView::U64(_), DataTypeView::U64(_)) => true,
        (DataTypeView::String(_), DataTypeView::String(_)) => true,
        _ => false,
    }
}

/// Equality on field values is variant-exact: two values of distinct
/// variants are never equal, even when numerically equivalent (so a
/// document field holding `U64(5)` never satisfies a predicate that asks
/// for `I64(5)`).
pub proof fn lemma_equality_is_variant_exact(a: DataTypeView, b: DataTypeView)
    requires
        !same_variant(a, b),
    ensures
        a != b,
{
}

} // verus!
