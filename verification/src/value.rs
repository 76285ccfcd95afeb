//! Backend-native scalar values and document field values.
//!
//! The document store keeps denormalized data as scalars and as arrays of
//! scalars (relation-link arrays). Contracts speak of the mathematical views
//! `ValueV` and `DocValueV`.
use vstd::prelude::*;

verus! {

/// A concrete backend value: the payload of a document field, a primary key,
/// or a filter comparand.
#[derive(Clone, Debug)]
pub enum Value {
    Null,
    Bool(bool),
    Int(i64),
    Str(String),
}

/// Mathematical model of a `Value`.
#[verifier::ext_equal]
pub enum ValueV {
    Null,
    Bool(bool),
    Int(int),
    Str(Seq<char>),
}

impl View for Value {
    type V = ValueV;

    open spec fn view(&self) -> ValueV {
        match self {
            Value::Null => ValueV::Null,
            Value::Bool(b) => ValueV::Bool(*b),
            Value::Int(i) => ValueV::Int(*i as int),
            Value::Str(s) => ValueV::Str(s@),
        }
    }
}

/// What one document field holds: a scalar, or an array of scalars
/// (the shape of a relation-link field).
#[derive(Clone, Debug)]
pub enum DocValue {
    Scalar(Value),
    Array(Vec<Value>),
}

/// Mathematical model of a `DocValue`.
#[verifier::ext_equal]
pub enum DocValueV {
    Scalar(ValueV),
    Array(Seq<ValueV>),
}

impl View for DocValue {
    type V = DocValueV;

    open spec fn view(&self) -> DocValueV {
        match self {
            DocValue::Scalar(v) => DocValueV::Scalar(v@),
            DocValue::Array(vs) => DocValueV::Array(vs@.map_values(|e: Value| e@)),
        }
    }
}

/// Decides equality of two values, as the backend would when matching a
/// filter comparand or a relation-array member.
pub fn value_eq(a: &Value, b: &Value) -> (r: bool)
    ensures
        r == (a@ == b@),
{
    match (a, b) {
        (Value::Null, Value::Null) => true,
        (Value::Bool(x), Value::Bool(y)) => x == y,
        (Value::Int(x), Value::Int(y)) => x == y,
        (Value::Str(x), Value::Str(y)) => x.eq(y),
        _ => false,
    }
}

} // verus!
