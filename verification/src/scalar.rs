//! The scalar payload a leaf node holds.

use vstd::prelude::*;

verus! {

/// A JSON scalar: the value one leaf of a literal tree holds.
pub enum Value {
    Int(i64),
    Bool(bool),
    Text(String),
}

/// The mathematical shape of a scalar.
pub ghost enum ValueModel {
    Int(int),
    Bool(bool),
    Text(Seq<char>),
}

impl View for Value {
    type V = ValueModel;

    open spec fn view(&self) -> ValueModel {
        match self {
            Value::Int(i) => ValueModel::Int(*i as int),
            Value::Bool(b) => ValueModel::Bool(*b),
            Value::Text(s) => ValueModel::Text(s@),
        }
    }
}

impl Value {
    /// Whether two scalars hold the same value.
    pub fn same(&self, other: &Value) -> (r: bool)
        ensures
            r == (self@ == other@),
    {
        match (self, other) {
            (Value::Int(a), Value::Int(b)) => *a == *b,
            (Value::Bool(a), Value::Bool(b)) => *a == *b,
            (Value::Text(a), Value::Text(b)) => a.eq(b),
            _ => false,
        }
    }
}

} // verus!
