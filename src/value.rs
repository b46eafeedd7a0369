//! Values of record fields and the two wire forms, with their mathematical models.

use vstd::prelude::*;
use crate::descriptor::Kind;

verus! {

/// A single field value.
#[derive(Debug, PartialEq, Eq)]
pub enum Value {
    Null,
    Bool(bool),
    Int(i64),
    Text(String),
}

pub enum ValueModel {
    Null,
    Bool(bool),
    Int(int),
    Text(Seq<char>),
}

impl View for Value {
    type V = ValueModel;

    open spec fn view(&self) -> ValueModel {
        match self {
            Value::Null => ValueModel::Null,
            Value::Bool(b) => ValueModel::Bool(*b),
            Value::Int(n) => ValueModel::Int(*n as int),
            Value::Text(s) => ValueModel::Text(s@),
        }
    }
}

impl Clone for Value {
    fn clone(&self) -> (r: Self)
        ensures
            r == *self,
    {
        match self {
            Value::Null => Value::Null,
            Value::Bool(b) => Value::Bool(*b),
            Value::Int(n) => Value::Int(*n),
            Value::Text(s) => Value::Text(s.clone()),
        }
    }
}

/// One key/value pair of the object form.
#[derive(Debug, PartialEq, Eq)]
pub struct Entry {
    pub key: String,
    pub value: Value,
}

impl View for Entry {
    type V = (Seq<char>, ValueModel);

    open spec fn view(&self) -> (Seq<char>, ValueModel) {
        (self.key@, self.value@)
    }
}

/// A payload on the wire: an ordered sequence of values without keys, or an
/// object of keyed values.
#[derive(Debug, PartialEq, Eq)]
pub enum Wire {
    Sequence(Vec<Value>),
    Object(Vec<Entry>),
}

pub enum WireModel {
    Sequence(Seq<ValueModel>),
    Object(Seq<(Seq<char>, ValueModel)>),
}

pub open spec fn values_model(v: Seq<Value>) -> Seq<ValueModel> {
    v.map_values(|x: Value| x@)
}

pub open spec fn entries_model(es: Seq<Entry>) -> Seq<(Seq<char>, ValueModel)> {
    es.map_values(|e: Entry| e@)
}

impl View for Wire {
    type V = WireModel;

    open spec fn view(&self) -> WireModel {
        match self {
            Wire::Sequence(xs) => WireModel::Sequence(values_model(xs@)),
            Wire::Object(es) => WireModel::Object(entries_model(es@)),
        }
    }
}

/// A value of this shape can stand in a field of kind `k`.
pub open spec fn fits(k: Kind, v: ValueModel) -> bool {
    match k {
        Kind::Bool => v is Bool,
        Kind::Int => v is Int,
        Kind::Text => v is Text,
        Kind::Any => true,
    }
}

/// The default value of a field of kind `k`, taken by a skipped field that
/// declares none.
pub open spec fn default_of(k: Kind) -> ValueModel {
    match k {
        Kind::Bool => ValueModel::Bool(false),
        Kind::Int => ValueModel::Int(0),
        Kind::Text => ValueModel::Text(Seq::empty()),
        Kind::Any => ValueModel::Null,
    }
}

pub fn fits_kind(k: &Kind, v: &Value) -> (r: bool)
    ensures
        r == fits(*k, v@),
{
    match k {
        Kind::Bool => matches!(v, Value::Bool(_)),
        Kind::Int => matches!(v, Value::Int(_)),
        Kind::Text => matches!(v, Value::Text(_)),
        Kind::Any => true,
    }
}

pub fn default_value(k: &Kind) -> (r: Value)
    ensures
        r@ == default_of(*k),
{
    match k {
        Kind::Bool => Value::Bool(false),
        Kind::Int => Value::Int(0),
        Kind::Text => Value::Text(String::new()),
        Kind::Any => Value::Null,
    }
}

} // verus!
