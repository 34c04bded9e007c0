//! Runtime values.
use vstd::prelude::*;
use crate::number::{Number, parts_text};

verus! {

#[derive(Clone, Debug)]
pub enum Value {
    Number(Number),
    String(String),
    Bool(bool),
    Nil,
}

pub enum ValueModel {
    Number(Number),
    Str(Seq<char>),
    Bool(bool),
    Nil,
}

impl View for Value {
    type V = ValueModel;

    open spec fn view(&self) -> ValueModel {
        match self {
            Value::Number(n) => ValueModel::Number(*n),
            Value::String(s) => ValueModel::Str(s@),
            Value::Bool(b) => ValueModel::Bool(*b),
            Value::Nil => ValueModel::Nil,
        }
    }
}

/// Only `nil` and `false` are false.
pub open spec fn truthy(v: ValueModel) -> bool {
    match v {
        ValueModel::Nil => false,
        ValueModel::Bool(b) => b,
        _ => true,
    }
}

/// What `print` writes for a value: a string's own characters.
pub open spec fn print_text(v: ValueModel) -> Seq<char> {
    match v {
        ValueModel::Number(n) => parts_text(n.parts()),
        ValueModel::Str(s) => s,
        ValueModel::Bool(b) => if b { "true"@ } else { "false"@ },
        ValueModel::Nil => "nil"@,
    }
}

/// How a statement's result is shown: as `print` writes it, with a string
/// between double quotes.
pub open spec fn result_text(v: ValueModel) -> Seq<char> {
    match v {
        ValueModel::Str(s) => seq!['"'] + s + seq!['"'],
        _ => print_text(v),
    }
}

/// Values of one variant with equal contents are equal; values of two
/// variants never are.
pub open spec fn values_equal(a: ValueModel, b: ValueModel) -> bool {
    match (a, b) {
        (ValueModel::Number(x), ValueModel::Number(y)) => crate::number::equal_parts(x.parts(), y.parts()),
        (ValueModel::Str(x), ValueModel::Str(y)) => x == y,
        (ValueModel::Bool(x), ValueModel::Bool(y)) => x == y,
        (ValueModel::Nil, ValueModel::Nil) => true,
        _ => false,
    }
}

impl Value {
    pub fn duplicate(&self) -> (r: Value)
        ensures
            r@ == self@,
    {
        match self {
            Value::Number(n) => Value::Number(*n),
            Value::String(s) => Value::String(s.clone()),
            Value::Bool(b) => Value::Bool(*b),
            Value::Nil => Value::Nil,
        }
    }

    pub fn is_truthy(&self) -> (r: bool)
        ensures
            r == truthy(self@),
    {
        match self {
            Value::Nil => false,
            Value::Bool(b) => *b,
            _ => true,
        }
    }

    /// The text that `print` writes.
    pub fn print_text(&self) -> (r: String)
        ensures
            r@ == print_text(self@),
    {
        match self {
            Value::Number(n) => n.to_text(),
            Value::String(s) => s.clone(),
            Value::Bool(b) => if *b { String::from_str("true") } else { String::from_str("false") },
            Value::Nil => String::from_str("nil"),
        }
    }

    /// The text of a statement's result.
    pub fn to_string(&self) -> (r: String)
        ensures
            r@ == result_text(self@),
    {
        match self {
            Value::String(s) => {
                let mut t = String::new();
                t.push('"');
                t.append(s.as_str());
                t.push('"');
                assert(t@ =~= seq!['"'] + s@ + seq!['"']);
                t
            },
            _ => self.print_text(),
        }
    }

    pub fn equals(&self, o: &Value) -> (r: bool)
        ensures
            r == values_equal(self@, o@),
    {
        match (self, o) {
            (Value::Number(x), Value::Number(y)) => x.equals(y),
            (Value::String(x), Value::String(y)) => x.eq(y),
            (Value::Bool(x), Value::Bool(y)) => *x == *y,
            (Value::Nil, Value::Nil) => true,
            _ => false,
        }
    }
}

} // verus!
