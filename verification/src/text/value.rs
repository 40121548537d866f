//! The text value tree that the front-ends produce.

pub use crate::error::SrcPosition;
use vstd::prelude::*;

verus! {

/// What a node of the text tree holds. A map is a sequence of entries, each
/// a sequence of a key and a value. A float is held as the bits of its
/// binary64 pattern.
#[derive(Debug)]
pub enum Value {
    Nothing,
    Bool(bool),
    I64(i64),
    F64(u64),
    Text(String),
    Sequence(Vec<TextValue>),
}

/// A node of the text tree: what it holds and, where known, where it stands
/// in the source.
#[derive(Debug)]
pub struct TextValue {
    pub value: Value,
    pub position: Option<SrcPosition>,
}

impl Value {
    /// Whether nothing is there.
    pub fn is_nothing(&self) -> (b: bool)
        ensures
            b == (self is Nothing),
    {
        match self {
            Value::Nothing => true,
            _ => false,
        }
    }
}

impl TextValue {
    /// A node without a position.
    pub fn new(value: Value) -> (t: TextValue)
        ensures
            t.value == value,
            t.position is None,
    {
        TextValue { value, position: None }
    }

    /// The same node at the given position.
    pub fn with_position(self, position: SrcPosition) -> (t: TextValue)
        ensures
            t.value == self.value,
            t.position == Some(position),
    {
        TextValue { value: self.value, position: Some(position) }
    }

    /// What the node holds.
    pub fn as_ref(&self) -> (v: &Value)
        ensures
            *v == self.value,
    {
        &self.value
    }

    /// A node that holds nothing.
    pub fn nothing() -> (t: TextValue)
        ensures
            t.value is Nothing,
            t.position is None,
    {
        TextValue::new(Value::Nothing)
    }

    /// A node that holds a text.
    pub fn text(text: &str) -> (t: TextValue)
        ensures
            t.value matches Value::Text(s) && s@ == text@,
            t.position is None,
    {
        TextValue::new(Value::Text(text.to_owned()))
    }

    /// A node that holds a whole number.
    pub fn integer(value: i64) -> (t: TextValue)
        ensures
            t.value == Value::I64(value),
            t.position is None,
    {
        TextValue::new(Value::I64(value))
    }

    /// A node that holds a boolean.
    pub fn boolean(value: bool) -> (t: TextValue)
        ensures
            t.value == Value::Bool(value),
            t.position is None,
    {
        TextValue::new(Value::Bool(value))
    }

    /// A node that holds a sequence.
    pub fn sequence(items: Vec<TextValue>) -> (t: TextValue)
        ensures
            t.value == Value::Sequence(items),
            t.position is None,
    {
        TextValue::new(Value::Sequence(items))
    }
}

} // verus!
