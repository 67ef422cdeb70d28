//! The kinds of value an argument can take, and the values themselves.
use vstd::prelude::*;

verus! {

/// The type of value an argument expects.
#[derive(Debug, Clone, Copy, PartialEq, Eq, Structural, PartialOrd, Ord)]
pub enum ArgumentType {
    Integer,
    Text,
    Boolean,
}

/// A value obtained for an argument.
#[derive(Debug, Clone, PartialEq, Eq, PartialOrd, Ord)]
pub enum ParsedValue {
    Integer(i64),
    Text(String),
    Boolean(bool),
}

/// The mathematical content of a [`ParsedValue`].
pub enum ValueModel {
    Integer(i64),
    Text(Seq<char>),
    Boolean(bool),
}

impl ValueModel {
    /// The type of this value.
    pub open spec fn kind(self) -> ArgumentType {
        match self {
            ValueModel::Integer(_) => ArgumentType::Integer,
            ValueModel::Text(_) => ArgumentType::Text,
            ValueModel::Boolean(_) => ArgumentType::Boolean,
        }
    }
}

impl View for ParsedValue {
    type V = ValueModel;

    open spec fn view(&self) -> ValueModel {
        match self {
            ParsedValue::Integer(i) => ValueModel::Integer(*i),
            ParsedValue::Text(s) => ValueModel::Text(s@),
            ParsedValue::Boolean(b) => ValueModel::Boolean(*b),
        }
    }
}

impl ParsedValue {
    /// Whether this value is of type `argtype`.
    pub fn matches(&self, argtype: &ArgumentType) -> (r: bool)
        ensures
            r == (self@.kind() == *argtype),
    {
        match (self, argtype) {
            (ParsedValue::Integer(_), ArgumentType::Integer) => true,
            (ParsedValue::Text(_), ArgumentType::Text) => true,
            (ParsedValue::Boolean(_), ArgumentType::Boolean) => true,
            _ => false,
        }
    }

    /// A copy of this value.
    pub fn duplicate(&self) -> (r: ParsedValue)
        ensures
            r@ == self@,
    {
        match self {
            ParsedValue::Integer(i) => ParsedValue::Integer(*i),
            ParsedValue::Text(s) => ParsedValue::Text(s.clone()),
            ParsedValue::Boolean(b) => ParsedValue::Boolean(*b),
        }
    }
}

/// Plain Rust types that a [`ParsedValue`] of the right kind converts to.
pub trait FromParsedValue: Sized {
    /// The kind of value this type is read from.
    spec fn source_kind() -> ArgumentType;

    /// The value that `r` stands for.
    spec fn as_value(r: &Self) -> ValueModel;

    /// The kind of value this type is read from.
    fn kind() -> (r: ArgumentType)
        ensures
            r == Self::source_kind(),
    ;

    /// Takes the content out of `value`, which must be of kind `source_kind()`.
    fn from_parsed(value: &ParsedValue, name: &str) -> (r: Self)
        requires
            value@.kind() == Self::source_kind(),
        ensures
            Self::as_value(&r) == value@,
    ;
}

impl FromParsedValue for i64 {
    open spec fn source_kind() -> ArgumentType {
        ArgumentType::Integer
    }

    open spec fn as_value(r: &i64) -> ValueModel {
        ValueModel::Integer(*r)
    }

    fn kind() -> (r: ArgumentType) {
        ArgumentType::Integer
    }

    fn from_parsed(value: &ParsedValue, _name: &str) -> (r: i64) {
        match value {
            ParsedValue::Integer(i) => *i,
            _ => 0,
        }
    }
}

impl FromParsedValue for String {
    open spec fn source_kind() -> ArgumentType {
        ArgumentType::Text
    }

    open spec fn as_value(r: &String) -> ValueModel {
        ValueModel::Text(r@)
    }

    fn kind() -> (r: ArgumentType) {
        ArgumentType::Text
    }

    fn from_parsed(value: &ParsedValue, _name: &str) -> (r: String) {
        match value {
            ParsedValue::Text(s) => s.clone(),
            _ => String::new(),
        }
    }
}

impl FromParsedValue for bool {
    open spec fn source_kind() -> ArgumentType {
        ArgumentType::Boolean
    }

    open spec fn as_value(r: &bool) -> ValueModel {
        ValueModel::Boolean(*r)
    }

    fn kind() -> (r: ArgumentType) {
        ArgumentType::Boolean
    }

    fn from_parsed(value: &ParsedValue, _name: &str) -> (r: bool) {
        match value {
            ParsedValue::Boolean(b) => *b,
            _ => false,
        }
    }
}

} // verus!
