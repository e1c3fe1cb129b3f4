//! Values from the plain types that they hold.

use crate::data::{Value, ValueView};
use vstd::prelude::*;
use vstd::std_specs::convert::FromSpecImpl;

verus! {

impl From<bool> for Value {
    fn from(b: bool) -> (value: Value) {
        Value::Boolean(b)
    }
}

impl FromSpecImpl<bool> for Value {
    open spec fn obeys_from_spec() -> bool {
        true
    }

    open spec fn from_spec(b: bool) -> Value {
        Value::Boolean(b)
    }
}

impl From<char> for Value {
    fn from(c: char) -> (value: Value) {
        Value::Character(c)
    }
}

impl FromSpecImpl<char> for Value {
    open spec fn obeys_from_spec() -> bool {
        true
    }

    open spec fn from_spec(c: char) -> Value {
        Value::Character(c)
    }
}

impl From<i32> for Value {
    fn from(x: i32) -> (value: Value) {
        Value::Int32(x)
    }
}

impl FromSpecImpl<i32> for Value {
    open spec fn obeys_from_spec() -> bool {
        true
    }

    open spec fn from_spec(x: i32) -> Value {
        Value::Int32(x)
    }
}

impl From<i64> for Value {
    fn from(x: i64) -> (value: Value) {
        Value::Int64(x)
    }
}

impl FromSpecImpl<i64> for Value {
    open spec fn obeys_from_spec() -> bool {
        true
    }

    open spec fn from_spec(x: i64) -> Value {
        Value::Int64(x)
    }
}

impl From<String> for Value {
    fn from(x: String) -> (value: Value) {
        Value::String(x)
    }
}

impl FromSpecImpl<String> for Value {
    open spec fn obeys_from_spec() -> bool {
        true
    }

    open spec fn from_spec(x: String) -> Value {
        Value::String(x)
    }
}

impl From<&str> for Value {
    fn from(x: &str) -> (value: Value)
        ensures
            value@ == ValueView::String(x@),
    {
        Value::String(x.to_owned())
    }
}

impl FromSpecImpl<&str> for Value {
    open spec fn obeys_from_spec() -> bool {
        false
    }

    open spec fn from_spec(x: &str) -> Value {
        arbitrary()
    }
}

} // verus!
