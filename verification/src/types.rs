//! Compile-time value types.
use vstd::prelude::*;
use crate::text::{owned, push_str};

verus! {

/// The type of a value as the compiler sees it.
#[derive(Debug)]
pub enum ComptimeValueType {
    Int,
    Float,
    StringValue,
    Bool,
    Void,
    Array(Box<ComptimeValueType>),
}

impl View for ComptimeValueType {
    type V = ComptimeValueType;

    open spec fn view(&self) -> ComptimeValueType {
        *self
    }
}

/// How a type is written in messages.
pub open spec fn type_debug(t: ComptimeValueType) -> Seq<char>
    decreases t,
{
    match t {
        ComptimeValueType::Int => "Int"@,
        ComptimeValueType::Float => "Float"@,
        ComptimeValueType::StringValue => "StringValue"@,
        ComptimeValueType::Bool => "Bool"@,
        ComptimeValueType::Void => "Void"@,
        ComptimeValueType::Array(b) => "Array("@ + type_debug(*b) + ")"@,
    }
}

impl ComptimeValueType {
    /// How this type is written in messages.
    pub fn debug_name(&self) -> (s: String)
        ensures
            s@ == type_debug(*self),
        decreases self,
    {
        match self {
            ComptimeValueType::Int => owned("Int"),
            ComptimeValueType::Float => owned("Float"),
            ComptimeValueType::StringValue => owned("StringValue"),
            ComptimeValueType::Bool => owned("Bool"),
            ComptimeValueType::Void => owned("Void"),
            ComptimeValueType::Array(b) => {
                let mut s = owned("Array(");
                let inner = (**b).debug_name();
                push_str(&mut s, inner.as_str());
                push_str(&mut s, ")");
                s
            },
        }
    }

    /// Whether two types are the same.
    pub fn same_as(&self, other: &ComptimeValueType) -> (r: bool)
        ensures
            r == (*self == *other),
        decreases self,
    {
        match (self, other) {
            (ComptimeValueType::Int, ComptimeValueType::Int) => true,
            (ComptimeValueType::Float, ComptimeValueType::Float) => true,
            (ComptimeValueType::StringValue, ComptimeValueType::StringValue) => true,
            (ComptimeValueType::Bool, ComptimeValueType::Bool) => true,
            (ComptimeValueType::Void, ComptimeValueType::Void) => true,
            (ComptimeValueType::Array(a), ComptimeValueType::Array(b)) => (**a).same_as(
                &**b,
            ),
            _ => false,
        }
    }

    /// A copy of this type.
    pub fn duplicate(&self) -> (r: ComptimeValueType)
        ensures
            r == *self,
        decreases self,
    {
        match self {
            ComptimeValueType::Int => ComptimeValueType::Int,
            ComptimeValueType::Float => ComptimeValueType::Float,
            ComptimeValueType::StringValue => ComptimeValueType::StringValue,
            ComptimeValueType::Bool => ComptimeValueType::Bool,
            ComptimeValueType::Void => ComptimeValueType::Void,
            ComptimeValueType::Array(a) => ComptimeValueType::Array(Box::new((**a).duplicate())),
        }
    }
}

} // verus!
