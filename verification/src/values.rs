//! Runtime values and compiled functions.
use std::rc::Rc;
use vstd::prelude::*;
use vstd::string::StringExecFns;

use crate::compiler::Chunk;
use crate::compiler_spec::{SFunction, SValue};

verus! {

/// A value of the virtual machine.
///
/// A number is carried as the decimal numeral of the binary64 value it stands for;
/// the arithmetic and comparison of numbers are done by the host. A host function
/// and a table are referred to by a handle.
#[derive(Debug, PartialEq, Hash)]
pub enum Value {
    Bool(bool),
    Number(String),
    String(String),
    Function(Rc<Function>),
    Nil,
    NativeFuncion(u64),
    Table(u64),
}

/// A compiled function: its name, the number of parameters and its bytecode.
#[derive(Debug, Clone, PartialEq, Hash)]
pub struct Function {
    pub name: String,
    pub arity: usize,
    pub chunk: Chunk,
}

/// The model of a value.
pub open spec fn value_model(v: Value) -> SValue
    decreases v,
{
    match v {
        Value::Bool(b) => SValue::Bool(b),
        Value::Number(s) => SValue::Number(s@),
        Value::String(s) => SValue::Str(s@),
        Value::Function(f) => SValue::Function(
            SFunction {
                name: f.name@,
                arity: f.arity as nat,
                code: f.chunk.code@,
                consts: values_model(f.chunk.constants@),
            },
        ),
        Value::Nil => SValue::Nil,
        Value::NativeFuncion(h) => SValue::Native(h),
        Value::Table(h) => SValue::Table(h),
    }
}

pub open spec fn values_model(vs: Seq<Value>) -> Seq<SValue>
    decreases vs,
{
    if vs.len() == 0 {
        Seq::empty()
    } else {
        values_model(vs.drop_last()).push(value_model(vs.last()))
    }
}

/// `Rc::clone`: another pointer to the same function, which is therefore the same value.
#[verifier::external_body]
pub(crate) fn share_function(f: &Rc<Function>) -> (r: Rc<Function>)
    ensures
        r == *f,
{
    Rc::clone(f)
}

impl Clone for Value {
    fn clone(&self) -> (r: Self)
        ensures
            r == *self,
    {
        match self {
            Value::Bool(b) => Value::Bool(*b),
            Value::Number(s) => Value::Number(s.clone()),
            Value::String(s) => Value::String(s.clone()),
            Value::Function(f) => Value::Function(share_function(f)),
            Value::Nil => Value::Nil,
            Value::NativeFuncion(h) => Value::NativeFuncion(*h),
            Value::Table(h) => Value::Table(*h),
        }
    }
}

impl Value {
    /// Truthiness: `nil` and `false` are false, everything else is true.
    pub open spec fn truthy(self) -> bool {
        match self {
            Value::Bool(b) => b,
            Value::Nil => false,
            _ => true,
        }
    }

    pub fn is_truthy(&self) -> (b: bool)
        ensures
            b == self.truthy(),
    {
        match *self {
            Value::Bool(b) => b,
            Value::Nil => false,
            _ => true,
        }
    }

    /// The text of a value other than a number: `true`/`false`, the string itself,
    /// `nil`, and the empty text for functions and tables.
    pub open spec fn text(self) -> Seq<char> {
        match self {
            Value::Bool(b) => if b { "true"@ } else { "false"@ },
            Value::String(s) => s@,
            Value::Nil => "nil"@,
            _ => Seq::empty(),
        }
    }

    /// The text of the value. A number is written by the host, which formats its
    /// binary64 value; this function takes every other value.
    pub fn to_string(&self) -> (s: String)
        requires
            !(self is Number),
        ensures
            s@ == self.text(),
    {
        match self {
            Value::Bool(b) => if *b {
                String::from_str("true")
            } else {
                String::from_str("false")
            },
            Value::String(s) => s.clone(),
            Value::Nil => String::from_str("nil"),
            _ => String::new(),
        }
    }
}

} // verus!
