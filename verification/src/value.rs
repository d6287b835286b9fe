//! Values that are known at compile time.

use crate::macros::{Delim, Token};
use crate::types::{Prim, Symbol};
use vstd::prelude::*;

verus! {

/// A value that is known at compile time.
#[derive(Clone, Copy, PartialEq, Eq, Structural, Debug)]
pub enum Value {
    /// The one value of the unit type, which the empty block has.
    Unit,
    /// A string literal, interned.
    Str(Symbol),
    /// An integer literal.
    Int(u64),
}

impl Value {
    /// The type that the value is checked as.
    pub open spec fn spec_prim(self) -> Prim {
        match self {
            Value::Unit => Prim::Unit,
            Value::Str(_) => Prim::Str,
            Value::Int(_) => Prim::I32,
        }
    }

    /// The type that the value is checked as. An integer literal without a
    /// suffix is a 32-bit signed integer.
    pub fn prim(&self) -> (p: Prim)
        ensures
            p == self.spec_prim(),
    {
        match self {
            Value::Unit => Prim::Unit,
            Value::Str(_) => Prim::Str,
            Value::Int(_) => Prim::I32,
        }
    }

    /// Whether two values are equal. Values of different types are never
    /// equal: neither is converted to the type of the other.
    pub fn equals(&self, other: &Value) -> (r: bool)
        ensures
            r == (*self == *other),
            r ==> self.spec_prim() == other.spec_prim(),
    {
        match (*self, *other) {
            (Value::Unit, Value::Unit) => true,
            (Value::Str(a), Value::Str(b)) => a == b,
            (Value::Int(a), Value::Int(b)) => a == b,
            _ => false,
        }
    }
}

/// The value of a piece of syntax that is used as a value, where it is one
/// of the forms that need no evaluation: the empty block, a string literal,
/// an integer literal.
pub open spec fn constant(tokens: Seq<Token>) -> Option<Value> {
    if tokens == seq![Token::Open(Delim::Brace), Token::Close(Delim::Brace)] {
        Some(Value::Unit)
    } else if tokens.len() == 1 {
        match tokens[0] {
            Token::Str(s) => Some(Value::Str(s)),
            Token::Int(n) => Some(Value::Int(n)),
            _ => None,
        }
    } else {
        None
    }
}

/// The value of a piece of syntax that is used as a value, where it is the
/// empty block, a string literal or an integer literal.
pub fn constant_of(tokens: &Vec<Token>) -> (r: Option<Value>)
    ensures
        r == constant(tokens@),
{
    if tokens.len() == 2 {
        if tokens[0] == Token::Open(Delim::Brace) && tokens[1] == Token::Close(Delim::Brace) {
            assert(tokens@ =~= seq![Token::Open(Delim::Brace), Token::Close(Delim::Brace)]);
            Some(Value::Unit)
        } else {
            None
        }
    } else if tokens.len() == 1 {
        match tokens[0] {
            Token::Str(s) => Some(Value::Str(s)),
            Token::Int(n) => Some(Value::Int(n)),
            _ => None,
        }
    } else {
        None
    }
}

/// The empty block is the unit value, which no string literal equals.
pub proof fn lemma_unit_is_no_string(s: Symbol)
    ensures
        constant(seq![Token::Open(Delim::Brace), Token::Close(Delim::Brace)]) == Some(Value::Unit),
        Value::Unit != Value::Str(s),
        Value::Unit.spec_prim() != Value::Str(s).spec_prim(),
{
}

} // verus!
