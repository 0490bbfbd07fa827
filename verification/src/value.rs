//! The runtime value domain: numbers (IEEE doubles held as bit patterns),
//! strings, the two booleans and nil, together with the truthiness and
//! stringification rules of the language.

use vstd::prelude::*;

use crate::float_bits::{decimal_of, num_is_truthy, num_to_decimal, num_truthy};

verus! {

/// A runtime value, or the literal payload of a token.  `FValue` carries the
/// IEEE 754 binary64 encoding of the number.  `IdentifierValue` only ever
/// appears as the payload of an identifier token, never as the result of
/// evaluation.
#[derive(Clone)]
pub enum LiteralValue {
    FValue(u64),
    StringValue(String),
    IdentifierValue(String),
    True,
    False,
    Nil,
}

/// The mathematical shape of a `LiteralValue`: text as character sequences.
pub enum LitV {
    FValue(u64),
    StringValue(Seq<char>),
    IdentifierValue(Seq<char>),
    True,
    False,
    Nil,
}

impl View for LiteralValue {
    type V = LitV;

    open spec fn view(&self) -> LitV {
        match self {
            LiteralValue::FValue(b) => LitV::FValue(*b),
            LiteralValue::StringValue(s) => LitV::StringValue(s@),
            LiteralValue::IdentifierValue(s) => LitV::IdentifierValue(s@),
            LiteralValue::True => LitV::True,
            LiteralValue::False => LitV::False,
            LiteralValue::Nil => LitV::Nil,
        }
    }
}

/// The truthiness projection used by `!`, `and`, `or`, `if` and `while`:
/// nil and false are falsy, true is truthy, a number is truthy exactly when
/// it is at least zero, text is truthy exactly when it is nonempty.
pub open spec fn truthy(v: LitV) -> bool {
    match v {
        LitV::Nil => false,
        LitV::False => false,
        LitV::True => true,
        LitV::FValue(b) => num_truthy(b),
        LitV::StringValue(s) => s.len() > 0,
        LitV::IdentifierValue(s) => s.len() > 0,
    }
}

/// The boolean value as a runtime value.
pub open spec fn bool_lit(b: bool) -> LitV {
    if b {
        LitV::True
    } else {
        LitV::False
    }
}

/// The characters that stringification renders for a value: numbers in
/// decimal, text unchanged and unquoted, `true`/`false`/`nil` by name.
pub open spec fn lit_text(v: LitV) -> Seq<char> {
    match v {
        LitV::FValue(b) => decimal_of(b),
        LitV::StringValue(s) => s,
        LitV::IdentifierValue(s) => Seq::empty(),
        LitV::True => "true"@,
        LitV::False => "false"@,
        LitV::Nil => "nil"@,
    }
}

impl LiteralValue {
    /// Stringification, as used by `print` and assertion diagnostics.
    pub fn to_string(&self) -> (r: String)
        ensures
            r@ == lit_text(self@),
    {
        match self {
            LiteralValue::FValue(b) => num_to_decimal(*b),
            LiteralValue::StringValue(s) => s.clone(),
            LiteralValue::IdentifierValue(s) => String::new(),
            LiteralValue::True => "true".to_owned(),
            LiteralValue::False => "false".to_owned(),
            LiteralValue::Nil => "nil".to_owned(),
        }
    }

    /// The truthiness of the value.
    pub fn to_boolean(&self) -> (r: bool)
        ensures
            r == truthy(self@),
    {
        match self {
            LiteralValue::Nil => false,
            LiteralValue::False => false,
            LiteralValue::True => true,
            LiteralValue::FValue(b) => num_is_truthy(*b),
            LiteralValue::StringValue(s) => !s.as_str().is_empty(),
            LiteralValue::IdentifierValue(s) => !s.as_str().is_empty(),
        }
    }

    /// A copy of the value whose view is the same; used where the evaluator
    /// hands a value both to the environment and to its caller.
    pub fn duplicate(&self) -> (r: Self)
        ensures
            r@ == self@,
    {
        match self {
            LiteralValue::FValue(b) => LiteralValue::FValue(*b),
            LiteralValue::StringValue(s) => LiteralValue::StringValue(s.clone()),
            LiteralValue::IdentifierValue(s) => LiteralValue::IdentifierValue(s.clone()),
            LiteralValue::True => LiteralValue::True,
            LiteralValue::False => LiteralValue::False,
            LiteralValue::Nil => LiteralValue::Nil,
        }
    }

    /// The boolean as a runtime value.
    pub fn from_bool(b: bool) -> (r: Self)
        ensures
            r@ == bool_lit(b),
    {
        if b {
            LiteralValue::True
        } else {
            LiteralValue::False
        }
    }
}

} // verus!
