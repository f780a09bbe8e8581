//! Literal coercion: from a value of the host language, tagged at run time
//! with its kind, to a typed literal expression.

use vstd::prelude::*;
use crate::binary64::{nearest_binary64, nearest_binary64_bits};
use crate::expr::{Expr, ExprView, Scalar, ScalarView};

verus! {

/// The kinds of host value that the coercion tells apart.
#[derive(Clone, Copy, Debug, PartialEq, Eq, Structural)]
pub enum HostKind {
    Null,
    Undefined,
    Boolean,
    Number,
    BigInt,
    String,
    Array,
    Other,
}

/// A value of the host language.
#[derive(Debug, PartialEq, Eq)]
pub enum HostValue {
    Null,
    Undefined,
    Boolean(bool),
    /// A binary64 number, held by its bit pattern.
    Number(u64),
    /// A large integer, of up to 128 bits.
    BigInt(i128),
    String(String),
    /// An array, whatever it holds.
    Array,
    /// An object, a function, a symbol: anything else.
    Other,
}

/// Model of a host value.
pub ghost enum HostValueView {
    Null,
    Undefined,
    Boolean(bool),
    Number(u64),
    BigInt(int),
    String(Seq<char>),
    Array,
    Other,
}

impl HostValueView {
    pub open spec fn kind(self) -> HostKind {
        match self {
            HostValueView::Null => HostKind::Null,
            HostValueView::Undefined => HostKind::Undefined,
            HostValueView::Boolean(_) => HostKind::Boolean,
            HostValueView::Number(_) => HostKind::Number,
            HostValueView::BigInt(_) => HostKind::BigInt,
            HostValueView::String(_) => HostKind::String,
            HostValueView::Array => HostKind::Array,
            HostValueView::Other => HostKind::Other,
        }
    }
}

impl View for HostValue {
    type V = HostValueView;

    open spec fn view(&self) -> HostValueView {
        match self {
            HostValue::Null => HostValueView::Null,
            HostValue::Undefined => HostValueView::Undefined,
            HostValue::Boolean(b) => HostValueView::Boolean(*b),
            HostValue::Number(bits) => HostValueView::Number(*bits),
            HostValue::BigInt(n) => HostValueView::BigInt(*n as int),
            HostValue::String(s) => HostValueView::String(s@),
            HostValue::Array => HostValueView::Array,
            HostValue::Other => HostValueView::Other,
        }
    }
}

impl HostValue {
    /// The kind of this value.
    pub fn kind(&self) -> (kind: HostKind)
        ensures
            kind == self@.kind(),
    {
        match self {
            HostValue::Null => HostKind::Null,
            HostValue::Undefined => HostKind::Undefined,
            HostValue::Boolean(_) => HostKind::Boolean,
            HostValue::Number(_) => HostKind::Number,
            HostValue::BigInt(_) => HostKind::BigInt,
            HostValue::String(_) => HostKind::String,
            HostValue::Array => HostKind::Array,
            HostValue::Other => HostKind::Other,
        }
    }
}

/// What the host's tests answer for one value. The tests are loose: more
/// than one may hold of the same value.
#[derive(Debug, PartialEq, Eq)]
pub struct HostProbe {
    /// The value, where the host says that it is a large integer.
    pub bigint: Option<i128>,
    pub is_null: bool,
    pub is_undefined: bool,
    /// The text, where the host says that the value is a string.
    pub string: Option<String>,
    /// The truth value, where the host can read the value as a boolean.
    pub boolean: Option<bool>,
    /// The bit pattern, where the host can read the value as a binary64 number.
    pub number: Option<u64>,
    pub is_array: bool,
}

/// Model of a probe.
pub ghost struct HostProbeView {
    pub bigint: Option<int>,
    pub is_null: bool,
    pub is_undefined: bool,
    pub string: Option<Seq<char>>,
    pub boolean: Option<bool>,
    pub number: Option<u64>,
    pub is_array: bool,
}

impl View for HostProbe {
    type V = HostProbeView;

    open spec fn view(&self) -> HostProbeView {
        HostProbeView {
            bigint: match self.bigint {
                Some(n) => Some(n as int),
                None => None,
            },
            is_null: self.is_null,
            is_undefined: self.is_undefined,
            string: match self.string {
                Some(s) => Some(s@),
                None => None,
            },
            boolean: self.boolean,
            number: self.number,
            is_array: self.is_array,
        }
    }
}

impl HostProbeView {
    /// The value that the answers stand for. The answers are taken in a
    /// fixed order and the first that holds decides, not the one that fits
    /// best: large integer, null, undefined, string, boolean, number, array.
    /// A value of which none holds is of another kind.
    pub open spec fn classify(self) -> HostValueView {
        if self.bigint is Some {
            HostValueView::BigInt(self.bigint->0)
        } else if self.is_null {
            HostValueView::Null
        } else if self.is_undefined {
            HostValueView::Undefined
        } else if self.string is Some {
            HostValueView::String(self.string->0)
        } else if self.boolean is Some {
            HostValueView::Boolean(self.boolean->0)
        } else if self.number is Some {
            HostValueView::Number(self.number->0)
        } else if self.is_array {
            HostValueView::Array
        } else {
            HostValueView::Other
        }
    }
}

impl HostProbe {
    /// The host value that the answers stand for: the first of the tests
    /// that holds decides its kind.
    pub fn classify(self) -> (value: HostValue)
        ensures
            value@ == self@.classify(),
    {
        if let Some(n) = self.bigint {
            HostValue::BigInt(n)
        } else if self.is_null {
            HostValue::Null
        } else if self.is_undefined {
            HostValue::Undefined
        } else if let Some(s) = self.string {
            HostValue::String(s)
        } else if let Some(b) = self.boolean {
            HostValue::Boolean(b)
        } else if let Some(bits) = self.number {
            HostValue::Number(bits)
        } else if self.is_array {
            HostValue::Array
        } else {
            HostValue::Other
        }
    }
}

/// Why a host value has no literal.
#[derive(Clone, Copy, Debug, PartialEq, Eq, Structural)]
pub enum LiteralError {
    /// No literal stands for a value of this kind yet.
    UnsupportedLiteralType(HostKind),
}

/// The literal that stands for a host value. The tests on the value's kind
/// come in a fixed order and the first that holds decides: a large integer
/// is rounded to the nearest binary64 number before any looser test on
/// numbers could take it; null and undefined both give the null literal; a
/// string, a boolean and a number give themselves; an array and every other
/// kind give no literal.
pub open spec fn coerce(value: HostValueView) -> Result<ScalarView, LiteralError> {
    if value is BigInt {
        Ok(ScalarView::Float64(nearest_binary64(value->BigInt_0) as u64))
    } else if value is Null || value is Undefined {
        Ok(ScalarView::Null)
    } else if value is String {
        Ok(ScalarView::Utf8(value->String_0))
    } else if value is Boolean {
        Ok(ScalarView::Boolean(value->Boolean_0))
    } else if value is Number {
        Ok(ScalarView::Float64(value->Number_0))
    } else if value is Array {
        Err(LiteralError::UnsupportedLiteralType(HostKind::Array))
    } else {
        Err(LiteralError::UnsupportedLiteralType(HostKind::Other))
    }
}

/// What `lit` returns for a host value.
pub open spec fn spec_lit(value: HostValueView) -> Result<ExprView, LiteralError> {
    match coerce(value) {
        Ok(scalar) => Ok(ExprView::Literal(scalar)),
        Err(error) => Err(error),
    }
}

/// The literal expression that stands for `value`, or the reason why there
/// is none.
pub fn lit(value: HostValue) -> (literal: Result<Expr, LiteralError>)
    ensures
        literal is Ok <==> spec_lit(value@) is Ok,
        literal matches Ok(e) ==> spec_lit(value@) == Ok::<ExprView, LiteralError>(e@),
        literal matches Err(error) ==> spec_lit(value@) == Err::<ExprView, LiteralError>(error),
        literal is Err <==> value@ is Array || value@ is Other,
{
    match value {
        HostValue::BigInt(n) => Ok(Expr::Literal(Scalar::Float64(nearest_binary64_bits(n)))),
        HostValue::Null => Ok(Expr::Literal(Scalar::Null)),
        HostValue::Undefined => Ok(Expr::Literal(Scalar::Null)),
        HostValue::String(s) => Ok(Expr::Literal(Scalar::Utf8(s))),
        HostValue::Boolean(b) => Ok(Expr::Literal(Scalar::Boolean(b))),
        HostValue::Number(bits) => Ok(Expr::Literal(Scalar::Float64(bits))),
        HostValue::Array => Err(LiteralError::UnsupportedLiteralType(HostKind::Array)),
        HostValue::Other => Err(LiteralError::UnsupportedLiteralType(HostKind::Other)),
    }
}

} // verus!
