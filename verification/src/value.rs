//! Runtime values. A number is held by its bit pattern in the IEEE 754
//! binary64 format; a string by the handle of its object in the heap.

use crate::heap::Heap;
use crate::object::Handle;
use vstd::prelude::*;
use vstd::string::*;

verus! {

#[derive(Clone, Copy, Debug, PartialEq, Eq, Structural)]
pub enum Value {
    /// A number, by its binary64 bit pattern.
    Number(u64),
    Boolean(bool),
    Nil,
    String(Handle),
}

/// The bit that holds a number's sign.
pub const SIGN_BIT: u64 = 0x8000_0000_0000_0000;

/// The bit pattern of positive infinity. Every larger magnitude is a NaN.
pub const INFINITY_BITS: u64 = 0x7ff0_0000_0000_0000;

/// The bits of a number without its sign.
pub open spec fn magnitude(bits: u64) -> int {
    bits as int % SIGN_BIT as int
}

pub open spec fn is_negative(bits: u64) -> bool {
    bits >= SIGN_BIT
}

pub open spec fn is_nan(bits: u64) -> bool {
    magnitude(bits) > INFINITY_BITS
}

/// Where a number that is no NaN stands among the numbers: numbers compare
/// as these integers do. Both zeros stand at 0.
pub open spec fn rank(bits: u64) -> int {
    if is_negative(bits) {
        -magnitude(bits)
    } else {
        magnitude(bits)
    }
}

/// Equality of two numbers: a NaN equals nothing, the two zeros are equal.
pub open spec fn number_equal(a: u64, b: u64) -> bool {
    !is_nan(a) && !is_nan(b) && rank(a) == rank(b)
}

/// `a < b` for two numbers: false where either is a NaN.
pub open spec fn number_less(a: u64, b: u64) -> bool {
    !is_nan(a) && !is_nan(b) && rank(a) < rank(b)
}

/// The number with the other sign.
pub open spec fn number_negated(bits: u64) -> u64 {
    if is_negative(bits) {
        (bits - SIGN_BIT) as u64
    } else {
        (bits + SIGN_BIT) as u64
    }
}

/// Equality of two values: numbers by `number_equal`, booleans by their
/// truth, strings by their handles; `nil` equals `nil`; values of two kinds
/// are not equal.
pub open spec fn values_equal(a: Value, b: Value) -> bool {
    match (a, b) {
        (Value::Number(left), Value::Number(right)) => number_equal(left, right),
        (Value::Boolean(left), Value::Boolean(right)) => left == right,
        (Value::String(left), Value::String(right)) => left == right,
        (Value::Nil, Value::Nil) => true,
        _ => false,
    }
}

/// `nil` and `false` are falsey, every other value is not.
pub open spec fn falsey(value: Value) -> bool {
    value == Value::Nil || value == Value::Boolean(false)
}

fn bits_magnitude(bits: u64) -> (m: u64)
    ensures
        m == magnitude(bits),
{
    bits % SIGN_BIT
}

fn bits_is_nan(bits: u64) -> (b: bool)
    ensures
        b == is_nan(bits),
{
    bits_magnitude(bits) > INFINITY_BITS
}

/// Whether the two numbers are equal.
pub fn bits_equal(a: u64, b: u64) -> (equal: bool)
    ensures
        equal == number_equal(a, b),
{
    if bits_is_nan(a) || bits_is_nan(b) {
        return false;
    }
    let (left, right) = (bits_magnitude(a), bits_magnitude(b));
    if left == 0 && right == 0 {
        true
    } else {
        a == b
    }
}

/// Whether the number `a` is less than the number `b`.
pub fn bits_less(a: u64, b: u64) -> (less: bool)
    ensures
        less == number_less(a, b),
{
    if bits_is_nan(a) || bits_is_nan(b) {
        return false;
    }
    let (left, right) = (bits_magnitude(a), bits_magnitude(b));
    if a >= SIGN_BIT {
        if b >= SIGN_BIT {
            left > right
        } else {
            left > 0 || right > 0
        }
    } else {
        if b >= SIGN_BIT {
            false
        } else {
            left < right
        }
    }
}

/// The number with the other sign.
pub fn bits_negated(bits: u64) -> (negated: u64)
    ensures
        negated == number_negated(bits),
{
    if bits >= SIGN_BIT {
        bits - SIGN_BIT
    } else {
        bits + SIGN_BIT
    }
}

impl Value {
    pub fn nil() -> (value: Self)
        ensures
            value == Value::Nil,
    {
        Self::Nil
    }

    pub fn true_value() -> (value: Self)
        ensures
            value == Value::Boolean(true),
    {
        Self::Boolean(true)
    }

    pub fn false_value() -> (value: Self)
        ensures
            value == Value::Boolean(false),
    {
        Self::Boolean(false)
    }

    pub fn is_number(&self) -> (b: bool)
        ensures
            b == (self is Number),
    {
        matches!(self, Self::Number(..))
    }

    pub fn is_boolean(&self) -> (b: bool)
        ensures
            b == (self is Boolean),
    {
        matches!(self, Self::Boolean(..))
    }

    pub fn is_nil(&self) -> (b: bool)
        ensures
            b == (self is Nil),
    {
        matches!(self, Self::Nil)
    }

    pub fn is_falsey(&self) -> (b: bool)
        ensures
            b == falsey(*self),
    {
        matches!(self, Self::Nil | Self::Boolean(false))
    }

    pub fn is_string(&self) -> (b: bool)
        ensures
            b == (self is String),
    {
        matches!(self, Self::String(..))
    }

    /// The bit pattern of a number.
    pub fn as_number(&self) -> (bits: Option<u64>)
        ensures
            bits == match *self {
                Value::Number(bits) => Some(bits),
                _ => None,
            },
    {
        match self {
            Self::Number(v) => Some(*v),
            _ => None,
        }
    }

    pub fn as_boolean(&self) -> (truth: Option<bool>)
        ensures
            truth == match *self {
                Value::Boolean(truth) => Some(truth),
                _ => None,
            },
    {
        match self {
            Self::Boolean(v) => Some(*v),
            _ => None,
        }
    }

    pub fn as_string(&self) -> (handle: Option<Handle>)
        ensures
            handle == match *self {
                Value::String(handle) => Some(handle),
                _ => None,
            },
    {
        if let Self::String(v) = self {
            Some(*v)
        } else {
            None
        }
    }

    /// Whether the two values are equal as Lox has it.
    pub fn equals(&self, other: &Value) -> (equal: bool)
        ensures
            equal == values_equal(*self, *other),
    {
        match (self, other) {
            (Self::Number(left), Self::Number(right)) => bits_equal(*left, *right),
            (Self::Boolean(left), Self::Boolean(right)) => *left == *right,
            (Self::String(left), Self::String(right)) => left.index() == right.index(),
            (Self::Nil, Self::Nil) => true,
            _ => false,
        }
    }
}

impl From<bool> for Value {
    fn from(inner: bool) -> (value: Self)
        ensures
            value == Value::Boolean(inner),
    {
        Self::Boolean(inner)
    }
}

impl vstd::std_specs::convert::FromSpecImpl<bool> for Value {
    open spec fn obeys_from_spec() -> bool {
        true
    }

    open spec fn from_spec(inner: bool) -> Value {
        Value::Boolean(inner)
    }
}

/// Negating a value's truth twice gives a boolean: true exactly where the
/// value is not falsey.
pub proof fn lemma_double_negation(value: Value)
    ensures
        Value::Boolean(falsey(Value::Boolean(falsey(value)))) == Value::Boolean(!falsey(value)),
{
}

/// Equal strings are one object: two string values are equal exactly when
/// their handles are.
pub proof fn lemma_string_equality(a: Handle, b: Handle)
    ensures
        values_equal(Value::String(a), Value::String(b)) == (a.index == b.index),
{
}

/// What is to be printed: a text, or a number by its bit pattern.
#[derive(Clone, Debug, PartialEq, Eq)]
pub enum Output {
    Text(String),
    Number(u64),
}

pub enum OutputView {
    Text(Seq<char>),
    Number(u64),
}

impl View for Output {
    type V = OutputView;

    open spec fn view(&self) -> OutputView {
        match self {
            Output::Text(text) => OutputView::Text(text@),
            Output::Number(bits) => OutputView::Number(*bits),
        }
    }
}

/// What is printed for `value`, where a string's object is in the heap.
pub open spec fn rendered(heap: Seq<Seq<char>>, value: Value) -> Option<OutputView> {
    match value {
        Value::Nil => Some(OutputView::Text("nil"@)),
        Value::Boolean(true) => Some(OutputView::Text("true"@)),
        Value::Boolean(false) => Some(OutputView::Text("false"@)),
        Value::Number(bits) => Some(OutputView::Number(bits)),
        Value::String(handle) => if handle.index < heap.len() {
            Some(OutputView::Text(heap[handle.index as int]))
        } else {
            None
        },
    }
}

/// What is printed for `value`; `None` for a string whose object `heap` does
/// not hold.
pub fn render(heap: &Heap, value: Value) -> (output: Option<Output>)
    ensures
        match output {
            Some(output) => rendered(heap@, value) == Some(output@),
            None => rendered(heap@, value) is None,
        },
{
    match value {
        Value::Nil => Some(Output::Text("nil".to_owned())),
        Value::Boolean(true) => Some(Output::Text("true".to_owned())),
        Value::Boolean(false) => Some(Output::Text("false".to_owned())),
        Value::Number(bits) => Some(Output::Number(bits)),
        Value::String(handle) => match heap.get(handle) {
            Some(string) => Some(Output::Text(string.as_str().to_owned())),
            None => None,
        },
    }
}

} // verus!
