//! The runtime value type.
use vstd::prelude::*;
use crate::value::callable::LoxCallable;

verus! {

/// A value of the language. `Number` holds the bit pattern of an IEEE-754
/// double.
#[derive(Debug, PartialEq)]
pub enum Object {
    Number(u64),
    Str(String),
    Nil,
    True,
    False,
    Func(LoxCallable),
}

/// A value with its text as characters.
pub enum ObjectView {
    Number(u64),
    Str(Seq<char>),
    Nil,
    True,
    False,
    Func(LoxCallable),
}

impl View for Object {
    type V = ObjectView;

    open spec fn view(&self) -> ObjectView {
        match self {
            Object::Number(bits) => ObjectView::Number(*bits),
            Object::Str(text) => ObjectView::Str(text@),
            Object::Nil => ObjectView::Nil,
            Object::True => ObjectView::True,
            Object::False => ObjectView::False,
            Object::Func(callable) => ObjectView::Func(*callable),
        }
    }
}

impl Clone for Object {
    fn clone(&self) -> (copy: Self)
        ensures
            copy == *self,
    {
        match self {
            Object::Number(bits) => Object::Number(*bits),
            Object::Str(text) => Object::Str(text.clone()),
            Object::Nil => Object::Nil,
            Object::True => Object::True,
            Object::False => Object::False,
            Object::Func(callable) => Object::Func(*callable),
        }
    }
}

/// The sign bit of a double.
pub const SIGN_BIT: u64 = 0x8000_0000_0000_0000;

/// The pattern of positive infinity; every larger magnitude is a NaN.
pub const INFINITY_BITS: u64 = 0x7ff0_0000_0000_0000;

/// The pattern without its sign bit.
pub open spec fn magnitude(bits: u64) -> u64 {
    if bits >= SIGN_BIT {
        (bits - SIGN_BIT) as u64
    } else {
        bits
    }
}

/// The pattern stands for no number.
pub open spec fn is_nan(bits: u64) -> bool {
    magnitude(bits) > INFINITY_BITS
}

/// Where a double that is no NaN stands in the order of the doubles: both
/// zeros at 0, the negative ones below, by magnitude.
pub open spec fn rank(bits: u64) -> int {
    if bits >= SIGN_BIT {
        -(magnitude(bits) as int)
    } else {
        magnitude(bits) as int
    }
}

/// IEEE equality: false where either side is a NaN, and the two zeros are
/// equal.
pub open spec fn number_equal(left: u64, right: u64) -> bool {
    !is_nan(left) && !is_nan(right) && rank(left) == rank(right)
}

/// IEEE `<`: false where either side is a NaN.
pub open spec fn number_less(left: u64, right: u64) -> bool {
    !is_nan(left) && !is_nan(right) && rank(left) < rank(right)
}

/// The double with the opposite sign: only the sign bit differs.
pub open spec fn number_negated(bits: u64) -> u64 {
    if bits >= SIGN_BIT {
        (bits - SIGN_BIT) as u64
    } else {
        (bits + SIGN_BIT) as u64
    }
}

/// `Nil` and `False` are falsy; every other value is truthy.
pub open spec fn truthy(value: ObjectView) -> bool {
    !(value is Nil || value is False)
}

/// The value that stands for a condition's outcome.
pub open spec fn truth(flag: bool) -> Object {
    if flag {
        Object::True
    } else {
        Object::False
    }
}

impl Object {
    /// The value that stands for a condition's outcome.
    pub fn from_bool(flag: bool) -> (value: Object)
        ensures
            value == truth(flag),
    {
        if flag {
            Object::True
        } else {
            Object::False
        }
    }

    /// Whether the value counts as true in a condition.
    pub fn is_truthy(&self) -> (flag: bool)
        ensures
            flag == truthy(self@),
    {
        match self {
            Object::Nil => false,
            Object::False => false,
            _ => true,
        }
    }
}

fn magnitude_of(bits: u64) -> (m: u64)
    ensures
        m == magnitude(bits),
{
    if bits >= SIGN_BIT {
        bits - SIGN_BIT
    } else {
        bits
    }
}

fn nan(bits: u64) -> (flag: bool)
    ensures
        flag == is_nan(bits),
{
    magnitude_of(bits) > INFINITY_BITS
}

/// `==` on two doubles, by their patterns.
pub fn numbers_equal(left: u64, right: u64) -> (flag: bool)
    ensures
        flag == number_equal(left, right),
{
    if nan(left) || nan(right) {
        false
    } else {
        let a: u64 = magnitude_of(left);
        let b: u64 = magnitude_of(right);
        (a == 0 && b == 0) || left == right
    }
}

/// `<` on two doubles, by their patterns.
pub fn numbers_less(left: u64, right: u64) -> (flag: bool)
    ensures
        flag == number_less(left, right),
{
    if nan(left) || nan(right) {
        false
    } else {
        let a: u64 = magnitude_of(left);
        let b: u64 = magnitude_of(right);
        if left >= SIGN_BIT {
            if right >= SIGN_BIT {
                a > b
            } else {
                a > 0 || b > 0
            }
        } else {
            if right >= SIGN_BIT {
                false
            } else {
                a < b
            }
        }
    }
}

/// `-` on a double, by its pattern.
pub fn negate_number(bits: u64) -> (negated: u64)
    ensures
        negated == number_negated(bits),
{
    if bits >= SIGN_BIT {
        bits - SIGN_BIT
    } else {
        bits + SIGN_BIT
    }
}

} // verus!
