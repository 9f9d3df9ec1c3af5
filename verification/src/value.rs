//! Runtime values: an immutable tagged value (integer, floating point,
//! character, string, or a symbolic reference to another variable's name),
//! its runtime category, and its canonical textual rendering.

use vstd::prelude::*;

verus! {

/// The runtime category of a concrete value, used when actual call
/// arguments are validated against a section's declared parameter shape.
#[derive(Clone, Copy, PartialEq, Eq, Structural, Debug)]
pub enum ValueCategory {
    /// Integers and floating-point values.
    Numeric,
    /// A single character.
    Character,
    /// A string.
    Textual,
}

/// A runtime value. `Float` carries the literal's canonical text: the engine
/// never computes with floating-point values, it only classifies and renders
/// them. `Symbol` is a deferred reference to another variable's name,
/// resolved only when the value is read.
pub enum Value {
    Integer(i64),
    Float(String),
    Char(char),
    Str(String),
    Symbol(String),
}

/// The mathematical model of a `Value`.
pub enum ValueV {
    Integer(int),
    Float(Seq<char>),
    Char(char),
    Str(Seq<char>),
    Symbol(Seq<char>),
}

impl View for Value {
    type V = ValueV;

    open spec fn view(&self) -> ValueV {
        match self {
            Value::Integer(x) => ValueV::Integer(*x as int),
            Value::Float(t) => ValueV::Float(t@),
            Value::Char(c) => ValueV::Char(*c),
            Value::Str(s) => ValueV::Str(s@),
            Value::Symbol(n) => ValueV::Symbol(n@),
        }
    }
}

/// The category of a value, if it has one. A symbol has no category of its
/// own: it must be resolved to its target first.
pub open spec fn category_of(v: ValueV) -> Option<ValueCategory> {
    match v {
        ValueV::Integer(_) => Some(ValueCategory::Numeric),
        ValueV::Float(_) => Some(ValueCategory::Numeric),
        ValueV::Char(_) => Some(ValueCategory::Character),
        ValueV::Str(_) => Some(ValueCategory::Textual),
        ValueV::Symbol(_) => None,
    }
}

impl Value {
    /// The runtime category of this value; `None` for an unresolved symbol.
    pub fn category(&self) -> (r: Option<ValueCategory>)
        ensures
            r == category_of(self@),
    {
        match self {
            Value::Integer(_) => Some(ValueCategory::Numeric),
            Value::Float(_) => Some(ValueCategory::Numeric),
            Value::Char(_) => Some(ValueCategory::Character),
            Value::Str(_) => Some(ValueCategory::Textual),
            Value::Symbol(_) => None,
        }
    }
}

impl Clone for Value {
    fn clone(&self) -> (r: Self)
        ensures
            r == self,
    {
        match self {
            Value::Integer(x) => Value::Integer(*x),
            Value::Float(t) => Value::Float(t.clone()),
            Value::Char(c) => Value::Char(*c),
            Value::Str(s) => Value::Str(s.clone()),
            Value::Symbol(n) => Value::Symbol(n.clone()),
        }
    }
}

/// The models of a sequence of values, elementwise.
pub open spec fn value_views(s: Seq<Value>) -> Seq<ValueV> {
    s.map_values(|v: Value| v@)
}

/// The decimal digit character for `d`.
pub open spec fn digit_char(d: nat) -> char
    recommends
        d < 10,
{
    if d == 0 {
        '0'
    } else if d == 1 {
        '1'
    } else if d == 2 {
        '2'
    } else if d == 3 {
        '3'
    } else if d == 4 {
        '4'
    } else if d == 5 {
        '5'
    } else if d == 6 {
        '6'
    } else if d == 7 {
        '7'
    } else if d == 8 {
        '8'
    } else {
        '9'
    }
}

/// The decimal text of a non-negative integer, most significant digit first.
pub open spec fn uint_text(n: nat) -> Seq<char>
    decreases n,
{
    if n < 10 {
        seq![digit_char(n)]
    } else {
        uint_text(n / 10).push(digit_char(n % 10))
    }
}

/// The decimal text of an integer: a leading '-' for negative values.
pub open spec fn int_text(i: int) -> Seq<char> {
    if i < 0 {
        seq!['-'] + uint_text((-i) as nat)
    } else {
        uint_text(i as nat)
    }
}

/// Relies on `String::push` of std: appends exactly the one character.
#[verifier::external_body]
pub fn push_char(s: &mut String, c: char)
    ensures
        final(s)@ == old(s)@.push(c),
{
    s.push(c)
}

fn digit_char_exec(d: u64) -> (c: char)
    requires
        d < 10,
    ensures
        c == digit_char(d as nat),
{
    if d == 0 {
        '0'
    } else if d == 1 {
        '1'
    } else if d == 2 {
        '2'
    } else if d == 3 {
        '3'
    } else if d == 4 {
        '4'
    } else if d == 5 {
        '5'
    } else if d == 6 {
        '6'
    } else if d == 7 {
        '7'
    } else if d == 8 {
        '8'
    } else {
        '9'
    }
}

fn push_uint_text(s: &mut String, n: u64)
    ensures
        final(s)@ == old(s)@ + uint_text(n as nat),
    decreases n,
{
    if n < 10 {
        push_char(s, digit_char_exec(n));
        proof {
            assert(final(s)@ =~= old(s)@ + uint_text(n as nat));
        }
    } else {
        push_uint_text(s, n / 10);
        push_char(s, digit_char_exec(n % 10));
        proof {
            assert(final(s)@ =~= old(s)@ + uint_text(n as nat));
        }
    }
}

/// Appends the decimal text of `x` to `s`.
pub fn push_int_text(s: &mut String, x: i64)
    ensures
        final(s)@ == old(s)@ + int_text(x as int),
{
    if x < 0 {
        push_char(s, '-');
        let m: u64 = ((-(x + 1)) as u64) + 1;
        assert(m as nat == (-(x as int)) as nat);
        push_uint_text(s, m);
        proof {
            assert(final(s)@ =~= old(s)@ + int_text(x as int));
        }
    } else {
        push_uint_text(s, x as u64);
    }
}

} // verus!
