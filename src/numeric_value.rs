use vstd::prelude::*;
use crate::text::{dec_int, find, find_char, int_chars, parse_int, push_int};

verus! {

/// Numeric value property of a character. Includes fractions such as
/// `U+2155 VULGAR FRACTION ONE FIFTH` and the values of compatibility
/// characters such as circled numbers.
#[derive(Clone, Copy, Debug, PartialEq, Eq, Structural)]
pub enum NumericValue {
    Absent,
    Integer(i64),
    Rational(i32, i32),
}

/// The value that `s` writes: nothing for an empty field, a fraction of two
/// 32-bit integers around the first `/`, or else a 64-bit integer.
pub open spec fn numeric_value_of(s: Seq<char>) -> Option<NumericValue> {
    if s.len() == 0 {
        Some(NumericValue::Absent)
    } else {
        match find_char(s, '/') {
            Some(k) => {
                let a = dec_int(s.subrange(0, k), i32::MIN as int, i32::MAX as int);
                let b = dec_int(s.subrange(k + 1, s.len() as int), i32::MIN as int, i32::MAX as int);
                if a is Some && b is Some {
                    Some(NumericValue::Rational(a->0 as i32, b->0 as i32))
                } else {
                    None
                }
            },
            None => match dec_int(s, i64::MIN as int, i64::MAX as int) {
                Some(v) => Some(NumericValue::Integer(v as i64)),
                None => None,
            },
        }
    }
}

/// How a numeric value is written in the Unicode Character Database.
pub open spec fn numeric_value_chars(v: NumericValue) -> Seq<char> {
    match v {
        NumericValue::Absent => Seq::empty(),
        NumericValue::Integer(n) => int_chars(n as int),
        NumericValue::Rational(a, b) => int_chars(a as int) + seq!['/'] + int_chars(b as int),
    }
}

impl NumericValue {
    /// Reads a numeric value field.
    pub fn parse(input: &str) -> (r: Result<NumericValue, String>)
        ensures
            match r {
                Ok(v) => numeric_value_of(input@) == Some(v),
                Err(e) => numeric_value_of(input@) is None && e@ == "not a valid numeric value: `"@ + input@
                    + "`"@,
            },
    {
        let n = input.unicode_len();
        if n == 0 {
            return Ok(NumericValue::Absent);
        }
        let value = match find(input, '/') {
            Some(k) => {
                let a = parse_int(input.substring_char(0, k), i32::MIN as i64, i32::MAX as i64);
                let b = parse_int(input.substring_char(k + 1, n), i32::MIN as i64, i32::MAX as i64);
                match (a, b) {
                    (Some(a), Some(b)) => Some(NumericValue::Rational(a as i32, b as i32)),
                    _ => None,
                }
            },
            None => match parse_int(input, i64::MIN, i64::MAX) {
                Some(v) => Some(NumericValue::Integer(v)),
                None => None,
            },
        };
        match value {
            Some(v) => Ok(v),
            None => {
                let mut e = String::from_str("not a valid numeric value: `");
                e.append(input);
                e.append("`");
                Err(e)
            },
        }
    }

    /// The value as the Unicode Character Database writes it.
    pub fn to_string(&self) -> (r: String)
        ensures
            r@ == numeric_value_chars(*self),
    {
        let mut out = String::new();
        match self {
            NumericValue::Absent => {},
            NumericValue::Integer(n) => push_int(&mut out, *n),
            NumericValue::Rational(a, b) => {
                push_int(&mut out, *a as i64);
                out.append("/");
                proof {
                    reveal_strlit("/");
                }
                push_int(&mut out, *b as i64);
            },
        }
        assert(out@ =~= numeric_value_chars(*self));
        out
    }
}

} // verus!
