//! A plain model of the JSON values that Xtream panels send for loosely typed
//! fields (year, tmdb id, episode id/number/season).

use vstd::prelude::*;

verus! {

/// A JSON number as the catalog logic reads it.
#[derive(Clone, Copy, Debug)]
pub enum JsonNumber {
    /// A non-negative integer.
    PosInt(u64),
    /// A negative integer.
    NegInt(i64),
    /// A floating-point number.  It is carried as its truncation to `u64`
    /// when it is finite and not negative (`f as u64`), else `None`; that is
    /// all the logic ever reads of a float.
    Float(Option<u64>),
}

/// A JSON value.  Object members keep the order in which they were read and
/// their keys are distinct.
pub enum JsonValue {
    Null,
    Bool(bool),
    Number(JsonNumber),
    String(String),
    Array(Vec<JsonValue>),
    Object(Vec<(String, JsonValue)>),
}

/// `Number::as_i64`.
pub open spec fn number_as_i64(n: JsonNumber) -> Option<i64> {
    match n {
        JsonNumber::PosInt(v) => if v <= i64::MAX {
            Some(v as i64)
        } else {
            None
        },
        JsonNumber::NegInt(v) => Some(v),
        JsonNumber::Float(_) => None,
    }
}

/// The number as an `i64`, when it is an integer in range.
pub fn as_i64(n: &JsonNumber) -> (r: Option<i64>)
    ensures
        r == number_as_i64(*n),
{
    match n {
        JsonNumber::PosInt(v) => {
            if *v <= i64::MAX as u64 {
                Some(*v as i64)
            } else {
                None
            }
        },
        JsonNumber::NegInt(v) => Some(*v),
        JsonNumber::Float(_) => None,
    }
}

} // verus!
