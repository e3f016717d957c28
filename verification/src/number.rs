//! Numeric values and homogeneous columns of them.

use vstd::prelude::*;

verus! {

/// A number: either a 64-bit float or a 64-bit signed integer.
///
/// The float is carried as the bit pattern of an `f64`, so the store and all
/// record logic treat it as an opaque 64-bit payload. Callers that read input
/// or serialize output convert between `f64` and these bits.
#[derive(Clone, Copy, Debug, PartialEq, Eq, Structural)]
pub enum Number {
    /// A float, as the bit pattern of an `f64`.
    Float(u64),
    /// An integer.
    Int(i64),
}

impl Number {
    /// True if this value is an integer.
    pub open spec fn is_int(self) -> bool {
        matches!(self, Number::Int(_))
    }

    /// True if this value is a float.
    pub open spec fn is_float(self) -> bool {
        matches!(self, Number::Float(_))
    }

    /// True if `self` and `other` are of the same kind (both integers or
    /// both floats).
    pub open spec fn same_kind(self, other: Number) -> bool {
        self.is_int() == other.is_int()
    }
}

impl From<i64> for Number {
    fn from(number: i64) -> (r: Self)
        ensures
            r == Number::Int(number),
    {
        Number::Int(number)
    }
}

impl vstd::std_specs::convert::FromSpecImpl<i64> for Number {
    open spec fn obeys_from_spec() -> bool {
        true
    }

    open spec fn from_spec(number: i64) -> Self {
        Number::Int(number)
    }
}

/// Either a vector of float bit patterns or a vector of integers. Used as a
/// column: an append-only homogeneous sequence of values of a single kind.
#[derive(Debug)]
pub enum NumberVec {
    /// A vector of floats, each as the bit pattern of an `f64`.
    Float(Vec<u64>),
    /// A vector of integers.
    Int(Vec<i64>),
}

impl NumberVec {
    /// True if this is an integer column.
    pub open spec fn is_int_col(self) -> bool {
        matches!(self, NumberVec::Int(_))
    }

    /// The column's contents, each element tagged with the column's kind.
    pub open spec fn values(self) -> Seq<Number> {
        match self {
            NumberVec::Float(vec) => vec@.map(|i: int, b: u64| Number::Float(b)),
            NumberVec::Int(vec) => vec@.map(|i: int, x: i64| Number::Int(x)),
        }
    }

    /// True if `n` is of this column's kind.
    pub open spec fn accepts(self, n: Number) -> bool {
        self.is_int_col() == n.is_int()
    }

    /// Construct a one-element column holding `number`, of `number`'s kind.
    pub fn from_number(number: Number) -> (col: Self)
        ensures
            col.values() =~= seq![number],
            col.accepts(number),
    {
        match number {
            Number::Float(bits) => NumberVec::Float(vec![bits]),
            Number::Int(n) => NumberVec::Int(vec![n]),
        }
    }

    /// Get the column's length.
    pub fn len(&self) -> (n: usize)
        ensures
            n == self.values().len(),
    {
        match self {
            NumberVec::Float(vec) => vec.len(),
            NumberVec::Int(vec) => vec.len(),
        }
    }

    /// Check whether the column is empty.
    pub fn is_empty(&self) -> (e: bool)
        ensures
            e == (self.values().len() == 0),
    {
        match self {
            NumberVec::Float(vec) => vec.len() == 0,
            NumberVec::Int(vec) => vec.len() == 0,
        }
    }

    /// Get a reference to the inner vector of float bit patterns. Returns
    /// `None` if it is not a vector of floats.
    pub fn float(&self) -> (r: Option<&Vec<u64>>)
        ensures
            match r {
                Some(vec) => !self.is_int_col() && *self == NumberVec::Float(*vec),
                None => self.is_int_col(),
            },
    {
        match self {
            NumberVec::Float(vec) => Some(vec),
            NumberVec::Int(_) => None,
        }
    }

    /// Get a reference to the inner vector of integers. Returns `None` if it
    /// is not a vector of integers.
    pub fn ints(&self) -> (r: Option<&Vec<i64>>)
        ensures
            match r {
                Some(vec) => self.is_int_col() && *self == NumberVec::Int(*vec),
                None => !self.is_int_col(),
            },
    {
        match self {
            NumberVec::Int(vec) => Some(vec),
            NumberVec::Float(_) => None,
        }
    }

    /// Get an element by index. Returns a [`Number`] of the column's kind, or
    /// `None` if the index is out of bounds.
    pub fn get(&self, index: usize) -> (r: Option<Number>)
        ensures
            r == if index < self.values().len() {
                Some(self.values()[index as int])
            } else {
                None::<Number>
            },
    {
        match self {
            NumberVec::Float(vec) => {
                if index < vec.len() {
                    Some(Number::Float(vec[index]))
                } else {
                    None
                }
            },
            NumberVec::Int(vec) => {
                if index < vec.len() {
                    Some(Number::Int(vec[index]))
                } else {
                    None
                }
            },
        }
    }

    /// Append a value of the column's kind to the column.
    pub fn push(&mut self, number: Number)
        requires
            old(self).accepts(number),
        ensures
            final(self).values() =~= old(self).values().push(number),
            final(self).is_int_col() == old(self).is_int_col(),
    {
        match (self, number) {
            (NumberVec::Float(vec), Number::Float(bits)) => vec.push(bits),
            (NumberVec::Int(vec), Number::Int(n)) => vec.push(n),
            _ => (),
        }
    }
}

} // verus!
