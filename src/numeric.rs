//! The mathematical model of each primitive numeric type.
use crate::kind::{Kind, Raw, Value};
use vstd::prelude::*;

verus! {

/// A primitive numeric type, seen through its kind and its value.
pub trait Numeric: Sized + Copy {
    /// The kind of every number of this type.
    spec fn kind() -> Kind;

    /// The mathematical value of a number.
    spec fn value(self) -> Value;

    /// The kind, at run time.
    fn numeric_kind() -> (k: Kind)
        ensures
            k == Self::kind(),
    ;

    /// The value, widened for the conversion engine.
    fn to_raw(self) -> (r: Raw)
        ensures
            r.value() == self.value(),
    ;

    /// The number of this type with the given value.
    fn from_raw(r: Raw) -> (x: Self)
        requires
            Self::kind().holds(r.value()),
        ensures
            x.value() == r.value(),
    ;

    /// Every number holds a value of its own kind.
    proof fn lemma_value_holds(self)
        ensures
            Self::kind().holds(self.value()),
    ;

    /// A number is determined by its value.
    proof fn lemma_value_injective(self, other: Self)
        ensures
            self.value() == other.value() ==> self == other,
    ;
}

/// The values of an optional number.
pub open spec fn opt_value<T: Numeric>(r: Option<T>) -> Option<Value> {
    match r {
        Some(x) => Some(x.value()),
        None => None,
    }
}

impl Numeric for i8 {
    open spec fn kind() -> Kind {
        Kind::I8
    }

    open spec fn value(self) -> Value {
        Value::Int(self as int)
    }

    fn numeric_kind() -> (k: Kind) {
        Kind::I8
    }

    /// The value, widened for the conversion engine.
    fn to_raw(self) -> (r: Raw) {
        Raw::Int(self as i128)
    }

    /// The number of this type with the given value.
    fn from_raw(r: Raw) -> (x: Self) {
        match r {
            Raw::Int(i) => i as i8,
            Raw::Float(_) => 0,
        }
    }

    proof fn lemma_value_holds(self) {
    }

    proof fn lemma_value_injective(self, other: Self) {
    }
}

impl Numeric for i16 {
    open spec fn kind() -> Kind {
        Kind::I16
    }

    open spec fn value(self) -> Value {
        Value::Int(self as int)
    }

    fn numeric_kind() -> (k: Kind) {
        Kind::I16
    }

    /// The value, widened for the conversion engine.
    fn to_raw(self) -> (r: Raw) {
        Raw::Int(self as i128)
    }

    /// The number of this type with the given value.
    fn from_raw(r: Raw) -> (x: Self) {
        match r {
            Raw::Int(i) => i as i16,
            Raw::Float(_) => 0,
        }
    }

    proof fn lemma_value_holds(self) {
    }

    proof fn lemma_value_injective(self, other: Self) {
    }
}

impl Numeric for i32 {
    open spec fn kind() -> Kind {
        Kind::I32
    }

    open spec fn value(self) -> Value {
        Value::Int(self as int)
    }

    fn numeric_kind() -> (k: Kind) {
        Kind::I32
    }

    /// The value, widened for the conversion engine.
    fn to_raw(self) -> (r: Raw) {
        Raw::Int(self as i128)
    }

    /// The number of this type with the given value.
    fn from_raw(r: Raw) -> (x: Self) {
        match r {
            Raw::Int(i) => i as i32,
            Raw::Float(_) => 0,
        }
    }

    proof fn lemma_value_holds(self) {
    }

    proof fn lemma_value_injective(self, other: Self) {
    }
}

impl Numeric for i64 {
    open spec fn kind() -> Kind {
        Kind::I64
    }

    open spec fn value(self) -> Value {
        Value::Int(self as int)
    }

    fn numeric_kind() -> (k: Kind) {
        Kind::I64
    }

    /// The value, widened for the conversion engine.
    fn to_raw(self) -> (r: Raw) {
        Raw::Int(self as i128)
    }

    /// The number of this type with the given value.
    fn from_raw(r: Raw) -> (x: Self) {
        match r {
            Raw::Int(i) => i as i64,
            Raw::Float(_) => 0,
        }
    }

    proof fn lemma_value_holds(self) {
    }

    proof fn lemma_value_injective(self, other: Self) {
    }
}

impl Numeric for isize {
    open spec fn kind() -> Kind {
        Kind::Isize
    }

    open spec fn value(self) -> Value {
        Value::Int(self as int)
    }

    fn numeric_kind() -> (k: Kind) {
        Kind::Isize
    }

    /// The value, widened for the conversion engine.
    fn to_raw(self) -> (r: Raw) {
        Raw::Int(self as i128)
    }

    /// The number of this type with the given value.
    fn from_raw(r: Raw) -> (x: Self) {
        match r {
            Raw::Int(i) => i as isize,
            Raw::Float(_) => 0,
        }
    }

    proof fn lemma_value_holds(self) {
    }

    proof fn lemma_value_injective(self, other: Self) {
    }
}

impl Numeric for u8 {
    open spec fn kind() -> Kind {
        Kind::U8
    }

    open spec fn value(self) -> Value {
        Value::Int(self as int)
    }

    fn numeric_kind() -> (k: Kind) {
        Kind::U8
    }

    /// The value, widened for the conversion engine.
    fn to_raw(self) -> (r: Raw) {
        Raw::Int(self as i128)
    }

    /// The number of this type with the given value.
    fn from_raw(r: Raw) -> (x: Self) {
        match r {
            Raw::Int(i) => i as u8,
            Raw::Float(_) => 0,
        }
    }

    proof fn lemma_value_holds(self) {
    }

    proof fn lemma_value_injective(self, other: Self) {
    }
}

impl Numeric for u16 {
    open spec fn kind() -> Kind {
        Kind::U16
    }

    open spec fn value(self) -> Value {
        Value::Int(self as int)
    }

    fn numeric_kind() -> (k: Kind) {
        Kind::U16
    }

    /// The value, widened for the conversion engine.
    fn to_raw(self) -> (r: Raw) {
        Raw::Int(self as i128)
    }

    /// The number of this type with the given value.
    fn from_raw(r: Raw) -> (x: Self) {
        match r {
            Raw::Int(i) => i as u16,
            Raw::Float(_) => 0,
        }
    }

    proof fn lemma_value_holds(self) {
    }

    proof fn lemma_value_injective(self, other: Self) {
    }
}

impl Numeric for u32 {
    open spec fn kind() -> Kind {
        Kind::U32
    }

    open spec fn value(self) -> Value {
        Value::Int(self as int)
    }

    fn numeric_kind() -> (k: Kind) {
        Kind::U32
    }

    /// The value, widened for the conversion engine.
    fn to_raw(self) -> (r: Raw) {
        Raw::Int(self as i128)
    }

    /// The number of this type with the given value.
    fn from_raw(r: Raw) -> (x: Self) {
        match r {
            Raw::Int(i) => i as u32,
            Raw::Float(_) => 0,
        }
    }

    proof fn lemma_value_holds(self) {
    }

    proof fn lemma_value_injective(self, other: Self) {
    }
}

impl Numeric for u64 {
    open spec fn kind() -> Kind {
        Kind::U64
    }

    open spec fn value(self) -> Value {
        Value::Int(self as int)
    }

    fn numeric_kind() -> (k: Kind) {
        Kind::U64
    }

    /// The value, widened for the conversion engine.
    fn to_raw(self) -> (r: Raw) {
        Raw::Int(self as i128)
    }

    /// The number of this type with the given value.
    fn from_raw(r: Raw) -> (x: Self) {
        match r {
            Raw::Int(i) => i as u64,
            Raw::Float(_) => 0,
        }
    }

    proof fn lemma_value_holds(self) {
    }

    proof fn lemma_value_injective(self, other: Self) {
    }
}

impl Numeric for usize {
    open spec fn kind() -> Kind {
        Kind::Usize
    }

    open spec fn value(self) -> Value {
        Value::Int(self as int)
    }

    fn numeric_kind() -> (k: Kind) {
        Kind::Usize
    }

    /// The value, widened for the conversion engine.
    fn to_raw(self) -> (r: Raw) {
        Raw::Int(self as i128)
    }

    /// The number of this type with the given value.
    fn from_raw(r: Raw) -> (x: Self) {
        match r {
            Raw::Int(i) => i as usize,
            Raw::Float(_) => 0,
        }
    }

    proof fn lemma_value_holds(self) {
    }

    proof fn lemma_value_injective(self, other: Self) {
    }
}

} // verus!
