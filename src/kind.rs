use vstd::arithmetic::power2::pow2;
use vstd::prelude::*;

verus! {

/// The primitive numeric kinds: the fixed-width integers and the two
/// IEEE-754 binary floating-point formats.
#[derive(Clone, Copy, Debug, PartialEq, Eq, Structural)]
pub enum Kind {
    I8,
    I16,
    I32,
    I64,
    Isize,
    U8,
    U16,
    U32,
    U64,
    Usize,
    F32,
    F64,
}

/// The mathematical value of a number of some kind: an integer, or the bit
/// pattern of a binary floating-point number.
pub enum Value {
    Int(int),
    Float(nat),
}

/// A value held at run time: an integer widened to `i128`, or the bit
/// pattern of a float widened to `u64`.
#[derive(Clone, Copy, Debug, PartialEq, Eq, Structural)]
pub enum Raw {
    Int(i128),
    Float(u64),
}

impl Raw {
    pub open spec fn value(self) -> Value {
        match self {
            Raw::Int(i) => Value::Int(i as int),
            Raw::Float(b) => Value::Float(b as nat),
        }
    }
}

/// Number of bits in a machine word.
pub open spec fn word_bits() -> nat {
    if usize::MAX == u32::MAX {
        32
    } else {
        64
    }
}

impl Kind {
    pub open spec fn is_float(self) -> bool {
        self == Kind::F32 || self == Kind::F64
    }

    pub open spec fn is_int(self) -> bool {
        !self.is_float()
    }

    pub open spec fn is_signed_int(self) -> bool {
        match self {
            Kind::I8 | Kind::I16 | Kind::I32 | Kind::I64 | Kind::Isize => true,
            _ => false,
        }
    }

    pub open spec fn is_unsigned_int(self) -> bool {
        self.is_int() && !self.is_signed_int()
    }

    /// Width in bits.
    pub open spec fn bits(self) -> nat {
        match self {
            Kind::I8 | Kind::U8 => 8,
            Kind::I16 | Kind::U16 => 16,
            Kind::I32 | Kind::U32 | Kind::F32 => 32,
            Kind::I64 | Kind::U64 | Kind::F64 => 64,
            Kind::Isize | Kind::Usize => word_bits(),
        }
    }

    /// Smallest value of an integer kind.
    pub open spec fn min(self) -> int {
        match self {
            Kind::I8 => i8::MIN as int,
            Kind::I16 => i16::MIN as int,
            Kind::I32 => i32::MIN as int,
            Kind::I64 => i64::MIN as int,
            Kind::Isize => isize::MIN as int,
            _ => 0,
        }
    }

    /// Largest value of an integer kind.
    pub open spec fn max(self) -> int {
        match self {
            Kind::I8 => i8::MAX as int,
            Kind::I16 => i16::MAX as int,
            Kind::I32 => i32::MAX as int,
            Kind::I64 => i64::MAX as int,
            Kind::Isize => isize::MAX as int,
            Kind::U8 => u8::MAX as int,
            Kind::U16 => u16::MAX as int,
            Kind::U32 => u32::MAX as int,
            Kind::U64 => u64::MAX as int,
            Kind::Usize => usize::MAX as int,
            _ => 0,
        }
    }

    /// Whether `v` is a value that a number of this kind can hold.
    pub open spec fn holds(self, v: Value) -> bool {
        match v {
            Value::Int(i) => self.is_int() && self.min() <= i <= self.max(),
            Value::Float(b) => self.is_float() && b < pow2(self.bits()),
        }
    }

    pub fn is_float_exec(self) -> (r: bool)
        ensures
            r == self.is_float(),
    {
        match self {
            Kind::F32 | Kind::F64 => true,
            _ => false,
        }
    }

    /// Width in bits of an integer kind.
    pub fn bits_exec(self) -> (r: u32)
        requires
            self.is_int(),
        ensures
            r == self.bits(),
    {
        match self {
            Kind::I8 | Kind::U8 => 8,
            Kind::I16 | Kind::U16 => 16,
            Kind::I32 | Kind::U32 => 32,
            Kind::I64 | Kind::U64 => 64,
            _ => if usize::MAX as u128 == u32::MAX as u128 {
                32
            } else {
                64
            },
        }
    }

    /// The bounds of an integer kind, widened to `i128`.
    pub fn int_bounds(self) -> (r: (i128, i128))
        requires
            self.is_int(),
        ensures
            r.0 == self.min(),
            r.1 == self.max(),
    {
        match self {
            Kind::I8 => (i8::MIN as i128, i8::MAX as i128),
            Kind::I16 => (i16::MIN as i128, i16::MAX as i128),
            Kind::I32 => (i32::MIN as i128, i32::MAX as i128),
            Kind::I64 => (i64::MIN as i128, i64::MAX as i128),
            Kind::Isize => (isize::MIN as i128, isize::MAX as i128),
            Kind::U8 => (0, u8::MAX as i128),
            Kind::U16 => (0, u16::MAX as i128),
            Kind::U32 => (0, u32::MAX as i128),
            Kind::U64 => (0, u64::MAX as i128),
            Kind::Usize => (0, usize::MAX as i128),
            _ => (0, 0),
        }
    }
}

} // verus!
