//! Numeric traits for generic mathematics, with checked conversions between
//! the primitive numeric kinds.
pub mod cast;
pub mod float;
pub mod identity;
pub mod ieee;
pub mod integer;
pub mod kind;
pub mod numeric;
pub mod signed;

pub use cast::{CastFrom, CastInto};
pub use float::{Float, FpCategory, F32, F64};
pub use identity::{One, Zero};
pub use integer::{Int, UnsignedInt};
pub use kind::{Kind, Raw, Value};
pub use numeric::Numeric;
pub use signed::Signed;
