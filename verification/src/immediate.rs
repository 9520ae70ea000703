use vstd::prelude::*;

verus! {

use crate::types::Type;

/// A 256-bit two's-complement integer, stored as a high and a low 128-bit
/// half. The sign lives in the top bit of `hi`.
#[derive(Debug, Clone, Copy, PartialEq, Eq, Structural)]
pub struct I256 {
    pub hi: u128,
    pub lo: u128,
}

/// An interned constant operand: a scalar integer of one of the widths the
/// instruction set knows. Two immediates are the same constant exactly when
/// they are equal as values.
#[derive(Debug, Clone, Copy, PartialEq, Eq, Structural)]
pub enum Immediate {
    I1(bool),
    I8(i8),
    I16(i16),
    I32(i32),
    I64(i64),
    I128(i128),
    I256(I256),
}

impl Immediate {
    /// The type an immediate of this width carries.
    pub open spec fn ty_spec(self) -> Type {
        match self {
            Immediate::I1(_) => Type::I1,
            Immediate::I8(_) => Type::I8,
            Immediate::I16(_) => Type::I16,
            Immediate::I32(_) => Type::I32,
            Immediate::I64(_) => Type::I64,
            Immediate::I128(_) => Type::I128,
            Immediate::I256(_) => Type::I256,
        }
    }

    pub fn ty(&self) -> (r: Type)
        ensures
            r == self.ty_spec(),
    {
        match self {
            Immediate::I1(_) => Type::I1,
            Immediate::I8(_) => Type::I8,
            Immediate::I16(_) => Type::I16,
            Immediate::I32(_) => Type::I32,
            Immediate::I64(_) => Type::I64,
            Immediate::I128(_) => Type::I128,
            Immediate::I256(_) => Type::I256,
        }
    }
}

} // verus!
