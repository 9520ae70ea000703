use vstd::prelude::*;

verus! {

use crate::immediate::Immediate;
use crate::insn::Insn;
use crate::types::Type;

/// An opaque reference to an SSA value in a function's data-flow graph.
#[derive(Debug, Clone, Copy, PartialEq, Eq, Structural)]
pub struct Value(pub usize);

/// An opaque reference to a global variable in the module's store.
#[derive(Debug, Clone, Copy, PartialEq, Eq, Structural)]
pub struct GlobalVariable(pub usize);

/// What an SSA value is: an instruction result, a function argument, an
/// interned immediate, or the address of a global variable.
#[derive(Debug, Clone, Copy, PartialEq, Eq, Structural)]
pub enum ValueData {
    Insn { insn: Insn, ty: Type },
    Arg { ty: Type, idx: usize },
    Immediate { imm: Immediate, ty: Type },
    Global { gv: GlobalVariable, ty: Type },
}

impl ValueData {
    /// The type every kind of value carries.
    pub open spec fn ty_spec(self) -> Type {
        match self {
            ValueData::Insn { ty, .. } => ty,
            ValueData::Arg { ty, .. } => ty,
            ValueData::Immediate { ty, .. } => ty,
            ValueData::Global { ty, .. } => ty,
        }
    }
}

/// Where a value is defined: by an instruction, or as the `idx`-th function
/// argument.
#[derive(Debug, Clone, Copy, PartialEq, Eq, Structural)]
pub enum ValueDef {
    Insn(Insn),
    Arg(usize),
}

} // verus!
