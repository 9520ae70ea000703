//! In-memory core of a compiler intermediate representation aimed at
//! smart-contract targets: a typed value/instruction/block graph with
//! interned immediates and per-value user sets, a block/instruction layout,
//! a module-level type and global-variable store, and an incremental SSA
//! construction algorithm (sealing, phi placement, trivial-phi elimination)
//! behind a function-builder facade.

pub mod dfg;
pub mod func_builder;
pub mod function;
pub mod global_variable;
pub mod layout;
pub mod linkage;
pub mod immediate;
pub mod insn;
pub mod module;
pub mod module_builder;
pub mod ssa;
pub mod types;
pub mod value;

pub use dfg::{Block, BlockData, DataFlowGraph};
pub use func_builder::{CursorLocation, FunctionBuilder};
pub use function::{Function, Signature};
pub use global_variable::{ConstantValue, GlobalVariableData, GlobalVariableStore};
pub use layout::Layout;
pub use linkage::Linkage;
pub use immediate::{Immediate, I256};
pub use insn::{BinaryOp, BranchInfo, CastOp, DataLocationKind, Insn, InsnData, UnaryOp};
pub use module::{Endian, FuncRef, FuncStore, Module, ModuleCtx, TargetSpec};
pub use module_builder::ModuleBuilder;
pub use ssa::{SsaBuilder, Variable};
pub use types::{CompoundType, CompoundTypeData, StructData, Type, TypeLayoutError, TypeStore};
pub use value::{GlobalVariable, Value, ValueData, ValueDef};
