use vstd::prelude::*;

verus! {

use crate::dfg::{insn_list_ok, result_kind_none, result_ty_ok, Block};
use crate::function::{lemma_args_preserved, Function, Signature};
use crate::immediate::Immediate;
use crate::insn::{phi_ty_of, BinaryOp, CastOp, DataLocationKind, Insn, InsnData, UnaryOp};
use crate::module::{ModuleCtx, TargetSpec};
use crate::ssa::{evolves_to, lemma_wf_transfer, SsaBuilder, Variable};
use crate::types::Type;
use crate::value::{Value, ValueData};

/// How many predecessor edges a multi-way branch with the given default
/// and table records for block `b`: one for the default, plus one per
/// table entry whose destination is `b`.
pub open spec fn times_dest(default: Option<Block>, table: Seq<(Value, Block)>, b: Block) -> int
    decreases table.len(),
{
    if table.len() == 0 {
        if default == Some(b) {
            1int
        } else {
            0int
        }
    } else {
        times_dest(default, table.drop_last(), b) + if table.last().1 == b {
            1int
        } else {
            0int
        }
    }
}

/// The edge count is never negative.
proof fn lemma_times_dest_nonneg(default: Option<Block>, table: Seq<(Value, Block)>, b: Block)
    ensures
        times_dest(default, table, b) >= 0,
    decreases table.len(),
{
    if table.len() == 0 {
    } else {
        lemma_times_dest_nonneg(default, table.drop_last(), b);
    }
}

/// Where the next instruction goes: nowhere yet, right after a given
/// instruction, or at the top or bottom of a block.
#[derive(Debug, Clone, Copy, PartialEq, Eq, Structural)]
pub enum CursorLocation {
    NoWhere,
    At(Insn),
    BlockTop(Block),
    BlockBottom(Block),
}

/// The facade a frontend builds one function through: typed instruction
/// constructors, block handling, and on-the-fly SSA construction via
/// variables, sealing and phi placement.
#[derive(Debug)]
pub struct FunctionBuilder {
    pub ctx: ModuleCtx,
    pub func: Function,
    pub loc: CursorLocation,
    pub ssa: SsaBuilder,
}

impl FunctionBuilder {
    pub open spec fn wf(self) -> bool {
        &&& self.ctx.wf()
        &&& self.func.wf()
        &&& self.ssa.wf(self.func)
    }

    /// The block the cursor currently sits in.
    pub open spec fn cur_block_spec(self) -> Option<Block> {
        match self.loc {
            CursorLocation::NoWhere => None,
            CursorLocation::At(i) => self.func.layout.block_of(i),
            CursorLocation::BlockTop(b) => Some(b),
            CursorLocation::BlockBottom(b) => Some(b),
        }
    }

    /// The cursor points at a place instructions can go.
    pub open spec fn can_insert(self) -> bool {
        match self.loc {
            CursorLocation::NoWhere => false,
            CursorLocation::At(i) => self.func.dfg.valid_insn(i) && self.func.layout.is_inserted(
                i,
            ),
            CursorLocation::BlockTop(b) => self.func.dfg.valid_block(b)
                && self.func.layout.is_appended(b),
            CursorLocation::BlockBottom(b) => self.func.dfg.valid_block(b)
                && self.func.layout.is_appended(b),
        }
    }

    pub open spec fn the_func(self) -> Function {
        self.func
    }

    /// The handle the next instruction will get.
    pub open spec fn next_insn(self) -> Insn {
        Insn(self.func.dfg.num_insns() as usize)
    }

    /// `r` is the result value of instruction `k`.
    pub open spec fn is_result_of(self, r: Value, k: Insn) -> bool {
        self.func.dfg.value_of(r) matches ValueData::Insn { insn, .. } && insn == k
    }

    /// One step of construction: exactly `data` was appended, it sits in
    /// the block the cursor was in (at the end when the cursor was at a
    /// block bottom), the cursor now points at it, it is a user of exactly
    /// the values `data` names, and everything that existed is untouched.
    pub open spec fn appended(self, new: FunctionBuilder, data: InsnData) -> bool {
        &&& new.the_func().dfg.insns@ == self.the_func().dfg.insns@.push(data)
        &&& new.loc == CursorLocation::At(self.next_insn())
        &&& new.the_func().layout.block_of(self.next_insn()) == self.cur_block_spec()
        &&& new.the_func().layout.block_order@ == self.the_func().layout.block_order@
        &&& forall|b2: Block|
            Some(b2) != self.cur_block_spec() ==> new.the_func().layout.insns_in(b2)
                == self.the_func().layout.insns_in(b2)
        &&& (self.loc matches CursorLocation::BlockBottom(b) ==> new.the_func().layout.insns_in(b)
            == self.the_func().layout.insns_in(b).push(self.next_insn()))
        &&& forall|v: Value|
            self.valid_value(v) ==> new.valid_value(v) && #[trigger] new.value_ty_of(v)
                == self.value_ty_of(v)
        &&& forall|w: Value|
            self.valid_value(w) ==> (new.the_func().dfg.is_user(w, self.next_insn())
                <==> #[trigger] data.args_spec().contains(w))
        &&& new.the_func().sig == self.the_func().sig
        &&& new.the_func().arg_values@ == self.the_func().arg_values@
        &&& new.the_func().dfg.num_blocks() == self.the_func().dfg.num_blocks()
    }

    pub open spec fn valid_value(self, v: Value) -> bool {
        self.func.dfg.valid_value(v)
    }

    pub open spec fn value_ty_of(self, v: Value) -> Type {
        self.func.dfg.value_of(v).ty_spec()
    }

    pub open spec fn valid_block(self, b: Block) -> bool {
        self.func.dfg.valid_block(b) && self.func.layout.is_appended(b)
    }

    /// Opens a builder over a fresh function with the given signature for
    /// the given target.
    pub fn new(sig: Signature, isa: TargetSpec) -> (r: FunctionBuilder)
        requires
            isa.wf(),
        ensures
            r.wf(),
            r.ctx.target == isa,
            r.the_func().sig.name@ == sig.name@,
            r.the_func().sig.args@ == sig.args@,
            r.the_func().sig.ret_ty == sig.ret_ty,
            r.the_func().arg_values@.len() == sig.args@.len(),
            r.the_func().dfg.num_blocks() == 0,
            forall|k: int|
                0 <= k < r.the_func().arg_values@.len() ==> (#[trigger] r.the_func(
                ).arg_values@[k]).0 == k,
            r.cur_block_spec() is None,
            r.the_func().dfg.num_insns() == 0,
            r.the_func().layout.block_order@.len() == 0,
            r.ssa.var_types@.len() == 0,
            r.ssa.defs@.len() == 0,
            r.ssa.preds@.len() == 0,
            r.ssa.sealed@.len() == 0,
            r.ssa.incomplete@.len() == 0,
    {
        let func = Function::new(sig);
        FunctionBuilder {
            ctx: ModuleCtx::new(isa),
            func,
            loc: CursorLocation::NoWhere,
            ssa: SsaBuilder::new(),
        }
    }

    /// Appends a fresh block at the end of the function.
    pub fn append_block(&mut self) -> (r: Block)
        requires
            old(self).wf(),
        ensures
            final(self).wf(),
            final(self).valid_block(r),
            r.0 == old(self).the_func().dfg.num_blocks(),
            final(self).the_func().layout.block_order@ == old(self).the_func().layout.block_order@.push(r),
            final(self).loc == old(self).loc,
            final(self).ssa == old(self).ssa,
            final(self).the_func().dfg.insns@ == old(self).the_func().dfg.insns@,
            final(self).the_func().dfg.values@ == old(self).the_func().dfg.values@,
            !final(self).ssa.is_sealed_spec(r),
            final(self).ssa.preds_of(r) == Seq::<Block>::empty(),
            final(self).ssa.incomplete_in(r) == Seq::<(Variable, Insn)>::empty(),
            final(self).the_func().layout.insns_in(r) == Seq::<Insn>::empty(),
            forall|b2: Block|
                final(self).the_func().layout.insns_in(b2) == old(self).the_func().layout.insns_in(b2),
    {
        let ghost f0 = self.func;
        let b = self.func.dfg.make_block();
        proof {
            self.func.layout.lemma_wf_grow(
                f0.dfg.num_blocks(),
                f0.dfg.num_insns(),
                self.func.dfg.num_blocks(),
                self.func.dfg.num_insns(),
            );
            assert(!self.func.layout.is_appended(b)) by {
                if self.func.layout.block_order@.contains(b) {
                    let k = choose|k: int|
                        0 <= k < self.func.layout.block_order@.len()
                            && self.func.layout.block_order@[k] == b;
                    assert(self.func.layout.block_order@[k].0 < f0.dfg.num_blocks());
                }
            }
        }
        self.func.layout.append_block(b, Ghost(self.func.dfg.num_blocks()), Ghost(
            self.func.dfg.num_insns(),
        ));
        proof {
            assert(self.func.wf()) by {
                lemma_args_preserved(f0, self.func);
            }
            assert(evolves_to(f0, self.func)) by {
                assert forall|j: Insn|
                    f0.dfg.valid_insn(j) implies (#[trigger] phi_ty_of(self.func.dfg.data_of(j))
                    == phi_ty_of(f0.dfg.data_of(j)) && self.func.dfg.result_of(j)
                    == f0.dfg.result_of(j)) by {
                    assert(self.func.dfg.data_of(j) == f0.dfg.data_of(j));
                }
                assert forall|b2: Block|
                    f0.layout.is_appended(b2) implies #[trigger] self.func.layout.is_appended(
                    b2,
                ) by {
                    let k = choose|k: int|
                        0 <= k < f0.layout.block_order@.len() && f0.layout.block_order@[k] == b2;
                    assert(self.func.layout.block_order@[k] == b2);
                }
            }
            lemma_wf_transfer(self.ssa, f0, self.func);
            assert(!self.ssa.is_sealed_spec(b)) by {
                assert(old(self).ssa.sealed@.len() <= f0.dfg.num_blocks());
            }
            assert(self.ssa.preds_of(b) == Seq::<Block>::empty()) by {
                assert(old(self).ssa.preds@.len() <= f0.dfg.num_blocks());
            }
            assert(self.ssa.incomplete_in(b) == Seq::<(Variable, Insn)>::empty()) by {
                assert(old(self).ssa.incomplete@.len() <= f0.dfg.num_blocks());
            }
            assert(self.func.layout.insns_in(b) == Seq::<Insn>::empty()) by {
                assert(f0.layout.block_insns@.len() <= f0.dfg.num_blocks());
            }
        }
        b
    }

    /// Moves the cursor to the bottom of `block`.
    pub fn switch_to_block(&mut self, block: Block)
        requires
            old(self).wf(),
            old(self).valid_block(block),
        ensures
            final(self).wf(),
            *final(self) == (FunctionBuilder {
                loc: CursorLocation::BlockBottom(block),
                ..*old(self)
            }),
            final(self).cur_block_spec() == Some(block),
            final(self).can_insert(),
    {
        self.loc = CursorLocation::BlockBottom(block);
    }

    /// Interns a constant: the same immediate always yields the same
    /// value handle.
    pub fn make_imm_value(&mut self, imm: Immediate) -> (r: Value)
        requires
            old(self).wf(),
        ensures
            final(self).wf(),
            final(self).valid_value(r),
            final(self).value_ty_of(r) == imm.ty_spec(),
            final(self).the_func().dfg.imm_lookup(imm) == Some(r),
            old(self).the_func().dfg.has_imm(imm) ==> final(self).the_func() == old(self).the_func() && old(self).the_func().dfg.imm_lookup(imm) == Some(r),
            final(self).loc == old(self).loc,
            final(self).ssa == old(self).ssa,
            final(self).the_func().dfg.insns@ == old(self).the_func().dfg.insns@,
            final(self).the_func().layout == old(self).the_func().layout,
    {
        let ghost f0 = self.func;
        let r = self.func.dfg.make_imm_value(imm);
        proof {
            assert(self.func.wf()) by {
                self.func.layout.lemma_wf_grow(
                    f0.dfg.num_blocks(),
                    f0.dfg.num_insns(),
                    self.func.dfg.num_blocks(),
                    self.func.dfg.num_insns(),
                );
                lemma_args_preserved(f0, self.func);
            }
            assert(evolves_to(f0, self.func)) by {
                assert forall|j: Insn|
                    f0.dfg.valid_insn(j) implies (#[trigger] phi_ty_of(self.func.dfg.data_of(j))
                    == phi_ty_of(f0.dfg.data_of(j)) && self.func.dfg.result_of(j)
                    == f0.dfg.result_of(j)) by {
                    assert(self.func.dfg.data_of(j) == f0.dfg.data_of(j));
                }
            }
            lemma_wf_transfer(self.ssa, f0, self.func);
        }
        r
    }

    /// Inserts `data` at the cursor, attaches a result value when the
    /// opcode has one, and leaves the cursor after the new instruction.
    fn insert_insn(&mut self, data: InsnData) -> (r: Option<Value>)
        requires
            old(self).wf(),
            old(self).can_insert(),
            old(self).the_func().dfg.insn_refs_valid(data),
            match data {
                InsnData::Alloca { ty } => old(self).ctx.type_store.is_valid(ty),
                _ => true,
            },
        ensures
            final(self).wf(),
            old(self).appended(*final(self), data),
            r is Some <==> !result_kind_none(data),
            r matches Some(v) ==> ({
                &&& final(self).valid_value(v)
                &&& final(self).the_func().dfg.value_of(v) matches ValueData::Insn { insn, ty }
                    && insn.0 == old(self).the_func().dfg.num_insns() && result_ty_ok(
                    old(self).the_func().dfg,
                    final(self).ctx,
                    data,
                    ty,
                )
            }),
            r is None ==> final(self).the_func().dfg.values@ == old(self).the_func().dfg.values@,
            r matches Some(v) ==> final(self).the_func().dfg.result_of(old(self).next_insn())
                == Some(v),
            final(self).can_insert(),
            final(self).ssa == old(self).ssa,
            old(self).cur_block_spec() matches Some(b) ==> final(self).cur_block_spec() == Some(
                b,
            ),
    {
        let ghost f0 = self.func;
        let i = self.func.dfg.make_insn(data);
        proof {
            self.func.layout.lemma_wf_grow(
                f0.dfg.num_blocks(),
                f0.dfg.num_insns(),
                self.func.dfg.num_blocks(),
                self.func.dfg.num_insns(),
            );
        }
        match self.loc {
            CursorLocation::At(prev) => {
                self.func.layout.insert_insn_after(prev, i, Ghost(self.func.dfg.num_blocks()),
                    Ghost(self.func.dfg.num_insns()));
            },
            CursorLocation::BlockTop(b) => {
                self.func.layout.prepend_insn(b, i, Ghost(self.func.dfg.num_blocks()), Ghost(
                    self.func.dfg.num_insns(),
                ));
            },
            CursorLocation::BlockBottom(b) => {
                self.func.layout.append_insn(b, i, Ghost(self.func.dfg.num_blocks()), Ghost(
                    self.func.dfg.num_insns(),
                ));
            },
            CursorLocation::NoWhere => {
                proof {
                    assert(false);
                }
            },
        }
        let vd_opt = self.func.dfg.make_result(&mut self.ctx, i);
        let r = match vd_opt {
            Some(vd) => {
                let v = self.func.dfg.make_value(vd);
                self.func.dfg.attach_result(i, v);
                Some(v)
            },
            None => None,
        };
        self.loc = CursorLocation::At(i);
        proof {
            assert forall|w: Value|
                old(self).valid_value(w) implies (self.func.dfg.is_user(w, i)
                <==> #[trigger] data.args_spec().contains(w)) by {
                assert(insn_list_ok(f0.dfg.user_list(w), f0.dfg.num_insns())) by {
                    assert(f0.dfg.wf());
                }
                assert(!f0.dfg.is_user(w, i)) by {
                    if f0.dfg.user_list(w).contains(i) {
                        let k = choose|k: int|
                            0 <= k < f0.dfg.user_list(w).len() && f0.dfg.user_list(w)[k] == i;
                        assert(f0.dfg.user_list(w)[k].0 < f0.dfg.num_insns());
                    }
                }
            }
            assert(self.func.wf()) by {
                lemma_args_preserved(f0, self.func);
            }
            assert(evolves_to(f0, self.func)) by {
                assert forall|j: Insn|
                    f0.dfg.valid_insn(j) implies (#[trigger] phi_ty_of(self.func.dfg.data_of(j))
                    == phi_ty_of(f0.dfg.data_of(j)) && self.func.dfg.result_of(j)
                    == f0.dfg.result_of(j)) by {
                    assert(self.func.dfg.data_of(j) == f0.dfg.data_of(j));
                }
            }
            lemma_wf_transfer(self.ssa, f0, self.func);
        }
        r
    }

    /// Shared body of the two unary constructors.
    fn unary_op(&mut self, code: UnaryOp, lhs: Value) -> (r: Value)
        requires
            old(self).wf(),
            old(self).can_insert(),
            old(self).valid_value(lhs),
        ensures
            final(self).wf(),
            final(self).can_insert(),
            final(self).valid_value(r),
            final(self).value_ty_of(r) == old(self).value_ty_of(lhs),
            old(self).appended(*final(self), InsnData::Unary { code, arg: lhs }),
            final(self).is_result_of(r, old(self).next_insn()),
            final(self).ssa == old(self).ssa,
    {
        let data = InsnData::Unary { code, arg: lhs };
        proof {
            assert(self.func.dfg.insn_refs_valid(data));
        }
        let r = self.insert_insn(data);
        r.unwrap()
    }

    /// Shared body of the binary constructors: arithmetic and bitwise
    /// results take the common operand type, comparisons are one-bit.
    fn binary_op(&mut self, code: BinaryOp, lhs: Value, rhs: Value) -> (r: Value)
        requires
            old(self).wf(),
            old(self).can_insert(),
            old(self).valid_value(lhs),
            old(self).valid_value(rhs),
            old(self).value_ty_of(lhs) == old(self).value_ty_of(rhs),
        ensures
            final(self).wf(),
            final(self).can_insert(),
            final(self).valid_value(r),
            final(self).value_ty_of(r) == (if code.is_cmp_spec() {
                Type::I1
            } else {
                old(self).value_ty_of(lhs)
            }),
            old(self).appended(*final(self), InsnData::Binary { code, lhs, rhs }),
            final(self).is_result_of(r, old(self).next_insn()),
            final(self).ssa == old(self).ssa,
    {
        let data = InsnData::Binary { code, lhs, rhs };
        proof {
            assert(self.func.dfg.insn_refs_valid(data));
        }
        let r = self.insert_insn(data);
        r.unwrap()
    }

    /// Shared body of the cast constructors; the result takes the target
    /// type.
    fn cast_op(&mut self, code: CastOp, lhs: Value, ty: Type) -> (r: Value)
        requires
            old(self).wf(),
            old(self).can_insert(),
            old(self).valid_value(lhs),
        ensures
            final(self).wf(),
            final(self).can_insert(),
            final(self).valid_value(r),
            final(self).value_ty_of(r) == ty,
            old(self).appended(*final(self), InsnData::Cast { code, arg: lhs, ty }),
            final(self).is_result_of(r, old(self).next_insn()),
            final(self).ssa == old(self).ssa,
    {
        let data = InsnData::Cast { code, arg: lhs, ty };
        proof {
            assert(self.func.dfg.insn_refs_valid(data));
        }
        let r = self.insert_insn(data);
        r.unwrap()
    }

    pub fn not(&mut self, lhs: Value) -> (r: Value)
        requires
            old(self).wf(),
            old(self).can_insert(),
            old(self).valid_value(lhs),
        ensures
            final(self).wf(),
            final(self).can_insert(),
            final(self).valid_value(r),
            final(self).value_ty_of(r) == old(self).value_ty_of(lhs),
            old(self).appended(*final(self), InsnData::Unary { code: UnaryOp::Not, arg: lhs }),
            final(self).is_result_of(r, old(self).next_insn()),
            final(self).ssa == old(self).ssa,
    {
        self.unary_op(UnaryOp::Not, lhs)
    }

    pub fn neg(&mut self, lhs: Value) -> (r: Value)
        requires
            old(self).wf(),
            old(self).can_insert(),
            old(self).valid_value(lhs),
        ensures
            final(self).wf(),
            final(self).can_insert(),
            final(self).valid_value(r),
            final(self).value_ty_of(r) == old(self).value_ty_of(lhs),
            old(self).appended(*final(self), InsnData::Unary { code: UnaryOp::Neg, arg: lhs }),
            final(self).is_result_of(r, old(self).next_insn()),
            final(self).ssa == old(self).ssa,
    {
        self.unary_op(UnaryOp::Neg, lhs)
    }

    pub fn add(&mut self, lhs: Value, rhs: Value) -> (r: Value)
        requires
            old(self).wf(),
            old(self).can_insert(),
            old(self).valid_value(lhs),
            old(self).valid_value(rhs),
            old(self).value_ty_of(lhs) == old(self).value_ty_of(rhs),
        ensures
            final(self).wf(),
            final(self).can_insert(),
            final(self).valid_value(r),
            final(self).value_ty_of(r) == old(self).value_ty_of(lhs),
            old(self).appended(*final(self), InsnData::Binary { code: BinaryOp::Add, lhs, rhs }),
            final(self).is_result_of(r, old(self).next_insn()),
            final(self).ssa == old(self).ssa,
    {
        self.binary_op(BinaryOp::Add, lhs, rhs)
    }

    pub fn sub(&mut self, lhs: Value, rhs: Value) -> (r: Value)
        requires
            old(self).wf(),
            old(self).can_insert(),
            old(self).valid_value(lhs),
            old(self).valid_value(rhs),
            old(self).value_ty_of(lhs) == old(self).value_ty_of(rhs),
        ensures
            final(self).wf(),
            final(self).can_insert(),
            final(self).valid_value(r),
            final(self).value_ty_of(r) == old(self).value_ty_of(lhs),
            old(self).appended(*final(self), InsnData::Binary { code: BinaryOp::Sub, lhs, rhs }),
            final(self).is_result_of(r, old(self).next_insn()),
            final(self).ssa == old(self).ssa,
    {
        self.binary_op(BinaryOp::Sub, lhs, rhs)
    }

    pub fn mul(&mut self, lhs: Value, rhs: Value) -> (r: Value)
        requires
            old(self).wf(),
            old(self).can_insert(),
            old(self).valid_value(lhs),
            old(self).valid_value(rhs),
            old(self).value_ty_of(lhs) == old(self).value_ty_of(rhs),
        ensures
            final(self).wf(),
            final(self).can_insert(),
            final(self).valid_value(r),
            final(self).value_ty_of(r) == old(self).value_ty_of(lhs),
            old(self).appended(*final(self), InsnData::Binary { code: BinaryOp::Mul, lhs, rhs }),
            final(self).is_result_of(r, old(self).next_insn()),
            final(self).ssa == old(self).ssa,
    {
        self.binary_op(BinaryOp::Mul, lhs, rhs)
    }

    pub fn udiv(&mut self, lhs: Value, rhs: Value) -> (r: Value)
        requires
            old(self).wf(),
            old(self).can_insert(),
            old(self).valid_value(lhs),
            old(self).valid_value(rhs),
            old(self).value_ty_of(lhs) == old(self).value_ty_of(rhs),
        ensures
            final(self).wf(),
            final(self).can_insert(),
            final(self).valid_value(r),
            final(self).value_ty_of(r) == old(self).value_ty_of(lhs),
            old(self).appended(*final(self), InsnData::Binary { code: BinaryOp::Udiv, lhs, rhs }),
            final(self).is_result_of(r, old(self).next_insn()),
            final(self).ssa == old(self).ssa,
    {
        self.binary_op(BinaryOp::Udiv, lhs, rhs)
    }

    pub fn sdiv(&mut self, lhs: Value, rhs: Value) -> (r: Value)
        requires
            old(self).wf(),
            old(self).can_insert(),
            old(self).valid_value(lhs),
            old(self).valid_value(rhs),
            old(self).value_ty_of(lhs) == old(self).value_ty_of(rhs),
        ensures
            final(self).wf(),
            final(self).can_insert(),
            final(self).valid_value(r),
            final(self).value_ty_of(r) == old(self).value_ty_of(lhs),
            old(self).appended(*final(self), InsnData::Binary { code: BinaryOp::Sdiv, lhs, rhs }),
            final(self).is_result_of(r, old(self).next_insn()),
            final(self).ssa == old(self).ssa,
    {
        self.binary_op(BinaryOp::Sdiv, lhs, rhs)
    }

    pub fn lt(&mut self, lhs: Value, rhs: Value) -> (r: Value)
        requires
            old(self).wf(),
            old(self).can_insert(),
            old(self).valid_value(lhs),
            old(self).valid_value(rhs),
            old(self).value_ty_of(lhs) == old(self).value_ty_of(rhs),
        ensures
            final(self).wf(),
            final(self).can_insert(),
            final(self).valid_value(r),
            final(self).value_ty_of(r) == Type::I1,
            old(self).appended(*final(self), InsnData::Binary { code: BinaryOp::Lt, lhs, rhs }),
            final(self).is_result_of(r, old(self).next_insn()),
            final(self).ssa == old(self).ssa,
    {
        self.binary_op(BinaryOp::Lt, lhs, rhs)
    }

    pub fn gt(&mut self, lhs: Value, rhs: Value) -> (r: Value)
        requires
            old(self).wf(),
            old(self).can_insert(),
            old(self).valid_value(lhs),
            old(self).valid_value(rhs),
            old(self).value_ty_of(lhs) == old(self).value_ty_of(rhs),
        ensures
            final(self).wf(),
            final(self).can_insert(),
            final(self).valid_value(r),
            final(self).value_ty_of(r) == Type::I1,
            old(self).appended(*final(self), InsnData::Binary { code: BinaryOp::Gt, lhs, rhs }),
            final(self).is_result_of(r, old(self).next_insn()),
            final(self).ssa == old(self).ssa,
    {
        self.binary_op(BinaryOp::Gt, lhs, rhs)
    }

    pub fn slt(&mut self, lhs: Value, rhs: Value) -> (r: Value)
        requires
            old(self).wf(),
            old(self).can_insert(),
            old(self).valid_value(lhs),
            old(self).valid_value(rhs),
            old(self).value_ty_of(lhs) == old(self).value_ty_of(rhs),
        ensures
            final(self).wf(),
            final(self).can_insert(),
            final(self).valid_value(r),
            final(self).value_ty_of(r) == Type::I1,
            old(self).appended(*final(self), InsnData::Binary { code: BinaryOp::Slt, lhs, rhs }),
            final(self).is_result_of(r, old(self).next_insn()),
            final(self).ssa == old(self).ssa,
    {
        self.binary_op(BinaryOp::Slt, lhs, rhs)
    }

    pub fn sgt(&mut self, lhs: Value, rhs: Value) -> (r: Value)
        requires
            old(self).wf(),
            old(self).can_insert(),
            old(self).valid_value(lhs),
            old(self).valid_value(rhs),
            old(self).value_ty_of(lhs) == old(self).value_ty_of(rhs),
        ensures
            final(self).wf(),
            final(self).can_insert(),
            final(self).valid_value(r),
            final(self).value_ty_of(r) == Type::I1,
            old(self).appended(*final(self), InsnData::Binary { code: BinaryOp::Sgt, lhs, rhs }),
            final(self).is_result_of(r, old(self).next_insn()),
            final(self).ssa == old(self).ssa,
    {
        self.binary_op(BinaryOp::Sgt, lhs, rhs)
    }

    pub fn le(&mut self, lhs: Value, rhs: Value) -> (r: Value)
        requires
            old(self).wf(),
            old(self).can_insert(),
            old(self).valid_value(lhs),
            old(self).valid_value(rhs),
            old(self).value_ty_of(lhs) == old(self).value_ty_of(rhs),
        ensures
            final(self).wf(),
            final(self).can_insert(),
            final(self).valid_value(r),
            final(self).value_ty_of(r) == Type::I1,
            old(self).appended(*final(self), InsnData::Binary { code: BinaryOp::Le, lhs, rhs }),
            final(self).is_result_of(r, old(self).next_insn()),
            final(self).ssa == old(self).ssa,
    {
        self.binary_op(BinaryOp::Le, lhs, rhs)
    }

    pub fn ge(&mut self, lhs: Value, rhs: Value) -> (r: Value)
        requires
            old(self).wf(),
            old(self).can_insert(),
            old(self).valid_value(lhs),
            old(self).valid_value(rhs),
            old(self).value_ty_of(lhs) == old(self).value_ty_of(rhs),
        ensures
            final(self).wf(),
            final(self).can_insert(),
            final(self).valid_value(r),
            final(self).value_ty_of(r) == Type::I1,
            old(self).appended(*final(self), InsnData::Binary { code: BinaryOp::Ge, lhs, rhs }),
            final(self).is_result_of(r, old(self).next_insn()),
            final(self).ssa == old(self).ssa,
    {
        self.binary_op(BinaryOp::Ge, lhs, rhs)
    }

    pub fn sle(&mut self, lhs: Value, rhs: Value) -> (r: Value)
        requires
            old(self).wf(),
            old(self).can_insert(),
            old(self).valid_value(lhs),
            old(self).valid_value(rhs),
            old(self).value_ty_of(lhs) == old(self).value_ty_of(rhs),
        ensures
            final(self).wf(),
            final(self).can_insert(),
            final(self).valid_value(r),
            final(self).value_ty_of(r) == Type::I1,
            old(self).appended(*final(self), InsnData::Binary { code: BinaryOp::Sle, lhs, rhs }),
            final(self).is_result_of(r, old(self).next_insn()),
            final(self).ssa == old(self).ssa,
    {
        self.binary_op(BinaryOp::Sle, lhs, rhs)
    }

    pub fn sge(&mut self, lhs: Value, rhs: Value) -> (r: Value)
        requires
            old(self).wf(),
            old(self).can_insert(),
            old(self).valid_value(lhs),
            old(self).valid_value(rhs),
            old(self).value_ty_of(lhs) == old(self).value_ty_of(rhs),
        ensures
            final(self).wf(),
            final(self).can_insert(),
            final(self).valid_value(r),
            final(self).value_ty_of(r) == Type::I1,
            old(self).appended(*final(self), InsnData::Binary { code: BinaryOp::Sge, lhs, rhs }),
            final(self).is_result_of(r, old(self).next_insn()),
            final(self).ssa == old(self).ssa,
    {
        self.binary_op(BinaryOp::Sge, lhs, rhs)
    }

    pub fn eq(&mut self, lhs: Value, rhs: Value) -> (r: Value)
        requires
            old(self).wf(),
            old(self).can_insert(),
            old(self).valid_value(lhs),
            old(self).valid_value(rhs),
            old(self).value_ty_of(lhs) == old(self).value_ty_of(rhs),
        ensures
            final(self).wf(),
            final(self).can_insert(),
            final(self).valid_value(r),
            final(self).value_ty_of(r) == Type::I1,
            old(self).appended(*final(self), InsnData::Binary { code: BinaryOp::Eq, lhs, rhs }),
            final(self).is_result_of(r, old(self).next_insn()),
            final(self).ssa == old(self).ssa,
    {
        self.binary_op(BinaryOp::Eq, lhs, rhs)
    }

    pub fn ne(&mut self, lhs: Value, rhs: Value) -> (r: Value)
        requires
            old(self).wf(),
            old(self).can_insert(),
            old(self).valid_value(lhs),
            old(self).valid_value(rhs),
            old(self).value_ty_of(lhs) == old(self).value_ty_of(rhs),
        ensures
            final(self).wf(),
            final(self).can_insert(),
            final(self).valid_value(r),
            final(self).value_ty_of(r) == Type::I1,
            old(self).appended(*final(self), InsnData::Binary { code: BinaryOp::Ne, lhs, rhs }),
            final(self).is_result_of(r, old(self).next_insn()),
            final(self).ssa == old(self).ssa,
    {
        self.binary_op(BinaryOp::Ne, lhs, rhs)
    }

    pub fn and(&mut self, lhs: Value, rhs: Value) -> (r: Value)
        requires
            old(self).wf(),
            old(self).can_insert(),
            old(self).valid_value(lhs),
            old(self).valid_value(rhs),
            old(self).value_ty_of(lhs) == old(self).value_ty_of(rhs),
        ensures
            final(self).wf(),
            final(self).can_insert(),
            final(self).valid_value(r),
            final(self).value_ty_of(r) == old(self).value_ty_of(lhs),
            old(self).appended(*final(self), InsnData::Binary { code: BinaryOp::And, lhs, rhs }),
            final(self).is_result_of(r, old(self).next_insn()),
            final(self).ssa == old(self).ssa,
    {
        self.binary_op(BinaryOp::And, lhs, rhs)
    }

    pub fn or(&mut self, lhs: Value, rhs: Value) -> (r: Value)
        requires
            old(self).wf(),
            old(self).can_insert(),
            old(self).valid_value(lhs),
            old(self).valid_value(rhs),
            old(self).value_ty_of(lhs) == old(self).value_ty_of(rhs),
        ensures
            final(self).wf(),
            final(self).can_insert(),
            final(self).valid_value(r),
            final(self).value_ty_of(r) == old(self).value_ty_of(lhs),
            old(self).appended(*final(self), InsnData::Binary { code: BinaryOp::Or, lhs, rhs }),
            final(self).is_result_of(r, old(self).next_insn()),
            final(self).ssa == old(self).ssa,
    {
        self.binary_op(BinaryOp::Or, lhs, rhs)
    }

    pub fn sext(&mut self, lhs: Value, ty: Type) -> (r: Value)
        requires
            old(self).wf(),
            old(self).can_insert(),
            old(self).valid_value(lhs),
            crate::types::int_bit_width(old(self).value_ty_of(lhs)) > 0,
            crate::types::int_bit_width(ty) > crate::types::int_bit_width(
                old(self).value_ty_of(lhs),
            ),
        ensures
            final(self).wf(),
            final(self).can_insert(),
            final(self).valid_value(r),
            final(self).value_ty_of(r) == ty,
            old(self).appended(*final(self), InsnData::Cast { code: CastOp::Sext, arg: lhs, ty }),
            final(self).is_result_of(r, old(self).next_insn()),
            final(self).ssa == old(self).ssa,
    {
        self.cast_op(CastOp::Sext, lhs, ty)
    }

    pub fn zext(&mut self, lhs: Value, ty: Type) -> (r: Value)
        requires
            old(self).wf(),
            old(self).can_insert(),
            old(self).valid_value(lhs),
            crate::types::int_bit_width(old(self).value_ty_of(lhs)) > 0,
            crate::types::int_bit_width(ty) > crate::types::int_bit_width(
                old(self).value_ty_of(lhs),
            ),
        ensures
            final(self).wf(),
            final(self).can_insert(),
            final(self).valid_value(r),
            final(self).value_ty_of(r) == ty,
            old(self).appended(*final(self), InsnData::Cast { code: CastOp::Zext, arg: lhs, ty }),
            final(self).is_result_of(r, old(self).next_insn()),
            final(self).ssa == old(self).ssa,
    {
        self.cast_op(CastOp::Zext, lhs, ty)
    }

    pub fn trunc(&mut self, lhs: Value, ty: Type) -> (r: Value)
        requires
            old(self).wf(),
            old(self).can_insert(),
            old(self).valid_value(lhs),
            crate::types::int_bit_width(ty) > 0,
            crate::types::int_bit_width(ty) < crate::types::int_bit_width(
                old(self).value_ty_of(lhs),
            ),
        ensures
            final(self).wf(),
            final(self).can_insert(),
            final(self).valid_value(r),
            final(self).value_ty_of(r) == ty,
            old(self).appended(*final(self), InsnData::Cast { code: CastOp::Trunc, arg: lhs, ty }),
            final(self).is_result_of(r, old(self).next_insn()),
            final(self).ssa == old(self).ssa,
    {
        self.cast_op(CastOp::Trunc, lhs, ty)
    }

    /// Builds a transient-memory load; the result takes the annotated
    /// type.
    pub fn memory_load(&mut self, addr: Value, ty: Type) -> (r: Value)
        requires
            old(self).wf(),
            old(self).can_insert(),
            old(self).valid_value(addr),
        ensures
            final(self).wf(),
            final(self).can_insert(),
            final(self).valid_value(r),
            final(self).value_ty_of(r) == ty,
            old(self).appended(
                *final(self),
                InsnData::Load { addr, ty, loc: DataLocationKind::Memory },
            ),
            final(self).is_result_of(r, old(self).next_insn()),
            final(self).ssa == old(self).ssa,
    {
        let data = InsnData::Load { addr, ty, loc: DataLocationKind::Memory };
        proof {
            assert(self.func.dfg.insn_refs_valid(data));
        }
        let r = self.insert_insn(data);
        r.unwrap()
    }

    /// Builds a transient-memory store.
    pub fn memory_store(&mut self, addr: Value, data: Value)
        requires
            old(self).wf(),
            old(self).can_insert(),
            old(self).valid_value(addr),
            old(self).valid_value(data),
        ensures
            final(self).wf(),
            final(self).can_insert(),
            old(self).appended(
                *final(self),
                InsnData::Store { addr, data, loc: DataLocationKind::Memory },
            ),
            final(self).the_func().dfg.values@ == old(self).the_func().dfg.values@,
            final(self).ssa == old(self).ssa,
    {
        let d = InsnData::Store { addr, data, loc: DataLocationKind::Memory };
        proof {
            assert(self.func.dfg.insn_refs_valid(d));
        }
        self.insert_insn(d);
    }

    /// Builds a persistent-storage load; the result takes the annotated
    /// type.
    pub fn storage_load(&mut self, addr: Value, ty: Type) -> (r: Value)
        requires
            old(self).wf(),
            old(self).can_insert(),
            old(self).valid_value(addr),
        ensures
            final(self).wf(),
            final(self).can_insert(),
            final(self).valid_value(r),
            final(self).value_ty_of(r) == ty,
            old(self).appended(
                *final(self),
                InsnData::Load { addr, ty, loc: DataLocationKind::Storage },
            ),
            final(self).is_result_of(r, old(self).next_insn()),
            final(self).ssa == old(self).ssa,
    {
        let data = InsnData::Load { addr, ty, loc: DataLocationKind::Storage };
        proof {
            assert(self.func.dfg.insn_refs_valid(data));
        }
        let r = self.insert_insn(data);
        r.unwrap()
    }

    /// Builds a persistent-storage store.
    pub fn storage_store(&mut self, addr: Value, data: Value)
        requires
            old(self).wf(),
            old(self).can_insert(),
            old(self).valid_value(addr),
            old(self).valid_value(data),
        ensures
            final(self).wf(),
            final(self).can_insert(),
            old(self).appended(
                *final(self),
                InsnData::Store { addr, data, loc: DataLocationKind::Storage },
            ),
            final(self).the_func().dfg.values@ == old(self).the_func().dfg.values@,
            final(self).ssa == old(self).ssa,
    {
        let d = InsnData::Store { addr, data, loc: DataLocationKind::Storage };
        proof {
            assert(self.func.dfg.insn_refs_valid(d));
        }
        self.insert_insn(d);
    }

    /// Allocates one stack slot of type `ty`; the result is a pointer to
    /// it.
    pub fn alloca(&mut self, ty: Type) -> (r: Value)
        requires
            old(self).wf(),
            old(self).can_insert(),
            old(self).ctx.type_store.is_valid(ty),
        ensures
            final(self).wf(),
            final(self).can_insert(),
            final(self).valid_value(r),
            final(self).value_ty_of(r) matches Type::Compound(c)
                && final(self).ctx.type_store.data_spec(c) == crate::types::CompoundTypeData::Ptr(
                ty,
            ),
            old(self).appended(*final(self), InsnData::Alloca { ty }),
            final(self).is_result_of(r, old(self).next_insn()),
            final(self).ssa == old(self).ssa,
    {
        let data = InsnData::Alloca { ty };
        proof {
            assert(self.func.dfg.insn_refs_valid(data));
        }
        let r = self.insert_insn(data);
        r.unwrap()
    }

    /// Emits an unconditional jump and records the current block as one
    /// more predecessor of `dest`.
    pub fn jump(&mut self, dest: Block)
        requires
            old(self).wf(),
            old(self).can_insert(),
            old(self).valid_block(dest),
            !old(self).ssa.is_sealed_spec(dest),
        ensures
            final(self).wf(),
            final(self).can_insert(),
            old(self).appended(*final(self), InsnData::Jump { dest }),
            final(self).the_func().dfg.values@ == old(self).the_func().dfg.values@,
            old(self).cur_block_spec() matches Some(b) && final(self).ssa.preds_of(dest) == old(self).ssa.preds_of(dest).push(b),
            forall|b2: Block|
                b2 != dest ==> final(self).ssa.preds_of(b2) == old(self).ssa.preds_of(b2),
            final(self).ssa.var_types@ == old(self).ssa.var_types@,
            final(self).ssa.sealed@ == old(self).ssa.sealed@,
            final(self).ssa.incomplete@ == old(self).ssa.incomplete@,
            forall|v2: Variable, b2: Block|
                final(self).ssa.def_of(v2, b2) == old(self).ssa.def_of(v2, b2),
    {
        let pred = self.current_block();
        self.ssa.append_pred(dest, pred, Ghost(self.func));
        let data = InsnData::Jump { dest };
        proof {
            assert(self.func.dfg.insn_refs_valid(data));
        }
        self.insert_insn(data);
    }

    /// Emits a two-way branch and records the current block as a
    /// predecessor of both destinations (twice the same destination gives
    /// two entries).
    pub fn br(&mut self, cond: Value, then: Block, else_: Block)
        requires
            old(self).wf(),
            old(self).can_insert(),
            old(self).valid_value(cond),
            old(self).valid_block(then),
            old(self).valid_block(else_),
            !old(self).ssa.is_sealed_spec(then),
            !old(self).ssa.is_sealed_spec(else_),
        ensures
            final(self).wf(),
            final(self).can_insert(),
            old(self).appended(
                *final(self),
                InsnData::Branch { cond, then_dest: then, else_dest: else_ },
            ),
            final(self).the_func().dfg.values@ == old(self).the_func().dfg.values@,
            old(self).cur_block_spec() matches Some(b) && (if then == else_ {
                final(self).ssa.preds_of(then) == old(self).ssa.preds_of(then).push(b).push(b)
            } else {
                final(self).ssa.preds_of(then) == old(self).ssa.preds_of(then).push(b)
                    && final(self).ssa.preds_of(else_) == old(self).ssa.preds_of(else_).push(b)
            }),
            forall|b2: Block|
                b2 != then && b2 != else_ ==> final(self).ssa.preds_of(b2) == old(self).ssa.preds_of(b2),
            final(self).ssa.var_types@ == old(self).ssa.var_types@,
            final(self).ssa.sealed@ == old(self).ssa.sealed@,
            final(self).ssa.incomplete@ == old(self).ssa.incomplete@,
            forall|v2: Variable, b2: Block|
                final(self).ssa.def_of(v2, b2) == old(self).ssa.def_of(v2, b2),
    {
        let pred = self.current_block();
        self.ssa.append_pred(then, pred, Ghost(self.func));
        self.ssa.append_pred(else_, pred, Ghost(self.func));
        let data = InsnData::Branch { cond, then_dest: then, else_dest: else_ };
        proof {
            assert(self.func.dfg.insn_refs_valid(data));
        }
        self.insert_insn(data);
    }

    /// Emits a return.
    pub fn ret(&mut self, args: Option<Value>)
        requires
            old(self).wf(),
            old(self).can_insert(),
            match args {
                Some(v) => old(self).valid_value(v),
                None => true,
            },
        ensures
            final(self).wf(),
            final(self).can_insert(),
            old(self).appended(*final(self), InsnData::Return { arg: args }),
            final(self).the_func().dfg.values@ == old(self).the_func().dfg.values@,
            final(self).ssa == old(self).ssa,
    {
        let data = InsnData::Return { arg: args };
        proof {
            assert(self.func.dfg.insn_refs_valid(data));
        }
        self.insert_insn(data);
    }

    /// The block the cursor sits in.
    fn current_block(&self) -> (r: Block)
        requires
            self.wf(),
            self.can_insert(),
        ensures
            Some(r) == self.cur_block_spec(),
            self.func.dfg.valid_block(r),
            self.func.layout.is_appended(r),
    {
        match self.loc {
            CursorLocation::At(i) => {
                let b = self.func.layout.insn_block_of(i).unwrap();
                proof {
                    assert(self.func.layout.insn_block@[i.0 as int] == Some(b));
                    assert(self.func.layout.wf(
                        self.func.dfg.num_blocks(),
                        self.func.dfg.num_insns(),
                    ));
                }
                b
            },
            CursorLocation::BlockTop(b) => b,
            CursorLocation::BlockBottom(b) => b,
            CursorLocation::NoWhere => unreached(),
        }
    }

    /// Emits a multi-way branch: `cond` is compared against each case
    /// value in order, with an optional default destination. The current
    /// block is recorded as a predecessor of every destination: once for
    /// the default first, then once per table entry in order.
    #[verifier::loop_isolation(false)]
    pub fn br_table(&mut self, cond: Value, default: Option<Block>, table: &[(Value, Block)])
        requires
            old(self).wf(),
            old(self).can_insert(),
            old(self).valid_value(cond),
            match default {
                Some(d) => old(self).valid_block(d) && !old(self).ssa.is_sealed_spec(d),
                None => true,
            },
            table@.len() < usize::MAX as int,
            forall|k: int|
                0 <= k < table@.len() ==> ({
                    &&& old(self).valid_value((#[trigger] table@[k]).0)
                    &&& old(self).valid_block(table@[k].1)
                    &&& !old(self).ssa.is_sealed_spec(table@[k].1)
                }),
        ensures
            final(self).wf(),
            final(self).can_insert(),
            final(self).the_func().dfg.insns@.len() == old(self).the_func().dfg.insns@.len() + 1,
            forall|j: int|
                0 <= j < old(self).the_func().dfg.insns@.len() ==> final(self).the_func().dfg.insns@[j] == old(self).the_func().dfg.insns@[j],
            final(self).the_func().dfg.insns@.last() matches InsnData::BrTable {
                cond: c2,
                table_values: tv,
                table_blocks: tb,
                default: d2,
            } && c2 == cond && d2 == default && tv@ == Seq::new(
                table@.len(),
                |j: int| table@[j].0,
            ) && tb@ == Seq::new(table@.len(), |j: int| table@[j].1),
            forall|w: Value|
                old(self).valid_value(w) ==> (final(self).the_func().dfg.is_user(
                    w,
                    old(self).next_insn(),
                ) <==> #[trigger] final(self).the_func().dfg.insns@.last().args_spec().contains(
                    w,
                )),
            final(self).loc == CursorLocation::At(old(self).next_insn()),
            final(self).the_func().layout.block_of(old(self).next_insn()) == old(self).cur_block_spec(),
            final(self).the_func().layout.block_order@ == old(self).the_func().layout.block_order@,
            old(self).loc matches CursorLocation::BlockBottom(b) ==> final(self).the_func().layout.insns_in(b) == old(self).the_func().layout.insns_in(b).push(
                old(self).next_insn(),
            ),
            forall|v: Value|
                old(self).valid_value(v) ==> final(self).valid_value(v) && #[trigger] final(self).value_ty_of(v) == old(self).value_ty_of(v),
            final(self).the_func().dfg.values@ == old(self).the_func().dfg.values@,
            old(self).cur_block_spec() matches Some(bb) && (forall|b2: Block|
                final(self).ssa.preds_of(b2) == old(self).ssa.preds_of(b2) + Seq::new(
                    times_dest(default, table@, b2) as nat,
                    |j: int| bb,
                )),
            final(self).ssa.var_types@ == old(self).ssa.var_types@,
            final(self).ssa.sealed@ == old(self).ssa.sealed@,
            final(self).ssa.incomplete@ == old(self).ssa.incomplete@,
            forall|v2: Variable, b2: Block|
                final(self).ssa.def_of(v2, b2) == old(self).ssa.def_of(v2, b2),
    {
        let pred = self.current_block();
        let ghost f0 = self.func;
        match default {
            Some(d) => {
                self.ssa.append_pred(d, pred, Ghost(self.func));
                proof {
                    assert forall|b2: Block|
                        self.ssa.preds_of(b2) == old(self).ssa.preds_of(b2) + Seq::new(
                        times_dest(default, table@.take(0), b2) as nat,
                        |j: int| pred,
                    ) by {
                        if b2 == d {
                            assert(self.ssa.preds_of(b2) =~= old(self).ssa.preds_of(b2)
                                + Seq::new(1nat, |j: int| pred));
                        } else {
                            assert(self.ssa.preds_of(b2) =~= old(self).ssa.preds_of(b2)
                                + Seq::new(0nat, |j: int| pred));
                        }
                    }
                }
            },
            None => {
                proof {
                    assert forall|b2: Block|
                        self.ssa.preds_of(b2) == old(self).ssa.preds_of(b2) + Seq::new(
                        times_dest(default, table@.take(0), b2) as nat,
                        |j: int| pred,
                    ) by {
                        assert(self.ssa.preds_of(b2) =~= old(self).ssa.preds_of(b2) + Seq::new(
                            0nat,
                            |j: int| pred,
                        ));
                    }
                }
            },
        }
        let mut args: Vec<Value> = Vec::new();
        let mut blocks: Vec<Block> = Vec::new();
        let n = table.len();
        let mut k: usize = 0;
        while k < n
            invariant
                self.wf(),
                *self == (FunctionBuilder { ssa: self.ssa, ..*old(self) }),
                self.func == f0,
                self.can_insert(),
                self.ssa.var_types@ == old(self).ssa.var_types@,
                self.ssa.sealed@ == old(self).ssa.sealed@,
                self.ssa.incomplete@ == old(self).ssa.incomplete@,
                forall|v2: Variable, b2: Block|
                    self.ssa.def_of(v2, b2) == old(self).ssa.def_of(v2, b2),
                forall|b2: Block|
                    self.ssa.preds_of(b2) == old(self).ssa.preds_of(b2) + Seq::new(
                        times_dest(default, table@.take(k as int), b2) as nat,
                        |j: int| pred,
                    ),
                n == table@.len(),
                k <= n,
                args@.len() == k,
                blocks@.len() == k,
                forall|j: int| 0 <= j < k ==> args@[j] == (#[trigger] table@[j]).0,
                forall|j: int| 0 <= j < k ==> blocks@[j] == (#[trigger] table@[j]).1,
                self.func.dfg.valid_value(cond),
                self.func.layout.is_appended(pred),
                self.func.dfg.valid_block(pred),
                Some(pred) == old(self).cur_block_spec(),
            decreases n - k,
        {
            let (v, b) = table[k];
            args.push(v);
            blocks.push(b);
            let ghost sp = self.ssa;
            self.ssa.append_pred(b, pred, Ghost(self.func));
            proof {
                assert(table@.take(k as int + 1).drop_last() =~= table@.take(k as int));
                assert(table@.take(k as int + 1).last() == table@[k as int]);
                assert forall|b2: Block| times_dest(default, table@.take(k as int), b2) >= 0 by {
                    lemma_times_dest_nonneg(default, table@.take(k as int), b2);
                }
                assert forall|b2: Block|
                    self.ssa.preds_of(b2) == old(self).ssa.preds_of(b2) + Seq::new(
                    times_dest(default, table@.take(k as int + 1), b2) as nat,
                    |j: int| pred,
                ) by {
                    if b2 == b {
                        assert(self.ssa.preds_of(b2) == sp.preds_of(b2).push(pred));
                        assert(self.ssa.preds_of(b2) =~= old(self).ssa.preds_of(b2) + Seq::new(
                            (times_dest(default, table@.take(k as int), b2) + 1) as nat,
                            |j: int| pred,
                        ));
                    } else {
                        assert(self.ssa.preds_of(b2) == sp.preds_of(b2));
                    }
                }
            }
            k += 1;
        }
        proof {
            assert(table@.take(n as int) == table@);
        }
        let data = InsnData::BrTable { cond, table_values: args, table_blocks: blocks, default };
        proof {
            assert(data.args_spec().len() == 1 + table@.len());
        }
        proof {
            assert(self.func.dfg.insn_refs_valid(data)) by {
                assert forall|j: int|
                    0 <= j < data.args_spec().len() implies self.func.dfg.valid_value(
                    #[trigger] data.args_spec()[j],
                ) by {
                    if j > 0 {
                        assert(data.args_spec()[j] == table@[j - 1].0);
                    }
                }
                assert forall|j: int|
                    0 <= j < data.dests_spec().len() implies self.func.dfg.valid_block(
                    #[trigger] data.dests_spec()[j],
                ) by {
                    let off: int = if default is Some { 1 } else { 0 };
                    if j >= off {
                        assert(data.dests_spec()[j] == table@[j - off].1);
                    }
                }
            }
        }
        self.insert_insn(data);
        proof {
            assert(self.func.dfg.insns@.last() == data);
            assert(args@ =~= Seq::new(table@.len(), |j: int| table@[j].0));
            assert(blocks@ =~= Seq::new(table@.len(), |j: int| table@[j].1));
        }
    }

    /// Builds a phi from explicit `(value, incoming block)` pairs; its type
    /// is the type of the first value.
    #[verifier::loop_isolation(false)]
    pub fn phi(&mut self, args: &[(Value, Block)]) -> (r: Value)
        requires
            old(self).wf(),
            old(self).can_insert(),
            args@.len() > 0,
            args@.len() <= usize::MAX as int,
            forall|k: int|
                0 <= k < args@.len() ==> ({
                    &&& old(self).valid_value((#[trigger] args@[k]).0)
                    &&& old(self).valid_block(args@[k].1)
                }),
        ensures
            final(self).wf(),
            final(self).can_insert(),
            final(self).valid_value(r),
            final(self).value_ty_of(r) == old(self).value_ty_of(args@[0].0),
            final(self).the_func().dfg.insns@.len() == old(self).the_func().dfg.insns@.len() + 1,
            forall|j: int|
                0 <= j < old(self).the_func().dfg.insns@.len() ==> final(self).the_func().dfg.insns@[j] == old(self).the_func().dfg.insns@[j],
            final(self).the_func().dfg.insns@.last() matches InsnData::Phi {
                values: vs,
                blocks: bs,
                ty: t,
            } && vs@ == Seq::new(args@.len(), |j: int| args@[j].0) && bs@ == Seq::new(
                args@.len(),
                |j: int| args@[j].1,
            ) && t == old(self).value_ty_of(args@[0].0),
            forall|w: Value|
                old(self).valid_value(w) ==> (final(self).the_func().dfg.is_user(
                    w,
                    old(self).next_insn(),
                ) <==> #[trigger] final(self).the_func().dfg.insns@.last().args_spec().contains(
                    w,
                )),
            final(self).is_result_of(r, old(self).next_insn()),
            final(self).the_func().dfg.result_of(old(self).next_insn()) == Some(r),
            final(self).loc == CursorLocation::At(old(self).next_insn()),
            final(self).the_func().layout.block_of(old(self).next_insn()) == old(self).cur_block_spec(),
            final(self).the_func().layout.block_order@ == old(self).the_func().layout.block_order@,
            forall|v: Value|
                old(self).valid_value(v) ==> final(self).valid_value(v) && #[trigger] final(self).value_ty_of(v) == old(self).value_ty_of(v),
            final(self).ssa == old(self).ssa,
    {
        let ty = self.func.dfg.value_ty(args[0].0);
        let mut values: Vec<Value> = Vec::new();
        let mut blocks: Vec<Block> = Vec::new();
        let n = args.len();
        let mut k: usize = 0;
        while k < n
            invariant
                self.wf(),
                *self == *old(self),
                self.can_insert(),
                n == args@.len(),
                k <= n,
                values@.len() == k,
                blocks@.len() == k,
                forall|j: int| 0 <= j < k ==> values@[j] == (#[trigger] args@[j]).0,
                forall|j: int| 0 <= j < k ==> blocks@[j] == (#[trigger] args@[j]).1,
            decreases n - k,
        {
            let (v, b) = args[k];
            values.push(v);
            blocks.push(b);
            k += 1;
        }
        let data = InsnData::Phi { values, blocks, ty };
        proof {
            assert(self.func.dfg.insn_refs_valid(data)) by {
                assert forall|j: int|
                    0 <= j < data.args_spec().len() implies self.func.dfg.valid_value(
                    #[trigger] data.args_spec()[j],
                ) by {
                    assert(data.args_spec()[j] == args@[j].0);
                }
                assert(data.dests_spec() == Seq::<Block>::empty());
            }
            assert(values@ =~= Seq::new(args@.len(), |j: int| args@[j].0));
            assert(blocks@ =~= Seq::new(args@.len(), |j: int| args@[j].1));
        }
        let r = self.insert_insn(data);
        proof {
            assert(self.func.dfg.insns@.last() == data);
        }
        r.unwrap()
    }

    /// Adds one `(value, incoming block)` entry to a phi built earlier;
    /// `phi_value` must be the result value of a phi instruction.
    pub fn append_phi_arg(&mut self, phi_value: Value, value: Value, block: Block)
        requires
            old(self).wf(),
            old(self).valid_value(phi_value),
            old(self).valid_value(value),
            old(self).the_func().dfg.valid_block(block),
            old(self).the_func().dfg.value_of(phi_value) matches ValueData::Insn { insn, .. }
                && old(self).the_func().dfg.data_of(insn).is_phi_spec() && old(self).the_func().dfg.data_of(insn).args_spec().len() < usize::MAX as int,
        ensures
            final(self).wf(),
            old(self).the_func().dfg.value_of(phi_value) matches ValueData::Insn {
                insn,
                ..
            } && ({
                &&& old(self).the_func().dfg.data_of(insn) matches InsnData::Phi {
                    values: ov,
                    blocks: ob,
                    ty: oty,
                } && final(self).the_func().dfg.data_of(insn) matches InsnData::Phi {
                    values: nv,
                    blocks: nb,
                    ty: nty,
                } && nv@ == ov@.push(value) && nb@ == ob@.push(block) && nty == oty
                &&& forall|j: int|
                    0 <= j < old(self).the_func().dfg.insns@.len() && j != insn.0 as int ==> final(self).the_func().dfg.insns@[j] == old(self).the_func().dfg.insns@[j]
                &&& final(self).the_func().dfg.is_user(value, insn)
            }),
            final(self).the_func().dfg.insns@.len() == old(self).the_func().dfg.insns@.len(),
            final(self).the_func().dfg.values@ == old(self).the_func().dfg.values@,
            final(self).the_func().layout == old(self).the_func().layout,
            final(self).loc == old(self).loc,
            final(self).ssa == old(self).ssa,
            forall|v: Value|
                old(self).valid_value(v) ==> final(self).valid_value(v) && #[trigger] final(self).value_ty_of(v) == old(self).value_ty_of(v),
    {
        let ghost f0 = self.func;
        let insn = self.func.dfg.value_insn(phi_value).unwrap();
        proof {
            assert(self.func.dfg.value_entry_ok(phi_value.0 as int));
        }
        self.func.dfg.append_phi_arg(insn, value, block);
        proof {
            assert(self.func.wf()) by {
                lemma_args_preserved(f0, self.func);
            }
            assert(evolves_to(f0, self.func)) by {
                assert forall|j: Insn|
                    f0.dfg.valid_insn(j) implies (#[trigger] phi_ty_of(self.func.dfg.data_of(j))
                    == phi_ty_of(f0.dfg.data_of(j)) && self.func.dfg.result_of(j)
                    == f0.dfg.result_of(j)) by {
                    if j != insn {
                        assert(self.func.dfg.data_of(j) == f0.dfg.data_of(j));
                    }
                }
            }
            lemma_wf_transfer(self.ssa, f0, self.func);
        }
    }

    /// Declares a variable of type `ty` for SSA construction.
    pub fn declare_var(&mut self, ty: Type) -> (r: Variable)
        requires
            old(self).wf(),
        ensures
            final(self).wf(),
            final(self).ssa.valid_var(r),
            final(self).ssa.var_ty_spec(r) == ty,
            r.0 == old(self).ssa.var_types@.len(),
            final(self).ssa.var_types@ == old(self).ssa.var_types@.push(ty),
            final(self).ssa.preds@ == old(self).ssa.preds@,
            final(self).ssa.sealed@ == old(self).ssa.sealed@,
            final(self).ssa.incomplete@ == old(self).ssa.incomplete@,
            forall|v2: Variable, b2: Block|
                v2 != r ==> final(self).ssa.def_of(v2, b2) == old(self).ssa.def_of(v2, b2),
            forall|b2: Block| final(self).ssa.def_of(r, b2) is None,
            final(self).func == old(self).func,
            final(self).loc == old(self).loc,
            final(self).can_insert() == old(self).can_insert(),
    {
        let r = self.ssa.declare_var(ty);
        r
    }

    /// Reads the current value of `var` at the cursor's block, inserting
    /// phis as needed; the result always has the variable's declared type.
    pub fn use_var(&mut self, var: Variable) -> (r: Value)
        requires
            old(self).wf(),
            old(self).can_insert(),
            old(self).ssa.valid_var(var),
        ensures
            final(self).wf(),
            final(self).valid_value(r),
            final(self).value_ty_of(r) == old(self).ssa.var_ty_spec(var),
            old(self).cur_block_spec() matches Some(b) && (old(self).ssa.def_of(var, b)
                matches Some(v) ==> r == v && *final(self) == *old(self)),
            old(self).cur_block_spec() matches Some(b) && ((!old(self).ssa.is_sealed_spec(b)
                && old(self).ssa.def_of(var, b) is None) ==> ({
                &&& final(self).the_func().dfg.num_insns() == old(
                    self,
                ).the_func().dfg.num_insns() + 1
                &&& final(self).ssa.incomplete_in(b) == old(self).ssa.incomplete_in(b).push(
                    (var, old(self).next_insn()),
                )
                &&& final(self).the_func().dfg.result_of(old(self).next_insn()) == Some(r)
                &&& phi_ty_of(final(self).the_func().dfg.data_of(old(self).next_insn()))
                    == Some(old(self).ssa.var_ty_spec(var))
                &&& final(self).the_func().layout.insns_in(b) == old(
                    self,
                ).the_func().layout.insns_in(b).insert(0, old(self).next_insn())
                &&& final(self).ssa.def_of(var, b) == Some(r)
            })),
            final(self).loc == old(self).loc,
            final(self).ssa.var_types@ == old(self).ssa.var_types@,
            final(self).ssa.sealed@ == old(self).ssa.sealed@,
            final(self).ssa.preds@ == old(self).ssa.preds@,
            evolves_to(old(self).the_func(), final(self).the_func()),
            final(self).the_func().layout.block_order@ == old(self).the_func().layout.block_order@,
    {
        let block = self.current_block();
        let r = self.ssa.use_var(&mut self.func, var, block);
        r
    }

    /// Sets the current value of `var` at the cursor's block. The value's
    /// type must match the variable's declared type.
    pub fn def_var(&mut self, var: Variable, value: Value)
        requires
            old(self).wf(),
            old(self).can_insert(),
            old(self).ssa.valid_var(var),
            old(self).valid_value(value),
            old(self).value_ty_of(value) == old(self).ssa.var_ty_spec(var),
        ensures
            final(self).wf(),
            final(self).func == old(self).func,
            final(self).loc == old(self).loc,
            final(self).can_insert(),
            final(self).cur_block_spec() == old(self).cur_block_spec(),
            final(self).ssa.def_of(var, old(self).cur_block_spec()->Some_0) == Some(value),
            forall|v2: Variable, b2: Block|
                !(v2 == var && Some(b2) == old(self).cur_block_spec()) ==> final(self).ssa.def_of(v2, b2) == old(self).ssa.def_of(v2, b2),
            final(self).ssa.var_types@ == old(self).ssa.var_types@,
            final(self).ssa.preds@ == old(self).ssa.preds@,
            final(self).ssa.sealed@ == old(self).ssa.sealed@,
            final(self).ssa.incomplete@ == old(self).ssa.incomplete@,
    {
        let block = self.current_block();
        self.ssa.def_var(var, value, block, Ghost(self.func));
    }

    /// Seals the cursor's block: all of its predecessors are known, and
    /// its pending phis get their operands.
    pub fn seal_block(&mut self)
        requires
            old(self).wf(),
            old(self).can_insert(),
        ensures
            final(self).wf(),
            old(self).cur_block_spec() matches Some(b) && ({
                &&& final(self).ssa.is_sealed_spec(b)
                &&& final(self).ssa.incomplete_in(b).len() == 0
                &&& forall|b2: Block|
                    b2 != b ==> final(self).ssa.is_sealed_spec(b2) == old(self).ssa.is_sealed_spec(b2)
            }),
            final(self).ssa.var_types@ == old(self).ssa.var_types@,
            final(self).ssa.preds@ == old(self).ssa.preds@,
            evolves_to(old(self).the_func(), final(self).the_func()),
            final(self).the_func().layout.block_order@ == old(self).the_func().layout.block_order@,
            final(self).loc == old(self).loc,
    {
        let block = self.current_block();
        self.ssa.seal_block(&mut self.func, block);
    }

    /// Seals every block of the function.
    pub fn seal_all(&mut self)
        requires
            old(self).wf(),
        ensures
            final(self).wf(),
            forall|k: int|
                0 <= k < final(self).the_func().layout.block_order@.len()
                    ==> final(self).ssa.is_sealed_spec(
                    #[trigger] final(self).the_func().layout.block_order@[k],
                ),
            forall|k: int|
                0 <= k < final(self).the_func().layout.block_order@.len()
                    ==> final(self).ssa.incomplete_in(
                    #[trigger] final(self).the_func().layout.block_order@[k],
                ).len() == 0,
            evolves_to(old(self).the_func(), final(self).the_func()),
            final(self).loc == old(self).loc,
    {
        self.ssa.seal_all(&mut self.func);
    }

    /// Whether `block` has been sealed.
    pub fn is_sealed(&self, block: Block) -> (r: bool)
        ensures
            r == self.ssa.is_sealed_spec(block),
    {
        self.ssa.is_sealed(block)
    }

    /// Hands the finished function out. Every appended block must have
    /// been sealed first (normally by `seal_all`).
    pub fn build(self) -> (r: Function)
        requires
            self.wf(),
            forall|k: int|
                0 <= k < self.the_func().layout.block_order@.len() ==> self.ssa.is_sealed_spec(
                    #[trigger] self.the_func().layout.block_order@[k],
                ),
        ensures
            r == self.the_func(),
            r.wf(),
    {
        self.func
    }

    /// The type of a value.
    pub fn type_of(&self, value: Value) -> (r: Type)
        requires
            self.wf(),
            self.valid_value(value),
        ensures
            r == self.value_ty_of(value),
    {
        self.func.dfg.value_ty(value)
    }

    /// The function's argument values, in signature order.
    pub fn args(&self) -> (r: &Vec<Value>)
        ensures
            r@ == self.the_func().arg_values@,
    {
        &self.func.arg_values
    }

    /// The target's pointer-sized integer type.
    pub fn pointer_type(&self) -> (r: Type)
        ensures
            r == self.ctx.target.pointer,
    {
        self.ctx.target.pointer
    }

    /// The target's address type.
    pub fn address_type(&self) -> (r: Type)
        ensures
            r == self.ctx.target.address,
    {
        self.ctx.target.address
    }

    /// The target's balance type.
    pub fn balance_type(&self) -> (r: Type)
        ensures
            r == self.ctx.target.balance,
    {
        self.ctx.target.balance
    }

    /// The target's gas type.
    pub fn gas_type(&self) -> (r: Type)
        ensures
            r == self.ctx.target.gas,
    {
        self.ctx.target.gas
    }
}

} // verus!
