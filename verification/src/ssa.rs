use vstd::prelude::*;

verus! {

use crate::dfg::Block;
use crate::function::{lemma_args_preserved, Function};
use crate::insn::{lemma_same_shell_phi_ty, phi_ty_of, Insn, InsnData};
use crate::types::Type;
use crate::value::{Value, ValueData};

/// A frontend-level variable, declared before SSA construction assigns its
/// reads to concrete values.
#[derive(Debug, Clone, Copy, PartialEq, Eq, Structural)]
pub struct Variable(pub usize);

/// Incremental SSA construction state for one function: the current
/// definition of each variable per block, the recorded predecessors, which
/// blocks are sealed, and the phis created in blocks that were not yet
/// sealed.
#[derive(Debug)]
pub struct SsaBuilder {
    pub var_types: Vec<Type>,
    pub defs: Vec<Vec<Option<Value>>>,
    pub preds: Vec<Vec<Block>>,
    pub sealed: Vec<bool>,
    pub incomplete: Vec<Vec<(Variable, Insn)>>,
}

/// One pending phi of an unsealed block: its variable and instruction are
/// in range, the instruction is a phi of the variable's type, and its
/// result value exists with that type.
pub open spec fn entry_ok(e: (Variable, Insn), func: Function, tys: Seq<Type>) -> bool {
    &&& (e.0.0 as int) < tys.len()
    &&& func.dfg.valid_insn(e.1)
    &&& phi_ty_of(func.dfg.data_of(e.1)) == Some(tys[e.0.0 as int])
    &&& (match func.dfg.result_of(e.1) {
        Some(r) => func.dfg.valid_value(r) && func.dfg.value_of(r).ty_spec() == tys[e.0.0 as int],
        None => false,
    })
}

/// One construction step only grows the function: blocks and their order
/// stay, existing values keep their definitions, existing instructions
/// keep their phi type and attached result, and the signature is
/// untouched.
pub open spec fn evolves_to(f1: Function, f2: Function) -> bool {
    &&& f2.dfg.num_values() >= f1.dfg.num_values()
    &&& forall|v: Value|
        f1.dfg.valid_value(v) ==> f2.dfg.valid_value(v) && #[trigger] f2.dfg.value_of(v)
            == f1.dfg.value_of(v)
    &&& f2.dfg.num_blocks() >= f1.dfg.num_blocks()
    &&& forall|b: Block|
        f1.layout.is_appended(b) ==> #[trigger] f2.layout.is_appended(b)
    &&& f2.dfg.num_insns() >= f1.dfg.num_insns()
    &&& forall|i: Insn|
        f1.dfg.valid_insn(i) ==> (#[trigger] phi_ty_of(f2.dfg.data_of(i)) == phi_ty_of(
            f1.dfg.data_of(i),
        ) && f2.dfg.result_of(i) == f1.dfg.result_of(i))
    &&& f2.sig == f1.sig
    &&& f2.arg_values@ == f1.arg_values@
}

/// Growth composes.
pub proof fn lemma_evolves_trans(f1: Function, f2: Function, f3: Function)
    requires
        evolves_to(f1, f2),
        evolves_to(f2, f3),
    ensures
        evolves_to(f1, f3),
{
    assert forall|v: Value|
        f1.dfg.valid_value(v) implies f3.dfg.valid_value(v) && #[trigger] f3.dfg.value_of(v)
        == f1.dfg.value_of(v) by {
        assert(f2.dfg.valid_value(v) && f2.dfg.value_of(v) == f1.dfg.value_of(v));
    }
    assert forall|i: Insn|
        f1.dfg.valid_insn(i) implies (#[trigger] phi_ty_of(f3.dfg.data_of(i)) == phi_ty_of(
        f1.dfg.data_of(i),
    ) && f3.dfg.result_of(i) == f1.dfg.result_of(i)) by {
        assert(f2.dfg.valid_insn(i));
        assert(phi_ty_of(f2.dfg.data_of(i)) == phi_ty_of(f1.dfg.data_of(i)));
        assert(f2.dfg.result_of(i) == f1.dfg.result_of(i));
    }
    assert forall|b: Block|
        f1.layout.is_appended(b) implies #[trigger] f3.layout.is_appended(b) by {
        assert(f2.layout.is_appended(b));
    }
}

/// A well-formed SSA state stays well-formed when the function only grows.
pub proof fn lemma_wf_transfer(s: SsaBuilder, f1: Function, f2: Function)
    requires
        s.wf(f1),
        evolves_to(f1, f2),
    ensures
        s.wf(f2),
{
    assert forall|v: int, b: int|
        0 <= v < s.defs@.len() && 0 <= b < s.defs@[v]@.len() implies (match #[trigger] s
        .defs@[v]@[b] {
        Some(val) => f2.dfg.valid_value(val) && f2.dfg.value_of(val).ty_spec()
            == s.var_types@[v],
        None => true,
    }) by {
        match s.defs@[v]@[b] {
            Some(val) => {
                assert(f1.dfg.valid_value(val));
                assert(f2.dfg.value_of(val) == f1.dfg.value_of(val));
            },
            None => {},
        }
    }
    assert forall|b: int, k: int|
        0 <= b < s.preds@.len() && 0 <= k < s.preds@[b]@.len() implies ({
        &&& f2.dfg.valid_block(#[trigger] s.preds@[b]@[k])
        &&& f2.layout.is_appended(s.preds@[b]@[k])
    }) by {
        assert(f1.dfg.valid_block(s.preds@[b]@[k]));
        assert(f1.layout.is_appended(s.preds@[b]@[k]));
    }
    assert forall|b: int, k: int|
        0 <= b < s.incomplete@.len() && 0 <= k < s.incomplete@[b]@.len() implies entry_ok(
        #[trigger] s.incomplete@[b]@[k],
        f2,
        s.var_types@,
    ) by {
        let e = s.incomplete@[b]@[k];
        assert(entry_ok(e, f1, s.var_types@));
        assert(f1.dfg.valid_insn(e.1));
        assert(phi_ty_of(f2.dfg.data_of(e.1)) == phi_ty_of(f1.dfg.data_of(e.1)));
        assert(f2.dfg.result_of(e.1) == f1.dfg.result_of(e.1));
        match f1.dfg.result_of(e.1) {
            Some(r) => {
                assert(f1.dfg.valid_value(r));
                assert(f2.dfg.value_of(r) == f1.dfg.value_of(r));
            },
            None => {},
        }
    }
}

/// The sealed-blocks-have-no-pending-phis clause carries over between two
/// states with the same seal marks and pending lists.
pub proof fn lemma_pending_preserved(s1: SsaBuilder, s2: SsaBuilder)
    requires
        forall|b: Block| #[trigger] s1.is_sealed_spec(b) ==> s1.incomplete_in(b).len() == 0,
        s2.sealed@ == s1.sealed@,
        s2.incomplete@ == s1.incomplete@,
    ensures
        forall|b: Block| #[trigger] s2.is_sealed_spec(b) ==> s2.incomplete_in(b).len() == 0,
{
    assert forall|b: Block|
        #[trigger] s2.is_sealed_spec(b) implies s2.incomplete_in(b).len() == 0 by {
        assert(s1.is_sealed_spec(b));
        assert(s2.incomplete_in(b) == s1.incomplete_in(b));
    }
}

impl SsaBuilder {
    pub open spec fn valid_var(self, var: Variable) -> bool {
        (var.0 as int) < self.var_types@.len()
    }

    pub open spec fn var_ty_spec(self, var: Variable) -> Type {
        self.var_types@[var.0 as int]
    }

    pub open spec fn def_of(self, var: Variable, block: Block) -> Option<Value> {
        if (var.0 as int) < self.defs@.len() && (block.0 as int) < self.defs@[var.0 as int]@.len() {
            self.defs@[var.0 as int]@[block.0 as int]
        } else {
            None
        }
    }

    pub open spec fn preds_of(self, block: Block) -> Seq<Block> {
        if (block.0 as int) < self.preds@.len() {
            self.preds@[block.0 as int]@
        } else {
            Seq::<Block>::empty()
        }
    }

    pub open spec fn is_sealed_spec(self, block: Block) -> bool {
        (block.0 as int) < self.sealed@.len() && self.sealed@[block.0 as int]
    }

    pub open spec fn incomplete_in(self, block: Block) -> Seq<(Variable, Insn)> {
        if (block.0 as int) < self.incomplete@.len() {
            self.incomplete@[block.0 as int]@
        } else {
            Seq::<(Variable, Insn)>::empty()
        }
    }

    /// Consistency against the function under construction. A sealed
    /// block's phis are complete, so it has no pending entries; and only
    /// existing blocks can carry predecessors, a seal mark or pending
    /// phis.
    pub open spec fn wf(self, func: Function) -> bool {
        &&& self.sealed@.len() <= func.dfg.num_blocks()
        &&& self.preds@.len() <= func.dfg.num_blocks()
        &&& self.incomplete@.len() <= func.dfg.num_blocks()
        &&& forall|b: Block|
            #[trigger] self.is_sealed_spec(b) ==> self.incomplete_in(b).len() == 0
        &&& self.defs@.len() == self.var_types@.len()
        &&& forall|v: int, b: int|
            0 <= v < self.defs@.len() && 0 <= b < self.defs@[v]@.len() ==> (match #[trigger] self
                .defs@[v]@[b] {
                Some(val) => func.dfg.valid_value(val) && func.dfg.value_of(val).ty_spec()
                    == self.var_types@[v],
                None => true,
            })
        &&& forall|b: int, k: int|
            0 <= b < self.preds@.len() && 0 <= k < self.preds@[b]@.len() ==> ({
                &&& func.dfg.valid_block(#[trigger] self.preds@[b]@[k])
                &&& func.layout.is_appended(self.preds@[b]@[k])
            })
        &&& forall|b: int, k: int|
            0 <= b < self.incomplete@.len() && 0 <= k < self.incomplete@[b]@.len() ==> entry_ok(
                #[trigger] self.incomplete@[b]@[k],
                func,
                self.var_types@,
            )
    }

    pub fn new() -> (r: SsaBuilder)
        ensures
            forall|func: Function| r.wf(func),
            r.var_types@.len() == 0,
            r.sealed@.len() == 0,
            r.defs@.len() == 0,
            r.preds@.len() == 0,
            r.incomplete@.len() == 0,
    {
        SsaBuilder {
            var_types: Vec::new(),
            defs: Vec::new(),
            preds: Vec::new(),
            sealed: Vec::new(),
            incomplete: Vec::new(),
        }
    }

    /// Declares a fresh variable of the given type.
    pub fn declare_var(&mut self, ty: Type) -> (r: Variable)
        requires
            old(self).defs@.len() == old(self).var_types@.len(),
        ensures
            r.0 == old(self).var_types@.len(),
            final(self).var_types@ == old(self).var_types@.push(ty),
            final(self).preds@ == old(self).preds@,
            final(self).sealed@ == old(self).sealed@,
            final(self).incomplete@ == old(self).incomplete@,
            forall|v2: Variable, b2: Block|
                v2 != r ==> final(self).def_of(v2, b2) == old(self).def_of(v2, b2),
            forall|b2: Block| final(self).def_of(r, b2) is None,
            forall|func: Function| old(self).wf(func) ==> final(self).wf(func),
    {
        let r = Variable(self.var_types.len());
        self.var_types.push(ty);
        self.defs.push(Vec::new());
        proof {
            assert forall|func: Function| old(self).wf(func) implies final(self).wf(func) by {
                lemma_pending_preserved(*old(self), *self);
                assert forall|v: int, b: int|
                    0 <= v < self.defs@.len() && 0 <= b
                        < self.defs@[v]@.len() implies (match #[trigger] self.defs@[v]@[b] {
                    Some(val) => func.dfg.valid_value(val) && func.dfg.value_of(val).ty_spec()
                        == self.var_types@[v],
                    None => true,
                }) by {
                    if v < old(self).defs@.len() {
                        assert(self.defs@[v]@ == old(self).defs@[v]@);
                        assert(self.var_types@[v] == old(self).var_types@[v]);
                    } else {
                        assert(self.defs@[v]@.len() == 0);
                    }
                }
            }
        }
        r
    }

    pub fn var_ty(&self, var: Variable) -> (r: Type)
        requires
            self.valid_var(var),
        ensures
            r == self.var_ty_spec(var),
    {
        self.var_types[var.0]
    }

    /// Grows the per-variable definition row so block `block` has a slot.
    #[verifier::loop_isolation(false)]
    fn ensure_def_slot(&mut self, var: Variable, block: Block, Ghost(func): Ghost<Function>)
        requires
            old(self).wf(func),
            old(self).valid_var(var),
        ensures
            final(self).wf(func),
            final(self).var_types@ == old(self).var_types@,
            final(self).preds@ == old(self).preds@,
            final(self).sealed@ == old(self).sealed@,
            final(self).incomplete@ == old(self).incomplete@,
            final(self).defs@[var.0 as int]@.len() > block.0 as int,
            forall|v2: Variable, b2: Block|
                final(self).def_of(v2, b2) == old(self).def_of(v2, b2),
    {
        while self.defs[var.0].len() <= block.0
            invariant
                self.wf(func),
                self.valid_var(var),
                self.var_types@ == old(self).var_types@,
                self.preds@ == old(self).preds@,
                self.sealed@ == old(self).sealed@,
                self.incomplete@ == old(self).incomplete@,
                self.defs@.len() == old(self).defs@.len(),
                forall|v2: int|
                    0 <= v2 < self.defs@.len() && v2 != var.0 as int ==> self.defs@[v2] == old(
                        self,
                    ).defs@[v2],
                self.defs@[var.0 as int]@.len() >= old(self).defs@[var.0 as int]@.len(),
                forall|b2: int|
                    0 <= b2 < old(self).defs@[var.0 as int]@.len()
                        ==> self.defs@[var.0 as int]@[b2] == old(self).defs@[var.0 as int]@[b2],
                forall|b2: int|
                    old(self).defs@[var.0 as int]@.len() <= b2 < self.defs@[var.0 as int]@.len()
                        ==> self.defs@[var.0 as int]@[b2] is None,
            decreases block.0 + 1 - self.defs@[var.0 as int]@.len(),
        {
            self.defs[var.0].push(None);
            proof {
                lemma_pending_preserved(*old(self), *self);
            }
        }
        proof {
            assert forall|v2: Variable, b2: Block|
                final(self).def_of(v2, b2) == old(self).def_of(v2, b2) by {}
        }
    }

    /// Writes the current definition of `var` in `block`.
    pub fn def_var(&mut self, var: Variable, value: Value, block: Block, Ghost(func): Ghost<
        Function,
    >)
        requires
            old(self).wf(func),
            old(self).valid_var(var),
            func.dfg.valid_value(value),
            func.dfg.value_of(value).ty_spec() == old(self).var_ty_spec(var),
        ensures
            final(self).wf(func),
            final(self).var_types@ == old(self).var_types@,
            final(self).preds@ == old(self).preds@,
            final(self).sealed@ == old(self).sealed@,
            final(self).incomplete@ == old(self).incomplete@,
            final(self).def_of(var, block) == Some(value),
            forall|v2: Variable, b2: Block|
                !(v2 == var && b2 == block) ==> final(self).def_of(v2, b2) == old(self).def_of(
                    v2,
                    b2,
                ),
    {
        self.ensure_def_slot(var, block, Ghost(func));
        let ghost mid = *self;
        self.defs[var.0][block.0] = Some(value);
        proof {
            lemma_pending_preserved(mid, *self);
            assert(self.defs@[var.0 as int]@ == mid.defs@[var.0 as int]@.update(
                block.0 as int,
                Some(value),
            ));
            assert forall|v2: Variable, b2: Block|
                !(v2 == var && b2 == block) implies final(self).def_of(v2, b2) == mid.def_of(
                v2,
                b2,
            ) by {}
        }
    }

    /// Records `pred` as one more predecessor of `block`. The block must
    /// not have been sealed: a sealed block's phis are already complete.
    #[verifier::loop_isolation(false)]
    pub fn append_pred(&mut self, block: Block, pred: Block, Ghost(func): Ghost<Function>)
        requires
            old(self).wf(func),
            func.dfg.valid_block(block),
            func.dfg.valid_block(pred),
            func.layout.is_appended(pred),
            !old(self).is_sealed_spec(block),
        ensures
            final(self).wf(func),
            final(self).var_types@ == old(self).var_types@,
            final(self).sealed@ == old(self).sealed@,
            final(self).incomplete@ == old(self).incomplete@,
            final(self).preds_of(block) == old(self).preds_of(block).push(pred),
            forall|b2: Block| b2 != block ==> final(self).preds_of(b2) == old(self).preds_of(b2),
            forall|v2: Variable, b2: Block|
                final(self).def_of(v2, b2) == old(self).def_of(v2, b2),
    {
        while self.preds.len() <= block.0
            invariant
                self.wf(func),
                self.var_types@ == old(self).var_types@,
                self.defs@ == old(self).defs@,
                self.sealed@ == old(self).sealed@,
                self.incomplete@ == old(self).incomplete@,
                self.preds@.len() >= old(self).preds@.len(),
                self.preds@.len() == old(self).preds@.len() || self.preds@.len() <= block.0
                    + 1,
                forall|b2: int|
                    0 <= b2 < old(self).preds@.len() ==> self.preds@[b2] == old(self).preds@[b2],
                forall|b2: int|
                    old(self).preds@.len() <= b2 < self.preds@.len() ==> self.preds@[b2]@.len()
                        == 0,
            decreases block.0 + 1 - self.preds@.len(),
        {
            self.preds.push(Vec::new());
            proof {
                lemma_pending_preserved(*old(self), *self);
            }
        }
        let ghost mid = *self;
        self.preds[block.0].push(pred);
        proof {
            lemma_pending_preserved(mid, *self);
            assert(self.preds@[block.0 as int]@ == mid.preds@[block.0 as int]@.push(pred));
            assert forall|b2: Block|
                b2 != block implies final(self).preds_of(b2) == old(self).preds_of(b2) by {
                if (b2.0 as int) < mid.preds@.len() && b2.0 as int != block.0 as int {
                    assert(self.preds@[b2.0 as int] == mid.preds@[b2.0 as int]);
                }
            }
            assert(mid.preds_of(block) == old(self).preds_of(block));
        }
    }

    pub fn is_sealed(&self, block: Block) -> (r: bool)
        ensures
            r == self.is_sealed_spec(block),
    {
        block.0 < self.sealed.len() && self.sealed[block.0]
    }

    /// Marks `block` sealed.
    #[verifier::loop_isolation(false)]
    fn mark_sealed(&mut self, block: Block, Ghost(func): Ghost<Function>)
        requires
            old(self).wf(func),
            func.dfg.valid_block(block),
            old(self).incomplete_in(block).len() == 0,
        ensures
            final(self).wf(func),
            final(self).var_types@ == old(self).var_types@,
            final(self).defs@ == old(self).defs@,
            final(self).preds@ == old(self).preds@,
            final(self).incomplete@ == old(self).incomplete@,
            final(self).is_sealed_spec(block),
            forall|b2: Block|
                b2 != block ==> final(self).is_sealed_spec(b2) == old(self).is_sealed_spec(b2),
    {
        while self.sealed.len() <= block.0
            invariant
                self.var_types@ == old(self).var_types@,
                self.defs@ == old(self).defs@,
                self.preds@ == old(self).preds@,
                self.incomplete@ == old(self).incomplete@,
                self.sealed@.len() >= old(self).sealed@.len(),
                self.sealed@.len() == old(self).sealed@.len() || self.sealed@.len() <= block.0
                    + 1,
                forall|b2: int|
                    0 <= b2 < old(self).sealed@.len() ==> self.sealed@[b2] == old(
                        self,
                    ).sealed@[b2],
                forall|b2: int|
                    old(self).sealed@.len() <= b2 < self.sealed@.len() ==> !self.sealed@[b2],
            decreases block.0 + 1 - self.sealed@.len(),
        {
            self.sealed.push(false);
        }
        let ghost mid = *self;
        self.sealed[block.0] = true;
        proof {
            assert(self.sealed@.len() <= func.dfg.num_blocks()) by {
                if old(self).sealed@.len() <= block.0 as int {
                } else {
                    assert(self.sealed@.len() == old(self).sealed@.len());
                }
            }
            assert forall|b2: Block|
                #[trigger] self.is_sealed_spec(b2) implies self.incomplete_in(b2).len()
                == 0 by {
                if b2 == block {
                    assert(self.incomplete_in(b2) == old(self).incomplete_in(block));
                } else {
                    if mid.is_sealed_spec(b2) {
                        assert(old(self).is_sealed_spec(b2));
                    }
                    assert(self.incomplete_in(b2) == old(self).incomplete_in(b2));
                }
            }
            assert forall|b2: Block|
                b2 != block implies final(self).is_sealed_spec(b2) == old(self).is_sealed_spec(
                b2,
            ) by {}
        }
    }
}

/// Creates an operand-less phi of type `ty` at the top of `block`, with its
/// result value attached.
fn insert_phi(func: &mut Function, block: Block, ty: Type) -> (r: (Insn, Value))
    requires
        old(func).wf(),
        old(func).dfg.valid_block(block),
        old(func).layout.is_appended(block),
    ensures
        final(func).wf(),
        evolves_to(*old(func), *final(func)),
        final(func).dfg.valid_insn(r.0),
        final(func).dfg.valid_value(r.1),
        final(func).dfg.value_of(r.1).ty_spec() == ty,
        final(func).dfg.result_of(r.0) == Some(r.1),
        phi_ty_of(final(func).dfg.data_of(r.0)) == Some(ty),
        final(func).layout.is_inserted(r.0),
        final(func).layout.block_order@ == old(func).layout.block_order@,
        r.0.0 == old(func).dfg.num_insns(),
        final(func).dfg.num_insns() == old(func).dfg.num_insns() + 1,
        final(func).layout.insns_in(block) == old(func).layout.insns_in(block).insert(0, r.0),
        forall|b2: Block|
            b2 != block ==> final(func).layout.insns_in(b2) == old(func).layout.insns_in(b2),
{
    let ghost f0 = *func;
    let data = InsnData::Phi { values: Vec::new(), blocks: Vec::new(), ty };
    proof {
        assert(func.dfg.insn_refs_valid(data));
    }
    let i = func.dfg.make_insn(data);
    proof {
        func.layout.lemma_wf_grow(
            f0.dfg.num_blocks(),
            f0.dfg.num_insns(),
            func.dfg.num_blocks(),
            func.dfg.num_insns(),
        );
    }
    func.layout.prepend_insn(block, i, Ghost(func.dfg.num_blocks()), Ghost(
        func.dfg.num_insns(),
    ));
    let v = func.dfg.make_value(ValueData::Insn { insn: i, ty });
    func.dfg.attach_result(i, v);
    proof {
        lemma_args_preserved(f0, *func);
        assert(evolves_to(f0, *func)) by {
            assert forall|j: Insn|
                f0.dfg.valid_insn(j) implies (#[trigger] phi_ty_of(func.dfg.data_of(j))
                == phi_ty_of(f0.dfg.data_of(j)) && func.dfg.result_of(j) == f0.dfg.result_of(
                j,
            )) by {
                assert(func.dfg.data_of(j) == f0.dfg.data_of(j));
            }
        }
    }
    (i, v)
}

/// Replaces a trivial phi (all operands the phi itself or one single other
/// value of the same type) by that value: every user is rewritten and the
/// phi is detached, then each phi among the former users is reconsidered.
/// Returns the replacement, or the phi's own result when it is not trivial.
#[verifier::loop_isolation(false)]
fn try_remove_trivial_phi(func: &mut Function, phi: Insn, fuel: u64) -> (r: Value)
    requires
        old(func).wf(),
        old(func).dfg.valid_insn(phi),
        old(func).dfg.data_of(phi).is_phi_spec(),
        old(func).dfg.result_of(phi) is Some,
    ensures
        final(func).wf(),
        evolves_to(*old(func), *final(func)),
        final(func).dfg.valid_value(r),
        final(func).dfg.value_of(r).ty_spec() == old(func).dfg.value_of(
            old(func).dfg.result_of(phi)->Some_0,
        ).ty_spec(),
        !final(func).layout.is_inserted(phi) || *final(func) == *old(func),
        final(func).layout.block_order@ == old(func).layout.block_order@,
        forall|j: Insn|
            #![trigger final(func).layout.is_inserted(j)]
            final(func).layout.is_inserted(j) ==> old(func).layout.is_inserted(j),
    decreases fuel,
{
    let ghost f0 = *func;
    let r0 = func.dfg.insn_result(phi).unwrap();
    proof {
        assert(func.dfg.result_entry_ok(phi.0 as int));
    }
    let args = func.dfg.insn_args(phi);
    let n = args.len();
    let mut same: Option<Value> = None;
    let mut k: usize = 0;
    while k < n
        invariant
            *func == f0,
            f0.wf(),
            f0.dfg.valid_insn(phi),
            n == args@.len(),
            args@ == f0.dfg.data_of(phi).args_spec(),
            k <= n,
            match same {
                Some(u) => u != r0 && args@.take(k as int).contains(u),
                None => true,
            },
        decreases n - k,
    {
        let v = args[k];
        if v != r0 {
            match same {
                Some(u) => {
                    if u != v {
                        return r0;
                    }
                },
                None => {
                    same = Some(v);
                    proof {
                        assert(args@.take(k as int + 1)[k as int] == v);
                        assert(args@.take(k as int + 1).contains(v));
                    }
                },
            }
        }
        proof {
            match same {
                Some(u) => {
                    if args@.take(k as int).contains(u) {
                        let p = choose|p: int|
                            0 <= p < k && args@.take(k as int)[p] == u;
                        assert(args@.take(k as int + 1)[p] == u);
                        assert(args@.take(k as int + 1).contains(u));
                    }
                },
                None => {},
            }
        }
        k += 1;
    }
    let u = match same {
        Some(u) => u,
        None => {
            return r0;
        },
    };
    proof {
        assert(args@.take(n as int) == args@);
        assert(args@.contains(u));
        let p = choose|p: int| 0 <= p < args@.len() && args@[p] == u;
        assert(func.dfg.insn_refs_valid(func.dfg.insns@[phi.0 as int]));
        assert(func.dfg.valid_value(args@[p]));
    }
    if func.dfg.value_ty(u) != func.dfg.value_ty(r0) {
        // A malformed phi whose operands disagree with its result type is
        // left in place; the construction algorithm never produces one.
        return r0;
    }
    let users_list = func.dfg.users(r0);
    let snapshot = copy_insn_vec(users_list);
    proof {
        assert forall|q: int|
            0 <= q < snapshot@.len() implies f0.dfg.valid_insn(#[trigger] snapshot@[q]) by {
            assert(crate::dfg::insn_list_ok(
                f0.dfg.user_list(r0_spec(f0, phi)),
                f0.dfg.num_insns(),
            )) by {
                assert(f0.dfg.wf());
            }
        }
    }
    func.dfg.change_to_alias(r0, u);
    func.layout.detach_insn(phi, Ghost(func.dfg.num_blocks()), Ghost(func.dfg.num_insns()));
    let ghost f1 = *func;
    proof {
        assert(f1.wf()) by {
            lemma_args_preserved(f0, f1);
        }
        assert(evolves_to(f0, f1)) by {
            assert forall|j: Insn|
                f0.dfg.valid_insn(j) implies (#[trigger] phi_ty_of(f1.dfg.data_of(j))
                == phi_ty_of(f0.dfg.data_of(j)) && f1.dfg.result_of(j) == f0.dfg.result_of(
                j,
            )) by {
                if f0.dfg.is_user(r0, j) {
                    assert(crate::dfg::rewritten_to(f1.dfg.data_of(j), f0.dfg.data_of(j), r0, u));
                    lemma_same_shell_phi_ty(f1.dfg.data_of(j), f0.dfg.data_of(j));
                } else {
                    assert(f1.dfg.data_of(j) == f0.dfg.data_of(j));
                }
            }
        }
    }
    proof {
        assert forall|j: Insn|
            #![trigger func.layout.is_inserted(j)]
            func.layout.is_inserted(j) implies f0.layout.is_inserted(j) by {
            if j != phi {
                assert(func.layout.block_of(j) == f0.layout.block_of(j));
            }
        }
    }
    let m = snapshot.len();
    let mut q: usize = 0;
    while q < m
        invariant
            func.wf(),
            evolves_to(f0, *func),
            m == snapshot@.len(),
            q <= m,
            forall|p: int| 0 <= p < m ==> f0.dfg.valid_insn(#[trigger] snapshot@[p]),
            f0.dfg.num_insns() <= func.dfg.num_insns(),
            func.layout.block_order@ == f0.layout.block_order@,
            !func.layout.is_inserted(phi),
            forall|j: Insn|
                #![trigger func.layout.is_inserted(j)]
                func.layout.is_inserted(j) ==> f0.layout.is_inserted(j),
        decreases m - q,
    {
        let i2 = snapshot[q];
        if fuel > 0 {
            let is_phi_now = func.dfg.is_phi(i2);
            if is_phi_now && i2.0 != phi.0 {
                let has_res = func.dfg.insn_result(i2);
                match has_res {
                    Some(_) => {
                        let ghost before = *func;
                        try_remove_trivial_phi(func, i2, fuel - 1);
                        proof {
                            lemma_evolves_trans(f0, before, *func);
                            assert(!func.layout.is_inserted(phi)) by {
                                if func.layout.is_inserted(phi) {
                                    assert(before.layout.is_inserted(phi));
                                }
                            }
                        }
                    },
                    None => {},
                }
            }
        }
        q += 1;
    }
    u
}

/// Copies a vector of instruction handles.
fn copy_insn_vec(vs: &Vec<Insn>) -> (r: Vec<Insn>)
    ensures
        r@ == vs@,
{
    let n = vs.len();
    let mut out: Vec<Insn> = Vec::new();
    let mut k: usize = 0;
    while k < n
        invariant
            n == vs@.len(),
            k <= n,
            out@ == vs@.take(k as int),
        decreases n - k,
    {
        out.push(vs[k]);
        proof {
            assert(out@ == vs@.take(k as int + 1));
        }
        k += 1;
    }
    proof {
        assert(vs@.take(n as int) == vs@);
    }
    out
}

/// The attached result of `phi` (spec shorthand).
pub open spec fn r0_spec(func: Function, phi: Insn) -> Value {
    func.dfg.result_of(phi)->Some_0
}

impl SsaBuilder {
    /// The current SSA value of `var` at the end of `block`, creating phis
    /// as the algorithm requires. `fuel` bounds the recursion; the public
    /// entry points pass more than any well-formed control-flow graph can
    /// consume.
    #[verifier::loop_isolation(false)]
    fn read_variable(&mut self, func: &mut Function, var: Variable, block: Block, fuel: u64) -> (r:
        Value)
        requires
            old(func).wf(),
            old(self).wf(*old(func)),
            old(self).valid_var(var),
            old(func).dfg.valid_block(block),
            old(func).layout.is_appended(block),
        ensures
            final(func).wf(),
            final(self).wf(*final(func)),
            evolves_to(*old(func), *final(func)),
            final(func).dfg.valid_value(r),
            final(func).dfg.value_of(r).ty_spec() == old(self).var_ty_spec(var),
            final(self).var_types@ == old(self).var_types@,
            final(self).sealed@ == old(self).sealed@,
            final(self).preds@ == old(self).preds@,
            final(func).layout.block_order@ == old(func).layout.block_order@,
            old(self).def_of(var, block) matches Some(v) ==> r == v && *final(self) == *old(
                self,
            ) && *final(func) == *old(func),
            (!old(self).is_sealed_spec(block) && old(self).def_of(var, block) is None) ==> ({
                &&& final(func).dfg.num_insns() == old(func).dfg.num_insns() + 1
                &&& final(self).incomplete_in(block) == old(self).incomplete_in(block).push(
                    (var, Insn(old(func).dfg.num_insns() as usize)),
                )
                &&& final(func).dfg.result_of(Insn(old(func).dfg.num_insns() as usize)) == Some(r)
                &&& phi_ty_of(
                    final(func).dfg.data_of(Insn(old(func).dfg.num_insns() as usize)),
                ) == Some(old(self).var_ty_spec(var))
                &&& final(func).layout.insns_in(block) == old(func).layout.insns_in(
                    block,
                ).insert(0, Insn(old(func).dfg.num_insns() as usize))
                &&& final(self).def_of(var, block) == Some(r)
            }),
        decreases fuel, 1int,
    {
        let ghost f0 = *func;
        let ghost s0 = *self;
        if var.0 < self.defs.len() && block.0 < self.defs[var.0].len() {
            match self.defs[var.0][block.0] {
                Some(v) => {
                    proof {
                        assert(self.def_of(var, block) == Some(v));
                    }
                    return v;
                },
                None => {},
            }
        }
        proof {
            assert(old(self).def_of(var, block) is None);
        }
        let ty = self.var_types[var.0];
        if !self.is_sealed(block) {
            let (i, v) = insert_phi(func, block, ty);
            proof {
                lemma_wf_transfer(*self, f0, *func);
            }
            self.push_incomplete(block, var, i, Ghost(*func));
            self.def_var(var, v, block, Ghost(*func));
            return v;
        }
        let num_preds = if block.0 < self.preds.len() {
            self.preds[block.0].len()
        } else {
            0
        };
        if num_preds == 1 && fuel > 0 {
            let p = self.preds[block.0][0];
            proof {
                assert(self.preds_of(block)[0] == p);
            }
            let v = self.read_variable(func, var, p, fuel - 1);
            self.def_var(var, v, block, Ghost(*func));
            return v;
        }
        let (i, v) = insert_phi(func, block, ty);
        proof {
            lemma_wf_transfer(*self, f0, *func);
        }
        self.def_var(var, v, block, Ghost(*func));
        if fuel == 0 {
            return v;
        }
        let ghost f_phi = *func;
        let mut k: usize = 0;
        while k < num_preds
            invariant
                func.wf(),
                self.wf(*func),
                evolves_to(f0, *func),
                self.valid_var(var),
                self.var_types@ == s0.var_types@,
                self.sealed@ == s0.sealed@,
                self.preds@ == s0.preds@,
                num_preds > 0 ==> (block.0 as int) < self.preds@.len() && num_preds
                    == self.preds@[block.0 as int]@.len(),
                k <= num_preds,
                func.layout.block_order@ == f0.layout.block_order@,
                func.dfg.valid_insn(i),
                func.dfg.data_of(i).is_phi_spec(),
                func.dfg.result_of(i) == Some(v),
                func.dfg.valid_value(v),
                func.dfg.value_of(v).ty_spec() == s0.var_ty_spec(var),
                fuel > 0,
            decreases num_preds - k,
        {
            let p = self.preds[block.0][k];
            proof {
                assert(self.preds_of(block)[k as int] == p);
            }
            let ghost before = *func;
            let val = self.read_variable(func, var, p, fuel - 1);
            proof {
                lemma_evolves_trans(f0, before, *func);
                assert(phi_ty_of(func.dfg.data_of(i)) == phi_ty_of(before.dfg.data_of(i)));
            }
            let ghost before2 = *func;
            let cur_args = func.dfg.insn_args_num(i);
            if cur_args == usize::MAX {
                // unreachable in practice: a phi cannot accumulate that
                // many operands
                k += 1;
                continue ;
            }
            func.dfg.append_phi_arg(i, val, p);
            proof {
                assert(func.wf()) by {
                    lemma_args_preserved(before2, *func);
                }
                assert(evolves_to(before2, *func)) by {
                    assert forall|j: Insn|
                        before2.dfg.valid_insn(j) implies (#[trigger] phi_ty_of(
                        func.dfg.data_of(j),
                    ) == phi_ty_of(before2.dfg.data_of(j)) && func.dfg.result_of(j)
                        == before2.dfg.result_of(j)) by {
                        if j != i {
                            assert(func.dfg.data_of(j) == before2.dfg.data_of(j));
                        }
                    }
                }
                lemma_evolves_trans(f0, before2, *func);
                lemma_wf_transfer(*self, before2, *func);
            }
            k += 1;
        }
        let ghost fl = *func;
        let r2 = try_remove_trivial_phi(func, i, fuel);
        proof {
            lemma_evolves_trans(f0, fl, *func);
            lemma_wf_transfer(*self, fl, *func);
        }
        r2
    }

    /// Appends one pending-phi record for an unsealed block.
    #[verifier::loop_isolation(false)]
    fn push_incomplete(&mut self, block: Block, var: Variable, phi: Insn, Ghost(func): Ghost<
        Function,
    >)
        requires
            old(self).wf(func),
            entry_ok((var, phi), func, old(self).var_types@),
            func.dfg.valid_block(block),
            !old(self).is_sealed_spec(block),
        ensures
            final(self).wf(func),
            final(self).var_types@ == old(self).var_types@,
            final(self).defs@ == old(self).defs@,
            final(self).preds@ == old(self).preds@,
            final(self).sealed@ == old(self).sealed@,
            final(self).incomplete_in(block) == old(self).incomplete_in(block).push((var, phi)),
            forall|b2: Block|
                b2 != block ==> final(self).incomplete_in(b2) == old(self).incomplete_in(b2),
            forall|b2: Block|
                #![trigger final(self).incomplete_in(b2)]
                old(self).incomplete_in(b2).is_prefix_of(final(self).incomplete_in(b2)),
    {
        while self.incomplete.len() <= block.0
            invariant
                self.wf(func),
                self.var_types@ == old(self).var_types@,
                self.defs@ == old(self).defs@,
                self.preds@ == old(self).preds@,
                self.sealed@ == old(self).sealed@,
                self.incomplete@.len() >= old(self).incomplete@.len(),
                self.incomplete@.len() == old(self).incomplete@.len() || self.incomplete@.len() <= block.0
                    + 1,
                forall|b2: int|
                    0 <= b2 < old(self).incomplete@.len() ==> self.incomplete@[b2] == old(
                        self,
                    ).incomplete@[b2],
                forall|b2: int|
                    old(self).incomplete@.len() <= b2 < self.incomplete@.len()
                        ==> self.incomplete@[b2]@.len() == 0,
            decreases block.0 + 1 - self.incomplete@.len(),
        {
            self.incomplete.push(Vec::new());
            proof {
                assert forall|b2: Block|
                    #[trigger] self.is_sealed_spec(b2) implies self.incomplete_in(b2).len()
                    == 0 by {
                    assert(old(self).is_sealed_spec(b2));
                    if (b2.0 as int) < old(self).incomplete@.len() {
                        assert(self.incomplete@[b2.0 as int] == old(self).incomplete@[b2.0 as int]);
                    } else if (b2.0 as int) < self.incomplete@.len() {
                        assert(self.incomplete@[b2.0 as int]@.len() == 0);
                    }
                }
            }
        }
        let ghost mid = *self;
        self.incomplete[block.0].push((var, phi));
        proof {
            assert(self.incomplete@[block.0 as int]@ == mid.incomplete@[block.0 as int]@.push(
                (var, phi),
            ));
            assert(mid.incomplete_in(block) == old(self).incomplete_in(block));
            assert forall|b2: Block|
                b2 != block implies final(self).incomplete_in(b2) == old(self).incomplete_in(
                b2,
            ) by {
                if (b2.0 as int) < mid.incomplete@.len() {
                    assert(self.incomplete@[b2.0 as int] == mid.incomplete@[b2.0 as int]);
                }
            }
            assert forall|b2: Block|
                #![trigger final(self).incomplete_in(b2)]
                old(self).incomplete_in(b2).is_prefix_of(final(self).incomplete_in(b2)) by {
                if b2.0 as int != block.0 as int && (b2.0 as int) < mid.incomplete@.len() {
                    assert(self.incomplete@[b2.0 as int] == mid.incomplete@[b2.0 as int]);
                }
            }
            assert forall|b2: Block|
                #[trigger] self.is_sealed_spec(b2) implies self.incomplete_in(b2).len()
                == 0 by {
                assert(b2 != block);
                assert(old(self).is_sealed_spec(b2));
            }
        }
    }

    /// The SSA value of `var` at the current point of `block`.
    pub fn use_var(&mut self, func: &mut Function, var: Variable, block: Block) -> (r: Value)
        requires
            old(func).wf(),
            old(self).wf(*old(func)),
            old(self).valid_var(var),
            old(func).dfg.valid_block(block),
            old(func).layout.is_appended(block),
        ensures
            final(func).wf(),
            final(self).wf(*final(func)),
            evolves_to(*old(func), *final(func)),
            final(func).dfg.valid_value(r),
            final(func).dfg.value_of(r).ty_spec() == old(self).var_ty_spec(var),
            final(self).var_types@ == old(self).var_types@,
            final(self).sealed@ == old(self).sealed@,
            final(self).preds@ == old(self).preds@,
            final(func).layout.block_order@ == old(func).layout.block_order@,
            old(self).def_of(var, block) matches Some(v) ==> r == v && *final(self) == *old(
                self,
            ) && *final(func) == *old(func),
            (!old(self).is_sealed_spec(block) && old(self).def_of(var, block) is None) ==> ({
                &&& final(func).dfg.num_insns() == old(func).dfg.num_insns() + 1
                &&& final(self).incomplete_in(block) == old(self).incomplete_in(block).push(
                    (var, Insn(old(func).dfg.num_insns() as usize)),
                )
                &&& final(func).dfg.result_of(Insn(old(func).dfg.num_insns() as usize)) == Some(r)
                &&& phi_ty_of(
                    final(func).dfg.data_of(Insn(old(func).dfg.num_insns() as usize)),
                ) == Some(old(self).var_ty_spec(var))
                &&& final(func).layout.insns_in(block) == old(func).layout.insns_in(
                    block,
                ).insert(0, Insn(old(func).dfg.num_insns() as usize))
                &&& final(self).def_of(var, block) == Some(r)
            }),
    {
        let fuel = read_fuel(func);
        self.read_variable(func, var, block, fuel)
    }

    /// Completes the pending phis of `block` and marks it sealed: no
    /// further predecessors may be recorded. Sealing a sealed block changes
    /// nothing.
    #[verifier::loop_isolation(false)]
    pub fn seal_block(&mut self, func: &mut Function, block: Block)
        requires
            old(func).wf(),
            old(self).wf(*old(func)),
            old(func).dfg.valid_block(block),
            old(func).layout.is_appended(block),
        ensures
            final(func).wf(),
            final(self).wf(*final(func)),
            evolves_to(*old(func), *final(func)),
            final(self).var_types@ == old(self).var_types@,
            final(self).preds@ == old(self).preds@,
            final(func).layout.block_order@ == old(func).layout.block_order@,
            final(self).is_sealed_spec(block),
            final(self).incomplete_in(block).len() == 0,
            forall|b2: Block|
                b2 != block ==> final(self).is_sealed_spec(b2) == old(self).is_sealed_spec(b2),
    {
        let ghost f0 = *func;
        if self.is_sealed(block) {
            return ;
        }
        if block.0 < self.incomplete.len() {
            let pending = copy_entry_vec(&self.incomplete[block.0]);
            let m = pending.len();
            let mut k: usize = 0;
            while k < m
                invariant
                    func.wf(),
                    self.wf(*func),
                    evolves_to(f0, *func),
                    self.var_types@ == old(self).var_types@,
                    self.sealed@ == old(self).sealed@,
                    self.preds@ == old(self).preds@,
                    m == pending@.len(),
                    func.layout.block_order@ == f0.layout.block_order@,
                    k <= m,
                    forall|p: int|
                        0 <= p < m ==> entry_ok(
                            #[trigger] pending@[p],
                            *func,
                            self.var_types@,
                        ),
                    (block.0 as int) < f0.dfg.num_blocks(),
                    func.layout.is_appended(block),
                decreases m - k,
            {
                let (var, phi) = pending[k];
                let ghost before = *func;
                self.add_phi_operands(func, var, phi, block);
                proof {
                    lemma_evolves_trans(f0, before, *func);
                    assert forall|p: int|
                        0 <= p < m implies entry_ok(
                        #[trigger] pending@[p],
                        *func,
                        self.var_types@,
                    ) by {
                        let e = pending@[p];
                        assert(entry_ok(e, before, self.var_types@));
                        assert(phi_ty_of(func.dfg.data_of(e.1)) == phi_ty_of(
                            before.dfg.data_of(e.1),
                        ));
                        assert(func.dfg.result_of(e.1) == before.dfg.result_of(e.1));
                        match before.dfg.result_of(e.1) {
                            Some(rr) => {
                                assert(before.dfg.valid_value(rr));
                                assert(func.dfg.value_of(rr) == before.dfg.value_of(rr));
                            },
                            None => {},
                        }
                    }
                }
                k += 1;
            }
            if block.0 < self.incomplete.len() {
                let ghost sm = *self;
                self.incomplete[block.0] = Vec::new();
                proof {
                    assert forall|b2: int, k2: int|
                        0 <= b2 < self.incomplete@.len() && 0 <= k2
                            < self.incomplete@[b2]@.len() implies entry_ok(
                        #[trigger] self.incomplete@[b2]@[k2],
                        *func,
                        self.var_types@,
                    ) by {
                        if b2 != block.0 as int {
                            assert(self.incomplete@[b2] == sm.incomplete@[b2]);
                            assert(entry_ok(sm.incomplete@[b2]@[k2], *func, sm.var_types@));
                        } else {
                            assert(self.incomplete@[b2]@.len() == 0);
                        }
                    }
                    assert forall|b2: Block|
                        #[trigger] self.is_sealed_spec(b2) implies self.incomplete_in(b2).len()
                        == 0 by {
                        assert(sm.is_sealed_spec(b2));
                        assert(b2 != block);
                        if (b2.0 as int) < self.incomplete@.len() {
                            assert(self.incomplete@[b2.0 as int] == sm.incomplete@[b2.0 as int]);
                        }
                        assert(self.incomplete_in(b2) == sm.incomplete_in(b2));
                    }
                }
            }
        }
        proof {
            assert(self.incomplete_in(block).len() == 0);
        }
        self.mark_sealed(block, Ghost(*func));
    }

    /// Adds one operand per recorded predecessor to a pending phi, then
    /// tries to remove it as trivial.
    #[verifier::loop_isolation(false)]
    fn add_phi_operands(&mut self, func: &mut Function, var: Variable, phi: Insn, block: Block)
        requires
            old(func).wf(),
            old(self).wf(*old(func)),
            entry_ok((var, phi), *old(func), old(self).var_types@),
            old(func).dfg.valid_block(block),
            old(func).layout.is_appended(block),
        ensures
            final(func).wf(),
            final(self).wf(*final(func)),
            evolves_to(*old(func), *final(func)),
            final(self).var_types@ == old(self).var_types@,
            final(self).sealed@ == old(self).sealed@,
            final(self).preds@ == old(self).preds@,
            final(func).layout.block_order@ == old(func).layout.block_order@,
    {
        let ghost f0 = *func;
        let ghost s0 = *self;
        let fuel = read_fuel(func);
        let num_preds = if block.0 < self.preds.len() {
            self.preds[block.0].len()
        } else {
            0
        };
        let mut k: usize = 0;
        while k < num_preds
            invariant
                func.wf(),
                self.wf(*func),
                evolves_to(f0, *func),
                self.valid_var(var),
                self.var_types@ == s0.var_types@,
                self.sealed@ == s0.sealed@,
                self.preds@ == s0.preds@,
                (block.0 as int) < self.preds@.len() || num_preds == 0,
                num_preds <= self.preds_of(block).len(),
                num_preds == self.preds_of(block).len() || num_preds == 0,
                k <= num_preds,
                func.layout.block_order@ == f0.layout.block_order@,
                func.dfg.valid_insn(phi),
                func.dfg.data_of(phi).is_phi_spec(),
            decreases num_preds - k,
        {
            let p = self.preds[block.0][k];
            proof {
                assert(self.preds_of(block)[k as int] == p);
            }
            let ghost before = *func;
            let val = self.read_variable(func, var, p, fuel);
            proof {
                lemma_evolves_trans(f0, before, *func);
                assert(phi_ty_of(func.dfg.data_of(phi)) == phi_ty_of(before.dfg.data_of(phi)));
                assert(func.dfg.data_of(phi).is_phi_spec());
            }
            let ghost before2 = *func;
            let cur_args = func.dfg.insn_args_num(phi);
            if cur_args == usize::MAX {
                // unreachable in practice: a phi cannot accumulate that
                // many operands
                k += 1;
                continue ;
            }
            func.dfg.append_phi_arg(phi, val, p);
            proof {
                assert(func.wf()) by {
                    lemma_args_preserved(before2, *func);
                }
                assert(evolves_to(before2, *func)) by {
                    assert forall|j: Insn|
                        before2.dfg.valid_insn(j) implies (#[trigger] phi_ty_of(
                        func.dfg.data_of(j),
                    ) == phi_ty_of(before2.dfg.data_of(j)) && func.dfg.result_of(j)
                        == before2.dfg.result_of(j)) by {
                        if j != phi {
                            assert(func.dfg.data_of(j) == before2.dfg.data_of(j));
                        }
                    }
                }
                lemma_evolves_trans(f0, before2, *func);
                lemma_wf_transfer(*self, before2, *func);
            }
            k += 1;
        }
        let has_res = func.dfg.insn_result(phi);
        match has_res {
            Some(_) => {
                let ghost before3 = *func;
                try_remove_trivial_phi(func, phi, read_fuel(func));
                proof {
                    lemma_evolves_trans(f0, before3, *func);
                    lemma_wf_transfer(*self, before3, *func);
                }
            },
            None => {},
        }
    }

    /// Seals every appended block that is not yet sealed.
    #[verifier::loop_isolation(false)]
    pub fn seal_all(&mut self, func: &mut Function)
        requires
            old(func).wf(),
            old(self).wf(*old(func)),
        ensures
            final(func).wf(),
            final(self).wf(*final(func)),
            evolves_to(*old(func), *final(func)),
            forall|k: int|
                0 <= k < final(func).layout.block_order@.len() ==> final(self).is_sealed_spec(
                    #[trigger] final(func).layout.block_order@[k],
                ),
            forall|k: int|
                0 <= k < final(func).layout.block_order@.len() ==> final(self).incomplete_in(
                    #[trigger] final(func).layout.block_order@[k],
                ).len() == 0,
    {
        let ghost f0 = *func;
        let order = copy_block_list(func.layout.blocks_in_order());
        let m = order.len();
        let mut k: usize = 0;
        while k < m
            invariant
                func.wf(),
                self.wf(*func),
                evolves_to(f0, *func),
                m == order@.len(),
                order@ == f0.layout.block_order@,
                func.layout.block_order@ == f0.layout.block_order@,
                k <= m,
                forall|p: int| 0 <= p < k ==> self.is_sealed_spec(#[trigger] order@[p]),
            decreases m - k,
        {
            let b = order[k];
            proof {
                assert(f0.layout.block_order@[k as int] == b);
                assert(f0.layout.wf(f0.dfg.num_blocks(), f0.dfg.num_insns()));
                assert(f0.layout.is_appended(b)) by {
                    assert(f0.layout.block_order@.contains(b)) by {
                        assert(f0.layout.block_order@[k as int] == b);
                    }
                }
                assert(func.layout.is_appended(b)) by {
                    assert(func.layout.block_order@.contains(b)) by {
                        assert(func.layout.block_order@[k as int] == b);
                    }
                }
                assert(f0.dfg.valid_block(b));
            }
            let ghost before = *func;
            self.seal_block(func, b);
            proof {
                lemma_evolves_trans(f0, before, *func);
                assert forall|p: int|
                    0 <= p < k + 1 implies self.is_sealed_spec(#[trigger] order@[p]) by {}
            }
            k += 1;
        }
        proof {
            assert forall|k2: int|
                0 <= k2 < func.layout.block_order@.len() implies self.is_sealed_spec(
                #[trigger] func.layout.block_order@[k2],
            ) by {
                assert(func.layout.block_order@ == order@);
            }
            assert forall|k2: int|
                0 <= k2 < func.layout.block_order@.len() implies self.incomplete_in(
                #[trigger] func.layout.block_order@[k2],
            ).len() == 0 by {
                assert(self.is_sealed_spec(func.layout.block_order@[k2]));
            }
        }
    }
}

/// A recursion budget larger than any chain of blocks the construction can
/// legitimately follow.
fn read_fuel(func: &Function) -> (r: u64)
{
    let nb = func.dfg.blocks.len();
    if nb > 0x3FFF_FFFF {
        u64::MAX
    } else {
        let m = (nb as u64) + 2;
        proof {
            assert(m * m <= 0x4000_0002u64 * 0x4000_0002u64) by (nonlinear_arith)
                requires
                    m <= 0x4000_0001u64,
            ;
        }
        m * m
    }
}

/// Copies a pending-phi list.
fn copy_entry_vec(vs: &Vec<(Variable, Insn)>) -> (r: Vec<(Variable, Insn)>)
    ensures
        r@ == vs@,
{
    let n = vs.len();
    let mut out: Vec<(Variable, Insn)> = Vec::new();
    let mut k: usize = 0;
    while k < n
        invariant
            n == vs@.len(),
            k <= n,
            out@ == vs@.take(k as int),
        decreases n - k,
    {
        out.push(vs[k]);
        proof {
            assert(out@ == vs@.take(k as int + 1));
        }
        k += 1;
    }
    proof {
        assert(vs@.take(n as int) == vs@);
    }
    out
}

/// Copies the block order.
fn copy_block_list(bs: &Vec<Block>) -> (r: Vec<Block>)
    ensures
        r@ == bs@,
{
    let n = bs.len();
    let mut out: Vec<Block> = Vec::new();
    let mut k: usize = 0;
    while k < n
        invariant
            n == bs@.len(),
            k <= n,
            out@ == bs@.take(k as int),
        decreases n - k,
    {
        out.push(bs[k]);
        proof {
            assert(out@ == bs@.take(k as int + 1));
        }
        k += 1;
    }
    proof {
        assert(bs@.take(n as int) == bs@);
    }
    out
}

} // verus!
