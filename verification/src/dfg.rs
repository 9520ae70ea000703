use vstd::prelude::*;

verus! {

use crate::immediate::Immediate;
use crate::global_variable::ConstantValue;
use crate::insn::{first_occurrence, kept_blocks, kept_values, lemma_first_occurrence, lemma_kept, lemma_same_shell_shape, removed_dest_ok, rewrite_insn_args, same_shell, set_insn_arg, shape_ok, subst, subst_all, BinaryOp, BranchInfo, Insn, InsnData};
use crate::module::ModuleCtx;
use crate::types::CompoundTypeData;
use crate::types::Type;
use crate::value::{GlobalVariable, Value, ValueData};

/// An opaque reference to a basic block of a function.
#[derive(Debug, Clone, Copy, PartialEq, Eq, Structural)]
pub struct Block(pub usize);

/// A block node carries no payload of its own: the ordering of blocks and of
/// the instructions inside them lives in the function's layout.
#[derive(Debug, Clone, Copy, PartialEq, Eq, Structural)]
pub struct BlockData {}

impl BlockData {
    pub fn new() -> BlockData {
        BlockData {  }
    }
}

/// A list of instruction handles that is duplicate-free and only mentions
/// instructions below `num_insns`.
pub open spec fn insn_list_ok(l: Seq<Insn>, num_insns: int) -> bool {
    &&& forall|k: int| 0 <= k < l.len() ==> (#[trigger] l[k]).0 < num_insns
    &&& forall|k1: int, k2: int|
        0 <= k1 < l.len() && 0 <= k2 < l.len() && l[k1] == l[k2] ==> k1 == k2
}

/// The per-function arena of blocks, values and instructions, with a user
/// set per value and an interning table for immediates.
#[derive(Debug)]
pub struct DataFlowGraph {
    pub blocks: Vec<BlockData>,
    pub values: Vec<ValueData>,
    pub insns: Vec<InsnData>,
    pub insn_results: Vec<Option<Value>>,
    pub immediates: Vec<(Immediate, Value)>,
    pub users: Vec<Vec<Insn>>,
}

impl DataFlowGraph {
    pub open spec fn num_blocks(self) -> int {
        self.blocks@.len() as int
    }

    pub open spec fn num_values(self) -> int {
        self.values@.len() as int
    }

    pub open spec fn num_insns(self) -> int {
        self.insns@.len() as int
    }

    pub open spec fn valid_value(self, v: Value) -> bool {
        (v.0 as int) < self.num_values()
    }

    pub open spec fn valid_insn(self, i: Insn) -> bool {
        (i.0 as int) < self.num_insns()
    }

    pub open spec fn valid_block(self, b: Block) -> bool {
        (b.0 as int) < self.num_blocks()
    }

    pub open spec fn data_of(self, i: Insn) -> InsnData {
        self.insns@[i.0 as int]
    }

    pub open spec fn value_of(self, v: Value) -> ValueData {
        self.values@[v.0 as int]
    }

    pub open spec fn result_of(self, i: Insn) -> Option<Value> {
        self.insn_results@[i.0 as int]
    }

    pub open spec fn user_list(self, v: Value) -> Seq<Insn> {
        self.users@[v.0 as int]@
    }

    /// `i` is recorded as a user of `v`.
    pub open spec fn is_user(self, v: Value, i: Insn) -> bool {
        self.user_list(v).contains(i)
    }

    /// `v` occurs among the operands of `i`.
    pub open spec fn uses(self, i: Insn, v: Value) -> bool {
        self.data_of(i).args_spec().contains(v)
    }

    /// All values and blocks `data` mentions exist in this graph.
    pub open spec fn insn_refs_valid(self, data: InsnData) -> bool {
        &&& shape_ok(data)
        &&& data.args_spec().len() <= usize::MAX as int
        &&& forall|k: int|
            0 <= k < data.args_spec().len() ==> self.valid_value(#[trigger] data.args_spec()[k])
        &&& forall|k: int|
            0 <= k < data.dests_spec().len() ==> self.valid_block(#[trigger] data.dests_spec()[k])
    }

    /// The central rewrite invariant: an instruction is recorded as a user
    /// of a value exactly when the value occurs among its operands.
    pub open spec fn users_consistent(self) -> bool {
        forall|v: Value, i: Insn|
            #![trigger self.is_user(v, i)]
            #![trigger self.uses(i, v)]
            self.valid_value(v) && self.valid_insn(i) ==> (self.is_user(v, i) <==> self.uses(
                i,
                v,
            ))
    }

    /// One interning entry: the recorded value really is that immediate.
    pub open spec fn imm_entry_ok(self, k: int) -> bool {
        &&& self.valid_value(self.immediates@[k].1)
        &&& self.value_of(self.immediates@[k].1) == (ValueData::Immediate {
            imm: self.immediates@[k].0,
            ty: self.immediates@[k].0.ty_spec(),
        })
    }

    pub open spec fn imm_map_wf(self) -> bool {
        &&& forall|k: int| 0 <= k < self.immediates@.len() ==> #[trigger] self.imm_entry_ok(k)
        &&& forall|k1: int, k2: int|
            0 <= k1 < self.immediates@.len() && 0 <= k2 < self.immediates@.len() && (
            #[trigger] self.immediates@[k1]).0 == (#[trigger] self.immediates@[k2]).0 ==> k1 == k2
    }

    /// One attached-result entry: the value exists and points back at the
    /// instruction.
    pub open spec fn result_entry_ok(self, i: int) -> bool {
        match self.insn_results@[i] {
            Some(v) => self.valid_value(v) && match self.value_of(v) {
                ValueData::Insn { insn, .. } => insn.0 == i,
                _ => false,
            },
            None => true,
        }
    }

    pub open spec fn results_wf(self) -> bool {
        forall|i: int| 0 <= i < self.insns@.len() ==> #[trigger] self.result_entry_ok(i)
    }

    pub open spec fn value_entry_ok(self, v: int) -> bool {
        match self.values@[v] {
            ValueData::Insn { insn, .. } => insn.0 < self.num_insns(),
            _ => true,
        }
    }

    pub open spec fn values_wf(self) -> bool {
        forall|v: int| 0 <= v < self.values@.len() ==> #[trigger] self.value_entry_ok(v)
    }

    /// Well-formedness of the whole graph; every public mutation preserves
    /// it.
    pub open spec fn wf(self) -> bool {
        &&& self.insn_results@.len() == self.insns@.len()
        &&& self.users@.len() == self.values@.len()
        &&& forall|v: int|
            0 <= v < self.users@.len() ==> insn_list_ok(
                #[trigger] self.users@[v]@,
                self.num_insns(),
            )
        &&& self.users_consistent()
        &&& forall|i: int|
            0 <= i < self.insns@.len() ==> self.insn_refs_valid(#[trigger] self.insns@[i])
        &&& self.imm_map_wf()
        &&& self.results_wf()
        &&& self.values_wf()
    }


    pub fn new() -> (r: DataFlowGraph)
        ensures
            r.wf(),
            r.num_blocks() == 0,
            r.num_values() == 0,
            r.num_insns() == 0,
            r.immediates@.len() == 0,
    {
        DataFlowGraph {
            blocks: Vec::new(),
            values: Vec::new(),
            insns: Vec::new(),
            insn_results: Vec::new(),
            immediates: Vec::new(),
            users: Vec::new(),
        }
    }

    /// Allocates a new, unattached block.
    pub fn make_block(&mut self) -> (r: Block)
        requires
            old(self).wf(),
        ensures
            final(self).wf(),
            r.0 == old(self).num_blocks(),
            final(self).blocks@ == old(self).blocks@.push(BlockData {  }),
            final(self).values@ == old(self).values@,
            final(self).insns@ == old(self).insns@,
            final(self).insn_results@ == old(self).insn_results@,
            final(self).immediates@ == old(self).immediates@,
            final(self).users@ == old(self).users@,
    {
        let r = Block(self.blocks.len());
        self.blocks.push(BlockData {  });
        proof {
            assert forall|v: Value, i: Insn|
                #![trigger self.is_user(v, i)]
                #![trigger self.uses(i, v)]
                self.valid_value(v) && self.valid_insn(i) implies (self.is_user(v, i)
                <==> self.uses(i, v)) by {
                assert(old(self).is_user(v, i) <==> old(self).uses(i, v));
                assert(self.user_list(v) == old(self).user_list(v));
                assert(self.data_of(i) == old(self).data_of(i));
            }
            assert forall|k: int| 0 <= k < self.immediates@.len() implies #[trigger] self
                .imm_entry_ok(k) by {
                assert(old(self).imm_entry_ok(k));
            }
            assert forall|i: int| 0 <= i < self.insns@.len() implies #[trigger] self
                .result_entry_ok(i) by {
                assert(old(self).result_entry_ok(i));
            }
            assert forall|w: int| 0 <= w < self.values@.len() implies #[trigger] self
                .value_entry_ok(w) by {
                assert(old(self).value_entry_ok(w));
            }
            assert forall|i: int|
                0 <= i < self.insns@.len() implies self.insn_refs_valid(
                #[trigger] self.insns@[i],
            ) by {
                assert(old(self).insn_refs_valid(old(self).insns@[i]));
                assert forall|k: int|
                    0 <= k < self.insns@[i].dests_spec().len() implies self.valid_block(
                    #[trigger] self.insns@[i].dests_spec()[k],
                ) by {
                    assert(old(self).valid_block(old(self).insns@[i].dests_spec()[k]));
                }
            }
        }
        r
    }

    /// Allocates a new value with the given definition.
    pub fn make_value(&mut self, value: ValueData) -> (r: Value)
        requires
            old(self).wf(),
            match value {
                ValueData::Insn { insn, .. } => insn.0 < old(self).num_insns(),
                _ => true,
            },
        ensures
            final(self).wf(),
            r.0 == old(self).num_values(),
            final(self).values@ == old(self).values@.push(value),
            final(self).users@.len() == old(self).users@.len() + 1,
            forall|w: int|
                0 <= w < old(self).users@.len() ==> final(self).users@[w]@ == old(
                    self,
                ).users@[w]@,
            final(self).user_list(r) == Seq::<Insn>::empty(),
            final(self).blocks@ == old(self).blocks@,
            final(self).insns@ == old(self).insns@,
            final(self).insn_results@ == old(self).insn_results@,
            final(self).immediates@ == old(self).immediates@,
    {
        let r = Value(self.values.len());
        self.values.push(value);
        self.users.push(Vec::new());
        proof {
            assert forall|v: int| 0 <= v < self.users@.len() implies insn_list_ok(
                #[trigger] self.users@[v]@,
                self.num_insns(),
            ) by {
                if v < old(self).users@.len() {
                    assert(self.users@[v]@ == old(self).users@[v]@);
                }
            }
            assert forall|v: Value, i: Insn|
                #![trigger self.is_user(v, i)]
                #![trigger self.uses(i, v)]
                self.valid_value(v) && self.valid_insn(i) implies (self.is_user(v, i)
                <==> self.uses(i, v)) by {
                if (v.0 as int) < old(self).num_values() {
                    assert(self.user_list(v) == old(self).user_list(v));
                    assert(old(self).valid_value(v) && old(self).valid_insn(i));
                    assert(old(self).is_user(v, i) <==> old(self).uses(i, v));
                    assert(self.is_user(v, i) == old(self).is_user(v, i));
                    assert(self.data_of(i) == old(self).data_of(i));
                    assert(self.uses(i, v) == old(self).uses(i, v));
                } else {
                    assert(self.user_list(v) == Seq::<Insn>::empty());
                    assert(!self.is_user(v, i));
                    assert(old(self).insn_refs_valid(old(self).insns@[i.0 as int]));
                    assert(!self.uses(i, v)) by {
                        if self.uses(i, v) {
                            let k = choose|k: int|
                                0 <= k < self.data_of(i).args_spec().len() && self.data_of(
                                    i,
                                ).args_spec()[k] == v;
                            assert(old(self).valid_value(self.data_of(i).args_spec()[k]));
                        }
                    }
                }
            }
            assert forall|k: int| 0 <= k < self.immediates@.len() implies #[trigger] self
                .imm_entry_ok(k) by {
                assert(old(self).imm_entry_ok(k));
            }
            assert forall|i: int| 0 <= i < self.insns@.len() implies #[trigger] self
                .result_entry_ok(i) by {
                assert(old(self).result_entry_ok(i));
            }
            assert forall|i: int|
                0 <= i < self.insns@.len() implies self.insn_refs_valid(
                #[trigger] self.insns@[i],
            ) by {
                assert(old(self).insn_refs_valid(old(self).insns@[i]));
                assert forall|k: int|
                    0 <= k < self.insns@[i].args_spec().len() implies self.valid_value(
                    #[trigger] self.insns@[i].args_spec()[k],
                ) by {
                    assert(old(self).valid_value(old(self).insns@[i].args_spec()[k]));
                }
            }
            assert forall|w: int| 0 <= w < self.values@.len() implies #[trigger] self
                .value_entry_ok(w) by {
                if w < old(self).values@.len() {
                    assert(old(self).value_entry_ok(w));
                }
            }
        }
        r
    }

    /// The data describing the `idx`-th function argument.
    pub fn make_arg_value(&mut self, ty: Type, idx: usize) -> (r: ValueData)
        ensures
            r == (ValueData::Arg { ty, idx }),
    {
        ValueData::Arg { ty, idx }
    }

    /// Records `user` in the user set of `v` (a set: recording twice is the
    /// same as recording once).
    #[verifier::loop_isolation(false)]
    fn add_user_edge(&mut self, v: Value, user: Insn)
        requires
            old(self).users@.len() == old(self).num_values(),
            old(self).valid_value(v),
            old(self).valid_insn(user),
            forall|w: int|
                0 <= w < old(self).users@.len() ==> insn_list_ok(
                    #[trigger] old(self).users@[w]@,
                    old(self).num_insns(),
                ),
        ensures
            final(self).blocks@ == old(self).blocks@,
            final(self).values@ == old(self).values@,
            final(self).insns@ == old(self).insns@,
            final(self).insn_results@ == old(self).insn_results@,
            final(self).immediates@ == old(self).immediates@,
            final(self).users@.len() == old(self).users@.len(),
            forall|w: int|
                0 <= w < final(self).users@.len() ==> insn_list_ok(
                    #[trigger] final(self).users@[w]@,
                    final(self).num_insns(),
                ),
            forall|w: Value, i: Insn|
                #![trigger final(self).is_user(w, i)]
                final(self).valid_value(w) ==> (final(self).is_user(w, i) <==> (old(self).is_user(
                    w,
                    i,
                ) || (w == v && i == user))),
            forall|w: int|
                0 <= w < old(self).users@.len() && w != v.0 as int ==> final(self).users@[w]@
                    == old(self).users@[w]@,
    {
        let list_len = {
            let list = &self.users[v.0];
            list.len()
        };
        let mut k: usize = 0;
        let mut found = false;
        while k < list_len
            invariant
                *self == *old(self),
                old(self).users@.len() == old(self).num_values(),
                old(self).valid_value(v),
                (v.0 as int) < self.users@.len(),
                list_len == self.users@[v.0 as int]@.len(),
                k <= list_len,
                found <==> exists|j: int|
                    0 <= j < k && self.users@[v.0 as int]@[j] == user,
            decreases list_len - k,
        {
            if self.users[v.0][k] == user {
                found = true;
                proof {
                    assert(self.users@[v.0 as int]@[k as int] == user);
                }
            }
            k += 1;
        }
        if !found {
            self.users[v.0].push(user);
            proof {
                let vl = v.0 as int;
                assert(self.users@[vl]@ == old(self).users@[vl]@.push(user));
                assert forall|w: int|
                    0 <= w < self.users@.len() implies insn_list_ok(
                    #[trigger] self.users@[w]@,
                    self.num_insns(),
                ) by {
                    if w != vl {
                        assert(self.users@[w]@ == old(self).users@[w]@);
                    } else {
                        let l = self.users@[vl]@;
                        let o = old(self).users@[vl]@;
                        assert(!o.contains(user));
                        assert forall|k1: int, k2: int|
                            0 <= k1 < l.len() && 0 <= k2 < l.len() && l[k1] == l[k2] implies k1
                            == k2 by {
                            if k1 < o.len() && k2 < o.len() {
                                assert(o[k1] == o[k2]);
                            } else if k1 < o.len() && k2 == o.len() {
                                assert(o.contains(o[k1])) by {
                                    assert(o[k1] == l[k1]);
                                }
                            } else if k2 < o.len() && k1 == o.len() {
                                assert(o.contains(o[k2]));
                            }
                        }
                    }
                }
                assert forall|w: Value, i: Insn|
                    #![trigger self.is_user(w, i)]
                    self.valid_value(w) implies (self.is_user(w, i) <==> (old(self).is_user(w, i)
                    || (w == v && i == user))) by {
                    if w.0 as int != vl {
                        assert(self.user_list(w) == old(self).user_list(w));
                    } else {
                        let l = self.user_list(w);
                        let o = old(self).user_list(w);
                        assert(l == o.push(user));
                        if self.is_user(w, i) {
                            let j = choose|j: int| 0 <= j < l.len() && l[j] == i;
                            if j < o.len() {
                                assert(o.contains(i)) by {
                                    assert(o[j] == i);
                                }
                            }
                        }
                        if o.contains(i) {
                            let j = choose|j: int| 0 <= j < o.len() && o[j] == i;
                            assert(l[j] == i);
                            assert(l.contains(i));
                        }
                        assert(l[o.len() as int] == user);
                        assert(l.contains(user));
                    }
                }
            }
        } else {
            proof {
                let vl = v.0 as int;
                assert(old(self).is_user(v, user)) by {
                    let j = choose|j: int|
                        0 <= j < list_len && self.users@[vl]@[j] == user;
                    assert(old(self).user_list(v)[j] == user);
                }
            }
        }
    }

    /// Removes `user` from the user set of `value`; removing an absent user
    /// changes nothing.
    #[verifier::loop_isolation(false)]
    pub fn remove_user(&mut self, value: Value, user: Insn)
        requires
            old(self).users@.len() == old(self).num_values(),
            old(self).valid_value(value),
            forall|w: int|
                0 <= w < old(self).users@.len() ==> insn_list_ok(
                    #[trigger] old(self).users@[w]@,
                    old(self).num_insns(),
                ),
        ensures
            final(self).blocks@ == old(self).blocks@,
            final(self).values@ == old(self).values@,
            final(self).insns@ == old(self).insns@,
            final(self).insn_results@ == old(self).insn_results@,
            final(self).immediates@ == old(self).immediates@,
            final(self).users@.len() == old(self).users@.len(),
            forall|w: int|
                0 <= w < final(self).users@.len() ==> insn_list_ok(
                    #[trigger] final(self).users@[w]@,
                    final(self).num_insns(),
                ),
            forall|w: Value, i: Insn|
                #![trigger final(self).is_user(w, i)]
                final(self).valid_value(w) ==> (final(self).is_user(w, i) <==> (old(self).is_user(
                    w,
                    i,
                ) && !(w == value && i == user))),
            forall|w: Value, i: Insn|
                #![trigger old(self).is_user(w, i)]
                final(self).valid_value(w) ==> (old(self).is_user(w, i) && !(w == value && i
                    == user) ==> final(self).is_user(w, i)),
            forall|w: int|
                0 <= w < old(self).users@.len() && w != value.0 as int
                    ==> final(self).users@[w]@ == old(self).users@[w]@,
    {
        let list_len = {
            let list = &self.users[value.0];
            list.len()
        };
        let mut k: usize = 0;
        while k < list_len
            invariant
                *self == *old(self),
                old(self).users@.len() == old(self).num_values(),
                old(self).valid_value(value),
                (value.0 as int) < self.users@.len(),
                list_len == self.users@[value.0 as int]@.len(),
                k <= list_len,
                forall|j: int| 0 <= j < k ==> self.users@[value.0 as int]@[j] != user,
            decreases list_len - k,
        {
            if self.users[value.0][k] == user {
                let vl = value.0;
                let last = self.users[vl].len() - 1;
                self.users[vl].swap_remove(k);
                proof {
                    let l = self.users@[vl as int]@;
                    let o = old(self).users@[vl as int]@;
                    assert(insn_list_ok(o, old(self).num_insns()));
                    assert(self.num_insns() == old(self).num_insns());
                    assert(l == o.update(k as int, o[o.len() - 1]).drop_last());
                    assert forall|w: int|
                        0 <= w < self.users@.len() implies insn_list_ok(
                        #[trigger] self.users@[w]@,
                        self.num_insns(),
                    ) by {
                        if w != vl as int {
                            assert(self.users@[w]@ == old(self).users@[w]@);
                        } else {
                            assert forall|k1: int, k2: int|
                                0 <= k1 < l.len() && 0 <= k2 < l.len() && l[k1] == l[k2] implies k1
                                == k2 by {
                                let m1 = if k1 == k as int { o.len() - 1 } else { k1 };
                                let m2 = if k2 == k as int { o.len() - 1 } else { k2 };
                                assert(l[k1] == o[m1]);
                                assert(l[k2] == o[m2]);
                            }
                            assert forall|j: int| 0 <= j < l.len() implies (#[trigger] l[j]).0
                                < self.num_insns() by {
                                let m = if j == k as int { o.len() - 1 } else { j };
                                assert(l[j] == o[m]);
                            }
                        }
                    }
                    assert forall|w: Value, i: Insn|
                        #![trigger self.is_user(w, i)]
                        self.valid_value(w) implies (self.is_user(w, i) <==> (old(self).is_user(
                        w,
                        i,
                    ) && !(w == value && i == user))) by {
                        if w.0 as int != vl as int {
                            assert(self.user_list(w) == old(self).user_list(w));
                        } else {
                            assert(o[k as int] == user);
                            if self.is_user(w, i) {
                                let j = choose|j: int| 0 <= j < l.len() && l[j] == i;
                                let m = if j == k as int { o.len() - 1 } else { j };
                                assert(o[m] == i);
                                assert(o.contains(i));
                                assert(i != user) by {
                                    if i == user {
                                        assert(o[m] == o[k as int]);
                                    }
                                }
                            }
                            if old(self).is_user(w, i) && i != user {
                                let j = choose|j: int| 0 <= j < o.len() && o[j] == i;
                                assert(j != k as int);
                                if j == o.len() - 1 {
                                    assert((k as int) < l.len());
                                    assert(l[k as int] == i);
                                    assert(l.contains(i));
                                } else {
                                    assert(l[j] == i);
                                    assert(l.contains(i));
                                }
                            }
                        }
                    }
                    assert forall|w: Value, i: Insn|
                        #![trigger old(self).is_user(w, i)]
                        self.valid_value(w) implies (old(self).is_user(w, i) && !(w == value && i
                        == user) ==> self.is_user(w, i)) by {
                        if old(self).is_user(w, i) && !(w == value && i == user) {
                            assert(self.is_user(w, i));
                        }
                    }
                }
                return ;
            }
            k += 1;
        }
        proof {
            assert(!old(self).is_user(value, user)) by {
                if old(self).is_user(value, user) {
                    let j = choose|j: int|
                        0 <= j < old(self).user_list(value).len() && old(self).user_list(value)[j]
                            == user;
                    assert(self.users@[value.0 as int]@[j] != user);
                }
            }
        }
    }

    /// Records this instruction as a user of each of its operands.
    #[verifier::loop_isolation(false)]
    pub fn attach_user(&mut self, insn: Insn)
        requires
            old(self).users@.len() == old(self).num_values(),
            old(self).valid_insn(insn),
            old(self).insn_refs_valid(old(self).data_of(insn)),
            forall|w: int|
                0 <= w < old(self).users@.len() ==> insn_list_ok(
                    #[trigger] old(self).users@[w]@,
                    old(self).num_insns(),
                ),
        ensures
            final(self).blocks@ == old(self).blocks@,
            final(self).values@ == old(self).values@,
            final(self).insns@ == old(self).insns@,
            final(self).insn_results@ == old(self).insn_results@,
            final(self).immediates@ == old(self).immediates@,
            final(self).users@.len() == old(self).users@.len(),
            forall|w: int|
                0 <= w < final(self).users@.len() ==> insn_list_ok(
                    #[trigger] final(self).users@[w]@,
                    final(self).num_insns(),
                ),
            forall|w: Value, i: Insn|
                #![trigger final(self).is_user(w, i)]
                final(self).valid_value(w) ==> (final(self).is_user(w, i) <==> (old(self).is_user(
                    w,
                    i,
                ) || (i == insn && old(self).uses(insn, w)))),
    {
        let n = self.insns[insn.0].num_args();
        let mut k: usize = 0;
        while k < n
            invariant
                self.blocks@ == old(self).blocks@,
                self.values@ == old(self).values@,
                self.insns@ == old(self).insns@,
                self.insn_results@ == old(self).insn_results@,
                self.immediates@ == old(self).immediates@,
                self.users@.len() == old(self).users@.len(),
                n == self.data_of(insn).args_spec().len(),
                k <= n,
                forall|w: int|
                    0 <= w < self.users@.len() ==> insn_list_ok(
                        #[trigger] self.users@[w]@,
                        self.num_insns(),
                    ),
                forall|w: Value, i: Insn|
                    #![trigger self.is_user(w, i)]
                    self.valid_value(w) ==> (self.is_user(w, i) <==> (old(self).is_user(w, i) || (
                    i == insn && self.data_of(insn).args_spec().take(k as int).contains(w)))),
            decreases n - k,
        {
            let arg = self.insns[insn.0].arg_at(k);
            self.add_user_edge(arg, insn);
            proof {
                let args = self.data_of(insn).args_spec();
                assert(args.take(k as int + 1) == args.take(k as int).push(args[k as int]));
                assert forall|w: Value, i: Insn|
                    #![trigger self.is_user(w, i)]
                    self.valid_value(w) implies (self.is_user(w, i) <==> (old(self).is_user(w, i)
                    || (i == insn && args.take(k as int + 1).contains(w)))) by {
                    let t = args.take(k as int + 1);
                    let t0 = args.take(k as int);
                    if t.contains(w) {
                        let j = choose|j: int| 0 <= j < t.len() && t[j] == w;
                        if j < t0.len() {
                            assert(t0[j] == w);
                            assert(t0.contains(w));
                        } else {
                            assert(w == args[k as int]);
                        }
                    }
                    if t0.contains(w) {
                        let j = choose|j: int| 0 <= j < t0.len() && t0[j] == w;
                        assert(t[j] == w);
                        assert(t.contains(w));
                    }
                    if w == args[k as int] {
                        assert(t[k as int] == w);
                        assert(t.contains(w));
                    }
                }
            }
            k += 1;
        }
        proof {
            let args = self.data_of(insn).args_spec();
            assert(args.take(n as int) == args);
        }
    }

    /// Allocates a new instruction and records it as a user of each of its
    /// operands.
    pub fn make_insn(&mut self, insn: InsnData) -> (r: Insn)
        requires
            old(self).wf(),
            old(self).insn_refs_valid(insn),
        ensures
            final(self).wf(),
            r.0 == old(self).num_insns(),
            final(self).insns@ == old(self).insns@.push(insn),
            final(self).insn_results@ == old(self).insn_results@.push(None),
            final(self).blocks@ == old(self).blocks@,
            final(self).values@ == old(self).values@,
            final(self).immediates@ == old(self).immediates@,
            final(self).users@.len() == old(self).users@.len(),
            forall|w: Value, i: Insn|
                #![trigger final(self).is_user(w, i)]
                final(self).valid_value(w) ==> (final(self).is_user(w, i) <==> (old(self).is_user(
                    w,
                    i,
                ) || (i == r && insn.args_spec().contains(w)))),
    {
        let r = Insn(self.insns.len());
        self.insns.push(insn);
        self.insn_results.push(None);
        proof {
            assert forall|w: int|
                0 <= w < self.users@.len() implies insn_list_ok(
                #[trigger] self.users@[w]@,
                self.num_insns(),
            ) by {
                assert(insn_list_ok(old(self).users@[w]@, old(self).num_insns()));
            }
            assert forall|w: Value, i: Insn|
                #![trigger self.is_user(w, i)]
                self.valid_value(w) implies (self.is_user(w, i) == old(self).is_user(w, i)) by {
                assert(self.user_list(w) == old(self).user_list(w));
            }
            assert(forall|w: Value|
                self.valid_value(w) ==> !(#[trigger] self.is_user(w, r)));
            assert(self.insn_refs_valid(self.data_of(r)));
        }
        self.attach_user(r);
        proof {
            assert forall|v: Value, i: Insn|
                #![trigger self.is_user(v, i)]
                #![trigger self.uses(i, v)]
                self.valid_value(v) && self.valid_insn(i) implies (self.is_user(v, i)
                <==> self.uses(i, v)) by {
                if i == r {
                    assert(self.is_user(v, i) <==> insn.args_spec().contains(v));
                } else {
                    assert(old(self).valid_insn(i));
                    assert(old(self).is_user(v, i) <==> old(self).uses(i, v));
                    assert(self.data_of(i) == old(self).data_of(i));
                }
            }
            assert forall|k: int| 0 <= k < self.immediates@.len() implies #[trigger] self
                .imm_entry_ok(k) by {
                assert(old(self).imm_entry_ok(k));
            }
            assert forall|i: int| 0 <= i < self.insns@.len() implies #[trigger] self
                .result_entry_ok(i) by {
                if i < old(self).insns@.len() {
                    assert(old(self).result_entry_ok(i));
                }
            }
            assert forall|w: int| 0 <= w < self.values@.len() implies #[trigger] self
                .value_entry_ok(w) by {
                assert(old(self).value_entry_ok(w));
            }
            assert forall|i: int|
                0 <= i < self.insns@.len() implies self.insn_refs_valid(
                #[trigger] self.insns@[i],
            ) by {
                if i < old(self).insns@.len() {
                    assert(old(self).insn_refs_valid(old(self).insns@[i]));
                }
            }
        }
        r
    }

    /// Whether some value is already interned for `imm`, and which.
    pub open spec fn has_imm(self, imm: Immediate) -> bool {
        exists|k: int| 0 <= k < self.immediates@.len() && (#[trigger] self.immediates@[k]).0 == imm
    }

    pub open spec fn imm_lookup(self, imm: Immediate) -> Option<Value> {
        if self.has_imm(imm) {
            Some(
                self.immediates@[choose|k: int|
                    0 <= k < self.immediates@.len() && (#[trigger] self.immediates@[k]).0
                        == imm].1,
            )
        } else {
            None
        }
    }

    /// Interns `imm`: the first call allocates a value, and every later call
    /// with the same constant returns the same handle and leaves the graph
    /// untouched. This is the immediate-interning law.
    #[verifier::loop_isolation(false)]
    pub fn make_imm_value(&mut self, imm: Immediate) -> (r: Value)
        requires
            old(self).wf(),
        ensures
            final(self).wf(),
            final(self).valid_value(r),
            final(self).value_of(r) == (ValueData::Immediate { imm, ty: imm.ty_spec() }),
            final(self).imm_lookup(imm) == Some(r),
            old(self).has_imm(imm) ==> *final(self) == *old(self) && old(self).imm_lookup(imm)
                == Some(r),
            !old(self).has_imm(imm) ==> ({
                &&& r.0 == old(self).num_values()
                &&& final(self).values@ == old(self).values@.push(
                    ValueData::Immediate { imm, ty: imm.ty_spec() },
                )
                &&& final(self).immediates@ == old(self).immediates@.push((imm, r))
            }),
            final(self).num_values() >= old(self).num_values(),
            forall|w: int|
                0 <= w < old(self).users@.len() ==> final(self).users@[w]@ == old(
                    self,
                ).users@[w]@,
            final(self).insns@ == old(self).insns@,
            final(self).blocks@ == old(self).blocks@,
            final(self).insn_results@ == old(self).insn_results@,
    {
        let n = self.immediates.len();
        let mut k: usize = 0;
        while k < n
            invariant
                *self == *old(self),
                n == self.immediates@.len(),
                k <= n,
                forall|j: int| 0 <= j < k ==> (#[trigger] self.immediates@[j]).0 != imm,
            decreases n - k,
        {
            let entry = self.immediates[k];
            if entry.0 == imm {
                proof {
                    assert(self.immediates@[k as int].0 == imm);
                    assert(self.has_imm(imm));
                    let j = choose|j: int|
                        0 <= j < self.immediates@.len() && (#[trigger] self.immediates@[j]).0
                            == imm;
                    assert(j == k as int);
                    assert(self.imm_entry_ok(k as int));
                }
                return entry.1;
            }
            k += 1;
        }
        proof {
            assert(!self.has_imm(imm));
        }
        let ty = imm.ty();
        let r = self.make_value(ValueData::Immediate { imm, ty });
        self.immediates.push((imm, r));
        proof {
            assert forall|j: int| 0 <= j < self.immediates@.len() implies #[trigger] self
                .imm_entry_ok(j) by {
                if j < old(self).immediates@.len() {
                    assert(old(self).imm_entry_ok(j));
                }
            }
            assert forall|v: Value, i: Insn|
                #![trigger self.is_user(v, i)]
                #![trigger self.uses(i, v)]
                self.valid_value(v) && self.valid_insn(i) implies (self.is_user(v, i)
                <==> self.uses(i, v)) by {
                if (v.0 as int) < old(self).num_values() {
                    assert(old(self).is_user(v, i) <==> old(self).uses(i, v));
                    assert(self.user_list(v) == old(self).user_list(v));
                    assert(self.data_of(i) == old(self).data_of(i));
                } else {
                    assert(self.user_list(v) == Seq::<Insn>::empty());
                    assert(!self.uses(i, v)) by {
                        if self.uses(i, v) {
                            let kk = choose|kk: int|
                                0 <= kk < self.data_of(i).args_spec().len() && self.data_of(
                                    i,
                                ).args_spec()[kk] == v;
                            assert(old(self).insn_refs_valid(old(self).insns@[i.0 as int]));
                            assert(old(self).valid_value(self.data_of(i).args_spec()[kk]));
                        }
                    }
                }
            }
            assert forall|i: int| 0 <= i < self.insns@.len() implies #[trigger] self
                .result_entry_ok(i) by {
                assert(old(self).result_entry_ok(i));
            }
            assert forall|w: int| 0 <= w < self.values@.len() implies #[trigger] self
                .value_entry_ok(w) by {
                if w < old(self).values@.len() {
                    assert(old(self).value_entry_ok(w));
                }
            }
            assert forall|i: int|
                0 <= i < self.insns@.len() implies self.insn_refs_valid(
                #[trigger] self.insns@[i],
            ) by {
                assert(old(self).insn_refs_valid(old(self).insns@[i]));
                assert forall|kk: int|
                    0 <= kk < self.insns@[i].args_spec().len() implies self.valid_value(
                    #[trigger] self.insns@[i].args_spec()[kk],
                ) by {
                    assert(old(self).valid_value(old(self).insns@[i].args_spec()[kk]));
                }
            }
            assert(self.immediates@[self.immediates@.len() - 1].0 == imm);
            assert(self.has_imm(imm));
            let j = choose|j: int|
                0 <= j < self.immediates@.len() && (#[trigger] self.immediates@[j]).0 == imm;
            assert(j == self.immediates@.len() - 1);
        }
        r
    }

    /// The result type an instruction of this data would have, with the
    /// pointer type of an `alloca` already interned in `ctx`.
    pub fn make_result(&mut self, ctx: &mut ModuleCtx, insn: Insn) -> (r: Option<ValueData>)
        requires
            old(self).wf(),
            old(ctx).wf(),
            old(self).valid_insn(insn),
            match old(self).data_of(insn) {
                InsnData::Alloca { ty } => old(ctx).type_store.is_valid(ty),
                _ => true,
            },
        ensures
            *final(self) == *old(self),
            final(ctx).wf(),
            final(ctx).target == old(ctx).target,
            final(ctx).gv_store == old(ctx).gv_store,
            final(ctx).declared_funcs == old(ctx).declared_funcs,
            forall|j: int|
                0 <= j < old(ctx).type_store.compounds@.len()
                    ==> final(ctx).type_store.compounds@[j] == old(ctx).type_store.compounds@[j],
            final(ctx).type_store.num_compounds() >= old(ctx).type_store.num_compounds(),
            r is None <==> result_kind_none(old(self).data_of(insn)),
            r matches Some(vd) ==> (vd matches ValueData::Insn { insn: i2, ty } && i2 == insn
                && result_ty_ok(*old(self), *final(ctx), old(self).data_of(insn), ty)),
    {
        proof {
            assert(self.insn_refs_valid(self.insns@[insn.0 as int]));
        }
        let data_ty: Option<Type> = match &self.insns[insn.0] {
            InsnData::Unary { arg, .. } => {
                proof {
                    assert(self.data_of(insn).args_spec()[0] == *arg);
                    assert(self.valid_value(*arg));
                }
                Some(self.value_ty(*arg))
            },
            InsnData::Binary { code, lhs, .. } => if code.is_cmp() {
                Some(Type::I1)
            } else {
                proof {
                    assert(self.data_of(insn).args_spec()[0] == *lhs);
                    assert(self.valid_value(*lhs));
                }
                Some(self.value_ty(*lhs))
            },
            InsnData::Cast { ty, .. } => Some(*ty),
            InsnData::Load { ty, .. } => Some(*ty),
            InsnData::Alloca { ty } => Some(ctx.type_store.make_ptr(*ty)),
            InsnData::Phi { ty, .. } => Some(*ty),
            InsnData::Call { ret_ty, .. } => *ret_ty,
            _ => None,
        };
        match data_ty {
            Some(ty) => Some(ValueData::Insn { insn, ty }),
            None => None,
        }
    }

    /// Attaches an allocated result value to its instruction; at most one
    /// per instruction.
    pub fn attach_result(&mut self, insn: Insn, value: Value)
        requires
            old(self).wf(),
            old(self).valid_insn(insn),
            old(self).valid_value(value),
            old(self).result_of(insn) is None,
            old(self).value_of(value) matches ValueData::Insn { insn: i2, .. } && i2 == insn,
        ensures
            final(self).wf(),
            final(self).insn_results@ == old(self).insn_results@.update(
                insn.0 as int,
                Some(value),
            ),
            final(self).blocks@ == old(self).blocks@,
            final(self).values@ == old(self).values@,
            final(self).insns@ == old(self).insns@,
            final(self).immediates@ == old(self).immediates@,
            final(self).users@ == old(self).users@,
    {
        self.insn_results[insn.0] = Some(value);
        proof {
            assert forall|i: int| 0 <= i < self.insns@.len() implies #[trigger] self
                .result_entry_ok(i) by {
                if i != insn.0 as int {
                    assert(old(self).result_entry_ok(i));
                }
            }
            assert forall|v: Value, i: Insn|
                #![trigger self.is_user(v, i)]
                #![trigger self.uses(i, v)]
                self.valid_value(v) && self.valid_insn(i) implies (self.is_user(v, i)
                <==> self.uses(i, v)) by {
                assert(old(self).is_user(v, i) <==> old(self).uses(i, v));
                assert(self.user_list(v) == old(self).user_list(v));
                assert(self.data_of(i) == old(self).data_of(i));
            }
            assert forall|k: int| 0 <= k < self.immediates@.len() implies #[trigger] self
                .imm_entry_ok(k) by {
                assert(old(self).imm_entry_ok(k));
            }
            assert forall|w: int| 0 <= w < self.values@.len() implies #[trigger] self
                .value_entry_ok(w) by {
                assert(old(self).value_entry_ok(w));
            }
        }
    }

    /// A value standing for the address of a global: its type is pointer to
    /// the global's declared type.
    pub fn make_global_value(&mut self, ctx: &mut ModuleCtx, gv: GlobalVariable) -> (r: Value)
        requires
            old(self).wf(),
            old(ctx).wf(),
            old(ctx).gv_store.is_valid(gv),
            old(ctx).type_store.is_valid(old(ctx).gv_store.data_spec(gv).ty),
        ensures
            final(self).wf(),
            final(ctx).wf(),
            final(ctx).target == old(ctx).target,
            final(ctx).gv_store == old(ctx).gv_store,
            final(ctx).declared_funcs == old(ctx).declared_funcs,
            final(self).valid_value(r),
            r.0 == old(self).num_values(),
            final(self).value_of(r) matches ValueData::Global { gv: g2, ty } && g2 == gv && (
            ty matches Type::Compound(c) && final(ctx).type_store.data_spec(c)
                == CompoundTypeData::Ptr(old(ctx).gv_store.data_spec(gv).ty)),
            final(self).insns@ == old(self).insns@,
            final(self).blocks@ == old(self).blocks@,
            final(self).insn_results@ == old(self).insn_results@,
            final(self).immediates@ == old(self).immediates@,
    {
        let gv_ty = ctx.gv_store.ty(gv);
        let ty = ctx.type_store.make_ptr(gv_ty);
        self.make_value(ValueData::Global { gv, ty })
    }

    pub fn insn_data(&self, insn: Insn) -> (r: &InsnData)
        requires
            self.valid_insn(insn),
        ensures
            *r == self.data_of(insn),
    {
        &self.insns[insn.0]
    }

    pub fn value_data(&self, value: Value) -> (r: &ValueData)
        requires
            self.valid_value(value),
        ensures
            *r == self.value_of(value),
    {
        &self.values[value.0]
    }

    pub fn has_side_effect(&self, insn: Insn) -> (r: bool)
        requires
            self.valid_insn(insn),
        ensures
            r == self.data_of(insn).has_side_effect_spec(),
    {
        match &self.insns[insn.0] {
            InsnData::Store { .. } | InsnData::Alloca { .. } | InsnData::Call { .. }
                | InsnData::Jump { .. } | InsnData::Branch { .. } | InsnData::BrTable { .. }
                | InsnData::Return { .. } => true,
            _ => false,
        }
    }

    pub fn may_trap(&self, insn: Insn) -> (r: bool)
        requires
            self.valid_insn(insn),
        ensures
            r == self.data_of(insn).may_trap_spec(),
    {
        match &self.insns[insn.0] {
            InsnData::Binary { code, .. } => *code == BinaryOp::Udiv || *code == BinaryOp::Sdiv,
            InsnData::Load { .. } | InsnData::Store { .. } => true,
            _ => false,
        }
    }

    /// The instructions currently using `value`, in no particular order.
    pub fn users(&self, value: Value) -> (r: &Vec<Insn>)
        requires
            self.valid_value(value),
            self.users@.len() == self.num_values(),
        ensures
            r@ == self.user_list(value),
    {
        &self.users[value.0]
    }

    pub fn users_num(&self, value: Value) -> (r: usize)
        requires
            self.valid_value(value),
            self.users@.len() == self.num_values(),
        ensures
            r == self.user_list(value).len(),
    {
        self.users[value.0].len()
    }

    pub fn user(&self, value: Value, idx: usize) -> (r: Insn)
        requires
            self.valid_value(value),
            self.users@.len() == self.num_values(),
            idx < self.user_list(value).len(),
        ensures
            r == self.user_list(value)[idx as int],
    {
        self.users[value.0][idx]
    }

    pub fn block_data(&self, block: Block) -> (r: &BlockData)
        requires
            self.valid_block(block),
        ensures
            *r == self.blocks@[block.0 as int],
    {
        &self.blocks[block.0]
    }

    /// The instruction a value is the result of, if it is one.
    pub fn value_insn(&self, value: Value) -> (r: Option<Insn>)
        requires
            self.valid_value(value),
        ensures
            r == (match self.value_of(value) {
                ValueData::Insn { insn, .. } => Some(insn),
                _ => None,
            }),
    {
        match &self.values[value.0] {
            ValueData::Insn { insn, .. } => Some(*insn),
            _ => None,
        }
    }

    pub fn value_ty(&self, value: Value) -> (r: Type)
        requires
            self.valid_value(value),
        ensures
            r == self.value_of(value).ty_spec(),
    {
        match &self.values[value.0] {
            ValueData::Insn { ty, .. } => *ty,
            ValueData::Arg { ty, .. } => *ty,
            ValueData::Immediate { ty, .. } => *ty,
            ValueData::Global { ty, .. } => *ty,
        }
    }

    pub fn insn_result(&self, insn: Insn) -> (r: Option<Value>)
        requires
            self.valid_insn(insn),
            self.insn_results@.len() == self.insns@.len(),
        ensures
            r == self.result_of(insn),
    {
        self.insn_results[insn.0]
    }

    pub fn insn_result_ty(&self, insn: Insn) -> (r: Option<Type>)
        requires
            self.wf(),
            self.valid_insn(insn),
        ensures
            r == (match self.result_of(insn) {
                Some(v) => Some(self.value_of(v).ty_spec()),
                None => None,
            }),
    {
        match self.insn_results[insn.0] {
            Some(v) => {
                proof {
                    assert(self.result_entry_ok(insn.0 as int));
                }
                Some(self.value_ty(v))
            },
            None => None,
        }
    }

    /// The constant behind a value: an interned immediate directly, or a
    /// constant global whose initializer is a scalar immediate.
    pub fn value_imm(&self, ctx: &ModuleCtx, value: Value) -> (r: Option<Immediate>)
        requires
            self.valid_value(value),
            match self.value_of(value) {
                ValueData::Global { gv, .. } => ctx.gv_store.is_valid(gv),
                _ => true,
            },
        ensures
            r == value_imm_spec(*self, *ctx, value),
    {
        match &self.values[value.0] {
            ValueData::Immediate { imm, .. } => Some(*imm),
            ValueData::Global { gv, .. } => {
                if !ctx.gv_store.is_const(*gv) {
                    return None;
                }
                match ctx.gv_store.init_data(*gv) {
                    Some(c) => match c {
                        ConstantValue::Immediate(data) => Some(*data),
                        _ => None,
                    },
                    None => None,
                }
            },
            _ => None,
        }
    }

    /// Returns `true` if `value` is a constant.
    pub fn is_imm(&self, ctx: &ModuleCtx, value: Value) -> (r: bool)
        requires
            self.valid_value(value),
            match self.value_of(value) {
                ValueData::Global { gv, .. } => ctx.gv_store.is_valid(gv),
                _ => true,
            },
        ensures
            r == (value_imm_spec(*self, *ctx, value) is Some),
    {
        self.value_imm(ctx, value).is_some()
    }

    /// Returns `true` if `value` is a function argument.
    pub fn is_arg(&self, value: Value) -> (r: bool)
        requires
            self.valid_value(value),
        ensures
            r == (self.value_of(value) matches ValueData::Arg { .. }),
    {
        match &self.values[value.0] {
            ValueData::Arg { .. } => true,
            _ => false,
        }
    }

    pub fn value_gv(&self, value: Value) -> (r: Option<GlobalVariable>)
        requires
            self.valid_value(value),
        ensures
            r == (match self.value_of(value) {
                ValueData::Global { gv, .. } => Some(gv),
                _ => None,
            }),
    {
        match &self.values[value.0] {
            ValueData::Global { gv, .. } => Some(*gv),
            _ => None,
        }
    }

    /// The operands of an instruction, in order.
    pub fn insn_args(&self, insn: Insn) -> (r: Vec<Value>)
        requires
            self.wf(),
            self.valid_insn(insn),
        ensures
            r@ == self.data_of(insn).args_spec(),
    {
        let n = self.insn_args_num(insn);
        let mut out: Vec<Value> = Vec::new();
        let mut k: usize = 0;
        while k < n
            invariant
                self.wf(),
                self.valid_insn(insn),
                n == self.data_of(insn).args_spec().len(),
                k <= n,
                out@ == self.data_of(insn).args_spec().take(k as int),
            decreases n - k,
        {
            out.push(self.insns[insn.0].arg_at(k));
            proof {
                assert(out@ == self.data_of(insn).args_spec().take(k as int + 1));
            }
            k += 1;
        }
        proof {
            assert(self.data_of(insn).args_spec().take(n as int) == self.data_of(
                insn,
            ).args_spec());
        }
        out
    }

    pub fn insn_args_num(&self, insn: Insn) -> (r: usize)
        requires
            self.wf(),
            self.valid_insn(insn),
        ensures
            r == self.data_of(insn).args_spec().len(),
    {
        proof {
            assert(self.insn_refs_valid(self.insns@[insn.0 as int]));
        }
        self.insns[insn.0].num_args()
    }

    pub fn insn_arg(&self, insn: Insn, idx: usize) -> (r: Value)
        requires
            self.wf(),
            self.valid_insn(insn),
            idx < self.data_of(insn).args_spec().len(),
        ensures
            r == self.data_of(insn).args_spec()[idx as int],
    {
        self.insns[insn.0].arg_at(idx)
    }

    pub fn is_phi(&self, insn: Insn) -> (r: bool)
        requires
            self.valid_insn(insn),
        ensures
            r == self.data_of(insn).is_phi_spec(),
    {
        self.insns[insn.0].is_phi_data()
    }

    pub fn is_return(&self, insn: Insn) -> (r: bool)
        requires
            self.valid_insn(insn),
        ensures
            r == self.data_of(insn).is_return_spec(),
    {
        match &self.insns[insn.0] {
            InsnData::Return { .. } => true,
            _ => false,
        }
    }

    pub fn is_branch(&self, insn: Insn) -> (r: bool)
        requires
            self.valid_insn(insn),
        ensures
            r == self.data_of(insn).is_branch_spec(),
    {
        self.insns[insn.0].is_branch_data()
    }

    /// Swaps in entirely new instruction data, keeping the result value (if
    /// any) and its identity, and moves the user edges from the old operands
    /// to the new ones.
    #[verifier::loop_isolation(false)]
    pub fn replace_insn(&mut self, insn: Insn, insn_data: InsnData) -> (nothing: ())
        requires
            old(self).wf(),
            old(self).valid_insn(insn),
            old(self).insn_refs_valid(insn_data),
        ensures
            final(self).wf(),
            final(self).insns@ == old(self).insns@.update(insn.0 as int, insn_data),
            final(self).blocks@ == old(self).blocks@,
            final(self).values@ == old(self).values@,
            final(self).insn_results@ == old(self).insn_results@,
            final(self).immediates@ == old(self).immediates@,
            final(self).users@.len() == old(self).users@.len(),
            forall|w: Value, i: Insn|
                #![trigger final(self).is_user(w, i)]
                final(self).valid_value(w) ==> (final(self).is_user(w, i) <==> (if i == insn {
                    insn_data.args_spec().contains(w)
                } else {
                    old(self).is_user(w, i)
                })),
    {
        let n = self.insn_args_num(insn);
        let mut k: usize = 0;
        while k < n
            invariant
                self.blocks@ == old(self).blocks@,
                self.values@ == old(self).values@,
                self.insns@ == old(self).insns@,
                self.insn_results@ == old(self).insn_results@,
                self.immediates@ == old(self).immediates@,
                self.users@.len() == old(self).users@.len(),
                n == self.data_of(insn).args_spec().len(),
                k <= n,
                forall|w: int|
                    0 <= w < self.users@.len() ==> insn_list_ok(
                        #[trigger] self.users@[w]@,
                        self.num_insns(),
                    ),
                forall|w: Value, i: Insn|
                    #![trigger self.is_user(w, i)]
                    self.valid_value(w) ==> (self.is_user(w, i) <==> (old(self).is_user(w, i)
                        && !(i == insn && self.data_of(insn).args_spec().take(
                        k as int,
                    ).contains(w)))),
            decreases n - k,
        {
            let arg = self.insns[insn.0].arg_at(k);
            self.remove_user(arg, insn);
            proof {
                let args = self.data_of(insn).args_spec();
                assert(args.take(k as int + 1) == args.take(k as int).push(args[k as int]));
                assert forall|w: Value, i: Insn|
                    #![trigger self.is_user(w, i)]
                    self.valid_value(w) implies (self.is_user(w, i) <==> (old(self).is_user(w, i)
                    && !(i == insn && args.take(k as int + 1).contains(w)))) by {
                    let t = args.take(k as int + 1);
                    let t0 = args.take(k as int);
                    if t.contains(w) {
                        let j = choose|j: int| 0 <= j < t.len() && t[j] == w;
                        if j < t0.len() {
                            assert(t0[j] == w);
                            assert(t0.contains(w));
                        } else {
                            assert(w == args[k as int]);
                        }
                    }
                    if t0.contains(w) {
                        let j = choose|j: int| 0 <= j < t0.len() && t0[j] == w;
                        assert(t[j] == w);
                        assert(t.contains(w));
                    }
                    if w == args[k as int] {
                        assert(t[k as int] == w);
                        assert(t.contains(w));
                    }
                }
            }
            k += 1;
        }
        proof {
            let args = self.data_of(insn).args_spec();
            assert(args.take(n as int) == args);
            assert forall|w: Value, i: Insn|
                #![trigger self.is_user(w, i)]
                self.valid_value(w) implies (self.is_user(w, i) <==> (old(self).is_user(w, i) && i
                != insn)) by {
                if i == insn && old(self).is_user(w, i) {
                    assert(old(self).valid_insn(i));
                    assert(old(self).uses(i, w));
                    assert(args.contains(w));
                }
            }
        }
        let ghost mid: DataFlowGraph = *self;
        self.insns[insn.0] = insn_data;
        proof {
            assert forall|w: Value, i: Insn|
                #![trigger self.is_user(w, i)]
                self.valid_value(w) implies (self.is_user(w, i) <==> (old(self).is_user(w, i) && i
                != insn)) by {
                assert(self.user_list(w) == mid.user_list(w));
                assert(mid.is_user(w, i) <==> (old(self).is_user(w, i) && i != insn));
            }
            assert(self.insn_refs_valid(self.data_of(insn)));
        }
        self.attach_user(insn);
        proof {
            assert forall|v: Value, i: Insn|
                #![trigger self.is_user(v, i)]
                #![trigger self.uses(i, v)]
                self.valid_value(v) && self.valid_insn(i) implies (self.is_user(v, i)
                <==> self.uses(i, v)) by {
                if i == insn {
                    assert(self.data_of(i) == insn_data);
                } else {
                    assert(old(self).valid_insn(i));
                    assert(old(self).is_user(v, i) <==> old(self).uses(i, v));
                    assert(self.data_of(i) == old(self).data_of(i));
                }
            }
            assert forall|k2: int| 0 <= k2 < self.immediates@.len() implies #[trigger] self
                .imm_entry_ok(k2) by {
                assert(old(self).imm_entry_ok(k2));
            }
            assert forall|i: int| 0 <= i < self.insns@.len() implies #[trigger] self
                .result_entry_ok(i) by {
                assert(old(self).result_entry_ok(i));
            }
            assert forall|w: int| 0 <= w < self.values@.len() implies #[trigger] self
                .value_entry_ok(w) by {
                assert(old(self).value_entry_ok(w));
            }
            assert forall|i: int|
                0 <= i < self.insns@.len() implies self.insn_refs_valid(
                #[trigger] self.insns@[i],
            ) by {
                if i != insn.0 as int {
                    assert(old(self).insn_refs_valid(old(self).insns@[i]));
                }
            }
        }
    }

    /// Substitutes one operand position; the old operand keeps its user
    /// edge exactly when it still occurs somewhere else in the instruction.
    #[verifier::loop_isolation(false)]
    pub fn replace_insn_arg(&mut self, insn: Insn, new_arg: Value, idx: usize) -> (r: Value)
        requires
            old(self).wf(),
            old(self).valid_insn(insn),
            old(self).valid_value(new_arg),
            (idx as int) < old(self).data_of(insn).args_spec().len(),
        ensures
            final(self).wf(),
            r == old(self).data_of(insn).args_spec()[idx as int],
            final(self).insns@.len() == old(self).insns@.len(),
            final(self).data_of(insn).args_spec() == old(self).data_of(insn).args_spec().update(
                idx as int,
                new_arg,
            ),
            same_shell(final(self).data_of(insn), old(self).data_of(insn)),
            forall|j: int|
                0 <= j < old(self).insns@.len() && j != insn.0 as int ==> final(self).insns@[j]
                    == old(self).insns@[j],
            final(self).blocks@ == old(self).blocks@,
            final(self).values@ == old(self).values@,
            final(self).insn_results@ == old(self).insn_results@,
            final(self).immediates@ == old(self).immediates@,
            final(self).users@.len() == old(self).users@.len(),
            forall|w: Value, i: Insn|
                #![trigger final(self).is_user(w, i)]
                final(self).valid_value(w) && i != insn ==> (final(self).is_user(w, i) == old(
                    self,
                ).is_user(w, i)),
    {
        let old_arg = self.insns[insn.0].arg_at(idx);
        proof {
            assert(old(self).insn_refs_valid(old(self).insns@[insn.0 as int]));
        }
        self.add_user_edge(new_arg, insn);
        let ghost s1: DataFlowGraph = *self;
        set_insn_arg(&mut self.insns[insn.0], idx, new_arg);
        let ghost s2: DataFlowGraph = *self;
        proof {
            assert(self.data_of(insn).args_spec() =~= old(self).data_of(insn).args_spec().update(
                idx as int,
                new_arg,
            ));
            assert(s2.users@ == s1.users@);
        }
        let num = self.insns[insn.0].num_args();
        let mut k: usize = 0;
        let mut still_there = false;
        while k < num
            invariant
                *self == s2,
                old(self).valid_insn(insn),
                num == self.data_of(insn).args_spec().len(),
                k <= num,
                still_there <==> exists|j: int|
                    0 <= j < k && self.data_of(insn).args_spec()[j] == old_arg,
            decreases num - k,
        {
            if self.insns[insn.0].arg_at(k) == old_arg {
                still_there = true;
                proof {
                    assert(self.data_of(insn).args_spec()[k as int] == old_arg);
                }
            }
            k += 1;
        }
        proof {
            if still_there {
                let j = choose|j: int|
                    0 <= j < self.data_of(insn).args_spec().len() && self.data_of(
                        insn,
                    ).args_spec()[j] == old_arg;
                assert(self.data_of(insn).args_spec().contains(old_arg));
            } else {
                assert(!self.data_of(insn).args_spec().contains(old_arg)) by {
                    if self.data_of(insn).args_spec().contains(old_arg) {
                        let j = choose|j: int|
                            0 <= j < self.data_of(insn).args_spec().len() && self.data_of(
                                insn,
                            ).args_spec()[j] == old_arg;
                        assert(false);
                    }
                }
            }
            assert(old(self).valid_value(old_arg)) by {
                assert(old(self).data_of(insn).args_spec()[idx as int] == old_arg);
            }
        }
        if !still_there {
            self.remove_user(old_arg, insn);
        }
        proof {
            let s0 = *old(self);
            let newargs = self.data_of(insn).args_spec();
            let oldargs = s0.data_of(insn).args_spec();
            assert(newargs == oldargs.update(idx as int, new_arg));
            assert forall|w: Value, j: Insn|
                #![trigger self.is_user(w, j)]
                self.valid_value(w) implies (self.is_user(w, j) <==> ((s0.is_user(w, j) || (w
                == new_arg && j == insn)) && !(!still_there && w == old_arg && j == insn))) by {
                assert(s1.is_user(w, j) <==> (s0.is_user(w, j) || (w == new_arg && j == insn)));
                if still_there {
                    assert(self.users@ == s2.users@);
                    assert(self.is_user(w, j) == s1.is_user(w, j));
                } else {
                    assert(self.is_user(w, j) <==> (s2.is_user(w, j) && !(w == old_arg && j
                        == insn)));
                    assert(s2.is_user(w, j) == s1.is_user(w, j));
                }
            }
            if !still_there {
                assert(old_arg != new_arg) by {
                    assert(newargs[idx as int] == new_arg);
                }
            }
            assert forall|v: Value, i: Insn|
                #![trigger self.is_user(v, i)]
                #![trigger self.uses(i, v)]
                self.valid_value(v) && self.valid_insn(i) implies (self.is_user(v, i)
                <==> self.uses(i, v)) by {
                assert(s0.valid_insn(i));
                assert(s0.valid_value(v));
                lemma_user_iff(s0, v, i);
                if i != insn {
                    assert(self.data_of(i) == s0.data_of(i));
                    assert(self.is_user(v, i) <==> ((s0.is_user(v, i) || (v == new_arg && i
                        == insn)) && !(!still_there && v == old_arg && i == insn)));
                } else {
                    assert(self.is_user(v, i) <==> ((s0.is_user(v, i) || v == new_arg) && !(
                    !still_there && v == old_arg)));
                    if self.uses(i, v) {
                        let j = choose|j: int| 0 <= j < newargs.len() && newargs[j] == v;
                        if j == idx as int {
                            assert(v == new_arg);
                        } else {
                            assert(oldargs[j] == v);
                            assert(oldargs.contains(v));
                            assert(s0.uses(i, v));
                        }
                        if !still_there {
                            assert(v != old_arg);
                        }
                        assert(self.is_user(v, i));
                    }
                    if self.is_user(v, i) {
                        if v == new_arg {
                            assert(newargs[idx as int] == v);
                            assert(newargs.contains(v));
                        } else {
                            assert(s0.uses(i, v));
                            let j = choose|j: int| 0 <= j < oldargs.len() && oldargs[j] == v;
                            if j != idx as int {
                                assert(newargs[j] == v);
                                assert(newargs.contains(v));
                            } else {
                                assert(v == oldargs[idx as int]);
                                assert(v == old_arg);
                                assert(still_there);
                                assert(newargs.contains(v));
                            }
                        }
                        assert(self.uses(i, v));
                    }
                }
            }
            assert forall|w: int|
                0 <= w < self.users@.len() implies insn_list_ok(
                #[trigger] self.users@[w]@,
                self.num_insns(),
            ) by {}
            assert forall|k2: int| 0 <= k2 < self.immediates@.len() implies #[trigger] self
                .imm_entry_ok(k2) by {
                assert(s0.imm_entry_ok(k2));
            }
            assert forall|i: int| 0 <= i < self.insns@.len() implies #[trigger] self
                .result_entry_ok(i) by {
                assert(s0.result_entry_ok(i));
            }
            assert forall|w: int| 0 <= w < self.values@.len() implies #[trigger] self
                .value_entry_ok(w) by {
                assert(s0.value_entry_ok(w));
            }
            assert forall|i: int|
                0 <= i < self.insns@.len() implies self.insn_refs_valid(
                #[trigger] self.insns@[i],
            ) by {
                assert(s0.insn_refs_valid(s0.insns@[i]));
                if i == insn.0 as int {
                    lemma_same_shell_shape(self.insns@[i], s0.insns@[i]);
                    assert forall|kk: int|
                        0 <= kk < newargs.len() implies self.valid_value(
                        #[trigger] newargs[kk],
                    ) by {
                        if kk != idx as int {
                            assert(newargs[kk] == oldargs[kk]);
                        }
                    }
                    assert(self.insns@[i].dests_spec() == s0.insns@[i].dests_spec());
                } else {
                    assert forall|kk: int|
                        0 <= kk < self.insns@[i].args_spec().len() implies self.valid_value(
                        #[trigger] self.insns@[i].args_spec()[kk],
                    ) by {
                        assert(s0.valid_value(s0.insns@[i].args_spec()[kk]));
                    }
                }
            }
        }
        old_arg
    }

    /// Redirects every use of `value` to `alias`: each user instruction has
    /// its occurrences of `value` rewritten to `alias`, and the user set of
    /// `value` is drained into that of `alias`. Redirecting a value to
    /// itself changes nothing.
    #[verifier::loop_isolation(false)]
    pub fn change_to_alias(&mut self, value: Value, alias: Value)
        requires
            old(self).wf(),
            old(self).valid_value(value),
            old(self).valid_value(alias),
        ensures
            final(self).wf(),
            final(self).blocks@ == old(self).blocks@,
            final(self).values@ == old(self).values@,
            final(self).insn_results@ == old(self).insn_results@,
            final(self).immediates@ == old(self).immediates@,
            final(self).insns@.len() == old(self).insns@.len(),
            final(self).users@.len() == old(self).users@.len(),
            value == alias ==> *final(self) == *old(self),
            value != alias ==> final(self).user_list(value).len() == 0,
            forall|j: Insn|
                #![trigger final(self).data_of(j)]
                old(self).valid_insn(j) ==> (if old(self).is_user(value, j) && value != alias {
                    rewritten_to(
                        final(self).data_of(j),
                        old(self).data_of(j),
                        value,
                        alias,
                    )
                } else {
                    final(self).data_of(j) == old(self).data_of(j)
                }),
            forall|w: Value|
                old(self).valid_value(w) && w != value && w != alias
                    ==> final(self).user_list(w) == old(self).user_list(w),
            value != alias ==> (forall|i: Insn|
                #![trigger final(self).is_user(alias, i)]
                final(self).is_user(alias, i) <==> (old(self).is_user(alias, i) || old(
                    self,
                ).is_user(value, i))),
    {
        if value.0 == alias.0 {
            return ;
        }
        let ghost s0: DataFlowGraph = *old(self);
        let ghost full: Seq<Insn> = old(self).user_list(value);
        while self.users[value.0].len() > 0
            invariant
                self.wf(),
                value != alias,
                s0.wf(),
                s0.valid_value(value),
                s0.valid_value(alias),
                full == s0.user_list(value),
                self.blocks@ == s0.blocks@,
                self.values@ == s0.values@,
                self.insn_results@ == s0.insn_results@,
                self.immediates@ == s0.immediates@,
                self.insns@.len() == s0.insns@.len(),
                self.users@.len() == s0.users@.len(),
                self.user_list(value).len() <= full.len(),
                self.user_list(value) == full.take(self.user_list(value).len() as int),
                forall|j: Insn|
                    #![trigger self.data_of(j)]
                    s0.valid_insn(j) ==> (if full.skip(
                        self.user_list(value).len() as int,
                    ).contains(j) {
                        rewritten_to(self.data_of(j), s0.data_of(j), value, alias)
                    } else {
                        self.data_of(j) == s0.data_of(j)
                    }),
                forall|w: Value|
                    s0.valid_value(w) && w != value && w != alias ==> self.user_list(w)
                        == s0.user_list(w),
                forall|i: Insn|
                    #![trigger self.is_user(alias, i)]
                    self.is_user(alias, i) <==> (s0.is_user(alias, i) || full.skip(
                        self.user_list(value).len() as int,
                    ).contains(i)),
            decreases self.users@[value.0 as int]@.len(),
        {
            let ghost sh: DataFlowGraph = *self;
            let ghost m: int = sh.user_list(value).len() as int;
            let i_opt = self.users[value.0].pop();
            let i = i_opt.unwrap();
            proof {
                assert(sh.user_list(value) == full.take(m));
                assert(i == full.take(m)[m - 1]);
                assert(i == full[m - 1]);
                assert(self.user_list(value) == full.take(m).drop_last());
                assert(self.user_list(value) =~= full.take(m - 1));
                assert(s0.valid_insn(i)) by {
                    assert(insn_list_ok(full, s0.num_insns()));
                    assert(full[m - 1].0 < s0.num_insns());
                }
                assert(!full.skip(m).contains(i)) by {
                    if full.skip(m).contains(i) {
                        let j = choose|j: int| 0 <= j < full.skip(m).len() && full.skip(m)[j] == i;
                        assert(full[j + m] == i);
                        assert(insn_list_ok(full, s0.num_insns()));
                        assert(j + m == m - 1);
                    }
                }
                assert(sh.data_of(i) == s0.data_of(i));
                assert(self.insns@ == sh.insns@);
                assert(self.valid_insn(i));
                assert(sh.is_user(value, i)) by {
                    assert(full.take(m)[m - 1] == i);
                    assert(sh.user_list(value).contains(i));
                }
                lemma_user_iff(sh, value, i);
                assert(sh.uses(i, value));
                assert(!self.user_list(value).contains(i)) by {
                    if self.user_list(value).contains(i) {
                        let p = choose|p: int|
                            0 <= p < full.take(m - 1).len() && #[trigger] full.take(m - 1)[p]
                                == i;
                        assert(full[p] == i);
                        assert(insn_list_ok(full, s0.num_insns()));
                        assert(p == m - 1);
                    }
                }
            }
            let ghost sa: DataFlowGraph = *self;
            rewrite_insn_args(&mut self.insns[i.0], value, alias);
            let ghost sb: DataFlowGraph = *self;
            proof {
                assert(sb.users@ == sa.users@);
                assert(sb.data_of(i).args_spec() == subst_all(sh.data_of(i).args_spec(), value,
                    alias));
                assert(s0.insn_refs_valid(s0.insns@[i.0 as int]));
                assert forall|w: int|
                    0 <= w < self.users@.len() implies insn_list_ok(
                    #[trigger] self.users@[w]@,
                    self.num_insns(),
                ) by {
                    if w == value.0 as int {
                        let l = self.users@[w]@;
                        let o = sh.users@[w]@;
                        assert(l == o.drop_last());
                        assert(insn_list_ok(o, sh.num_insns()));
                        assert forall|p: int| 0 <= p < l.len() implies (#[trigger] l[p]).0
                            < self.num_insns() by {
                            assert(l[p] == o[p]);
                        }
                        assert forall|p1: int, p2: int|
                            0 <= p1 < l.len() && 0 <= p2 < l.len() && l[p1] == l[p2] implies p1
                            == p2 by {
                            assert(o[p1] == l[p1] && o[p2] == l[p2]);
                        }
                    } else {
                        assert(self.users@[w]@ == sh.users@[w]@);
                        assert(insn_list_ok(sh.users@[w]@, sh.num_insns()));
                    }
                }
                assert(self.valid_value(alias));
                assert(self.valid_insn(i));
            }
            self.add_user_edge(alias, i);
            proof {
                let mm: int = self.user_list(value).len() as int;
                assert(self.user_list(value) == sa.user_list(value)) by {
                    assert(value != alias);
                }
                assert(mm == m - 1);
                assert(self.user_list(value) == full.take(mm));
                assert forall|j: Insn|
                    #![trigger self.data_of(j)]
                    s0.valid_insn(j) implies (if full.skip(mm).contains(j) {
                    rewritten_to(self.data_of(j), s0.data_of(j), value, alias)
                } else {
                    self.data_of(j) == s0.data_of(j)
                }) by {
                    assert(full.skip(mm)[0] == full[mm]);
                    if j == i {
                        assert(full.skip(mm).contains(i)) by {
                            assert(full.skip(mm)[0] == i);
                        }
                        assert(rewritten_to(self.data_of(i), s0.data_of(i), value, alias));
                    } else {
                        assert(self.data_of(j) == sh.data_of(j));
                        assert(full.skip(mm).contains(j) <==> full.skip(m).contains(j)) by {
                            if full.skip(mm).contains(j) {
                                let p = choose|p: int|
                                    0 <= p < full.skip(mm).len() && full.skip(mm)[p] == j;
                                assert(p != 0);
                                assert(full.skip(m)[p - 1] == j);
                                assert(full.skip(m).contains(j));
                            }
                            if full.skip(m).contains(j) {
                                let p = choose|p: int|
                                    0 <= p < full.skip(m).len() && full.skip(m)[p] == j;
                                assert(full.skip(mm)[p + 1] == j);
                                assert(full.skip(mm).contains(j));
                            }
                        }
                    }
                }
                assert forall|i2: Insn|
                    #![trigger self.is_user(alias, i2)]
                    self.is_user(alias, i2) <==> (s0.is_user(alias, i2) || full.skip(mm).contains(
                        i2,
                    )) by {
                    assert(self.is_user(alias, i2) <==> (sa.is_user(alias, i2) || i2 == i));
                    assert(sa.user_list(alias) == sh.user_list(alias));
                    assert(sh.is_user(alias, i2) <==> (s0.is_user(alias, i2) || full.skip(
                        m,
                    ).contains(i2)));
                    assert(full.skip(mm)[0] == i);
                    if i2 == i {
                        assert(full.skip(mm).contains(i));
                    } else {
                        assert(full.skip(mm).contains(i2) <==> full.skip(m).contains(i2)) by {
                            if full.skip(mm).contains(i2) {
                                let p = choose|p: int|
                                    0 <= p < full.skip(mm).len() && full.skip(mm)[p] == i2;
                                assert(p != 0);
                                assert(full.skip(m)[p - 1] == i2);
                            }
                            if full.skip(m).contains(i2) {
                                let p = choose|p: int|
                                    0 <= p < full.skip(m).len() && full.skip(m)[p] == i2;
                                assert(full.skip(mm)[p + 1] == i2);
                            }
                        }
                    }
                }
                assert forall|v2: Value, j: Insn|
                    #![trigger self.is_user(v2, j)]
                    #![trigger self.uses(j, v2)]
                    self.valid_value(v2) && self.valid_insn(j) implies (self.is_user(v2, j)
                    <==> self.uses(j, v2)) by {
                    assert(sh.valid_value(v2) && sh.valid_insn(j));
                    lemma_user_iff(sh, v2, j);
                    if j == i {
                        crate::insn::lemma_subst_all_contains(
                            sh.data_of(i).args_spec(),
                            value,
                            alias,
                            v2,
                        );
                        if v2 == value {
                            assert(!self.uses(j, v2));
                            assert(self.user_list(value) == full.take(mm));
                            assert(!self.is_user(value, i)) by {
                                if self.is_user(value, i) {
                                    let p = choose|p: int|
                                        0 <= p < full.take(mm).len() && full.take(mm)[p] == i;
                                    assert(full[p] == i);
                                    assert(insn_list_ok(full, s0.num_insns()));
                                    assert(p == m - 1);
                                }
                            }
                        } else if v2 == alias {
                            assert(self.uses(j, v2)) by {
                                assert(sh.uses(i, value));
                                assert(self.data_of(i).args_spec().contains(alias));
                            }
                            assert(self.is_user(alias, i));
                        } else {
                            assert(self.uses(j, v2) == sh.uses(j, v2));
                            assert(self.is_user(v2, j) <==> sa.is_user(v2, j));
                            assert(sa.user_list(v2) == sh.user_list(v2));
                        }
                    } else {
                        assert(self.data_of(j) == sh.data_of(j));
                        if v2 == value {
                            assert(self.is_user(value, j) <==> sh.is_user(value, j)) by {
                                assert(self.user_list(value) == full.take(mm));
                                assert(sh.user_list(value) == full.take(m));
                                if self.is_user(value, j) {
                                    let p = choose|p: int|
                                        0 <= p < full.take(mm).len() && full.take(mm)[p] == j;
                                    assert(full.take(m)[p] == j);
                                    assert(sh.user_list(value).contains(j));
                                }
                                if sh.is_user(value, j) {
                                    let p = choose|p: int|
                                        0 <= p < full.take(m).len() && full.take(m)[p] == j;
                                    assert(full[p] == j);
                                    assert(p != m - 1) by {
                                        if p == m - 1 {
                                            assert(full[p] == i);
                                        }
                                    }
                                    assert(full.take(mm)[p] == j);
                                    assert(self.user_list(value).contains(j));
                                }
                            }
                        } else if v2 == alias {
                            assert(self.is_user(alias, j) <==> (sa.is_user(alias, j) || j == i));
                            assert(sa.user_list(alias) == sh.user_list(alias));
                        } else {
                            assert(self.is_user(v2, j) <==> sa.is_user(v2, j));
                            assert(sa.user_list(v2) == sh.user_list(v2));
                        }
                    }
                }
                assert forall|k2: int| 0 <= k2 < self.immediates@.len() implies #[trigger] self
                    .imm_entry_ok(k2) by {
                    assert(sh.imm_entry_ok(k2));
                }
                assert forall|i2: int| 0 <= i2 < self.insns@.len() implies #[trigger] self
                    .result_entry_ok(i2) by {
                    assert(sh.result_entry_ok(i2));
                }
                assert forall|w: int| 0 <= w < self.values@.len() implies #[trigger] self
                    .value_entry_ok(w) by {
                    assert(sh.value_entry_ok(w));
                }
                assert forall|i2: int|
                    0 <= i2 < self.insns@.len() implies self.insn_refs_valid(
                    #[trigger] self.insns@[i2],
                ) by {
                    assert(sh.insn_refs_valid(sh.insns@[i2]));
                    if i2 == i.0 as int {
                        lemma_same_shell_shape(self.insns@[i2], sh.insns@[i2]);
                        crate::insn::lemma_subst_all(sh.data_of(i).args_spec(), value, alias);
                        assert forall|kk: int|
                            0 <= kk < self.insns@[i2].args_spec().len() implies self.valid_value(
                            #[trigger] self.insns@[i2].args_spec()[kk],
                        ) by {
                            assert(self.insns@[i2].args_spec()[kk] == subst(
                                sh.insns@[i2].args_spec()[kk],
                                value,
                                alias,
                            ));
                        }
                        assert(self.insns@[i2].dests_spec() == sh.insns@[i2].dests_spec());
                    } else {
                        assert forall|kk: int|
                            0 <= kk < self.insns@[i2].args_spec().len() implies self.valid_value(
                            #[trigger] self.insns@[i2].args_spec()[kk],
                        ) by {
                            assert(sh.valid_value(sh.insns@[i2].args_spec()[kk]));
                        }
                    }
                }
                assert forall|w: Value|
                    s0.valid_value(w) && w != value && w != alias implies self.user_list(w)
                    == s0.user_list(w) by {
                    assert(self.user_list(w) == sa.user_list(w));
                    assert(sa.user_list(w) == sh.user_list(w));
                }
            }
        }
        proof {
            assert(self.user_list(value).len() == 0);
            assert(full.skip(0) == full);
            assert forall|j: Insn|
                #![trigger self.data_of(j)]
                s0.valid_insn(j) implies (if s0.is_user(value, j) {
                rewritten_to(self.data_of(j), s0.data_of(j), value, alias)
            } else {
                self.data_of(j) == s0.data_of(j)
            }) by {
                assert(full.skip(0).contains(j) <==> s0.is_user(value, j));
            }
        }
    }

    /// The blocks a phi currently takes its entries from.
    pub fn phi_blocks(&self, insn: Insn) -> (r: &Vec<Block>)
        requires
            self.valid_insn(insn),
            self.data_of(insn).is_phi_spec(),
        ensures
            self.data_of(insn) matches InsnData::Phi { blocks, .. } && r@ == blocks@,
    {
        match &self.insns[insn.0] {
            InsnData::Phi { blocks, .. } => blocks,
            _ => unreached(),
        }
    }

    /// Appends one `(value, block)` entry to a phi and records the user
    /// edge.
    pub fn append_phi_arg(&mut self, insn: Insn, value: Value, block: Block)
        requires
            old(self).wf(),
            old(self).valid_insn(insn),
            old(self).valid_value(value),
            old(self).valid_block(block),
            old(self).data_of(insn).is_phi_spec(),
            old(self).data_of(insn).args_spec().len() < usize::MAX as int,
        ensures
            final(self).wf(),
            old(self).data_of(insn) matches InsnData::Phi { values: ov, blocks: ob, ty: oty }
                && final(self).data_of(insn) matches InsnData::Phi {
                values: nv,
                blocks: nb,
                ty: nty,
            } && nv@ == ov@.push(value) && nb@ == ob@.push(block) && nty == oty,
            forall|j: int|
                0 <= j < old(self).insns@.len() && j != insn.0 as int ==> final(self).insns@[j]
                    == old(self).insns@[j],
            final(self).insns@.len() == old(self).insns@.len(),
            final(self).blocks@ == old(self).blocks@,
            final(self).values@ == old(self).values@,
            final(self).insn_results@ == old(self).insn_results@,
            final(self).immediates@ == old(self).immediates@,
            final(self).users@.len() == old(self).users@.len(),
            forall|w: Value, i: Insn|
                #![trigger final(self).is_user(w, i)]
                final(self).valid_value(w) ==> (final(self).is_user(w, i) <==> (old(self).is_user(
                    w,
                    i,
                ) || (i == insn && w == value))),
    {
        let mut d: InsnData = InsnData::Return { arg: None };
        core::mem::swap(&mut self.insns[insn.0], &mut d);
        let d2: InsnData = match d {
            InsnData::Phi { values, blocks, ty } => {
                let mut values = values;
                let mut blocks = blocks;
                values.push(value);
                blocks.push(block);
                InsnData::Phi { values, blocks, ty }
            },
            other => other,
        };
        self.insns[insn.0] = d2;
        proof {
            assert(self.data_of(insn).args_spec() == old(self).data_of(insn).args_spec().push(
                value,
            ));
        }
        self.add_user_edge(value, insn);
        proof {
            let s0 = *old(self);
            let newargs = self.data_of(insn).args_spec();
            let oldargs = s0.data_of(insn).args_spec();
            assert forall|v2: Value, j: Insn|
                #![trigger self.is_user(v2, j)]
                #![trigger self.uses(j, v2)]
                self.valid_value(v2) && self.valid_insn(j) implies (self.is_user(v2, j)
                <==> self.uses(j, v2)) by {
                lemma_user_iff(s0, v2, j);
                if j == insn {
                    if self.uses(j, v2) {
                        let k = choose|k: int| 0 <= k < newargs.len() && newargs[k] == v2;
                        if k < oldargs.len() {
                            assert(oldargs[k] == v2);
                            assert(oldargs.contains(v2));
                        } else {
                            assert(v2 == value);
                        }
                        assert(self.is_user(v2, j));
                    }
                    if self.is_user(v2, j) {
                        if v2 == value {
                            assert(newargs[newargs.len() - 1] == v2);
                            assert(newargs.contains(v2));
                        } else {
                            assert(s0.uses(j, v2));
                            let k = choose|k: int| 0 <= k < oldargs.len() && oldargs[k] == v2;
                            assert(newargs[k] == v2);
                            assert(newargs.contains(v2));
                        }
                    }
                } else {
                    assert(self.data_of(j) == s0.data_of(j));
                }
            }
            assert forall|k2: int| 0 <= k2 < self.immediates@.len() implies #[trigger] self
                .imm_entry_ok(k2) by {
                assert(old(self).imm_entry_ok(k2));
            }
            assert forall|i2: int| 0 <= i2 < self.insns@.len() implies #[trigger] self
                .result_entry_ok(i2) by {
                assert(old(self).result_entry_ok(i2));
            }
            assert forall|w: int| 0 <= w < self.values@.len() implies #[trigger] self
                .value_entry_ok(w) by {
                assert(old(self).value_entry_ok(w));
            }
            assert forall|i2: int|
                0 <= i2 < self.insns@.len() implies self.insn_refs_valid(
                #[trigger] self.insns@[i2],
            ) by {
                assert(s0.insn_refs_valid(s0.insns@[i2]));
                if i2 == insn.0 as int {
                    assert(shape_ok(self.insns@[i2]));
                    assert forall|kk: int|
                        0 <= kk < self.insns@[i2].args_spec().len() implies self.valid_value(
                        #[trigger] self.insns@[i2].args_spec()[kk],
                    ) by {
                        if kk < oldargs.len() {
                            assert(self.insns@[i2].args_spec()[kk] == oldargs[kk]);
                        }
                    }
                    assert forall|kk: int|
                        0 <= kk < self.insns@[i2].dests_spec().len() implies self.valid_block(
                        #[trigger] self.insns@[i2].dests_spec()[kk],
                    ) by {
                        assert(self.insns@[i2].dests_spec() == Seq::<Block>::empty());
                    }
                } else {
                    assert forall|kk: int|
                        0 <= kk < self.insns@[i2].args_spec().len() implies self.valid_value(
                        #[trigger] self.insns@[i2].args_spec()[kk],
                    ) by {
                        assert(s0.valid_value(s0.insns@[i2].args_spec()[kk]));
                    }
                }
            }
        }
    }

    /// Removes the phi entry that flows in through `from` (the first, when
    /// several do) and hands back its value; the value keeps its user edge
    /// exactly when it still occurs in the phi.
    #[verifier::loop_isolation(false)]
    pub fn remove_phi_arg(&mut self, insn: Insn, from: Block) -> (r: Value)
        requires
            old(self).wf(),
            old(self).valid_insn(insn),
            old(self).data_of(insn) matches InsnData::Phi { blocks, .. } && blocks@.contains(
                from,
            ),
        ensures
            final(self).wf(),
            ({
                let pos = first_occurrence(
                    (match old(self).data_of(insn) {
                        InsnData::Phi { blocks, .. } => blocks@,
                        _ => Seq::<Block>::empty(),
                    }),
                    from,
                );
                &&& old(self).data_of(insn) matches InsnData::Phi { values: ov, blocks: ob, ty: oty }
                    && final(self).data_of(insn) matches InsnData::Phi {
                    values: nv,
                    blocks: nb,
                    ty: nty,
                } && nv@ == ov@.remove(pos) && nb@ == ob@.remove(pos) && nty == oty && r
                    == ov@[pos]
            }),
            forall|j: int|
                0 <= j < old(self).insns@.len() && j != insn.0 as int ==> final(self).insns@[j]
                    == old(self).insns@[j],
            final(self).insns@.len() == old(self).insns@.len(),
            final(self).blocks@ == old(self).blocks@,
            final(self).values@ == old(self).values@,
            final(self).insn_results@ == old(self).insn_results@,
            final(self).immediates@ == old(self).immediates@,
            final(self).users@.len() == old(self).users@.len(),
    {
        let (new_data, removed, ghost_pos) = {
            let mut pos: usize = 0;
            let mut nv: Vec<Value> = Vec::new();
            let mut nb: Vec<Block> = Vec::new();
            match &self.insns[insn.0] {
                InsnData::Phi { values, blocks, ty } => {
                    let n = blocks.len();
                    let mut k: usize = 0;
                    let mut seen = false;
                    proof {
                        assert(self.insn_refs_valid(self.insns@[insn.0 as int]));
                        assert(shape_ok(self.data_of(insn)));
                        assert(blocks@.len() == values@.len());
                    }
                    while k < n
                        invariant
                            n == blocks@.len(),
                            k <= n,
                            seen ==> 0 <= pos < k && blocks@[pos as int] == from,
                            seen ==> forall|j: int| 0 <= j < pos ==> blocks@[j] != from,
                            !seen ==> forall|j: int| 0 <= j < k ==> blocks@[j] != from,
                        decreases n - k,
                    {
                        if !seen && blocks[k] == from {
                            seen = true;
                            pos = k;
                        }
                        k += 1;
                    }
                    proof {
                        assert(seen) by {
                            if !seen {
                                let j = choose|j: int|
                                    0 <= j < blocks@.len() && blocks@[j] == from;
                                assert(blocks@[j] != from);
                            }
                        }
                        lemma_first_occurrence(blocks@, from, pos as int);
                    }
                    let nvals = values.len();
                    let mut k2: usize = 0;
                    while k2 < nvals
                        invariant
                            nvals == values@.len(),
                            nvals == blocks@.len(),
                            (pos as int) < nvals,
                            k2 <= nvals,
                            nv@ == drop_at_prefix(values@, pos as int, k2 as int),
                            nb@ == drop_at_prefix(blocks@, pos as int, k2 as int),
                        decreases nvals - k2,
                    {
                        if k2 != pos {
                            nv.push(values[k2]);
                            nb.push(blocks[k2]);
                        }
                        proof {
                            assert(nv@ =~= drop_at_prefix(values@, pos as int, k2 as int + 1));
                            assert(nb@ =~= drop_at_prefix(blocks@, pos as int, k2 as int + 1));
                        }
                        k2 += 1;
                    }
                    proof {
                        assert(nv@ =~= values@.remove(pos as int));
                        assert(nb@ =~= blocks@.remove(pos as int));
                    }
                    (InsnData::Phi { values: nv, blocks: nb, ty: *ty }, values[pos], Ghost(
                        pos as int,
                    ))
                },
                _ => unreached(),
            }
        };
        proof {
            let pos = ghost_pos@;
            let oldargs = self.data_of(insn).args_spec();
            assert(self.insn_refs_valid(self.insns@[insn.0 as int]));
            assert(new_data.args_spec() == oldargs.remove(pos));
            assert forall|kk: int|
                0 <= kk < new_data.args_spec().len() implies self.valid_value(
                #[trigger] new_data.args_spec()[kk],
            ) by {
                if kk < pos {
                    assert(new_data.args_spec()[kk] == oldargs[kk]);
                } else {
                    assert(new_data.args_spec()[kk] == oldargs[kk + 1]);
                }
            }
            assert(new_data.dests_spec() == Seq::<Block>::empty());
        }
        self.replace_insn(insn, new_data);
        removed
    }

    /// Classifies a terminator and lists its destinations, default first.
    #[verifier::loop_isolation(false)]
    pub fn analyze_branch(&self, insn: Insn) -> (r: BranchInfo)
        requires
            self.wf(),
            self.valid_insn(insn),
        ensures
            r.dests_of() == self.data_of(insn).dests_spec(),
            r is NotBranch <==> !self.data_of(insn).is_branch_spec(),
    {
        match &self.insns[insn.0] {
            InsnData::Jump { dest } => BranchInfo::Jump { dest: *dest },
            InsnData::Branch { cond, then_dest, else_dest } => BranchInfo::Br {
                cond: *cond,
                then_dest: *then_dest,
                else_dest: *else_dest,
            },
            InsnData::BrTable { cond, table_blocks, default, .. } => {
                let n = table_blocks.len();
                let mut table: Vec<Block> = Vec::new();
                let mut k: usize = 0;
                while k < n
                    invariant
                        n == table_blocks@.len(),
                        k <= n,
                        table@ == table_blocks@.take(k as int),
                    decreases n - k,
                {
                    table.push(table_blocks[k]);
                    proof {
                        assert(table@ == table_blocks@.take(k as int + 1));
                    }
                    k += 1;
                }
                proof {
                    assert(table_blocks@.take(n as int) == table_blocks@);
                }
                BranchInfo::BrTable { cond: *cond, default: *default, table }
            },
            _ => BranchInfo::NotBranch,
        }
    }

    /// Edits a terminator so that `dest` is no longer among its targets;
    /// a two-way branch collapses to a jump, and a branch table collapses
    /// to a jump once a single destination remains.
    #[verifier::loop_isolation(false)]
    pub fn remove_branch_dest(&mut self, insn: Insn, dest: Block)
        requires
            old(self).wf(),
            old(self).valid_insn(insn),
            match old(self).data_of(insn) {
                InsnData::Branch { then_dest, else_dest, .. } => then_dest == dest || else_dest
                    == dest,
                InsnData::BrTable { .. } => true,
                _ => false,
            },
        ensures
            final(self).wf(),
            removed_dest_ok(final(self).data_of(insn), old(self).data_of(insn), dest),
            forall|j: int|
                0 <= j < old(self).insns@.len() && j != insn.0 as int ==> final(self).insns@[j]
                    == old(self).insns@[j],
            final(self).insns@.len() == old(self).insns@.len(),
            final(self).blocks@ == old(self).blocks@,
            final(self).values@ == old(self).values@,
            final(self).insn_results@ == old(self).insn_results@,
            final(self).immediates@ == old(self).immediates@,
            final(self).users@.len() == old(self).users@.len(),
    {
        proof {
            assert(self.insn_refs_valid(self.insns@[insn.0 as int]));
        }
        let new_data: InsnData = match &self.insns[insn.0] {
            InsnData::Branch { cond, then_dest, else_dest } => {
                let _ = cond;
                if *then_dest == dest {
                    InsnData::Jump { dest: *else_dest }
                } else {
                    InsnData::Jump { dest: *then_dest }
                }
            },
            InsnData::BrTable { cond, table_values, table_blocks, default } => {
                let matches_default = match default {
                    Some(d) => *d == dest,
                    None => false,
                };
                if matches_default {
                    if table_blocks.len() == 1 {
                        InsnData::Jump { dest: table_blocks[0] }
                    } else {
                        let tv = copy_value_vec(table_values);
                        let tb = copy_block_vec(table_blocks);
                        InsnData::BrTable {
                            cond: *cond,
                            table_values: tv,
                            table_blocks: tb,
                            default: None,
                        }
                    }
                } else {
                    let n = table_blocks.len();
                    proof {
                        assert(shape_ok(self.data_of(insn)));
                        assert(table_values@.len() == n);
                    }
                    let mut tv: Vec<Value> = Vec::new();
                    let mut tb: Vec<Block> = Vec::new();
                    let mut k: usize = 0;
                    while k < n
                        invariant
                            n == table_blocks@.len(),
                            n == table_values@.len(),
                            k <= n,
                            tv@ == kept_values(
                                table_values@.take(k as int),
                                table_blocks@.take(k as int),
                                dest,
                            ),
                            tb@ == kept_blocks(table_blocks@.take(k as int), dest),
                        decreases n - k,
                    {
                        if table_blocks[k] != dest {
                            tv.push(table_values[k]);
                            tb.push(table_blocks[k]);
                        }
                        proof {
                            assert(table_values@.take(k as int + 1).drop_last()
                                == table_values@.take(k as int));
                            assert(table_blocks@.take(k as int + 1).drop_last()
                                == table_blocks@.take(k as int));
                            assert(table_values@.take(k as int + 1).last()
                                == table_values@[k as int]);
                            assert(table_blocks@.take(k as int + 1).last()
                                == table_blocks@[k as int]);
                        }
                        k += 1;
                    }
                    proof {
                        assert(table_values@.take(n as int) == table_values@);
                        assert(table_blocks@.take(n as int) == table_blocks@);
                    }
                    let remaining_default = *default;
                    if remaining_default.is_none() && tb.len() == 1 {
                        InsnData::Jump { dest: tb[0] }
                    } else if remaining_default.is_some() && tb.len() == 0 {
                        InsnData::Jump { dest: remaining_default.unwrap() }
                    } else {
                        InsnData::BrTable {
                            cond: *cond,
                            table_values: tv,
                            table_blocks: tb,
                            default: remaining_default,
                        }
                    }
                }
            },
            _ => unreached(),
        };
        proof {
            let oldd = self.data_of(insn);
            assert(removed_dest_ok(new_data, oldd, dest));
            match oldd {
                InsnData::BrTable { table_values: tv0, table_blocks: tb0, default, .. } => {
                    lemma_kept(tv0@, tb0@, dest);
                    assert forall|kk: int|
                        0 <= kk < new_data.args_spec().len() implies self.valid_value(
                        #[trigger] new_data.args_spec()[kk],
                    ) by {
                        let a = new_data.args_spec()[kk];
                        assert(new_data.args_spec().contains(a));
                        if kk == 0 && !(new_data matches InsnData::Jump { .. }) {
                            assert(a == oldd.args_spec()[0]);
                        } else {
                            if oldd.args_spec().contains(a) {
                            } else {
                                match new_data {
                                    InsnData::BrTable { table_values: ntv, .. } => {
                                        let p = kk - 1;
                                        if ntv@ == tv0@ {
                                            assert(a == oldd.args_spec()[kk]);
                                        } else {
                                            assert(ntv@.contains(a)) by {
                                                assert(ntv@[p] == a);
                                            }
                                            assert(tv0@.contains(a));
                                            let q = choose|q: int|
                                                0 <= q < tv0@.len() && tv0@[q] == a;
                                            assert(oldd.args_spec()[q + 1] == a);
                                        }
                                    },
                                    _ => {},
                                }
                            }
                            assert(oldd.args_spec().contains(a));
                            let q = choose|q: int|
                                0 <= q < oldd.args_spec().len() && oldd.args_spec()[q] == a;
                            assert(self.valid_value(oldd.args_spec()[q]));
                        }
                    }
                    assert forall|kk: int|
                        0 <= kk < new_data.dests_spec().len() implies self.valid_block(
                        #[trigger] new_data.dests_spec()[kk],
                    ) by {
                        let b = new_data.dests_spec()[kk];
                        assert(oldd.dests_spec().contains(b)) by {
                            lemma_dest_membership(new_data, oldd, dest, kk);
                        }
                        let q = choose|q: int|
                            0 <= q < oldd.dests_spec().len() && oldd.dests_spec()[q] == b;
                        assert(self.valid_block(oldd.dests_spec()[q]));
                    }
                },
                InsnData::Branch { then_dest, else_dest, .. } => {
                    assert forall|kk: int|
                        0 <= kk < new_data.dests_spec().len() implies self.valid_block(
                        #[trigger] new_data.dests_spec()[kk],
                    ) by {
                        assert(oldd.dests_spec()[0] == then_dest);
                        assert(oldd.dests_spec()[1] == else_dest);
                        assert(self.valid_block(then_dest) && self.valid_block(else_dest));
                    }
                },
                _ => {},
            }
        }
        self.replace_insn(insn, new_data);
    }

    /// Renames one destination of a terminator; operands and user sets are
    /// untouched.
    pub fn rewrite_branch_dest(&mut self, insn: Insn, from: Block, to: Block)
        requires
            old(self).wf(),
            old(self).valid_insn(insn),
            old(self).valid_block(to),
            old(self).data_of(insn).is_branch_spec(),
        ensures
            final(self).wf(),
            final(self).data_of(insn).dests_spec() =~= old(self).data_of(insn).dests_spec().map_values(
                |b: Block| if b == from { to } else { b },
            ),
            final(self).data_of(insn).args_spec() == old(self).data_of(insn).args_spec(),
            forall|j: int|
                0 <= j < old(self).insns@.len() && j != insn.0 as int ==> final(self).insns@[j]
                    == old(self).insns@[j],
            final(self).insns@.len() == old(self).insns@.len(),
            final(self).blocks@ == old(self).blocks@,
            final(self).values@ == old(self).values@,
            final(self).insn_results@ == old(self).insn_results@,
            final(self).immediates@ == old(self).immediates@,
            final(self).users@.len() == old(self).users@.len(),
    {
        proof {
            assert(self.insn_refs_valid(self.insns@[insn.0 as int]));
        }
        let new_data: InsnData = match &self.insns[insn.0] {
            InsnData::Jump { dest } => InsnData::Jump {
                dest: if *dest == from {
                    to
                } else {
                    *dest
                },
            },
            InsnData::Branch { cond, then_dest, else_dest } => InsnData::Branch {
                cond: *cond,
                then_dest: if *then_dest == from {
                    to
                } else {
                    *then_dest
                },
                else_dest: if *else_dest == from {
                    to
                } else {
                    *else_dest
                },
            },
            InsnData::BrTable { cond, table_values, table_blocks, default } => {
                let tv = copy_value_vec(table_values);
                let n = table_blocks.len();
                let mut tb: Vec<Block> = Vec::new();
                let mut k: usize = 0;
                while k < n
                    invariant
                        n == table_blocks@.len(),
                        k <= n,
                        tb@.len() == k,
                        forall|j: int|
                            0 <= j < k ==> tb@[j] == (if table_blocks@[j] == from {
                                to
                            } else {
                                table_blocks@[j]
                            }),
                    decreases n - k,
                {
                    if table_blocks[k] == from {
                        tb.push(to);
                    } else {
                        tb.push(table_blocks[k]);
                    }
                    k += 1;
                }
                let nd = match default {
                    Some(d) => if *d == from {
                        Some(to)
                    } else {
                        Some(*d)
                    },
                    None => None,
                };
                InsnData::BrTable { cond: *cond, table_values: tv, table_blocks: tb, default: nd }
            },
            _ => unreached(),
        };
        proof {
            let oldd = self.data_of(insn);
            assert(new_data.args_spec() =~= oldd.args_spec());
            assert forall|kk: int|
                0 <= kk < new_data.args_spec().len() implies self.valid_value(
                #[trigger] new_data.args_spec()[kk],
            ) by {
                assert(new_data.args_spec()[kk] == oldd.args_spec()[kk]);
            }
            assert(new_data.dests_spec() =~= oldd.dests_spec().map_values(
                |b: Block| if b == from { to } else { b },
            ));
            assert forall|kk: int|
                0 <= kk < new_data.dests_spec().len() implies self.valid_block(
                #[trigger] new_data.dests_spec()[kk],
            ) by {
                if new_data.dests_spec()[kk] != to {
                    assert(new_data.dests_spec()[kk] == oldd.dests_spec()[kk]);
                }
            }
        }
        self.replace_insn(insn, new_data);
    }
}


/// The first `k` entries of `s` with position `pos` (when already passed)
/// taken out.
pub open spec fn drop_at_prefix<T>(s: Seq<T>, pos: int, k: int) -> Seq<T> {
    if k <= pos {
        s.take(k)
    } else {
        s.take(pos) + s.subrange(pos + 1, k)
    }
}

/// Copies a vector of values.
fn copy_value_vec(vs: &Vec<Value>) -> (r: Vec<Value>)
    ensures
        r@ == vs@,
{
    let n = vs.len();
    let mut out: Vec<Value> = Vec::new();
    let mut k: usize = 0;
    while k < n
        invariant
            n == vs@.len(),
            k <= n,
            out@ == vs@.take(k as int),
        decreases n - k,
    {
        out.push(vs[k]);
        proof {
            assert(out@ == vs@.take(k as int + 1));
        }
        k += 1;
    }
    proof {
        assert(vs@.take(n as int) == vs@);
    }
    out
}

/// Copies a vector of blocks.
fn copy_block_vec(bs: &Vec<Block>) -> (r: Vec<Block>)
    ensures
        r@ == bs@,
{
    let n = bs.len();
    let mut out: Vec<Block> = Vec::new();
    let mut k: usize = 0;
    while k < n
        invariant
            n == bs@.len(),
            k <= n,
            out@ == bs@.take(k as int),
        decreases n - k,
    {
        out.push(bs[k]);
        proof {
            assert(out@ == bs@.take(k as int + 1));
        }
        k += 1;
    }
    proof {
        assert(bs@.take(n as int) == bs@);
    }
    out
}

/// The destinations of the reduced terminator all come from the original.
pub proof fn lemma_dest_membership(newd: InsnData, oldd: InsnData, dest: Block, kk: int)
    requires
        removed_dest_ok(newd, oldd, dest),
        shape_ok(oldd),
        oldd matches InsnData::BrTable { .. },
        0 <= kk < newd.dests_spec().len(),
    ensures
        oldd.dests_spec().contains(newd.dests_spec()[kk]),
{
    match oldd {
        InsnData::BrTable { table_values: tv0, table_blocks: tb0, default, .. } => {
            lemma_kept(tv0@, tb0@, dest);
            let b = newd.dests_spec()[kk];
            let off: int = if default is Some { 1 } else { 0 };
            if default == Some(dest) {
                match newd {
                    InsnData::Jump { dest: d } => {
                        assert(d == tb0@[0]);
                        assert(oldd.dests_spec()[1] == tb0@[0]);
                    },
                    InsnData::BrTable { table_blocks: ntb, .. } => {
                        assert(ntb@ == tb0@);
                        assert(b == tb0@[kk]);
                        assert(oldd.dests_spec()[kk + 1] == b);
                    },
                    _ => {},
                }
            } else {
                let kb = kept_blocks(tb0@, dest);
                match newd {
                    InsnData::Jump { dest: d } => {
                        if default is Some && kb.len() == 0 {
                            assert(d == default->Some_0);
                            assert(oldd.dests_spec()[0] == d);
                        } else {
                            assert(d == kb[0]);
                            assert(kb.contains(d)) by {
                                assert(kb[0] == d);
                            }
                            assert(tb0@.contains(d));
                            let q = choose|q: int| 0 <= q < tb0@.len() && tb0@[q] == d;
                            assert(oldd.dests_spec()[q + off] == d);
                        }
                    },
                    InsnData::BrTable { table_blocks: ntb, default: nd, .. } => {
                        assert(nd == default);
                        assert(ntb@ == kb);
                        if kk < off {
                            assert(b == default->Some_0);
                            assert(oldd.dests_spec()[0] == b);
                        } else {
                            assert(b == kb[kk - off]);
                            assert(kb.contains(b)) by {
                                assert(kb[kk - off] == b);
                            }
                            assert(tb0@.contains(b));
                            let q = choose|q: int| 0 <= q < tb0@.len() && tb0@[q] == b;
                            assert(oldd.dests_spec()[q + off] == b);
                        }
                    },
                    _ => {},
                }
            }
        },
        _ => {},
    }
}

/// The user-set invariant read at one pair: under `wf`, an instruction is
/// recorded as user of a value exactly when the value is among its
/// operands.
pub proof fn lemma_user_iff(dfg: DataFlowGraph, v: Value, i: Insn)
    requires
        dfg.wf(),
        dfg.valid_value(v),
        dfg.valid_insn(i),
    ensures
        dfg.is_user(v, i) <==> dfg.uses(i, v),
{
}


/// `newd` is `oldd` with every operand occurrence of `from` replaced by
/// `to`, and nothing else changed.
pub open spec fn rewritten_to(newd: InsnData, oldd: InsnData, from: Value, to: Value) -> bool {
    &&& newd.args_spec() == subst_all(oldd.args_spec(), from, to)
    &&& same_shell(newd, oldd)
}

/// No instruction of this shape produces a result value.
pub open spec fn result_kind_none(data: InsnData) -> bool {
    match data {
        InsnData::Unary { .. } | InsnData::Binary { .. } | InsnData::Cast { .. }
            | InsnData::Load { .. } | InsnData::Alloca { .. } | InsnData::Phi { .. } => false,
        InsnData::Call { ret_ty, .. } => ret_ty is None,
        _ => true,
    }
}

/// The result type rule of each opcode: unary and arithmetic results take
/// the operand type, comparisons are one-bit, casts and loads take their
/// annotated type, an `alloca` yields a pointer to its type, a phi carries
/// its annotated type and a call the declared return type.
pub open spec fn result_ty_ok(dfg: DataFlowGraph, ctx: ModuleCtx, data: InsnData, ty: Type) ->
    bool {
    match data {
        InsnData::Unary { arg, .. } => ty == dfg.value_of(arg).ty_spec(),
        InsnData::Binary { code, lhs, .. } => if code.is_cmp_spec() {
            ty == Type::I1
        } else {
            ty == dfg.value_of(lhs).ty_spec()
        },
        InsnData::Cast { ty: t, .. } => ty == t,
        InsnData::Load { ty: t, .. } => ty == t,
        InsnData::Alloca { ty: t } => ty matches Type::Compound(c) && (c.0 as int)
            < ctx.type_store.num_compounds() && ctx.type_store.data_spec(c)
            == CompoundTypeData::Ptr(t),
        InsnData::Phi { ty: t, .. } => ty == t,
        InsnData::Call { ret_ty, .. } => ret_ty == Some(ty),
        _ => false,
    }
}

/// What `value_imm` resolves: immediates directly, and constant globals
/// with a scalar initializer.
pub open spec fn value_imm_spec(dfg: DataFlowGraph, ctx: ModuleCtx, value: Value) -> Option<
    Immediate,
> {
    match dfg.value_of(value) {
        ValueData::Immediate { imm, .. } => Some(imm),
        ValueData::Global { gv, .. } => if ctx.gv_store.data_spec(gv).is_const {
            match ctx.gv_store.data_spec(gv).init {
                Some(ConstantValue::Immediate(data)) => Some(data),
                _ => None,
            }
        } else {
            None
        },
        _ => None,
    }
}

} // verus!
