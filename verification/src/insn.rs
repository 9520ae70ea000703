use vstd::prelude::*;

verus! {

use crate::types::Type;
use crate::value::Value;
use crate::dfg::Block;
use crate::module::FuncRef;

/// An opaque reference to an instruction in a function's data-flow graph.
#[derive(Debug, Clone, Copy, PartialEq, Eq, Structural)]
pub struct Insn(pub usize);

#[derive(Debug, Clone, Copy, PartialEq, Eq, Structural)]
pub enum UnaryOp {
    Not,
    Neg,
}

#[derive(Debug, Clone, Copy, PartialEq, Eq, Structural)]
pub enum BinaryOp {
    Add,
    Sub,
    Mul,
    Udiv,
    Sdiv,
    Lt,
    Gt,
    Slt,
    Sgt,
    Le,
    Ge,
    Sle,
    Sge,
    Eq,
    Ne,
    And,
    Or,
}

impl BinaryOp {
    /// Comparisons produce a one-bit integer; the arithmetic and bitwise
    /// operators produce the common operand type.
    pub open spec fn is_cmp_spec(self) -> bool {
        match self {
            BinaryOp::Lt | BinaryOp::Gt | BinaryOp::Slt | BinaryOp::Sgt | BinaryOp::Le
                | BinaryOp::Ge | BinaryOp::Sle | BinaryOp::Sge | BinaryOp::Eq | BinaryOp::Ne
                => true,
            _ => false,
        }
    }

    pub fn is_cmp(&self) -> (r: bool)
        ensures
            r == self.is_cmp_spec(),
    {
        match self {
            BinaryOp::Lt | BinaryOp::Gt | BinaryOp::Slt | BinaryOp::Sgt | BinaryOp::Le
                | BinaryOp::Ge | BinaryOp::Sle | BinaryOp::Sge | BinaryOp::Eq | BinaryOp::Ne
                => true,
            _ => false,
        }
    }
}

#[derive(Debug, Clone, Copy, PartialEq, Eq, Structural)]
pub enum CastOp {
    Sext,
    Zext,
    Trunc,
}

/// Which address space a load or store touches.
#[derive(Debug, Clone, Copy, PartialEq, Eq, Structural)]
pub enum DataLocationKind {
    Memory,
    Storage,
}

/// The variant-tagged operand data of one instruction.
#[derive(Debug, Clone, PartialEq, Eq)]
pub enum InsnData {
    Unary { code: UnaryOp, arg: Value },
    Binary { code: BinaryOp, lhs: Value, rhs: Value },
    Cast { code: CastOp, arg: Value, ty: Type },
    Load { addr: Value, ty: Type, loc: DataLocationKind },
    Store { addr: Value, data: Value, loc: DataLocationKind },
    Alloca { ty: Type },
    Jump { dest: Block },
    Branch { cond: Value, then_dest: Block, else_dest: Block },
    BrTable { table_values: Vec<Value>, table_blocks: Vec<Block>, cond: Value, default: Option<Block> },
    Return { arg: Option<Value> },
    Phi { values: Vec<Value>, blocks: Vec<Block>, ty: Type },
    Call { callee: FuncRef, args: Vec<Value>, ret_ty: Option<Type> },
}

impl InsnData {
    /// The value operands of the instruction, in order. The per-value user
    /// sets of the data-flow graph track membership in exactly this sequence.
    pub open spec fn args_spec(self) -> Seq<Value> {
        match self {
            InsnData::Unary { arg, .. } => seq![arg],
            InsnData::Binary { code: _, lhs, rhs } => seq![lhs, rhs],
            InsnData::Cast { arg, .. } => seq![arg],
            InsnData::Load { addr, .. } => seq![addr],
            InsnData::Store { addr, data, loc: _ } => seq![addr, data],
            InsnData::Alloca { .. } => Seq::<Value>::empty(),
            InsnData::Jump { .. } => Seq::<Value>::empty(),
            InsnData::Branch { cond, .. } => seq![cond],
            InsnData::BrTable { cond, table_values, table_blocks: _, default: _ } => seq![cond] + table_values@,
            InsnData::Return { arg } => match arg {
                Some(v) => seq![v],
                None => Seq::<Value>::empty(),
            },
            InsnData::Phi { values, .. } => values@,
            InsnData::Call { args, .. } => args@,
        }
    }

    /// The branch destinations of the instruction, in order; a `BrTable`
    /// lists its default destination first.
    pub open spec fn dests_spec(self) -> Seq<Block> {
        match self {
            InsnData::Jump { dest } => seq![dest],
            InsnData::Branch { then_dest, else_dest, .. } => seq![then_dest, else_dest],
            InsnData::BrTable { table_blocks, default, .. } => (match default {
                Some(d) => seq![d],
                None => Seq::<Block>::empty(),
            }) + table_blocks@,
            _ => Seq::<Block>::empty(),
        }
    }

    pub open spec fn is_phi_spec(self) -> bool {
        self matches InsnData::Phi { .. }
    }

    pub open spec fn is_return_spec(self) -> bool {
        self matches InsnData::Return { .. }
    }

    /// A branching terminator: everything that transfers control to another
    /// block of the same function.
    pub open spec fn is_branch_spec(self) -> bool {
        match self {
            InsnData::Jump { .. } | InsnData::Branch { .. } | InsnData::BrTable { .. } => true,
            _ => false,
        }
    }

    /// The unique last instruction of a finished block.
    pub open spec fn is_terminator_spec(self) -> bool {
        self.is_branch_spec() || self.is_return_spec()
    }

    /// Stores, stack allocation, calls and all terminators must stay.
    pub open spec fn has_side_effect_spec(self) -> bool {
        match self {
            InsnData::Store { .. } | InsnData::Alloca { .. } | InsnData::Call { .. } => true,
            _ => self.is_terminator_spec(),
        }
    }

    /// Division can fault, and memory access can fault on a bad address.
    pub open spec fn may_trap_spec(self) -> bool {
        match self {
            InsnData::Binary { code, .. } => code == BinaryOp::Udiv || code == BinaryOp::Sdiv,
            InsnData::Load { .. } | InsnData::Store { .. } => true,
            _ => false,
        }
    }

    pub fn is_phi_data(&self) -> (r: bool)
        ensures
            r == self.is_phi_spec(),
    {
        match self {
            InsnData::Phi { .. } => true,
            _ => false,
        }
    }

    pub fn is_branch_data(&self) -> (r: bool)
        ensures
            r == self.is_branch_spec(),
    {
        match self {
            InsnData::Jump { .. } | InsnData::Branch { .. } | InsnData::BrTable { .. } => true,
            _ => false,
        }
    }

    pub fn is_terminator_data(&self) -> (r: bool)
        ensures
            r == self.is_terminator_spec(),
    {
        match self {
            InsnData::Jump { .. } | InsnData::Branch { .. } | InsnData::BrTable { .. }
                | InsnData::Return { .. } => true,
            _ => false,
        }
    }

    pub fn num_args(&self) -> (r: usize)
        requires
            self.args_spec().len() <= usize::MAX as int,
        ensures
            r == self.args_spec().len(),
    {
        match self {
            InsnData::Unary { .. } => 1,
            InsnData::Binary { .. } => 2,
            InsnData::Cast { .. } => 1,
            InsnData::Load { .. } => 1,
            InsnData::Store { .. } => 2,
            InsnData::Alloca { .. } => 0,
            InsnData::Jump { .. } => 0,
            InsnData::Branch { .. } => 1,
            InsnData::BrTable { table_values, .. } => {
                assert(self.args_spec().len() == 1 + table_values@.len());
                1 + table_values.len()
            },
            InsnData::Return { arg } => if arg.is_some() {
                1
            } else {
                0
            },
            InsnData::Phi { values, .. } => values.len(),
            InsnData::Call { args, .. } => args.len(),
        }
    }

    pub fn arg_at(&self, idx: usize) -> (r: Value)
        requires
            idx < self.args_spec().len(),
        ensures
            r == self.args_spec()[idx as int],
    {
        match self {
            InsnData::Unary { arg, .. } => *arg,
            InsnData::Binary { code: _, lhs, rhs } => if idx == 0 {
                *lhs
            } else {
                *rhs
            },
            InsnData::Cast { arg, .. } => *arg,
            InsnData::Load { addr, .. } => *addr,
            InsnData::Store { addr, data, loc: _ } => if idx == 0 {
                *addr
            } else {
                *data
            },
            InsnData::Branch { cond, .. } => *cond,
            InsnData::BrTable { cond, table_values, table_blocks: _, default: _ } => if idx == 0 {
                *cond
            } else {
                table_values[idx - 1]
            },
            InsnData::Return { arg } => match arg {
                Some(v) => *v,
                None => {
                    proof {
                        assert(false);
                    }
                    Value(0)
                },
            },
            InsnData::Phi { values, .. } => values[idx],
            InsnData::Call { args, .. } => args[idx],
            _ => {
                proof {
                    assert(false);
                }
                Value(0)
            },
        }
    }

}

/// Replaces operand `idx` in place; nothing else of the instruction
/// changes.
/// Replaces operand `idx` of `insn` in place; nothing else of the
/// instruction changes.
pub fn set_insn_arg(insn: &mut InsnData, idx: usize, v: Value)
    requires
        idx < old(insn).args_spec().len(),
    ensures
        final(insn).args_spec() =~= old(insn).args_spec().update(idx as int, v),
        same_shell(*final(insn), *old(insn)),
{
    let replacement: Option<InsnData> = match &*insn {
        InsnData::Unary { code, arg } => Some(InsnData::Unary { code: *code, arg: v }),
        InsnData::Binary { code, lhs, rhs } => if idx == 0 {
            Some(InsnData::Binary { code: *code, lhs: v, rhs: *rhs })
        } else {
            Some(InsnData::Binary { code: *code, lhs: *lhs, rhs: v })
        },
        InsnData::Cast { code, arg, ty } => Some(
            InsnData::Cast { code: *code, arg: v, ty: *ty },
        ),
        InsnData::Load { addr, ty, loc } => Some(
            InsnData::Load { addr: v, ty: *ty, loc: *loc },
        ),
        InsnData::Store { addr, data, loc } => if idx == 0 {
            Some(InsnData::Store { addr: v, data: *data, loc: *loc })
        } else {
            Some(InsnData::Store { addr: *addr, data: v, loc: *loc })
        },
        InsnData::Branch { cond, then_dest, else_dest } => Some(
            InsnData::Branch { cond: v, then_dest: *then_dest, else_dest: *else_dest },
        ),
        InsnData::Return { arg } => {
            let _ = arg;
            Some(InsnData::Return { arg: Some(v) })
        },
        _ => None,
    };
    if replacement.is_some() {
        let d = replacement.unwrap();
        *insn = d;
    } else {
        match insn {
            InsnData::Phi { values, .. } => {
                values[idx] = v;
            },
            InsnData::Call { args, .. } => {
                args[idx] = v;
            },
            InsnData::BrTable { cond, table_values, .. } => {
                if idx == 0 {
                    *cond = v;
                } else {
                    table_values[idx - 1] = v;
                }
            },
            _ => {
                proof {
                    assert(false);
                }
            },
        }
    }
}

/// Replaces every occurrence of `from` among the operands of `insn` by
/// `to`; nothing else of the instruction changes.
pub fn rewrite_insn_args(insn: &mut InsnData, from: Value, to: Value)
    ensures
        final(insn).args_spec() =~= subst_all(old(insn).args_spec(), from, to),
        same_shell(*final(insn), *old(insn)),
{
    proof {
        lemma_subst_all(old(insn).args_spec(), from, to);
    }
    let replacement: Option<InsnData> = match &*insn {
        InsnData::Unary { code, arg } => Some(
            InsnData::Unary { code: *code, arg: subst_exec(*arg, from, to) },
        ),
        InsnData::Binary { code, lhs, rhs } => Some(
            InsnData::Binary {
                code: *code,
                lhs: subst_exec(*lhs, from, to),
                rhs: subst_exec(*rhs, from, to),
            },
        ),
        InsnData::Cast { code, arg, ty } => Some(
            InsnData::Cast { code: *code, arg: subst_exec(*arg, from, to), ty: *ty },
        ),
        InsnData::Load { addr, ty, loc } => Some(
            InsnData::Load { addr: subst_exec(*addr, from, to), ty: *ty, loc: *loc },
        ),
        InsnData::Store { addr, data, loc } => Some(
            InsnData::Store {
                addr: subst_exec(*addr, from, to),
                data: subst_exec(*data, from, to),
                loc: *loc,
            },
        ),
        InsnData::Branch { cond, then_dest, else_dest } => Some(
            InsnData::Branch {
                cond: subst_exec(*cond, from, to),
                then_dest: *then_dest,
                else_dest: *else_dest,
            },
        ),
        InsnData::Return { arg } => match arg {
            Some(v) => Some(InsnData::Return { arg: Some(subst_exec(*v, from, to)) }),
            None => Some(InsnData::Return { arg: None }),
        },
        _ => None,
    };
    if replacement.is_some() {
        let d = replacement.unwrap();
        *insn = d;
    } else {
        match insn {
            InsnData::BrTable { cond, .. } => {
                if *cond == from {
                    *cond = to;
                }
            },
            _ => {},
        }
        match insn {
            InsnData::Phi { values, .. } => {
                rewrite_value_vec(values, from, to);
            },
            InsnData::Call { args, .. } => {
                rewrite_value_vec(args, from, to);
            },
            InsnData::BrTable { table_values, .. } => {
                let ghost tv0: Seq<Value> = table_values@;
                let n = table_values.len();
                let mut i: usize = 0;
                while i < n
                    invariant
                        n == table_values@.len(),
                        n == tv0.len(),
                        i <= n,
                        forall|k: int|
                            0 <= k < i ==> table_values@[k] == subst(tv0[k], from, to),
                        forall|k: int| i <= k < n ==> table_values@[k] == tv0[k],
                    decreases n - i,
                {
                    if table_values[i] == from {
                        table_values[i] = to;
                    }
                    i += 1;
                }
            },
            _ => {},
        }
    }
}

/// Executable counterpart of [`subst`].
fn subst_exec(v: Value, from: Value, to: Value) -> (r: Value)
    ensures
        r == subst(v, from, to),
{
    if v == from {
        to
    } else {
        v
    }
}

/// `to` where the value is `from`, the value itself otherwise.
pub open spec fn subst(v: Value, from: Value, to: Value) -> Value {
    if v == from {
        to
    } else {
        v
    }
}

/// The sequence with every occurrence of `from` replaced by `to`.
pub open spec fn subst_all(s: Seq<Value>, from: Value, to: Value) -> Seq<Value>
    decreases s.len(),
{
    if s.len() == 0 {
        Seq::<Value>::empty()
    } else {
        subst_all(s.drop_last(), from, to).push(subst(s.last(), from, to))
    }
}

/// Pointwise reading of `subst_all`.
pub proof fn lemma_subst_all(s: Seq<Value>, from: Value, to: Value)
    ensures
        subst_all(s, from, to).len() == s.len(),
        forall|k: int| 0 <= k < s.len() ==> subst_all(s, from, to)[k] == subst(s[k], from, to),
    decreases s.len(),
{
    if s.len() > 0 {
        lemma_subst_all(s.drop_last(), from, to);
    }
}

/// Membership under substitution: after the rewrite nothing is `from` any
/// more (unless `from == to`), and exactly the occurrences of `from` have
/// become `to`.
pub proof fn lemma_subst_all_contains(s: Seq<Value>, from: Value, to: Value, w: Value)
    ensures
        w != from && w != to ==> (subst_all(s, from, to).contains(w) <==> s.contains(w)),
        subst_all(s, from, to).contains(to) <==> (s.contains(to) || (s.contains(from) && to
            != from) || (s.contains(to) && from == to)),
        from != to ==> !subst_all(s, from, to).contains(from),
{
    lemma_subst_all(s, from, to);
    let t = subst_all(s, from, to);
    if w != from && w != to {
        if t.contains(w) {
            let k = choose|k: int| 0 <= k < t.len() && t[k] == w;
            assert(s[k] == w);
            assert(s.contains(w));
        }
        if s.contains(w) {
            let k = choose|k: int| 0 <= k < s.len() && s[k] == w;
            assert(t[k] == w);
            assert(t.contains(w));
        }
    }
    if t.contains(to) {
        let k = choose|k: int| 0 <= k < t.len() && t[k] == to;
        if s[k] == from {
            assert(s.contains(from));
        } else {
            assert(s[k] == to);
            assert(s.contains(to));
        }
    }
    if s.contains(to) {
        let k = choose|k: int| 0 <= k < s.len() && s[k] == to;
        assert(t[k] == to);
        assert(t.contains(to));
    }
    if s.contains(from) && to != from {
        let k = choose|k: int| 0 <= k < s.len() && s[k] == from;
        assert(t[k] == to);
        assert(t.contains(to));
    }
    if from != to && t.contains(from) {
        let k = choose|k: int| 0 <= k < t.len() && t[k] == from;
        assert(t[k] == subst(s[k], from, to));
        assert(false);
    }
}

/// Replaces every occurrence of `from` in the vector by `to`.
fn rewrite_value_vec(vs: &mut Vec<Value>, from: Value, to: Value)
    ensures
        final(vs)@ =~= subst_all(old(vs)@, from, to),
{
    let n = vs.len();
    let mut i: usize = 0;
    while i < n
        invariant
            n == vs@.len(),
            n == old(vs)@.len(),
            i <= n,
            forall|k: int| 0 <= k < i ==> vs@[k] == subst(old(vs)@[k], from, to),
            forall|k: int| i <= k < n ==> vs@[k] == old(vs)@[k],
        decreases n - i,
    {
        if vs[i] == from {
            vs[i] = to;
        }
        i += 1;
    }
    proof {
        lemma_subst_all(old(vs)@, from, to);
    }
}

/// Two instructions that agree on everything but the identity of their value
/// operands: same variant, same opcode, same types, same destinations, and
/// operand lists of the same length.
pub open spec fn same_shell(a: InsnData, b: InsnData) -> bool {
    &&& a.args_spec().len() == b.args_spec().len()
    &&& a.dests_spec() == b.dests_spec()
    &&& match (a, b) {
        (InsnData::Unary { code: c1, .. }, InsnData::Unary { code: c2, .. }) => c1 == c2,
        (InsnData::Binary { code: c1, .. }, InsnData::Binary { code: c2, .. }) => c1 == c2,
        (
            InsnData::Cast { code: c1, ty: t1, .. },
            InsnData::Cast { code: c2, ty: t2, .. },
        ) => c1 == c2 && t1 == t2,
        (
            InsnData::Load { ty: t1, loc: l1, .. },
            InsnData::Load { ty: t2, loc: l2, .. },
        ) => t1 == t2 && l1 == l2,
        (InsnData::Store { loc: l1, .. }, InsnData::Store { loc: l2, .. }) => l1 == l2,
        (InsnData::Alloca { ty: t1 }, InsnData::Alloca { ty: t2 }) => t1 == t2,
        (InsnData::Jump { .. }, InsnData::Jump { .. }) => true,
        (InsnData::Branch { .. }, InsnData::Branch { .. }) => true,
        (
            InsnData::BrTable { table_blocks: b1, default: d1, .. },
            InsnData::BrTable { table_blocks: b2, default: d2, .. },
        ) => b1@ == b2@ && d1 == d2,
        (InsnData::Return { .. }, InsnData::Return { .. }) => true,
        (
            InsnData::Phi { blocks: b1, ty: t1, .. },
            InsnData::Phi { blocks: b2, ty: t2, .. },
        ) => b1@ == b2@ && t1 == t2,
        (
            InsnData::Call { callee: c1, ret_ty: r1, .. },
            InsnData::Call { callee: c2, ret_ty: r2, .. },
        ) => c1 == c2 && r1 == r2,
        _ => false,
    }
}

/// The parallel sequences inside an instruction line up: a phi has one
/// incoming block per value, and a branch table one destination per case
/// value.
pub open spec fn shape_ok(data: InsnData) -> bool {
    match data {
        InsnData::Phi { values, blocks, .. } => values@.len() == blocks@.len(),
        InsnData::BrTable { table_values, table_blocks, .. } => table_values@.len()
            == table_blocks@.len(),
        _ => true,
    }
}

/// `same_shell` preserves the shape alignment.
pub proof fn lemma_same_shell_shape(a: InsnData, b: InsnData)
    requires
        same_shell(a, b),
        shape_ok(b),
    ensures
        shape_ok(a),
{
}

/// The annotated type of a phi instruction.
pub open spec fn phi_ty_of(data: InsnData) -> Option<Type> {
    match data {
        InsnData::Phi { ty, .. } => Some(ty),
        _ => None,
    }
}

/// `same_shell` preserves what a phi is and which type it carries.
pub proof fn lemma_same_shell_phi_ty(a: InsnData, b: InsnData)
    requires
        same_shell(a, b),
    ensures
        phi_ty_of(a) == phi_ty_of(b),
{
}


/// Classification of a terminator for callers that only need its
/// destinations: the default destination of a branch table comes first.
#[derive(Debug, Clone, PartialEq, Eq)]
pub enum BranchInfo {
    NotBranch,
    Jump { dest: Block },
    Br { cond: Value, then_dest: Block, else_dest: Block },
    BrTable { cond: Value, default: Option<Block>, table: Vec<Block> },
}

impl BranchInfo {
    /// The destinations described, in the same order as
    /// [`InsnData::dests_spec`].
    pub open spec fn dests_of(self) -> Seq<Block> {
        match self {
            BranchInfo::NotBranch => Seq::<Block>::empty(),
            BranchInfo::Jump { dest } => seq![dest],
            BranchInfo::Br { then_dest, else_dest, .. } => seq![then_dest, else_dest],
            BranchInfo::BrTable { default, table, .. } => (match default {
                Some(d) => seq![d],
                None => Seq::<Block>::empty(),
            }) + table@,
        }
    }

    pub fn dests_num(&self) -> (r: usize)
        requires
            self.dests_of().len() <= usize::MAX as int,
        ensures
            r == self.dests_of().len(),
    {
        match self {
            BranchInfo::NotBranch => 0,
            BranchInfo::Jump { .. } => 1,
            BranchInfo::Br { .. } => 2,
            BranchInfo::BrTable { default, table, .. } => if default.is_some() {
                1 + table.len()
            } else {
                table.len()
            },
        }
    }
}

/// The index of the first entry of `blocks` equal to `from` (the length if
/// none is).
pub open spec fn first_occurrence(blocks: Seq<Block>, from: Block) -> int
    decreases blocks.len(),
{
    if blocks.len() == 0 {
        0
    } else if blocks[0] == from {
        0
    } else {
        1 + first_occurrence(blocks.drop_first(), from)
    }
}

/// What `first_occurrence` finds: the first matching index, characterised
/// by a hit with no earlier hit.
pub proof fn lemma_first_occurrence(blocks: Seq<Block>, from: Block, k: int)
    requires
        0 <= k < blocks.len(),
        blocks[k] == from,
        forall|j: int| 0 <= j < k ==> blocks[j] != from,
    ensures
        first_occurrence(blocks, from) == k,
    decreases blocks.len(),
{
    if k > 0 {
        assert(blocks[0] != from);
        let rest = blocks.drop_first();
        assert(rest[k - 1] == from);
        assert forall|j: int| 0 <= j < k - 1 implies rest[j] != from by {
            assert(rest[j] == blocks[j + 1]);
        }
        lemma_first_occurrence(rest, from, k - 1);
    }
}

/// The case values that survive when every table entry aimed at `dest` is
/// removed.
pub open spec fn kept_values(tv: Seq<Value>, tb: Seq<Block>, dest: Block) -> Seq<Value>
    decreases tv.len(),
{
    if tv.len() == 0 || tb.len() == 0 {
        Seq::<Value>::empty()
    } else {
        let pre = kept_values(tv.drop_last(), tb.drop_last(), dest);
        if tb.last() == dest {
            pre
        } else {
            pre.push(tv.last())
        }
    }
}

/// The case destinations that survive when every entry aimed at `dest` is
/// removed.
pub open spec fn kept_blocks(tb: Seq<Block>, dest: Block) -> Seq<Block>
    decreases tb.len(),
{
    if tb.len() == 0 {
        Seq::<Block>::empty()
    } else {
        let pre = kept_blocks(tb.drop_last(), dest);
        if tb.last() == dest {
            pre
        } else {
            pre.push(tb.last())
        }
    }
}

/// Every surviving entry was already present, none is aimed at `dest`, and
/// the two survivor sequences stay aligned.
pub proof fn lemma_kept(tv: Seq<Value>, tb: Seq<Block>, dest: Block)
    requires
        tv.len() == tb.len(),
    ensures
        kept_values(tv, tb, dest).len() == kept_blocks(tb, dest).len(),
        kept_blocks(tb, dest).len() <= tb.len(),
        forall|x: Value| kept_values(tv, tb, dest).contains(x) ==> tv.contains(x),
        forall|b: Block| kept_blocks(tb, dest).contains(b) ==> tb.contains(b),
        forall|k: int|
            0 <= k < kept_blocks(tb, dest).len() ==> #[trigger] kept_blocks(tb, dest)[k] != dest,
    decreases tv.len(),
{
    if tv.len() > 0 {
        lemma_kept(tv.drop_last(), tb.drop_last(), dest);
        let kv = kept_values(tv, tb, dest);
        let kb = kept_blocks(tb, dest);
        let pv = kept_values(tv.drop_last(), tb.drop_last(), dest);
        let pb = kept_blocks(tb.drop_last(), dest);
        assert forall|x: Value| kv.contains(x) implies tv.contains(x) by {
            let k = choose|k: int| 0 <= k < kv.len() && kv[k] == x;
            if k < pv.len() {
                assert(pv.contains(x)) by {
                    assert(pv[k] == x);
                }
                assert(tv.drop_last().contains(x));
                let j = choose|j: int| 0 <= j < tv.drop_last().len() && tv.drop_last()[j] == x;
                assert(tv[j] == x);
            } else {
                assert(x == tv.last());
                assert(tv[tv.len() - 1] == x);
            }
        }
        assert forall|b: Block| kb.contains(b) implies tb.contains(b) by {
            let k = choose|k: int| 0 <= k < kb.len() && kb[k] == b;
            if k < pb.len() {
                assert(pb.contains(b)) by {
                    assert(pb[k] == b);
                }
                assert(tb.drop_last().contains(b));
                let j = choose|j: int| 0 <= j < tb.drop_last().len() && tb.drop_last()[j] == b;
                assert(tb[j] == b);
                assert(tb.contains(b));
            } else {
                assert(b == kb[k]);
                assert(b == tb.last());
                assert(tb[tb.len() - 1] == b);
                assert(tb.contains(b));
            }
        }
    }
}

/// What removing the destination `dest` leaves of a terminator: a two-way
/// branch collapses to a jump to the other side; a branch table loses its
/// default or its matching cases, and collapses to a jump once a single
/// destination survives.
pub open spec fn removed_dest_ok(newd: InsnData, oldd: InsnData, dest: Block) -> bool {
    match oldd {
        InsnData::Branch { cond, then_dest, else_dest } => newd == (if then_dest == dest {
            InsnData::Jump { dest: else_dest }
        } else {
            InsnData::Jump { dest: then_dest }
        }),
        InsnData::BrTable { table_values, table_blocks, cond, default } => {
            let d2 = if default == Some(dest) {
                None
            } else {
                default
            };
            let tv2 = if default == Some(dest) {
                table_values@
            } else {
                kept_values(table_values@, table_blocks@, dest)
            };
            let tb2 = if default == Some(dest) {
                table_blocks@
            } else {
                kept_blocks(table_blocks@, dest)
            };
            if d2 is None && tb2.len() == 1 {
                newd == (InsnData::Jump { dest: tb2[0] })
            } else if d2 is Some && tb2.len() == 0 {
                newd == (InsnData::Jump { dest: d2->Some_0 })
            } else {
                match newd {
                    InsnData::BrTable {
                        table_values: ntv,
                        table_blocks: ntb,
                        cond: nc,
                        default: nd,
                    } => ntv@ == tv2 && ntb@ == tb2 && nc == cond && nd == d2,
                    _ => false,
                }
            }
        },
        _ => false,
    }
}

/// The reduction law of `remove_branch_dest`: removing one destination of a
/// two-way branch leaves a jump to the remaining one, and a branch table
/// whose removal leaves exactly one destination becomes a jump to it.
pub proof fn lemma_remove_branch_dest_reduction(newd: InsnData, oldd: InsnData, dest: Block)
    requires
        removed_dest_ok(newd, oldd, dest),
    ensures
        oldd matches InsnData::Branch { then_dest, else_dest, .. } ==> (newd
            == (if then_dest == dest {
            InsnData::Jump { dest: else_dest }
        } else {
            InsnData::Jump { dest: then_dest }
        })),
        (oldd matches InsnData::BrTable { .. } && surviving_dests(oldd, dest).len() == 1)
            ==> newd == (InsnData::Jump { dest: surviving_dests(oldd, dest)[0] }),
{
}

/// The destinations a terminator keeps once `dest` is removed, default
/// first.
pub open spec fn surviving_dests(oldd: InsnData, dest: Block) -> Seq<Block> {
    match oldd {
        InsnData::BrTable { table_blocks, default, .. } => {
            if default == Some(dest) {
                table_blocks@
            } else {
                (match default {
                    Some(d) => seq![d],
                    None => Seq::<Block>::empty(),
                }) + kept_blocks(table_blocks@, dest)
            }
        },
        _ => Seq::<Block>::empty(),
    }
}

} // verus!
