use vstd::prelude::*;

verus! {

use crate::dfg::DataFlowGraph;
use crate::layout::Layout;
use crate::linkage::Linkage;
use crate::types::Type;
use crate::value::{Value, ValueData};

/// The declared interface of a function: its symbol name, argument types,
/// optional return type and linkage.
#[derive(Debug)]
pub struct Signature {
    pub name: String,
    pub linkage: Linkage,
    pub args: Vec<Type>,
    pub ret_ty: Option<Type>,
}

impl Signature {
    pub fn new(name: String, linkage: Linkage, args: Vec<Type>, ret_ty: Option<Type>) -> (r:
        Signature)
        ensures
            r.name@ == name@,
            r.linkage == linkage,
            r.args@ == args@,
            r.ret_ty == ret_ty,
    {
        Signature { name, linkage, args, ret_ty }
    }

    pub fn name(&self) -> (r: &String)
        ensures
            r@ == self.name@,
    {
        &self.name
    }

    /// A deep copy that is provably equal to the original.
    pub fn duplicate(&self) -> (r: Signature)
        ensures
            r.name@ == self.name@,
            r.linkage == self.linkage,
            r.args@ == self.args@,
            r.ret_ty == self.ret_ty,
    {
        let name = self.name.clone();
        let mut args: Vec<Type> = Vec::new();
        let n = self.args.len();
        let mut k: usize = 0;
        while k < n
            invariant
                n == self.args@.len(),
                k <= n,
                args@ == self.args@.take(k as int),
            decreases n - k,
        {
            args.push(self.args[k]);
            proof {
                assert(args@ == self.args@.take(k as int + 1));
            }
            k += 1;
        }
        proof {
            assert(self.args@.take(n as int) == self.args@);
        }
        Signature { name, linkage: self.linkage, args, ret_ty: self.ret_ty }
    }
}

/// One function under construction or finished: its signature, the
/// eagerly created argument values, the data-flow graph and the layout.
#[derive(Debug)]
pub struct Function {
    pub sig: Signature,
    pub arg_values: Vec<Value>,
    pub dfg: DataFlowGraph,
    pub layout: Layout,
}

impl Function {
    pub open spec fn wf(self) -> bool {
        &&& self.dfg.wf()
        &&& self.layout.wf(self.dfg.num_blocks(), self.dfg.num_insns())
        &&& self.arg_values@.len() == self.sig.args@.len()
        &&& forall|k: int|
            0 <= k < self.arg_values@.len() ==> ({
                &&& self.dfg.valid_value(#[trigger] self.arg_values@[k])
                &&& self.dfg.value_of(self.arg_values@[k]) == (ValueData::Arg {
                    ty: self.sig.args@[k],
                    idx: k as usize,
                })
            })
    }

    /// A fresh function over `sig`: its argument values exist from the
    /// start, in signature order.
    #[verifier::loop_isolation(false)]
    pub fn new(sig: Signature) -> (r: Function)
        ensures
            r.wf(),
            r.sig.name@ == sig.name@,
            r.sig.args@ == sig.args@,
            r.sig.ret_ty == sig.ret_ty,
            r.sig.linkage == sig.linkage,
            r.arg_values@.len() == sig.args@.len(),
            r.dfg.num_blocks() == 0,
            r.dfg.num_insns() == 0,
            r.layout.block_order@.len() == 0,
            forall|k: int|
                0 <= k < r.arg_values@.len() ==> (#[trigger] r.arg_values@[k]).0 == k,
    {
        let mut dfg = DataFlowGraph::new();
        let mut arg_values: Vec<Value> = Vec::new();
        let n = sig.args.len();
        let mut k: usize = 0;
        while k < n
            invariant
                dfg.wf(),
                n == sig.args@.len(),
                k <= n,
                dfg.num_values() == k,
                dfg.num_insns() == 0,
                dfg.num_blocks() == 0,
                arg_values@.len() == k,
                forall|j: int|
                    0 <= j < k ==> ({
                        &&& (#[trigger] arg_values@[j]).0 == j
                        &&& dfg.valid_value(arg_values@[j])
                        &&& dfg.value_of(arg_values@[j]) == (ValueData::Arg {
                            ty: sig.args@[j],
                            idx: j as usize,
                        })
                    }),
            decreases n - k,
        {
            let ty = sig.args[k];
            let v = dfg.make_value(ValueData::Arg { ty, idx: k });
            arg_values.push(v);
            k += 1;
        }
        Function { sig, arg_values, dfg, layout: Layout::new() }
    }

    /// The function's argument values, in signature order.
    pub fn args(&self) -> (r: &Vec<Value>)
        ensures
            r@ == self.arg_values@,
    {
        &self.arg_values
    }
}

/// The argument values of a well-formed function keep their definitions
/// under any step that preserves every existing value, the signature and
/// the argument list.
pub proof fn lemma_args_preserved(f0: Function, f: Function)
    requires
        f0.wf(),
        f.sig.args@ == f0.sig.args@,
        f.arg_values@ == f0.arg_values@,
        forall|v: Value|
            f0.dfg.valid_value(v) ==> f.dfg.valid_value(v) && #[trigger] f.dfg.value_of(v)
                == f0.dfg.value_of(v),
    ensures
        forall|k: int|
            0 <= k < f.arg_values@.len() ==> ({
                &&& f.dfg.valid_value(#[trigger] f.arg_values@[k])
                &&& f.dfg.value_of(f.arg_values@[k]) == (ValueData::Arg {
                    ty: f.sig.args@[k],
                    idx: k as usize,
                })
            }),
{
    assert forall|k: int|
        0 <= k < f.arg_values@.len() implies ({
        &&& f.dfg.valid_value(#[trigger] f.arg_values@[k])
        &&& f.dfg.value_of(f.arg_values@[k]) == (ValueData::Arg {
            ty: f.sig.args@[k],
            idx: k as usize,
        })
    }) by {
        assert(f0.dfg.valid_value(f0.arg_values@[k]));
    }
}

} // verus!
