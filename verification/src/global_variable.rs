use vstd::prelude::*;

verus! {

use crate::immediate::Immediate;
use crate::linkage::Linkage;
use crate::types::Type;
use crate::value::GlobalVariable;

/// A constant initializer of a global variable.
#[derive(Debug, Clone, PartialEq, Eq)]
pub enum ConstantValue {
    Immediate(Immediate),
    Aggregate(Vec<Immediate>),
}

/// A named global: symbol, type, linkage, constness and optional
/// initializer.
#[derive(Debug)]
pub struct GlobalVariableData {
    pub symbol: String,
    pub ty: Type,
    pub linkage: Linkage,
    pub is_const: bool,
    pub init: Option<ConstantValue>,
}

/// The module-wide store of global variables. Globals live for the module's
/// lifetime and are never freed.
#[derive(Debug)]
pub struct GlobalVariableStore {
    pub gvs: Vec<GlobalVariableData>,
}

impl GlobalVariableStore {
    pub open spec fn num_gvs(self) -> int {
        self.gvs@.len() as int
    }

    pub open spec fn is_valid(self, gv: GlobalVariable) -> bool {
        (gv.0 as int) < self.num_gvs()
    }

    pub open spec fn data_spec(self, gv: GlobalVariable) -> GlobalVariableData {
        self.gvs@[gv.0 as int]
    }

    pub fn new() -> (r: GlobalVariableStore)
        ensures
            r.num_gvs() == 0,
    {
        GlobalVariableStore { gvs: Vec::new() }
    }

    /// Registers a new global and hands back its reference.
    pub fn make_gv(&mut self, global: GlobalVariableData) -> (r: GlobalVariable)
        ensures
            r.0 == old(self).num_gvs(),
            final(self).gvs@ == old(self).gvs@.push(global),
    {
        let r = GlobalVariable(self.gvs.len());
        self.gvs.push(global);
        r
    }

    /// The first global declared under `symbol`, if any.
    pub open spec fn lookup_spec(self, symbol: Seq<char>) -> Option<GlobalVariable> {
        if exists|k: int| 0 <= k < self.gvs@.len() && (#[trigger] self.gvs@[k]).symbol@ == symbol {
            Some(
                GlobalVariable(
                    (choose|k: int|
                        0 <= k < self.gvs@.len() && (#[trigger] self.gvs@[k]).symbol@
                            == symbol) as usize,
                ),
            )
        } else {
            None
        }
    }

    pub fn gv_by_symbol(&self, symbol: &String) -> (r: Option<GlobalVariable>)
        ensures
            r is Some <==> self.lookup_spec(symbol@) is Some,
            r matches Some(gv) ==> self.is_valid(gv) && self.data_spec(gv).symbol@ == symbol@,
    {
        let n = self.gvs.len();
        let mut k: usize = 0;
        while k < n
            invariant
                n == self.gvs@.len(),
                k <= n,
                forall|j: int| 0 <= j < k ==> (#[trigger] self.gvs@[j]).symbol@ != symbol@,
            decreases n - k,
        {
            if self.gvs[k].symbol == *symbol {
                proof {
                    assert(self.gvs@[k as int].symbol@ == symbol@);
                }
                return Some(GlobalVariable(k));
            }
            k += 1;
        }
        None
    }

    pub fn ty(&self, gv: GlobalVariable) -> (r: Type)
        requires
            self.is_valid(gv),
        ensures
            r == self.data_spec(gv).ty,
    {
        self.gvs[gv.0].ty
    }

    pub fn is_const(&self, gv: GlobalVariable) -> (r: bool)
        requires
            self.is_valid(gv),
        ensures
            r == self.data_spec(gv).is_const,
    {
        self.gvs[gv.0].is_const
    }

    pub fn init_data(&self, gv: GlobalVariable) -> (r: Option<&ConstantValue>)
        requires
            self.is_valid(gv),
        ensures
            r matches Some(c) ==> self.data_spec(gv).init == Some(*c),
            r is None ==> self.data_spec(gv).init is None,
    {
        match &self.gvs[gv.0].init {
            Some(c) => Some(c),
            None => None,
        }
    }
}

} // verus!
