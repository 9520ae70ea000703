use vstd::prelude::*;

verus! {

use crate::function::{Function, Signature};
use crate::global_variable::GlobalVariableData;
use crate::module::{FuncRef, FuncStore, Module, ModuleCtx};
use crate::types::Type;
use crate::value::GlobalVariable;

/// Declares the module's functions, globals and types, and hands out the
/// finished [`Module`]. A function name maps to exactly one reference.
#[derive(Debug)]
pub struct ModuleBuilder {
    pub funcs: FuncStore,
    pub ctx: ModuleCtx,
    pub declared: Vec<(String, FuncRef)>,
}

impl ModuleBuilder {
    pub open spec fn wf(self) -> bool {
        &&& self.ctx.wf()
        &&& self.funcs.num_funcs() == self.declared@.len()
        &&& self.ctx.declared_funcs@.len() == self.declared@.len()
        &&& forall|k: int|
            0 <= k < self.declared@.len() ==> (#[trigger] self.declared@[k]).1.0 < self.declared@.len()
        &&& forall|k1: int, k2: int|
            0 <= k1 < self.declared@.len() && 0 <= k2 < self.declared@.len() && (
            #[trigger] self.declared@[k1]).0@ == (#[trigger] self.declared@[k2]).0@ ==> k1 == k2
    }

    /// The reference a name was declared under, if any.
    pub open spec fn lookup_spec(self, name: Seq<char>) -> Option<FuncRef> {
        if exists|k: int| 0 <= k < self.declared@.len() && (#[trigger] self.declared@[k]).0@ == name {
            Some(
                self.declared@[choose|k: int|
                    0 <= k < self.declared@.len() && (#[trigger] self.declared@[k]).0@ == name].1,
            )
        } else {
            None
        }
    }

    pub fn new(ctx: ModuleCtx) -> (r: ModuleBuilder)
        requires
            ctx.wf(),
            ctx.declared_funcs@.len() == 0,
        ensures
            r.wf(),
            r.declared@.len() == 0,
    {
        ModuleBuilder { funcs: FuncStore::new(), ctx, declared: Vec::new() }
    }

    /// Declares a function. Declaration is idempotent by name: a second
    /// call with the same name returns the first reference and changes
    /// nothing, discarding the later signature.
    #[verifier::loop_isolation(false)]
    pub fn declare_function(&mut self, sig: &Signature) -> (r: FuncRef)
        requires
            old(self).wf(),
        ensures
            final(self).wf(),
            final(self).lookup_spec(sig.name@) == Some(r),
            old(self).lookup_spec(sig.name@) matches Some(fr) ==> r == fr && *final(self) == *old(self),
            old(self).lookup_spec(sig.name@) is None ==> ({
                &&& r.0 == old(self).declared@.len()
                &&& final(self).declared@.len() == old(self).declared@.len() + 1
                &&& final(self).ctx.declared_funcs@.len() == old(self).ctx.declared_funcs@.len() + 1
                &&& final(self).ctx.declared_funcs@[r.0 as int].name@ == sig.name@
                &&& final(self).ctx.declared_funcs@[r.0 as int].args@ == sig.args@
                &&& final(self).ctx.declared_funcs@[r.0 as int].ret_ty == sig.ret_ty
                &&& final(self).funcs.funcs@.len() == old(self).funcs.funcs@.len() + 1
                &&& final(self).funcs.funcs@[r.0 as int].sig.name@ == sig.name@
                &&& final(self).funcs.funcs@[r.0 as int].sig.args@ == sig.args@
                &&& final(self).funcs.funcs@[r.0 as int].sig.ret_ty == sig.ret_ty
                &&& final(self).funcs.funcs@[r.0 as int].wf()
                &&& final(self).funcs.funcs@[r.0 as int].dfg.num_insns() == 0
                &&& final(self).funcs.funcs@[r.0 as int].dfg.num_blocks() == 0
                &&& final(self).funcs.funcs@[r.0 as int].layout.block_order@.len() == 0
                &&& forall|j: int|
                    0 <= j < old(self).funcs.funcs@.len() ==> final(self).funcs.funcs@[j] == old(self).funcs.funcs@[j]
                &&& forall|j: int|
                    0 <= j < old(self).ctx.declared_funcs@.len() ==> final(self).ctx.declared_funcs@[j] == old(self).ctx.declared_funcs@[j]
            }),
            final(self).ctx.target == old(self).ctx.target,
            final(self).ctx.type_store == old(self).ctx.type_store,
            final(self).ctx.gv_store == old(self).ctx.gv_store,
    {
        let n = self.declared.len();
        let mut k: usize = 0;
        while k < n
            invariant
                *self == *old(self),
                n == self.declared@.len(),
                k <= n,
                forall|j: int| 0 <= j < k ==> (#[trigger] self.declared@[j]).0@ != sig.name@,
            decreases n - k,
        {
            if self.declared[k].0 == sig.name {
                proof {
                    assert(self.declared@[k as int].0@ == sig.name@);
                    let j = choose|j: int|
                        0 <= j < self.declared@.len() && (#[trigger] self.declared@[j]).0@
                            == sig.name@;
                    assert(j == k as int);
                }
                return self.declared[k].1;
            }
            k += 1;
        }
        proof {
            assert(self.lookup_spec(sig.name@) is None);
        }
        let func = Function::new(sig.duplicate());
        let func_ref = self.funcs.insert(func);
        self.declared.push((sig.name.clone(), func_ref));
        self.ctx.declared_funcs.push(sig.duplicate());
        proof {
            assert(self.declared@[n as int].0@ == sig.name@);
            let j = choose|j: int|
                0 <= j < self.declared@.len() && (#[trigger] self.declared@[j]).0@ == sig.name@;
            assert forall|k1: int, k2: int|
                0 <= k1 < self.declared@.len() && 0 <= k2 < self.declared@.len() && (
                #[trigger] self.declared@[k1]).0@ == (#[trigger] self.declared@[k2]).0@ implies k1
                == k2 by {
                if k1 < n as int && k2 < n as int {
                    assert(old(self).declared@[k1] == self.declared@[k1]);
                    assert(old(self).declared@[k2] == self.declared@[k2]);
                } else if k1 < n as int && k2 == n as int {
                    assert(self.declared@[k1].0@ == sig.name@);
                } else if k2 < n as int && k1 == n as int {
                    assert(self.declared@[k2].0@ == sig.name@);
                }
            }
            assert(j == n as int);
        }
        func_ref
    }

    /// Looks a declared function up by name.
    #[verifier::loop_isolation(false)]
    pub fn lookup_func(&self, name: &String) -> (r: Option<FuncRef>)
        requires
            self.wf(),
        ensures
            r == self.lookup_spec(name@),
    {
        let n = self.declared.len();
        let mut k: usize = 0;
        while k < n
            invariant
                n == self.declared@.len(),
                k <= n,
                forall|j: int| 0 <= j < k ==> (#[trigger] self.declared@[j]).0@ != name@,
            decreases n - k,
        {
            if self.declared[k].0 == *name {
                proof {
                    assert(self.declared@[k as int].0@ == name@);
                    let j = choose|j: int|
                        0 <= j < self.declared@.len() && (#[trigger] self.declared@[j]).0@
                            == name@;
                    assert(j == k as int);
                }
                return Some(self.declared[k].1);
            }
            k += 1;
        }
        None
    }

    /// The signature a function was declared with.
    pub fn sig(&self, func_ref: FuncRef) -> (r: &Signature)
        requires
            self.ctx.valid_func(func_ref),
        ensures
            *r == self.ctx.declared_funcs@[func_ref.0 as int],
    {
        self.ctx.func_sig(func_ref)
    }

    /// Registers a global variable.
    pub fn make_global(&mut self, global: GlobalVariableData) -> (r: GlobalVariable)
        requires
            old(self).wf(),
        ensures
            final(self).wf(),
            r.0 == old(self).ctx.gv_store.num_gvs(),
            final(self).ctx.gv_store.gvs@ == old(self).ctx.gv_store.gvs@.push(global),
    {
        self.ctx.gv_store.make_gv(global)
    }

    /// Looks a global up by symbol.
    pub fn lookup_global(&self, name: &String) -> (r: Option<GlobalVariable>)
        ensures
            r is Some <==> self.ctx.gv_store.lookup_spec(name@) is Some,
            r matches Some(gv) ==> self.ctx.gv_store.is_valid(gv) && self.ctx.gv_store.data_spec(
                gv,
            ).symbol@ == name@,
    {
        self.ctx.gv_store.gv_by_symbol(name)
    }

    /// Interns a struct type, unique by name.
    pub fn declare_struct_type(&mut self, name: &String, fields: Vec<Type>, packed: bool) -> (r:
        Type)
        requires
            old(self).wf(),
            forall|k: int|
                0 <= k < fields@.len() ==> old(self).ctx.type_store.is_valid(
                    #[trigger] fields@[k],
                ),
        ensures
            final(self).wf(),
            final(self).ctx.type_store.is_valid(r),
            r matches Type::Compound(c) && crate::types::is_struct_named(
                final(self).ctx.type_store.data_spec(c),
                name@,
            ),
            old(self).ctx.type_store.find_struct_spec(name@) is Some ==> final(self).ctx.type_store == old(self).ctx.type_store,
            old(self).ctx.type_store.find_struct_spec(name@) is None ==> ({
                &&& final(self).ctx.type_store.num_compounds() == old(self).ctx.type_store.num_compounds() + 1
                &&& final(self).ctx.type_store.compounds@.last()
                    matches crate::types::CompoundTypeData::Struct(s) && s.name@ == name@
                    && s.fields@ == fields@ && s.packed == packed
                &&& r == Type::Compound(crate::types::CompoundType(
                    old(self).ctx.type_store.num_compounds() as usize,
                ))
            }),
    {
        self.ctx.type_store.make_struct(name, fields, packed)
    }

    /// Looks a struct type up by name.
    pub fn get_struct_type(&self, name: &String) -> (r: Option<Type>)
        ensures
            r is Some <==> self.ctx.type_store.find_struct_spec(name@) is Some,
            r matches Some(t) ==> (t matches Type::Compound(c) && (c.0 as int)
                < self.ctx.type_store.num_compounds() && crate::types::is_struct_named(
                self.ctx.type_store.data_spec(c),
                name@,
            )),
    {
        self.ctx.type_store.struct_type_by_name(name)
    }

    /// Interns an array type.
    pub fn declare_array_type(&mut self, elem: Type, len: usize) -> (r: Type)
        requires
            old(self).wf(),
            old(self).ctx.type_store.is_valid(elem),
        ensures
            final(self).wf(),
            final(self).ctx.type_store.is_valid(r),
            r matches Type::Compound(c) && crate::types::is_array_of(
                final(self).ctx.type_store.data_spec(c),
                elem,
                len,
            ),
    {
        self.ctx.type_store.make_array(elem, len)
    }

    /// Creates a function type.
    pub fn declare_func_type(&mut self, args: Vec<Type>, ret_ty: Type) -> (r: Type)
        requires
            old(self).wf(),
            old(self).ctx.type_store.is_valid(ret_ty),
            forall|k: int|
                0 <= k < args@.len() ==> old(self).ctx.type_store.is_valid(#[trigger] args@[k]),
        ensures
            final(self).wf(),
            final(self).ctx.type_store.is_valid(r),
    {
        self.ctx.type_store.make_func(args, ret_ty)
    }

    /// Interns the pointer type to `ty`.
    pub fn ptr_type(&mut self, ty: Type) -> (r: Type)
        requires
            old(self).wf(),
            old(self).ctx.type_store.is_valid(ty),
        ensures
            final(self).wf(),
            final(self).ctx.type_store.is_valid(r),
            r matches Type::Compound(c) && final(self).ctx.type_store.data_spec(c)
                == crate::types::CompoundTypeData::Ptr(ty),
    {
        self.ctx.type_store.make_ptr(ty)
    }

    /// Finishes the module.
    pub fn build(self) -> (r: Module)
        requires
            self.wf(),
        ensures
            r.funcs == self.funcs,
            r.ctx == self.ctx,
    {
        Module { funcs: self.funcs, ctx: self.ctx }
    }
}

} // verus!
