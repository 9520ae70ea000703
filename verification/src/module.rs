use vstd::prelude::*;

verus! {

use crate::function::{Function, Signature};
use crate::global_variable::GlobalVariableStore;
use crate::types::{
    prim_bytes, round_up, spec_layout_of, spec_struct_fold, ty_rank, CompoundTypeData, Type,
    TypeLayoutError, TypeStore,
};

/// An opaque reference to a declared function of a module.
#[derive(Debug, Clone, Copy, PartialEq, Eq, Hash, Structural)]
pub struct FuncRef(pub usize);

/// Byte order of the target machine.
#[derive(Debug, Clone, Copy, PartialEq, Eq, Structural)]
pub enum Endian {
    Little,
    Big,
}

/// Everything target-specific the core needs: the named integer widths the
/// builder surfaces and the byte order. Swapping targets means swapping this
/// value; nothing else in the core changes.
#[derive(Debug, Clone, Copy, PartialEq, Eq, Structural)]
pub struct TargetSpec {
    pub pointer: Type,
    pub address: Type,
    pub balance: Type,
    pub gas: Type,
    pub endian: Endian,
}

impl TargetSpec {
    /// The four named types must be primitive integer widths.
    pub open spec fn wf(self) -> bool {
        &&& !(self.pointer matches Type::Compound(_))
        &&& !(self.address matches Type::Compound(_))
        &&& !(self.balance matches Type::Compound(_))
        &&& !(self.gas matches Type::Compound(_))
    }
}

/// The module-wide context: the target description, the interned type
/// store, the global-variable store and the signatures of the declared
/// functions, indexed by [`FuncRef`].
#[derive(Debug)]
pub struct ModuleCtx {
    pub target: TargetSpec,
    pub type_store: TypeStore,
    pub gv_store: GlobalVariableStore,
    pub declared_funcs: Vec<Signature>,
}

impl ModuleCtx {
    pub open spec fn wf(self) -> bool {
        &&& self.target.wf()
        &&& self.type_store.wf()
    }

    pub open spec fn valid_func(self, f: FuncRef) -> bool {
        (f.0 as int) < self.declared_funcs@.len()
    }

    pub fn new(target: TargetSpec) -> (r: ModuleCtx)
        requires
            target.wf(),
        ensures
            r.wf(),
            r.target == target,
            r.type_store.num_compounds() == 0,
            r.gv_store.num_gvs() == 0,
            r.declared_funcs@.len() == 0,
    {
        ModuleCtx {
            target,
            type_store: TypeStore::new(),
            gv_store: GlobalVariableStore::new(),
            declared_funcs: Vec::new(),
        }
    }

    /// The signature a function was declared with.
    pub fn func_sig(&self, func_ref: FuncRef) -> (r: &Signature)
        requires
            self.valid_func(func_ref),
        ensures
            *r == self.declared_funcs@[func_ref.0 as int],
    {
        &self.declared_funcs[func_ref.0]
    }

    /// The byte size of `ty` under the target's layout rules.
    pub fn size_of(&self, ty: Type) -> (r: Result<usize, TypeLayoutError>)
        requires
            self.wf(),
            self.type_store.is_valid(ty),
        ensures
            match spec_layout_of(self.type_store, self.target, ty) {
                Ok(sa) => r matches Ok(s) && s == sa.0,
                Err(e) => r == Err::<usize, TypeLayoutError>(e),
            },
    {
        match layout_of(&self.type_store, self.target, ty) {
            Ok((s, _)) => Ok(s),
            Err(e) => Err(e),
        }
    }

    /// The byte alignment of `ty` under the target's layout rules.
    pub fn align_of(&self, ty: Type) -> (r: Result<usize, TypeLayoutError>)
        requires
            self.wf(),
            self.type_store.is_valid(ty),
        ensures
            match spec_layout_of(self.type_store, self.target, ty) {
                Ok(sa) => r matches Ok(a) && a == sa.1,
                Err(e) => r == Err::<usize, TypeLayoutError>(e),
            },
    {
        match layout_of(&self.type_store, self.target, ty) {
            Ok((_, a)) => Ok(a),
            Err(e) => Err(e),
        }
    }

    pub fn endian(&self) -> (r: Endian)
        ensures
            r == self.target.endian,
    {
        self.target.endian
    }
}


/// Executable layout computation over the interned type store; mirrors
/// [`spec_layout_of`], reporting a size beyond the host's address range as
/// unsized.
#[verifier::loop_isolation(false)]
fn layout_of(ts: &TypeStore, tgt: TargetSpec, ty: Type) -> (r: Result<
    (usize, usize),
    TypeLayoutError,
>)
    requires
        ts.wf(),
        ts.is_valid(ty),
        tgt.wf(),
    ensures
        match spec_layout_of(*ts, tgt, ty) {
            Ok(sa) => r matches Ok(p) && p.0 == sa.0 && p.1 == sa.1 && 1 <= sa.1 <= 32,
            Err(e) => r == Err::<(usize, usize), TypeLayoutError>(e),
        },
    decreases ty_rank(ty), 0int,
{
    proof {
        assert(ts.wf() && ts.is_valid(ty) && tgt.wf());
    }
    match ty {
        Type::I1 => {
            proof {
                assert(spec_layout_of(*ts, tgt, ty) == Ok::<(int, int), TypeLayoutError>((
                    1int,
                    1int,
                )));
            }
            Ok((1, 1))
        },
        Type::I8 => Ok((1, 1)),
        Type::I16 => Ok((2, 2)),
        Type::I32 => Ok((4, 4)),
        Type::I64 => Ok((8, 8)),
        Type::I128 => Ok((16, 16)),
        Type::I256 => Ok((32, 32)),
        Type::Compound(c) => {
            match ts.resolve(c) {
                CompoundTypeData::Ptr(_) => {
                    let p = match tgt.pointer {
                        Type::I1 => 1,
                        Type::I8 => 1,
                        Type::I16 => 2,
                        Type::I32 => 4,
                        Type::I64 => 8,
                        Type::I128 => 16,
                        Type::I256 => 32,
                        Type::Compound(_) => unreached(),
                    };
                    proof {
                        assert(spec_layout_of(*ts, tgt, ty) == Ok::<(int, int), TypeLayoutError>(
                            (prim_bytes(tgt.pointer), prim_bytes(tgt.pointer)),
                        ));
                        assert(p as int == prim_bytes(tgt.pointer));
                    }
                    Ok((p, p))
                },
                CompoundTypeData::Array { elem, len } => {
                    proof {
                        assert(crate::types::data_below(ts.data_spec(c), c.0 as int));
                    }
                    match layout_of(ts, tgt, *elem) {
                        Ok((s, a)) => match s.checked_mul(*len) {
                            Some(total) => {
                                proof {
                                    let esa = spec_layout_of(*ts, tgt, *elem)->Ok_0;
                                    assert(spec_layout_of(*ts, tgt, ty) == Ok::<
                                        (int, int),
                                        TypeLayoutError,
                                    >((esa.0 * (*len as int), esa.1)));
                                    assert(total as int == esa.0 * (*len as int));
                                }
                                Ok((total, a))
                            },
                            None => {
                                proof {
                                    let sa = spec_layout_of(*ts, tgt, *elem)->Ok_0;
                                    assert(sa.0 * (*len as int) > usize::MAX) by (
                                    nonlinear_arith)
                                        requires
                                            sa.0 == s as int,
                                            (s as int) * (*len as int) > usize::MAX as int,
                                    ;
                                }
                                Err(TypeLayoutError::Unsized)
                            },
                        },
                        Err(e) => Err(e),
                    }
                },
                CompoundTypeData::Struct(st) => {
                    proof {
                        assert(crate::types::data_below(ts.data_spec(c), c.0 as int));
                    }
                    let n = st.fields.len();
                    let mut off: usize = 0;
                    let mut al: usize = 1;
                    let mut i: usize = 0;
                    let ghost fields = st.fields@;
                    let ghost bound = c.0 as int;
                    while i < n
                        invariant
                            n == fields.len(),
                            i <= n,
                            1 <= al <= 32,
                            forall|k: int|
                                0 <= k < fields.len() ==> crate::types::ty_below(
                                    #[trigger] fields[k],
                                    bound,
                                ),
                            0 <= bound < ts.compounds@.len(),
                            spec_struct_fold(
                                *ts,
                                tgt,
                                fields,
                                0,
                                bound,
                                st.packed,
                                0,
                                1,
                            ) == spec_struct_fold(
                                *ts,
                                tgt,
                                fields,
                                i as int,
                                bound,
                                st.packed,
                                off as int,
                                al as int,
                            ),
                        decreases n - i,
                    {
                        let f = st.fields[i];
                        proof {
                            assert(crate::types::ty_below(fields[i as int], bound));
                            assert(ty_rank(f) <= bound);
                        }
                        match layout_of(ts, tgt, f) {
                            Ok((s, a)) => {
                                proof {
                                    crate::types::lemma_layout_err_unsized(*ts, tgt, f);
                                }
                                if st.packed {
                                    match off.checked_add(s) {
                                        Some(noff) => {
                                            off = noff;
                                        },
                                        None => {
                                            proof {
                                                lemma_struct_overflow(
                                                    *ts,
                                                    tgt,
                                                    fields,
                                                    i as int,
                                                    bound,
                                                    st.packed,
                                                    off as int,
                                                    al as int,
                                                    off as int + s as int,
                                                    al as int,
                                                );
                                                lemma_spec_struct_wrap(
                                                    *ts,
                                                    tgt,
                                                    ty,
                                                    c,
                                                );
                                            }
                                            return Err(TypeLayoutError::Unsized);
                                        },
                                    }
                                } else {
                                    let ghost goal_off: int = round_up(off as int, a as int)
                                        + s as int;
                                    proof {
                                        assert(round_up(off as int, a as int) >= off as int) by (
                                        nonlinear_arith)
                                            requires
                                                1 <= a as int,
                                                0 <= off as int,
                                        {
                                        }
                                    }
                                    let rem = off % a;
                                    let padded_opt = if rem == 0 {
                                        Some(off)
                                    } else {
                                        off.checked_add(a - rem)
                                    };
                                    proof {
                                        assert(match padded_opt {
                                            Some(p) => p as int == round_up(
                                                off as int,
                                                a as int,
                                            ),
                                            None => round_up(off as int, a as int)
                                                > usize::MAX as int,
                                        }) by (nonlinear_arith)
                                            requires
                                                1 <= a as int <= 32,
                                                0 <= off as int <= usize::MAX as int,
                                                rem as int == (off as int) % (a as int),
                                                padded_opt matches Some(p) ==> p as int == (
                                                if rem as int == 0 {
                                                    off as int
                                                } else {
                                                    off as int + (a as int - rem as int)
                                                }),
                                                padded_opt is None ==> rem as int != 0 && off
                                                    as int + (a as int - rem as int)
                                                    > usize::MAX as int,
                                        ;
                                    }
                                    let next_opt = match padded_opt {
                                        Some(p) => p.checked_add(s),
                                        None => None,
                                    };
                                    match next_opt {
                                        Some(noff) => {
                                            off = noff;
                                        },
                                        None => {
                                            proof {
                                                lemma_struct_overflow(
                                                    *ts,
                                                    tgt,
                                                    fields,
                                                    i as int,
                                                    bound,
                                                    st.packed,
                                                    off as int,
                                                    al as int,
                                                    goal_off,
                                                    if a as int > al as int {
                                                        a as int
                                                    } else {
                                                        al as int
                                                    },
                                                );
                                                lemma_spec_struct_wrap(*ts, tgt, ty, c);
                                            }
                                            return Err(TypeLayoutError::Unsized);
                                        },
                                    }
                                    if a > al {
                                        al = a;
                                    }
                                }
                            },
                            Err(e) => {
                                proof {
                                    crate::types::lemma_layout_err_unsized(*ts, tgt, f);
                                    match spec_layout_of(*ts, tgt, fields[i as int]) {
                                        Ok(sa) => {
                                            let next_off: int = if st.packed {
                                                off as int + sa.0
                                            } else {
                                                round_up(off as int, sa.1) + sa.0
                                            };
                                            let next_al: int = if st.packed {
                                                al as int
                                            } else if sa.1 > al as int {
                                                sa.1
                                            } else {
                                                al as int
                                            };
                                            assert(round_up(off as int, sa.1) >= off as int) by (
                                            nonlinear_arith)
                                                requires
                                                    1 <= sa.1,
                                                    0 <= off as int,
                                            {
                                            }
                                            lemma_struct_overflow(
                                                *ts,
                                                tgt,
                                                fields,
                                                i as int,
                                                bound,
                                                st.packed,
                                                off as int,
                                                al as int,
                                                next_off,
                                                next_al,
                                            );
                                            lemma_spec_struct_wrap(*ts, tgt, ty, c);
                                        },
                                        Err(e2) => {
                                            assert(spec_struct_fold(
                                                *ts,
                                                tgt,
                                                fields,
                                                i as int,
                                                bound,
                                                st.packed,
                                                off as int,
                                                al as int,
                                            ) == Err::<(int, int), TypeLayoutError>(e2));
                                            lemma_spec_struct_wrap(*ts, tgt, ty, c);
                                        },
                                    }
                                }
                                return Err(e);
                            },
                        }
                        i += 1;
                    }
                    proof {
                        assert(spec_struct_fold(
                            *ts,
                            tgt,
                            fields,
                            n as int,
                            bound,
                            st.packed,
                            off as int,
                            al as int,
                        ) == Ok::<(int, int), TypeLayoutError>((off as int, al as int)));
                        lemma_spec_struct_wrap(*ts, tgt, ty, c);
                    }
                    if st.packed {
                        proof {
                            assert(spec_layout_of(*ts, tgt, ty) == Ok::<(int, int), TypeLayoutError>(
                                (off as int, 1int),
                            ));
                        }
                        Ok((off, 1))
                    } else {
                        let rem = off % al;
                        let size_opt = if rem == 0 {
                            Some(off)
                        } else {
                            off.checked_add(al - rem)
                        };
                        proof {
                            assert(match size_opt {
                                Some(p) => p as int == round_up(off as int, al as int),
                                None => round_up(off as int, al as int) > usize::MAX as int,
                            }) by (nonlinear_arith)
                                requires
                                    1 <= al as int <= 32,
                                    0 <= off as int <= usize::MAX as int,
                                    rem as int == (off as int) % (al as int),
                                    size_opt matches Some(p) ==> p as int == (if rem as int
                                        == 0 {
                                        off as int
                                    } else {
                                        off as int + (al as int - rem as int)
                                    }),
                                    size_opt is None ==> rem as int != 0 && off as int + (
                                    al as int - rem as int) > usize::MAX as int,
                            ;
                        }
                        let size = match size_opt {
                            Some(p) => p,
                            None => {
                                return Err(TypeLayoutError::Unsized);
                            },
                        };
                        proof {
                            assert(spec_layout_of(*ts, tgt, ty) == Ok::<(int, int), TypeLayoutError>(
                                (round_up(off as int, al as int), al as int),
                            ));
                        }
                        Ok((size, al))
                    }
                },
                CompoundTypeData::Func { .. } => Err(TypeLayoutError::Unsized),
            }
        },
    }
}


/// At an intermediate overflow the final struct layout is either unsized
/// or beyond the host's address range.
proof fn lemma_struct_overflow(
    ts: TypeStore,
    tgt: TargetSpec,
    fields: Seq<Type>,
    i: int,
    bound: int,
    packed: bool,
    off: int,
    al: int,
    next_off: int,
    next_al: int,
)
    requires
        ts.wf(),
        tgt.wf(),
        0 <= i < fields.len(),
        0 <= bound < ts.compounds@.len(),
        forall|k: int| 0 <= k < fields.len() ==> crate::types::ty_below(#[trigger] fields[k], bound),
        0 <= off,
        1 <= al <= 32,
        1 <= next_al <= 32,
        next_off > usize::MAX as int,
        spec_layout_of(ts, tgt, fields[i]) matches Ok(sa) && (if packed {
            next_off == off + sa.0 && next_al == al
        } else {
            next_off == round_up(off, sa.1) + sa.0 && next_al == (if sa.1 > al {
                sa.1
            } else {
                al
            })
        }),
        next_al >= al,
    ensures
        spec_struct_fold(ts, tgt, fields, i, bound, packed, off, al) == Err::<
            (int, int),
            TypeLayoutError,
        >(TypeLayoutError::Unsized),
{
}


/// Connects the struct fold at the entry state to the struct's final
/// layout as `spec_layout_of` reports it.
proof fn lemma_spec_struct_wrap(ts: TypeStore, tgt: TargetSpec, ty: Type, c: crate::types::CompoundType)
    requires
        ts.wf(),
        tgt.wf(),
        ty == Type::Compound(c),
        ts.is_valid(ty),
        ts.data_spec(c) matches CompoundTypeData::Struct(_),
    ensures
        ({
            let st = (match ts.data_spec(c) {
                CompoundTypeData::Struct(st) => st,
                _ => arbitrary(),
            });
            match spec_struct_fold(ts, tgt, st.fields@, 0, c.0 as int, st.packed, 0, 1) {
                Ok(sa) => (!st.packed ==> round_up(sa.0, sa.1) >= sa.0) && spec_layout_of(
                    ts,
                    tgt,
                    ty,
                ) == (if st.packed {
                    Ok::<(int, int), TypeLayoutError>((sa.0, 1int))
                } else if round_up(sa.0, sa.1) > usize::MAX as int {
                    Err::<(int, int), TypeLayoutError>(TypeLayoutError::Unsized)
                } else {
                    Ok::<(int, int), TypeLayoutError>((round_up(sa.0, sa.1), sa.1))
                }),
                Err(e) => spec_layout_of(ts, tgt, ty) == Err::<(int, int), TypeLayoutError>(e),
            }
        }),
{
    let st = (match ts.data_spec(c) {
        CompoundTypeData::Struct(st) => st,
        _ => arbitrary(),
    });
    assert(crate::types::data_below(ts.data_spec(c), c.0 as int));
    crate::types::lemma_fold_err_unsized(ts, tgt, st.fields@, 0, c.0 as int, st.packed, 0, 1);
    match spec_struct_fold(ts, tgt, st.fields@, 0, c.0 as int, st.packed, 0, 1) {
        Ok(sa) => {
            if !st.packed {
                assert(round_up(sa.0, sa.1) >= sa.0) by (nonlinear_arith)
                    requires
                        1 <= sa.1,
                        0 <= sa.0,
                {
                }
            }
        },
        Err(_) => {},
    }
}

/// The module-wide table of finished functions, indexed by [`FuncRef`].
#[derive(Debug)]
pub struct FuncStore {
    pub funcs: Vec<Function>,
}

impl FuncStore {
    pub open spec fn num_funcs(self) -> int {
        self.funcs@.len() as int
    }

    pub open spec fn valid_func(self, f: FuncRef) -> bool {
        (f.0 as int) < self.num_funcs()
    }

    pub fn new() -> (r: FuncStore)
        ensures
            r.num_funcs() == 0,
    {
        FuncStore { funcs: Vec::new() }
    }

    /// Stores a function and hands out its reference.
    pub fn insert(&mut self, func: Function) -> (r: FuncRef)
        ensures
            r.0 == old(self).num_funcs(),
            final(self).funcs@ == old(self).funcs@.push(func),
    {
        let r = FuncRef(self.funcs.len());
        self.funcs.push(func);
        r
    }

    /// Replaces the function stored under an existing reference.
    pub fn update(&mut self, func_ref: FuncRef, func: Function)
        requires
            old(self).valid_func(func_ref),
        ensures
            final(self).funcs@ == old(self).funcs@.update(func_ref.0 as int, func),
    {
        self.funcs[func_ref.0] = func;
    }

    /// Reads the function stored under a reference.
    pub fn view_func(&self, func_ref: FuncRef) -> (r: &Function)
        requires
            self.valid_func(func_ref),
        ensures
            *r == self.funcs@[func_ref.0 as int],
    {
        &self.funcs[func_ref.0]
    }

    /// All currently allocated references, in order.
    #[verifier::loop_isolation(false)]
    pub fn funcs(&self) -> (r: Vec<FuncRef>)
        ensures
            r@.len() == self.num_funcs(),
            forall|k: int| 0 <= k < r@.len() ==> (#[trigger] r@[k]).0 == k,
    {
        let n = self.funcs.len();
        let mut out: Vec<FuncRef> = Vec::new();
        let mut k: usize = 0;
        while k < n
            invariant
                k <= n,
                out@.len() == k,
                forall|j: int| 0 <= j < k ==> (#[trigger] out@[j]).0 == j,
            decreases n - k,
        {
            out.push(FuncRef(k));
            k += 1;
        }
        out
    }
}

/// A finished module: its functions and the shared context.
#[derive(Debug)]
pub struct Module {
    pub funcs: FuncStore,
    pub ctx: ModuleCtx,
}

impl Module {
    pub fn new(isa: TargetSpec) -> (r: Module)
        requires
            isa.wf(),
        ensures
            r.ctx.wf(),
            r.funcs.num_funcs() == 0,
    {
        Module { funcs: FuncStore::new(), ctx: ModuleCtx::new(isa) }
    }

    /// All declared function references, in order.
    pub fn funcs(&self) -> (r: Vec<FuncRef>)
        ensures
            r@.len() == self.funcs.num_funcs(),
            forall|k: int| 0 <= k < r@.len() ==> (#[trigger] r@[k]).0 == k,
    {
        self.funcs.funcs()
    }
}

} // verus!
