use vstd::prelude::*;

verus! {

/// A structural type: an integer width, or a handle into the module's
/// [`TypeStore`] for pointer, array, struct and function types.
#[derive(Debug, Clone, Copy, PartialEq, Eq, Structural)]
pub enum Type {
    I1,
    I8,
    I16,
    I32,
    I64,
    I128,
    I256,
    Compound(CompoundType),
}

/// An opaque reference to a [`CompoundTypeData`] interned in a [`TypeStore`].
#[derive(Debug, Clone, Copy, PartialEq, Eq, Structural)]
pub struct CompoundType(pub usize);

/// The payload of a struct type: a symbolic name, the field types in order,
/// and whether the layout is packed (no padding, alignment one).
#[derive(Debug)]
pub struct StructData {
    pub name: String,
    pub fields: Vec<Type>,
    pub packed: bool,
}

/// The definition of a compound type.
#[derive(Debug)]
pub enum CompoundTypeData {
    Array { elem: Type, len: usize },
    Ptr(Type),
    Struct(StructData),
    Func { args: Vec<Type>, ret_ty: Type },
}

/// Why a layout query could not be answered.
#[derive(Debug, Clone, Copy, PartialEq, Eq, Structural)]
pub enum TypeLayoutError {
    /// The type has no size: a function type, or a size beyond the host's
    /// address range.
    Unsized,
    /// The type refers to itself, so no finite layout exists. The store
    /// only lets an entry mention earlier handles, so its layout queries
    /// never return this; it exists for callers that build layouts over
    /// other sources of type data.
    RecursiveType,
}

/// How far up the handle order a type reaches: primitives reach nowhere, a
/// compound handle `c` has rank `c + 1`. Every store entry only refers to
/// strictly smaller handles, so ranks decrease along any chain of references;
/// this is what makes layout queries terminate.
pub open spec fn ty_rank(ty: Type) -> int {
    match ty {
        Type::Compound(c) => c.0 as int + 1,
        _ => 0,
    }
}

/// `ty` only mentions compound handles strictly below `bound`.
pub open spec fn ty_below(ty: Type, bound: int) -> bool {
    match ty {
        Type::Compound(c) => (c.0 as int) < bound,
        _ => true,
    }
}

/// All types inside `data` only mention compound handles strictly below
/// `bound`.
pub open spec fn data_below(data: CompoundTypeData, bound: int) -> bool {
    match data {
        CompoundTypeData::Array { elem, .. } => ty_below(elem, bound),
        CompoundTypeData::Ptr(t) => ty_below(t, bound),
        CompoundTypeData::Struct(s) => forall|i: int|
            0 <= i < s.fields@.len() ==> ty_below(#[trigger] s.fields@[i], bound),
        CompoundTypeData::Func { args, ret_ty } => ty_below(ret_ty, bound) && forall|i: int|
            0 <= i < args@.len() ==> ty_below(#[trigger] args@[i], bound),
    }
}

/// Whether `data` is the pointer type to `ty`.
pub open spec fn is_ptr_to(data: CompoundTypeData, ty: Type) -> bool {
    data matches CompoundTypeData::Ptr(t) && t == ty
}

/// Whether `data` is a pointer type at all.
pub open spec fn is_ptr_data(data: CompoundTypeData) -> bool {
    data matches CompoundTypeData::Ptr(_)
}

/// The pointee of a pointer entry (arbitrary on other entries).
pub open spec fn ty_of_ptr(data: CompoundTypeData) -> Type {
    match data {
        CompoundTypeData::Ptr(t) => t,
        _ => Type::I1,
    }
}

/// Interns compound types by structural identity; struct types are unique by
/// name. Because a handle can only be mentioned once it exists, no entry can
/// refer to itself or to a later entry.
#[derive(Debug)]
pub struct TypeStore {
    pub compounds: Vec<CompoundTypeData>,
}

impl TypeStore {
    pub open spec fn wf(self) -> bool {
        &&& forall|i: int|
            0 <= i < self.compounds@.len() ==> data_below(#[trigger] self.compounds@[i], i)
        &&& forall|i: int, j: int|
            0 <= i < self.compounds@.len() && 0 <= j < self.compounds@.len() && is_ptr_to(
                #[trigger] self.compounds@[i],
                ty_of_ptr(self.compounds@[j]),
            ) && is_ptr_data(#[trigger] self.compounds@[j]) ==> i == j
    }

    /// `ty` is a primitive or a handle this store has issued.
    pub open spec fn is_valid(self, ty: Type) -> bool {
        ty_below(ty, self.compounds@.len() as int)
    }

    pub open spec fn data_spec(self, c: CompoundType) -> CompoundTypeData {
        self.compounds@[c.0 as int]
    }

    pub open spec fn num_compounds(self) -> int {
        self.compounds@.len() as int
    }

    pub fn new() -> (r: TypeStore)
        ensures
            r.wf(),
            r.num_compounds() == 0,
    {
        TypeStore { compounds: Vec::new() }
    }

    /// The data behind a compound handle.
    pub fn resolve(&self, c: CompoundType) -> (r: &CompoundTypeData)
        requires
            (c.0 as int) < self.num_compounds(),
        ensures
            *r == self.data_spec(c),
    {
        &self.compounds[c.0]
    }

    /// First handle whose entry is `Ptr(ty)`, if any.
    pub open spec fn find_ptr_spec(self, ty: Type) -> Option<int> {
        if exists|i: int|
            0 <= i < self.compounds@.len() && is_ptr_to(#[trigger] self.compounds@[i], ty) {
            Some(
                choose|i: int|
                    0 <= i < self.compounds@.len() && is_ptr_to(#[trigger] self.compounds@[i], ty),
            )
        } else {
            None
        }
    }

    /// Interns the pointer-to-`ty` type: returns the existing handle when
    /// some entry already is `Ptr(ty)`, and a fresh one otherwise.
    pub fn make_ptr(&mut self, ty: Type) -> (r: Type)
        requires
            old(self).wf(),
            old(self).is_valid(ty),
        ensures
            final(self).wf(),
            final(self).is_valid(r),
            r matches Type::Compound(c) && final(self).data_spec(c) == CompoundTypeData::Ptr(ty),
            old(self).find_ptr_spec(ty) matches Some(i) ==> *final(self) == *old(self) && r
                == Type::Compound(CompoundType(i as usize)),
            old(self).find_ptr_spec(ty) is None ==> final(self).compounds@ == old(self).compounds@.push(CompoundTypeData::Ptr(ty)),
            forall|j: int|
                0 <= j < old(self).compounds@.len() ==> final(self).compounds@[j] == old(self).compounds@[j],
    {
        let n = self.compounds.len();
        let mut i: usize = 0;
        while i < n
            invariant
                *self == *old(self),
                old(self).wf(),
                n == self.compounds@.len(),
                forall|j: int| 0 <= j < i ==> !is_ptr_to(#[trigger] self.compounds@[j], ty),
            decreases n - i,
        {
            match self.compounds[i] {
                CompoundTypeData::Ptr(t) => {
                    if t == ty {
                        proof {
                            assert(is_ptr_to(self.compounds@[i as int], ty));
                            let k = choose|k: int|
                                0 <= k < self.compounds@.len() && is_ptr_to(
                                    self.compounds@[k],
                                    ty,
                                );
                            assert(ty_of_ptr(self.compounds@[k]) == ty);
                            assert(k == i as int);
                        }
                        return Type::Compound(CompoundType(i));
                    }
                },
                _ => {},
            }
            i += 1;
        }
        self.compounds.push(CompoundTypeData::Ptr(ty));
        Type::Compound(CompoundType(n))
    }
}

/// Whether `data` is the array type over `elem` of length `len`.
pub open spec fn is_array_of(data: CompoundTypeData, elem: Type, len: usize) -> bool {
    data matches CompoundTypeData::Array { elem: e, len: l } && e == elem && l == len
}

/// Whether `data` is a struct type of the given name.
pub open spec fn is_struct_named(data: CompoundTypeData, name: Seq<char>) -> bool {
    data matches CompoundTypeData::Struct(s) && s.name@ == name
}

impl TypeStore {
    /// First handle whose entry is the array over `elem` of length `len`.
    pub open spec fn find_array_spec(self, elem: Type, len: usize) -> Option<int> {
        if exists|i: int|
            0 <= i < self.compounds@.len() && is_array_of(#[trigger] self.compounds@[i], elem, len) {
            Some(
                choose|i: int|
                    0 <= i < self.compounds@.len() && is_array_of(
                        #[trigger] self.compounds@[i],
                        elem,
                        len,
                    ),
            )
        } else {
            None
        }
    }

    /// Interns the array type over `elem` of length `len`.
    #[verifier::loop_isolation(false)]
    pub fn make_array(&mut self, elem: Type, len: usize) -> (r: Type)
        requires
            old(self).wf(),
            old(self).is_valid(elem),
        ensures
            final(self).wf(),
            final(self).is_valid(r),
            r matches Type::Compound(c) && is_array_of(
                final(self).data_spec(c),
                elem,
                len,
            ),
            old(self).find_array_spec(elem, len) is Some ==> *final(self) == *old(self),
            forall|j: int|
                0 <= j < old(self).compounds@.len() ==> final(self).compounds@[j] == old(self).compounds@[j],
    {
        let n = self.compounds.len();
        let mut i: usize = 0;
        while i < n
            invariant
                *self == *old(self),
                n == self.compounds@.len(),
                forall|j: int| 0 <= j < i ==> !is_array_of(#[trigger] self.compounds@[j], elem, len),
            decreases n - i,
        {
            match &self.compounds[i] {
                CompoundTypeData::Array { elem: e, len: l } => {
                    if *e == elem && *l == len {
                        proof {
                            assert(is_array_of(self.compounds@[i as int], elem, len));
                        }
                        return Type::Compound(CompoundType(i));
                    }
                },
                _ => {},
            }
            i += 1;
        }
        self.compounds.push(CompoundTypeData::Array { elem, len });
        Type::Compound(CompoundType(n))
    }

    /// The handle of the struct declared under `name`, if any.
    pub open spec fn find_struct_spec(self, name: Seq<char>) -> Option<int> {
        if exists|i: int|
            0 <= i < self.compounds@.len() && is_struct_named(#[trigger] self.compounds@[i], name) {
            Some(
                choose|i: int|
                    0 <= i < self.compounds@.len() && is_struct_named(
                        #[trigger] self.compounds@[i],
                        name,
                    ),
            )
        } else {
            None
        }
    }

    /// Interns a struct type, unique by name: declaring the same name
    /// twice returns the existing handle and discards the new fields.
    #[verifier::loop_isolation(false)]
    pub fn make_struct(&mut self, name: &String, fields: Vec<Type>, packed: bool) -> (r: Type)
        requires
            old(self).wf(),
            forall|k: int| 0 <= k < fields@.len() ==> old(self).is_valid(#[trigger] fields@[k]),
        ensures
            final(self).wf(),
            final(self).is_valid(r),
            r matches Type::Compound(c) && is_struct_named(final(self).data_spec(c), name@),
            old(self).find_struct_spec(name@) is Some ==> *final(self) == *old(self),
            old(self).find_struct_spec(name@) is None ==> ({
                &&& final(self).num_compounds() == old(self).num_compounds() + 1
                &&& final(self).compounds@.last() matches CompoundTypeData::Struct(s)
                    && s.name@ == name@ && s.fields@ == fields@ && s.packed == packed
                &&& r == Type::Compound(CompoundType(old(self).num_compounds() as usize))
            }),
            forall|j: int|
                0 <= j < old(self).compounds@.len() ==> final(self).compounds@[j] == old(self).compounds@[j],
    {
        let n = self.compounds.len();
        let mut i: usize = 0;
        while i < n
            invariant
                *self == *old(self),
                n == self.compounds@.len(),
                forall|j: int|
                    0 <= j < i ==> !is_struct_named(#[trigger] self.compounds@[j], name@),
            decreases n - i,
        {
            match &self.compounds[i] {
                CompoundTypeData::Struct(s) => {
                    if s.name == *name {
                        proof {
                            assert(is_struct_named(self.compounds@[i as int], name@));
                        }
                        return Type::Compound(CompoundType(i));
                    }
                },
                _ => {},
            }
            i += 1;
        }
        let data = CompoundTypeData::Struct(
            StructData { name: name.clone(), fields, packed },
        );
        proof {
            assert(is_struct_named(data, name@));
        }
        self.compounds.push(data);
        Type::Compound(CompoundType(n))
    }

    /// Looks a struct type up by name.
    #[verifier::loop_isolation(false)]
    pub fn struct_type_by_name(&self, name: &String) -> (r: Option<Type>)
        ensures
            r is Some <==> self.find_struct_spec(name@) is Some,
            r matches Some(t) ==> (t matches Type::Compound(c) && (c.0 as int)
                < self.num_compounds() && is_struct_named(self.data_spec(c), name@)),
    {
        let n = self.compounds.len();
        let mut i: usize = 0;
        while i < n
            invariant
                n == self.compounds@.len(),
                forall|j: int|
                    0 <= j < i ==> !is_struct_named(#[trigger] self.compounds@[j], name@),
            decreases n - i,
        {
            match &self.compounds[i] {
                CompoundTypeData::Struct(s) => {
                    if s.name == *name {
                        proof {
                            assert(is_struct_named(self.compounds@[i as int], name@));
                        }
                        return Some(Type::Compound(CompoundType(i)));
                    }
                },
                _ => {},
            }
            i += 1;
        }
        None
    }

    /// Creates a function type over the given argument and return types.
    /// Function types are compared by handle; a fresh handle is made for
    /// each declaration.
    pub fn make_func(&mut self, args: Vec<Type>, ret_ty: Type) -> (r: Type)
        requires
            old(self).wf(),
            old(self).is_valid(ret_ty),
            forall|k: int| 0 <= k < args@.len() ==> old(self).is_valid(#[trigger] args@[k]),
        ensures
            final(self).wf(),
            final(self).is_valid(r),
            r matches Type::Compound(c) && final(self).data_spec(c) == (CompoundTypeData::Func {
                args,
                ret_ty,
            }),
            forall|j: int|
                0 <= j < old(self).compounds@.len() ==> final(self).compounds@[j] == old(self).compounds@[j],
    {
        let n = self.compounds.len();
        self.compounds.push(CompoundTypeData::Func { args, ret_ty });
        Type::Compound(CompoundType(n))
    }
}

/// The bit width of a primitive integer type (zero for compounds).
pub open spec fn int_bit_width(ty: Type) -> int {
    match ty {
        Type::I1 => 1,
        Type::I8 => 8,
        Type::I16 => 16,
        Type::I32 => 32,
        Type::I64 => 64,
        Type::I128 => 128,
        Type::I256 => 256,
        Type::Compound(_) => 0,
    }
}

/// The byte size of a primitive integer type (zero for compounds).
pub open spec fn prim_bytes(ty: Type) -> int {
    match ty {
        Type::I1 => 1,
        Type::I8 => 1,
        Type::I16 => 2,
        Type::I32 => 4,
        Type::I64 => 8,
        Type::I128 => 16,
        Type::I256 => 32,
        Type::Compound(_) => 0,
    }
}

/// `x` rounded up to the next multiple of `a` (`a >= 1`).
pub open spec fn round_up(x: int, a: int) -> int {
    ((x + a - 1) / a) * a
}

/// The size and alignment of a type under the natural layout rules: an
/// integer is its width and self-aligned, a pointer takes the target's
/// pointer width, an array is its element repeated, a packed struct is the
/// plain sum of its field sizes at alignment one, an unpacked struct pads
/// each field to its alignment and its size to the struct's alignment, and
/// a function type has no size. A size beyond the host's address range is
/// treated as unsized.
pub open spec fn spec_layout_of(ts: TypeStore, tgt: crate::module::TargetSpec, ty: Type) ->
    Result<(int, int), TypeLayoutError>
    decreases ty_rank(ty), 0int,
    when ts.wf() && ts.is_valid(ty) && tgt.wf()
{
    match ty {
        Type::Compound(c) => match ts.data_spec(c) {
            CompoundTypeData::Ptr(_) => Ok(
                (prim_bytes(tgt.pointer), prim_bytes(tgt.pointer)),
            ),
            CompoundTypeData::Array { elem, len } => match spec_layout_of(ts, tgt, elem) {
                Ok(sa) => if sa.0 * len > usize::MAX as int {
                    Err(TypeLayoutError::Unsized)
                } else {
                    Ok((sa.0 * len, sa.1))
                },
                Err(e) => Err(e),
            },
            CompoundTypeData::Struct(st) => match spec_struct_fold(
                ts,
                tgt,
                st.fields@,
                0,
                c.0 as int,
                st.packed,
                0,
                1,
            ) {
                Ok(sa) => if st.packed {
                    Ok((sa.0, 1))
                } else if round_up(sa.0, sa.1) > usize::MAX as int {
                    Err(TypeLayoutError::Unsized)
                } else {
                    Ok((round_up(sa.0, sa.1), sa.1))
                },
                Err(e) => Err(e),
            },
            CompoundTypeData::Func { .. } => Err(TypeLayoutError::Unsized),
        },
        _ => Ok((prim_bytes(ty), prim_bytes(ty))),
    }
}

/// Folds the fields of a struct from index `i` on: `off` is the offset
/// reached so far and `al` the largest field alignment seen.
pub open spec fn spec_struct_fold(
    ts: TypeStore,
    tgt: crate::module::TargetSpec,
    fields: Seq<Type>,
    i: int,
    bound: int,
    packed: bool,
    off: int,
    al: int,
) -> Result<(int, int), TypeLayoutError>
    decreases bound, fields.len() - i + 1,
    when ts.wf() && tgt.wf() && 0 <= i && 0 <= bound < ts.compounds@.len() && (forall|k: int|
        0 <= k < fields.len() ==> ty_below(#[trigger] fields[k], bound))
{
    if i >= fields.len() {
        Ok((off, al))
    } else {
        match spec_layout_of(ts, tgt, fields[i]) {
            Ok(sa) => if packed {
                if off + sa.0 > usize::MAX as int {
                    Err(TypeLayoutError::Unsized)
                } else {
                    spec_struct_fold(ts, tgt, fields, i + 1, bound, packed, off + sa.0, al)
                }
            } else {
                if round_up(off, sa.1) + sa.0 > usize::MAX as int {
                    Err(TypeLayoutError::Unsized)
                } else {
                    spec_struct_fold(
                        ts,
                        tgt,
                        fields,
                        i + 1,
                        bound,
                        packed,
                        round_up(off, sa.1) + sa.0,
                        if sa.1 > al {
                            sa.1
                        } else {
                            al
                        },
                    )
                }
            },
            Err(e) => Err(e),
        }
    }
}

/// A layout query only ever fails as unsized: the handle order makes
/// genuinely recursive types impossible to intern.
pub proof fn lemma_layout_err_unsized(ts: TypeStore, tgt: crate::module::TargetSpec, ty: Type)
    requires
        ts.wf(),
        ts.is_valid(ty),
        tgt.wf(),
    ensures
        spec_layout_of(ts, tgt, ty) matches Err(e) ==> e == TypeLayoutError::Unsized,
        spec_layout_of(ts, tgt, ty) matches Ok(sa) ==> 1 <= sa.1 <= 32,
    decreases ty_rank(ty), 0int,
{
    match ty {
        Type::Compound(c) => {
            assert(data_below(ts.data_spec(c), c.0 as int));
            match ts.data_spec(c) {
                CompoundTypeData::Array { elem, .. } => {
                    lemma_layout_err_unsized(ts, tgt, elem);
                },
                CompoundTypeData::Struct(st) => {
                    lemma_fold_err_unsized(ts, tgt, st.fields@, 0, c.0 as int, st.packed, 0, 1);
                },
                _ => {},
            }
        },
        _ => {},
    }
}

/// The struct fold only fails as unsized, its offset never shrinks, and
/// the accumulated alignment stays in range.
pub proof fn lemma_fold_err_unsized(
    ts: TypeStore,
    tgt: crate::module::TargetSpec,
    fields: Seq<Type>,
    i: int,
    bound: int,
    packed: bool,
    off: int,
    al: int,
)
    requires
        ts.wf(),
        tgt.wf(),
        0 <= i,
        0 <= bound < ts.compounds@.len(),
        forall|k: int| 0 <= k < fields.len() ==> ty_below(#[trigger] fields[k], bound),
        0 <= off,
        1 <= al <= 32,
    ensures
        spec_struct_fold(ts, tgt, fields, i, bound, packed, off, al) matches Err(e) ==> e
            == TypeLayoutError::Unsized,
        spec_struct_fold(ts, tgt, fields, i, bound, packed, off, al) matches Ok(sa) ==> sa.0
            >= off && 1 <= sa.1 <= 32 && sa.1 >= al,
    decreases bound, fields.len() - i + 1,
{
    if i < fields.len() {
        assert(ts.is_valid(fields[i]));
        assert(ty_rank(fields[i]) <= bound);
        lemma_layout_err_unsized(ts, tgt, fields[i]);
        lemma_layout_size_nonneg(ts, tgt, fields[i]);
        match spec_layout_of(ts, tgt, fields[i]) {
            Ok(sa) => {
                if packed {
                    lemma_fold_err_unsized(ts, tgt, fields, i + 1, bound, packed, off + sa.0, al);
                } else {
                    let padded = round_up(off, sa.1);
                    assert(padded >= off && padded + sa.0 >= off) by (nonlinear_arith)
                        requires
                            1 <= sa.1,
                            0 <= off,
                            0 <= sa.0,
                            padded == ((off + sa.1 - 1) / sa.1) * sa.1,
                    {
                    }
                    lemma_fold_err_unsized(
                        ts,
                        tgt,
                        fields,
                        i + 1,
                        bound,
                        packed,
                        padded + sa.0,
                        if sa.1 > al {
                            sa.1
                        } else {
                            al
                        },
                    );
                }
            },
            Err(_) => {},
        }
    }
}

/// Sizes are never negative.
pub proof fn lemma_layout_size_nonneg(ts: TypeStore, tgt: crate::module::TargetSpec, ty: Type)
    requires
        ts.wf(),
        ts.is_valid(ty),
        tgt.wf(),
    ensures
        spec_layout_of(ts, tgt, ty) matches Ok(sa) ==> sa.0 >= 0,
    decreases ty_rank(ty), 1int,
{
    match ty {
        Type::Compound(c) => {
            assert(data_below(ts.data_spec(c), c.0 as int));
            match ts.data_spec(c) {
                CompoundTypeData::Array { elem, len } => {
                    lemma_layout_size_nonneg(ts, tgt, elem);
                    match spec_layout_of(ts, tgt, elem) {
                        Ok(sa) => {
                            assert(sa.0 * (len as int) >= 0) by (nonlinear_arith)
                                requires
                                    sa.0 >= 0,
                                    len as int >= 0,
                            {
                            }
                        },
                        Err(_) => {},
                    }
                },
                CompoundTypeData::Struct(st) => {
                    lemma_fold_err_unsized(ts, tgt, st.fields@, 0, c.0 as int, st.packed, 0, 1);
                    match spec_struct_fold(ts, tgt, st.fields@, 0, c.0 as int, st.packed, 0, 1) {
                        Ok(sa) => {
                            if !st.packed {
                                assert(round_up(sa.0, sa.1) >= 0) by (nonlinear_arith)
                                    requires
                                        sa.0 >= 0,
                                        1 <= sa.1,
                                {
                                }
                            }
                        },
                        Err(_) => {},
                    }
                },
                _ => {},
            }
        },
        _ => {},
    }
}

} // verus!
