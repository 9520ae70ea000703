use sonatina_ir::{
    ConstantValue, Endian, GlobalVariableData, Immediate, Linkage, ModuleBuilder, ModuleCtx,
    Signature, TargetSpec, Type,
};

fn test_isa() -> TargetSpec {
    TargetSpec {
        pointer: Type::I256,
        address: Type::I256,
        balance: Type::I256,
        gas: Type::I256,
        endian: Endian::Little,
    }
}

#[test]
fn declare_function_is_idempotent_by_name() {
    let mut mb = ModuleBuilder::new(ModuleCtx::new(test_isa()));
    let sig = Signature::new("f".to_string(), Linkage::Public, vec![Type::I64], None);
    let r1 = mb.declare_function(&sig);
    let r2 = mb.declare_function(&sig);
    assert_eq!(r1, r2);

    // a different signature under the same name still maps to the first
    // reference; the later signature is discarded
    let sig2 = Signature::new("f".to_string(), Linkage::Public, vec![], Some(Type::I32));
    let r3 = mb.declare_function(&sig2);
    assert_eq!(r1, r3);

    let other = Signature::new("g".to_string(), Linkage::Public, vec![], None);
    let r4 = mb.declare_function(&other);
    assert_ne!(r1, r4);

    assert_eq!(mb.lookup_func(&"f".to_string()), Some(r1));
    assert_eq!(mb.lookup_func(&"g".to_string()), Some(r4));
    assert_eq!(mb.lookup_func(&"h".to_string()), None);

    let module = mb.build();
    assert_eq!(module.funcs().len(), 2);
}

#[test]
fn struct_types_are_unique_by_name() {
    let mut mb = ModuleBuilder::new(ModuleCtx::new(test_isa()));
    let t1 = mb.declare_struct_type(&"pair".to_string(), vec![Type::I64, Type::I64], false);
    let t2 = mb.declare_struct_type(&"pair".to_string(), vec![Type::I8], true);
    assert_eq!(t1, t2);
    assert_eq!(mb.get_struct_type(&"pair".to_string()), Some(t1));
    assert_eq!(mb.get_struct_type(&"other".to_string()), None);
}

#[test]
fn pointer_types_are_interned() {
    let mut mb = ModuleBuilder::new(ModuleCtx::new(test_isa()));
    let p1 = mb.ptr_type(Type::I64);
    let p2 = mb.ptr_type(Type::I64);
    let q = mb.ptr_type(Type::I32);
    assert_eq!(p1, p2);
    assert_ne!(p1, q);

    let a1 = mb.declare_array_type(Type::I8, 32);
    let a2 = mb.declare_array_type(Type::I8, 32);
    assert_eq!(a1, a2);
}

#[test]
fn globals_resolve_by_symbol() {
    let mut mb = ModuleBuilder::new(ModuleCtx::new(test_isa()));
    let gv = mb.make_global(GlobalVariableData {
        symbol: "counter".to_string(),
        ty: Type::I64,
        linkage: Linkage::Public,
        is_const: true,
        init: Some(ConstantValue::Immediate(Immediate::I64(7))),
    });
    assert_eq!(mb.lookup_global(&"counter".to_string()), Some(gv));
    assert_eq!(mb.lookup_global(&"missing".to_string()), None);
    assert!(mb.ctx.gv_store.is_const(gv));
    assert_eq!(mb.ctx.gv_store.ty(gv), Type::I64);
}

#[test]
fn layout_queries_follow_the_rules() {
    let mut mb = ModuleBuilder::new(ModuleCtx::new(test_isa()));
    // primitives are their width, self-aligned
    assert_eq!(mb.ctx.size_of(Type::I8), Ok(1));
    assert_eq!(mb.ctx.size_of(Type::I64), Ok(8));
    assert_eq!(mb.ctx.align_of(Type::I64), Ok(8));
    assert_eq!(mb.ctx.size_of(Type::I256), Ok(32));

    // pointers take the target's pointer width
    let p = mb.ptr_type(Type::I8);
    assert_eq!(mb.ctx.size_of(p), Ok(32));

    // arrays repeat their element
    let a = mb.declare_array_type(Type::I64, 5);
    assert_eq!(mb.ctx.size_of(a), Ok(40));
    assert_eq!(mb.ctx.align_of(a), Ok(8));

    // natural layout pads the i8 field up to the i64 alignment
    let s = mb.declare_struct_type(&"padded".to_string(), vec![Type::I8, Type::I64], false);
    assert_eq!(mb.ctx.size_of(s), Ok(16));
    assert_eq!(mb.ctx.align_of(s), Ok(8));

    // packed layout is the plain sum at alignment one
    let sp = mb.declare_struct_type(&"tight".to_string(), vec![Type::I8, Type::I64], true);
    assert_eq!(mb.ctx.size_of(sp), Ok(9));
    assert_eq!(mb.ctx.align_of(sp), Ok(1));

    // function types have no size
    let f = mb.declare_func_type(vec![Type::I64], Type::I64);
    assert_eq!(
        mb.ctx.size_of(f),
        Err(sonatina_ir::TypeLayoutError::Unsized)
    );
}
