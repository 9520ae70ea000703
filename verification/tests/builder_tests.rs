use sonatina_ir::{
    Endian, Function, Immediate, InsnData, Linkage, Signature, TargetSpec, Type,
    FunctionBuilder,
};

fn test_isa() -> TargetSpec {
    TargetSpec {
        pointer: Type::I256,
        address: Type::I256,
        balance: Type::I256,
        gas: Type::I256,
        endian: Endian::Little,
    }
}

fn func_builder(args: Vec<Type>, ret_ty: Option<Type>) -> FunctionBuilder {
    let sig = Signature::new("test_func".to_string(), Linkage::Public, args, ret_ty);
    FunctionBuilder::new(sig, test_isa())
}

fn ty_name(ty: &Type) -> String {
    match ty {
        Type::I1 => "i1".to_string(),
        Type::I8 => "i8".to_string(),
        Type::I16 => "i16".to_string(),
        Type::I32 => "i32".to_string(),
        Type::I64 => "i64".to_string(),
        Type::I128 => "i128".to_string(),
        Type::I256 => "i256".to_string(),
        Type::Compound(c) => format!("ty{}", c.0),
    }
}

fn imm_string(imm: &Immediate) -> String {
    match imm {
        Immediate::I1(b) => format!("{}", if *b { 1 } else { 0 }),
        Immediate::I8(x) => format!("{}", x),
        Immediate::I16(x) => format!("{}", x),
        Immediate::I32(x) => format!("{}", x),
        Immediate::I64(x) => format!("{}", x),
        Immediate::I128(x) => format!("{}", x),
        Immediate::I256(x) => format!("{}:{}", x.hi, x.lo),
    }
}

fn value_string(f: &Function, v: sonatina_ir::Value) -> String {
    match f.dfg.value_data(v) {
        sonatina_ir::ValueData::Immediate { imm, ty } => {
            format!("{}.{}", imm_string(imm), ty_name(ty))
        }
        _ => format!("v{}", v.0),
    }
}

fn result_string(f: &Function, i: sonatina_ir::Insn) -> String {
    match f.dfg.insn_result(i) {
        Some(v) => format!("v{}.{} = ", v.0, ty_name(&f.dfg.value_ty(v))),
        None => String::new(),
    }
}

fn insn_string(f: &Function, i: sonatina_ir::Insn) -> String {
    let res = result_string(f, i);
    match f.dfg.insn_data(i) {
        InsnData::Unary { code, arg } => {
            let op = match code {
                sonatina_ir::UnaryOp::Not => "not",
                sonatina_ir::UnaryOp::Neg => "neg",
            };
            format!("{}{} {}", res, op, value_string(f, *arg))
        }
        InsnData::Binary { code, lhs, rhs } => {
            let op = match code {
                sonatina_ir::BinaryOp::Add => "add",
                sonatina_ir::BinaryOp::Sub => "sub",
                sonatina_ir::BinaryOp::Mul => "mul",
                sonatina_ir::BinaryOp::Udiv => "udiv",
                sonatina_ir::BinaryOp::Sdiv => "sdiv",
                sonatina_ir::BinaryOp::Lt => "lt",
                sonatina_ir::BinaryOp::Gt => "gt",
                sonatina_ir::BinaryOp::Slt => "slt",
                sonatina_ir::BinaryOp::Sgt => "sgt",
                sonatina_ir::BinaryOp::Le => "le",
                sonatina_ir::BinaryOp::Ge => "ge",
                sonatina_ir::BinaryOp::Sle => "sle",
                sonatina_ir::BinaryOp::Sge => "sge",
                sonatina_ir::BinaryOp::Eq => "eq",
                sonatina_ir::BinaryOp::Ne => "ne",
                sonatina_ir::BinaryOp::And => "and",
                sonatina_ir::BinaryOp::Or => "or",
            };
            format!(
                "{}{} {} {}",
                res,
                op,
                value_string(f, *lhs),
                value_string(f, *rhs)
            )
        }
        InsnData::Cast { code, arg, .. } => {
            let op = match code {
                sonatina_ir::CastOp::Sext => "sext",
                sonatina_ir::CastOp::Zext => "zext",
                sonatina_ir::CastOp::Trunc => "trunc",
            };
            format!("{}{} {}", res, op, value_string(f, *arg))
        }
        InsnData::Load { addr, loc, .. } => {
            let op = match loc {
                sonatina_ir::DataLocationKind::Memory => "mload",
                sonatina_ir::DataLocationKind::Storage => "sload",
            };
            format!("{}{} {}", res, op, value_string(f, *addr))
        }
        InsnData::Store { addr, data, loc } => {
            let op = match loc {
                sonatina_ir::DataLocationKind::Memory => "mstore",
                sonatina_ir::DataLocationKind::Storage => "sstore",
            };
            format!(
                "{}{} {} {}",
                res,
                op,
                value_string(f, *addr),
                value_string(f, *data)
            )
        }
        InsnData::Alloca { ty } => format!("{}alloca {}", res, ty_name(ty)),
        InsnData::Jump { dest } => format!("jump block{}", dest.0),
        InsnData::Branch {
            cond,
            then_dest,
            else_dest,
        } => format!(
            "br {} block{} block{}",
            value_string(f, *cond),
            then_dest.0,
            else_dest.0
        ),
        InsnData::BrTable { .. } => "br_table".to_string(),
        InsnData::Return { arg } => match arg {
            Some(v) => format!("return {}", value_string(f, *v)),
            None => "return".to_string(),
        },
        InsnData::Phi { values, blocks, .. } => {
            let mut s = format!("{}phi", res);
            for (v, b) in values.iter().zip(blocks.iter()) {
                s.push_str(&format!(" ({} block{})", value_string(f, *v), b.0));
            }
            s
        }
        InsnData::Call { .. } => format!("{}call", res),
    }
}

fn dump_func(f: &Function) -> String {
    let mut s = format!("func %{}(", f.sig.name);
    let mut first = true;
    for v in f.arg_values.iter() {
        if !first {
            s.push_str(", ");
        }
        first = false;
        s.push_str(&format!("v{}.{}", v.0, ty_name(&f.dfg.value_ty(*v))));
    }
    s.push(')');
    if let Some(rt) = &f.sig.ret_ty {
        s.push_str(&format!(" -> {}", ty_name(rt)));
    }
    s.push_str(":\n");
    for b in f.layout.blocks_in_order().iter() {
        s.push_str(&format!("    block{}:\n", b.0));
        for i in f.layout.insns_of(*b) {
            s.push_str(&format!("        {};\n", insn_string(f, i)));
        }
        s.push('\n');
    }
    s
}

#[test]
fn entry_block() {
    let mut builder = func_builder(vec![], None);

    let b0 = builder.append_block();
    builder.switch_to_block(b0);
    let v0 = builder.make_imm_value(Immediate::I8(1));
    let v1 = builder.make_imm_value(Immediate::I8(2));
    let v2 = builder.add(v0, v1);
    builder.sub(v2, v0);
    builder.ret(None);

    builder.seal_all();

    assert_eq!(
        dump_func(&builder.build()),
        "func %test_func():
    block0:
        v2.i8 = add 1.i8 2.i8;
        v3.i8 = sub v2 1.i8;
        return;

"
    );
}

#[test]
fn entry_block_with_args() {
    let mut builder = func_builder(vec![Type::I32, Type::I64], None);

    let entry_block = builder.append_block();
    builder.switch_to_block(entry_block);
    let args = builder.args().clone();
    let (arg0, arg1) = (args[0], args[1]);
    assert_eq!(args.len(), 2);
    let v3 = builder.sext(arg0, Type::I64);
    builder.mul(v3, arg1);
    builder.ret(None);

    builder.seal_all();

    assert_eq!(
        dump_func(&builder.build()),
        "func %test_func(v0.i32, v1.i64):
    block0:
        v2.i64 = sext v0;
        v3.i64 = mul v2 v1;
        return;

"
    );
}

#[test]
fn entry_block_with_return() {
    let mut builder = func_builder(vec![], Some(Type::I32));

    let entry_block = builder.append_block();

    builder.switch_to_block(entry_block);
    let v0 = builder.make_imm_value(Immediate::I32(1));
    builder.ret(Some(v0));
    builder.seal_all();

    assert_eq!(
        dump_func(&builder.build()),
        "func %test_func() -> i32:
    block0:
        return 1.i32;

"
    );
}

#[test]
fn then_else_merge_block() {
    let mut builder = func_builder(vec![Type::I64], None);

    let entry_block = builder.append_block();
    let then_block = builder.append_block();
    let else_block = builder.append_block();
    let merge_block = builder.append_block();

    let arg0 = builder.args()[0];

    builder.switch_to_block(entry_block);
    builder.br(arg0, then_block, else_block);

    builder.switch_to_block(then_block);
    let v1 = builder.make_imm_value(Immediate::I64(1));
    builder.jump(merge_block);

    builder.switch_to_block(else_block);
    let v2 = builder.make_imm_value(Immediate::I64(2));
    builder.jump(merge_block);

    builder.switch_to_block(merge_block);
    let v3 = builder.phi(&[(v1, then_block), (v2, else_block)]);
    builder.add(v3, arg0);
    builder.ret(None);

    builder.seal_all();

    assert_eq!(
        dump_func(&builder.build()),
        "func %test_func(v0.i64):
    block0:
        br v0 block1 block2;

    block1:
        jump block3;

    block2:
        jump block3;

    block3:
        v3.i64 = phi (1.i64 block1) (2.i64 block2);
        v4.i64 = add v3 v0;
        return;

"
    );
}

#[test]
fn trivial_phi_is_removed_by_use_var() {
    let mut builder = func_builder(vec![], None);

    let entry = builder.append_block();
    let b1 = builder.append_block();

    let x = builder.declare_var(Type::I32);

    builder.switch_to_block(entry);
    let seven = builder.make_imm_value(Immediate::I32(7));
    builder.def_var(x, seven);
    builder.jump(b1);

    builder.switch_to_block(b1);
    let v = builder.use_var(x);
    let v2 = builder.add(v, v);
    builder.def_var(x, v2);
    builder.ret(None);

    builder.seal_all();

    let func = builder.build();
    let dump = dump_func(&func);
    assert!(!dump.contains("phi"));
    // the use collapsed onto the constant definition
    assert!(dump.contains("add 7.i32 7.i32"));
}

#[test]
fn loop_back_edge_phi_operand_order() {
    let mut builder = func_builder(vec![], None);

    let entry = builder.append_block();
    let head = builder.append_block();
    let tail = builder.append_block();
    let exit = builder.append_block();

    let x = builder.declare_var(Type::I32);

    builder.switch_to_block(entry);
    let zero = builder.make_imm_value(Immediate::I32(0));
    builder.def_var(x, zero);
    builder.jump(head);

    builder.switch_to_block(head);
    let v0 = builder.use_var(x);
    let _keep = builder.add(v0, v0);
    builder.jump(tail);

    builder.switch_to_block(tail);
    let one = builder.make_imm_value(Immediate::I32(1));
    builder.def_var(x, one);
    let cond = builder.make_imm_value(Immediate::I1(true));
    builder.br(cond, head, exit);

    builder.switch_to_block(exit);
    builder.ret(None);

    builder.seal_all();

    let func = builder.build();
    // the phi of the loop header merges the entry and back-edge
    // definitions in predecessor-registration order
    let head_insns = func.layout.insns_of(head);
    let phi = head_insns[0];
    assert!(func.dfg.is_phi(phi));
    match func.dfg.insn_data(phi) {
        InsnData::Phi { values, blocks, .. } => {
            assert_eq!(blocks.as_slice(), &[entry, tail]);
            assert_eq!(values.as_slice(), &[zero, one]);
        }
        _ => panic!("not a phi"),
    }
}

#[test]
fn immediate_interning_is_idempotent() {
    let mut builder = func_builder(vec![], None);
    let a = builder.make_imm_value(Immediate::I64(42));
    let b = builder.make_imm_value(Immediate::I64(42));
    let c = builder.make_imm_value(Immediate::I64(43));
    assert_eq!(a, b);
    assert_ne!(a, c);
}

#[test]
fn user_sets_track_operand_rewrites() {
    let mut builder = func_builder(vec![], None);
    let b0 = builder.append_block();
    builder.switch_to_block(b0);
    let v0 = builder.make_imm_value(Immediate::I8(1));
    let v1 = builder.make_imm_value(Immediate::I8(2));
    let v2 = builder.add(v0, v1);
    builder.ret(None);
    builder.seal_all();

    let mut func = builder.build();
    let add_insn = func.layout.insns_of(b0)[0];
    assert!(func.dfg.users(v0).contains(&add_insn));
    assert!(func.dfg.users(v1).contains(&add_insn));

    // substituting one operand moves the user edge
    let old = func.dfg.replace_insn_arg(add_insn, v1, 0);
    assert_eq!(old, v0);
    assert!(!func.dfg.users(v0).contains(&add_insn));
    assert!(func.dfg.users(v1).contains(&add_insn));

    // redirecting every use of v1 to v0 moves it back
    func.dfg.change_to_alias(v1, v0);
    assert!(func.dfg.users(v0).contains(&add_insn));
    assert!(func.dfg.users(v1).is_empty());
    let _ = v2;
}

#[test]
fn branch_dests_match_recorded_predecessors() {
    let mut builder = func_builder(vec![Type::I64], None);
    let entry = builder.append_block();
    let then_block = builder.append_block();
    let else_block = builder.append_block();
    let arg0 = builder.args()[0];

    builder.switch_to_block(entry);
    builder.br(arg0, then_block, else_block);

    builder.switch_to_block(then_block);
    builder.ret(None);
    builder.switch_to_block(else_block);
    builder.ret(None);

    // each successor saw exactly one predecessor edge from the entry
    assert_eq!(builder.ssa.preds[then_block.0].as_slice(), &[entry]);
    assert_eq!(builder.ssa.preds[else_block.0].as_slice(), &[entry]);

    builder.seal_all();
    let func = builder.build();
    let term = func.layout.insns_of(entry)[0];
    match func.dfg.analyze_branch(term) {
        sonatina_ir::BranchInfo::Br {
            then_dest,
            else_dest,
            ..
        } => {
            assert_eq!(then_dest, then_block);
            assert_eq!(else_dest, else_block);
        }
        _ => panic!("not a two-way branch"),
    }
}

#[test]
fn remove_branch_dest_collapses_branch_to_jump() {
    let mut builder = func_builder(vec![Type::I64], None);
    let entry = builder.append_block();
    let then_block = builder.append_block();
    let else_block = builder.append_block();
    let arg0 = builder.args()[0];

    builder.switch_to_block(entry);
    builder.br(arg0, then_block, else_block);
    builder.switch_to_block(then_block);
    builder.ret(None);
    builder.switch_to_block(else_block);
    builder.ret(None);
    builder.seal_all();

    let mut func = builder.build();
    let term = func.layout.insns_of(entry)[0];
    func.dfg.remove_branch_dest(term, then_block);
    assert_eq!(
        func.dfg.insn_data(term),
        &InsnData::Jump { dest: else_block }
    );
    // the condition no longer has the branch as a user
    assert!(!func.dfg.users(arg0).contains(&term));
}

#[test]
fn remove_branch_dest_collapses_table_to_jump() {
    let mut builder = func_builder(vec![Type::I64], None);
    let entry = builder.append_block();
    let case_block = builder.append_block();
    let default_block = builder.append_block();
    let arg0 = builder.args()[0];

    builder.switch_to_block(entry);
    let key = builder.make_imm_value(Immediate::I64(5));
    builder.br_table(arg0, Some(default_block), &[(key, case_block)]);
    builder.switch_to_block(case_block);
    builder.ret(None);
    builder.switch_to_block(default_block);
    builder.ret(None);
    builder.seal_all();

    let mut func = builder.build();
    let term = func.layout.insns_of(entry)[0];
    func.dfg.remove_branch_dest(term, case_block);
    assert_eq!(
        func.dfg.insn_data(term),
        &InsnData::Jump {
            dest: default_block
        }
    );
}

#[test]
fn rewrite_branch_dest_renames_target() {
    let mut builder = func_builder(vec![], None);
    let entry = builder.append_block();
    let old_target = builder.append_block();
    let new_target = builder.append_block();

    builder.switch_to_block(entry);
    builder.jump(old_target);
    builder.switch_to_block(old_target);
    builder.ret(None);
    builder.switch_to_block(new_target);
    builder.ret(None);
    builder.seal_all();

    let mut func = builder.build();
    let term = func.layout.insns_of(entry)[0];
    func.dfg.rewrite_branch_dest(term, old_target, new_target);
    assert_eq!(
        func.dfg.insn_data(term),
        &InsnData::Jump { dest: new_target }
    );
}

#[test]
fn alloca_yields_pointer_to_interned_type() {
    let mut builder = func_builder(vec![], None);
    let b0 = builder.append_block();
    builder.switch_to_block(b0);
    let p1 = builder.alloca(Type::I64);
    let p2 = builder.alloca(Type::I64);
    builder.ret(None);
    builder.seal_all();
    // both allocations share the interned pointer-to-i64 type
    assert_eq!(builder.type_of(p1), builder.type_of(p2));
}

#[test]
fn target_types_surface_on_the_builder() {
    let builder = func_builder(vec![], None);
    assert_eq!(builder.pointer_type(), Type::I256);
    assert_eq!(builder.address_type(), Type::I256);
    assert_eq!(builder.balance_type(), Type::I256);
    assert_eq!(builder.gas_type(), Type::I256);
}

#[test]
fn memory_and_storage_access_round_out_the_block() {
    let mut builder = func_builder(vec![Type::I256], None);
    let b0 = builder.append_block();
    builder.switch_to_block(b0);
    let addr = builder.args()[0];
    let loaded = builder.memory_load(addr, Type::I64);
    builder.memory_store(addr, loaded);
    let sloaded = builder.storage_load(addr, Type::I64);
    builder.storage_store(addr, sloaded);
    builder.ret(None);
    builder.seal_all();
    let func = builder.build();
    assert_eq!(func.layout.insns_of(b0).len(), 5);
}

#[test]
fn comparison_results_are_one_bit() {
    let mut builder = func_builder(vec![Type::I64, Type::I64], None);
    let b0 = builder.append_block();
    builder.switch_to_block(b0);
    let a = builder.args()[0];
    let b = builder.args()[1];
    let c = builder.slt(a, b);
    assert_eq!(builder.type_of(c), Type::I1);
    let d = builder.and(a, b);
    assert_eq!(builder.type_of(d), Type::I64);
    builder.ret(None);
    builder.seal_all();
}
