use std::sync::Arc;

use byteflow::bytecode::builder::ChunkBuilder;
use byteflow::bytecode::cap::{Cap, CapRights, CapTarget, NativeMask, RevocationCell};
use byteflow::bytecode::instruction::Instruction;
use byteflow::bytecode::opcode::Opcode;
use byteflow::bytecode::value::Value;
use byteflow::memory::MemoryBudget;
use byteflow::scheduler::quota::{FlowQuota, QuotaConfig};
use byteflow::vm::fault::{Fault, NativeCallError};
use byteflow::vm::machine::Vm;
use byteflow::vm::native::{
    check_native_call, check_native_gate, NativeFn, NativeGate, NativeTable, NativeTableError,
};
use byteflow::vm::result::VmResult;

#[test]
fn spawn_from_the_last_register_traps_instead_of_wrapping() {
    let mut b = ChunkBuilder::new("t");
    b.begin_function("main", 0, 2);
    b.emit_spawn(255, 0, 1);
    b.emit_return(0);
    let mut vm = Vm::new(Arc::new(b.finish()), NativeTable::empty(), 0, &[]).unwrap();
    match vm.run(10) {
        VmResult::Trap(Fault::RegisterIndexOverflow { base: 255, offset: 1 }) => {}
        other => panic!("expected RegisterIndexOverflow, got {other:?}"),
    }
}

#[test]
fn entering_a_function_with_too_few_registers_faults() {
    let mut b = ChunkBuilder::new("t");
    b.begin_function("main", 3, 1);
    b.emit_return(0);
    let args = [Value::Int(1), Value::Int(2), Value::Int(3)];
    match Vm::new(Arc::new(b.finish()), NativeTable::empty(), 0, &args) {
        Err(Fault::RegisterOutOfRange { reg: 1, frame_size: 1 }) => {}
        Err(e) => panic!("unexpected fault: {}", e.text()),
        Ok(_) => panic!("three arguments cannot be loaded into one register"),
    }
}

#[test]
fn calling_a_function_with_too_few_registers_traps() {
    let mut b = ChunkBuilder::new("t");
    let callee = b.begin_function("callee", 3, 1);
    b.emit_return(0);
    let main = b.begin_function("main", 0, 4);
    b.emit_load_imm(0, 7);
    b.emit_load_imm(1, 8);
    b.emit_load_imm(2, 9);
    b.emit_call(0, callee, 3);
    b.emit_return(0);
    let mut vm = Vm::new(Arc::new(b.finish()), NativeTable::empty(), main, &[]).unwrap();
    match vm.run(50) {
        VmResult::Trap(Fault::RegisterOutOfRange { reg: 1, frame_size: 1 }) => {}
        other => panic!("expected RegisterOutOfRange, got {other:?}"),
    }
}

#[test]
fn gathering_up_to_the_last_register_still_works() {
    let mut b = ChunkBuilder::new("t");
    let callee = b.begin_function("callee", 1, 1);
    b.emit_return(0);
    let main = b.begin_function("main", 0, 255);
    b.emit_load_imm(254, 5);
    // Argument at r254, the highest index a 255-register frame has.
    b.emit_call(254, callee, 1);
    b.emit_return(254);
    let mut vm = Vm::new(Arc::new(b.finish()), NativeTable::empty(), main, &[]).unwrap();
    match vm.run(100) {
        VmResult::Complete(_) => {}
        other => panic!("expected completion, got {other:?}"),
    }
}

#[test]
fn neg_i64_min_wrapping() {
    let mut b = ChunkBuilder::new("t");
    b.begin_function("main", 0, 1);
    let k = b.const_(Value::Int(i64::MIN));
    b.emit_load_const(0, k);
    b.emit_neg(0, 0);
    b.emit_return(0);
    let mut vm = Vm::new(Arc::new(b.finish()), NativeTable::empty(), 0, &[]).unwrap();
    match vm.run(10) {
        VmResult::Complete(Value::Int(v)) if v == i64::MIN => {}
        other => panic!("expected Complete(Int(i64::MIN)), got {other:?}"),
    }
}

#[test]
fn mod_non_int_type_mismatch() {
    let mut b = ChunkBuilder::new("t");
    b.begin_function("main", 0, 3);
    b.emit_load_imm(0, 10);
    let kf = b.const_(Value::Float(3.0f64.to_bits()));
    b.emit_load_const(1, kf);
    b.emit_binop(Opcode::Mod, 2, 0, 1);
    b.emit_return(2);
    let mut vm = Vm::new(Arc::new(b.finish()), NativeTable::empty(), 0, &[]).unwrap();
    match vm.run(20) {
        VmResult::Trap(Fault::TypeMismatch { expected: "int", got: "float" }) => {}
        other => panic!("expected TypeMismatch, got {other:?}"),
    }
}

#[test]
fn receive_timeout_negative_traps() {
    let mut b = ChunkBuilder::new("t");
    b.begin_function("main", 0, 2);
    b.emit_load_imm(1, -1);
    b.emit_receive_timeout(0, 1);
    b.emit_return(0);
    let mut vm = Vm::new(Arc::new(b.finish()), NativeTable::empty(), 0, &[]).unwrap();
    match vm.run(10) {
        VmResult::Trap(Fault::TypeMismatch { expected: "non-negative int", .. }) => {}
        other => panic!("expected TypeMismatch, got {other:?}"),
    }
}

#[test]
fn ask_timeout_negative_traps() {
    let mut b = ChunkBuilder::new("t");
    b.begin_function("main", 0, 4);
    b.emit_load_imm(3, -5);
    // The other registers hold no capability; the time is checked first.
    b.emit_ask_timeout(0, 1, 2, 3);
    b.emit_return(0);
    let mut vm = Vm::new(Arc::new(b.finish()), NativeTable::empty(), 0, &[]).unwrap();
    match vm.run(10) {
        VmResult::Trap(Fault::TypeMismatch { expected: "non-negative int", .. }) => {}
        other => panic!("expected TypeMismatch, got {other:?}"),
    }
}

#[test]
fn paranoid_jump_out_of_range_traps() {
    let mut b = ChunkBuilder::new("t");
    b.begin_function("main", 0, 1);
    b.emit_load_imm(0, 0);
    b.emit_return(0);
    let mut chunk = b.finish();
    let code_len = chunk.code.len();
    chunk.code[0] = Instruction::only_imm(Opcode::Jump, 100);
    let mut vm = Vm::new(Arc::new(chunk), NativeTable::empty(), 0, &[]).unwrap();
    vm.set_paranoid_jumps(true);
    match vm.run(10) {
        VmResult::Trap(Fault::BadJump { target: 101, code_len: len }) if len == code_len => {}
        other => panic!("expected BadJump(101), got {other:?}"),
    }
}

#[test]
fn overwrite_releases_previous_heap_charge() {
    let mut b = ChunkBuilder::new("t");
    let k1 = b.const_(Value::str(&"a".repeat(100)));
    let k2 = b.const_(Value::str(&"b".repeat(100)));
    b.begin_function("main", 0, 1);
    b.emit_load_const(0, k1);
    b.emit_load_const(0, k2);
    b.emit_return(0);
    let mut vm = Vm::new(Arc::new(b.finish()), NativeTable::empty(), 0, &[]).unwrap();
    // Limit 150: the first 100 fits; without release the second 100 would fail.
    let quota = FlowQuota::from_config(
        QuotaConfig { mem_limit: 150, ..QuotaConfig::permissive() },
        0,
    );
    vm.set_memory_budget(MemoryBudget::new(10_000));
    vm.set_quota(quota).unwrap();
    match vm.run(20) {
        VmResult::Complete(Value::Str(s)) if s.len() == 100 => {
            assert_eq!(vm.take_quota().unwrap().mem_used(), 100);
            assert_eq!(vm.take_memory_budget().unwrap().used(), 100);
        }
        other => panic!("expected Complete(100-byte Str), got {other:?}"),
    }
}

#[test]
fn returning_over_quota_keeps_quota_fault() {
    let mut b = ChunkBuilder::new("t");
    let k = b.const_(Value::str(&"x".repeat(200)));
    let callee = b.begin_function("callee", 0, 1);
    b.emit_load_const(0, k);
    b.emit_return(0);
    let main = b.begin_function("main", 0, 1);
    b.emit_call(0, callee, 0);
    b.emit_return(0);
    let mut vm = Vm::new(Arc::new(b.finish()), NativeTable::empty(), main, &[]).unwrap();
    // 200 fits the callee store; writing it back into the caller charges again.
    let quota = FlowQuota::new(10_000, 250, 1, 1, 1, 1, 0);
    vm.set_quota(quota).unwrap();
    match vm.run(50) {
        VmResult::Trap(Fault::QuotaExceeded(_)) => {}
        other => panic!("expected QuotaExceeded from return writeback, got {other:?}"),
    }
}

#[test]
fn call_native_without_gate_is_typed_denied() {
    let mut b = ChunkBuilder::new("t");
    b.begin_function("main", 0, 1);
    b.emit_call_native(0, 0, 0);
    b.emit_return(0);
    let table = NativeTable::builder().register("noop", NativeFn::Host(0)).unwrap();
    let mut vm = Vm::new(Arc::new(b.finish()), table.build(), 0, &[]).unwrap();
    match vm.run(10) {
        VmResult::Trap(Fault::NativeDenied(NativeCallError::NoNativeRight)) => {}
        other => panic!("expected NativeDenied(NoNativeRight), got {other:?}"),
    }
}

#[test]
fn non_paranoid_bad_jump_still_fail_opens() {
    let mut b = ChunkBuilder::new("t");
    b.begin_function("main", 0, 1);
    b.emit_load_imm(0, 7);
    b.emit_return(0);
    let mut chunk = b.finish();
    chunk.code[0] = Instruction::only_imm(Opcode::Jump, 100);
    let mut vm = Vm::new(Arc::new(chunk), NativeTable::empty(), 0, &[]).unwrap();
    match vm.run(10) {
        // Off the end of the code: unit from the outermost frame.
        VmResult::Complete(Value::Unit) => {}
        other => panic!("expected Complete(Unit), got {other:?}"),
    }
}

#[test]
fn register_at_leaves_holes_as_none() {
    let table = NativeTable::builder()
        .register_at(10, "answer", NativeFn::Host(42))
        .unwrap()
        .build();
    assert_eq!(table.len(), 11);
    assert_eq!(table.index_of("answer"), Some(10));
    assert!(matches!(table.get(10), Some(NativeFn::Host(42))));
    assert!(table.get(2).is_none());
}

#[test]
fn register_at_errors_on_duplicate_slot() {
    let result = NativeTable::builder()
        .register_at(3, "a", NativeFn::Host(0))
        .and_then(|b| b.register_at(3, "b", NativeFn::Host(1)));
    assert!(matches!(result, Err(NativeTableError::SlotOccupied { index: 3, .. })));
}

#[test]
fn register_errors_on_duplicate_name() {
    let result = NativeTable::builder()
        .register("x", NativeFn::Host(0))
        .and_then(|b| b.register("x", NativeFn::Host(1)));
    assert!(matches!(result, Err(NativeTableError::DuplicateName(_))));
}

#[test]
fn denies_unlisted_index_even_with_native_right() {
    let cell = RevocationCell::new();
    let mask = NativeMask::from_indices(16, &[2, 4]);
    let cap = Cap::root(CapTarget::Flow(1), CapRights::native(), Some(mask), &cell);
    let table = NativeTable { entries: Vec::new() };
    assert!(matches!(
        check_native_call(&cap, &table, 4),
        Err(NativeCallError::IndexOutOfRange(_))
    ));
}

#[test]
fn a_gate_passes_what_is_listed_until_it_is_revoked() {
    let mut cell = RevocationCell::new();
    let natives = RevocationCell::new();
    let table = NativeTable::builder()
        .register("a", NativeFn::Host(0))
        .and_then(|b| b.register("b", NativeFn::Host(1)))
        .unwrap()
        .build();
    let mask = NativeMask::from_indices(2, &[1]);
    let cap = Cap::root(CapTarget::Flow(1), CapRights::native(), Some(mask), &cell);
    let mut gate = NativeGate::from_authority(&cap, cell, natives, 2);
    assert_eq!(check_native_gate(&gate, &table, 1), Ok(()));
    assert_eq!(
        check_native_gate(&gate, &table, 0),
        Err(NativeCallError::IndexNotAllowlisted(0))
    );
    assert_eq!(check_native_gate(&gate, &table, 7), Err(NativeCallError::IndexOutOfRange(7)));
    cell.revoke();
    gate.refresh(cell, natives);
    assert_eq!(check_native_gate(&gate, &table, 1), Err(NativeCallError::Revoked));
    assert!(!gate.is_live());
}

fn run_binop(op: Opcode, x: i64, y: i64) -> VmResult {
    let mut b = ChunkBuilder::new("t");
    b.begin_function("main", 2, 3);
    b.emit_binop(op, 2, 0, 1);
    b.emit_return(2);
    let args = [Value::Int(x), Value::Int(y)];
    Vm::new(Arc::new(b.finish()), NativeTable::empty(), 0, &args).unwrap().run(10)
}

#[test]
fn integer_operations_wrap_and_truncate() {
    let int = |r: VmResult| match r {
        VmResult::Complete(Value::Int(v)) => v,
        other => panic!("{other:?}"),
    };
    assert_eq!(int(run_binop(Opcode::Add, i64::MAX, 1)), i64::MIN);
    assert_eq!(int(run_binop(Opcode::Sub, i64::MIN, 1)), i64::MAX);
    assert_eq!(int(run_binop(Opcode::Mul, i64::MAX, 2)), -2);
    assert_eq!(int(run_binop(Opcode::Div, -7, 2)), -3);
    assert_eq!(int(run_binop(Opcode::Div, i64::MIN, -1)), i64::MIN);
    assert_eq!(int(run_binop(Opcode::Mod, -7, 2)), -1);
    assert_eq!(int(run_binop(Opcode::Mod, i64::MIN, -1)), 0);
    assert!(matches!(run_binop(Opcode::Div, 1, 0), VmResult::Trap(Fault::DivideByZero)));
    assert!(matches!(run_binop(Opcode::Mod, 1, 0), VmResult::Trap(Fault::DivideByZero)));
    assert!(matches!(run_binop(Opcode::Lt, 1, 2), VmResult::Complete(Value::Bool(true))));
    assert!(matches!(run_binop(Opcode::Le, 3, 2), VmResult::Complete(Value::Bool(false))));
    assert!(matches!(run_binop(Opcode::Eq, 2, 2), VmResult::Complete(Value::Bool(true))));
}

#[test]
fn faults_say_what_went_wrong() {
    assert_eq!(Fault::DivideByZero.text(), "division by zero");
    assert_eq!(
        Fault::RegisterOutOfRange { reg: 3, frame_size: 2 }.text(),
        "register r3 out of range (frame has 2 registers)"
    );
    assert_eq!(Fault::Explicit(-4).text(), "explicit trap (code -4)");
}

#[test]
fn recursion_without_end_overflows_the_call_stack() {
    let mut b = ChunkBuilder::new("t");
    let f = b.begin_function("main", 0, 1);
    b.emit_call(0, f, 0);
    b.emit_return(0);
    let mut vm = Vm::new(Arc::new(b.finish()), NativeTable::empty(), 0, &[]).unwrap();
    assert!(matches!(
        vm.run(1_000_000),
        VmResult::Trap(Fault::CallStackOverflow { .. })
    ));
}

#[test]
fn a_used_up_budget_yields_and_counts() {
    let mut b = ChunkBuilder::new("t");
    b.begin_function("main", 0, 1);
    let head = b.new_label();
    b.bind_label(head);
    b.emit_jump(head);
    let mut vm = Vm::new(Arc::new(b.finish()), NativeTable::empty(), 0, &[]).unwrap();
    assert!(matches!(vm.run(25), VmResult::Yield));
    assert_eq!(vm.instructions_executed(), 25);
}
