use std::sync::Arc;

use byteflow::bytecode::builder::ChunkBuilder;
use byteflow::bytecode::chunk::Chunk;
use byteflow::bytecode::opcode::Opcode;
use byteflow::bytecode::value::Value;
use byteflow::jit::compiler::TraceCompiler;
use byteflow::jit::dispatch::{
    apply_exit_to_vm, force_compile, hot_threshold, run_compiled_trace_ref, run_rounds, run_vm_with_jit,
    run_vm_with_jit_runtime, sync_slots_from_vm, sync_slots_to_vm, try_run_hot,
    try_run_hot_runtime, JitMetrics, SyncSlotsResult,
};
use byteflow::jit::error::CompileError;
use byteflow::jit::exit::{ExitReason, JitReturn, JIT_RETURN};
use byteflow::jit::runtime::JitRuntime;
use byteflow::jit::trace::{HotCounter, JitContext, TraceKey};
use byteflow::vm::machine::Vm;
use byteflow::vm::native::NativeTable;
use byteflow::vm::result::VmResult;

fn add_chunk() -> Arc<Chunk> {
    let mut b = ChunkBuilder::new("jit-add");
    b.begin_function("main", 0, 3);
    b.emit_load_imm(0, 41);
    b.emit_load_imm(1, 1);
    b.emit_binop(Opcode::Add, 2, 0, 1);
    b.emit_return(2);
    Arc::new(b.finish())
}

fn start() -> TraceKey {
    TraceKey { function: 0, entry_pc: 0 }
}

fn fresh_vm(chunk: &Arc<Chunk>, function: u32) -> Vm {
    Vm::new(chunk.clone(), NativeTable::empty(), function, &[]).unwrap()
}

#[test]
fn compiles_load_imm_add_return() {
    let chunk = add_chunk();
    let mut compiler = TraceCompiler::new();
    let trace = compiler.compile_trace(&chunk, start()).unwrap();
    assert!(trace.span.range.contains(&0));
}

#[test]
fn compiles_branch_falsy_taken() {
    let mut b = ChunkBuilder::new("jit-branch");
    b.begin_function("main", 0, 1);
    let done = b.new_label();
    let ret = b.new_label();
    b.emit_load_imm(0, 0);
    b.emit_branch(0, done);
    b.emit_load_imm(0, 99);
    b.emit_jump(ret);
    b.bind_label(done);
    b.emit_load_imm(0, 7);
    b.bind_label(ret);
    b.emit_return(0);
    let chunk = b.finish();

    let trace = TraceCompiler::new().compile_trace(&chunk, start()).unwrap();
    let mut slots = vec![0i64; 1];
    let ret = run_compiled_trace_ref(&trace, &mut slots, 10_000, 0, 1);
    assert_eq!(slots[0], 7);
    assert!(matches!(ret.into_reason(), ExitReason::Return { .. }));
}

#[test]
fn compiles_unconditional_jump() {
    let mut b = ChunkBuilder::new("jit-jump");
    b.begin_function("main", 0, 1);
    let skip = b.new_label();
    let ret = b.new_label();
    b.emit_load_imm(0, 1);
    b.emit_jump(skip);
    b.emit_load_imm(0, 99);
    b.bind_label(skip);
    b.emit_load_imm(0, 41);
    b.bind_label(ret);
    b.emit_return(0);
    let chunk = b.finish();

    let trace = TraceCompiler::new().compile_trace(&chunk, start()).unwrap();
    let mut slots = vec![0i64; 1];
    let ret = run_compiled_trace_ref(&trace, &mut slots, 10_000, 0, 1);
    assert!(matches!(ret.into_reason(), ExitReason::Return { return_reg: 0 }));
    assert_eq!(slots[0], 41);
}

#[test]
fn compiles_intra_chunk_call() {
    let mut b = ChunkBuilder::new("jit-call");
    b.begin_function("double", 0, 1);
    b.emit_load_imm(0, 21);
    b.emit_return(0);
    b.begin_function("main", 1, 1);
    b.emit_load_imm(0, 0);
    b.emit_call(0, 0, 1);
    b.emit_return(0);
    let chunk = Arc::new(b.finish());

    let mut ctx = JitContext::new(chunk.clone());
    let key = TraceKey { function: 1, entry_pc: chunk.functions[1].entry };
    force_compile(&mut ctx, &chunk, key).unwrap();
    let mut vm = fresh_vm(&chunk, key.function);
    let result = run_vm_with_jit(&mut vm, 10_000, &mut ctx);
    assert!(matches!(result, VmResult::Complete(Value::Int(21))));
}

#[test]
fn run_vm_with_jit_completes_scalar_add() {
    let chunk = add_chunk();
    let mut ctx = JitContext::new(chunk.clone());
    force_compile(&mut ctx, &chunk, start()).unwrap();

    let mut vm = fresh_vm(&chunk, 0);
    let result = run_vm_with_jit(&mut vm, 10_000, &mut ctx);
    assert!(matches!(result, VmResult::Complete(Value::Int(42))));
    // The interpreter performed nothing.
    assert_eq!(vm.instructions_executed(), 0);
}

#[test]
fn native_trace_computes_42() {
    let chunk = add_chunk();
    let mut ctx = JitContext::new(chunk.clone());
    force_compile(&mut ctx, &chunk, start()).unwrap();
    let trace = ctx.cache.get(&start()).expect("trace missing after force_compile");
    let mut slots = vec![0i64; 3];
    let ret = run_compiled_trace_ref(trace, &mut slots, 10_000, 0, 3);
    assert!(matches!(ret.into_reason(), ExitReason::Return { return_reg: 2 }));
    assert_eq!(slots[2], 42);
}

#[test]
fn jit_matches_interpreter_on_scalar_add() {
    let chunk = add_chunk();
    let interp = fresh_vm(&chunk, 0).run(10_000);
    assert!(matches!(interp, VmResult::Complete(Value::Int(42))));

    let mut ctx = JitContext::new(chunk.clone());
    let mut slots = vec![0i64; 3];
    force_compile(&mut ctx, &chunk, start()).unwrap();
    let trace = ctx.cache.get(&start()).expect("trace missing after force_compile");
    let exit = run_compiled_trace_ref(trace, &mut slots, 10_000, 0, 3).into_reason();
    assert!(matches!(exit, ExitReason::Return { return_reg: 2 }));
    assert_eq!(slots[2], 42);

    let mut vm = fresh_vm(&chunk, 0);
    match apply_exit_to_vm(&mut vm, &slots, exit).unwrap() {
        Some(VmResult::Complete(Value::Int(42))) => {}
        other => panic!("expected Completed(42), got {other:?}"),
    }
}

#[test]
fn div_by_zero_returns_trap_exit() {
    let mut b = ChunkBuilder::new("jit-div0");
    b.begin_function("main", 0, 3);
    b.emit_load_imm(0, 1);
    b.emit_load_imm(1, 0);
    b.emit_binop(Opcode::Div, 2, 0, 1);
    b.emit_return(2);
    let chunk = Arc::new(b.finish());

    let mut ctx = JitContext::new(chunk.clone());
    force_compile(&mut ctx, &chunk, start()).unwrap();
    let trace = ctx.cache.get(&start()).expect("trace missing after force_compile");
    let mut slots = vec![0i64; 3];
    let ret = run_compiled_trace_ref(trace, &mut slots, 10_000, 0, 3);
    assert!(matches!(ret.into_reason(), ExitReason::Trap { .. }));
    // What was computed before the division was written back.
    assert_eq!(slots, vec![1, 0, 0]);
}

#[test]
fn sync_slots_deopts_on_float() {
    let chunk = add_chunk();
    let mut vm = fresh_vm(&chunk, 0);
    vm.set_register(0, Value::Float(1.0f64.to_bits())).unwrap();
    let mut slots = vec![0i64; 3];
    assert_eq!(sync_slots_from_vm(&vm, &mut slots), SyncSlotsResult::Deopt);
}

#[test]
fn runtime_path_compiles_and_runs() {
    let chunk = add_chunk();
    let mut runtime = JitRuntime::new(chunk.clone(), 1);
    let mut slots = vec![0i64; 3];
    let mut metrics = JitMetrics::new();
    let exit =
        try_run_hot_runtime(&mut runtime, &chunk, start(), &mut slots, 10_000, 3, &mut metrics)
            .expect("expected jit execution");
    assert!(matches!(exit, ExitReason::Return { return_reg: 2 }));
    assert_eq!(slots[2], 42);
    assert_eq!((metrics.jit_compiles, metrics.jit_executions), (1, 1));
}

#[test]
fn budget_exit_when_exhausted_mid_trace() {
    let mut b = ChunkBuilder::new("jit-budget");
    b.begin_function("main", 0, 1);
    b.emit_load_imm(0, 1);
    b.emit_load_imm(0, 2);
    b.emit_load_imm(0, 3);
    b.emit_return(0);
    let chunk = Arc::new(b.finish());

    let mut ctx = JitContext::new(chunk.clone());
    force_compile(&mut ctx, &chunk, start()).unwrap();
    let trace = ctx.cache.get(&start()).expect("trace missing after force_compile");
    let mut slots = vec![0i64; 1];
    let ret = run_compiled_trace_ref(trace, &mut slots, 2, 0, 1);
    assert!(matches!(ret.into_reason(), ExitReason::Budget { pc: 2 }));
}

fn loop_chunk() -> Arc<Chunk> {
    let mut b = ChunkBuilder::new("jit-interleave");
    b.begin_function("main", 0, 2);
    b.emit_load_imm(0, 0);
    let head = b.new_label();
    b.bind_label(head);
    b.emit_load_imm(1, 1);
    b.emit_binop(Opcode::Add, 0, 0, 1);
    b.emit_load_imm(1, 100);
    b.emit_binop(Opcode::Lt, 1, 0, 1);
    let done = b.new_label();
    b.emit_branch(1, done);
    b.emit_jump(head);
    b.bind_label(done);
    b.emit_return(0);
    Arc::new(b.finish())
}

#[test]
fn interleaved_jit_compiles_mid_quantum() {
    let chunk = loop_chunk();
    let head_pc = chunk.functions[0].entry + 1;

    let mut ctx = JitContext::new(chunk.clone());
    ctx.hot_threshold = 2;
    let mut vm = fresh_vm(&chunk, 0);
    let result = run_vm_with_jit(&mut vm, 10_000, &mut ctx);
    assert!(matches!(result, VmResult::Complete(Value::Int(100))));
    assert!(ctx.cache.get(&TraceKey { function: 0, entry_pc: head_pc }).is_some());
}

#[test]
fn reload_chunk_invalidates_jit_cache() {
    let chunk = add_chunk();
    let mut runtime = JitRuntime::new(chunk.clone(), 1);
    let mut slots = vec![0i64; 3];
    let mut metrics = JitMetrics::new();
    let exit =
        try_run_hot_runtime(&mut runtime, &chunk, start(), &mut slots, 10_000, 3, &mut metrics)
            .expect("expected jit execution");
    assert!(matches!(exit, ExitReason::Return { .. }));

    let mut b = ChunkBuilder::new("other");
    b.begin_function("main", 0, 1);
    b.emit_load_imm(0, 1);
    b.emit_return(0);
    runtime.reload(Arc::new(b.finish()));
    assert!(runtime.get_trace(&start()).is_none());
}

#[test]
fn code_of_another_image_does_not_apply() {
    let chunk = add_chunk();
    let twin = add_chunk();
    let mut runtime = JitRuntime::with_default_threshold(chunk.clone());
    assert_eq!(runtime.hot_threshold, 1000);
    assert!(runtime.matches_chunk(&chunk));
    assert!(!runtime.matches_chunk(&twin));
    let mut metrics = JitMetrics::new();
    let mut vm = fresh_vm(&twin, 0);
    let r = run_vm_with_jit_runtime(&mut vm, 100, &mut runtime, &mut metrics);
    assert!(matches!(r, VmResult::Complete(Value::Int(42))));
    assert_eq!(metrics, JitMetrics::new());
}

#[test]
fn a_place_is_compiled_when_it_ran_often_enough() {
    assert_eq!(hot_threshold(), 1000);
    let mut hot = HotCounter::default();
    assert!(!hot.hit(start(), 3));
    assert!(!hot.hit(start(), 3));
    assert!(hot.hit(start(), 3));
    hot.reset(start());
    assert!(!hot.hit(start(), 3));
    let chunk = add_chunk();
    let mut ctx = JitContext::new(chunk.clone());
    ctx.hot_threshold = 2;
    let mut slots = vec![0i64; 3];
    let mut m = JitMetrics::new();
    assert!(try_run_hot(&mut ctx, &chunk, start(), &mut slots, 100, 3, &mut m).is_none());
    assert_eq!((m.jit_misses, slots[2]), (1, 0));
    assert!(try_run_hot(&mut ctx, &chunk, start(), &mut slots, 100, 3, &mut m).is_some());
    assert_eq!(slots[2], 42);
}

#[test]
fn what_cannot_be_compiled_is_refused() {
    let chunk = add_chunk();
    let mut compiler = TraceCompiler::new();
    let missing = TraceKey { function: 9, entry_pc: 0 };
    assert!(matches!(
        compiler.compile_trace(&chunk, missing),
        Err(CompileError::EmptyTrace { function: 9, pc: 0 })
    ));
    let mut b = ChunkBuilder::new("effects");
    b.begin_function("main", 0, 2);
    b.emit_yield();
    b.emit_load_imm(0, 1);
    b.emit_yield();
    b.emit_call(0, 7, 0);
    b.emit_host_await(0, 1, 2);
    b.emit_return(0);
    let chunk = b.finish();
    let at = |entry_pc| TraceKey { function: 0, entry_pc };
    assert!(matches!(
        compiler.compile_trace(&chunk, at(0)),
        Err(CompileError::EmptyTrace { .. })
    ));
    let open = compiler.compile_trace(&chunk, at(1)).err().unwrap();
    assert!(matches!(open, CompileError::Module(_)));
    assert_eq!(open.text(), "module error: block at pc 1 has no terminator");
    assert!(matches!(
        compiler.compile_trace(&chunk, at(3)),
        Err(CompileError::UnsupportedOpcode { opcode: Opcode::Call, pc: 3 })
    ));
    let err = compiler.compile_trace(&chunk, at(4)).err().unwrap();
    assert_eq!(err.text(), "unsupported opcode HostAwait at pc 4");
}

#[test]
fn compiled_and_interpreted_arithmetic_agree() {
    for (op, x, y) in [
        (Opcode::Add, i64::MAX, 1),
        (Opcode::Sub, i64::MIN, 1),
        (Opcode::Mul, i64::MAX, 2),
        (Opcode::Div, -7, 2),
        (Opcode::Div, i64::MIN, -1),
        (Opcode::Mod, -7, 2),
        (Opcode::Mod, i64::MIN, -1),
    ] {
        let mut b = ChunkBuilder::new("agree");
        let kx = b.const_(Value::Int(x));
        let ky = b.const_(Value::Int(y));
        b.begin_function("main", 0, 3);
        b.emit_load_const(0, kx);
        b.emit_load_const(1, ky);
        b.emit_binop(op, 2, 0, 1);
        b.emit_neg(2, 2);
        b.emit_return(2);
        let chunk = Arc::new(b.finish());
        let interp = match fresh_vm(&chunk, 0).run(10) {
            VmResult::Complete(Value::Int(v)) => v,
            other => panic!("{other:?}"),
        };
        let mut ctx = JitContext::new(chunk.clone());
        force_compile(&mut ctx, &chunk, start()).unwrap();
        match run_vm_with_jit(&mut fresh_vm(&chunk, 0), 10, &mut ctx) {
            VmResult::Complete(Value::Int(v)) => assert_eq!(v, interp),
            other => panic!("{other:?}"),
        }
    }
}

#[test]
fn slots_and_registers_are_copied_both_ways() {
    let chunk = add_chunk();
    let mut vm = fresh_vm(&chunk, 0);
    vm.set_register(0, Value::Int(5)).unwrap();
    vm.set_register(1, Value::Bool(true)).unwrap();
    let mut slots = vec![9i64; 2];
    assert_eq!(sync_slots_from_vm(&vm, &mut slots), SyncSlotsResult::Synced);
    assert_eq!(slots, vec![5, 1]);
    slots = vec![8, 7];
    sync_slots_to_vm(&mut vm, &slots).unwrap();
    assert_eq!(
        vm.top_registers().unwrap().to_vec(),
        vec![Value::Int(8), Value::Int(7), Value::Unit]
    );
}

#[test]
fn a_return_register_beyond_the_registers_gives_up() {
    let ret = JitReturn { kind: JIT_RETURN, pc: 4, return_reg: 300 };
    assert!(matches!(ret.into_reason(), ExitReason::Deopt { pc: 4 }));
}

#[test]
fn a_runtime_keeps_traces_and_counts_runs() {
    let chunk = add_chunk();
    let mut runtime = JitRuntime::new(chunk.clone(), 2);
    assert!(runtime.get_trace(&start()).is_none());
    assert!(!runtime.record_hot_hit(start()));
    assert!(runtime.record_hot_hit(start()));
    let trace = TraceCompiler::new().compile_trace(&chunk, start()).unwrap();
    runtime.insert_trace(start(), trace);
    assert!(runtime.get_trace(&start()).is_some());
}

/// Entered in the middle, both ways of the branch lead out of the trace.
fn wide_branch(condition: i32) -> Chunk {
    let mut b = ChunkBuilder::new("wide-branch");
    b.begin_function("main", 0, 2);
    let no = b.new_label();
    b.emit_load_imm(0, condition);
    b.emit_branch(0, no);
    b.emit_self_pid(1);
    b.emit_return(1);
    b.bind_label(no);
    b.emit_self_pid(1);
    b.emit_return(1);
    b.finish()
}

#[test]
fn a_branch_out_of_the_trace_goes_the_right_way() {
    for (condition, pc) in [(0, 4), (1, 2)] {
        let chunk = wide_branch(condition);
        let trace = TraceCompiler::new().compile_trace(&chunk, start()).unwrap();
        let mut slots = vec![0i64; 2];
        let ret = run_compiled_trace_ref(&trace, &mut slots, 10_000, 0, 2);
        match ret.into_reason() {
            ExitReason::Continue { pc: at } => assert_eq!(at, pc),
            other => panic!("expected a way out, got {other:?}"),
        }
        assert_eq!(slots[0], condition as i64);
    }
}

#[test]
fn each_return_returns_its_own_register() {
    for (condition, want) in [(0, 9), (1, 8)] {
        let mut b = ChunkBuilder::new("two-returns");
        b.begin_function("main", 0, 3);
        let no = b.new_label();
        b.emit_load_imm(0, condition);
        b.emit_load_imm(1, 8);
        b.emit_load_imm(2, 9);
        b.emit_branch(0, no);
        b.emit_return(1);
        b.bind_label(no);
        b.emit_return(2);
        let chunk = Arc::new(b.finish());
        let mut ctx = JitContext::new(chunk.clone());
        force_compile(&mut ctx, &chunk, start()).unwrap();
        let mut vm = fresh_vm(&chunk, 0);
        let compiled = run_vm_with_jit(&mut vm, 10_000, &mut ctx);
        assert!(matches!(compiled, VmResult::Complete(Value::Int(v)) if v == want));
        let interpreted = fresh_vm(&chunk, 0).run(10_000);
        assert!(matches!(interpreted, VmResult::Complete(Value::Int(v)) if v == want));
    }
}

#[test]
fn code_of_another_image_is_not_run() {
    let chunk = add_chunk();
    for same in [false, true] {
        let mut ctx = JitContext::new(chunk.clone());
        force_compile(&mut ctx, &chunk, start()).unwrap();
        let mut vm = fresh_vm(&chunk, 0);
        let mut metrics = JitMetrics::new();
        let r = run_rounds(
            &mut vm,
            same,
            10_000,
            &mut ctx.cache,
            &mut ctx.hot,
            ctx.hot_threshold,
            &mut metrics,
        );
        assert!(matches!(r, VmResult::Complete(Value::Int(42))));
        assert_eq!(metrics.jit_executions, if same { 1 } else { 0 });
    }
}
