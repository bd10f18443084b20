use std::sync::Arc;

use byteflow::bytecode::builder::ChunkBuilder;
use byteflow::bytecode::chunk::Chunk;
use byteflow::bytecode::opcode::Opcode;
use byteflow::jit::code::{CodeBlock, Dest, Op, TraceCode};
use byteflow::jit::compiler::TraceCompiler;
use byteflow::jit::error::CompileError;
use byteflow::jit::exit::{JIT_BUDGET, JIT_RETURN};
use byteflow::jit::native::{NativeUnit, MAX_NATIVE_OPS};
use byteflow::jit::semantics::BinOp;
use byteflow::jit::trace::TraceKey;
use cranelift_codegen::ir::Function;
use cranelift_codegen::isa::OwnedTargetIsa;
use cranelift_codegen::settings;
use cranelift_codegen::verifier::verify_function;
use cranelift_codegen::Context;

fn host() -> OwnedTargetIsa {
    let flags = settings::Flags::new(settings::builder());
    cranelift_native::builder().unwrap().finish(flags).unwrap()
}

fn lowered(code: &TraceCode) -> (Function, Result<(), CompileError>) {
    let isa = host();
    let mut unit = NativeUnit::new(0, isa.default_call_conv());
    let r = match unit.lower(code) {
        Ok(b) => {
            b.finalize(isa.frontend_config());
            Ok(())
        }
        Err(e) => Err(e),
    };
    (unit.func, r)
}

fn opcodes(func: &Function) -> Vec<Vec<String>> {
    let mut all = Vec::new();
    for block in func.layout.blocks() {
        let mut ops = Vec::new();
        for inst in func.layout.block_insts(block) {
            ops.push(format!("{}", func.dfg.insts[inst].opcode()));
        }
        all.push(ops);
    }
    all
}

fn words(text: &str) -> Vec<String> {
    text.split_whitespace().map(String::from).collect()
}

fn machine_code(func: Function) -> usize {
    let isa = host();
    verify_function(&func, isa.as_ref()).unwrap();
    let mut ctx = Context::new();
    ctx.func = func;
    let mut plane = Default::default();
    ctx.compile(isa.as_ref(), &mut plane).unwrap().code_buffer().len()
}

const EXIT: &str = "iconst store iconst store iconst store return";

#[test]
fn an_exit_is_lowered() {
    let code = TraceCode {
        blocks: vec![CodeBlock {
            ops: vec![Op::Exit { kind: JIT_RETURN, pc: 7, return_reg: 2 }],
        }],
    };
    let (func, r) = lowered(&code);
    assert!(r.is_ok());
    assert_eq!(func.dfg.num_blocks(), 3);
    assert_eq!(func.dfg.num_values(), 9);
    assert_eq!(func.dfg.num_insts(), 17);
    let text = format!("{}", func.display());
    assert!(text.contains("v1 = load.i64 v0"));
    assert!(text.contains("v2 = load.i64 v0+40"));
    assert!(text.contains("v3 = iconst.i32 1"));
    assert!(text.contains("store v3, v0+12"));
    assert!(text.contains("v4 = iconst.i32 7"));
    assert!(text.contains("store v4, v0+16"));
    assert!(text.contains("v5 = iconst.i32 2"));
    assert!(text.contains("store v5, v0+20"));
    assert!(machine_code(func) > 0);
}

#[test]
fn a_block_is_lowered_operation_by_operation() {
    let code = TraceCode {
        blocks: vec![CodeBlock {
            ops: vec![
                Op::Tick { pc: 4 },
                Op::Const { value: 5 },
                Op::Load { reg: 1 },
                Op::Bin { op: BinOp::Add, lhs: 0, rhs: 1 },
                Op::Bin { op: BinOp::Sub, lhs: 2, rhs: 1 },
                Op::Bin { op: BinOp::Mul, lhs: 3, rhs: 9 },
                Op::Bin { op: BinOp::Lt, lhs: 4, rhs: 0 },
                Op::Store { reg: 2, src: 5 },
                Op::TrapIfZero { src: 5, pc: 6 },
                Op::BranchZero { src: 5, zero: Dest::Block(0), other: Dest::Exit(9) },
            ],
        }],
    };
    let (func, r) = lowered(&code);
    assert!(r.is_ok());
    let expected = vec![
        words("load load jump"),
        words("load iconst icmp brif"),
        words(EXIT),
        words(
            "iconst isub store iconst load iadd isub iconst imul icmp iconst iconst select store \
             iconst icmp brif",
        ),
        words(EXIT),
        words("iconst icmp brif"),
        words(EXIT),
        words(EXIT),
    ];
    assert_eq!(opcodes(&func), expected);
    let text = format!("{}", func.display());
    assert!(text.contains(&format!("iconst.i32 {}", JIT_BUDGET)));
    assert!(text.contains("load.i64 v1+8"));
    assert!(text.contains("icmp slt"));
    assert!(machine_code(func) > 0);
}

#[test]
fn a_division_is_guarded() {
    for op in [BinOp::Div, BinOp::Rem] {
        let code = TraceCode {
            blocks: vec![CodeBlock {
                ops: vec![
                    Op::Load { reg: 0 },
                    Op::Load { reg: 1 },
                    Op::Bin { op, lhs: 0, rhs: 1 },
                    Op::Store { reg: 0, src: 2 },
                    Op::Jump { to: Dest::Exit(3) },
                ],
            }],
        };
        let (func, r) = lowered(&code);
        assert!(r.is_ok());
        let name = if op == BinOp::Div { "sdiv" } else { "srem" };
        let mut ops = words("load load iconst iconst iconst icmp icmp select select");
        ops.push(String::from(name));
        ops.extend(words("isub select select store"));
        ops.extend(words(EXIT));
        assert_eq!(opcodes(&func)[1], ops);
        assert!(machine_code(func) > 0);
    }
}

#[test]
fn a_call_and_a_return_are_lowered() {
    let code = TraceCode {
        blocks: vec![
            CodeBlock {
                ops: vec![Op::Enter {
                    pc: 1,
                    back: 2,
                    callee: 1,
                    dest: 3,
                    argc: 2,
                    registers: 5,
                    block: 1,
                }],
            },
            CodeBlock { ops: vec![Op::Leave { reg: 0, pc: 8 }] },
        ],
    };
    let (func, r) = lowered(&code);
    assert!(r.is_ok());
    let mut body = words("iconst imul uextend iadd iconst store load store iconst store load store");
    body.extend(words("iconst iadd store load store load store iconst store iconst store jump"));
    let mut back = words("iconst isub store iconst imul uextend iadd load load load load");
    back.extend(words("load iconst imul uextend iadd store store store"));
    back.extend(words("iconst store store iconst store return"));
    let expected = vec![
        words("load load jump"),
        words("load iconst icmp brif"),
        words(EXIT),
        body,
        words("load iconst icmp brif"),
        words(EXIT),
        back,
        words(EXIT),
    ];
    assert_eq!(opcodes(&func), expected);
    let text = format!("{}", func.display());
    assert!(text.contains("icmp sge"));
    assert!(text.contains("load.i64 v1+24"));
    assert!(text.contains("load.i64 v1+32"));
    assert!(machine_code(func) > 0);
}

#[test]
fn code_that_runs_past_its_end_leaves() {
    let code = TraceCode { blocks: vec![CodeBlock { ops: vec![Op::Const { value: 1 }] }] };
    let (func, r) = lowered(&code);
    assert!(r.is_ok());
    assert_eq!(opcodes(&func)[1], words("iconst jump"));
    assert!(format!("{}", func.display()).contains("jump block2"));
    let none = TraceCode { blocks: Vec::new() };
    let (func, r) = lowered(&none);
    assert!(r.is_ok());
    assert_eq!(opcodes(&func).len(), 2);
}

fn loop_chunk() -> Arc<Chunk> {
    let mut b = ChunkBuilder::new("native-loop");
    b.begin_function("main", 0, 4);
    b.emit_load_imm(0, 10);
    b.emit_load_imm(1, 1);
    let top = b.new_label();
    let done = b.new_label();
    b.bind_label(top);
    b.emit_branch(0, done);
    b.emit_binop(Opcode::Sub, 0, 0, 1);
    b.emit_binop(Opcode::Div, 2, 0, 1);
    b.emit_jump(top);
    b.bind_label(done);
    b.emit_return(0);
    Arc::new(b.finish())
}

#[test]
fn a_compiled_trace_becomes_machine_code() {
    let chunk = loop_chunk();
    let key = TraceKey { function: 0, entry_pc: 0 };
    let trace = TraceCompiler::new().compile_trace(&chunk, key).unwrap();
    let (func, r) = lowered(&trace.entry);
    assert!(r.is_ok());
    assert!(machine_code(func) > 0);
}

#[test]
fn code_that_is_too_long_is_refused() {
    let mut blocks = Vec::new();
    for _ in 0..MAX_NATIVE_OPS + 1 {
        blocks.push(CodeBlock { ops: Vec::new() });
    }
    let (func, r) = lowered(&TraceCode { blocks });
    assert!(matches!(
        r,
        Err(CompileError::TraceTooLong { pc: 0, limit: MAX_NATIVE_OPS })
    ));
    assert_eq!(func.dfg.num_blocks(), 0);
}
