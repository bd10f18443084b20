use std::sync::Arc;

use byteflow::bytecode::chunk::Chunk;
use byteflow::bytecode::instruction::Instruction;
use byteflow::bytecode::opcode::Opcode;
use byteflow::bytecode::program::Program;
use byteflow::bytecode::restart::RestartPolicy;
use byteflow::bytecode::value::Value;
use byteflow::bytecode::verify::{verify, VerifyError};
use byteflow::vm::machine::Vm;
use byteflow::vm::native::NativeTable;
use byteflow::vm::result::VmResult;

const TAG_PING: i32 = 10;
const TAG_PONG: i32 = 11;

fn count_to(n: i64) -> Chunk {
    let mut program = Program::new("count");
    program.function("main", 0, |mut f| {
        let limit = f.load_int(n);
        let counter = f.load_i32(0);
        let mut f = f.while_lt(counter, limit, |mut f| {
            f.add_imm(counter, 1);
            f
        });
        f.return_(counter);
        f
    });
    program.build()
}

fn ping_pong() -> Chunk {
    let mut program = Program::new("ping-pong");
    let pong = program.function("pong", 0, |mut f| {
        let msg = f.receive();
        let payload = f.hop_payload(msg);
        f.add_imm(payload, 1);
        f.send_reply(msg, TAG_PONG, payload);
        f.exit(payload);
        f
    });
    program.function("main", 0, |mut f| {
        let child = f.spawn(pong, 0);
        let payload = f.load_i32(1);
        let req = f.hop_fresh(TAG_PING, payload);
        let rid = f.hop_request_id(req);
        f.send(child, req);
        let reply = f.receive_match_corr_imm(TAG_PONG as u16, rid);
        let out = f.hop_payload(reply);
        f.return_(out);
        f
    });
    program.build()
}

#[test]
fn function_raw_keeps_declared_register_file_for_verify() {
    let mut program = Program::new("malformed");
    program.function_raw("main", 3, 1, |mut f| {
        let r0 = f.reg(0);
        f.return_(r0);
        f
    });
    let chunk = program.build();
    assert_eq!(chunk.functions[0].arity, 3);
    assert_eq!(chunk.functions[0].num_registers, 1);
    assert!(matches!(
        verify(&chunk),
        Err(VerifyError::ArityExceedsRegisters { function: 0, arity: 3, num_registers: 1 })
    ));
}

#[test]
fn count_loop_returns_n() {
    let chunk = count_to(100);
    let mut vm = Vm::new(Arc::new(chunk), NativeTable::empty(), 0, &[]).unwrap();
    assert!(matches!(vm.run(10_000), VmResult::Complete(Value::Int(100))));
}

#[test]
fn ping_pong_shape() {
    let chunk = ping_pong();
    verify(&chunk).unwrap();
    assert!(chunk.functions.iter().any(|f| f.name == "main"));
    assert!(chunk.functions.iter().any(|f| f.name == "pong"));
}

#[test]
fn a_long_constant_goes_to_the_pool() {
    let mut program = Program::new("pool");
    program.function("main", 0, |mut f| {
        let a = f.load_int(i64::MAX);
        f.return_(a);
        f
    });
    let chunk = program.build();
    assert_eq!(chunk.constants, vec![Value::Int(i64::MAX)]);
    let mut vm = Vm::new(Arc::new(chunk), NativeTable::empty(), 0, &[]).unwrap();
    assert!(matches!(vm.run(10), VmResult::Complete(Value::Int(i64::MAX))));
}

#[test]
fn arithmetic_helpers_compute() {
    let mut program = Program::new("math");
    program.function("main", 0, |mut f| {
        let a = f.load_i32(17);
        let b = f.load_i32(5);
        let q = f.div(a, b);
        let r = f.modulo(a, b);
        let p = f.mul(q, r);
        let d = f.sub(p, b);
        let n = f.neg(d);
        f.return_(n);
        f
    });
    let mut vm = Vm::new(Arc::new(program.build()), NativeTable::empty(), 0, &[]).unwrap();
    assert!(matches!(vm.run(100), VmResult::Complete(Value::Int(-1))));
}

#[test]
fn a_window_is_a_run_of_registers() {
    let mut program = Program::new("window");
    program.function("main", 0, |mut f| {
        let w = f.window(3);
        assert_eq!(w.at(0).index(), w.base().index());
        assert_eq!(w.at(2).index(), w.base().index() + 2);
        let r = f.local();
        assert_eq!(r.index(), w.base().index() + 3);
        f.return_(r);
        f
    });
    let chunk = program.build();
    assert!(chunk.functions[0].num_registers >= 4);
}

fn instr(op: Opcode, a: u8, b: u8, c: u8, imm: i32) -> Instruction {
    Instruction { op, a, b, c, imm }
}

#[test]
fn receive_helpers_emit_their_instructions() {
    let mut program = Program::new("receive");
    program.function("main", 3, |mut f| {
        let r0 = f.reg(0);
        let r1 = f.reg(1);
        let r2 = f.reg(2);
        assert_eq!(f.receive_timeout(r1).slot, 4);
        assert_eq!(f.receive_match(r2).slot, 5);
        assert_eq!(f.receive_match_imm(513).slot, 6);
        assert_eq!(f.receive_match_corr(r0, r1).slot, 7);
        assert_eq!(f.receive_match_kind(2).slot, 8);
        assert_eq!(f.ask_timeout(r0, r1, r2).slot, 9);
        f.halt();
        f
    });
    let chunk = program.build();
    let expected = vec![
        instr(Opcode::ReceiveTimeout, 4, 1, 0, 0),
        instr(Opcode::ReceiveMatch, 5, 2, 0, 0),
        instr(Opcode::ReceiveMatchImm, 6, 0, 0, 513),
        instr(Opcode::ReceiveMatchCorr, 7, 0, 1, 0),
        instr(Opcode::ReceiveMatchKind, 8, 0, 0, 2),
        instr(Opcode::AskTimeout, 9, 0, 1, 2),
        instr(Opcode::Halt, 0, 0, 0, 0),
    ];
    assert_eq!(chunk.code, expected);
}

#[test]
fn flow_helpers_emit_their_instructions() {
    let mut program = Program::new("flow");
    let child = program.function("child", 0, |mut f| {
        f.halt();
        f
    });
    program.function("main", 1, |mut f| {
        let r0 = f.reg(0);
        f.yield_();
        f.set_trap_exit(r0);
        f.set_restart_policy(RestartPolicy::Always);
        assert_eq!(f.self_address().slot, 4);
        assert_eq!(f.spawn_confined(child, 0).slot, 5);
        f.spawn_at(r0, child, 0);
        f.halt();
        f
    });
    let chunk = program.build();
    let policy = i32::from(RestartPolicy::Always.as_u8());
    let expected = vec![
        instr(Opcode::Halt, 0, 0, 0, 0),
        instr(Opcode::Yield, 0, 0, 0, 0),
        instr(Opcode::SetTrapExit, 0, 0, 0, 0),
        instr(Opcode::SetRestartPolicy, 0, 0, 0, policy),
        instr(Opcode::SelfPid, 4, 0, 0, 0),
        instr(Opcode::Spawn, 5, 0, 0, 0),
        instr(Opcode::Spawn, 0, 0, 0xBF, 0),
        instr(Opcode::Halt, 0, 0, 0, 0),
    ];
    assert_eq!(chunk.code, expected);
}

#[test]
fn labels_and_comparisons_steer_a_function() {
    let mut program = Program::new("steer");
    program.function("main", 0, |mut f| {
        let a = f.load_i32(3);
        let b = f.load_i32(4);
        let less = f.lt(a, b);
        let other = f.label();
        f.branch_if_falsy(less, other);
        let at_most = f.le(b, a);
        f.branch_if_falsy(at_most, other);
        let wrong = f.load_i32(0);
        f.return_(wrong);
        f.bind(other);
        let same = f.eq_imm(b, 4);
        f.return_(same);
        f
    });
    let chunk = program.build();
    verify(&chunk).unwrap();
    let mut vm = Vm::new(Arc::new(chunk), NativeTable::empty(), 0, &[]).unwrap();
    assert!(matches!(vm.run(100), VmResult::Complete(Value::Bool(true))));
}

#[test]
fn constants_and_registers_are_declared() {
    let mut program = Program::new("constants");
    program.function("main", 0, |mut f| {
        f.reserve(5);
        let s = f.load_str("name");
        let bytes = f.load_bytes(vec![1u8, 2]);
        assert_eq!((s.slot, bytes.slot), (5, 6));
        let tag = f.hop_tag(s);
        f.return_(tag);
        f
    });
    let chunk = program.build();
    assert_eq!(chunk.constants, vec![Value::str("name"), Value::bytes(vec![1u8, 2])]);
    assert_eq!(chunk.functions[0].num_registers, 8);
    assert!(chunk.code.contains(&instr(Opcode::Move, 7, 5, 0, 0)));
    assert!(chunk.code.contains(&instr(Opcode::CallNative, 7, 1, 0, 5)));
}

#[test]
fn locals_are_fresh_until_the_registers_run_out() {
    let mut program = Program::new("locals");
    program.function("main", 6, |mut f| {
        let first = f.local();
        let loaded = f.load_i32(1);
        f.reserve(20);
        let late = f.local();
        assert_eq!([first.index(), loaded.index(), late.index()], [6, 7, 20]);
        f.return_(late);
        f
    });
    program.function("full", 0, |mut f| {
        f.reserve(254);
        let last = f.local();
        assert_eq!(last.index(), 254);
        assert_eq!(f.local().index(), 255);
        assert_eq!(f.local().index(), 255);
        f.return_(last);
        f
    });
    let chunk = program.build();
    assert_eq!(chunk.functions[0].num_registers, 21);
    assert_eq!(chunk.functions[1].num_registers, 255);
}
