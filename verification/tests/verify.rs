use byteflow::bytecode::builder::ChunkBuilder;
use byteflow::bytecode::cap::CapId;
use byteflow::bytecode::chunk::{Chunk, FunctionDef};
use byteflow::bytecode::instruction::Instruction;
use byteflow::bytecode::opcode::Opcode;
use byteflow::bytecode::value::{Message, Value};
use byteflow::bytecode::verify::{
    verify, verify_with, ConstantKind, TrustLevel, VerifyConfig, VerifyError,
};

#[test]
fn rejects_empty_function_table() {
    let chunk = Chunk::default();
    assert_eq!(verify(&chunk), Err(VerifyError::EmptyFunctionTable));
}

#[test]
fn accepts_well_formed_chunk() {
    let mut b = ChunkBuilder::new("test");
    b.begin_function("main", 0, 2);
    let k = b.const_(Value::Int(41));
    b.emit_load_const(0, k);
    b.emit_load_imm(1, 1);
    b.emit_binop(Opcode::Add, 0, 0, 1);
    b.emit_return(0);
    let chunk = b.finish();
    assert!(verify(&chunk).is_ok());
}

#[test]
fn rejects_arity_larger_than_the_register_file() {
    let mut b = ChunkBuilder::new("test");
    b.begin_function("main", 3, 1);
    b.emit_return(0);
    let chunk = b.finish();
    assert_eq!(
        verify(&chunk),
        Err(VerifyError::ArityExceedsRegisters { function: 0, arity: 3, num_registers: 1 })
    );
}

#[test]
fn accepts_arity_equal_to_the_register_file() {
    let mut b = ChunkBuilder::new("test");
    b.begin_function("main", 2, 2);
    b.emit_return(0);
    let chunk = b.finish();
    assert!(verify(&chunk).is_ok());
}

fn with_code(code: Vec<Instruction>) -> Chunk {
    let mut chunk = Chunk::default();
    chunk.functions.push(FunctionDef {
        name: "main".into(),
        entry: 0,
        arity: 0,
        num_registers: 1,
    });
    chunk.code = code;
    chunk
}

#[test]
fn rejects_out_of_range_jump() {
    let chunk = with_code(vec![Instruction::only_imm(Opcode::Jump, 999)]);
    assert!(matches!(verify(&chunk), Err(VerifyError::JumpOutOfRange { .. })));
}

#[test]
fn untrusted_rejects_cap_pid_message_constants() {
    for (value, kind) in [
        (Value::Cap(CapId::from_raw(1)), ConstantKind::Capability),
        (Value::Pid(7), ConstantKind::ProcessId),
        (
            Value::Message(Message::new(1, 2, 3, Value::from(4u64))),
            ConstantKind::Message,
        ),
    ] {
        let mut b = ChunkBuilder::new("forge");
        b.begin_function("main", 0, 1);
        let k = b.const_(value);
        b.emit_load_const(0, k);
        b.emit_return(0);
        let chunk = b.finish();
        assert_eq!(
            verify(&chunk),
            Err(VerifyError::ForbiddenConstant { index: 0, kind })
        );
        assert!(verify_with(&chunk, VerifyConfig { trust: TrustLevel::Trusted }).is_ok());
    }
}

#[test]
fn rejects_indices_out_of_range() {
    assert_eq!(
        verify(&with_code(vec![Instruction::a_imm(Opcode::LoadConst, 0, 3)])),
        Err(VerifyError::ConstOutOfRange { at: 0, index: 3, len: 0 })
    );
    assert_eq!(
        verify(&with_code(vec![Instruction::new(Opcode::Call, 0, 0, 0, 4)])),
        Err(VerifyError::FunctionOutOfRange { at: 0, index: 4, len: 1 })
    );
    let mut chunk = with_code(vec![Instruction::nullary(Opcode::Nop)]);
    chunk.functions[0].entry = 9;
    assert_eq!(
        verify(&chunk),
        Err(VerifyError::EntryOutOfRange { function: 0, entry: 9, len: 1 })
    );
}

#[test]
fn a_jump_just_behind_the_code_is_accepted() {
    let ok = with_code(vec![Instruction::only_imm(Opcode::Jump, 0)]);
    assert!(verify(&ok).is_ok());
    let back = with_code(vec![Instruction::only_imm(Opcode::Jump, -1)]);
    assert!(verify(&back).is_ok());
    let before = with_code(vec![Instruction::only_imm(Opcode::Jump, -2)]);
    assert!(matches!(verify(&before), Err(VerifyError::JumpOutOfRange { target: -1, .. })));
}
