use byteflow::bytecode::builder::ChunkBuilder;
use byteflow::bytecode::opcode::Opcode;

#[test]
fn emit_native1_from_never_clobbers_source_register() {
    let mut b = ChunkBuilder::new("clobber-test");
    b.begin_function("main", 0, 8);
    b.emit_native1_from(1, 0, 10);
    b.emit_native1_from(2, 0, 11);
    b.emit_native1_from(3, 0, 12);
    let chunk = b.finish();

    assert_eq!(chunk.code.len(), 6);
    for (move_idx, call_idx, expected_native) in [(0usize, 1usize, 10i32), (2, 3, 11), (4, 5, 12)] {
        assert_eq!(chunk.code[move_idx].op, Opcode::Move);
        assert_eq!(chunk.code[move_idx].b, 0);
        assert_eq!(chunk.code[call_idx].op, Opcode::CallNative);
        assert_ne!(chunk.code[call_idx].a, 0);
        assert_eq!(chunk.code[call_idx].imm, expected_native);
    }
}

#[test]
fn emit_native_n_is_a_plain_call_native_with_no_extra_instructions() {
    let mut b = ChunkBuilder::new("native-n-test");
    b.begin_function("main", 0, 8);
    b.emit_load_imm(1, 7);
    b.emit_load_imm(2, 1);
    b.emit_native_n(1, 99, 2);
    let chunk = b.finish();

    assert_eq!(chunk.code.len(), 3);
    assert_eq!(chunk.code[2].op, Opcode::CallNative);
    assert_eq!(chunk.code[2].a, 1);
    assert_eq!(chunk.code[2].b, 2);
    assert_eq!(chunk.code[2].imm, 99);
}

#[test]
fn labels_resolve_to_the_distance_from_behind_the_jump() {
    let mut b = ChunkBuilder::new("labels");
    b.begin_function("main", 0, 1);
    let head = b.new_label();
    let done = b.new_label();
    b.bind_label(head);
    b.emit_branch(0, done);
    b.emit_jump(head);
    b.bind_label(done);
    b.emit_return(0);
    let chunk = b.finish();
    assert_eq!(chunk.code[0].imm, 1);
    assert_eq!(chunk.code[1].imm, -2);
    assert_eq!(chunk.code[2].op, Opcode::Return);
}

#[test]
fn a_jump_to_an_unbound_label_falls_through() {
    let mut b = ChunkBuilder::new("unbound");
    b.begin_function("main", 0, 1);
    let nowhere = b.new_label();
    b.emit_jump(nowhere);
    b.emit_return(0);
    let chunk = b.finish();
    assert_eq!(chunk.code[0].imm, 0);
}

#[test]
fn functions_are_found_by_name() {
    let mut b = ChunkBuilder::new("names");
    let first = b.begin_function("first", 0, 1);
    b.emit_return(0);
    let second = b.begin_function("second", 1, 2);
    b.emit_return(0);
    assert_eq!(b.function_index("first"), Some(first));
    assert_eq!(b.function_index("second"), Some(second));
    assert_eq!(b.function_index("third"), None);
    b.set_num_registers(second, 9);
    let chunk = b.finish();
    assert_eq!(chunk.functions[1].entry, 1);
    assert_eq!(chunk.functions[1].num_registers, 9);
    assert_eq!(chunk.function(2).is_none(), true);
}
