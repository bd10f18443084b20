//! What the instructions of a listing do.
//!
//! Memory is the frame, the slots and the call records behind it. A value is
//! a number of 64 or 32 bits, a flag, or a pointer into one of the three. A
//! read that fits none of these, and a division that a processor refuses,
//! give no value.

use vstd::prelude::*;

use crate::jit::clif::{ClifType, Cond, Insn, Placed};
use crate::jit::native::{
    OFF_BUDGET, OFF_CALL_DEPTH, OFF_CALL_STACK, OFF_EXIT_KIND, OFF_FUNCTION, OFF_PC,
    OFF_REGISTER_COUNT, OFF_RETURN_REG, OFF_SLOTS, REC_DEST_REG, REC_REGISTER_COUNT,
    REC_RETURN_FUNCTION,
};
use crate::jit::semantics::JitCallRecord;
use crate::vm::state::{quotient, remainder};

verus! {

/// A value.
pub ghost enum Word {
    Long(i64),
    Short(u32),
    Flag(bool),
    Frame,
    /// A pointer this many bytes into the slots.
    Slots(int),
    /// A pointer this many bytes into the call records.
    Calls(int),
    Nothing,
}

/// Values and memory.
#[verifier::ext_equal]
pub ghost struct Native {
    pub words: Map<int, Word>,
    pub mem: Seq<i64>,
    pub calls: Seq<JitCallRecord>,
    pub budget: u32,
    pub kind: u32,
    pub pc: u32,
    pub return_reg: u32,
    pub function: u32,
    pub registers: u32,
    pub depth: u32,
}

/// The value with a number.
pub open spec fn word(st: Native, v: u32) -> Word {
    st.words[v as int]
}

/// A number of 32 bits, read as signed.
pub open spec fn signed(x: u32) -> int {
    if x < 0x8000_0000 {
        x as int
    } else {
        x - 0x1_0000_0000
    }
}

/// Whether a comparison holds.
pub open spec fn holds(cond: Cond, a: int, b: int) -> bool {
    match cond {
        Cond::Equal => a == b,
        Cond::SignedLess => a < b,
        Cond::SignedLessEqual => a <= b,
        Cond::SignedGreaterEqual => a >= b,
    }
}

/// A field of a call record.
pub open spec fn record_field(r: JitCallRecord, at: int) -> Word {
    if at == 0 {
        Word::Short(r.return_pc)
    } else if at == REC_RETURN_FUNCTION {
        Word::Short(r.return_function)
    } else if at == REC_DEST_REG {
        Word::Short(r.dest_reg)
    } else if at == REC_REGISTER_COUNT {
        Word::Short(r.caller_register_count)
    } else {
        Word::Nothing
    }
}

/// A call record with another value in a field.
pub open spec fn record_with(r: JitCallRecord, at: int, x: u32) -> JitCallRecord {
    if at == 0 {
        JitCallRecord { return_pc: x, ..r }
    } else if at == REC_RETURN_FUNCTION {
        JitCallRecord { return_function: x, ..r }
    } else if at == REC_DEST_REG {
        JitCallRecord { dest_reg: x, ..r }
    } else if at == REC_REGISTER_COUNT {
        JitCallRecord { caller_register_count: x, ..r }
    } else {
        r
    }
}

/// What stands in memory.
pub open spec fn read_word(st: Native, addr: Word, offset: i32) -> Word {
    match addr {
        Word::Frame => if offset == OFF_SLOTS {
            Word::Slots(0)
        } else if offset == OFF_CALL_STACK {
            Word::Calls(0)
        } else if offset == OFF_BUDGET {
            Word::Short(st.budget)
        } else if offset == OFF_FUNCTION {
            Word::Short(st.function)
        } else if offset == OFF_REGISTER_COUNT {
            Word::Short(st.registers)
        } else if offset == OFF_CALL_DEPTH {
            Word::Short(st.depth)
        } else {
            Word::Nothing
        },
        Word::Slots(o) => {
            let at = o + offset;
            if at % 8 == 0 && 0 <= at / 8 < st.mem.len() {
                Word::Long(st.mem[at / 8])
            } else {
                Word::Nothing
            }
        },
        Word::Calls(o) => {
            let at = o + offset;
            if 0 <= at / 16 < st.calls.len() {
                record_field(st.calls[at / 16], at % 16)
            } else {
                Word::Nothing
            }
        },
        _ => Word::Nothing,
    }
}

/// Memory with another value.
pub open spec fn written(st: Native, addr: Word, offset: i32, x: Word) -> Native {
    match (addr, x) {
        (Word::Frame, Word::Short(v)) => if offset == OFF_BUDGET {
            Native { budget: v, ..st }
        } else if offset == OFF_EXIT_KIND {
            Native { kind: v, ..st }
        } else if offset == OFF_PC {
            Native { pc: v, ..st }
        } else if offset == OFF_RETURN_REG {
            Native { return_reg: v, ..st }
        } else if offset == OFF_FUNCTION {
            Native { function: v, ..st }
        } else if offset == OFF_REGISTER_COUNT {
            Native { registers: v, ..st }
        } else if offset == OFF_CALL_DEPTH {
            Native { depth: v, ..st }
        } else {
            st
        },
        (Word::Slots(o), Word::Long(v)) => {
            let at = o + offset;
            if at % 8 == 0 && 0 <= at / 8 < st.mem.len() {
                Native { mem: st.mem.update(at / 8, v), ..st }
            } else {
                st
            }
        },
        (Word::Calls(o), Word::Short(v)) => {
            let at = o + offset;
            if 0 <= at / 16 < st.calls.len() {
                Native {
                    calls: st.calls.update(at / 16, record_with(st.calls[at / 16], at % 16, v)),
                    ..st
                }
            } else {
                st
            }
        },
        _ => st,
    }
}

/// The result of an instruction.
pub open spec fn result_word(st: Native, i: Insn) -> Word {
    match i {
        Insn::Iconst { ty, value } => match ty {
            ClifType::I32 => Word::Short(value as u32),
            ClifType::I64 => Word::Long(value),
        },
        Insn::Iadd { x, y } => match (word(st, x), word(st, y)) {
            (Word::Long(a), Word::Long(b)) => Word::Long(a.wrapping_add(b)),
            (Word::Short(a), Word::Short(b)) => Word::Short(a.wrapping_add(b)),
            (Word::Slots(o), Word::Long(b)) => Word::Slots(o + b),
            (Word::Calls(o), Word::Long(b)) => Word::Calls(o + b),
            _ => Word::Nothing,
        },
        Insn::Isub { x, y } => match (word(st, x), word(st, y)) {
            (Word::Long(a), Word::Long(b)) => Word::Long(a.wrapping_sub(b)),
            (Word::Short(a), Word::Short(b)) => Word::Short(a.wrapping_sub(b)),
            _ => Word::Nothing,
        },
        Insn::Imul { x, y } => match (word(st, x), word(st, y)) {
            (Word::Long(a), Word::Long(b)) => Word::Long(a.wrapping_mul(b)),
            (Word::Short(a), Word::Short(b)) => Word::Short(a.wrapping_mul(b)),
            _ => Word::Nothing,
        },
        Insn::Sdiv { x, y } => match (word(st, x), word(st, y)) {
            (Word::Long(a), Word::Long(b)) => if b == 0 || b == -1 {
                Word::Nothing
            } else {
                Word::Long(quotient(a, b))
            },
            _ => Word::Nothing,
        },
        Insn::Srem { x, y } => match (word(st, x), word(st, y)) {
            (Word::Long(a), Word::Long(b)) => if b == 0 || b == -1 {
                Word::Nothing
            } else {
                Word::Long(remainder(a, b))
            },
            _ => Word::Nothing,
        },
        Insn::Compare { cond, x, y } => match (word(st, x), word(st, y)) {
            (Word::Long(a), Word::Long(b)) => Word::Flag(holds(cond, a as int, b as int)),
            (Word::Short(a), Word::Short(b)) => Word::Flag(holds(cond, signed(a), signed(b))),
            _ => Word::Nothing,
        },
        Insn::Select { c, x, y } => match word(st, c) {
            Word::Flag(b) => if b {
                word(st, x)
            } else {
                word(st, y)
            },
            _ => Word::Nothing,
        },
        Insn::Uextend { x } => match word(st, x) {
            Word::Short(a) => Word::Long(a as i64),
            _ => Word::Nothing,
        },
        Insn::Load { ty, addr, offset } => read_word(st, word(st, addr), offset),
        _ => Word::Nothing,
    }
}

/// An instruction that goes on to the next one. `out` is the number of its
/// result.
pub open spec fn performed(st: Native, i: Insn, out: int) -> Native {
    match i {
        Insn::Store { x, addr, offset } => written(st, word(st, addr), offset, word(st, x)),
        _ => Native { words: st.words.insert(out, result_word(st, i)), ..st },
    }
}

/// Whether an instruction goes on to the next one.
pub open spec fn falls_through(i: Insn) -> bool {
    !(i is Brif || i is Jump || i is Return)
}

/// Where a function stands: before an instruction, or at its end.
pub ghost enum Point {
    At(int, Native),
    Done(Native),
}

/// The first instruction of a block, from `from` on.
pub open spec fn block_start(code: Seq<Placed>, block: u32, from: int) -> int
    decreases code.len() - from,
{
    if from >= code.len() {
        from
    } else if code[from].block == block {
        from
    } else {
        block_start(code, block, from + 1)
    }
}

/// One instruction.
pub open spec fn stepped(code: Seq<Placed>, p: Point) -> Point {
    match p {
        Point::At(i, st) => if !(0 <= i < code.len()) {
            p
        } else {
            match code[i].insn {
                Insn::Brif { c, yes, no } => Point::At(
                    block_start(
                        code,
                        if word(st, c) == Word::Flag(true) {
                            yes
                        } else {
                            no
                        },
                        0,
                    ),
                    st,
                ),
                Insn::Jump { to } => Point::At(block_start(code, to, 0), st),
                Insn::Return => Point::Done(st),
                insn => Point::At(i + 1, performed(st, insn, code[i].out)),
            }
        },
        Point::Done(_) => p,
    }
}

/// `n` instructions.
pub open spec fn walked(code: Seq<Placed>, p: Point, n: nat) -> Point
    decreases n,
{
    if n == 0 {
        p
    } else {
        stepped(code, walked(code, p, (n - 1) as nat))
    }
}

/// Whether one point leads to another.
pub open spec fn leads(code: Seq<Placed>, p: Point, q: Point) -> bool {
    exists|n: nat| #[trigger] walked(code, p, n) == q
}

} // verus!
