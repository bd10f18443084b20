//! Activation records.

use vstd::prelude::*;

use crate::bytecode::value::Value;

verus! {

/// One activation record with registers of its own.
#[derive(Debug)]
pub struct Frame {
    pub function: u32,
    pub pc: usize,
    pub registers: Vec<Value>,
    /// Register of the caller that takes the result; none for the outermost
    /// frame.
    pub dest_reg: Option<u8>,
}

/// What an activation record holds.
pub ghost struct FrameState {
    pub function: u32,
    pub pc: usize,
    pub registers: Seq<Value>,
    pub dest_reg: Option<u8>,
}

/// Registers of a new frame.
pub open spec fn blank_registers(n: u8) -> Seq<Value> {
    Seq::new(n as nat, |i: int| Value::Unit)
}

impl View for Frame {
    type V = FrameState;

    open spec fn view(&self) -> FrameState {
        FrameState {
            function: self.function,
            pc: self.pc,
            registers: self.registers@,
            dest_reg: self.dest_reg,
        }
    }
}

impl Frame {
    /// A frame at the first instruction, with all registers `Unit`.
    pub fn new(function: u32, num_registers: u8, dest_reg: Option<u8>) -> (r: Self)
        ensures
            r@ == (FrameState {
                function,
                pc: 0,
                registers: blank_registers(num_registers),
                dest_reg,
            }),
    {
        let mut registers: Vec<Value> = Vec::new();
        let mut k: u8 = 0;
        while k < num_registers
            invariant
                k <= num_registers,
                registers@.len() == k,
                forall|i: int| 0 <= i < k ==> registers@[i] == Value::Unit,
            decreases num_registers - k,
        {
            registers.push(Value::Unit);
            k += 1;
        }
        assert(registers@ =~= blank_registers(num_registers));
        Frame { function, pc: 0, registers, dest_reg }
    }
}

} // verus!
