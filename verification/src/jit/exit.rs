//! How compiled code hands back to the interpreter.

use vstd::prelude::*;

verus! {

/// Go on in the interpreter at another instruction.
pub const JIT_CONTINUE: u32 = 0;
/// The function returned.
pub const JIT_RETURN: u32 = 1;
/// A division by zero.
pub const JIT_TRAP: u32 = 2;
/// The budget is used up.
pub const JIT_BUDGET: u32 = 3;
/// The interpreter must perform an instruction.
pub const JIT_EFFECT: u32 = 4;
/// The code does not apply.
pub const JIT_DEOPT: u32 = 5;

/// What compiled code left behind.
#[derive(Debug, Clone, Copy, PartialEq, Eq, Structural)]
pub struct JitReturn {
    pub kind: u32,
    pub pc: u32,
    pub return_reg: u32,
}

/// Why compiled code ended.
#[derive(Debug, Clone, Copy, PartialEq, Eq, Structural)]
pub enum ExitReason {
    Return { return_reg: u8 },
    Trap { pc: u32 },
    Budget { pc: u32 },
    Continue { pc: u32 },
    Effect { pc: u32 },
    Deopt { pc: u32 },
}

/// The reason that a return stands for.
pub open spec fn reason_of(r: JitReturn) -> ExitReason {
    if r.kind == JIT_RETURN && r.return_reg <= u8::MAX {
        ExitReason::Return { return_reg: r.return_reg as u8 }
    } else if r.kind == JIT_TRAP {
        ExitReason::Trap { pc: r.pc }
    } else if r.kind == JIT_BUDGET {
        ExitReason::Budget { pc: r.pc }
    } else if r.kind == JIT_CONTINUE {
        ExitReason::Continue { pc: r.pc }
    } else if r.kind == JIT_EFFECT {
        ExitReason::Effect { pc: r.pc }
    } else {
        ExitReason::Deopt { pc: r.pc }
    }
}

impl JitReturn {
    /// The reason that this return stands for.
    pub fn into_reason(self) -> (r: ExitReason)
        ensures
            r == reason_of(self),
    {
        if self.kind == JIT_RETURN && self.return_reg <= u8::MAX as u32 {
            ExitReason::Return { return_reg: self.return_reg as u8 }
        } else if self.kind == JIT_TRAP {
            ExitReason::Trap { pc: self.pc }
        } else if self.kind == JIT_BUDGET {
            ExitReason::Budget { pc: self.pc }
        } else if self.kind == JIT_CONTINUE {
            ExitReason::Continue { pc: self.pc }
        } else if self.kind == JIT_EFFECT {
            ExitReason::Effect { pc: self.pc }
        } else {
            ExitReason::Deopt { pc: self.pc }
        }
    }
}

} // verus!
