//! A bytecode module in memory.

use vstd::prelude::*;

use crate::bytecode::instruction::Instruction;
use crate::bytecode::value::Value;
use crate::text::same_text;

verus! {

/// First four bytes of an encoded module: `BFV0`.
pub const MAGIC: [u8; 4] = [0x42, 0x46, 0x56, 0x30];

/// Version of the module format.
pub const ABI_VERSION: u32 = 5;

/// One entry of the function table.
#[derive(Clone, Debug, PartialEq, Eq)]
pub struct FunctionDef {
    pub name: String,
    /// Index of the first instruction.
    pub entry: u32,
    pub arity: u8,
    pub num_registers: u8,
}

/// Constants, code and functions of one module.
#[derive(Clone, Debug, PartialEq)]
pub struct Chunk {
    pub name: String,
    pub constants: Vec<Value>,
    pub code: Vec<Instruction>,
    pub functions: Vec<FunctionDef>,
}

/// The element of `s` at `index`, if there is one.
pub open spec fn element<T>(s: Seq<T>, index: nat) -> Option<T> {
    if index < s.len() {
        Some(s[index as int])
    } else {
        None
    }
}

impl Chunk {
    /// A module without name, constants, code or functions.
    pub fn new() -> (r: Self)
        ensures
            r.name@.len() == 0,
            r.constants@.len() == 0,
            r.code@.len() == 0,
            r.functions@.len() == 0,
    {
        Chunk {
            name: String::new(),
            constants: Vec::new(),
            code: Vec::new(),
            functions: Vec::new(),
        }
    }

    /// The function with this index.
    pub fn function(&self, index: u32) -> (r: Option<&FunctionDef>)
        ensures
            match r {
                Some(def) => element(self.functions@, index as nat) == Some(*def),
                None => element(self.functions@, index as nat) is None,
            },
    {
        if (index as usize) < self.functions.len() {
            Some(&self.functions[index as usize])
        } else {
            None
        }
    }

    /// The index of the first function with this name, if it fits in 32
    /// bits.
    pub fn function_index(&self, name: &str) -> (r: Option<u32>)
        ensures
            match r {
                Some(k) => k < self.functions@.len() && self.functions@[k as int].name@ == name@
                    && forall|j: int|
                    0 <= j < k ==> (#[trigger] self.functions@[j]).name@ != name@,
                None => forall|j: int|
                    0 <= j < self.functions@.len() && j <= u32::MAX ==> (
                    #[trigger] self.functions@[j]).name@ != name@,
            },
    {
        let mut k: usize = 0;
        while k < self.functions.len()
            invariant
                k <= self.functions@.len(),
                forall|j: int| 0 <= j < k ==> (#[trigger] self.functions@[j]).name@ != name@,
            decreases self.functions@.len() - k,
        {
            if same_text(self.functions[k].name.as_str(), name) {
                if k > u32::MAX as usize {
                    return None;
                }
                return Some(k as u32);
            }
            k += 1;
        }
        None
    }

    /// The constant with this index.
    pub fn constant(&self, index: u32) -> (r: Option<&Value>)
        ensures
            match r {
                Some(v) => element(self.constants@, index as nat) == Some(*v),
                None => element(self.constants@, index as nat) is None,
            },
    {
        if (index as usize) < self.constants.len() {
            Some(&self.constants[index as usize])
        } else {
            None
        }
    }
}

impl Default for Chunk {
    fn default() -> (r: Self)
        ensures
            r.name@.len() == 0,
            r.constants@.len() == 0,
            r.code@.len() == 0,
            r.functions@.len() == 0,
    {
        Chunk::new()
    }
}

} // verus!
