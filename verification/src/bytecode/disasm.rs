//! Human-readable listing of a module.

use vstd::prelude::*;

use crate::bytecode::chunk::{Chunk, FunctionDef, ABI_VERSION};
use crate::bytecode::instruction::{instruction_text, Instruction};
use crate::bytecode::value::{value_text, Value};
use crate::text::{dec, dec4, owned, push_dec4, push_quoted, push_str, push_u64, push_usize, quoted};

verus! {

/// The header line.
pub open spec fn header_line(chunk: Chunk) -> Seq<char> {
    "; chunk "@ + quoted(chunk.name@) + " abi="@ + dec(ABI_VERSION as nat) + " constants="@ + dec(
        chunk.constants@.len(),
    ) + " functions="@ + dec(chunk.functions@.len()) + " code="@ + dec(chunk.code@.len()) + "\n"@
}

/// The lines of the first `n` constants.
pub open spec fn constant_lines(s: Seq<Value>, floats: Seq<String>, n: nat) -> Seq<char>
    decreases n,
{
    if n == 0 {
        Seq::empty()
    } else {
        constant_lines(s, floats, (n - 1) as nat) + (";   const["@ + dec((n - 1) as nat) + "] = "@
            + value_text(s[n - 1], floats[n - 1]@) + "\n"@)
    }
}

/// The lines of the first `n` functions.
pub open spec fn function_lines(s: Seq<FunctionDef>, n: nat) -> Seq<char>
    decreases n,
{
    if n == 0 {
        Seq::empty()
    } else {
        let f = s[n - 1];
        function_lines(s, (n - 1) as nat) + ("; fn["@ + dec((n - 1) as nat) + "] "@ + f.name@
            + " entry="@ + dec(f.entry as nat) + " arity="@ + dec(f.arity as nat) + " regs="@ + dec(
            f.num_registers as nat,
        ) + "\n"@)
    }
}

/// The note behind an instruction at which a function starts: the first one
/// of the table, from `from` on.
pub open spec fn entry_note(s: Seq<FunctionDef>, at: nat, from: nat) -> Seq<char>
    decreases s.len() - from,
{
    if from >= s.len() {
        Seq::empty()
    } else if s[from as int].entry == at {
        "  ; "@ + s[from as int].name@
    } else {
        entry_note(s, at, from + 1)
    }
}

/// The lines of the first `n` instructions.
pub open spec fn code_lines(code: Seq<Instruction>, functions: Seq<FunctionDef>, n: nat) -> Seq<char>
    decreases n,
{
    if n == 0 {
        Seq::empty()
    } else {
        code_lines(code, functions, (n - 1) as nat) + (dec4((n - 1) as nat) + "  "@
            + instruction_text(code[n - 1]) + entry_note(functions, (n - 1) as nat, 0) + "\n"@)
    }
}

/// The whole listing.
pub open spec fn listing(chunk: Chunk, floats: Seq<String>) -> Seq<char> {
    header_line(chunk) + constant_lines(chunk.constants@, floats, chunk.constants@.len())
        + function_lines(chunk.functions@, chunk.functions@.len()) + code_lines(
        chunk.code@,
        chunk.functions@,
        chunk.code@.len(),
    )
}

fn push_header(out: &mut String, chunk: &Chunk)
    ensures
        final(out)@ == old(out)@ + header_line(*chunk),
{
    let mut s = owned("; chunk ");
    push_quoted(&mut s, chunk.name.as_str());
    push_str(&mut s, " abi=");
    push_u64(&mut s, ABI_VERSION as u64);
    push_str(&mut s, " constants=");
    push_usize(&mut s, chunk.constants.len());
    push_str(&mut s, " functions=");
    push_usize(&mut s, chunk.functions.len());
    push_str(&mut s, " code=");
    push_usize(&mut s, chunk.code.len());
    push_str(&mut s, "\n");
    push_str(out, s.as_str());
}

fn constant_line(index: usize, value: &Value, float: &str) -> (s: String)
    ensures
        s@ == ";   const["@ + dec(index as nat) + "] = "@ + value_text(*value, float@) + "\n"@,
{
    let mut s = owned(";   const[");
    push_usize(&mut s, index);
    push_str(&mut s, "] = ");
    push_str(&mut s, value.text(float).as_str());
    push_str(&mut s, "\n");
    s
}

fn function_line(index: usize, f: &FunctionDef) -> (s: String)
    ensures
        s@ == "; fn["@ + dec(index as nat) + "] "@ + f.name@ + " entry="@ + dec(f.entry as nat)
            + " arity="@ + dec(f.arity as nat) + " regs="@ + dec(f.num_registers as nat) + "\n"@,
{
    let mut s = owned("; fn[");
    push_usize(&mut s, index);
    push_str(&mut s, "] ");
    push_str(&mut s, f.name.as_str());
    push_str(&mut s, " entry=");
    push_u64(&mut s, f.entry as u64);
    push_str(&mut s, " arity=");
    push_u64(&mut s, f.arity as u64);
    push_str(&mut s, " regs=");
    push_u64(&mut s, f.num_registers as u64);
    push_str(&mut s, "\n");
    s
}

fn push_note(out: &mut String, functions: &Vec<FunctionDef>, at: usize)
    ensures
        final(out)@ == old(out)@ + entry_note(functions@, at as nat, 0),
{
    let mut k: usize = 0;
    while k < functions.len()
        invariant
            k <= functions@.len(),
            out@ == old(out)@,
            entry_note(functions@, at as nat, 0) == entry_note(functions@, at as nat, k as nat),
        decreases functions@.len() - k,
    {
        if functions[k].entry as u64 == at as u64 {
            let mut s = owned("  ; ");
            push_str(&mut s, functions[k].name.as_str());
            push_str(out, s.as_str());
            return ;
        }
        k += 1;
    }
}

fn code_line(at: usize, instr: &Instruction, functions: &Vec<FunctionDef>) -> (s: String)
    ensures
        s@ == dec4(at as nat) + "  "@ + instruction_text(*instr) + entry_note(
            functions@,
            at as nat,
            0,
        ) + "\n"@,
{
    let mut s = owned("");
    proof {
        reveal_strlit("");
    }
    push_dec4(&mut s, at);
    push_str(&mut s, "  ");
    push_str(&mut s, instr.text().as_str());
    push_note(&mut s, functions, at);
    push_str(&mut s, "\n");
    s
}

/// Listing of a module: its constants, functions and instructions.
/// `floats[i]` renders the double at the bottom of constant `i`, if any.
pub fn disassemble(chunk: &Chunk, floats: &Vec<String>) -> (r: String)
    requires
        floats@.len() == chunk.constants@.len(),
    ensures
        r@ == listing(*chunk, floats@),
{
    let mut out = owned("");
    proof {
        reveal_strlit("");
    }
    push_header(&mut out, chunk);
    let ghost head = header_line(*chunk);
    assert(out@ == head + constant_lines(chunk.constants@, floats@, 0));
    let mut k: usize = 0;
    while k < chunk.constants.len()
        invariant
            k <= chunk.constants@.len(),
            floats@.len() == chunk.constants@.len(),
            out@ == head + constant_lines(chunk.constants@, floats@, k as nat),
        decreases chunk.constants@.len() - k,
    {
        let line = constant_line(k, &chunk.constants[k], floats[k].as_str());
        push_str(&mut out, line.as_str());
        k += 1;
        assert(out@ == head + constant_lines(chunk.constants@, floats@, k as nat));
    }
    let ghost head = out@;
    assert(out@ == head + function_lines(chunk.functions@, 0));
    let mut k: usize = 0;
    while k < chunk.functions.len()
        invariant
            k <= chunk.functions@.len(),
            out@ == head + function_lines(chunk.functions@, k as nat),
        decreases chunk.functions@.len() - k,
    {
        let line = function_line(k, &chunk.functions[k]);
        push_str(&mut out, line.as_str());
        k += 1;
        assert(out@ == head + function_lines(chunk.functions@, k as nat));
    }
    let ghost head = out@;
    assert(out@ == head + code_lines(chunk.code@, chunk.functions@, 0));
    let mut k: usize = 0;
    while k < chunk.code.len()
        invariant
            k <= chunk.code@.len(),
            out@ == head + code_lines(chunk.code@, chunk.functions@, k as nat),
        decreases chunk.code@.len() - k,
    {
        let line = code_line(k, &chunk.code[k], &chunk.functions);
        push_str(&mut out, line.as_str());
        k += 1;
        assert(out@ == head + code_lines(chunk.code@, chunk.functions@, k as nat));
    }
    out
}

} // verus!
