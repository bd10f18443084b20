//! Instructions of Cranelift's intermediate language.
//!
//! A function under construction is a listing: its instructions in the order
//! in which they were inserted, each with its block. Values and blocks are
//! numbered in the order of creation.

use cranelift_codegen::ir::condcodes::IntCC;
use cranelift_codegen::ir::{
    types, AbiParam, Block, Function, InstBuilder, MachMemFlags, Signature, UserFuncName, Value,
};
use cranelift_codegen::isa::CallConv;
use cranelift_frontend::{FunctionBuilder, FunctionBuilderContext};
use vstd::prelude::*;

verus! {

/// Most values, instructions and blocks of a function. Cranelift numbers the
/// instructions of a block in steps of ten, and places the lists of results
/// and of arguments, of four entries each or more, in one pool: both numbers
/// have 32 bits.
pub const MAX_LISTING: usize = 0x0600_0000;

/// Most parameters of a block.
pub const MAX_BLOCK_PARAMS: usize = 0x1_0000;

/// Type of a value in memory or of a constant.
#[derive(Debug, Clone, Copy, PartialEq, Eq, Structural)]
pub enum ClifType {
    I32,
    I64,
}

/// Comparison of two integers.
#[derive(Debug, Clone, Copy, PartialEq, Eq, Structural)]
pub enum Cond {
    Equal,
    SignedLess,
    SignedLessEqual,
    SignedGreaterEqual,
}

/// An instruction. Operands are values and blocks by number; the result of
/// an instruction that has one is the next value.
pub ghost enum Insn {
    Iconst { ty: ClifType, value: i64 },
    Iadd { x: u32, y: u32 },
    Isub { x: u32, y: u32 },
    Imul { x: u32, y: u32 },
    Sdiv { x: u32, y: u32 },
    Srem { x: u32, y: u32 },
    Compare { cond: Cond, x: u32, y: u32 },
    Select { c: u32, x: u32, y: u32 },
    Uextend { x: u32 },
    Load { ty: ClifType, addr: u32, offset: i32 },
    Store { x: u32, addr: u32, offset: i32 },
    Brif { c: u32, yes: u32, no: u32 },
    Jump { to: u32 },
    Return,
}

/// An instruction in its block. `out` is the number of its result, if it
/// has one.
pub ghost struct Placed {
    pub block: u32,
    pub out: int,
    pub insn: Insn,
}

/// A function under construction.
#[verifier::ext_equal]
pub ghost struct Listing {
    /// Instructions in the order of insertion, each with its block.
    pub code: Seq<Placed>,
    /// How many values there are.
    pub values: int,
    /// How many blocks there are.
    pub blocks: int,
    /// Blocks that end in a branch or a return.
    pub filled: Set<u32>,
    /// Block that instructions are added to.
    pub at: Option<u32>,
    /// How many parameters the function has.
    pub params: int,
    /// How many variables were declared.
    pub variables: int,
    /// Whether blocks were declared to have all their predecessors.
    pub sealed: bool,
    /// Whether the function holds no memory flags but those that claim
    /// nothing of the address.
    pub plain_flags: bool,
}

/// Whether an instruction can be added.
pub open spec fn ready(s: Listing) -> bool {
    &&& s.at is Some
    &&& !s.filled.contains(s.at->Some_0)
    &&& s.code.len() < MAX_LISTING
    &&& 0 <= s.values < MAX_LISTING
    &&& !s.sealed
}

/// Whether the number names a value.
pub open spec fn has_value(s: Listing, v: u32) -> bool {
    v < s.values
}

/// Whether the number names a block.
pub open spec fn has_block(s: Listing, b: u32) -> bool {
    b < s.blocks
}

/// A function of one parameter, with nothing in it yet.
pub open spec fn empty_listing() -> Listing {
    Listing {
        code: Seq::empty(),
        values: 0,
        blocks: 0,
        filled: Set::empty(),
        at: None,
        params: 1,
        variables: 0,
        sealed: false,
        plain_flags: true,
    }
}

/// With an instruction that has no result.
pub open spec fn put(s: Listing, i: Insn) -> Listing {
    Listing { code: s.code.push(Placed { block: s.at->Some_0, out: s.values, insn: i }), ..s }
}

/// With an instruction that has a result.
pub open spec fn def(s: Listing, i: Insn) -> Listing {
    Listing { values: s.values + 1, ..put(s, i) }
}

/// With an instruction that ends its block.
pub open spec fn end(s: Listing, i: Insn) -> Listing {
    Listing { filled: s.filled.insert(s.at->Some_0), ..put(s, i) }
}

/// With `n` more blocks.
pub open spec fn more_blocks(s: Listing, n: int) -> Listing {
    Listing { blocks: s.blocks + n, ..s }
}

/// At another block.
pub open spec fn goto(s: Listing, b: u32) -> Listing {
    Listing { at: Some(b), ..s }
}

#[verifier::external_type_specification]
#[verifier::external_body]
pub struct ExFunctionBuilder<'a>(FunctionBuilder<'a>);

/// The listing of the function that a builder builds.
pub uninterp spec fn built(b: FunctionBuilder<'_>) -> Listing;

#[verifier::external_type_specification]
#[verifier::external_body]
pub struct ExFunction(Function);

#[verifier::external_type_specification]
#[verifier::external_body]
pub struct ExCallConv(CallConv);

#[verifier::external_type_specification]
#[verifier::external_body]
pub struct ExFunctionBuilderContext(FunctionBuilderContext);

/// The listing of a function that is not being built.
pub uninterp spec fn held(f: Function) -> Listing;

/// Whether nothing is under construction in a context.
pub uninterp spec fn idle(c: FunctionBuilderContext) -> bool;

/// `Function::with_name_signature`: a function with nothing in it. Its
/// signature has the calling convention, one parameter of 64 bits and no
/// result.
#[verifier::external_body]
pub(crate) fn new_function(number: u32, conv: CallConv) -> (r: Function)
    ensures
        held(r) == empty_listing(),
{
    let mut sig = Signature::new(conv);
    sig.params.push(AbiParam::new(types::I64));
    Function::with_name_signature(UserFuncName::user(0, number), sig)
}

/// `FunctionBuilderContext::new`: a context with nothing under construction.
#[verifier::external_body]
pub(crate) fn new_context() -> (r: FunctionBuilderContext)
    ensures
        idle(r),
{
    FunctionBuilderContext::new()
}

/// `FunctionBuilder::new`: starts on a function with nothing in it. The
/// context has to be idle.
#[verifier::external_body]
pub(crate) fn new_builder<'a>(
    f: &'a mut Function,
    c: &'a mut FunctionBuilderContext,
) -> (r: FunctionBuilder<'a>)
    requires
        idle(*old(c)),
        held(*old(f)) == empty_listing(),
    ensures
        built(r) == empty_listing(),
{
    FunctionBuilder::new(f, c)
}

/// `FunctionBuilder::create_block`: adds a block, which gets the next
/// number. No instruction is in it, and the builder stays where it is.
#[verifier::external_body]
pub(crate) fn create_block(b: &mut FunctionBuilder<'_>) -> (r: u32)
    requires
        0 <= built(*old(b)).blocks < MAX_LISTING,
    ensures
        r == built(*old(b)).blocks,
        built(*final(b)) == more_blocks(built(*old(b)), 1),
{
    b.create_block().as_u32()
}

/// `FunctionBuilder::switch_to_block`: instructions go to the block from
/// now on. The block that was left has to be ended, and the new one open.
#[verifier::external_body]
pub(crate) fn switch_to_block(b: &mut FunctionBuilder<'_>, block: u32)
    requires
        built(*old(b)).at matches Some(at) ==> built(*old(b)).filled.contains(at),
        has_block(built(*old(b)), block),
        !built(*old(b)).filled.contains(block),
    ensures
        built(*final(b)) == goto(built(*old(b)), block),
{
    b.switch_to_block(Block::from_u32(block));
}

/// `FunctionBuilder::append_block_params_for_function_params`: gives an
/// empty block one parameter per parameter of the function. The parameters
/// are the next values. The index of a block's parameter has 16 bits.
#[verifier::external_body]
pub(crate) fn append_function_params(b: &mut FunctionBuilder<'_>, block: u32)
    requires
        has_block(built(*old(b)), block),
        built(*old(b)).code.len() == 0,
        0 <= built(*old(b)).values,
        0 <= built(*old(b)).params,
        built(*old(b)).values + built(*old(b)).params <= MAX_BLOCK_PARAMS,
        !built(*old(b)).sealed,
    ensures
        built(*final(b)) == (Listing {
            values: built(*old(b)).values + built(*old(b)).params,
            ..built(*old(b))
        }),
{
    b.append_block_params_for_function_params(Block::from_u32(block));
}

/// `FunctionBuilder::seal_all_blocks`: declares that no block gets another
/// predecessor. Without variables it adds nothing to the function.
#[verifier::external_body]
pub(crate) fn seal_all_blocks(b: &mut FunctionBuilder<'_>)
    requires
        built(*old(b)).variables == 0,
    ensures
        built(*final(b)) == (Listing { sealed: true, ..built(*old(b)) }),
{
    b.seal_all_blocks();
}

/// `InstBuilder::iconst`: inserts a constant. The bits of `value` beyond
/// the type have to be zero.
#[verifier::external_body]
pub(crate) fn iconst(b: &mut FunctionBuilder<'_>, ty: ClifType, value: i64) -> (r: u32)
    requires
        ready(built(*old(b))),
        ty is I32 ==> 0 <= value <= u32::MAX,
    ensures
        r == built(*old(b)).values,
        built(*final(b)) == def(built(*old(b)), Insn::Iconst { ty, value }),
{
    match ty {
        ClifType::I32 => b.ins().iconst(types::I32, value).as_u32(),
        ClifType::I64 => b.ins().iconst(types::I64, value).as_u32(),
    }
}

/// `InstBuilder::iadd`: inserts a wrapping addition.
#[verifier::external_body]
pub(crate) fn iadd(b: &mut FunctionBuilder<'_>, x: u32, y: u32) -> (r: u32)
    requires
        ready(built(*old(b))),
        has_value(built(*old(b)), x),
        has_value(built(*old(b)), y),
    ensures
        r == built(*old(b)).values,
        built(*final(b)) == def(built(*old(b)), Insn::Iadd { x, y }),
{
    b.ins().iadd(Value::from_u32(x), Value::from_u32(y)).as_u32()
}

/// `InstBuilder::isub`: inserts a wrapping subtraction.
#[verifier::external_body]
pub(crate) fn isub(b: &mut FunctionBuilder<'_>, x: u32, y: u32) -> (r: u32)
    requires
        ready(built(*old(b))),
        has_value(built(*old(b)), x),
        has_value(built(*old(b)), y),
    ensures
        r == built(*old(b)).values,
        built(*final(b)) == def(built(*old(b)), Insn::Isub { x, y }),
{
    b.ins().isub(Value::from_u32(x), Value::from_u32(y)).as_u32()
}

/// `InstBuilder::imul`: inserts a wrapping multiplication.
#[verifier::external_body]
pub(crate) fn imul(b: &mut FunctionBuilder<'_>, x: u32, y: u32) -> (r: u32)
    requires
        ready(built(*old(b))),
        has_value(built(*old(b)), x),
        has_value(built(*old(b)), y),
    ensures
        r == built(*old(b)).values,
        built(*final(b)) == def(built(*old(b)), Insn::Imul { x, y }),
{
    b.ins().imul(Value::from_u32(x), Value::from_u32(y)).as_u32()
}

/// `InstBuilder::sdiv`: inserts a signed division, rounded toward zero.
#[verifier::external_body]
pub(crate) fn sdiv(b: &mut FunctionBuilder<'_>, x: u32, y: u32) -> (r: u32)
    requires
        ready(built(*old(b))),
        has_value(built(*old(b)), x),
        has_value(built(*old(b)), y),
    ensures
        r == built(*old(b)).values,
        built(*final(b)) == def(built(*old(b)), Insn::Sdiv { x, y }),
{
    b.ins().sdiv(Value::from_u32(x), Value::from_u32(y)).as_u32()
}

/// `InstBuilder::srem`: inserts the remainder of a signed division.
#[verifier::external_body]
pub(crate) fn srem(b: &mut FunctionBuilder<'_>, x: u32, y: u32) -> (r: u32)
    requires
        ready(built(*old(b))),
        has_value(built(*old(b)), x),
        has_value(built(*old(b)), y),
    ensures
        r == built(*old(b)).values,
        built(*final(b)) == def(built(*old(b)), Insn::Srem { x, y }),
{
    b.ins().srem(Value::from_u32(x), Value::from_u32(y)).as_u32()
}

/// `InstBuilder::icmp`: inserts a comparison.
#[verifier::external_body]
pub(crate) fn compare(b: &mut FunctionBuilder<'_>, cond: Cond, x: u32, y: u32) -> (r: u32)
    requires
        ready(built(*old(b))),
        has_value(built(*old(b)), x),
        has_value(built(*old(b)), y),
    ensures
        r == built(*old(b)).values,
        built(*final(b)) == def(built(*old(b)), Insn::Compare { cond, x, y }),
{
    let cc = match cond {
        Cond::Equal => IntCC::Equal,
        Cond::SignedLess => IntCC::SignedLessThan,
        Cond::SignedLessEqual => IntCC::SignedLessThanOrEqual,
        Cond::SignedGreaterEqual => IntCC::SignedGreaterThanOrEqual,
    };
    b.ins().icmp(cc, Value::from_u32(x), Value::from_u32(y)).as_u32()
}

/// `InstBuilder::select`: inserts a choice of `x` where `c` is not zero, and
/// of `y` where it is.
#[verifier::external_body]
pub(crate) fn select(b: &mut FunctionBuilder<'_>, c: u32, x: u32, y: u32) -> (r: u32)
    requires
        ready(built(*old(b))),
        has_value(built(*old(b)), c),
        has_value(built(*old(b)), x),
        has_value(built(*old(b)), y),
    ensures
        r == built(*old(b)).values,
        built(*final(b)) == def(built(*old(b)), Insn::Select { c, x, y }),
{
    b.ins().select(Value::from_u32(c), Value::from_u32(x), Value::from_u32(y)).as_u32()
}

/// `InstBuilder::uextend`: inserts the extension of a value to 64 bits with
/// zeros.
#[verifier::external_body]
pub(crate) fn uextend(b: &mut FunctionBuilder<'_>, x: u32) -> (r: u32)
    requires
        ready(built(*old(b))),
        has_value(built(*old(b)), x),
    ensures
        r == built(*old(b)).values,
        built(*final(b)) == def(built(*old(b)), Insn::Uextend { x }),
{
    b.ins().uextend(types::I64, Value::from_u32(x)).as_u32()
}

/// `InstBuilder::load`: inserts a read of memory, with the flags that claim
/// nothing of the address. A function that holds no other memory flags has
/// room for these.
#[verifier::external_body]
pub(crate) fn load(
    b: &mut FunctionBuilder<'_>,
    ty: ClifType,
    addr: u32,
    offset: i32,
) -> (r: u32)
    requires
        ready(built(*old(b))),
        built(*old(b)).plain_flags,
        has_value(built(*old(b)), addr),
    ensures
        r == built(*old(b)).values,
        built(*final(b)) == def(built(*old(b)), Insn::Load { ty, addr, offset }),
{
    let flags = MachMemFlags::new();
    match ty {
        ClifType::I32 => b.ins().load(types::I32, flags, Value::from_u32(addr), offset).as_u32(),
        ClifType::I64 => b.ins().load(types::I64, flags, Value::from_u32(addr), offset).as_u32(),
    }
}

/// `InstBuilder::store`: inserts a write of memory, with the flags that
/// claim nothing of the address, which have room as for a read. It has no
/// result.
#[verifier::external_body]
pub(crate) fn store(b: &mut FunctionBuilder<'_>, x: u32, addr: u32, offset: i32)
    requires
        ready(built(*old(b))),
        built(*old(b)).plain_flags,
        has_value(built(*old(b)), x),
        has_value(built(*old(b)), addr),
    ensures
        built(*final(b)) == put(built(*old(b)), Insn::Store { x, addr, offset }),
{
    b.ins().store(MachMemFlags::new(), Value::from_u32(x), Value::from_u32(addr), offset);
}

/// `InstBuilder::brif`: ends the block with a jump to `yes` where `c` is
/// not zero, and to `no` where it is.
#[verifier::external_body]
pub(crate) fn brif(b: &mut FunctionBuilder<'_>, c: u32, yes: u32, no: u32)
    requires
        ready(built(*old(b))),
        has_value(built(*old(b)), c),
        has_block(built(*old(b)), yes),
        has_block(built(*old(b)), no),
    ensures
        built(*final(b)) == end(built(*old(b)), Insn::Brif { c, yes, no }),
{
    b.ins().brif(Value::from_u32(c), Block::from_u32(yes), &[], Block::from_u32(no), &[]);
}

/// `InstBuilder::jump`: ends the block with a jump.
#[verifier::external_body]
pub(crate) fn jump(b: &mut FunctionBuilder<'_>, to: u32)
    requires
        ready(built(*old(b))),
        has_block(built(*old(b)), to),
    ensures
        built(*final(b)) == end(built(*old(b)), Insn::Jump { to }),
{
    b.ins().jump(Block::from_u32(to), &[]);
}

/// `InstBuilder::return_`: ends the block with a return without values.
#[verifier::external_body]
pub(crate) fn return_(b: &mut FunctionBuilder<'_>)
    requires
        ready(built(*old(b))),
    ensures
        built(*final(b)) == end(built(*old(b)), Insn::Return),
{
    b.ins().return_(&[]);
}

} // verus!
