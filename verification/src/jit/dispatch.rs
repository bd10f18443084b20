//! Runs compiled code for a machine.

use vstd::prelude::*;

use crate::bytecode::chunk::{Chunk, FunctionDef};
use crate::bytecode::value::Value;
use crate::jit::code::{code_run, code_states, JitFrame, TraceCode};
use crate::jit::compiler::{
    can_compile, compile_result, is_trace_of, trace_ctx, TraceCompiler,
};
use crate::jit::error::CompileError;
use crate::jit::exit::{reason_of, ExitReason, JitReturn};
use crate::jit::region::region_of;
use crate::jit::runtime::{same_image, JitRuntime};
use crate::jit::semantics::{mem_get, slot_of, trace_run, Mach};
use crate::jit::trace::{
    one_more, CompiledTrace, HotCounter, JitContext, JitEntry, TraceCache, TraceKey,
    HOT_THRESHOLD,
};
use crate::vm::fault::Fault;
use crate::vm::frame::FrameState;
use crate::vm::machine::{result_view, Vm};
use crate::vm::result::{Effect, VmResult};
use crate::vm::state::{no_frame, pop, slice, store, with_pc, with_top, VmState};

verus! {

/// What happened to compiled code. The counters wrap.
#[derive(Debug, Clone, Copy, PartialEq, Eq, Structural)]
pub struct JitMetrics {
    pub jit_executions: u64,
    pub jit_compiles: u64,
    pub jit_compile_failures: u64,
    pub jit_misses: u64,
    pub jit_deopts: u64,
}

impl JitMetrics {
    /// Nothing happened yet.
    pub fn new() -> (r: Self)
        ensures
            r == (JitMetrics {
                jit_executions: 0,
                jit_compiles: 0,
                jit_compile_failures: 0,
                jit_misses: 0,
                jit_deopts: 0,
            }),
    {
        JitMetrics {
            jit_executions: 0,
            jit_compiles: 0,
            jit_compile_failures: 0,
            jit_misses: 0,
            jit_deopts: 0,
        }
    }
}

/// Whether the registers of a machine fit in slots.
#[derive(Debug, Clone, Copy, PartialEq, Eq, Structural)]
pub enum SyncSlotsResult {
    Synced,
    /// A register holds what no slot can hold.
    Deopt,
    /// There is no frame.
    Unavailable,
}

/// The first `k` registers are in the slots, unless one of them does not fit.
pub open spec fn synced(regs: Seq<Value>, slots: Seq<i64>, k: nat) -> (Seq<i64>, bool)
    decreases k,
{
    if k == 0 {
        (slots, true)
    } else {
        let (s, ok) = synced(regs, slots, (k - 1) as nat);
        if !ok {
            (s, false)
        } else {
            match slot_of(regs[k - 1]) {
                Some(v) => (s.update(k - 1, v), true),
                None => (s, false),
            }
        }
    }
}

/// The shorter of two lengths.
pub open spec fn shorter(a: nat, b: nat) -> nat {
    if a < b {
        a
    } else {
        b
    }
}

/// Registers that hold what the slots hold.
pub open spec fn slots_written(regs: Seq<Value>, slots: Seq<i64>) -> Seq<Value> {
    Seq::new(
        regs.len(),
        |i: int|
            if i < slots.len() {
                Value::Int(slots[i])
            } else {
                regs[i]
            },
    )
}

/// The machine after the slots were written to its registers.
pub open spec fn written_to(s: VmState, slots: Seq<i64>) -> (VmState, Result<(), Fault>) {
    if s.frames.len() == 0 {
        (s, Err(Fault::Invariant("empty frame stack while syncing slots")))
    } else {
        let f = s.frames.last();
        (
            with_top(s, FrameState { registers: slots_written(f.registers, slots), ..f }),
            Ok(()),
        )
    }
}

/// The machine at `pc`, if it runs.
pub open spec fn moved_to(s: VmState, pc: usize) -> VmState {
    if s.frames.len() > 0 {
        with_pc(s, pc)
    } else {
        s
    }
}

/// The machine after compiled code returned from the active frame.
pub open spec fn return_applied(s: VmState, slots: Seq<i64>, reg: u8) -> (
    VmState,
    Result<Option<Effect>, Fault>,
) {
    let v = Value::Int(mem_get(slots, reg as int));
    match store(s, reg, v) {
        (t, Err(f)) => (t, Err(f)),
        (t, Ok(_)) => if t.frames.len() == 0 {
            (t, Err(no_frame()))
        } else {
            let pc = t.frames.last().pc;
            let next = if pc == usize::MAX {
                pc
            } else {
                (pc + 1) as usize
            };
            match pop(with_pc(t, next), v) {
                (u, None) => (u, Ok(None)),
                (u, Some(Effect::Trap(f))) => (u, Err(f)),
                (u, Some(e)) => (u, Ok(Some(e))),
            }
        },
    }
}

/// The machine after compiled code ended, and what it ended with.
pub open spec fn exit_applied(s: VmState, slots: Seq<i64>, exit: ExitReason) -> (
    VmState,
    Result<Option<Effect>, Fault>,
) {
    match exit {
        ExitReason::Return { return_reg } => return_applied(s, slots, return_reg),
        ExitReason::Trap { pc } => (
            moved_to(s, pc as usize),
            Ok(Some(Effect::Trap(Fault::DivideByZero))),
        ),
        ExitReason::Budget { pc } | ExitReason::Continue { pc } | ExitReason::Effect { pc } =>
            match written_to(moved_to(s, pc as usize), slots) {
                (t, Ok(_)) => (t, Ok(None)),
                (t, Err(f)) => (t, Err(f)),
            },
        ExitReason::Deopt { pc } => (moved_to(s, pc as usize), Ok(None)),
    }
}

/// Copy the registers of the active frame into slots.
pub fn sync_slots_from_vm(vm: &Vm, slots: &mut Vec<i64>) -> (r: SyncSlotsResult)
    ensures
        if vm@.frames.len() == 0 {
            r is Unavailable && final(slots)@ == old(slots)@
        } else {
            let regs = vm@.frames.last().registers;
            let (s, ok) = synced(regs, old(slots)@, shorter(old(slots)@.len(), regs.len()));
            final(slots)@ == s && r == (if ok {
                SyncSlotsResult::Synced
            } else {
                SyncSlotsResult::Deopt
            })
        },
{
    let regs: &[Value] = match vm.top_registers() {
        Some(r) => r,
        None => return SyncSlotsResult::Unavailable,
    };
    let ghost s0 = slots@;
    let ghost n = shorter(s0.len(), regs@.len());
    let mut k: usize = 0;
    while k < slots.len() && k < regs.len()
        invariant
            k <= n,
            n == shorter(s0.len(), regs@.len()),
            s0 == old(slots)@,
            slots@.len() == s0.len(),
            synced(regs@, s0, k as nat) == (slots@, true),
            vm@.frames.len() > 0,
            regs@ == vm@.frames.last().registers,
        decreases n - k,
    {
        let v: i64 = match &regs[k] {
            Value::Int(i) => *i,
            Value::Bool(b) => if *b {
                1
            } else {
                0
            },
            Value::Unit => 0,
            _ => {
                proof {
                    lemma_odd_stays(regs@, s0, (k + 1) as nat, n);
                }
                return SyncSlotsResult::Deopt;
            },
        };
        slots[k] = v;
        k += 1;
    }
    SyncSlotsResult::Synced
}

proof fn lemma_odd_stays(regs: Seq<Value>, slots: Seq<i64>, k: nat, n: nat)
    requires
        k <= n,
        !synced(regs, slots, k).1,
    ensures
        synced(regs, slots, n) == synced(regs, slots, k),
    decreases n - k,
{
    if k < n {
        lemma_odd_stays(regs, slots, k, (n - 1) as nat);
    }
}

/// Write slots to the registers of the active frame.
pub fn sync_slots_to_vm(vm: &mut Vm, slots: &Vec<i64>) -> (r: Result<(), Fault>)
    ensures
        (final(vm)@, r) == written_to(old(vm)@, slots@),
{
    match vm.top_registers_mut() {
        None => Err(Fault::Invariant("empty frame stack while syncing slots")),
        Some(regs) => {
            overwrite(regs, slots);
            Ok(())
        },
    }
}

fn overwrite(regs: &mut Vec<Value>, slots: &Vec<i64>)
    ensures
        final(regs)@ == slots_written(old(regs)@, slots@),
{
    let ghost r0 = regs@;
    let mut k: usize = 0;
    while k < regs.len() && k < slots.len()
        invariant
            k <= slots@.len(),
            k <= r0.len(),
            r0 == old(regs)@,
            regs@.len() == r0.len(),
            forall|i: int| 0 <= i < k ==> regs@[i] == Value::Int(slots@[i]),
            forall|i: int| k <= i < r0.len() ==> regs@[i] == r0[i],
        decreases r0.len() - k,
    {
        regs[k] = Value::Int(slots[k]);
        k += 1;
    }
    assert(regs@ =~= slots_written(r0, slots@));
}

/// Hand the end of compiled code to the machine. A result says that the
/// machine ended too.
pub fn apply_exit_to_vm(vm: &mut Vm, slots: &Vec<i64>, exit: ExitReason) -> (r: Result<
    Option<VmResult>,
    Fault,
>)
    ensures
        final(vm)@ == exit_applied(old(vm)@, slots@, exit).0,
        match exit_applied(old(vm)@, slots@, exit).1 {
            Ok(None) => r == Ok::<Option<VmResult>, Fault>(None),
            Ok(Some(e)) => r matches Ok(Some(x)) && x@ == e,
            Err(f) => r == Err::<Option<VmResult>, Fault>(f),
        },
{
    match exit {
        ExitReason::Return { return_reg } => {
            let v: i64 = if (return_reg as usize) < slots.len() {
                slots[return_reg as usize]
            } else {
                0
            };
            match vm.set_register(return_reg, Value::Int(v)) {
                Ok(_) => {},
                Err(f) => return Err(f),
            }
            let pc: usize = match vm.current_pc() {
                Some(p) => p,
                None => return Err(Fault::Invariant("empty frame stack while running")),
            };
            vm.set_pc(pc.saturating_add(1));
            vm.return_value(Value::Int(v))
        },
        ExitReason::Trap { pc } => {
            vm.set_pc(pc as usize);
            Ok(Some(VmResult::Trap(Fault::DivideByZero)))
        },
        ExitReason::Budget { pc } | ExitReason::Continue { pc } | ExitReason::Effect { pc } => {
            vm.set_pc(pc as usize);
            match sync_slots_to_vm(vm, slots) {
                Ok(_) => Ok(None),
                Err(f) => Err(f),
            }
        },
        ExitReason::Deopt { pc } => {
            vm.set_pc(pc as usize);
            Ok(None)
        },
    }
}

/// Where compiled code starts.
pub open spec fn started(slots: Seq<i64>, budget: u32, function: u32, registers: u32) -> Mach {
    Mach { mem: slots, budget, function, registers, stack: Seq::empty() }
}

/// What compiled code leaves in the slots, and how it ended.
pub open spec fn code_result(
    code: TraceCode,
    slots: Seq<i64>,
    budget: u32,
    function: u32,
    registers: u32,
) -> (Seq<i64>, JitReturn) {
    let (m, x) = code_run(
        code_states(code.blocks@),
        0,
        started(slots, budget, function, registers),
    );
    (m.mem, x)
}

/// Run compiled code on slots.
pub fn run_compiled_trace(
    entry: JitEntry,
    slots: &mut Vec<i64>,
    budget: u32,
    function: u32,
    register_count: u32,
) -> (r: JitReturn)
    ensures
        (final(slots)@, r) == code_result(*entry, old(slots)@, budget, function, register_count),
{
    let mut mem: Vec<i64> = Vec::new();
    std::mem::swap(&mut mem, slots);
    let mut frame = JitFrame {
        slots: mem,
        budget,
        function,
        register_count,
        call_stack: Vec::new(),
    };
    assert(frame@ =~= started(old(slots)@, budget, function, register_count));
    let ret = frame.run(&entry, 0);
    let JitFrame { slots: mem, .. } = frame;
    *slots = mem;
    ret
}

/// Run a compiled trace on slots.
pub fn run_compiled_trace_ref(
    trace: &CompiledTrace,
    slots: &mut Vec<i64>,
    budget: u32,
    function: u32,
    register_count: u32,
) -> (r: JitReturn)
    ensures
        (final(slots)@, r) == code_result(
            *trace.entry,
            old(slots)@,
            budget,
            function,
            register_count,
        ),
{
    run_compiled_trace(trace.entry.clone(), slots, budget, function, register_count)
}

/// Model of compiled traces, counters and metrics.
#[verifier::ext_equal]
pub ghost struct JitState {
    pub cache: Map<TraceKey, CompiledTrace>,
    pub hot: Map<TraceKey, u32>,
    pub metrics: JitMetrics,
}

/// Every compiled trace belongs to the image.
pub open spec fn cache_sound(cache: Map<TraceKey, CompiledTrace>, chunk: Chunk) -> bool {
    forall|k: TraceKey| #[trigger] cache.contains_key(k) ==> is_trace_of(cache[k], chunk, k)
}

/// One more execution.
pub open spec fn executed(m: JitMetrics) -> JitMetrics {
    JitMetrics { jit_executions: m.jit_executions.wrapping_add(1), ..m }
}

/// The compiled code of the place ran.
pub open spec fn ran(
    cache: Map<TraceKey, CompiledTrace>,
    key: TraceKey,
    slots: Seq<i64>,
    budget: u32,
    registers: u8,
) -> (Seq<i64>, Option<ExitReason>) {
    let (s, x) = code_result(*cache[key].entry, slots, budget, key.function, registers as u32);
    (s, Some(reason_of(x)))
}

/// A place was reached: compiled code for it runs. A place without compiled
/// code is counted, and compiled once it ran often enough.
pub open spec fn place_reached(
    chunk: Chunk,
    threshold: u32,
    j: JitState,
    key: TraceKey,
    slots: Seq<i64>,
    budget: u32,
    registers: u8,
    k: JitState,
    after: Seq<i64>,
    exit: Option<ExitReason>,
) -> bool {
    if j.cache.contains_key(key) {
        &&& k == (JitState { metrics: executed(j.metrics), ..j })
        &&& (after, exit) == ran(j.cache, key, slots, budget, registers)
    } else {
        let n = one_more(j.hot, key);
        let hot = j.hot.insert(key, n);
        if n < threshold {
            &&& k == (JitState {
                hot,
                metrics: JitMetrics {
                    jit_misses: j.metrics.jit_misses.wrapping_add(1),
                    ..j.metrics
                },
                ..j
            })
            &&& after == slots
            &&& exit is None
        } else if !can_compile(chunk, key) {
            &&& k == (JitState {
                hot,
                metrics: JitMetrics {
                    jit_compile_failures: j.metrics.jit_compile_failures.wrapping_add(1),
                    ..j.metrics
                },
                ..j
            })
            &&& after == slots
            &&& exit is None
        } else {
            &&& k.cache.contains_key(key)
            &&& is_trace_of(k.cache[key], chunk, key)
            &&& k == (JitState {
                cache: j.cache.insert(key, k.cache[key]),
                hot,
                metrics: executed(
                    JitMetrics {
                        jit_compiles: j.metrics.jit_compiles.wrapping_add(1),
                        ..j.metrics
                    },
                ),
            })
            &&& (after, exit) == ran(k.cache, key, slots, budget, registers)
        }
    }
}

/// What compiled code of the image does, from slots.
pub open spec fn trace_result(
    chunk: Chunk,
    key: TraceKey,
    slots: Seq<i64>,
    budget: u32,
    registers: u8,
) -> (Seq<i64>, ExitReason) {
    let def = chunk.functions@[key.function as int];
    let (m, x) = trace_run(
        trace_ctx(chunk, key, def.num_registers),
        region_of(chunk, key.entry_pc),
        0,
        started(slots, budget, key.function, registers as u32),
    );
    (m.mem, reason_of(x))
}

/// A cache that holds only code of the image goes on to do so, and what runs
/// at a place is the code of the image there.
pub proof fn cache_stays_sound(
    chunk: Chunk,
    threshold: u32,
    j: JitState,
    key: TraceKey,
    slots: Seq<i64>,
    budget: u32,
    registers: u8,
    k: JitState,
    after: Seq<i64>,
    exit: Option<ExitReason>,
)
    requires
        cache_sound(j.cache, chunk),
        place_reached(chunk, threshold, j, key, slots, budget, registers, k, after, exit),
    ensures
        cache_sound(k.cache, chunk),
        exit matches Some(x) ==> (after, x) == trace_result(chunk, key, slots, budget, registers),
        exit is None ==> after == slots,
{
    if exit is Some {
        let t = k.cache[key];
        assert(is_trace_of(t, chunk, key));
        let m = started(slots, budget, key.function, registers as u32);
        assert(code_run(code_states(t.entry.blocks@), 0, m) == code_run(
            code_states(t.entry.blocks@),
            0,
            m,
        ));
    }
}

fn reach(
    cache: &mut TraceCache,
    hot: &mut HotCounter,
    threshold: u32,
    chunk: &Chunk,
    key: TraceKey,
    slots: &mut Vec<i64>,
    budget: u32,
    register_count: u8,
    metrics: &mut JitMetrics,
) -> (r: Option<ExitReason>)
    ensures
        place_reached(
            *chunk,
            threshold,
            JitState { cache: old(cache)@, hot: old(hot)@, metrics: *old(metrics) },
            key,
            old(slots)@,
            budget,
            register_count,
            JitState { cache: final(cache)@, hot: final(hot)@, metrics: *final(metrics) },
            final(slots)@,
            r,
        ),
{
    if cache.get(&key).is_none() {
        if !hot.hit(key, threshold) {
            metrics.jit_misses = metrics.jit_misses.wrapping_add(1);
            return None;
        }
        let mut compiler = TraceCompiler::new();
        match compiler.compile_trace(chunk, key) {
            Ok(t) => {
                cache.insert(key, t);
                metrics.jit_compiles = metrics.jit_compiles.wrapping_add(1);
            },
            Err(_) => {
                metrics.jit_compile_failures = metrics.jit_compile_failures.wrapping_add(1);
                return None;
            },
        }
    }
    match cache.get(&key) {
        None => None,
        Some(t) => {
            metrics.jit_executions = metrics.jit_executions.wrapping_add(1);
            let ret = run_compiled_trace_ref(t, slots, budget, key.function, register_count as u32);
            Some(ret.into_reason())
        },
    }
}

/// Run the compiled code of a place. None if there is none: the interpreter
/// goes on.
pub fn try_run_hot(
    ctx: &mut JitContext,
    chunk: &Chunk,
    key: TraceKey,
    slots: &mut Vec<i64>,
    budget: u32,
    register_count: u8,
    metrics: &mut JitMetrics,
) -> (r: Option<ExitReason>)
    ensures
        final(ctx).chunk == old(ctx).chunk,
        final(ctx).hot_threshold == old(ctx).hot_threshold,
        place_reached(
            *chunk,
            old(ctx).hot_threshold,
            JitState { cache: old(ctx).cache@, hot: old(ctx).hot@, metrics: *old(metrics) },
            key,
            old(slots)@,
            budget,
            register_count,
            JitState { cache: final(ctx).cache@, hot: final(ctx).hot@, metrics: *final(metrics) },
            final(slots)@,
            r,
        ),
{
    reach(
        &mut ctx.cache,
        &mut ctx.hot,
        ctx.hot_threshold,
        chunk,
        key,
        slots,
        budget,
        register_count,
        metrics,
    )
}

/// Run the compiled code of a place out of the shared cache. None if there is
/// none: the interpreter goes on.
pub fn try_run_hot_runtime(
    runtime: &mut JitRuntime,
    chunk: &Chunk,
    key: TraceKey,
    slots: &mut Vec<i64>,
    budget: u32,
    register_count: u8,
    metrics: &mut JitMetrics,
) -> (r: Option<ExitReason>)
    ensures
        final(runtime).image() == old(runtime).image(),
        final(runtime).hot_threshold == old(runtime).hot_threshold,
        place_reached(
            *chunk,
            old(runtime).hot_threshold,
            JitState {
                cache: old(runtime).traces(),
                hot: old(runtime).counters(),
                metrics: *old(metrics),
            },
            key,
            old(slots)@,
            budget,
            register_count,
            JitState {
                cache: final(runtime).traces(),
                hot: final(runtime).counters(),
                metrics: *final(metrics),
            },
            final(slots)@,
            r,
        ),
{
    reach(
        &mut runtime.cache,
        &mut runtime.hot,
        runtime.hot_threshold,
        chunk,
        key,
        slots,
        budget,
        register_count,
        metrics,
    )
}

/// Compile a place at once.
pub fn force_compile(ctx: &mut JitContext, chunk: &Chunk, key: TraceKey) -> (r: Result<
    (),
    CompileError,
>)
    ensures
        final(ctx).chunk == old(ctx).chunk,
        final(ctx).hot_threshold == old(ctx).hot_threshold,
        final(ctx).hot@ == old(ctx).hot@,
        if old(ctx).cache@.contains_key(key) {
            r is Ok && final(ctx).cache@ == old(ctx).cache@
        } else {
            match r {
                Ok(_) => {
                    &&& final(ctx).cache@.contains_key(key)
                    &&& final(ctx).cache@ == old(ctx).cache@.insert(key, final(ctx).cache@[key])
                    &&& compile_result(*chunk, key, Ok(final(ctx).cache@[key]))
                },
                Err(e) => final(ctx).cache@ == old(ctx).cache@ && compile_result(
                    *chunk,
                    key,
                    Err(e),
                ),
            }
        },
{
    if ctx.cache.get(&key).is_none() {
        let mut compiler = TraceCompiler::new();
        match compiler.compile_trace(chunk, key) {
            Ok(t) => ctx.cache.insert(key, t),
            Err(e) => return Err(e),
        }
    }
    Ok(())
}

/// How many times a place must run before it is compiled.
pub fn hot_threshold() -> (r: u32)
    ensures
        r == HOT_THRESHOLD,
{
    HOT_THRESHOLD
}

/// Most registers of the first `n` functions, at least `low`.
pub open spec fn most_registers(functions: Seq<FunctionDef>, n: nat, low: nat) -> nat
    decreases n,
{
    if n == 0 {
        low
    } else {
        let m = most_registers(functions, (n - 1) as nat, low);
        if functions[n - 1].num_registers > m {
            functions[n - 1].num_registers as nat
        } else {
            m
        }
    }
}

/// How many slots compiled code needs for a machine.
pub open spec fn slots_needed(s: VmState) -> nat {
    most_registers(
        s.chunk.functions@,
        s.chunk.functions@.len(),
        if s.frames.len() > 0 {
            s.frames.last().registers.len() as u8 as nat
        } else {
            0
        },
    )
}

fn slot_capacity(vm: &Vm) -> (r: usize)
    ensures
        r == slots_needed(vm@),
        r <= 255,
{
    let chunk = vm.chunk_arc();
    let low: usize = match vm.current_num_registers() {
        Some(n) => n as usize,
        None => 0,
    };
    let mut best: usize = low;
    let mut k: usize = 0;
    while k < chunk.functions.len()
        invariant
            k <= chunk.functions@.len(),
            best <= 255,
            best == most_registers(chunk.functions@, k as nat, low as nat),
        decreases chunk.functions@.len() - k,
    {
        let n: usize = chunk.functions[k].num_registers as usize;
        if n > best {
            best = n;
        }
        k += 1;
    }
    best
}

/// Slots that hold zero.
pub open spec fn zeros(n: nat) -> Seq<i64> {
    Seq::new(n, |i: int| 0)
}

fn zero_slots(n: usize) -> (r: Vec<i64>)
    ensures
        r@ == zeros(n as nat),
{
    let mut v: Vec<i64> = Vec::new();
    let mut k: usize = 0;
    while k < n
        invariant
            k <= n,
            v@ == zeros(k as nat),
        decreases n - k,
    {
        v.push(0);
        k += 1;
        assert(v@ =~= zeros(k as nat));
    }
    v
}

/// Compiled code was tried at the place where the machine is.
pub open spec fn tried(
    threshold: u32,
    s: VmState,
    j: JitState,
    budget: u32,
    t: VmState,
    k: JitState,
    o: Option<Effect>,
) -> bool {
    if s.frames.len() == 0 {
        t == s && k == j && o is None
    } else {
        let f = s.frames.last();
        let n = slots_needed(s);
        let (slots, ok) = synced(f.registers, zeros(n), shorter(n, f.registers.len()));
        if !ok {
            &&& t == s
            &&& o is None
            &&& k == (JitState {
                metrics: JitMetrics {
                    jit_deopts: j.metrics.jit_deopts.wrapping_add(1),
                    ..j.metrics
                },
                ..j
            })
        } else {
            exists|after: Seq<i64>, exit: Option<ExitReason>| #[trigger]
                place_reached(
                    s.chunk,
                    threshold,
                    j,
                    TraceKey { function: f.function, entry_pc: f.pc as u32 },
                    slots,
                    budget,
                    f.registers.len() as u8,
                    k,
                    after,
                    exit,
                ) && handed_over(s, after, exit, t, o)
        }
    }
}

/// The end of compiled code was handed to the machine.
pub open spec fn handed_over(
    s: VmState,
    slots: Seq<i64>,
    exit: Option<ExitReason>,
    t: VmState,
    o: Option<Effect>,
) -> bool {
    match exit {
        None => t == s && o is None,
        Some(x) => {
            let (u, r) = exit_applied(s, slots, x);
            &&& t == u
            &&& o == (match r {
                Ok(e) => e,
                Err(f) => Some(Effect::Trap(f)),
            })
        },
    }
}

/// One try at compiled code. Code for another image does not apply: `same`
/// says that the machine runs the image of the code.
pub open spec fn jit_step(
    same: bool,
    threshold: u32,
    s: VmState,
    j: JitState,
    budget: u32,
    t: VmState,
    k: JitState,
    o: Option<Effect>,
) -> bool {
    if same {
        tried(threshold, s, j, budget, t, k, o)
    } else {
        t == s && k == j && o is None
    }
}

/// At most `budget` rounds: each tries compiled code, and the interpreter
/// performs one instruction where the machine did not end.
pub open spec fn jit_run(
    same: bool,
    threshold: u32,
    s: VmState,
    j: JitState,
    budget: u32,
    t: VmState,
    k: JitState,
    e: Effect,
) -> bool
    decreases budget,
{
    if budget == 0 {
        t == s && k == j && e is Yield
    } else {
        exists|u: VmState, l: JitState, o: Option<Effect>| #[trigger]
            jit_step(same, threshold, s, j, budget, u, l, o) && match o {
                Some(x) => t == u && k == l && e == x,
                None => {
                    let (v, x) = slice(u, 1);
                    if x is Yield {
                        jit_run(same, threshold, v, l, (budget - 1) as u32, t, k, e)
                    } else {
                        t == v && k == l && e == x
                    }
                },
            }
    }
}

/// Try compiled code at the place where the machine is. `same` says that the
/// machine runs the image of the code.
pub fn try_step(
    vm: &mut Vm,
    same: bool,
    cache: &mut TraceCache,
    hot: &mut HotCounter,
    threshold: u32,
    budget: u32,
    metrics: &mut JitMetrics,
) -> (r: Option<VmResult>)
    ensures
        !same ==> final(vm)@ == old(vm)@ && final(cache)@ == old(cache)@ && final(hot)@ == old(
            hot,
        )@ && *final(metrics) == *old(metrics) && r is None,
        same ==> tried(
            threshold,
            old(vm)@,
            JitState { cache: old(cache)@, hot: old(hot)@, metrics: *old(metrics) },
            budget,
            final(vm)@,
            JitState { cache: final(cache)@, hot: final(hot)@, metrics: *final(metrics) },
            result_view(r),
        ),
{
    if !same {
        return None;
    }
    let pc: usize = match vm.current_pc() {
        Some(p) => p,
        None => return None,
    };
    let function: u32 = vm.current_function();
    let register_count: u8 = match vm.current_num_registers() {
        Some(n) => n,
        None => return None,
    };
    let mut slots = zero_slots(slot_capacity(vm));
    match sync_slots_from_vm(vm, &mut slots) {
        SyncSlotsResult::Synced => {},
        SyncSlotsResult::Deopt => {
            metrics.jit_deopts = metrics.jit_deopts.wrapping_add(1);
            return None;
        },
        SyncSlotsResult::Unavailable => return None,
    }
    let key = TraceKey { function, entry_pc: pc as u32 };
    let chunk = vm.chunk_arc();
    let exit = reach(
        cache,
        hot,
        threshold,
        &chunk,
        key,
        &mut slots,
        budget,
        register_count,
        metrics,
    );
    let ghost s = vm@;
    assert(handed_over(s, slots@, exit, exit_or(s, slots@, exit).0, exit_or(s, slots@, exit).1));
    match exit {
        None => None,
        Some(x) => match apply_exit_to_vm(vm, &slots, x) {
            Ok(r) => r,
            Err(f) => Some(VmResult::Trap(f)),
        },
    }
}

spec fn exit_or(s: VmState, slots: Seq<i64>, exit: Option<ExitReason>) -> (
    VmState,
    Option<Effect>,
) {
    match exit {
        None => (s, None),
        Some(x) => match exit_applied(s, slots, x) {
            (t, Ok(e)) => (t, e),
            (t, Err(f)) => (t, Some(Effect::Trap(f))),
        },
    }
}

/// Run at most `budget` rounds of compiled code and interpreter. `same` says
/// that the machine runs the image of the code.
pub fn run_rounds(
    vm: &mut Vm,
    same: bool,
    budget: u32,
    cache: &mut TraceCache,
    hot: &mut HotCounter,
    threshold: u32,
    metrics: &mut JitMetrics,
) -> (r: VmResult)
    ensures
        jit_run(
            same,
            threshold,
            old(vm)@,
            JitState { cache: old(cache)@, hot: old(hot)@, metrics: *old(metrics) },
            budget,
            final(vm)@,
            JitState { cache: final(cache)@, hot: final(hot)@, metrics: *final(metrics) },
            r@,
        ),
{
    let ghost s0 = vm@;
    let ghost j0 = JitState { cache: cache@, hot: hot@, metrics: *metrics };
    let mut remaining: u32 = budget;
    while remaining > 0
        invariant
            remaining <= budget,
            s0 == old(vm)@,
            j0 == (JitState { cache: old(cache)@, hot: old(hot)@, metrics: *old(metrics) }),
            forall|t: VmState, k: JitState, e: Effect| #[trigger]
                jit_run(
                    same,
                    threshold,
                    vm@,
                    JitState { cache: cache@, hot: hot@, metrics: *metrics },
                    remaining,
                    t,
                    k,
                    e,
                ) ==> jit_run(same, threshold, s0, j0, budget, t, k, e),
        decreases remaining,
    {
        let ghost s = vm@;
        let ghost j = JitState { cache: cache@, hot: hot@, metrics: *metrics };
        let o = try_step(vm, same, cache, hot, threshold, remaining, metrics);
        let ghost u = vm@;
        let ghost l = JitState { cache: cache@, hot: hot@, metrics: *metrics };
        assert(jit_step(same, threshold, s, j, remaining, u, l, result_view(o)));
        match o {
            Some(x) => {
                assert(jit_run(same, threshold, s, j, remaining, u, l, x@));
                return x;
            },
            None => {},
        }
        match vm.run(1) {
            VmResult::Yield => {
                assert forall|t: VmState, k: JitState, e: Effect| #[trigger]
                    jit_run(
                        same,
                        threshold,
                        vm@,
                        JitState { cache: cache@, hot: hot@, metrics: *metrics },
                        (remaining - 1) as u32,
                        t,
                        k,
                        e,
                    ) implies jit_run(same, threshold, s0, j0, budget, t, k, e) by {
                    assert(jit_run(same, threshold, s, j, remaining, t, k, e));
                }
                remaining = remaining - 1;
            },
            other => {
                assert(jit_run(same, threshold, s, j, remaining, vm@, l, other@));
                return other;
            },
        }
    }
    proof {
        let j = JitState { cache: cache@, hot: hot@, metrics: *metrics };
        assert(jit_run(same, threshold, vm@, j, 0, vm@, j, Effect::Yield));
    }
    VmResult::Yield
}

/// Run at most `budget` rounds of compiled code and interpreter. Whether the
/// machine shares the image of the code is asked once, and the answer holds
/// for the whole run.
pub fn run_vm_with_jit(vm: &mut Vm, budget: u32, ctx: &mut JitContext) -> (r: VmResult)
    ensures
        final(ctx).chunk == old(ctx).chunk,
        final(ctx).hot_threshold == old(ctx).hot_threshold,
        exists|same: bool, m: JitMetrics, n: JitMetrics|
            (same ==> old(vm)@.chunk == *old(ctx).chunk) && #[trigger] jit_run(
                same,
                old(ctx).hot_threshold,
                old(vm)@,
                JitState { cache: old(ctx).cache@, hot: old(ctx).hot@, metrics: m },
                budget,
                final(vm)@,
                JitState { cache: final(ctx).cache@, hot: final(ctx).hot@, metrics: n },
                r@,
            ),
{
    let mut metrics = JitMetrics::new();
    let ghost m = metrics;
    let same: bool = same_image(&ctx.chunk, &vm.chunk_arc());
    let r = run_rounds(
        vm,
        same,
        budget,
        &mut ctx.cache,
        &mut ctx.hot,
        ctx.hot_threshold,
        &mut metrics,
    );
    assert(jit_run(
        same,
        ctx.hot_threshold,
        old(vm)@,
        JitState { cache: old(ctx).cache@, hot: old(ctx).hot@, metrics: m },
        budget,
        vm@,
        JitState { cache: ctx.cache@, hot: ctx.hot@, metrics },
        r@,
    ));
    r
}

/// Run at most `budget` rounds of shared compiled code and interpreter.
pub fn run_vm_with_jit_runtime(
    vm: &mut Vm,
    budget: u32,
    runtime: &mut JitRuntime,
    metrics: &mut JitMetrics,
) -> (r: VmResult)
    ensures
        final(runtime).image() == old(runtime).image(),
        final(runtime).hot_threshold == old(runtime).hot_threshold,
        exists|same: bool|
            (same ==> old(vm)@.chunk == old(runtime).image()) && #[trigger] jit_run(
                same,
                old(runtime).hot_threshold,
                old(vm)@,
                JitState {
                    cache: old(runtime).traces(),
                    hot: old(runtime).counters(),
                    metrics: *old(metrics),
                },
                budget,
                final(vm)@,
                JitState {
                    cache: final(runtime).traces(),
                    hot: final(runtime).counters(),
                    metrics: *final(metrics),
                },
                r@,
            ),
{
    let same: bool = same_image(&runtime.chunk, &vm.chunk_arc());
    run_rounds(
        vm,
        same,
        budget,
        &mut runtime.cache,
        &mut runtime.hot,
        runtime.hot_threshold,
        metrics,
    )
}

} // verus!
