//! Compiled code for the flows of a runtime.

use std::sync::Arc;

use vstd::prelude::*;

use crate::bytecode::chunk::Chunk;
use crate::jit::dispatch::{jit_run, run_vm_with_jit_runtime, JitMetrics, JitState};
use crate::jit::runtime::JitRuntime;
use crate::jit::trace::{CompiledTrace, TraceKey};
use crate::scheduler::process::{Flow, FlowState};
use crate::vm::result::VmResult;

verus! {

/// Run one slice of a flow with the shared compiled code.
#[verifier::rlimit(40)]
pub fn run_flow_quantum(
    flow: &mut Flow,
    jit: &mut JitRuntime,
    metrics: &mut JitMetrics,
    budget: u32,
) -> (r: VmResult)
    ensures
        final(flow)@ == (FlowState { vm: final(flow)@.vm, ..old(flow)@ }),
        final(jit).image() == old(jit).image(),
        final(jit).hot_threshold == old(jit).hot_threshold,
        exists|same: bool|
            (same ==> old(flow)@.vm.chunk == old(jit).image()) && #[trigger] jit_run(
                same,
                old(jit).hot_threshold,
                old(flow)@.vm,
                JitState {
                    cache: old(jit).traces(),
                    hot: old(jit).counters(),
                    metrics: *old(metrics),
                },
                budget,
                final(flow)@.vm,
                JitState {
                    cache: final(jit).traces(),
                    hot: final(jit).counters(),
                    metrics: *final(metrics),
                },
                r@,
            ),
{
    let ghost f = flow@;
    let ghost image = jit.image();
    let ghost threshold = jit.hot_threshold;
    let ghost j = JitState { cache: jit.traces(), hot: jit.counters(), metrics: *metrics };
    let r = run_vm_with_jit_runtime(&mut flow.vm, budget, jit, metrics);
    let ghost vm = flow@.vm;
    let ghost k = JitState { cache: jit.traces(), hot: jit.counters(), metrics: *metrics };
    assert(flow@ == (FlowState { vm, ..f }));
    let ghost same = choose|same: bool|
        (same ==> f.vm.chunk == image) && #[trigger] jit_run(
            same,
            threshold,
            f.vm,
            j,
            budget,
            vm,
            k,
            r@,
        );
    assert(jit_run(same, threshold, f.vm, j, budget, vm, k, r@));
    r
}

/// Shared compiled code for an image, with nothing compiled yet.
pub fn new_runtime(chunk: Arc<Chunk>, hot_threshold: u32) -> (r: JitRuntime)
    ensures
        r.image() == *chunk,
        r.hot_threshold == hot_threshold,
        r.traces() == Map::<TraceKey, CompiledTrace>::empty(),
        r.counters() == Map::<TraceKey, u32>::empty(),
{
    JitRuntime::new(chunk, hot_threshold)
}

} // verus!
