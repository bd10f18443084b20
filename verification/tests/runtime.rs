use std::sync::Arc;

use byteflow::bytecode::builder::ChunkBuilder;
use byteflow::bytecode::cap::CapId;
use byteflow::bytecode::chunk::Chunk;
use byteflow::bytecode::opcode::Opcode;
use byteflow::bytecode::program::Program;
use byteflow::bytecode::restart::RestartPolicy;
use byteflow::bytecode::value::{Message, Value};
use byteflow::bytecode::verify::verify;
use byteflow::jit::dispatch::JitMetrics;
use byteflow::natives::{clock_value, std_native_table};
use byteflow::scheduler::drive::{Driven, HostAwaitCompleter, SendError};
use byteflow::scheduler::error::SpawnError;
use byteflow::scheduler::failure::Failure;
use byteflow::scheduler::host_await::{HostAwaitError, HostAwaitIndex, HostAwaitParkError};
use byteflow::scheduler::jit::new_runtime;
use byteflow::scheduler::mailbox::config::MailboxConfig;
use byteflow::scheduler::monitor::FlowExitReason;
use byteflow::scheduler::process::{Flow, FlowId, FlowOutcome};
use byteflow::scheduler::quota::{QuotaConfig, TopUp};
use byteflow::scheduler::runtime::SpawnRequest;
use byteflow::scheduler::shared::{RuntimeConfig, Shared};
use byteflow::scheduler::supervisor::{
    should_restart, ChildSpec, RestartStrategy, Supervisor, SupervisorConfig,
};
use byteflow::vm::fault::Fault;
use byteflow::vm::native::NativeTable;

/// A runtime on one thread, with a clock that only moves when nothing runs.
struct Host {
    shared: Shared,
    chunk: Arc<Chunk>,
    natives: Arc<NativeTable>,
    sup: Option<Supervisor>,
    now: u64,
    printed: Vec<String>,
}

fn config() -> RuntimeConfig {
    RuntimeConfig {
        workers: 1,
        quantum: 1_000,
        mailbox: MailboxConfig::default(),
        quota: QuotaConfig::permissive(),
        max_flows: 0,
        max_links: 0,
        max_registry_names: 0,
        max_ask_waits: 0,
        max_host_awaits: 0,
        max_runtime_bytes: 1 << 30,
        host_await: false,
    }
}

impl Host {
    fn new(chunk: Chunk) -> Self {
        Host::with(chunk, config())
    }

    fn with(chunk: Chunk, config: RuntimeConfig) -> Self {
        Host {
            shared: Shared::new(config),
            chunk: Arc::new(chunk),
            natives: std_native_table(),
            sup: None,
            now: 0,
            printed: Vec::new(),
        }
    }

    fn supervise(&mut self, config: SupervisorConfig) {
        self.sup =
            Some(Supervisor::with_config(1, self.chunk.clone(), self.natives.clone(), config));
    }

    fn spawn(&mut self, function: u32) -> FlowId {
        let req = SpawnRequest {
            chunk: self.chunk.clone(),
            natives: self.natives.clone(),
            function,
            restart_policy: RestartPolicy::Never,
            supervisor: None,
        };
        self.shared.spawn(&req, &[], self.now).unwrap()
    }

    fn start_child(&mut self, spec: ChildSpec) -> Result<FlowId, SpawnError> {
        self.sup.as_mut().unwrap().start_child(&mut self.shared, spec, self.now)
    }

    fn call(&mut self, native: u32, args: &[Value]) -> Value {
        match native {
            0 => {
                let line: Vec<String> = args.iter().map(|v| v.text("1.5")).collect();
                self.printed.push(line.join(" "));
                Value::Unit
            }
            _ => clock_value(self.now as u128).unwrap(),
        }
    }

    /// Whether something ran.
    fn step(&mut self) -> bool {
        if let Some(id) = self.shared.take_work(0) {
            let mut flow: Option<Flow> = self.shared.start(id);
            while let Some(f) = flow {
                flow = match self.shared.run_slice(f, 0, self.now) {
                    Driven::Running(f) => Some(f),
                    Driven::Stopped => None,
                    Driven::CallHost { flow, dest_reg, native, args } => {
                        let v = self.call(native, &args);
                        self.shared.resume_or_fail(flow, dest_reg, v)
                    }
                    Driven::FloatOp { flow, op, dest_reg, lhs, rhs } => {
                        let v = float_op(op, &lhs, &rhs);
                        self.shared.resume_or_fail(flow, dest_reg, v)
                    }
                };
            }
            return true;
        }
        if !self.shared.exits.is_empty() {
            let exit = self.shared.exits.remove(0);
            if let Some(sup) = self.sup.as_mut() {
                sup.handle_exit(&mut self.shared, exit, self.now);
            }
            return true;
        }
        self.shared.fire_due(self.now)
    }

    /// Run until nothing can run at this time.
    fn settle(&mut self) {
        for _ in 0..100_000 {
            if !self.step() {
                return;
            }
        }
        panic!("the runtime does not settle");
    }

    /// Run until nothing will ever run.
    fn run(&mut self) {
        for _ in 0..1_000 {
            self.settle();
            match self.shared.timer.next_wait(self.now) {
                Some(wait) => self.now += wait,
                None => return,
            }
        }
    }

    fn outcome(&self, id: FlowId) -> Option<&FlowOutcome> {
        self.shared.done.iter().find(|(f, _)| *f == id).map(|(_, o)| o)
    }

    fn completed(&self, id: FlowId) -> &Value {
        match self.outcome(id) {
            Some(FlowOutcome::Completed(v)) => v,
            other => panic!("expected a completed flow, got {other:?}"),
        }
    }

    fn failure(&self, id: FlowId) -> String {
        match self.outcome(id) {
            Some(FlowOutcome::Failed(why)) => why.text(),
            other => panic!("expected a failed flow, got {other:?}"),
        }
    }

    fn take_request(&mut self) -> (FlowId, HostAwaitCompleter) {
        let req = self.shared.requests.remove(0);
        (req.flow, HostAwaitCompleter { ticket: req.ticket })
    }
}

fn float_op(op: Opcode, lhs: &Value, rhs: &Value) -> Value {
    let f = |v: &Value| match v {
        Value::Int(i) => *i as f64,
        Value::Float(bits) => f64::from_bits(*bits),
        _ => panic!("not a number"),
    };
    let (a, b) = (f(lhs), f(rhs));
    match op {
        Opcode::Add => Value::Float((a + b).to_bits()),
        Opcode::Sub => Value::Float((a - b).to_bits()),
        Opcode::Mul => Value::Float((a * b).to_bits()),
        Opcode::Div => Value::Float((a / b).to_bits()),
        Opcode::Lt => Value::Bool(a < b),
        _ => Value::Bool(a <= b),
    }
}

#[test]
fn a_scalar_program_completes() {
    let mut program = Program::new("demo");
    program.function("main", 0, |mut f| {
        let a = f.load_i32(41);
        let b = f.load_i32(1);
        let sum = f.add(a, b);
        f.return_(sum);
        f
    });
    let mut host = Host::new(program.build());
    let id = host.spawn(0);
    host.run();
    assert_eq!(host.completed(id), &Value::Int(42));
    assert_eq!(host.shared.metrics.processes_spawned, 1);
    assert_eq!(host.shared.metrics.processes_completed, 1);
}

#[test]
fn ping_pong_replies_two() {
    let mut program = Program::new("ping-pong");
    let pong = program.function("pong", 0, |mut f| {
        let msg = f.receive();
        let payload = f.hop_payload(msg);
        f.add_imm(payload, 1);
        f.send_reply(msg, 11, payload);
        f.exit(payload);
        f
    });
    let main = program.function("main", 0, |mut f| {
        let child = f.spawn(pong, 0);
        let payload = f.load_i32(1);
        let req = f.hop_fresh(10, payload);
        let rid = f.hop_request_id(req);
        f.send(child, req);
        let reply = f.receive_match_corr_imm(11, rid);
        let out = f.hop_payload(reply);
        f.return_(out);
        f
    });
    let mut host = Host::new(program.build());
    let id = host.spawn(main);
    host.run();
    assert_eq!(host.completed(id), &Value::Int(2));
    assert_eq!(host.shared.metrics.processes_completed, 2);
    assert!(host.shared.faults.is_empty());
}

/// A program that adds a double forever.
fn float_loop() -> Chunk {
    let mut b = ChunkBuilder::new("float-loop");
    let half = b.const_(Value::Float(0.5f64.to_bits()));
    b.begin_function("main", 0, 1);
    b.emit_load_const(0, half);
    let again = b.new_label();
    b.bind_label(again);
    b.emit_binop(Opcode::Add, 0, 0, 0);
    b.emit_jump(again);
    b.finish()
}

#[test]
fn a_loop_on_doubles_is_preempted() {
    let mut host = Host::with(float_loop(), RuntimeConfig { quantum: 10, ..config() });
    let id = host.spawn(0);
    assert_eq!(host.shared.take_work(0), Some(id));
    let mut flow = host.shared.start(id);
    let mut asked = 0;
    while let Some(f) = flow {
        flow = match host.shared.run_slice(f, 0, 0) {
            Driven::FloatOp { flow, op, dest_reg, lhs, rhs } => {
                asked += 1;
                let v = float_op(op, &lhs, &rhs);
                host.shared.resume_or_fail(flow, dest_reg, v)
            }
            Driven::Running(f) => Some(f),
            Driven::CallHost { .. } => panic!("no native is called"),
            Driven::Stopped => None,
        };
    }
    // One constant, then an addition and a jump in turn: ten instructions.
    assert_eq!(asked, 5);
    assert_eq!(host.shared.metrics.reschedules, 1);
    assert_eq!(host.shared.take_work(0), Some(id));
}

#[test]
fn revoked_natives_are_refused_from_the_next_slice_on() {
    let mut b = ChunkBuilder::new("native");
    b.begin_function("main", 0, 1);
    b.emit_load_imm(0, 50);
    b.emit_sleep(0);
    b.emit_call_native(0, 0, 1);
    b.emit_return(0);
    let chunk = b.finish();
    let mut host = Host::new(chunk.clone());
    let calm = host.spawn(0);
    host.run();
    assert!(matches!(host.outcome(calm), Some(FlowOutcome::Completed(_))));
    let mut host = Host::new(chunk);
    let id = host.spawn(0);
    host.settle();
    host.shared.caps.revoke_natives();
    host.now = 50;
    host.settle();
    assert!(host.failure(id).contains("revoked"), "{}", host.failure(id));
}

#[test]
fn a_raise_reaches_a_parked_and_a_running_flow() {
    let mut b = ChunkBuilder::new("burn");
    b.begin_function("main", 0, 1);
    b.emit_load_imm(0, 10);
    b.emit_sleep(0);
    let again = b.new_label();
    b.bind_label(again);
    b.emit_jump(again);
    let quota = QuotaConfig { cpu_budget: 100, ..QuotaConfig::permissive() };
    let mut host = Host::with(b.finish(), RuntimeConfig { quantum: 10, quota, ..config() });
    let id = host.spawn(0);
    host.settle();
    assert!(host.shared.top_up(id, TopUp::Cpu(1_000)));
    host.now = 10;
    for _ in 0..20 {
        host.step();
    }
    assert!(host.outcome(id).is_none());
    assert_eq!(host.shared.take_work(0), Some(id));
    let mut flow = host.shared.start(id).unwrap();
    let before = flow.quota.remaining_cpu();
    assert!(host.shared.top_up(id, TopUp::Cpu(500)));
    flow = match host.shared.run_slice(flow, 0, 10) {
        Driven::Stopped => host.shared.start(id).unwrap(),
        _ => panic!("the slice is used up"),
    };
    assert_eq!(flow.quota.remaining_cpu(), before + 500 - 10);
    assert!(!host.shared.top_up(FlowId { raw: 999 }, TopUp::Cpu(1)));
}

#[test]
fn a_watcher_that_fails_at_the_news_goes_out_first() {
    let mut program = Program::new("watch");
    let late = program.function("late", 0, |mut f| {
        let ms = f.load_i32(100);
        f.sleep(ms);
        f.return_(ms);
        f
    });
    let main = program.function("main", 0, |mut f| {
        let child = f.spawn(late, 0);
        f.monitor(child);
        let msg = f.receive();
        f.return_(msg);
        f
    });
    let mut host = Host::new(program.build());
    let watcher = host.spawn(main);
    host.settle();
    // It waits in no register any more: the message cannot be delivered.
    let mut flow = host.shared.take_flow(watcher).unwrap();
    flow.last_receive_dest = None;
    host.shared.keep_flow(watcher, flow);
    host.now = 100;
    host.settle();
    let order: Vec<FlowId> = host.shared.done.iter().map(|(id, _)| *id).collect();
    assert_eq!(order.len(), 2);
    assert_eq!(order[0], watcher);
    assert_eq!(host.failure(watcher), "handoff missing dest register");
    assert_eq!(host.completed(order[1]), &Value::Int(100));
    assert_eq!(host.shared.metrics.processes_failed, 1);
    assert_eq!(host.shared.metrics.processes_completed, 1);
}

#[test]
fn outcomes_are_compared_by_value_and_by_message() {
    let mut host = Host::new(trap_chunk());
    let (a, b) = (host.spawn(0), host.spawn(0));
    host.run();
    assert!(host.outcome(a).unwrap() == host.outcome(b).unwrap());
    let done = FlowOutcome::Completed(Value::Int(1));
    assert!(done == FlowOutcome::Completed(Value::Int(1)));
    assert!(done != FlowOutcome::Completed(Value::Int(2)));
    assert!(&done != host.outcome(a).unwrap());
}

#[test]
fn a_sleeper_wakes_when_its_time_has_come() {
    let mut program = Program::new("slow");
    program.function("main", 0, |mut f| {
        let ms = f.load_i32(300);
        f.sleep(ms);
        let out = f.load_i32(7);
        f.return_(out);
        f
    });
    let mut host = Host::new(program.build());
    let id = host.spawn(0);
    host.settle();
    assert!(host.outcome(id).is_none());
    host.now = 299;
    host.settle();
    assert!(host.outcome(id).is_none());
    host.now = 300;
    host.settle();
    assert_eq!(host.completed(id), &Value::Int(7));
}

#[test]
fn std_native_chunk_runs() {
    let mut program = Program::new("std-natives-demo");
    program.function("main", 0, |mut f| {
        let n = f.load_i32(42);
        f.native1_on(n, 0);
        let ms = f.call_native0(1);
        f.return_(ms);
        f
    });
    let chunk = program.build();
    verify(&chunk).unwrap();
    let mut host = Host::new(chunk);
    host.now = 1234;
    let id = host.spawn(0);
    host.run();
    assert!(matches!(host.completed(id), Value::Int(ms) if *ms >= 0));
    assert_eq!(host.printed, vec!["42"]);
}

fn print_chunk(values: &[Value]) -> Chunk {
    let mut b = ChunkBuilder::new("print");
    b.begin_function("main", 0, 9);
    for (i, v) in values.iter().enumerate() {
        let k = b.const_(v.clone());
        b.emit_load_const(i as u8, k);
    }
    b.emit_call_native(0, 0, values.len() as u8);
    b.emit_return(0);
    b.finish()
}

#[test]
fn print_accepts_all_current_values() {
    let values = [
        Value::Unit,
        Value::Bool(true),
        Value::Int(42),
        Value::Float(1.5f64.to_bits()),
        Value::Pid(7),
        Value::Message(Message::new(1, 2, 3, Value::Int(4))),
        Value::Cap(CapId::from_raw(9)),
        Value::str("hello"),
        Value::bytes(vec![1u8, 2, 3]),
    ];
    let mut host = Host::new(print_chunk(&values));
    let id = host.spawn(0);
    host.run();
    assert_eq!(host.completed(id), &Value::Unit);
    assert_eq!(host.printed.len(), 1);
    assert!(host.printed[0].starts_with("() true 42 1.5 flow#7 "));
}

#[test]
fn print_with_no_args_still_returns_unit() {
    let mut host = Host::new(print_chunk(&[]));
    let id = host.spawn(0);
    host.run();
    assert_eq!(host.completed(id), &Value::Unit);
}

#[test]
fn doubles_are_computed_by_the_host() {
    let mut b = ChunkBuilder::new("float");
    let k = b.const_(Value::Float(2.5f64.to_bits()));
    b.begin_function("main", 0, 2);
    b.emit_load_const(0, k);
    b.emit_load_imm(1, 2);
    b.emit_binop(Opcode::Mul, 0, 0, 1);
    b.emit_return(0);
    let mut host = Host::new(b.finish());
    let id = host.spawn(0);
    host.run();
    assert_eq!(host.completed(id), &Value::Float(5.0f64.to_bits()));
}

#[test]
fn a_trap_fails_only_its_flow() {
    let mut host = Host::new(wait_and_trap_chunk());
    let waiting = host.spawn(0);
    let boom = host.spawn(1);
    host.settle();
    assert!(host.outcome(waiting).is_none());
    assert!(matches!(
        host.outcome(boom),
        Some(FlowOutcome::Failed(why)) if matches!(**why, Failure::Trap(Fault::Explicit(1)))
    ));
}

#[test]
fn the_host_sends_messages_only() {
    let mut host = Host::new(wait_and_trap_chunk());
    let id = host.spawn(0);
    host.settle();
    assert!(matches!(host.shared.send(id, Value::Int(1)), Err(SendError::NotAHop)));
    let gone = FlowId { raw: 999 };
    let hop = Value::Message(Message::request(1, 2, Value::Int(3)));
    assert!(matches!(host.shared.send(gone, hop.clone()), Err(SendError::NoSuchFlow(_))));
    assert!(host.shared.send(id, hop).is_ok());
    host.settle();
    match host.completed(id) {
        Value::Message(m) => {
            assert_eq!(m.sender, 0);
            assert!(m.reply_cap.is_none());
            assert_eq!(m.payload.as_ref(), &Value::Int(3));
        }
        other => panic!("{other:?}"),
    }
}

#[test]
fn a_claimed_sender_is_overwritten() {
    let mut program = Program::new("forged");
    let sink = program.function("sink", 0, |mut f| {
        let msg = f.receive();
        let sender = f.hop_sender(msg);
        f.return_(sender);
        f
    });
    let main = program.function("main", 0, |mut f| {
        let child = f.spawn(sink, 0);
        let claimed = f.load_i32(12345);
        let rid = f.load_i32(1);
        let payload = f.load_i32(0);
        let msg = f.make_msg_legacy_sender(2, claimed, rid, 5, payload);
        f.send(child, msg);
        f.return_(payload);
        f
    });
    let mut host = Host::new(program.build());
    let id = host.spawn(main);
    host.run();
    let seen: Vec<&Value> = host
        .shared
        .done
        .iter()
        .filter_map(|(_, o)| match o {
            FlowOutcome::Completed(v @ Value::Pid(_)) => Some(v),
            _ => None,
        })
        .collect();
    assert_eq!(seen, vec![&Value::Pid(id.raw)]);
}

#[test]
fn a_flow_that_dies_wakes_whoever_asked_it() {
    let mut program = Program::new("ask-dead");
    let dies = program.function("dies", 0, |mut f| {
        let msg = f.receive();
        f.trap(7);
        f.return_(msg);
        f
    });
    let main = program.function("main", 0, |mut f| {
        let child = f.spawn(dies, 0);
        let payload = f.load_i32(0);
        let req = f.hop_fresh(1, payload);
        let reply = f.ask(child, req);
        f.return_(reply);
        f
    });
    let mut host = Host::new(program.build());
    let id = host.spawn(main);
    host.run();
    match host.completed(id) {
        Value::Message(m) => {
            assert!(m.is_exit());
            assert_eq!(m.payload.as_ref(), &Value::Int(FlowExitReason::Fault.as_u64() as i64));
        }
        other => panic!("{other:?}"),
    }
    assert_eq!(host.shared.metrics.processes_failed, 1);
}

#[test]
fn spawning_beyond_the_limit_is_refused() {
    let mut host = Host::with(wait_and_trap_chunk(), RuntimeConfig { max_flows: 1, ..config() });
    let first = host.spawn(0);
    let req = SpawnRequest {
        chunk: host.chunk.clone(),
        natives: host.natives.clone(),
        function: 0,
        restart_policy: RestartPolicy::Never,
        supervisor: None,
    };
    assert!(matches!(
        host.shared.spawn(&req, &[], 0),
        Err(SpawnError::FlowLimit { current: 1, max: 1 })
    ));
    host.settle();
    host.shared.request_kill(first, FlowExitReason::Killed);
    assert!(matches!(host.outcome(first), Some(FlowOutcome::Failed(_))));
    assert!(host.shared.spawn(&req, &[], 0).is_ok());
}

#[test]
fn a_slice_with_compiled_code_does_the_same() {
    let mut program = Program::new("count");
    program.function("main", 0, |mut f| {
        let limit = f.load_int(500);
        let counter = f.load_i32(0);
        let mut f = f.while_lt(counter, limit, |mut f| {
            f.add_imm(counter, 1);
            f
        });
        f.return_(counter);
        f
    });
    let mut host = Host::new(program.build());
    let id = host.spawn(0);
    let mut jit = new_runtime(host.chunk.clone(), 3);
    let mut metrics = JitMetrics::new();
    let work = host.shared.take_work(0).unwrap();
    assert_eq!(work, id);
    let mut flow = host.shared.start(id);
    while let Some(f) = flow {
        flow = match host.shared.run_slice_with_jit(f, &mut jit, &mut metrics, 0, 0) {
            Driven::Running(f) => Some(f),
            _ => None,
        };
        if flow.is_none() && host.shared.take_work(0).is_some() {
            flow = host.shared.start(id);
        }
    }
    assert_eq!(host.completed(id), &Value::Int(500));
    assert!(metrics.jit_executions > 0);
}

#[test]
fn park_hits_process_limit() {
    let mut idx = HostAwaitIndex::new(1);
    assert!(idx.park(FlowId { raw: 1 }, 0).is_ok());
    assert!(matches!(
        idx.park(FlowId { raw: 2 }, 0),
        Err(HostAwaitParkError::LimitReached { current: 1, max: 1 })
    ));
}

#[test]
fn take_ticket_clears_membership() {
    let mut idx = HostAwaitIndex::new(0);
    let id = FlowId { raw: 5 };
    let ticket = idx.park(id, 2).unwrap();
    let (flow, dest_reg) = idx.take_ticket(ticket).expect("take");
    assert_eq!(flow, id);
    assert_eq!(dest_reg, 2);
    assert!(idx.take_ticket(ticket).is_none());
    assert!(!idx.take_flow(id));
}

#[test]
fn park_reuses_slot_after_take() {
    let mut idx = HostAwaitIndex::new(1);
    let ticket = idx.park(FlowId { raw: 1 }, 0).unwrap();
    assert!(idx.take_ticket(ticket).is_some());
    assert!(idx.park(FlowId { raw: 2 }, 0).is_ok());
}

#[test]
fn unlimited_max_allows_many() {
    let mut idx = HostAwaitIndex::new(0);
    for raw in 1..9 {
        assert!(idx.park(FlowId { raw }, 0).is_ok());
    }
    assert!(matches!(
        idx.park(FlowId { raw: 1 }, 0),
        Err(HostAwaitParkError::Duplicate)
    ));
}

fn waiter_chunk(arg: i32) -> Chunk {
    let mut program = Program::new("ha-waiter");
    program.function("waiter", 0, |mut f| {
        let args = f.load_i32(arg);
        let out = f.host_await(1, args);
        f.return_(out);
        f
    });
    program.build()
}

fn bridged(max_host_awaits: u32) -> RuntimeConfig {
    RuntimeConfig { host_await: true, max_host_awaits, ..config() }
}

#[test]
fn host_await_without_bridge_fails() {
    let mut host = Host::new(waiter_chunk(1));
    let id = host.spawn(0);
    host.run();
    assert!(host.failure(id).contains("no bridge"));
}

#[test]
fn host_await_thread_bridge_writeback() {
    let mut host = Host::with(waiter_chunk(41), bridged(0));
    let id = host.spawn(0);
    host.run();
    let req = host.shared.requests.remove(0);
    let value = match (req.op, &req.args) {
        (1, Value::Int(n)) => Value::Int(n + 1),
        _ => Value::Int(0),
    };
    let done = HostAwaitCompleter { ticket: req.ticket };
    done.complete(&mut host.shared, value).unwrap();
    host.run();
    assert_eq!(host.completed(id), &Value::Int(42));
}

#[test]
fn host_await_limit_rejects_second() {
    let mut host = Host::with(waiter_chunk(0), bridged(1));
    let _first = host.spawn(0);
    host.run();
    let second = host.spawn(0);
    host.run();
    assert!(host.failure(second).contains("HostAwait limit"));
}

#[test]
fn host_await_slot_reused_after_complete() {
    let mut host = Host::with(waiter_chunk(0), bridged(1));
    let first = host.spawn(0);
    host.run();
    let second = host.spawn(0);
    host.run();
    assert!(host.failure(second).contains("HostAwait limit"));

    let (_, done) = host.take_request();
    done.complete(&mut host.shared, Value::Int(7)).unwrap();
    host.run();
    assert_eq!(host.completed(first), &Value::Int(7));

    let third = host.spawn(0);
    host.run();
    let (_, done3) = host.take_request();
    done3.complete(&mut host.shared, Value::Int(9)).unwrap();
    host.run();
    assert_eq!(host.completed(third), &Value::Int(9));
}

#[test]
fn host_await_max_zero_allows_concurrent() {
    let mut host = Host::with(waiter_chunk(0), bridged(0));
    let a = host.spawn(0);
    let b = host.spawn(0);
    host.run();
    assert_eq!(host.shared.requests.len(), 2);
    while !host.shared.requests.is_empty() {
        let (_, done) = host.take_request();
        done.complete(&mut host.shared, Value::Int(1)).unwrap();
    }
    host.run();
    assert_eq!(host.completed(a), &Value::Int(1));
    assert_eq!(host.completed(b), &Value::Int(1));
}

#[test]
fn kill_parked_host_await_then_complete_is_stale() {
    let mut host = Host::with(waiter_chunk(0), bridged(0));
    let id = host.spawn(0);
    host.run();
    let (flow_id, done) = host.take_request();
    assert_eq!(flow_id, id);
    host.shared.request_kill(id, FlowExitReason::Killed);
    host.run();
    assert!(matches!(host.outcome(id), Some(FlowOutcome::Failed(_))));
    assert!(matches!(
        done.complete(&mut host.shared, Value::Int(1)),
        Err(HostAwaitError::Stale)
    ));
}

#[test]
fn shutdown_with_parked_host_await_does_not_hang() {
    let mut host = Host::with(waiter_chunk(0), bridged(0));
    let id = host.spawn(0);
    host.run();
    host.shared.shutdown_awaits();
    assert!(host.failure(id).contains("runtime shutdown"));
    // A late answer of the host is stale.
    let (_, done) = host.take_request();
    assert!(matches!(
        done.complete(&mut host.shared, Value::Int(1)),
        Err(HostAwaitError::Stale)
    ));
}

#[test]
fn a_failed_or_dropped_answer_fails_the_flow() {
    let mut host = Host::with(waiter_chunk(0), bridged(0));
    let a = host.spawn(0);
    let b = host.spawn(0);
    host.run();
    let (fa, done) = host.take_request();
    done.fail(&mut host.shared, Arc::new("disk on fire".to_owned())).unwrap();
    let (fb, done) = host.take_request();
    done.abandon(&mut host.shared).unwrap();
    host.run();
    assert_eq!((fa, fb), (a, b));
    assert!(host.failure(a).contains("disk on fire"));
    assert!(host.failure(b).contains("dropped"));
}

fn trap_chunk() -> Chunk {
    let mut b = ChunkBuilder::new("trap");
    b.begin_function("boom", 0, 1);
    b.emit_trap(1);
    b.finish()
}

fn never_then_trap_chunk() -> Chunk {
    let mut b = ChunkBuilder::new("never-trap");
    b.begin_function("boom", 0, 1);
    b.emit_set_restart_policy(RestartPolicy::Never.as_u8());
    b.emit_trap(1);
    b.finish()
}

fn ok_chunk() -> Chunk {
    let mut b = ChunkBuilder::new("ok");
    b.begin_function("main", 0, 1);
    b.emit_load_imm(0, 7);
    b.emit_return(0);
    b.finish()
}

fn wait_and_trap_chunk() -> Chunk {
    let mut b = ChunkBuilder::new("sup-mix");
    b.begin_function("wait", 0, 1);
    b.emit_receive(0);
    b.emit_return(0);
    b.begin_function("boom", 0, 1);
    b.emit_trap(1);
    b.begin_function("delayed", 0, 1);
    b.emit_load_imm(0, 80);
    b.emit_sleep(0);
    b.emit_trap(1);
    b.finish()
}

fn supervised(chunk: Chunk, max_restarts: u32, strategy: RestartStrategy) -> Host {
    let mut host = Host::new(chunk);
    host.supervise(SupervisorConfig { max_restarts, max_period: 5_000, strategy });
    host
}

fn live(host: &Host) -> usize {
    host.sup.as_ref().unwrap().live_children()
}

#[test]
fn on_failure_does_not_restart_a_clean_exit() {
    let mut host = supervised(ok_chunk(), 3, RestartStrategy::OneForOne);
    let id = host
        .start_child(ChildSpec::new("main", 0).restart(RestartPolicy::OnFailure))
        .unwrap();
    host.run();
    assert_eq!(live(&host), 0);
    assert!(matches!(host.outcome(id), Some(FlowOutcome::Completed(_))));
    assert_eq!(host.shared.metrics.processes_spawned, 1);
}

#[test]
fn on_failure_restarts_until_intensity() {
    let mut host = supervised(trap_chunk(), 2, RestartStrategy::OneForOne);
    host.start_child(ChildSpec::new("boom", 0).restart(RestartPolicy::OnFailure)).unwrap();
    host.run();
    assert!(host.sup.as_ref().unwrap().intensity_exceeded());
    // The first start and two restarts; then the third restart is refused.
    assert_eq!(host.shared.metrics.processes_spawned, 3);
    assert_eq!(host.shared.metrics.processes_failed, 3);
}

fn traps_after(ms: i32) -> Chunk {
    let mut b = ChunkBuilder::new("late");
    b.begin_function("late", 0, 1);
    b.emit_load_imm(0, ms);
    b.emit_sleep(0);
    b.emit_trap(1);
    b.finish()
}

#[test]
fn restarts_of_a_young_clock_count() {
    let mut host = supervised(traps_after(1_000), 3, RestartStrategy::OneForOne);
    host.start_child(ChildSpec::new("late", 0).restart(RestartPolicy::OnFailure)).unwrap();
    for (now, spawned) in [(0, 1), (1_000, 2), (2_000, 3), (3_000, 4)] {
        host.now = now;
        host.settle();
        assert_eq!(host.shared.metrics.processes_spawned, spawned);
        assert!(!host.sup.as_ref().unwrap().intensity_exceeded());
    }
    host.now = 4_000;
    host.settle();
    assert!(host.sup.as_ref().unwrap().intensity_exceeded());
    assert_eq!(host.shared.metrics.processes_spawned, 4);
    assert_eq!(host.shared.metrics.processes_failed, 4);
}

#[test]
fn restarts_before_the_period_are_forgotten() {
    let mut host = supervised(traps_after(2_000), 3, RestartStrategy::OneForOne);
    host.start_child(ChildSpec::new("late", 0).restart(RestartPolicy::OnFailure)).unwrap();
    for k in 0..6 {
        host.now = 2_000 * k;
        host.settle();
        assert_eq!(host.shared.metrics.processes_spawned, k + 1);
    }
    assert!(!host.sup.as_ref().unwrap().intensity_exceeded());
}

#[test]
fn set_restart_policy_never_skips_restart() {
    let mut host = supervised(never_then_trap_chunk(), 5, RestartStrategy::OneForOne);
    // The policy that the flow set itself wins at its exit.
    host.start_child(ChildSpec::new("boom", 0).restart(RestartPolicy::OnFailure)).unwrap();
    host.run();
    assert_eq!(live(&host), 0);
    assert_eq!(host.shared.metrics.processes_failed, 1);
    assert_eq!(host.shared.metrics.processes_spawned, 1);
}

#[test]
fn always_restarts_a_clean_exit_until_intensity() {
    let mut host = supervised(ok_chunk(), 2, RestartStrategy::OneForOne);
    host.start_child(ChildSpec::new("main", 0).restart(RestartPolicy::Always)).unwrap();
    host.run();
    assert!(host.sup.as_ref().unwrap().intensity_exceeded());
    assert_eq!(host.shared.metrics.processes_spawned, 3);
    assert_eq!(host.shared.metrics.processes_completed, 3);
}

#[test]
fn one_for_one_does_not_kill_sibling() {
    let mut host = supervised(wait_and_trap_chunk(), 3, RestartStrategy::OneForOne);
    let parked = host.start_child(ChildSpec::new("wait", 0)).unwrap();
    host.start_child(ChildSpec::new("boom", 1).restart(RestartPolicy::OnFailure)).unwrap();
    host.run();
    assert!(host.shared.metrics.processes_failed >= 1);
    assert!(host.outcome(parked).is_none(), "one-for-one must leave the parked sibling");
}

#[test]
fn one_for_all_kills_parked_sibling() {
    let mut host = supervised(wait_and_trap_chunk(), 8, RestartStrategy::OneForAll);
    let parked = host.start_child(ChildSpec::new("wait", 0)).unwrap();
    host.start_child(ChildSpec::new("boom", 1).restart(RestartPolicy::OnFailure)).unwrap();
    host.run();
    assert!(
        matches!(host.outcome(parked), Some(FlowOutcome::Failed(_))),
        "one-for-all must kill the parked sibling"
    );
}

#[test]
fn rest_for_one_kills_only_later_children() {
    let mut host = supervised(wait_and_trap_chunk(), 8, RestartStrategy::RestForOne);
    let earlier = host.start_child(ChildSpec::new("keep", 0)).unwrap();
    host.start_child(ChildSpec::new("delayed", 2).restart(RestartPolicy::OnFailure)).unwrap();
    let later = host.start_child(ChildSpec::new("tail", 0)).unwrap();
    host.settle();
    host.now = 80;
    host.settle();
    assert!(
        host.outcome(earlier).is_none(),
        "rest-for-one must not kill children started before the failure"
    );
    assert!(
        matches!(host.outcome(later), Some(FlowOutcome::Failed(_))),
        "rest-for-one must kill children started after the failure"
    );
}

#[test]
fn child_name_registers_and_rejects_duplicate() {
    let mut host = supervised(wait_and_trap_chunk(), 3, RestartStrategy::OneForOne);
    let parked = host.start_child(ChildSpec::new("svc", 0)).unwrap();
    host.settle();
    assert!(host.shared.registry.whereis("svc").is_some());
    let failed_before = host.shared.metrics.processes_failed;
    let dup = host.start_child(ChildSpec::new("svc", 1));
    match &dup {
        Err(SpawnError::NameTaken { name }) if name.as_str() == "svc" => {}
        other => panic!("expected NameTaken, got {other:?}"),
    }
    host.run();
    // The refused child is killed; only the first one is left.
    assert!(host.shared.metrics.processes_failed > failed_before);
    assert_eq!(live(&host), 1);
    assert_eq!(
        host.shared.registry.target("svc"),
        Some(parked),
        "svc must still address the original child"
    );
}

#[test]
fn restart_rebinds_registry_name() {
    let mut host = supervised(wait_and_trap_chunk(), 8, RestartStrategy::OneForOne);
    let first = host
        .start_child(ChildSpec::new("svc", 2).restart(RestartPolicy::OnFailure))
        .unwrap();
    host.settle();
    assert_eq!(host.shared.registry.target("svc"), Some(first));
    host.now = 80;
    host.settle();
    let rebound = host.shared.registry.target("svc").unwrap();
    assert_ne!(rebound, first);
    assert_eq!(live(&host), 1);
}

#[test]
fn one_for_all_rebinds_all_registry_names() {
    let mut host = supervised(wait_and_trap_chunk(), 8, RestartStrategy::OneForAll);
    let old_a = host.start_child(ChildSpec::new("a", 0)).unwrap();
    let old_b = host.start_child(ChildSpec::new("b", 0)).unwrap();
    let old_c = host
        .start_child(ChildSpec::new("c", 2).restart(RestartPolicy::OnFailure))
        .unwrap();
    host.settle();
    host.now = 80;
    host.settle();
    assert_eq!(live(&host), 3);
    assert_ne!(host.shared.registry.target("a").unwrap(), old_a);
    assert_ne!(host.shared.registry.target("b").unwrap(), old_b);
    assert_ne!(host.shared.registry.target("c").unwrap(), old_c);
}

#[test]
fn respawn_failure_is_reported_and_abandons_slot() {
    let mut host = supervised(wait_and_trap_chunk(), 8, RestartStrategy::OneForOne);
    host.start_child(ChildSpec::new("boom", 2).restart(RestartPolicy::OnFailure)).unwrap();
    assert_eq!(live(&host), 1);
    host.settle();
    // No new flow fits from now on.
    host.shared.flow_limit.max = 1;
    let blocker = host.shared.flow_limit.live();
    assert_eq!(blocker, 1);
    host.now = 80;
    // The exit frees the slot; another flow takes it before the restart.
    while host.shared.exits.is_empty() {
        assert!(host.step());
    }
    let _ = host.spawn(0);
    host.settle();
    let sup = host.sup.as_ref().unwrap();
    assert_eq!(sup.respawn_failures, 1);
    assert_eq!(sup.live_children(), 0);
    host.run();
    assert_eq!(host.sup.as_ref().unwrap().respawn_failures, 1);
    assert_eq!(live(&host), 0);
}

#[test]
fn policy_table() {
    let ok = FlowOutcome::Completed(Value::Unit);
    let fail = FlowOutcome::Failed(Arc::new(Failure::Refused("boom")));
    assert!(should_restart(RestartPolicy::Always, &ok));
    assert!(should_restart(RestartPolicy::Always, &fail));
    assert!(!should_restart(RestartPolicy::OnFailure, &ok));
    assert!(should_restart(RestartPolicy::OnFailure, &fail));
    assert!(!should_restart(RestartPolicy::Never, &ok));
    assert!(!should_restart(RestartPolicy::Never, &fail));
}
