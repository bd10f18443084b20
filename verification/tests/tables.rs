use byteflow::bytecode::cap::CapId;
use byteflow::bytecode::value::Value;
use byteflow::scheduler::directory::Directory;
use byteflow::scheduler::error::{LifecycleError, RuntimeError, SpawnError};
use byteflow::scheduler::flow_limit::FlowLimit;
use byteflow::scheduler::handle::{FlowHandle, JoinError, JoinState, OutcomeSlot};
use byteflow::scheduler::link::{LinkStore, LinkTable};
use byteflow::scheduler::mailbox::Mailbox;
use byteflow::scheduler::monitor::{FlowExitReason, MonitorTable};
use byteflow::scheduler::process::{next_flow_id, try_next_flow_id, FlowId, FlowIds, FlowOutcome};
use byteflow::scheduler::quota::{FlowQuota, QuotaConfig, QuotaError, TokenBucket};
use byteflow::scheduler::registry::{Registry, RegistryName, RegistryStore};
use byteflow::scheduler::runqueue::{find_work, Found, Injector, Steal, Worker};
use byteflow::scheduler::timer::{TimerPayload, TimerWheel};
use byteflow::scheduler::waits::{AskInsertError, AskWaitIndex, KillSignals, TrapExitFlags};

fn flow(raw: u64) -> FlowId {
    FlowId { raw }
}

#[test]
fn register_lookup_unregister() {
    let mut dir = Directory::new();
    let id = flow(42);
    dir.register(id, Mailbox::new()).unwrap();
    assert!(dir.lookup(id).is_some());
    assert_eq!(dir.len(), 1);
    dir.unregister(id);
    assert!(dir.lookup(id).is_none());
    assert_eq!(dir.len(), 0);
    // Doing it again changes nothing.
    dir.unregister(id);
}

#[test]
fn duplicate_register_is_rejected() {
    let mut dir = Directory::new();
    let id = flow(7);
    dir.register(id, Mailbox::new()).unwrap();
    let err = dir.register(id, Mailbox::new());
    assert!(matches!(err, Err(RuntimeError::DuplicateFlowId)));
}

#[test]
fn distinct_ids_can_share_shard_without_collision() {
    let mut dir = Directory::new();
    let a = flow(1);
    let b = flow(1 + 64);
    dir.register(a, Mailbox::new()).unwrap();
    dir.register(b, Mailbox::new()).unwrap();
    assert!(dir.lookup(a).is_some());
    assert!(dir.lookup(b).is_some());
    assert_eq!(dir.len(), 2);
}

#[test]
fn take_waiters_clears_membership_before_park() {
    let mut idx = AskWaitIndex::new(0);
    let asker = flow(7);
    let target = flow(9);
    assert!(idx.insert(asker, target, 1).is_ok());
    assert_eq!(idx.target_of(asker), Some(target));

    let waiters = idx.take_waiters_of(target);
    assert_eq!(waiters, vec![asker]);
    assert_eq!(idx.target_of(asker), None);
    assert!(idx.take_waiters_of(target).is_empty());
}

#[test]
fn target_of_tracks_insert_and_remove() {
    let mut idx = AskWaitIndex::new(0);
    let asker = flow(3);
    let target = flow(5);
    assert_eq!(idx.target_of(asker), None);
    assert!(idx.insert(asker, target, 42).is_ok());
    assert_eq!(idx.target_of(asker), Some(target));
    assert_eq!(idx.remove_asker(asker), Some(target));
    assert_eq!(idx.target_of(asker), None);
}

#[test]
fn insert_rejects_when_at_process_limit() {
    let mut idx = AskWaitIndex::new(1);
    let a = flow(1);
    let b = flow(2);
    let target = flow(9);
    assert!(idx.insert(a, target, 1).is_ok());
    assert!(matches!(
        idx.insert(b, target, 2),
        Err(AskInsertError::LimitReached { current: 1, max: 1 })
    ));
    assert_eq!(idx.remove_asker(a), Some(target));
    assert!(idx.insert(b, target, 2).is_ok());
}

#[test]
fn flags_and_signals_are_per_flow() {
    let mut traps = TrapExitFlags::new();
    traps.set(flow(1), true);
    assert!(traps.is_enabled(flow(1)) && !traps.is_enabled(flow(2)));
    traps.set(flow(1), false);
    assert!(!traps.is_enabled(flow(1)));
    let mut kills = KillSignals::new();
    kills.set(flow(1), FlowExitReason::Killed);
    assert_eq!(kills.take(flow(2)), None);
    assert_eq!(kills.take(flow(1)), Some(FlowExitReason::Killed));
    assert_eq!(kills.take(flow(1)), None);
}

#[test]
fn reserve_hits_cap() {
    let mut lim = FlowLimit::new(2);
    assert!(lim.try_reserve().is_ok());
    assert!(lim.try_reserve().is_ok());
    assert!(matches!(
        lim.try_reserve(),
        Err(SpawnError::FlowLimit { current: 2, max: 2 })
    ));
    lim.release();
    assert!(lim.try_reserve().is_ok());
    assert_eq!(lim.live(), 2);
}

#[test]
fn unlimited_always_reserves() {
    let mut lim = FlowLimit::new(0);
    for _ in 0..8 {
        assert!(lim.try_reserve().is_ok());
    }
    assert_eq!(lim.live(), 8);
    for _ in 0..8 {
        lim.release();
    }
    assert_eq!(lim.live(), 0);
}

#[test]
fn join_from_worker_is_rejected() {
    let handle = FlowHandle::new(flow(1));
    match handle.join_checked(true) {
        Err(JoinError::CalledFromWorker) => {}
        other => panic!("expected CalledFromWorker, got {other:?}"),
    }
}

#[test]
fn an_outcome_is_read_once() {
    let mut slot = OutcomeSlot::new();
    assert!(matches!(slot.read(), Ok(JoinState::Pending)));
    slot.fill(FlowOutcome::Completed(Value::Int(4)));
    assert!(matches!(
        slot.read(),
        Ok(JoinState::Ready(FlowOutcome::Completed(Value::Int(4))))
    ));
    assert!(!matches!(slot.read(), Ok(JoinState::Ready(_))));
    let mut handle = FlowHandle::new(flow(9));
    assert_eq!(handle.id(), flow(9));
    assert!(handle.try_join(false).is_none());
    handle.slot.fill(FlowOutcome::Completed(Value::Unit));
    assert!(matches!(handle.try_join(false), Some(FlowOutcome::Completed(Value::Unit))));
}

#[test]
fn remove_links_returns_both_directions() {
    let mut ids = FlowIds::new();
    let mut table = LinkTable::new();
    let a = next_flow_id(&mut ids);
    let b = next_flow_id(&mut ids);
    let c = next_flow_id(&mut ids);
    table.link(a, b).unwrap();
    table.link(c, a).unwrap();
    let peers: Vec<FlowId> = table.remove_links_of(a).into_iter().map(|(_, p)| p).collect();
    assert_eq!(peers.len(), 2);
    assert!(peers.contains(&b));
    assert!(peers.contains(&c));
    assert!(table.remove_links_of(a).is_empty());
}

#[test]
fn rejects_self_and_duplicate() {
    let mut ids = FlowIds::new();
    let mut table = LinkTable::new();
    let a = next_flow_id(&mut ids);
    let b = next_flow_id(&mut ids);
    assert_eq!(table.link(a, a), Err(LifecycleError::SelfRelation));
    assert!(table.link(a, b).is_ok());
    assert_eq!(table.link(b, a), Err(LifecycleError::AlreadyLinked));
}

#[test]
fn link_limit_is_process_wide_and_released() {
    let mut ids = FlowIds::new();
    let mut store = LinkStore::new(1);
    let a = next_flow_id(&mut ids);
    let b = next_flow_id(&mut ids);
    let c = next_flow_id(&mut ids);
    let first = store.link(a, b).unwrap();
    let second = store.link(b, c);
    assert!(matches!(second, Err(LifecycleError::LinkLimitReached { limit: 1 })));
    store.unlink_owned(a, first).unwrap();
    store.link(b, c).unwrap();
}

#[test]
fn link_limit_does_not_mask_self_or_duplicate() {
    let mut ids = FlowIds::new();
    let mut store = LinkStore::new(1);
    let a = next_flow_id(&mut ids);
    let b = next_flow_id(&mut ids);
    store.link(a, b).unwrap();
    // At capacity, a self link and a duplicate are still told apart.
    let self_err = store.link(a, a);
    assert!(matches!(self_err, Err(LifecycleError::SelfRelation)));
    let dup = store.link(b, a);
    assert!(matches!(dup, Err(LifecycleError::AlreadyLinked)));
    let other = store.link(a, next_flow_id(&mut ids));
    assert!(matches!(other, Err(LifecycleError::LinkLimitReached { limit: 1 })));
}

#[test]
fn notify_removes_and_sorts() {
    let mut ids = FlowIds::new();
    let mut table = MonitorTable::new();
    let owner = next_flow_id(&mut ids);
    let target = next_flow_id(&mut ids);
    let a = table.create(owner, target);
    let b = table.create(owner, target);
    let events = table.notify_target_exit(target, FlowExitReason::Fault);
    assert_eq!(events.len(), 2);
    assert_eq!(events[0].monitor, a);
    assert_eq!(events[1].monitor, b);
    assert!(table.notify_target_exit(target, FlowExitReason::Fault).is_empty());
}

#[test]
fn remove_owned_rejects_other_flow() {
    let mut ids = FlowIds::new();
    let mut table = MonitorTable::new();
    let owner = next_flow_id(&mut ids);
    let other = next_flow_id(&mut ids);
    let target = next_flow_id(&mut ids);
    let mon = table.create(owner, target);
    assert_eq!(table.remove_owned(other, mon), Err(LifecycleError::NotOwner));
    assert!(table.remove_owned(owner, mon).is_ok());
    assert_eq!(table.remove_owned(owner, mon), Err(LifecycleError::InvalidMonitor));
}

#[test]
fn exit_reasons_round_trip() {
    for raw in 0..7 {
        assert_eq!(FlowExitReason::from_u64(raw).unwrap().as_u64(), raw);
    }
    assert!(FlowExitReason::from_u64(7).is_none());
    assert!(!FlowExitReason::Normal.is_abnormal());
    assert!(FlowExitReason::Shutdown.is_abnormal());
    assert_eq!(FlowExitReason::MailboxOverflow.text(), "mailbox-overflow");
}

#[test]
fn cpu_budget_fails_closed() {
    let mut q = FlowQuota::new(10, 1024, 1, 1, 1, 1, 0);
    assert!(q.charge_cpu(7).is_ok());
    assert!(q.charge_cpu(4).is_err());
    assert!(q.charge_cpu(3).is_ok());
}

#[test]
fn memory_never_exceeds_limit() {
    let mut q = FlowQuota::new(1000, 100, 1, 1, 1, 1, 0);
    assert!(q.allocate(60).is_ok());
    assert!(q.allocate(60).is_err());
    q.free(60);
    assert!(q.allocate(60).is_ok());
}

#[test]
fn sandbox_is_tighter_than_permissive() {
    let p = QuotaConfig::permissive();
    let s = QuotaConfig::sandbox();
    assert!(s.cpu_budget < p.cpu_budget);
    assert!(s.mem_limit < p.mem_limit);
    assert!(s.send_burst < p.send_burst);
    assert_eq!(QuotaConfig::default().cpu_budget, p.cpu_budget);
}

#[test]
fn top_up_mem_raises_limit() {
    let mut q = FlowQuota::new(1000, 100, 1, 1, 1, 1, 0);
    assert!(q.allocate(60).is_ok());
    assert!(q.allocate(60).is_err());
    q.top_up_mem(50);
    assert!(q.allocate(60).is_ok());
}

#[test]
fn spawn_bucket_does_not_over_issue() {
    let mut q = FlowQuota::new(1000, 100, 3, 0, 1, 1, 0);
    assert!(q.check_spawn(0).is_ok());
    assert!(q.check_spawn(0).is_ok());
    assert!(q.check_spawn(0).is_ok());
    assert!(q.check_spawn(0).is_err());
}

#[test]
fn a_bucket_refills_with_time_up_to_its_burst() {
    let mut b = TokenBucket::new(2, 1, 0);
    assert!(b.try_consume(0));
    assert!(b.try_consume(0));
    assert!(!b.try_consume(0));
    assert!(b.try_consume(1_000));
    assert!(!b.try_consume(1_000));
    assert!(b.try_consume(60_000));
    assert!(b.try_consume(60_000));
    assert!(!b.try_consume(60_000));
    let mut q = FlowQuota::new(1000, 100, 1, 1, 1, 0, 0);
    assert!(q.check_send(0).is_ok());
    assert!(matches!(q.check_send(0), Err(QuotaError::SendRateExceeded)));
    q.top_up_send(1);
    assert!(q.check_send(0).is_ok());
}

#[test]
fn unregister_flow_clears_names() {
    let mut ids = FlowIds::new();
    let mut reg = Registry::new();
    let flow = next_flow_id(&mut ids);
    let cap = CapId::from_raw(42);
    assert!(reg.register(RegistryName::new("svc"), cap, flow).is_ok());
    assert_eq!(reg.whereis("svc"), Some(cap));
    reg.unregister_flow(flow);
    assert_eq!(reg.whereis("svc"), None);
}

#[test]
fn duplicate_name_is_rejected() {
    let mut ids = FlowIds::new();
    let mut reg = Registry::new();
    let flow = next_flow_id(&mut ids);
    assert!(reg.register(RegistryName::new("svc"), CapId::from_raw(1), flow).is_ok());
    assert_eq!(
        reg.register(RegistryName::new("svc"), CapId::from_raw(2), flow),
        Err(LifecycleError::AlreadyRegistered)
    );
}

#[test]
fn empty_name_is_rejected() {
    let mut ids = FlowIds::new();
    let mut reg = Registry::new();
    let flow = next_flow_id(&mut ids);
    assert_eq!(
        reg.register(RegistryName::new(""), CapId::from_raw(1), flow),
        Err(LifecycleError::EmptyName)
    );
}

#[test]
fn registry_limit_distinct_from_already_registered() {
    let mut ids = FlowIds::new();
    let mut store = RegistryStore::new(1);
    let a = next_flow_id(&mut ids);
    let b = next_flow_id(&mut ids);
    store.register(RegistryName::new("a"), CapId::from_raw(1), a).unwrap();
    let dup = store.register(RegistryName::new("a"), CapId::from_raw(2), b);
    assert!(matches!(dup, Err(LifecycleError::AlreadyRegistered)));
    let limited = store.register(RegistryName::new("b"), CapId::from_raw(3), b);
    assert!(matches!(limited, Err(LifecycleError::RegistryLimitReached { limit: 1 })));
    assert_eq!(store.target("a"), Some(a));
    store.unregister("a");
    store.register(RegistryName::new("b"), CapId::from_raw(3), b).unwrap();
}

#[test]
fn injector_fifo_order() {
    let mut inj = Injector::new();
    inj.push(1u32);
    inj.push(2);
    assert!(matches!(inj.steal(), Steal::Success(1)));
    assert!(matches!(inj.steal(), Steal::Success(2)));
    assert!(matches!(inj.steal(), Steal::Empty));
}

#[test]
fn local_then_stealer() {
    let mut w = Worker::new_fifo();
    w.push(10u32);
    w.push(20);
    assert_eq!(w.pop(), Some(10));
    assert!(matches!(w.stealer().steal(), Steal::Success(20)));
    assert!(matches!(w.stealer().steal(), Steal::Empty));
}

#[test]
fn work_is_looked_for_at_home_first_and_stolen_last() {
    let mut locals = vec![Worker::new_fifo(), Worker::new_fifo()];
    let mut shared = Injector::new();
    locals[0].push(1u32);
    locals[1].push(2);
    shared.push(3);
    assert!(matches!(find_work(&mut locals, &mut shared, 0), Found::Local(1)));
    assert!(matches!(find_work(&mut locals, &mut shared, 0), Found::Injected(3)));
    assert!(matches!(find_work(&mut locals, &mut shared, 0), Found::Stolen(2)));
    assert!(matches!(find_work(&mut locals, &mut shared, 0), Found::Nothing));
}

#[test]
fn flow_ids_run_out_instead_of_repeating() {
    let mut ids = FlowIds { next: u64::MAX, exhausted: false };
    let last = try_next_flow_id(&mut ids);
    assert!(try_next_flow_id(&mut ids).is_err());
    assert_eq!(next_flow_id(&mut ids).raw, u64::MAX);
    let _ = last;
    let mut fresh = FlowIds::new();
    assert_eq!(next_flow_id(&mut fresh).raw, 1);
    assert_eq!(next_flow_id(&mut fresh).raw, 2);
    assert!(FlowId::host().is_host());
}

#[test]
fn deadlines_come_due_in_order() {
    let mut wheel = TimerWheel::new();
    wheel.schedule_sleep(0, 30, flow(1));
    wheel.schedule_sleep(0, 10, flow(2));
    wheel.schedule_sleep(5, 5, flow(3));
    assert!(wheel.pop_due(9).is_none());
    let mut woken = Vec::new();
    while let Some(entry) = wheel.pop_due(40) {
        if let TimerPayload::WakeSleeper(id) = entry.payload {
            woken.push(id.raw);
        }
    }
    assert_eq!(woken, vec![2, 3, 1]);
}

#[test]
fn top_up_cpu_raises_the_budget() {
    let mut quota = FlowQuota::new(5, 1024, 1, 1, 1, 1, 0);
    quota.top_up_cpu(7);
    assert_eq!(quota.cpu_budget, 12);
}

#[test]
fn waiters_links_and_monitors_come_out_once() {
    let mut asks = AskWaitIndex::new(0);
    for asker in [5, 9, 7] {
        asks.insert(flow(asker), flow(1), asker).unwrap();
    }
    asks.insert(flow(8), flow(2), 1).unwrap();
    assert_eq!(asks.take_waiters_of(flow(1)), vec![flow(5), flow(7), flow(9)]);
    assert_eq!(asks.take_waiters_of(flow(1)), Vec::<FlowId>::new());
    assert_eq!(asks.target_of(flow(8)), Some(flow(2)));
    assert!(asks.insert(flow(5), flow(2), 3).is_ok());

    let mut links = LinkTable::new();
    let a = links.link(flow(1), flow(2)).unwrap();
    let b = links.link(flow(3), flow(1)).unwrap();
    links.link(flow(2), flow(3)).unwrap();
    assert_eq!(links.remove_links_of(flow(1)), vec![(a, flow(2)), (b, flow(3))]);
    assert!(links.remove_links_of(flow(1)).is_empty());
    assert_eq!(links.len(), 1);

    let mut monitors = MonitorTable::new();
    let m = monitors.create(flow(2), flow(1));
    let n = monitors.create(flow(2), flow(1));
    monitors.create(flow(2), flow(4));
    let events = monitors.notify_target_exit(flow(1), FlowExitReason::Killed);
    let refs: Vec<_> = events.iter().map(|e| (e.monitor, e.owner, e.target)).collect();
    assert_eq!(refs, vec![(m, flow(2), flow(1)), (n, flow(2), flow(1))]);
    assert!(monitors.notify_target_exit(flow(1), FlowExitReason::Killed).is_empty());
}
