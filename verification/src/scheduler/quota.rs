//! Budgets of a flow: instructions, heap bytes, and token buckets for spawns
//! and sends. Each fails closed.

use vstd::prelude::*;

use crate::idmap::IdMap;
use crate::scheduler::process::FlowId;
use crate::text::{dec, owned, push_str, push_usize};

verus! {

/// Tunables of a newly spawned flow.
#[derive(Clone, Copy, Debug, PartialEq, Eq, Structural)]
pub struct QuotaConfig {
    pub cpu_budget: i64,
    pub mem_limit: usize,
    pub spawn_burst: i64,
    pub spawn_per_sec: i64,
    pub send_burst: i64,
    pub send_per_sec: i64,
}

/// Generous budgets.
pub open spec fn permissive_quota() -> QuotaConfig {
    QuotaConfig {
        cpu_budget: 1_000_000_000,
        mem_limit: 67_108_864,
        spawn_burst: 10_000,
        spawn_per_sec: 10_000,
        send_burst: 50_000,
        send_per_sec: 50_000,
    }
}

/// Budgets for untrusted modules.
pub open spec fn sandbox_quota() -> QuotaConfig {
    QuotaConfig {
        cpu_budget: 50_000,
        mem_limit: 16_777_216,
        spawn_burst: 32,
        spawn_per_sec: 32,
        send_burst: 256,
        send_per_sec: 64,
    }
}

/// A sandbox gets less of everything than the permissive default.
pub proof fn sandbox_is_tighter()
    ensures
        sandbox_quota().cpu_budget < permissive_quota().cpu_budget,
        sandbox_quota().mem_limit < permissive_quota().mem_limit,
        sandbox_quota().spawn_burst < permissive_quota().spawn_burst,
        sandbox_quota().spawn_per_sec < permissive_quota().spawn_per_sec,
        sandbox_quota().send_burst < permissive_quota().send_burst,
        sandbox_quota().send_per_sec < permissive_quota().send_per_sec,
{
}

impl QuotaConfig {
    pub fn permissive() -> (r: Self)
        ensures
            r == permissive_quota(),
    {
        QuotaConfig {
            cpu_budget: 1_000_000_000,
            mem_limit: 67_108_864,
            spawn_burst: 10_000,
            spawn_per_sec: 10_000,
            send_burst: 50_000,
            send_per_sec: 50_000,
        }
    }

    pub fn sandbox() -> (r: Self)
        ensures
            r == sandbox_quota(),
    {
        QuotaConfig {
            cpu_budget: 50_000,
            mem_limit: 16_777_216,
            spawn_burst: 32,
            spawn_per_sec: 32,
            send_burst: 256,
            send_per_sec: 64,
        }
    }
}

impl Default for QuotaConfig {
    fn default() -> (r: Self)
        ensures
            r == permissive_quota(),
    {
        QuotaConfig::permissive()
    }
}

/// Tokens that time refills. Times are milliseconds of a monotonic clock.
#[derive(Clone, Copy, Debug, PartialEq, Eq, Structural)]
pub struct TokenBucket {
    pub capacity: i64,
    pub tokens: i64,
    pub refill_per_sec: i64,
    pub last_refill: u64,
}

/// Refills closer together than this are skipped.
pub const REFILL_INTERVAL_MS: u64 = 50;

/// A full bucket.
pub open spec fn full_bucket(capacity: i64, refill_per_sec: i64, now: u64) -> TokenBucket {
    TokenBucket { capacity, tokens: capacity, refill_per_sec, last_refill: now }
}

/// Tokens that `elapsed` milliseconds bring.
pub open spec fn refill_amount(b: TokenBucket, elapsed: int) -> int {
    elapsed * b.refill_per_sec / 1000
}

/// The bucket at `now`: refilled up to its capacity once the interval passed
/// and a whole token is due.
pub open spec fn refilled(b: TokenBucket, now: u64) -> TokenBucket {
    let elapsed = if now >= b.last_refill {
        now - b.last_refill
    } else {
        0
    };
    let due = refill_amount(b, elapsed);
    if elapsed >= REFILL_INTERVAL_MS && due > 0 {
        TokenBucket {
            tokens: (if b.tokens + due < b.capacity {
                b.tokens + due
            } else {
                b.capacity as int
            }) as i64,
            last_refill: now,
            ..b
        }
    } else {
        b
    }
}

/// The bucket after one token was asked for at `now`.
pub open spec fn consumed(b: TokenBucket, now: u64) -> TokenBucket {
    let r = refilled(b, now);
    if r.tokens > 0 {
        TokenBucket { tokens: (r.tokens - 1) as i64, ..r }
    } else {
        r
    }
}

/// A token is granted only when there is one, and without a refill a bucket
/// never grants more tokens than it holds.
pub proof fn bucket_never_over_issues(b: TokenBucket, now: u64)
    ensures
        refilled(b, now).tokens > 0 ==> consumed(b, now).tokens == refilled(b, now).tokens - 1
            && consumed(b, now).tokens >= 0,
        refilled(b, now).tokens <= 0 ==> consumed(b, now) == refilled(b, now),
        b.refill_per_sec <= 0 ==> refilled(b, now) == b,
        b.tokens <= b.capacity ==> refilled(b, now).tokens <= b.capacity,
{
    if b.refill_per_sec <= 0 {
        let elapsed = if now >= b.last_refill {
            now - b.last_refill
        } else {
            0
        };
        let rate = b.refill_per_sec as int;
        assert(elapsed * rate <= 0) by (nonlinear_arith)
            requires
                elapsed >= 0,
                rate <= 0,
        ;
    }
}

impl TokenBucket {
    /// A full bucket.
    pub fn new(capacity: i64, refill_per_sec: i64, now: u64) -> (r: Self)
        ensures
            r == full_bucket(capacity, refill_per_sec, now),
    {
        TokenBucket { capacity, tokens: capacity, refill_per_sec, last_refill: now }
    }

    fn refill(&mut self, now: u64)
        ensures
            *final(self) == refilled(*old(self), now),
    {
        if now < self.last_refill {
            return ;
        }
        let elapsed: u64 = now - self.last_refill;
        if elapsed >= REFILL_INTERVAL_MS {
            if self.refill_per_sec <= 0 {
                proof {
                    let rate = self.refill_per_sec as int;
                    assert(elapsed * rate <= 0) by (nonlinear_arith)
                        requires
                            elapsed >= 0,
                            rate <= 0,
                    ;
                }
                return ;
            }
            proof {
                let rate = self.refill_per_sec as int;
                assert(0 <= elapsed * rate <= 0xFFFF_FFFF_FFFF_FFFF * 0x7FFF_FFFF_FFFF_FFFF)
                    by (nonlinear_arith)
                    requires
                        0 <= elapsed <= 0xFFFF_FFFF_FFFF_FFFF,
                        0 <= rate <= 0x7FFF_FFFF_FFFF_FFFF,
                ;
            }
            let due: i128 = (elapsed as i128) * (self.refill_per_sec as i128) / 1000;
            if due > 0 {
                let sum: i128 = self.tokens as i128 + due;
                self.tokens = if sum < self.capacity as i128 {
                    sum as i64
                } else {
                    self.capacity
                };
                self.last_refill = now;
            }
        }
    }

    /// Take one token; false when there is none.
    pub fn try_consume(&mut self, now: u64) -> (r: bool)
        ensures
            r == (refilled(*old(self), now).tokens > 0),
            *final(self) == consumed(*old(self), now),
    {
        self.refill(now);
        if self.tokens <= 0 {
            return false;
        }
        self.tokens = self.tokens - 1;
        true
    }

    /// Add tokens; the capacity bounds them only at the next refill.
    pub fn credit(&mut self, extra: i64)
        ensures
            *final(self) == (if extra <= 0 {
                *old(self)
            } else {
                TokenBucket { tokens: old(self).tokens.wrapping_add(extra), ..*old(self) }
            }),
    {
        if extra <= 0 {
            return ;
        }
        self.tokens = self.tokens.wrapping_add(extra);
    }
}

/// A budget that is used up.
#[derive(Debug, Clone, Copy, PartialEq, Eq, Structural)]
pub enum QuotaError {
    CpuExhausted,
    MemoryExhausted { requested: usize, limit: usize },
    SpawnRateExceeded,
    SendRateExceeded,
}

/// The message of a quota error.
pub open spec fn quota_error_text(e: QuotaError) -> Seq<char> {
    match e {
        QuotaError::CpuExhausted => "flow CPU budget exhausted"@,
        QuotaError::MemoryExhausted { requested, limit } => "flow memory exhausted (requested "@
            + dec(requested as nat) + ", limit "@ + dec(limit as nat) + ")"@,
        QuotaError::SpawnRateExceeded => "spawn rate exceeded"@,
        QuotaError::SendRateExceeded => "send rate exceeded"@,
    }
}

impl QuotaError {
    /// The message of this error.
    pub fn text(&self) -> (r: String)
        ensures
            r@ == quota_error_text(*self),
    {
        match self {
            QuotaError::CpuExhausted => owned("flow CPU budget exhausted"),
            QuotaError::MemoryExhausted { requested, limit } => {
                let mut s = owned("flow memory exhausted (requested ");
                push_usize(&mut s, *requested);
                push_str(&mut s, ", limit ");
                push_usize(&mut s, *limit);
                push_str(&mut s, ")");
                s
            },
            QuotaError::SpawnRateExceeded => owned("spawn rate exceeded"),
            QuotaError::SendRateExceeded => owned("send rate exceeded"),
        }
    }
}

/// The budgets of one flow.
#[derive(Clone, Copy, Debug, PartialEq, Eq, Structural)]
pub struct FlowQuota {
    pub cpu_budget: i64,
    pub mem_limit: usize,
    pub mem_used: usize,
    pub spawn_bucket: TokenBucket,
    pub send_bucket: TokenBucket,
}

/// A fresh quota.
pub open spec fn fresh_quota(cfg: QuotaConfig, now: u64) -> FlowQuota {
    FlowQuota {
        cpu_budget: cfg.cpu_budget,
        mem_limit: cfg.mem_limit,
        mem_used: 0,
        spawn_bucket: full_bucket(cfg.spawn_burst, cfg.spawn_per_sec, now),
        send_bucket: full_bucket(cfg.send_burst, cfg.send_per_sec, now),
    }
}

/// The sum of two sizes, stopped at the largest.
pub open spec fn saturated(a: usize, b: usize) -> usize {
    if a + b > usize::MAX {
        usize::MAX
    } else {
        (a + b) as usize
    }
}

/// The answer to an allocation.
pub open spec fn alloc_result(q: FlowQuota, bytes: usize) -> Result<(), QuotaError> {
    if saturated(q.mem_used, bytes) > q.mem_limit {
        Err(QuotaError::MemoryExhausted { requested: bytes, limit: q.mem_limit })
    } else {
        Ok(())
    }
}

/// The quota after an allocation.
pub open spec fn allocated(q: FlowQuota, bytes: usize) -> FlowQuota {
    if alloc_result(q, bytes) is Ok {
        FlowQuota { mem_used: saturated(q.mem_used, bytes), ..q }
    } else {
        q
    }
}

/// The quota after bytes came back; never below zero.
pub open spec fn freed(q: FlowQuota, bytes: usize) -> FlowQuota {
    FlowQuota {
        mem_used: if q.mem_used >= bytes {
            (q.mem_used - bytes) as usize
        } else {
            0
        },
        ..q
    }
}

/// The quota after `cost` instructions; a refused charge leaves it alone.
pub open spec fn cpu_charged(q: FlowQuota, cost: i64) -> FlowQuota {
    if q.cpu_budget - cost < 0 {
        q
    } else {
        FlowQuota { cpu_budget: (q.cpu_budget - cost) as i64, ..q }
    }
}

/// Memory never goes over its limit, a refused allocation changes nothing,
/// and freeing what was allocated restores the quota.
pub proof fn memory_never_exceeds(q: FlowQuota, bytes: usize)
    requires
        q.mem_used <= q.mem_limit,
    ensures
        allocated(q, bytes).mem_used <= allocated(q, bytes).mem_limit,
        alloc_result(q, bytes) is Err ==> allocated(q, bytes) == q,
        alloc_result(q, bytes) is Ok && q.mem_used + bytes <= usize::MAX ==> freed(
            allocated(q, bytes),
            bytes,
        ) == q,
        freed(q, bytes).mem_used <= freed(q, bytes).mem_limit,
{
}

/// A cpu budget that is not negative stays so, whatever is charged.
pub proof fn cpu_fails_closed(q: FlowQuota, cost: i64)
    requires
        q.cpu_budget >= 0,
    ensures
        cpu_charged(q, cost).cpu_budget >= 0 || q.cpu_budget - cost > i64::MAX,
        q.cpu_budget < cost ==> cpu_charged(q, cost) == q,
{
}

impl FlowQuota {
    pub fn from_config(cfg: QuotaConfig, now: u64) -> (r: Self)
        ensures
            r == fresh_quota(cfg, now),
    {
        FlowQuota {
            cpu_budget: cfg.cpu_budget,
            mem_limit: cfg.mem_limit,
            mem_used: 0,
            spawn_bucket: TokenBucket::new(cfg.spawn_burst, cfg.spawn_per_sec, now),
            send_bucket: TokenBucket::new(cfg.send_burst, cfg.send_per_sec, now),
        }
    }

    pub fn new(
        cpu_budget: i64,
        mem_limit: usize,
        spawn_burst: i64,
        spawn_per_sec: i64,
        send_burst: i64,
        send_per_sec: i64,
        now: u64,
    ) -> (r: Self)
        ensures
            r == fresh_quota(
                QuotaConfig {
                    cpu_budget,
                    mem_limit,
                    spawn_burst,
                    spawn_per_sec,
                    send_burst,
                    send_per_sec,
                },
                now,
            ),
    {
        FlowQuota::from_config(
            QuotaConfig {
                cpu_budget,
                mem_limit,
                spawn_burst,
                spawn_per_sec,
                send_burst,
                send_per_sec,
            },
            now,
        )
    }

    pub fn remaining_cpu(&self) -> (r: i64)
        ensures
            r == (if self.cpu_budget > 0 {
                self.cpu_budget
            } else {
                0
            }),
    {
        if self.cpu_budget > 0 {
            self.cpu_budget
        } else {
            0
        }
    }

    /// Charge instructions.
    pub fn charge_cpu(&mut self, cost: i64) -> (r: Result<(), QuotaError>)
        requires
            i64::MIN <= old(self).cpu_budget - cost <= i64::MAX,
        ensures
            r == (if old(self).cpu_budget < cost {
                Err::<(), QuotaError>(QuotaError::CpuExhausted)
            } else {
                Ok(())
            }),
            *final(self) == cpu_charged(*old(self), cost),
    {
        let remaining: i64 = self.cpu_budget - cost;
        if remaining < 0 {
            return Err(QuotaError::CpuExhausted);
        }
        self.cpu_budget = remaining;
        Ok(())
    }

    /// Charge heap bytes.
    pub fn allocate(&mut self, bytes: usize) -> (r: Result<(), QuotaError>)
        ensures
            r == alloc_result(*old(self), bytes),
            *final(self) == allocated(*old(self), bytes),
    {
        let next: usize = self.mem_used.saturating_add(bytes);
        if next > self.mem_limit {
            return Err(QuotaError::MemoryExhausted { requested: bytes, limit: self.mem_limit });
        }
        self.mem_used = next;
        Ok(())
    }

    /// Give heap bytes back.
    pub fn free(&mut self, bytes: usize)
        ensures
            *final(self) == freed(*old(self), bytes),
    {
        self.mem_used = self.mem_used.saturating_sub(bytes);
    }

    /// Take a spawn token.
    pub fn check_spawn(&mut self, now: u64) -> (r: Result<(), QuotaError>)
        ensures
            r == (if refilled(old(self).spawn_bucket, now).tokens > 0 {
                Ok::<(), QuotaError>(())
            } else {
                Err(QuotaError::SpawnRateExceeded)
            }),
            *final(self) == (FlowQuota {
                spawn_bucket: consumed(old(self).spawn_bucket, now),
                ..*old(self)
            }),
    {
        if self.spawn_bucket.try_consume(now) {
            Ok(())
        } else {
            Err(QuotaError::SpawnRateExceeded)
        }
    }

    /// Take a send token.
    pub fn check_send(&mut self, now: u64) -> (r: Result<(), QuotaError>)
        ensures
            r == (if refilled(old(self).send_bucket, now).tokens > 0 {
                Ok::<(), QuotaError>(())
            } else {
                Err(QuotaError::SendRateExceeded)
            }),
            *final(self) == (FlowQuota {
                send_bucket: consumed(old(self).send_bucket, now),
                ..*old(self)
            }),
    {
        if self.send_bucket.try_consume(now) {
            Ok(())
        } else {
            Err(QuotaError::SendRateExceeded)
        }
    }

    /// Raise the cpu budget.
    pub fn top_up_cpu(&mut self, extra: i64)
        ensures
            *final(self) == (FlowQuota {
                cpu_budget: old(self).cpu_budget.wrapping_add(extra),
                ..*old(self)
            }),
    {
        self.cpu_budget = self.cpu_budget.wrapping_add(extra);
    }

    /// Raise the memory limit.
    pub fn top_up_mem(&mut self, extra: usize)
        ensures
            *final(self) == (FlowQuota {
                mem_limit: old(self).mem_limit.wrapping_add(extra),
                ..*old(self)
            }),
    {
        self.mem_limit = self.mem_limit.wrapping_add(extra);
    }

    /// Add send tokens.
    pub fn top_up_send(&mut self, extra: i64)
        ensures
            *final(self) == (FlowQuota {
                send_bucket: if extra <= 0 {
                    old(self).send_bucket
                } else {
                    TokenBucket {
                        tokens: old(self).send_bucket.tokens.wrapping_add(extra),
                        ..old(self).send_bucket
                    }
                },
                ..*old(self)
            }),
    {
        self.send_bucket.credit(extra);
    }

    /// Raise one of the budgets.
    pub fn top_up(&mut self, t: TopUp)
        ensures
            *final(self) == raised(*old(self), t),
    {
        match t {
            TopUp::Cpu(n) => self.top_up_cpu(n),
            TopUp::Mem(n) => self.top_up_mem(n),
            TopUp::Send(n) => self.top_up_send(n),
        }
    }

    pub fn mem_used(&self) -> (r: usize)
        ensures
            r == self.mem_used,
    {
        self.mem_used
    }
}

/// A raise of one of the budgets of a flow.
#[derive(Clone, Copy, Debug, PartialEq, Eq, Structural)]
pub enum TopUp {
    Cpu(i64),
    Mem(usize),
    Send(i64),
}

/// The quota after a raise.
pub open spec fn raised(q: FlowQuota, t: TopUp) -> FlowQuota {
    match t {
        TopUp::Cpu(n) => FlowQuota { cpu_budget: q.cpu_budget.wrapping_add(n), ..q },
        TopUp::Mem(n) => FlowQuota { mem_limit: q.mem_limit.wrapping_add(n), ..q },
        TopUp::Send(n) => if n <= 0 {
            q
        } else {
            FlowQuota {
                send_bucket: TokenBucket {
                    tokens: q.send_bucket.tokens.wrapping_add(n),
                    ..q.send_bucket
                },
                ..q
            }
        },
    }
}

/// The quota of flow `id` after the raises among `due` that are meant for it.
pub open spec fn topped_up(q: FlowQuota, due: Seq<(FlowId, TopUp)>, id: FlowId) -> FlowQuota
    decreases due.len(),
{
    if due.len() == 0 {
        q
    } else {
        let r = topped_up(q, due.drop_last(), id);
        if due.last().0 == id {
            raised(r, due.last().1)
        } else {
            r
        }
    }
}

/// The raises that are not meant for flow `id`.
pub open spec fn others_due(due: Seq<(FlowId, TopUp)>, id: FlowId) -> Seq<(FlowId, TopUp)>
    decreases due.len(),
{
    if due.len() == 0 {
        due
    } else if due.last().0 == id {
        others_due(due.drop_last(), id)
    } else {
        others_due(due.drop_last(), id).push(due.last())
    }
}

/// A flow that got its raises has none due.
pub proof fn raises_are_given_once(q: FlowQuota, due: Seq<(FlowId, TopUp)>, id: FlowId)
    ensures
        topped_up(q, others_due(due, id), id) == q,
    decreases due.len(),
{
    if due.len() > 0 {
        raises_are_given_once(q, due.drop_last(), id);
        if due.last().0 != id {
            let rest = others_due(due.drop_last(), id);
            assert(rest.push(due.last()).drop_last() =~= rest);
        }
    }
}

/// Give flow `id` the raises that are meant for it.
pub(crate) fn give_raises(due: &mut Vec<(FlowId, TopUp)>, id: FlowId, quota: &mut FlowQuota)
    ensures
        *final(quota) == topped_up(*old(quota), old(due)@, id),
        final(due)@ == others_due(old(due)@, id),
{
    let ghost all = due@;
    let ghost q = *quota;
    let mut left: Vec<(FlowId, TopUp)> = Vec::new();
    let mut i: usize = 0;
    assert(all.take(0) =~= Seq::empty());
    while i < due.len()
        invariant
            due@ == all,
            i <= due@.len(),
            *quota == topped_up(q, all.take(i as int), id),
            left@ == others_due(all.take(i as int), id),
        decreases due@.len() - i,
    {
        assert(all.take(i + 1).drop_last() =~= all.take(i as int));
        let (flow, t) = due[i];
        if flow == id {
            quota.top_up(t);
        } else {
            left.push((flow, t));
        }
        i += 1;
    }
    assert(all.take(i as int) =~= all);
    *due = left;
}

/// Forget the raises that are meant for flow `id`.
pub(crate) fn drop_raises(due: &mut Vec<(FlowId, TopUp)>, id: FlowId)
    ensures
        final(due)@ == others_due(old(due)@, id),
{
    let ghost all = due@;
    let mut left: Vec<(FlowId, TopUp)> = Vec::new();
    let mut i: usize = 0;
    assert(all.take(0) =~= Seq::empty());
    while i < due.len()
        invariant
            due@ == all,
            i <= due@.len(),
            left@ == others_due(all.take(i as int), id),
        decreases due@.len() - i,
    {
        assert(all.take(i + 1).drop_last() =~= all.take(i as int));
        let (flow, t) = due[i];
        if flow != id {
            left.push((flow, t));
        }
        i += 1;
    }
    assert(all.take(i as int) =~= all);
    *due = left;
}

/// The quotas of the live flows.
pub struct QuotaTable {
    pub inner: IdMap<FlowQuota>,
}

impl View for QuotaTable {
    type V = Map<u128, FlowQuota>;

    open spec fn view(&self) -> Map<u128, FlowQuota> {
        self.inner@
    }
}

impl QuotaTable {
    pub fn new() -> (r: Self)
        ensures
            r@ == Map::<u128, FlowQuota>::empty(),
    {
        QuotaTable { inner: IdMap::new() }
    }

    pub fn insert(&mut self, id: FlowId, quota: FlowQuota)
        ensures
            final(self)@ == old(self)@.insert(id.raw as u128, quota),
    {
        let _ = self.inner.insert(id.raw as u128, quota);
    }

    pub fn get(&self, id: FlowId) -> (r: Option<FlowQuota>)
        ensures
            r == (if self@.contains_key(id.raw as u128) {
                Some(self@[id.raw as u128])
            } else {
                None
            }),
    {
        match self.inner.get(id.raw as u128) {
            Some(q) => Some(*q),
            None => None,
        }
    }

    pub fn remove(&mut self, id: FlowId) -> (r: Option<FlowQuota>)
        ensures
            r == (if old(self)@.contains_key(id.raw as u128) {
                Some(old(self)@[id.raw as u128])
            } else {
                None
            }),
            final(self)@ == old(self)@.remove(id.raw as u128),
    {
        self.inner.remove(id.raw as u128)
    }
}

impl Default for QuotaTable {
    fn default() -> (r: Self)
        ensures
            r@ == Map::<u128, FlowQuota>::empty(),
    {
        QuotaTable::new()
    }
}

} // verus!
