use byteflow::bytecode::value::{Message, Value};
use byteflow::scheduler::mailbox::config::{
    MailboxBytes, MailboxCapacity, MailboxConfig, OverflowPolicy, MIN_MAILBOX_BYTES,
};
use byteflow::scheduler::mailbox::queue::{
    EnqueueEffect, MailboxFullReason, MailboxQueue, WaitFilter,
};
use byteflow::scheduler::mailbox::{AdmitSender, Delivery, Mailbox, ParkSender, WaitEpoch};
use byteflow::scheduler::process::FlowId;

/// Byte budget large enough that hop-count tests never trip it.
const ROOMY: usize = 1 << 20;

fn dummy_flow() -> FlowId {
    FlowId { raw: 77 }
}

fn hop_payload_int(msg: &Message) -> i64 {
    msg.payload.as_int().unwrap_or(0)
}

fn hop(sender: u64, request_id: u64, tag: u16, payload: i64) -> Value {
    Value::Message(Message::new(sender, request_id, tag, Value::Int(payload)))
}

fn msg(tag: u16, payload: i64) -> Value {
    hop(1, 1, tag, payload)
}

fn tiny_reject(n: u32) -> Mailbox {
    let cap = MailboxCapacity::new(n).unwrap();
    Mailbox::with_config(MailboxConfig::new(cap, OverflowPolicy::Reject))
}

fn hop_msg(value: &Value) -> &Message {
    value.as_message().expect("expected Message hop")
}

#[test]
fn try_pop_match_skips_non_matching_fifo() {
    let mut mb = Mailbox::new();
    mb.push(msg(9, 1)).unwrap();
    mb.push(msg(1, 42)).unwrap();
    mb.push(msg(9, 2)).unwrap();
    let got = mb.try_pop_match(1).expect("match");
    assert_eq!(hop_payload_int(hop_msg(&got)), 42);
    assert_eq!(hop_msg(&mb.try_pop().expect("first leftover")).tag, 9);
    assert_eq!(
        hop_payload_int(hop_msg(&mb.try_pop().expect("second leftover"))),
        2
    );
}

#[test]
fn push_while_park_match_queues_junk_keeps_waiter() {
    let mut mb = Mailbox::new();
    assert!(mb.park_match(dummy_flow(), 1).is_ok());
    assert!(matches!(mb.push(msg(9, 0)).unwrap(), Delivery::Queued));
    assert!(matches!(mb.push(msg(1, 7)).unwrap(), Delivery::Handoff(_)));
    assert_eq!(hop_msg(&mb.try_pop().expect("queued junk")).tag, 9);
}

#[test]
fn ask_does_not_consume_reply_for_another_request() {
    let mut mb = Mailbox::new();
    mb.push(hop(10, 2, 2, 99)).unwrap();
    mb.push(hop(10, 1, 2, 42)).unwrap();
    let filter = WaitFilter::Correlation { expect_request_id: 1, expect_sender: Some(10) };
    let got = mb.try_pop_filter(filter).expect("id=1");
    assert_eq!(hop_payload_int(hop_msg(&got)), 42);
    let left = mb.try_pop().expect("leftover");
    assert_eq!(hop_msg(&left).request_id, 2);
}

#[test]
fn tagged_correlation_skips_wrong_id_and_tag() {
    let mut mb = Mailbox::new();
    mb.push(hop(10, 1, 1, 7)).unwrap();
    mb.push(hop(10, 2, 2, 9)).unwrap();
    mb.push(hop(10, 1, 2, 42)).unwrap();
    assert!(mb
        .try_pop_filter(WaitFilter::TaggedCorrelation { tag: 99, expect_request_id: 1 })
        .is_none());
    let got = mb
        .try_pop_filter(WaitFilter::TaggedCorrelation { tag: 2, expect_request_id: 1 })
        .expect("tag=2 id=1");
    assert_eq!(hop_payload_int(hop_msg(&got)), 42);
}

#[test]
fn ask_requires_reply_from_target() {
    let mut mb = Mailbox::new();
    let filter = WaitFilter::Correlation { expect_request_id: 1, expect_sender: Some(10) };
    assert!(mb.park_filter(dummy_flow(), filter).is_ok());
    assert!(matches!(mb.push(hop(99, 1, 2, 0)).unwrap(), Delivery::Queued));
    assert!(matches!(mb.push(hop(10, 1, 2, 42)).unwrap(), Delivery::Handoff(_)));
    assert_eq!(hop_msg(&mb.try_pop().expect("non-matching queued")).sender, 99);
}

#[test]
fn reject_when_full_without_waiter() {
    let mut mb = tiny_reject(1);
    assert!(matches!(mb.push(msg(1, 1)).unwrap(), Delivery::Queued));
    match mb.push(msg(1, 2)) {
        Err(full) => assert_eq!(full.reason(), MailboxFullReason::MessageLimit),
        Ok(_) => panic!("expected the hop count bound to refuse"),
    }
    let s = mb.stats();
    assert_eq!(s.enqueued, 1);
    assert_eq!(s.rejected, 1);
    assert_eq!(s.rejected_byte_limit, 0);
    assert_eq!(s.queued_messages, 1);
}

/// Park `flow`, requiring that it actually parked, and hand back the epoch.
fn park_now(mb: &mut Mailbox, flow: FlowId) -> WaitEpoch {
    match mb.park(flow) {
        Ok(epoch) => epoch,
        Err(_) => panic!("an empty mailbox should have parked the flow"),
    }
}

fn handoff(mb: &mut Mailbox, value: Value) -> FlowId {
    match mb.push(value).unwrap() {
        Delivery::Handoff(flow) => flow,
        other => panic!("expected a handoff, got {other:?}"),
    }
}

#[test]
fn a_stale_deadline_cannot_steal_a_later_wait() {
    let mut mb = Mailbox::new();
    let first = park_now(&mut mb, dummy_flow());
    // A hop beats the deadline: the handoff ends this wait.
    let woken = handoff(&mut mb, msg(1, 1));
    // The same flow parks again on a fresh receive.
    let second = park_now(&mut mb, woken);
    assert_ne!(first, second, "each park must get its own epoch");

    // The deadline armed for the first wait fires late.
    assert!(mb.take_parked_at(first).is_none());
    // The live wait is untouched, so its own deadline still works.
    assert!(mb.take_parked_at(second).is_some());
}

#[test]
fn a_stale_deadline_does_not_downgrade_a_selective_waiter() {
    let mut mb = Mailbox::new();
    let first = park_now(&mut mb, dummy_flow());
    let woken = handoff(&mut mb, msg(1, 1));
    // The second wait is selective: only tag 7 may wake it.
    let second = match mb.park_match(woken, 7) {
        Ok(epoch) => epoch,
        Err(_) => panic!("empty mailbox should have parked the flow"),
    };
    assert_ne!(first, second);

    assert!(mb.take_parked_at(first).is_none());
    // The filter survives the stale call: a tag-9 hop is queued.
    assert!(matches!(mb.push(msg(9, 0)).unwrap(), Delivery::Queued));
    // And tag 7 still wakes it.
    assert!(matches!(mb.push(msg(7, 0)).unwrap(), Delivery::Handoff(_)));
}

#[test]
fn a_deadline_for_a_wait_that_a_hop_ended_does_nothing() {
    let mut mb = Mailbox::new();
    let epoch = park_now(&mut mb, dummy_flow());
    let _woken = handoff(&mut mb, msg(1, 1));
    // Nobody is parked now.
    assert!(mb.take_parked_at(epoch).is_none());
}

fn small_budget() -> Mailbox {
    let cap = MailboxCapacity::new(64).unwrap();
    let budget = MailboxBytes::new(MIN_MAILBOX_BYTES).unwrap();
    Mailbox::with_config(MailboxConfig::new(cap, OverflowPolicy::Reject).with_bytes(budget))
}

#[test]
fn byte_budget_refuses_before_the_hop_count_and_says_so() {
    // 64 hop slots but a 1 KiB budget: blobs exhaust bytes first.
    let mut mb = small_budget();
    assert!(matches!(
        mb.push(Value::bytes(vec![0u8; 900])).unwrap(),
        Delivery::Queued
    ));
    match mb.push(Value::bytes(vec![0u8; 900])) {
        Err(full) => assert_eq!(full.reason(), MailboxFullReason::ByteLimit),
        Ok(_) => panic!("expected the byte budget to refuse"),
    }
    let s = mb.stats();
    assert_eq!(s.queued_messages, 1);
    assert!(s.queued_bytes >= 900);
    assert_eq!(s.rejected, 1);
    assert_eq!(s.rejected_byte_limit, 1);
}

#[test]
fn draining_a_hop_frees_its_byte_charge() {
    let mut mb = small_budget();
    mb.push(Value::bytes(vec![0u8; 900])).unwrap();
    mb.try_pop().expect("queued blob");
    assert_eq!(mb.stats().queued_bytes, 0);
    assert!(matches!(
        mb.push(Value::bytes(vec![0u8; 900])).unwrap(),
        Delivery::Queued
    ));
}

#[test]
fn matching_handoff_does_not_count_as_full() {
    let mut mb = tiny_reject(1);
    mb.push(msg(9, 0)).unwrap();
    assert!(mb.park_match(dummy_flow(), 1).is_ok());
    assert!(matches!(mb.push(msg(1, 7)).unwrap(), Delivery::Handoff(_)));
    assert_eq!(hop_msg(&mb.try_pop().expect("queued")).tag, 9);
}

#[test]
fn waiting_send_admits_one_after_pop() {
    let mut mb = tiny_reject(1);
    assert!(matches!(mb.push(msg(1, 1)).unwrap(), Delivery::Queued));
    assert!(matches!(
        mb.park_sender(dummy_flow(), msg(1, 2)),
        ParkSender::Parked
    ));
    assert!(mb.try_pop().is_some());
    match mb.admit_waiting_sender() {
        AdmitSender::Woken(_) => {}
        other => panic!("expected admitted sender, got {other:?}"),
    }
    assert_eq!(
        hop_payload_int(hop_msg(&mb.try_pop().expect("second hop"))),
        2
    );
    assert!(matches!(mb.admit_waiting_sender(), AdmitSender::Idle));
}

#[test]
fn close_rejects_late_park_sender() {
    let mut mb = tiny_reject(1);
    let leftover = mb.close();
    assert!(leftover.is_empty());
    match mb.park_sender(dummy_flow(), msg(1, 1)) {
        ParkSender::Closed(_) => {}
        ParkSender::Parked => panic!("closed mailbox must not park a sender"),
        ParkSender::Undeliverable(_) => {
            panic!("closed mailbox should report Closed, not Undeliverable")
        }
    }
}

#[test]
fn close_rejects_late_push() {
    let mut mb = tiny_reject(4);
    let _ = mb.close();
    match mb.push(msg(1, 1)) {
        Err(full) if full.reason() == MailboxFullReason::Closed => {}
        Err(full) => panic!("expected Closed, got {}", full.reason().text()),
        Ok(_) => panic!("closed mailbox must refuse push"),
    }
}

#[test]
fn oversized_hop_is_undeliverable_not_parked() {
    let cap = MailboxCapacity::new(8).unwrap();
    let budget = MailboxBytes::new(MIN_MAILBOX_BYTES).unwrap();
    let mut mb =
        Mailbox::with_config(MailboxConfig::new(cap, OverflowPolicy::Reject).with_bytes(budget));
    let huge = Value::bytes(vec![0u8; MIN_MAILBOX_BYTES + 64]);
    match mb.park_sender(dummy_flow(), huge.clone()) {
        ParkSender::Undeliverable(_) => {}
        ParkSender::Parked => panic!("oversized hop must not park"),
        ParkSender::Closed(_) => panic!("oversized hop must be Undeliverable"),
    }
    mb.push(msg(1, 1)).unwrap();
    mb.try_pop().expect("drain");
    // A hop that can never fit must not wait at the head of the senders.
    match mb.admit_waiting_sender() {
        AdmitSender::Idle => {}
        other => panic!("expected Idle after refusing oversized hop, got {other:?}"),
    }
    let _ = huge;
}

#[test]
fn drop_oldest_still_wakes_on_match() {
    let cap = MailboxCapacity::new(1).unwrap();
    let mut mb = Mailbox::with_config(MailboxConfig::new(cap, OverflowPolicy::DropOldest));
    assert!(mb.park_match(dummy_flow(), 1).is_ok());
    mb.push(msg(9, 1)).unwrap();
    assert!(matches!(mb.push(msg(1, 2)).unwrap(), Delivery::Handoff(_)));
}

#[test]
fn a_message_of_the_system_gets_in_when_the_inbox_is_full() {
    let mut mb = tiny_reject(1);
    mb.push(msg(1, 1)).unwrap();
    assert!(matches!(mb.push_system(msg(2, 2)), Delivery::Queued));
    assert!(mb.try_pop_match(2).is_some());
}

#[test]
fn bounds_below_the_least_are_refused() {
    assert!(MailboxCapacity::new(0).is_none());
    assert!(MailboxBytes::new(MIN_MAILBOX_BYTES - 1).is_none());
    let c = MailboxConfig::default();
    assert_eq!(c.capacity().get(), 256);
    assert_eq!(c.bytes().get(), 1 << 20);
    assert_eq!(c.overflow(), OverflowPolicy::Reject);
}

fn hop_n(n: u64) -> Value {
    Value::Message(Message::new(1, n, 1, Value::from(n)))
}

fn blob(len: usize) -> Value {
    Value::bytes(vec![0u8; len])
}

fn hop_payload(q: &mut MailboxQueue) -> i64 {
    let v = q.take(WaitFilter::Any).expect("queue empty");
    hop_payload_int(v.as_message().expect("expected Message"))
}

#[test]
fn reject_at_limit() {
    let mut q = MailboxQueue::new(2, ROOMY);
    assert_eq!(q.enqueue(hop_n(1), OverflowPolicy::Reject), Ok(EnqueueEffect::Enqueued));
    assert_eq!(q.enqueue(hop_n(2), OverflowPolicy::Reject), Ok(EnqueueEffect::Enqueued));
    assert_eq!(
        q.enqueue(hop_n(3), OverflowPolicy::Reject),
        Err(MailboxFullReason::MessageLimit)
    );
    assert_eq!(q.len(), 2);
}

#[test]
fn drop_newest_keeps_old() {
    let mut q = MailboxQueue::new(1, ROOMY);
    let _ = q.enqueue(hop_n(1), OverflowPolicy::DropNewest);
    assert_eq!(
        q.enqueue(hop_n(2), OverflowPolicy::DropNewest),
        Ok(EnqueueEffect::DroppedNewest)
    );
    assert_eq!(hop_payload(&mut q), 1);
}

#[test]
fn drop_oldest_slides() {
    let mut q = MailboxQueue::new(2, ROOMY);
    let _ = q.enqueue(hop_n(1), OverflowPolicy::DropOldest);
    let _ = q.enqueue(hop_n(2), OverflowPolicy::DropOldest);
    assert_eq!(
        q.enqueue(hop_n(3), OverflowPolicy::DropOldest),
        Ok(EnqueueEffect::DroppedOldest)
    );
    assert_eq!(hop_payload(&mut q), 2);
    assert_eq!(hop_payload(&mut q), 3);
}

#[test]
fn byte_limit_rejects_long_before_the_hop_count() {
    // 64 hop slots, but only room for about one 3 KiB blob.
    let mut q = MailboxQueue::new(64, 4096);
    assert_eq!(q.enqueue(blob(3000), OverflowPolicy::Reject), Ok(EnqueueEffect::Enqueued));
    assert_eq!(
        q.enqueue(blob(3000), OverflowPolicy::Reject),
        Err(MailboxFullReason::ByteLimit)
    );
    assert_eq!(q.len(), 1);
}

#[test]
fn take_refunds_the_charge() {
    let mut q = MailboxQueue::new(64, 4096);
    let _ = q.enqueue(blob(3000), OverflowPolicy::Reject);
    assert!(q.bytes() >= 3000);
    assert!(q.take(WaitFilter::Any).is_some());
    assert_eq!(q.bytes(), 0);
    assert_eq!(q.enqueue(blob(3000), OverflowPolicy::Reject), Ok(EnqueueEffect::Enqueued));
}

#[test]
fn selective_take_refunds_the_right_charge() {
    let mut q = MailboxQueue::new(64, ROOMY);
    let first = hop_n(1);
    let first_cost = first.memory_size();
    let _ = q.enqueue(first, OverflowPolicy::Reject);
    let _ = q.enqueue(blob(3000), OverflowPolicy::Reject);
    let _ = q.enqueue(hop_n(2), OverflowPolicy::Reject);
    let charged = q.bytes();
    // Tag 1 matches the messages, never the blob.
    assert!(q.take(WaitFilter::Tag(1)).is_some());
    assert_eq!(q.bytes(), charged - first_cost);
    assert_eq!(q.len(), 2);
}

#[test]
fn hop_larger_than_the_whole_budget_is_refused_even_by_drop_oldest() {
    let mut q = MailboxQueue::new(64, 2048);
    let _ = q.enqueue(hop_n(1), OverflowPolicy::DropOldest);
    assert_eq!(
        q.enqueue(blob(4000), OverflowPolicy::DropOldest),
        Err(MailboxFullReason::ByteLimit)
    );
}

#[test]
fn force_push_evicts_oldest_to_protect_the_budget() {
    let mut q = MailboxQueue::new(8, 4096);
    for n in 0..3 {
        assert_eq!(
            q.enqueue(blob(1000), OverflowPolicy::Reject),
            Ok(EnqueueEffect::Enqueued),
            "blob {n} should fit"
        );
    }
    q.force_push(blob(3000));
    assert!(q.bytes() <= 4096 + 3000);
    assert!(q.len() <= 2);
}

#[test]
fn drop_oldest_evicts_as_many_as_the_byte_budget_needs() {
    let mut q = MailboxQueue::new(64, 4096);
    for n in 0..3 {
        assert_eq!(
            q.enqueue(blob(1000), OverflowPolicy::DropOldest),
            Ok(EnqueueEffect::Enqueued),
            "blob {n} should fit"
        );
    }
    // A 3 KiB blob needs two of the three 1 KiB blobs evicted.
    assert_eq!(
        q.enqueue(blob(3000), OverflowPolicy::DropOldest),
        Ok(EnqueueEffect::DroppedOldest)
    );
    assert!(q.bytes() <= 4096);
}

#[test]
fn payload_kind_filter_skips_non_matching() {
    let mut q = MailboxQueue::new(8, ROOMY);
    let _ = q.enqueue(
        Value::Message(Message::new(1, 1, 1, Value::Int(1))),
        OverflowPolicy::Reject,
    );
    let _ = q.enqueue(
        Value::Message(Message::new(1, 2, 1, Value::str("hi"))),
        OverflowPolicy::Reject,
    );
    // 7 is the wire tag of text.
    let got = q.take(WaitFilter::PayloadKind(7));
    assert!(matches!(
        got.as_ref().and_then(|v| v.as_message()),
        Some(m) if m.payload.as_str() == Some("hi")
    ));
    assert_eq!(q.len(), 1);
}
