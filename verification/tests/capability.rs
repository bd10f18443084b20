use byteflow::bytecode::cap::{
    Cap, CapId, CapIdError, CapRights, CapTarget, NativeMask, RevocationCell,
};
use byteflow::scheduler::capability::{CapError, CapTable};
use byteflow::scheduler::delegate::{exec_delegate, DelegateError};
use byteflow::scheduler::error::RuntimeError;
use byteflow::scheduler::link_admin::{
    check_admin, check_link, check_monitor, AdminError, LinkError,
};
use byteflow::scheduler::process::{next_flow_id, FlowId, FlowIds};
use byteflow::scheduler::quota::FlowQuota;
use byteflow::scheduler::spawn::{exec_spawn_authority, ConfinedSpawnError};

#[test]
fn random_ids_are_not_sequential() {
    let mut ids = FlowIds::new();
    let mut table = CapTable::new();
    let h = next_flow_id(&mut ids);
    let t = next_flow_id(&mut ids);
    let a = table.mint(h, t, CapRights::send()).unwrap();
    let b = table.mint(h, t, CapRights::send()).unwrap();
    assert_ne!(a, b);
    assert!(!a.is_none());
    assert!(matches!(
        table.resolve(CapId::from_raw(1), h, CapRights::send()),
        Err(CapError::Unknown)
    ));
}

#[test]
fn resolve_requires_holder_and_rights() {
    let mut ids = FlowIds::new();
    let mut table = CapTable::new();
    let holder = next_flow_id(&mut ids);
    let other = next_flow_id(&mut ids);
    let target = next_flow_id(&mut ids);
    let cap = table.mint(holder, target, CapRights::send()).unwrap();
    assert_eq!(
        table.resolve(cap, holder, CapRights::send()).unwrap().target(),
        Some(target)
    );
    assert!(matches!(
        table.resolve(cap, other, CapRights::send()),
        Err(CapError::NotHolder)
    ));
    assert!(matches!(
        table.resolve(cap, holder, CapRights::ask()),
        Err(CapError::InsufficientRights)
    ));
}

#[test]
fn capability_isolation_is_per_table() {
    let mut ids = FlowIds::new();
    let mut a = CapTable::new();
    let b = CapTable::new();
    let holder = next_flow_id(&mut ids);
    let target = next_flow_id(&mut ids);
    let cap = a.mint(holder, target, CapRights::send()).unwrap();
    assert!(matches!(
        b.resolve(cap, holder, CapRights::send()),
        Err(CapError::Unknown)
    ));
}

#[test]
fn finalizing_flow_revokes_held_and_targeted_caps() {
    let mut ids = FlowIds::new();
    let mut table = CapTable::new();
    let dead = next_flow_id(&mut ids);
    let alive = next_flow_id(&mut ids);
    let target = next_flow_id(&mut ids);

    let held_by_dead = table.mint(dead, target, CapRights::send()).unwrap();
    let targeting_dead = table.mint(alive, dead, CapRights::send()).unwrap();
    let unrelated = table.mint(alive, target, CapRights::send()).unwrap();

    let removed = table.revoke_flow(dead);
    assert_eq!(removed, 2);
    assert!(matches!(
        table.resolve(held_by_dead, dead, CapRights::send()),
        Err(CapError::Unknown)
    ));
    assert!(matches!(
        table.resolve(targeting_dead, alive, CapRights::send()),
        Err(CapError::Unknown)
    ));
    assert!(table.resolve(unrelated, alive, CapRights::send()).is_ok());
}

#[test]
fn delegate_issues_a_new_id_for_the_child() {
    let mut ids = FlowIds::new();
    let mut table = CapTable::new();
    let parent = next_flow_id(&mut ids);
    let child = next_flow_id(&mut ids);
    let target = next_flow_id(&mut ids);
    let original = table.mint(parent, target, CapRights::send_ask()).unwrap();
    let granted = table.delegate(original, parent, child).unwrap();
    assert_ne!(granted, original);
    assert_eq!(
        table.resolve(granted, child, CapRights::send()).unwrap().target(),
        Some(target)
    );
    assert!(matches!(
        table.resolve(original, child, CapRights::send()),
        Err(CapError::NotHolder)
    ));
    assert!(table.resolve(original, parent, CapRights::ask()).is_ok());
}

#[test]
fn attenuate_cannot_escalate() {
    let mut ids = FlowIds::new();
    let mut table = CapTable::new();
    let parent = next_flow_id(&mut ids);
    let child = next_flow_id(&mut ids);
    let target = next_flow_id(&mut ids);
    let original = table.mint(parent, target, CapRights::send()).unwrap();
    let granted = table
        .attenuate(
            original,
            parent,
            child,
            CapRights::send().union(CapRights::admin()),
            None,
        )
        .unwrap();
    let got = table.resolve(granted, child, CapRights::send()).unwrap();
    assert!(!got.rights().contains(CapRights::admin()));
    assert!(got.rights().contains(CapRights::send()));
}

#[test]
fn mint_or_reuse_is_stable_per_pair() {
    let mut ids = FlowIds::new();
    let mut table = CapTable::new();
    let holder = next_flow_id(&mut ids);
    let target = next_flow_id(&mut ids);
    let first = table.mint_or_reuse(holder, target, CapRights::send()).unwrap();
    for _ in 0..1_000 {
        let again = table.mint_or_reuse(holder, target, CapRights::send()).unwrap();
        assert_eq!(again, first);
    }
    assert_eq!(table.entry_count(), 1);
    assert_eq!(table.reply_index_len(), 1);
    assert!(table.resolve(first, holder, CapRights::send()).is_ok());
}

#[test]
fn mint_or_reuse_distinct_pairs_are_independent() {
    let mut ids = FlowIds::new();
    let mut table = CapTable::new();
    let a = next_flow_id(&mut ids);
    let b = next_flow_id(&mut ids);
    let ab = table.mint_or_reuse(b, a, CapRights::send()).unwrap();
    let ba = table.mint_or_reuse(a, b, CapRights::send()).unwrap();
    assert_ne!(ab, ba);
    assert_eq!(table.entry_count(), 2);
    assert_eq!(table.reply_index_len(), 2);
}

#[test]
fn revoke_flow_clears_reply_index_for_holder_and_target() {
    let mut ids = FlowIds::new();
    let mut table = CapTable::new();
    let a = next_flow_id(&mut ids);
    let b = next_flow_id(&mut ids);
    let alive = next_flow_id(&mut ids);
    let ab = table.mint_or_reuse(b, a, CapRights::send()).unwrap();
    let ba = table.mint_or_reuse(a, b, CapRights::send()).unwrap();
    let kept = table.mint_or_reuse(alive, b, CapRights::send()).unwrap();

    table.revoke_flow(a);
    assert!(!table.reply_index_mentions(a));
    assert!(matches!(
        table.resolve(ab, b, CapRights::send()),
        Err(CapError::Unknown)
    ));
    assert!(matches!(
        table.resolve(ba, a, CapRights::send()),
        Err(CapError::Unknown)
    ));
    assert!(table.resolve(kept, alive, CapRights::send()).is_ok());
    assert!(!table.reply_index_mentions(a));
    assert!(table.reply_index_mentions(b));

    table.revoke_flow(b);
    assert!(!table.reply_index_mentions(a));
    assert!(!table.reply_index_mentions(b));
}

#[test]
fn mint_or_reuse_after_revoke_issues_a_fresh_id() {
    let mut ids = FlowIds::new();
    let mut table = CapTable::new();
    let holder = next_flow_id(&mut ids);
    let target = next_flow_id(&mut ids);
    let old = table.mint_or_reuse(holder, target, CapRights::send()).unwrap();
    table.revoke_flow(target);
    assert!(!table.reply_index_mentions(target));
    let fresh = table.mint_or_reuse(holder, target, CapRights::send()).unwrap();
    assert_ne!(fresh, old);
    assert!(matches!(
        table.resolve(old, holder, CapRights::send()),
        Err(CapError::Unknown)
    ));
    assert!(table.resolve(fresh, holder, CapRights::send()).is_ok());
}

#[test]
fn a_failed_draw_mints_nothing() {
    let mut table = CapTable::new();
    let a = FlowId { raw: 1 };
    let b = FlowId { raw: 2 };
    let refused = Err(RuntimeError::DuplicateFlowId);
    assert!(table.mint_as(a, b, CapRights::send(), refused).is_err());
    assert_eq!(table.entry_count(), 0);
    let token = Ok(CapId::from_raw(77));
    assert_eq!(table.mint_as(a, b, CapRights::send(), token).unwrap(), CapId::from_raw(77));
    assert_eq!(table.lookup(CapId::from_raw(77)).unwrap().holder, a);
    assert!(table.lookup(CapId::from_raw(78)).is_none());
}

#[test]
fn a_reissued_token_keeps_its_rights_for_a_new_holder() {
    let mut table = CapTable::new();
    let a = FlowId { raw: 1 };
    let b = FlowId { raw: 2 };
    let c = FlowId { raw: 3 };
    let cap = table.mint(a, b, CapRights::send_ask()).unwrap();
    let for_c = table.reissue_for(cap, c).unwrap();
    let got = table.resolve(for_c, c, CapRights::ask()).unwrap();
    assert_eq!(got.rights(), CapRights::send_ask());
    assert_eq!(got.target(), Some(b));
    assert!(matches!(
        table.reissue_for(CapId::from_raw(5), c),
        Err(CapError::Unknown)
    ));
}

#[test]
fn cannot_escalate_via_delegate_regardless_of_requested_mask() {
    let cell = RevocationCell::new();
    let src = Cap::root(CapTarget::Flow(1), CapRights::send(), None, &cell);
    let out = match exec_delegate(
        &src,
        &cell,
        CapRights::send().union(CapRights::admin()).union(CapRights::native()),
        None,
    ) {
        Ok(c) => c,
        Err(err) => panic!("delegate of live SEND cap must succeed: {}", err.text()),
    };
    assert!(out.rights.contains(CapRights::send()));
    assert!(!out.rights.contains(CapRights::admin()));
    assert!(!out.rights.contains(CapRights::native()));
    assert!(out.rights.is_subset_of(src.rights));
}

#[test]
fn rights_result_is_always_intersection() {
    let cell = RevocationCell::new();
    for src_bits in 0u32..=255 {
        for want_bits in 0u32..=255 {
            let src = Cap::root(CapTarget::Flow(1), CapRights::from_bits(src_bits), None, &cell);
            let out = match exec_delegate(&src, &cell, CapRights::from_bits(want_bits), None) {
                Ok(c) => c,
                Err(err) => panic!("live cap must delegate: {}", err.text()),
            };
            assert_eq!(out.rights.bits(), src_bits & want_bits);
            assert!(out.rights.is_subset_of(src.rights));
        }
    }
}

#[test]
fn native_mask_can_only_be_narrowed() {
    let cell = RevocationCell::new();
    let src_mask = NativeMask::from_indices(64, &[1, 3, 5, 7]);
    let requested = NativeMask::from_indices(64, &[3, 5, 9, 11]);
    let src = Cap::root(
        CapTarget::Flow(1),
        CapRights::native(),
        Some(src_mask.clone()),
        &cell,
    );
    let out = match exec_delegate(&src, &cell, CapRights::native(), Some(&requested)) {
        Ok(cap) => cap,
        Err(err) => panic!("live NATIVE capability should delegate: {}", err.text()),
    };
    let got = out.native_mask.as_ref().expect("native mask present");
    assert!(got.is_subset_of(&src_mask));
    assert!(got.allows(3));
    assert!(got.allows(5));
    assert!(!got.allows(1));
    assert!(!got.allows(9));
    assert!(!got.allows(11));
}

#[test]
fn cannot_delegate_native_from_non_native_source() {
    let cell = RevocationCell::new();
    let src = Cap::root(CapTarget::Flow(1), CapRights::send(), None, &cell);
    let requested = NativeMask::from_indices(32, &[0, 1]);
    assert!(matches!(
        exec_delegate(&src, &cell, CapRights::send(), Some(&requested)),
        Err(DelegateError::SourceLacksNative)
    ));
}

#[test]
fn want_native_none_keeps_source_mask() {
    let cell = RevocationCell::new();
    let src_mask = NativeMask::from_indices(32, &[2, 4]);
    let src = Cap::root(
        CapTarget::Flow(1),
        CapRights::native().union(CapRights::send()),
        Some(src_mask.clone()),
        &cell,
    );
    let out = match exec_delegate(&src, &cell, CapRights::send(), None) {
        Ok(c) => c,
        Err(err) => panic!("{}", err.text()),
    };
    assert!(!out.rights.contains(CapRights::native()));
    let got = out.native_mask.as_ref().expect("mask preserved");
    assert!(got.is_subset_of(&src_mask));
    assert_eq!(got.allows(2), src_mask.allows(2));
    assert_eq!(got.allows(4), src_mask.allows(4));
}

#[test]
fn delegated_cap_shares_revocation_cell_epoch() {
    let mut cell = RevocationCell::new();
    let src = Cap::root(
        CapTarget::Flow(1),
        CapRights::send().union(CapRights::native()),
        Some(NativeMask::from_indices(8, &[0])),
        &cell,
    );
    let child = match exec_delegate(&src, &cell, CapRights::send(), None) {
        Ok(c) => c,
        Err(err) => panic!("{}", err.text()),
    };
    assert_eq!(child.epoch(), src.epoch());
    assert!(child.is_valid(&cell));
    cell.revoke();
    assert!(!src.is_valid(&cell));
    assert!(!child.is_valid(&cell));
}

#[test]
fn revoked_source_cannot_delegate() {
    let mut cell = RevocationCell::new();
    let src = Cap::root(CapTarget::Flow(1), CapRights::send(), None, &cell);
    cell.revoke();
    assert!(matches!(
        exec_delegate(&src, &cell, CapRights::send(), None),
        Err(DelegateError::SourceRevoked)
    ));
}

#[test]
fn knowing_flow_id_alone_is_not_enough_to_link() {
    let cell = RevocationCell::new();
    let cap = Cap::root(CapTarget::Flow(1), CapRights::send(), None, &cell);
    assert!(matches!(check_link(&cap, &cell, 1), Err(LinkError::MissingRight)));
    let cap2 = Cap::root(CapTarget::Flow(2), CapRights::link(), None, &cell);
    assert!(matches!(check_link(&cap2, &cell, 1), Err(LinkError::WrongTarget)));
}

#[test]
fn admin_requires_scheduler_target_and_right() {
    let cell = RevocationCell::new();
    let cap = Cap::root(CapTarget::Scheduler, CapRights::admin(), None, &cell);
    assert!(check_admin(&cap, &cell).is_ok());
    let cap2 = Cap::root(CapTarget::Flow(1), CapRights::admin(), None, &cell);
    assert!(matches!(check_admin(&cap2, &cell), Err(AdminError::WrongTarget)));
}

#[test]
fn a_revoked_capability_links_and_administers_nothing() {
    let mut cell = RevocationCell::new();
    let link = Cap::root(CapTarget::Flow(1), CapRights::link(), None, &cell);
    let watch = Cap::root(CapTarget::Flow(1), CapRights::monitor(), None, &cell);
    let admin = Cap::root(CapTarget::Scheduler, CapRights::admin(), None, &cell);
    let weak = Cap::root(CapTarget::Scheduler, CapRights::send(), None, &cell);
    assert!(check_link(&link, &cell, 1).is_ok());
    assert!(check_monitor(&watch, &cell, 1).is_ok());
    assert!(matches!(check_monitor(&link, &cell, 1), Err(LinkError::MissingRight)));
    assert!(matches!(check_admin(&weak, &cell), Err(AdminError::MissingRight)));
    cell.revoke();
    assert!(matches!(check_link(&link, &cell, 1), Err(LinkError::CapRevoked)));
    assert!(matches!(check_admin(&admin, &cell), Err(AdminError::CapRevoked)));
}

#[test]
fn child_cannot_gain_admin() {
    let cell = RevocationCell::new();
    let parent = Cap::root(
        CapTarget::Flow(1),
        CapRights::flow(),
        Some(NativeMask::full(8)),
        &cell,
    );
    let mut quota = FlowQuota::new(1000, 1024, 10, 10, 10, 10, 0);
    let child_cell = RevocationCell::new();
    let out = match exec_spawn_authority(
        &parent,
        &cell,
        &mut quota,
        2,
        CapRights::flow().union(CapRights::admin()),
        None,
        &child_cell,
        0,
    ) {
        Ok(c) => c,
        Err(_) => panic!("spawn authority must succeed"),
    };
    assert!(!out.rights.contains(CapRights::admin()));
    assert!(out.rights.contains(CapRights::native()));
}

#[test]
fn confined_request_yields_none() {
    let cell = RevocationCell::new();
    let parent = Cap::root(CapTarget::Flow(1), CapRights::flow(), None, &cell);
    let mut quota = FlowQuota::new(1000, 1024, 10, 10, 10, 10, 0);
    let child_cell = RevocationCell::new();
    let out = match exec_spawn_authority(
        &parent,
        &cell,
        &mut quota,
        2,
        CapRights::none(),
        None,
        &child_cell,
        0,
    ) {
        Ok(c) => c,
        Err(_) => panic!("confined spawn must succeed"),
    };
    assert_eq!(out.rights, CapRights::none());
}

#[test]
fn spawning_needs_the_right_and_the_rate() {
    let mut cell = RevocationCell::new();
    let child_cell = RevocationCell::new();
    let weak = Cap::root(CapTarget::Flow(1), CapRights::send(), None, &cell);
    let strong = Cap::root(CapTarget::Flow(1), CapRights::flow(), None, &cell);
    let mut quota = FlowQuota::new(1000, 1024, 1, 0, 10, 10, 0);
    let none = CapRights::none();
    assert!(matches!(
        exec_spawn_authority(&weak, &cell, &mut quota, 2, none, None, &child_cell, 0),
        Err(ConfinedSpawnError::MissingSpawnRight)
    ));
    assert!(exec_spawn_authority(&strong, &cell, &mut quota, 2, none, None, &child_cell, 0).is_ok());
    assert!(matches!(
        exec_spawn_authority(&strong, &cell, &mut quota, 3, none, None, &child_cell, 0),
        Err(ConfinedSpawnError::RateLimited)
    ));
    cell.revoke();
    assert!(matches!(
        exec_spawn_authority(&strong, &cell, &mut quota, 4, none, None, &child_cell, 0),
        Err(ConfinedSpawnError::SourceCapRevoked)
    ));
}

#[test]
fn an_intersection_is_as_long_as_the_shorter_mask() {
    let a = NativeMask::from_indices(128, &[1, 3, 70]);
    let b = NativeMask::from_indices(64, &[3, 5]);
    let both = a.intersect(&b);
    assert_eq!(both.word_len(), 1);
    assert!(both == NativeMask::from_indices(64, &[3]));
    assert!(both != NativeMask::from_indices(128, &[3]));
}

#[test]
fn attenuating_twice_is_attenuating_once() {
    let cell = RevocationCell::new();
    let mask = NativeMask::from_indices(64, &[1, 3, 5, 7]);
    let want = NativeMask::from_indices(64, &[3, 5, 9]);
    let root = Cap::root(CapTarget::Flow(1), CapRights::native(), Some(mask), &cell);
    let once = root.attenuate(CapRights::native(), Some(&want));
    let twice = once.attenuate(CapRights::native(), Some(&want));
    assert!(once == twice);
    assert!(once != root);
    let a = CapRights::send();
    let b = CapRights::native();
    let stepwise = root.attenuate(a, None).attenuate(b, None);
    assert!(stepwise == root.attenuate(a.intersect(b), None));
}

#[test]
fn a_reply_address_lasts_until_a_flow_is_revoked() {
    let mut ids = FlowIds::new();
    let mut table = CapTable::new();
    let h = next_flow_id(&mut ids);
    let t = next_flow_id(&mut ids);
    let other = next_flow_id(&mut ids);
    let first = table.mint_or_reuse(h, t, CapRights::send()).unwrap();
    let elsewhere = table.mint_or_reuse(t, h, CapRights::send()).unwrap();
    assert_ne!(first, elsewhere);
    let loose = table.mint(h, t, CapRights::send()).unwrap();
    table.delegate(loose, h, other).unwrap();
    table.revoke_flow(other);
    let count = table.entry_count();
    assert_eq!(table.mint_or_reuse(h, t, CapRights::send()).unwrap(), first);
    assert_eq!(table.entry_count(), count);
    table.revoke_flow(t);
    let fresh = table.mint_or_reuse(h, t, CapRights::send()).unwrap();
    assert!(table.resolve(fresh, h, CapRights::send()).is_ok());
    if fresh != first {
        assert!(matches!(table.resolve(first, h, CapRights::send()), Err(CapError::Unknown)));
    }
}

#[test]
fn a_token_is_the_first_draw_that_can_be_used() {
    let mut table = CapTable::new();
    let cap = || {
        Cap::root(CapTarget::Flow(2), CapRights::send(), None, &RevocationCell::new())
    };
    let used = table.grant_as(FlowId { raw: 1 }, cap(), Ok(CapId::from_raw(7))).unwrap();
    assert_eq!(used, CapId::from_raw(7));
    assert!(matches!(
        table.grant_as(FlowId { raw: 1 }, cap(), Err(RuntimeError::CapIdCollision)),
        Err(RuntimeError::CapIdCollision)
    ));
    assert_eq!(table.entry_count(), 1);
    let drawn = table.grant(FlowId { raw: 1 }, cap()).unwrap();
    assert_eq!(table.lookup(drawn).unwrap().holder, FlowId { raw: 1 });
    assert_eq!(table.entry_count(), 2);

    let none = Ok(CapId::none());
    let fresh = Ok(CapId::from_raw(9));
    assert_eq!(table.draw_from(&[none, Ok(used), fresh]), Ok(CapId::from_raw(9)));
    assert!(matches!(
        table.draw_from(&[Ok(used), Err(CapIdError::Entropy), fresh]),
        Err(RuntimeError::EntropyFailed)
    ));
    let mut many = vec![Ok(used); 32];
    assert!(matches!(table.draw_from(&many), Err(RuntimeError::CapIdCollision)));
    many[31] = fresh;
    assert_eq!(table.draw_from(&many), Ok(CapId::from_raw(9)));
    many[31] = Ok(used);
    many.push(fresh);
    assert!(matches!(table.draw_from(&many), Err(RuntimeError::CapIdCollision)));
    assert_eq!(table.judge(fresh), Some(Ok(CapId::from_raw(9))));
    assert_eq!(table.judge(Ok(used)), None);
    assert_eq!(table.judge(none), None);
}

#[test]
fn the_first_of_eight_draws_that_is_not_zero_is_a_token() {
    let zero = vec![0u8; 16];
    let mut five = zero.clone();
    five[0] = 5;
    let draws = vec![zero.clone(), five.clone()];
    assert_eq!(CapId::from_draws(&draws), Ok(CapId::from_raw(5)));
    let mut many = vec![zero; 8];
    assert_eq!(CapId::from_draws(&many), Err(CapIdError::Entropy));
    many.push(five.clone());
    assert_eq!(CapId::from_draws(&many), Err(CapIdError::Entropy));
    many[7] = five;
    assert_eq!(CapId::from_draws(&many), Ok(CapId::from_raw(5)));
}
