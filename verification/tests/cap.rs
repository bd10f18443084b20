use byteflow::bytecode::cap::{Cap, CapId, CapRights, CapTarget, NativeMask, RevocationCell};

#[test]
fn none_is_zero_and_random_is_not() {
    assert!(CapId::none().is_none());
    let a = CapId::random().unwrap();
    let b = CapId::random().unwrap();
    assert!(!a.is_none());
    assert!(!b.is_none());
    assert_ne!(a, b);
}

#[test]
fn from_raw_is_crate_internal() {
    assert_eq!(CapId::from_raw(0), CapId::none());
    assert!(!CapId::from_raw(1).is_none());
}

#[test]
fn send_ask_bits_stay_compatible() {
    assert_eq!(CapRights::send().bits(), 0b01);
    assert_eq!(CapRights::ask().bits(), 0b10);
    assert_eq!(CapRights::send_ask().bits(), 0b11);
    assert!(CapRights::admin().bits() > 0b11);
}

#[test]
fn attenuation_never_escalates() {
    let cell = RevocationCell::new();
    let nm = NativeMask::from_indices(128, &[3, 5, 9]);
    let parent = Cap::root(
        CapTarget::Flow(1),
        CapRights::send().union(CapRights::native()),
        Some(nm),
        &cell,
    );

    let child = parent.attenuate(CapRights::send().union(CapRights::admin()), None);
    assert!(!child.rights.contains(CapRights::admin()));
    assert!(child.rights.contains(CapRights::send()));

    let wide = NativeMask::full(128);
    let child2 = parent.attenuate(CapRights::native(), Some(&wide));
    let child_mask = child2.native_mask.as_ref();
    assert!(child_mask.is_some_and(|m| m.allows(3)));
    let parent_mask = parent.native_mask.as_ref();
    assert!(parent_mask.is_some_and(|m| !m.allows(7)));
}

#[test]
fn attenuation_is_subset_for_all_byte_masks() {
    let cell = RevocationCell::new();
    for src in 0u32..=255 {
        for want in 0u32..=255 {
            let parent = Cap::root(CapTarget::Flow(1), CapRights::from_bits(src), None, &cell);
            let child = parent.attenuate(CapRights::from_bits(want), None);
            assert!(
                child.rights.is_subset_of(parent.rights),
                "escalation src={src:#x} want={want:#x} got={:#x}",
                child.rights.bits()
            );
            assert_eq!(child.rights.bits(), src & want);
        }
    }
}

#[test]
fn chained_delegate_never_gains_bits() {
    let cell = RevocationCell::new();
    let mut cap = Cap::root(
        CapTarget::Flow(1),
        CapRights::flow(),
        Some(NativeMask::from_indices(32, &[0, 1, 2])),
        &cell,
    );
    let adversarial = [
        CapRights::admin(),
        CapRights::native().union(CapRights::admin()),
        CapRights::from_bits(u32::MAX),
        CapRights::none(),
        CapRights::flow(),
    ];
    for want in adversarial {
        cap = cap.attenuate(want, Some(&NativeMask::full(32)));
        assert!(cap.rights.is_subset_of(CapRights::flow()));
        assert!(!cap.rights.contains(CapRights::admin()));
        if let Some(mask) = &cap.native_mask {
            assert!(!mask.allows(7));
        }
    }
}

#[test]
fn revocation_kills_all_derived_caps() {
    let mut cell = RevocationCell::new();
    let root = Cap::root(CapTarget::Flow(1), CapRights::send(), None, &cell);
    let child = root.attenuate(CapRights::send(), None);
    assert!(child.is_valid(&cell));
    cell.revoke();
    assert!(!child.is_valid(&cell));
    assert!(!root.is_valid(&cell));
}

#[test]
fn entropy_becomes_a_token_unless_it_is_zero() {
    let mut bytes = [0u8; 16];
    assert!(CapId::from_entropy(&bytes).is_none());
    bytes[0] = 0x2A;
    bytes[15] = 1;
    let id = CapId::from_entropy(&bytes).unwrap();
    assert_eq!(id.as_u128(), (1u128 << 120) + 0x2A);
}

#[test]
fn rights_have_fixed_bits() {
    assert_eq!(CapRights::recv().bits(), 0x04);
    assert_eq!(CapRights::spawn().bits(), 0x08);
    assert_eq!(CapRights::link().bits(), 0x10);
    assert_eq!(CapRights::monitor().bits(), 0x20);
    assert_eq!(CapRights::admin().bits(), 0x40);
    assert_eq!(CapRights::native().bits(), 0x80);
    assert_eq!(CapRights::addressing().bits(), 0x33);
    assert_eq!(CapRights::flow().bits(), 0xBF);
    assert_eq!(CapRights::empty().bits(), 0);
    assert_eq!(CapRights::from_u8(0x81).bits(), 0x81);
    assert_eq!(CapRights::from_bits(0x1FF).bits_u8(), 0xFF);
}

#[test]
fn native_masks_are_bit_sets() {
    let m = NativeMask::from_indices(70, &[0, 63, 64, 69, 500]);
    assert_eq!(m.word_len(), 2);
    assert!(m.allows(0) && m.allows(63) && m.allows(64) && m.allows(69));
    assert!(!m.allows(1) && !m.allows(500));
    let n = m.intersect(&NativeMask::from_indices(70, &[63, 1]));
    assert!(n.allows(63) && !n.allows(0) && !n.allows(1));
    assert!(n.is_subset_of(&m));
    assert!(!m.is_subset_of(&n));
    assert!(!NativeMask::empty(70).allows(0));
    assert!(NativeMask::full(70).allows(69));
    assert!(!NativeMask::full(70).allows(70));
}
