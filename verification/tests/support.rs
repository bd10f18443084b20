use byteflow::bytecode::cap::CapId;
use byteflow::bytecode::value::{Message, Value};
use byteflow::entropy::{fill_bytes, place_word};
use byteflow::idmap::IdMap;
use byteflow::memory::{HeapBytes, HeapStr, MemoryBudget, MemoryError};
use byteflow::natives::{clock_value, std_native_map, std_native_table, std_natives};
use byteflow::prng::XorShift64;
use byteflow::vm::fault::{Fault, NativeFailure};
use byteflow::vm::native::{expect_bool, expect_int, NativeFn};

#[test]
fn fill_bytes_varies() {
    let mut a = vec![0u8; 16];
    let mut b = vec![0u8; 16];
    let _ = fill_bytes(&mut a);
    let _ = fill_bytes(&mut b);
    // Astronomically unlikely to collide for two fresh draws.
    assert_ne!(a, b);
}

#[test]
fn string_drop_releases_memory() {
    let mut budget = MemoryBudget::new(1024);

    let value = match HeapStr::new(&mut budget, "hello".to_owned()) {
        Ok(v) => v,
        Err(e) => panic!("unexpected: {}", e.text()),
    };
    assert_eq!(budget.used(), value.capacity());
    value.release(&mut budget);

    assert_eq!(budget.used(), 0);
}

#[test]
fn bytes_drop_releases_memory() {
    let mut budget = MemoryBudget::new(1024);

    let value = match HeapBytes::new(&mut budget, vec![1; 128]) {
        Ok(v) => v,
        Err(e) => panic!("unexpected: {}", e.text()),
    };
    assert_eq!(budget.used(), value.capacity());
    assert!(value.capacity() >= 128);
    value.release(&mut budget);

    assert_eq!(budget.used(), 0);
}

#[test]
fn replacement_does_not_leak() {
    let mut budget = MemoryBudget::new(4096);

    let mut value = match HeapBytes::new(&mut budget, vec![0; 64]) {
        Ok(v) => v,
        Err(e) => panic!("unexpected: {}", e.text()),
    };

    let first = budget.used();

    if let Err(e) = value.replace(&mut budget, vec![0; 512]) {
        panic!("unexpected: {}", e.text());
    }

    assert_eq!(budget.used(), value.capacity());
    assert_ne!(first, budget.used());

    value.release(&mut budget);

    assert_eq!(budget.used(), 0);
}

#[test]
fn failed_replacement_keeps_old_value() {
    let mut budget = MemoryBudget::new(128);

    let mut value = match HeapBytes::new(&mut budget, vec![0; 64]) {
        Ok(v) => v,
        Err(e) => panic!("unexpected: {}", e.text()),
    };

    let old = value.as_slice().to_vec();
    let old_used = budget.used();

    let result = value.replace(&mut budget, vec![0; 128]);

    assert!(result.is_err());
    assert_eq!(value.as_slice(), old.as_slice());
    assert_eq!(budget.used(), old_used);
}

#[test]
fn try_charge_fails_closed_without_mutating() {
    let mut budget = MemoryBudget::new(10);
    assert!(budget.try_charge(10).is_ok());
    assert_eq!(budget.used(), 10);
    assert!(matches!(
        budget.try_charge(1),
        Err(MemoryError::LimitExceeded { .. })
    ));
    assert_eq!(budget.used(), 10);
}

#[test]
fn a_charge_beyond_every_number_is_an_overflow() {
    let mut budget = MemoryBudget::new(usize::MAX);
    assert!(budget.try_charge(1).is_ok());
    assert!(matches!(budget.try_charge(usize::MAX), Err(MemoryError::ArithmeticOverflow)));
    assert!(budget.try_charge(0).is_ok());
    assert_eq!(budget.snapshot().used, 1);
    budget.release(1);
    assert_eq!(budget.used(), 0);
    assert_eq!(budget.limit(), usize::MAX);
}

#[test]
fn text_of_several_bytes_is_charged_by_its_bytes() {
    let mut budget = MemoryBudget::new(1024);
    let value = HeapStr::new(&mut budget, "olá".to_owned()).unwrap();
    assert_eq!(value.len(), 4);
    assert!(value.capacity() >= 4);
    assert_eq!(value.as_str(), "olá");
    assert!(!value.is_empty());
}

fn index_in(map: &[(String, u32)], name: &str) -> Option<u32> {
    map.iter().find(|(n, _)| n == name).map(|(_, i)| *i)
}

#[test]
fn std_native_map_has_stable_indices() {
    let map = std_native_map();
    assert_eq!(index_in(&map, "print"), Some(0));
    assert_eq!(index_in(&map, "now_ms"), Some(1));
    assert_eq!(index_in(&map, "make_msg"), Some(2));
    assert_eq!(index_in(&map, "msg_payload"), Some(6));
    assert_eq!(index_in(&map, "msg_reply_cap"), Some(7));
}

#[test]
fn std_native_indices_are_stable() {
    let map = std_native_map();
    assert_eq!(index_in(&map, "print"), Some(0));
    assert_eq!(index_in(&map, "now_ms"), Some(1));
    assert_eq!(index_in(&map, "make_msg"), Some(2));
    assert_eq!(index_in(&map, "msg_sender"), Some(3));
    assert_eq!(index_in(&map, "msg_request_id"), Some(4));
    assert_eq!(index_in(&map, "msg_tag"), Some(5));
    assert_eq!(index_in(&map, "msg_payload"), Some(6));
    assert_eq!(index_in(&map, "msg_reply_cap"), Some(7));
}

#[test]
fn std_native_table_matches_map() {
    let (table, map) = std_natives();
    assert_eq!(table.len(), 8);
    for (name, idx) in &map {
        assert_eq!(table.index_of(name), Some(*idx));
    }
}

#[test]
fn now_ms_returns_non_negative_int() {
    let table = std_native_table();
    assert_eq!(table.get(1), Some(NativeFn::Host(1)));
    let millis = std::time::SystemTime::now()
        .duration_since(std::time::UNIX_EPOCH)
        .unwrap()
        .as_millis();
    let value = clock_value(millis).unwrap();
    assert!(matches!(value, Value::Int(ms) if ms >= 0));
}

#[test]
fn a_clock_beyond_the_integers_is_refused() {
    assert_eq!(clock_value(i64::MAX as u128), Ok(Value::Int(i64::MAX)));
    assert_eq!(
        clock_value(i64::MAX as u128 + 1),
        Err(Fault::NativeError(NativeFailure::ClockTooLarge))
    );
}

fn call(index: u32, args: &[Value]) -> Value {
    std_native_table().get(index).unwrap().call(args).unwrap().unwrap()
}

#[test]
fn make_msg_and_unpack_round_trip() {
    let msg = call(2, &[Value::Int(3), Value::Int(7), Value::Int(42)]);
    let expected = Message::new(0, 3, 7, Value::Int(42));
    assert_eq!(msg.as_message(), Some(&expected));
    let args = [msg];
    assert_eq!(call(3, &args), Value::Pid(0));
    assert_eq!(call(4, &args), Value::Int(3));
    assert_eq!(call(5, &args), Value::Int(7));
    assert_eq!(call(6, &args), Value::Int(42));
    assert_eq!(call(7, &args), Value::Cap(CapId::none()));
}

#[test]
fn make_msg_discards_a_claimed_sender() {
    let msg = call(2, &[Value::Int(99), Value::Int(3), Value::Int(7), Value::Int(42)]);
    assert_eq!(msg.as_message(), Some(&Message::new(0, 3, 7, Value::Int(42))));
}

#[test]
fn message_natives_refuse_wrong_arguments() {
    let table = std_native_table();
    let make = table.get(2).unwrap();
    assert_eq!(
        make.call(&[Value::Int(1), Value::Int(70_000), Value::Unit]).unwrap(),
        Err(Fault::NativeError(NativeFailure::TagTooLarge { tag: 70_000 }))
    );
    assert!(matches!(
        make.call(&[Value::Int(1)]).unwrap(),
        Err(Fault::NativeError(NativeFailure::MissingArgument { index: 1, .. }))
    ));
    assert!(matches!(
        make.call(&[Value::Int(-1), Value::Int(1), Value::Unit]).unwrap(),
        Err(Fault::NativeError(NativeFailure::NotUnsigned { index: 0, .. }))
    ));
    assert!(matches!(
        table.get(6).unwrap().call(&[Value::Int(1)]).unwrap(),
        Err(Fault::NativeError(NativeFailure::NotMessage { index: 0, .. }))
    ));
    assert!(table.get(8).is_none());
}

#[test]
fn zero_seed_is_forced_nonzero_and_deterministic() {
    let mut a = XorShift64::new(0);
    let mut b = XorShift64::new(0);
    let x = a.next_u64();
    let y = b.next_u64();
    assert_ne!(x, 0);
    assert_eq!(x, y);
    assert_eq!(a.next_u64(), b.next_u64());
}

#[test]
fn width_helpers_and_fill_are_wired() {
    let mut rng = XorShift64::new(0x71E5_7001);
    let _ = rng.next_u32();
    let _ = rng.next_i64();
    let _ = rng.next_i32();
    assert_eq!(rng.next_u32_inclusive(5, 5), 5);
    let n = rng.next_u32_inclusive(1, 4);
    assert!((1..=4).contains(&n));
    let mut buf = [0u8; 20];
    rng.fill_bytes(&mut buf);
    assert!(buf.iter().any(|&b| b != 0));
}

#[test]
fn the_first_draws_are_the_shifts_of_the_seed() {
    let mut rng = XorShift64::new(1);
    let mut x: u64 = 1;
    for _ in 0..3 {
        x ^= x << 13;
        x ^= x >> 7;
        x ^= x << 17;
        assert_eq!(rng.next_u64(), x);
    }
    let mut a = XorShift64::new(1);
    assert_eq!(a.next_u64(), 0x4082_2041);
    let mut buf = [0u8; 9];
    let mut b = XorShift64::new(1);
    b.fill_bytes(&mut buf);
    assert_eq!(buf[..8], 0x4082_2041u64.to_le_bytes());
}

#[test]
fn an_id_map_keeps_its_keys_in_order() {
    let mut m: IdMap<u8> = IdMap::new();
    assert_eq!(m.insert(9, 1), None);
    assert_eq!(m.insert(3, 2), None);
    assert_eq!(m.insert(9, 4), Some(1));
    assert_eq!(m.keys(), vec![3, 9]);
    assert_eq!(m.get(9), Some(&4));
    assert_eq!(m.remove(3), Some(2));
    assert_eq!(m.remove(3), None);
    assert_eq!(m.len(), 1);
    m.clear();
    assert!(!m.contains(9));
}

#[test]
fn native_arguments_are_checked() {
    let args = [Value::Int(3), Value::Bool(false), Value::Unit];
    assert!(matches!(expect_int(&args, 0, "f"), Ok(3)));
    assert!(matches!(expect_int(&args, 1, "f"), Ok(0)));
    assert!(matches!(
        expect_int(&args, 2, "f"),
        Err(Fault::NativeError(NativeFailure::NotInt { native: "f", index: 2 }))
    ));
    assert!(matches!(
        expect_int(&args, 3, "f"),
        Err(Fault::NativeError(NativeFailure::MissingArgument { native: "f", index: 3 }))
    ));
    assert!(matches!(expect_bool(&args, 0, "f"), Ok(true)));
    assert!(matches!(expect_bool(&args, 1, "f"), Ok(false)));
    assert!(matches!(
        expect_bool(&args, 2, "f"),
        Err(Fault::NativeError(NativeFailure::NotBool { native: "f", index: 2, got: "unit" }))
    ));
}

#[test]
fn a_word_is_placed_as_far_as_it_reaches() {
    let mut buf = vec![9u8; 12];
    place_word(&mut buf, 1, 0x0807_0605_0403_0201);
    assert_eq!(buf, vec![9, 1, 2, 3, 4, 5, 6, 7, 8, 9, 9, 9]);
    place_word(&mut buf, 10, 0x0807_0605_0403_0201);
    assert_eq!(buf, vec![9, 1, 2, 3, 4, 5, 6, 7, 8, 9, 1, 2]);
    let mut none: Vec<u8> = Vec::new();
    assert!(fill_bytes(&mut none).is_ok());
    assert!(none.is_empty());
}

#[test]
fn a_replacement_is_charged_at_its_capacity() {
    let mut budget = MemoryBudget::new(100);
    let mut text = HeapStr::with_capacity(&mut budget, String::from("a"), 30).unwrap();
    text.replace_with_capacity(&mut budget, String::from("bc"), 70).unwrap();
    assert_eq!((text.as_str(), text.capacity(), budget.used()), ("bc", 70, 70));
    let err = text.replace_with_capacity(&mut budget, String::from("d"), 31);
    assert!(err.is_err());
    assert_eq!((text.as_str(), text.capacity(), budget.used()), ("bc", 70, 70));
    let mut bytes = HeapBytes::with_capacity(&mut budget, vec![1], 10).unwrap();
    bytes.replace_with_capacity(&mut budget, vec![2, 3], 20).unwrap();
    assert_eq!((bytes.as_slice(), bytes.capacity(), budget.used()), (&[2u8, 3][..], 20, 90));
}
