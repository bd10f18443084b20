use byteflow::bytecode::cap::CapId;
use byteflow::bytecode::value::{Message, Value, TAG_SYS_DOWN, TAG_SYS_EXIT};

#[test]
fn message_is_truthy_and_round_trips_helpers() {
    let m = Message::new(7, 99, 10, Value::from(1u64));
    let v = Value::Message(m.clone());
    assert!(v.is_truthy());
    assert_eq!(v.as_message(), Some(&m));
    assert_eq!(v.kind_name(), "message");
    assert_eq!(m.payload.as_ref(), &Value::Int(1));
}

#[test]
fn authenticate_stamps_sender_and_reply_cap() {
    let reply = CapId::from_raw(7);
    let m = Message::new(999, 1, 2, Value::from(3u64)).authenticate(42, reply);
    assert_eq!(m.sender, 42);
    assert_eq!(m.reply_cap, reply);
    assert_eq!(m.request_id, 1);
}

#[test]
fn str_payload_is_charged_on_the_hop() {
    let hop = Value::Message(Message::new(1, 1, 1, Value::str("hello")));
    assert!(hop.heap_size() >= 5);
}

#[test]
fn cap_is_truthy() {
    let cap = CapId::from_raw(3);
    assert!(Value::Cap(cap).is_truthy());
    assert_eq!(Value::Cap(cap).as_cap(), Some(cap));
}

#[test]
fn str_and_bytes_helpers() {
    let s = Value::str("hi");
    assert_eq!(s.as_str(), Some("hi"));
    assert_eq!(s.kind_name(), "str");
    assert!(s.is_truthy());
    assert!(!Value::str("").is_truthy());

    let b = Value::bytes(vec![1u8, 2, 3]);
    assert_eq!(b.as_bytes(), Some(&[1, 2, 3][..]));
    assert_eq!(b.kind_name(), "bytes");
    assert!(b.is_truthy());
    assert!(!Value::bytes(vec![]).is_truthy());

    assert_eq!(s.as_bytes(), Some(b"hi".as_slice()));
}

#[test]
fn str_eq_compares_content() {
    assert_eq!(Value::str("a"), Value::from("a".to_owned()));
    assert_ne!(Value::str("a"), Value::str("b"));
    assert_eq!(Value::bytes(vec![9]), Value::from(vec![9u8]));
}

#[test]
fn floats_compare_as_doubles() {
    let f = |x: f64| Value::Float(x.to_bits());
    assert_eq!(f(0.0), f(-0.0));
    assert_ne!(f(f64::NAN), f(f64::NAN));
    assert_eq!(f(1.5), f(1.5));
    assert_ne!(f(1.5), f(-1.5));
    assert!(f(0.0).is_truthy());
}

#[test]
fn values_print_themselves() {
    assert_eq!(Value::Unit.text(""), "()");
    assert_eq!(Value::Bool(true).text(""), "true");
    assert_eq!(Value::Int(-3).text(""), "-3");
    assert_eq!(Value::Float(1.5f64.to_bits()).text("1.5"), "1.5");
    assert_eq!(Value::str("x").text(""), "x");
}

#[test]
fn system_messages_have_reserved_tags() {
    let down = Message::down(4, 9, 3);
    assert_eq!(down.tag, TAG_SYS_DOWN);
    assert!(down.is_down() && !down.is_exit());
    assert_eq!(down.request_id, 4);
    let exit = Message::linked_exit(9, 2);
    assert_eq!(exit.tag, TAG_SYS_EXIT);
    assert!(exit.is_exit() && !exit.is_down());
}

#[test]
fn a_reply_answers_its_request() {
    let req = Message::request(5, 1, Value::Int(2));
    assert_eq!(req.sender, 0);
    let reply = Message::reply_to(&req, 8, Value::Int(3));
    assert_eq!(reply.request_id, 5);
    assert_eq!(reply.tag, 8);
    assert_eq!(reply.with_payload(Value::Int(4)).payload.as_ref(), &Value::Int(4));
}

#[test]
fn each_kind_reads_as_itself_only() {
    assert_eq!(Value::Int(1).as_int(), Some(1));
    assert_eq!(Value::Pid(1).as_pid(), Some(1));
    assert_eq!(Value::Unit.as_int(), None);
    assert_eq!(Value::Int(1).as_cap(), None);
    assert_eq!(Value::Int(1).as_str(), None);
    assert!(Value::Int(1).as_message().is_none());
    assert!(!Value::Unit.is_truthy());
    assert!(!Value::Int(0).is_truthy());
    assert!(!Value::Bool(false).is_truthy());
}
