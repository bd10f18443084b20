//! Runtime values and the message envelope.
//!
//! A value is a tagged word. Strings, byte buffers and message payloads are
//! shared, so clones are cheap. Floating-point values are carried as their
//! IEEE-754 bit pattern; their arithmetic and decimal rendering belong to
//! the host.

use std::sync::Arc;

use vstd::prelude::*;

use crate::bytecode::cap::{cap_none, CapId};
use crate::text::{
    bool_text, dec, dec_int, owned, push_bool, push_i64, push_str, push_u64, push_usize,
};

verus! {

/// Reserved tag of monitor `DOWN` messages.
pub const TAG_SYS_DOWN: u16 = 0xFF01;
/// Reserved tag of linked-exit messages.
pub const TAG_SYS_EXIT: u16 = 0xFF02;

/// Envelope carried in mailboxes and registers.
#[derive(Debug)]
pub struct Message {
    /// Origin flow id, stamped by the scheduler; zero for the host.
    pub sender: u64,
    /// Capability to send back to `sender`, or the "no grant" token.
    pub reply_cap: CapId,
    /// Correlation token, echoed on replies.
    pub request_id: u64,
    /// Protocol discriminator.
    pub tag: u16,
    /// Application body.
    pub payload: Arc<Value>,
}

/// A dynamically tagged runtime value.
#[derive(Debug)]
pub enum Value {
    Unit,
    Bool(bool),
    Int(i64),
    /// IEEE-754 double, as its bit pattern.
    Float(u64),
    /// Flow identity. Not an address.
    Pid(u64),
    Message(Message),
    /// Capability token, required to address a flow.
    Cap(CapId),
    Str(Arc<String>),
    Bytes(Arc<Vec<u8>>),
}

/// The body of a message.
pub open spec fn body_of(m: Message) -> Value {
    *m.payload
}

/// The magnitude bits of a double: everything but the sign.
pub open spec fn float_magnitude(bits: u64) -> int {
    bits as int % 0x8000_0000_0000_0000
}

/// Whether a bit pattern is a NaN.
pub open spec fn float_is_nan(bits: u64) -> bool {
    float_magnitude(bits) > 0x7FF0_0000_0000_0000
}

/// IEEE equality on bit patterns: NaN equals nothing, the zeros are equal.
pub open spec fn float_eq(a: u64, b: u64) -> bool {
    !float_is_nan(a) && !float_is_nan(b) && (a == b || (float_magnitude(a) == 0 && float_magnitude(
        b,
    ) == 0))
}

/// The pattern of the negated double: the sign bit flipped.
pub open spec fn float_neg(bits: u64) -> u64 {
    if bits < 0x8000_0000_0000_0000 {
        (bits + 0x8000_0000_0000_0000) as u64
    } else {
        (bits - 0x8000_0000_0000_0000) as u64
    }
}

/// Negating twice gives the pattern back.
pub proof fn float_neg_involutive(bits: u64)
    ensures
        float_neg(float_neg(bits)) == bits,
{
}

/// Value equality: same variant and equal contents, doubles by IEEE rules.
pub open spec fn values_equal(a: Value, b: Value) -> bool
    decreases a,
{
    match (a, b) {
        (Value::Unit, Value::Unit) => true,
        (Value::Bool(x), Value::Bool(y)) => x == y,
        (Value::Int(x), Value::Int(y)) => x == y,
        (Value::Float(x), Value::Float(y)) => float_eq(x, y),
        (Value::Pid(x), Value::Pid(y)) => x == y,
        (Value::Message(x), Value::Message(y)) => x.sender == y.sender && x.reply_cap == y.reply_cap
            && x.request_id == y.request_id && x.tag == y.tag && values_equal(
            *x.payload,
            *y.payload,
        ),
        (Value::Cap(x), Value::Cap(y)) => x == y,
        (Value::Str(x), Value::Str(y)) => x@ == y@,
        (Value::Bytes(x), Value::Bytes(y)) => x@ == y@,
        _ => false,
    }
}

/// Message equality, field by field.
pub open spec fn messages_equal(x: Message, y: Message) -> bool {
    x.sender == y.sender && x.reply_cap == y.reply_cap && x.request_id == y.request_id && x.tag
        == y.tag && values_equal(*x.payload, *y.payload)
}

/// Value equality is symmetric.
pub proof fn values_equal_symmetric(a: Value, b: Value)
    ensures
        values_equal(a, b) == values_equal(b, a),
    decreases a,
{
    match (a, b) {
        (Value::Message(x), Value::Message(y)) => {
            values_equal_symmetric(body_of(x), body_of(y));
        },
        _ => {},
    }
}

/// Wire tag of a value, `0..=8`.
pub open spec fn wire_tag(v: Value) -> u8 {
    match v {
        Value::Unit => 0,
        Value::Bool(_) => 1,
        Value::Int(_) => 2,
        Value::Float(_) => 3,
        Value::Pid(_) => 4,
        Value::Message(_) => 5,
        Value::Cap(_) => 6,
        Value::Str(_) => 7,
        Value::Bytes(_) => 8,
    }
}

/// Falsy values are `Unit`, `false`, zero, and empty strings and buffers.
pub open spec fn truthy(v: Value) -> bool {
    match v {
        Value::Unit => false,
        Value::Bool(b) => b,
        Value::Int(i) => i != 0,
        Value::Str(s) => s@.len() != 0,
        Value::Bytes(b) => b@.len() != 0,
        _ => true,
    }
}

/// Integer reading of a value.
pub open spec fn int_of(v: Value) -> Option<i64> {
    match v {
        Value::Int(i) => Some(i),
        Value::Bool(b) => Some(if b {
            1i64
        } else {
            0i64
        }),
        _ => None,
    }
}

/// Byte length of a UTF-8 string with the given characters.
pub open spec fn utf8_len(s: Seq<char>) -> nat {
    vstd::utf8::encode_utf8(s).len()
}

/// Heap bytes of a value, excluding the value word itself.
pub open spec fn heap_bytes(v: Value) -> nat
    decreases v,
{
    match v {
        Value::Str(s) => utf8_len(s@),
        Value::Bytes(b) => b@.len(),
        Value::Message(m) => vstd::layout::size_of::<Value>() + heap_bytes(*m.payload),
        _ => 0,
    }
}

/// Bytes a value is charged for: the value word and its heap bytes.
pub open spec fn value_bytes(v: Value) -> nat {
    vstd::layout::size_of::<Value>() + heap_bytes(v)
}

/// `n`, capped at the largest `usize`.
pub open spec fn capped(n: nat) -> usize {
    if n > usize::MAX {
        usize::MAX
    } else {
        n as usize
    }
}

/// Name of the type of a value.
pub open spec fn kind_name_of(v: Value) -> &'static str {
    match v {
        Value::Unit => "unit",
        Value::Bool(_) => "bool",
        Value::Int(_) => "int",
        Value::Float(_) => "float",
        Value::Pid(_) => "pid",
        Value::Message(_) => "message",
        Value::Cap(_) => "cap",
        Value::Str(_) => "str",
        Value::Bytes(_) => "bytes",
    }
}

/// Printed form of a value; `float` is the rendering of its double, if any.
pub open spec fn value_text(v: Value, float: Seq<char>) -> Seq<char>
    decreases v,
{
    match v {
        Value::Unit => "()"@,
        Value::Bool(b) => bool_text(b),
        Value::Int(i) => dec_int(i as int),
        Value::Float(_) => float,
        Value::Pid(p) => "flow#"@ + dec(p as nat),
        Value::Message(m) => "msg{from=flow#"@ + dec(m.sender as nat) + ", reply="@
            + m.reply_cap.spec_text() + ", id="@ + dec(m.request_id as nat) + ", tag="@ + dec(
            m.tag as nat,
        ) + ", payload="@ + value_text(*m.payload, float) + "}"@,
        Value::Cap(c) => c.spec_text(),
        Value::Str(s) => s@,
        Value::Bytes(b) => "bytes["@ + dec(b@.len()) + "]"@,
    }
}

/// The double at the bottom of a value, through nested messages.
pub open spec fn leaf_float_of(v: Value) -> Option<u64>
    decreases v,
{
    match v {
        Value::Float(bits) => Some(bits),
        Value::Message(m) => leaf_float_of(*m.payload),
        _ => None,
    }
}

/// The envelope that [`Message::new`] builds.
pub open spec fn envelope(sender: u64, request_id: u64, tag: u16, payload: Value) -> Message {
    Message { sender, reply_cap: cap_none(), request_id, tag, payload: Arc::new(payload) }
}

/// The `DOWN` message of a monitor.
pub open spec fn down_message(monitor: u64, target: u64, reason: u64) -> Message {
    envelope(target, monitor, TAG_SYS_DOWN, Value::Int(reason as i64))
}

/// The linked-exit message of a dead flow.
pub open spec fn exit_message(target: u64, reason: u64) -> Message {
    envelope(target, 0, TAG_SYS_EXIT, Value::Int(reason as i64))
}

impl Clone for Message {
    fn clone(&self) -> (r: Self)
        ensures
            r == *self,
    {
        Message {
            sender: self.sender,
            reply_cap: self.reply_cap,
            request_id: self.request_id,
            tag: self.tag,
            payload: self.payload.clone(),
        }
    }
}

impl Clone for Value {
    fn clone(&self) -> (r: Self)
        ensures
            r == *self,
    {
        match self {
            Value::Unit => Value::Unit,
            Value::Bool(b) => Value::Bool(*b),
            Value::Int(i) => Value::Int(*i),
            Value::Float(x) => Value::Float(*x),
            Value::Pid(p) => Value::Pid(*p),
            Value::Message(m) => Value::Message(m.clone()),
            Value::Cap(c) => Value::Cap(*c),
            Value::Str(s) => Value::Str(s.clone()),
            Value::Bytes(b) => Value::Bytes(b.clone()),
        }
    }
}

fn same_bytes(a: &Vec<u8>, b: &Vec<u8>) -> (r: bool)
    ensures
        r == (a@ == b@),
{
    if a.len() != b.len() {
        return false;
    }
    let mut i: usize = 0;
    while i < a.len()
        invariant
            i <= a@.len(),
            a@.len() == b@.len(),
            forall|k: int| 0 <= k < i ==> a@[k] == b@[k],
        decreases a@.len() - i,
    {
        if a[i] != b[i] {
            assert(a@[i as int] != b@[i as int]);
            return false;
        }
        i += 1;
    }
    assert(a@ =~= b@);
    true
}

fn same_float(a: u64, b: u64) -> (r: bool)
    ensures
        r == float_eq(a, b),
{
    let ma: u64 = a % 0x8000_0000_0000_0000;
    let mb: u64 = b % 0x8000_0000_0000_0000;
    ma <= 0x7FF0_0000_0000_0000 && mb <= 0x7FF0_0000_0000_0000 && (a == b || (ma == 0 && mb == 0))
}

fn same_value(a: &Value, b: &Value) -> (r: bool)
    ensures
        r == values_equal(*a, *b),
    decreases a,
{
    match (a, b) {
        (Value::Unit, Value::Unit) => true,
        (Value::Bool(x), Value::Bool(y)) => *x == *y,
        (Value::Int(x), Value::Int(y)) => *x == *y,
        (Value::Float(x), Value::Float(y)) => same_float(*x, *y),
        (Value::Pid(x), Value::Pid(y)) => *x == *y,
        (Value::Message(x), Value::Message(y)) => x.sender == y.sender && x.reply_cap == y.reply_cap
            && x.request_id == y.request_id && x.tag == y.tag && same_value(
            &*x.payload,
            &*y.payload,
        ),
        (Value::Cap(x), Value::Cap(y)) => *x == *y,
        (Value::Str(x), Value::Str(y)) => **x == **y,
        (Value::Bytes(x), Value::Bytes(y)) => same_bytes(&**x, &**y),
        _ => false,
    }
}

impl PartialEq for Value {
    fn eq(&self, other: &Self) -> (r: bool) {
        same_value(self, other)
    }
}

impl vstd::std_specs::cmp::PartialEqSpecImpl for Value {
    open spec fn obeys_eq_spec() -> bool {
        true
    }

    open spec fn eq_spec(&self, other: &Self) -> bool {
        values_equal(*self, *other)
    }
}

impl PartialEq for Message {
    fn eq(&self, other: &Self) -> (r: bool) {
        self.sender == other.sender && self.reply_cap == other.reply_cap && self.request_id
            == other.request_id && self.tag == other.tag && same_value(
            &*self.payload,
            &*other.payload,
        )
    }
}

impl vstd::std_specs::cmp::PartialEqSpecImpl for Message {
    open spec fn obeys_eq_spec() -> bool {
        true
    }

    open spec fn eq_spec(&self, other: &Self) -> bool {
        messages_equal(*self, *other)
    }
}

impl Message {
    /// Build an envelope. `sender` is a placeholder until the scheduler
    /// stamps the hop.
    pub fn new(sender: u64, request_id: u64, tag: u16, payload: Value) -> (r: Self)
        ensures
            r == envelope(sender, request_id, tag, payload),
    {
        Message { sender, reply_cap: CapId::none(), request_id, tag, payload: Arc::new(payload) }
    }

    /// Outgoing hop from the host.
    pub fn request(request_id: u64, tag: u16, payload: Value) -> (r: Self)
        ensures
            r == envelope(0, request_id, tag, payload),
    {
        Message::new(0, request_id, tag, payload)
    }

    /// Reply envelope that echoes the request id of `req`.
    pub fn reply_to(req: &Self, tag: u16, payload: Value) -> (r: Self)
        ensures
            r == envelope(0, req.request_id, tag, payload),
    {
        Message::new(0, req.request_id, tag, payload)
    }

    /// Monitor `DOWN` message.
    pub fn down(monitor: u64, target_flow: u64, reason: u64) -> (r: Self)
        ensures
            r == down_message(monitor, target_flow, reason),
    {
        Message::new(target_flow, monitor, TAG_SYS_DOWN, Value::Int(reason as i64))
    }

    /// Linked-exit message.
    pub fn linked_exit(target_flow: u64, reason: u64) -> (r: Self)
        ensures
            r == exit_message(target_flow, reason),
    {
        Message::new(target_flow, 0, TAG_SYS_EXIT, Value::Int(reason as i64))
    }

    pub fn is_down(&self) -> (r: bool)
        ensures
            r == (self.tag == TAG_SYS_DOWN),
    {
        self.tag == TAG_SYS_DOWN
    }

    pub fn is_exit(&self) -> (r: bool)
        ensures
            r == (self.tag == TAG_SYS_EXIT),
    {
        self.tag == TAG_SYS_EXIT
    }

    /// Stamp the origin and attach a reply capability.
    pub fn authenticate(self, sender: u64, reply_cap: CapId) -> (r: Self)
        ensures
            r == (Message { sender, reply_cap, ..self }),
    {
        Message {
            sender,
            reply_cap,
            request_id: self.request_id,
            tag: self.tag,
            payload: self.payload,
        }
    }

    /// The same envelope around another body.
    pub fn with_payload(self, payload: Value) -> (r: Self)
        ensures
            r == (Message { payload: Arc::new(payload), ..self }),
    {
        Message {
            sender: self.sender,
            reply_cap: self.reply_cap,
            request_id: self.request_id,
            tag: self.tag,
            payload: Arc::new(payload),
        }
    }

    /// Printed form; `float` renders the double at the bottom, if any.
    pub fn text(&self, float: &str) -> (r: String)
        ensures
            r@ == value_text(Value::Message(*self), float@),
        decreases self.payload, 1int,
    {
        let mut s = owned("msg{from=flow#");
        push_u64(&mut s, self.sender);
        push_str(&mut s, ", reply=");
        push_str(&mut s, self.reply_cap.text().as_str());
        push_str(&mut s, ", id=");
        push_u64(&mut s, self.request_id);
        push_str(&mut s, ", tag=");
        push_u64(&mut s, self.tag as u64);
        push_str(&mut s, ", payload=");
        let body = self.payload.text(float);
        push_str(&mut s, body.as_str());
        push_str(&mut s, "}");
        s
    }
}

impl Value {
    /// Wire tag of this value.
    pub fn wire_tag(&self) -> (r: u8)
        ensures
            r == wire_tag(*self),
    {
        match self {
            Value::Unit => 0,
            Value::Bool(_) => 1,
            Value::Int(_) => 2,
            Value::Float(_) => 3,
            Value::Pid(_) => 4,
            Value::Message(_) => 5,
            Value::Cap(_) => 6,
            Value::Str(_) => 7,
            Value::Bytes(_) => 8,
        }
    }

    /// A string value with the characters of `s`.
    pub fn str(s: &str) -> (r: Self)
        ensures
            r matches Value::Str(t) && t@ == s@,
    {
        Value::Str(Arc::new(owned(s)))
    }

    /// A byte-buffer value.
    pub fn bytes(b: Vec<u8>) -> (r: Self)
        ensures
            r == Value::Bytes(Arc::new(b)),
    {
        Value::Bytes(Arc::new(b))
    }

    /// Truthiness as `Branch` reads it.
    pub fn is_truthy(&self) -> (r: bool)
        ensures
            r == truthy(*self),
    {
        match self {
            Value::Unit => false,
            Value::Bool(b) => *b,
            Value::Int(i) => *i != 0,
            Value::Str(s) => !s.as_str().is_empty(),
            Value::Bytes(b) => b.len() != 0,
            _ => true,
        }
    }

    pub fn as_int(&self) -> (r: Option<i64>)
        ensures
            r == int_of(*self),
    {
        match self {
            Value::Int(i) => Some(*i),
            Value::Bool(b) => if *b {
                Some(1i64)
            } else {
                Some(0i64)
            },
            _ => None,
        }
    }

    pub fn as_pid(&self) -> (r: Option<u64>)
        ensures
            r == (match *self {
                Value::Pid(p) => Some(p),
                _ => None,
            }),
    {
        match self {
            Value::Pid(p) => Some(*p),
            _ => None,
        }
    }

    pub fn as_cap(&self) -> (r: Option<CapId>)
        ensures
            r == (match *self {
                Value::Cap(c) => Some(c),
                _ => None,
            }),
    {
        match self {
            Value::Cap(c) => Some(*c),
            _ => None,
        }
    }

    pub fn as_message(&self) -> (r: Option<&Message>)
        ensures
            match r {
                Some(m) => *self == Value::Message(*m),
                None => !(*self is Message),
            },
    {
        match self {
            Value::Message(m) => Some(m),
            _ => None,
        }
    }

    pub fn as_str(&self) -> (r: Option<&str>)
        ensures
            match *self {
                Value::Str(s) => r matches Some(t) && t@ == s@,
                _ => r is None,
            },
    {
        match self {
            Value::Str(s) => Some(s.as_str()),
            _ => None,
        }
    }

    /// The bytes of a buffer, or the UTF-8 bytes of a string.
    pub fn as_bytes(&self) -> (r: Option<&[u8]>)
        ensures
            match *self {
                Value::Bytes(b) => r matches Some(t) && t@ == b@,
                Value::Str(s) => r matches Some(t) && t@ == vstd::utf8::encode_utf8(s@),
                _ => r is None,
            },
    {
        match self {
            Value::Bytes(b) => Some(b.as_slice()),
            Value::Str(s) => Some(s.as_str().as_bytes()),
            _ => None,
        }
    }

    /// Bytes this value is charged for, capped at the largest `usize`.
    pub fn memory_size(&self) -> (r: usize)
        ensures
            r == capped(value_bytes(*self)),
        decreases *self, 1int,
    {
        std::mem::size_of::<Value>().saturating_add(self.heap_size())
    }

    /// Heap bytes of this value, capped at the largest `usize`.
    pub fn heap_size(&self) -> (r: usize)
        ensures
            r == capped(heap_bytes(*self)),
        decreases *self, 0int,
    {
        match self {
            Value::Str(s) => string_bytes(s.as_str()),
            Value::Bytes(b) => b.len(),
            Value::Message(m) => m.payload.memory_size(),
            Value::Unit
            | Value::Bool(_)
            | Value::Int(_)
            | Value::Float(_)
            | Value::Pid(_)
            | Value::Cap(_) => 0,
        }
    }

    pub fn kind_name(&self) -> (r: &'static str)
        ensures
            r == kind_name_of(*self),
    {
        match self {
            Value::Unit => "unit",
            Value::Bool(_) => "bool",
            Value::Int(_) => "int",
            Value::Float(_) => "float",
            Value::Pid(_) => "pid",
            Value::Message(_) => "message",
            Value::Cap(_) => "cap",
            Value::Str(_) => "str",
            Value::Bytes(_) => "bytes",
        }
    }

    /// The double at the bottom of this value, if any.
    pub fn leaf_float(&self) -> (r: Option<u64>)
        ensures
            r == leaf_float_of(*self),
        decreases self,
    {
        match self {
            Value::Float(bits) => Some(*bits),
            Value::Message(m) => m.payload.leaf_float(),
            _ => None,
        }
    }

    /// Printed form; `float` renders the double at the bottom, if any.
    pub fn text(&self, float: &str) -> (r: String)
        ensures
            r@ == value_text(*self, float@),
        decreases *self, 0int,
    {
        match self {
            Value::Unit => owned("()"),
            Value::Bool(b) => {
                let mut s = String::new();
                push_bool(&mut s, *b);
                assert(s@ =~= bool_text(*b));
                s
            },
            Value::Int(i) => {
                let mut s = String::new();
                push_i64(&mut s, *i);
                assert(s@ =~= dec_int(*i as int));
                s
            },
            Value::Float(_) => owned(float),
            Value::Pid(p) => {
                let mut s = owned("flow#");
                push_u64(&mut s, *p);
                s
            },
            Value::Message(m) => m.text(float),
            Value::Cap(c) => c.text(),
            Value::Str(t) => owned(t.as_str()),
            Value::Bytes(b) => {
                let mut s = owned("bytes[");
                push_usize(&mut s, b.len());
                push_str(&mut s, "]");
                s
            },
        }
    }
}

/// Byte length of a string slice.
pub fn string_bytes(s: &str) -> (r: usize)
    ensures
        r == utf8_len(s@),
{
    s.as_bytes().len()
}

impl From<i64> for Value {
    fn from(v: i64) -> (r: Self) {
        Value::Int(v)
    }
}

impl vstd::std_specs::convert::FromSpecImpl<i64> for Value {
    open spec fn obeys_from_spec() -> bool {
        true
    }

    open spec fn from_spec(v: i64) -> Self {
        Value::Int(v)
    }
}

impl From<i32> for Value {
    fn from(v: i32) -> (r: Self) {
        Value::Int(v as i64)
    }
}

impl vstd::std_specs::convert::FromSpecImpl<i32> for Value {
    open spec fn obeys_from_spec() -> bool {
        true
    }

    open spec fn from_spec(v: i32) -> Self {
        Value::Int(v as i64)
    }
}

impl From<u64> for Value {
    fn from(v: u64) -> (r: Self) {
        Value::Int(v as i64)
    }
}

impl vstd::std_specs::convert::FromSpecImpl<u64> for Value {
    open spec fn obeys_from_spec() -> bool {
        true
    }

    open spec fn from_spec(v: u64) -> Self {
        Value::Int(v as i64)
    }
}

impl From<bool> for Value {
    fn from(v: bool) -> (r: Self) {
        Value::Bool(v)
    }
}

impl vstd::std_specs::convert::FromSpecImpl<bool> for Value {
    open spec fn obeys_from_spec() -> bool {
        true
    }

    open spec fn from_spec(v: bool) -> Self {
        Value::Bool(v)
    }
}

impl From<Message> for Value {
    fn from(m: Message) -> (r: Self) {
        Value::Message(m)
    }
}

impl vstd::std_specs::convert::FromSpecImpl<Message> for Value {
    open spec fn obeys_from_spec() -> bool {
        true
    }

    open spec fn from_spec(m: Message) -> Self {
        Value::Message(m)
    }
}

impl From<CapId> for Value {
    fn from(c: CapId) -> (r: Self) {
        Value::Cap(c)
    }
}

impl vstd::std_specs::convert::FromSpecImpl<CapId> for Value {
    open spec fn obeys_from_spec() -> bool {
        true
    }

    open spec fn from_spec(c: CapId) -> Self {
        Value::Cap(c)
    }
}

impl From<String> for Value {
    fn from(s: String) -> (r: Self) {
        Value::Str(Arc::new(s))
    }
}

impl vstd::std_specs::convert::FromSpecImpl<String> for Value {
    open spec fn obeys_from_spec() -> bool {
        true
    }

    open spec fn from_spec(s: String) -> Self {
        Value::Str(Arc::new(s))
    }
}

impl From<Vec<u8>> for Value {
    fn from(b: Vec<u8>) -> (r: Self) {
        Value::Bytes(Arc::new(b))
    }
}

impl vstd::std_specs::convert::FromSpecImpl<Vec<u8>> for Value {
    open spec fn obeys_from_spec() -> bool {
        true
    }

    open spec fn from_spec(b: Vec<u8>) -> Self {
        Value::Bytes(Arc::new(b))
    }
}

} // verus!
