//! Natives: functions of the host side that bytecode calls by index.

use std::sync::Arc;

use vstd::prelude::*;

use crate::bytecode::cap::{
    rights, rights_contain, Cap, CapRights, NativeIdx, NativeMask, RevocationCell, RIGHT_NATIVE,
};
use crate::bytecode::value::{envelope, int_of, kind_name_of, truthy, Message, Value};
use crate::text::{dec, owned, push_str, push_u64, same_text};
use crate::vm::fault::{Fault, NativeCallError, NativeFailure};

verus! {

/// Result of a native.
pub type NativeResult = Result<Value, Fault>;

/// What a native slot does. The message natives are computed in place; a
/// host native suspends the machine, and the host hands its result back.
#[derive(Clone, Copy, Debug, PartialEq, Eq, Structural)]
pub enum NativeFn {
    MakeMsg,
    MsgSender,
    MsgRequestId,
    MsgTag,
    MsgPayload,
    MsgReplyCap,
    /// A function of the host, by the number the host knows it under.
    Host(u32),
}

/// Argument `index`, or the failure to have it.
pub open spec fn arg_at(args: Seq<Value>, index: usize, native: &'static str) -> Result<
    Value,
    Fault,
> {
    if index < args.len() {
        Ok(args[index as int])
    } else {
        Err(Fault::NativeError(NativeFailure::MissingArgument { native, index }))
    }
}

/// Argument `index` as an integer.
pub open spec fn int_arg(args: Seq<Value>, index: usize, native: &'static str) -> Result<
    i64,
    Fault,
> {
    match arg_at(args, index, native) {
        Err(e) => Err(e),
        Ok(v) => match int_of(v) {
            Some(i) => Ok(i),
            None => Err(Fault::NativeError(NativeFailure::NotInt { native, index })),
        },
    }
}

/// Argument `index` as a truth value: only booleans and integers are.
pub open spec fn bool_arg(args: Seq<Value>, index: usize, native: &'static str) -> Result<
    bool,
    Fault,
> {
    match arg_at(args, index, native) {
        Err(e) => Err(e),
        Ok(v) => if v is Bool || v is Int {
            Ok(truthy(v))
        } else {
            Err(
                Fault::NativeError(
                    NativeFailure::NotBool { native, index, got: kind_name_of(v) },
                ),
            )
        },
    }
}

/// Argument `index` as a message.
pub open spec fn message_arg(args: Seq<Value>, index: usize, native: &'static str) -> Result<
    Message,
    Fault,
> {
    match arg_at(args, index, native) {
        Err(e) => Err(e),
        Ok(v) => match v {
            Value::Message(m) => Ok(m),
            _ => Err(Fault::NativeError(NativeFailure::NotMessage { native, index })),
        },
    }
}

/// Argument `index` as an unsigned number: a flow identity, or an integer
/// that is not negative.
pub open spec fn unsigned_arg(args: Seq<Value>, index: usize, native: &'static str) -> Result<
    u64,
    Fault,
> {
    match arg_at(args, index, native) {
        Err(e) => Err(e),
        Ok(v) => match v {
            Value::Pid(p) => Ok(p),
            _ => match int_of(v) {
                Some(i) if i >= 0 => Ok(i as u64),
                _ => Err(
                    Fault::NativeError(
                        NativeFailure::NotUnsigned { native, index, got: kind_name_of(v) },
                    ),
                ),
            },
        },
    }
}

/// The result of `make_msg`: three arguments, or four of which the first is
/// ignored. The sender is always zero.
pub open spec fn make_msg_result(args: Seq<Value>) -> NativeResult {
    let base: usize = if args.len() >= 4 {
        1
    } else {
        0
    };
    match unsigned_arg(args, base, "make_msg") {
        Err(e) => Err(e),
        Ok(request_id) => match unsigned_arg(args, (base + 1) as usize, "make_msg") {
            Err(e) => Err(e),
            Ok(tag) => match arg_at(args, (base + 2) as usize, "make_msg") {
                Err(e) => Err(e),
                Ok(payload) => if tag > u16::MAX {
                    Err(Fault::NativeError(NativeFailure::TagTooLarge { tag }))
                } else {
                    Ok(Value::Message(envelope(0, request_id, tag as u16, payload)))
                },
            },
        },
    }
}

/// The result of a native that is computed in place.
pub open spec fn native_result(f: NativeFn, args: Seq<Value>) -> Option<NativeResult> {
    match f {
        NativeFn::MakeMsg => Some(make_msg_result(args)),
        NativeFn::MsgSender => Some(
            match message_arg(args, 0, "msg_sender") {
                Err(e) => Err(e),
                Ok(m) => Ok(Value::Pid(m.sender)),
            },
        ),
        NativeFn::MsgRequestId => Some(
            match message_arg(args, 0, "msg_request_id") {
                Err(e) => Err(e),
                Ok(m) => Ok(Value::Int(m.request_id as i64)),
            },
        ),
        NativeFn::MsgTag => Some(
            match message_arg(args, 0, "msg_tag") {
                Err(e) => Err(e),
                Ok(m) => Ok(Value::Int(m.tag as i64)),
            },
        ),
        NativeFn::MsgPayload => Some(
            match message_arg(args, 0, "msg_payload") {
                Err(e) => Err(e),
                Ok(m) => Ok(*m.payload),
            },
        ),
        NativeFn::MsgReplyCap => Some(
            match message_arg(args, 0, "msg_reply_cap") {
                Err(e) => Err(e),
                Ok(m) => Ok(Value::Cap(m.reply_cap)),
            },
        ),
        NativeFn::Host(_) => None,
    }
}

/// Require `args[index]`.
pub fn expect_arg<'a>(args: &'a [Value], index: usize, fn_name: &'static str) -> (r: Result<
    &'a Value,
    Fault,
>)
    ensures
        match arg_at(args@, index, fn_name) {
            Ok(v) => r matches Ok(x) && *x == v,
            Err(e) => r == Err::<&Value, Fault>(e),
        },
{
    if index < args.len() {
        Ok(&args[index])
    } else {
        Err(Fault::NativeError(NativeFailure::MissingArgument { native: fn_name, index }))
    }
}

/// Require `args[index]` to be an integer.
pub fn expect_int(args: &[Value], index: usize, fn_name: &'static str) -> (r: Result<i64, Fault>)
    ensures
        r == int_arg(args@, index, fn_name),
{
    match expect_arg(args, index, fn_name) {
        Err(e) => Err(e),
        Ok(v) => match v.as_int() {
            Some(i) => Ok(i),
            None => Err(Fault::NativeError(NativeFailure::NotInt { native: fn_name, index })),
        },
    }
}

/// Require `args[index]` to be a boolean or an integer.
pub fn expect_bool(args: &[Value], index: usize, fn_name: &'static str) -> (r: Result<bool, Fault>)
    ensures
        r == bool_arg(args@, index, fn_name),
{
    match expect_arg(args, index, fn_name) {
        Err(e) => Err(e),
        Ok(v) => match v {
            Value::Bool(_) => Ok(v.is_truthy()),
            Value::Int(_) => Ok(v.is_truthy()),
            _ => Err(
                Fault::NativeError(
                    NativeFailure::NotBool { native: fn_name, index, got: v.kind_name() },
                ),
            ),
        },
    }
}

/// Require `args[index]` to be a message.
pub fn expect_message(args: &[Value], index: usize, fn_name: &'static str) -> (r: Result<
    Message,
    Fault,
>)
    ensures
        r == message_arg(args@, index, fn_name),
{
    match expect_arg(args, index, fn_name) {
        Err(e) => Err(e),
        Ok(v) => match v {
            Value::Message(m) => Ok(m.clone()),
            _ => Err(Fault::NativeError(NativeFailure::NotMessage { native: fn_name, index })),
        },
    }
}

/// Require `args[index]` to be unsigned.
pub fn expect_u64(args: &[Value], index: usize, fn_name: &'static str) -> (r: Result<u64, Fault>)
    ensures
        r == unsigned_arg(args@, index, fn_name),
{
    match expect_arg(args, index, fn_name) {
        Err(e) => Err(e),
        Ok(v) => {
            if let Some(p) = v.as_pid() {
                return Ok(p);
            }
            if let Some(i) = v.as_int() {
                if i >= 0 {
                    return Ok(i as u64);
                }
            }
            Err(
                Fault::NativeError(
                    NativeFailure::NotUnsigned { native: fn_name, index, got: v.kind_name() },
                ),
            )
        },
    }
}

fn make_msg(args: &[Value]) -> (r: NativeResult)
    ensures
        r == make_msg_result(args@),
{
    let base: usize = if args.len() >= 4 {
        1
    } else {
        0
    };
    let request_id: u64 = match expect_u64(args, base, "make_msg") {
        Ok(n) => n,
        Err(e) => return Err(e),
    };
    let tag: u64 = match expect_u64(args, base + 1, "make_msg") {
        Ok(n) => n,
        Err(e) => return Err(e),
    };
    let payload = match expect_arg(args, base + 2, "make_msg") {
        Ok(v) => v.clone(),
        Err(e) => return Err(e),
    };
    if tag > u16::MAX as u64 {
        return Err(Fault::NativeError(NativeFailure::TagTooLarge { tag }));
    }
    Ok(Value::Message(Message::new(0, request_id, tag as u16, payload)))
}

impl NativeFn {
    /// Run a native that is computed in place; none for a host native.
    pub fn call(self, args: &[Value]) -> (r: Option<NativeResult>)
        ensures
            r == native_result(self, args@),
    {
        match self {
            NativeFn::MakeMsg => Some(make_msg(args)),
            NativeFn::MsgSender => Some(
                match expect_message(args, 0, "msg_sender") {
                    Err(e) => Err(e),
                    Ok(m) => Ok(Value::Pid(m.sender)),
                },
            ),
            NativeFn::MsgRequestId => Some(
                match expect_message(args, 0, "msg_request_id") {
                    Err(e) => Err(e),
                    Ok(m) => Ok(Value::Int(m.request_id as i64)),
                },
            ),
            NativeFn::MsgTag => Some(
                match expect_message(args, 0, "msg_tag") {
                    Err(e) => Err(e),
                    Ok(m) => Ok(Value::Int(m.tag as i64)),
                },
            ),
            NativeFn::MsgPayload => Some(
                match expect_message(args, 0, "msg_payload") {
                    Err(e) => Err(e),
                    Ok(m) => Ok((&*m.payload).clone()),
                },
            ),
            NativeFn::MsgReplyCap => Some(
                match expect_message(args, 0, "msg_reply_cap") {
                    Err(e) => Err(e),
                    Ok(m) => Ok(Value::Cap(m.reply_cap)),
                },
            ),
            NativeFn::Host(_) => None,
        }
    }
}

/// A message that `make_msg` built comes apart into what it was built from.
pub proof fn make_msg_unpacks(request_id: i64, tag: u16, payload: Value)
    requires
        request_id >= 0,
    ensures
        ({
            let args = seq![Value::Int(request_id), Value::Int(tag as i64), payload];
            let m = make_msg_result(args);
            &&& m is Ok
            &&& native_result(NativeFn::MsgSender, seq![m->Ok_0]) == Some(
                Ok::<Value, Fault>(Value::Pid(0)),
            )
            &&& native_result(NativeFn::MsgRequestId, seq![m->Ok_0]) == Some(
                Ok::<Value, Fault>(Value::Int(request_id)),
            )
            &&& native_result(NativeFn::MsgTag, seq![m->Ok_0]) == Some(
                Ok::<Value, Fault>(Value::Int(tag as i64)),
            )
            &&& native_result(NativeFn::MsgPayload, seq![m->Ok_0]) == Some(
                Ok::<Value, Fault>(payload),
            )
        }),
{
    let args = seq![Value::Int(request_id), Value::Int(tag as i64), payload];
    assert(args[0] == Value::Int(request_id) && args[1] == Value::Int(tag as i64) && args[2]
        == payload);
    let m = make_msg_result(args);
    assert((request_id as u64) as i64 == request_id);
    assert(seq![m->Ok_0][0] == m->Ok_0);
}

/// Natives by index. A slot may be empty.
pub struct NativeTable {
    pub entries: Vec<Option<(String, NativeFn)>>,
}

/// Model of a slot.
pub open spec fn slot_model(slot: Option<(String, NativeFn)>) -> Option<(Seq<char>, NativeFn)> {
    match slot {
        Some(e) => Some((e.0@, e.1)),
        None => None,
    }
}

/// Model of the slots.
pub open spec fn slot_models(s: Seq<Option<(String, NativeFn)>>) -> Seq<
    Option<(Seq<char>, NativeFn)>,
> {
    s.map_values(|slot: Option<(String, NativeFn)>| slot_model(slot))
}

impl View for NativeTable {
    type V = Seq<Option<(Seq<char>, NativeFn)>>;

    open spec fn view(&self) -> Seq<Option<(Seq<char>, NativeFn)>> {
        slot_models(self.entries@)
    }
}

/// The native in slot `index`.
pub open spec fn native_at(t: Seq<Option<(Seq<char>, NativeFn)>>, index: u32) -> Option<NativeFn> {
    if index < t.len() {
        match t[index as int] {
            Some(e) => Some(e.1),
            None => None,
        }
    } else {
        None
    }
}

/// The slot `k` carries `name`.
pub open spec fn slot_named(
    t: Seq<Option<(Seq<char>, NativeFn)>>,
    k: int,
    name: Seq<char>,
) -> bool {
    t[k] matches Some(e) && e.0 == name
}

/// The first slot named `name`, from `from` on.
pub open spec fn slot_of(
    t: Seq<Option<(Seq<char>, NativeFn)>>,
    name: Seq<char>,
    from: nat,
) -> Option<u32>
    decreases t.len() - from,
{
    if from >= t.len() {
        None
    } else if slot_named(t, from as int, name) {
        Some(from as u32)
    } else {
        slot_of(t, name, from + 1)
    }
}

/// Names of the filled slots among the first `n`.
pub open spec fn slot_names(t: Seq<Option<(Seq<char>, NativeFn)>>, n: nat) -> Seq<Seq<char>>
    decreases n,
{
    if n == 0 {
        Seq::empty()
    } else {
        match t[n - 1] {
            Some(e) => slot_names(t, (n - 1) as nat).push(e.0),
            None => slot_names(t, (n - 1) as nat),
        }
    }
}

/// The texts behind a list of strings.
pub open spec fn texts(v: Seq<String>) -> Seq<Seq<char>> {
    v.map_values(|s: String| s@)
}

impl NativeTable {
    pub fn builder() -> (r: NativeTableBuilder)
        ensures
            r@.len() == 0,
    {
        NativeTableBuilder::new()
    }

    /// A table without slots.
    pub fn empty() -> (r: Arc<NativeTable>)
        ensures
            r@.len() == 0,
    {
        Arc::new(NativeTable { entries: Vec::new() })
    }

    pub fn get(&self, index: u32) -> (r: Option<NativeFn>)
        ensures
            r == native_at(self@, index),
    {
        if (index as usize) < self.entries.len() {
            match &self.entries[index as usize] {
                Some(e) => Some(e.1),
                None => None,
            }
        } else {
            None
        }
    }

    /// First slot with this name.
    pub fn index_of(&self, name: &str) -> (r: Option<u32>)
        ensures
            r == slot_of(self@, name@, 0),
    {
        let mut k: usize = 0;
        while k < self.entries.len()
            invariant
                k <= self.entries@.len(),
                slot_of(self@, name@, 0) == slot_of(self@, name@, k as nat),
            decreases self.entries@.len() - k,
        {
            assert(self@[k as int] == slot_model(self.entries@[k as int]));
            if let Some(e) = &self.entries[k] {
                if same_text(e.0.as_str(), name) {
                    return Some(k as u32);
                }
            }
            k += 1;
        }
        None
    }

    /// Slots, empty ones included.
    pub fn len(&self) -> (r: usize)
        ensures
            r == self@.len(),
    {
        self.entries.len()
    }

    pub fn is_empty(&self) -> (r: bool)
        ensures
            r == (self@.len() == 0),
    {
        self.entries.len() == 0
    }

    /// Names of the filled slots, in order.
    pub fn names(&self) -> (r: Vec<String>)
        ensures
            texts(r@) == slot_names(self@, self@.len()),
    {
        let mut out: Vec<String> = Vec::new();
        let mut k: usize = 0;
        assert(texts(out@) =~= slot_names(self@, 0));
        while k < self.entries.len()
            invariant
                k <= self.entries@.len(),
                texts(out@) == slot_names(self@, k as nat),
            decreases self.entries@.len() - k,
        {
            assert(self@[k as int] == slot_model(self.entries@[k as int]));
            let ghost before = out@;
            if let Some(e) = &self.entries[k] {
                out.push(owned(e.0.as_str()));
                assert(texts(out@) =~= texts(before).push(e.0@));
            }
            k += 1;
        }
        out
    }
}

/// Why a native is not registered.
#[derive(Debug, Clone, PartialEq, Eq)]
pub enum NativeTableError {
    DuplicateName(String),
    SlotOccupied { index: u32, name: String },
}

/// The message of a registration error.
pub open spec fn native_table_error_text(e: NativeTableError) -> Seq<char> {
    match e {
        NativeTableError::DuplicateName(name) => "duplicate native function registered: '"@ + name@
            + "'"@,
        NativeTableError::SlotOccupied { index, name } => "native slot "@ + dec(index as nat)
            + " already occupied (registering '"@ + name@ + "')"@,
    }
}

impl NativeTableError {
    /// The message of this error.
    pub fn text(&self) -> (r: String)
        ensures
            r@ == native_table_error_text(*self),
    {
        match self {
            NativeTableError::DuplicateName(name) => {
                let mut s = owned("duplicate native function registered: '");
                push_str(&mut s, name.as_str());
                push_str(&mut s, "'");
                s
            },
            NativeTableError::SlotOccupied { index, name } => {
                let mut s = owned("native slot ");
                push_u64(&mut s, *index as u64);
                push_str(&mut s, " already occupied (registering '");
                push_str(&mut s, name.as_str());
                push_str(&mut s, "')");
                s
            },
        }
    }
}

/// Assembles a [`NativeTable`].
pub struct NativeTableBuilder {
    pub entries: Vec<Option<(String, NativeFn)>>,
}

impl View for NativeTableBuilder {
    type V = Seq<Option<(Seq<char>, NativeFn)>>;

    open spec fn view(&self) -> Seq<Option<(Seq<char>, NativeFn)>> {
        slot_models(self.entries@)
    }
}

/// No two filled slots share a name.
pub open spec fn names_unique(t: Seq<Option<(Seq<char>, NativeFn)>>) -> bool {
    forall|j: int, k: int, name: Seq<char>|
        0 <= j < t.len() && 0 <= k < t.len() && #[trigger] slot_named(t, j, name)
            && #[trigger] slot_named(t, k, name) ==> j == k
}

/// Some slot carries `name`.
pub open spec fn name_taken(t: Seq<Option<(Seq<char>, NativeFn)>>, name: Seq<char>) -> bool {
    exists|k: int| 0 <= k < t.len() && #[trigger] slot_named(t, k, name)
}

/// The slots with `f` under `name` at `index`; slots in between are empty.
pub open spec fn with_slot(
    t: Seq<Option<(Seq<char>, NativeFn)>>,
    index: u32,
    name: Seq<char>,
    f: NativeFn,
) -> Seq<Option<(Seq<char>, NativeFn)>> {
    Seq::new(
        if index < t.len() {
            t.len()
        } else {
            index as nat + 1
        },
        |k: int|
            if k == index {
                Some((name, f))
            } else if k < t.len() {
                t[k]
            } else {
                None
            },
    )
}

/// The slot at `index` is free.
pub open spec fn slot_free(t: Seq<Option<(Seq<char>, NativeFn)>>, index: u32) -> bool {
    index >= t.len() || t[index as int] is None
}

/// A new name keeps names unique.
pub proof fn registration_keeps_names_unique(
    t: Seq<Option<(Seq<char>, NativeFn)>>,
    index: u32,
    name: Seq<char>,
    f: NativeFn,
)
    requires
        names_unique(t),
        !name_taken(t, name),
        slot_free(t, index),
    ensures
        names_unique(with_slot(t, index, name, f)),
        native_at(with_slot(t, index, name, f), index) == Some(f),
{
    let u = with_slot(t, index, name, f);
    assert forall|j: int, k: int, n: Seq<char>|
        0 <= j < u.len() && 0 <= k < u.len() && #[trigger] slot_named(u, j, n)
            && #[trigger] slot_named(u, k, n) implies j == k by {
        if j != index {
            assert(slot_named(t, j, n));
        }
        if k != index {
            assert(slot_named(t, k, n));
        }
    }
}

impl NativeTableBuilder {
    pub fn new() -> (r: Self)
        ensures
            r@.len() == 0,
    {
        NativeTableBuilder { entries: Vec::new() }
    }

    /// Register `f` in the next slot.
    pub fn register(self, name: &str, f: NativeFn) -> (r: Result<Self, NativeTableError>)
        requires
            self@.len() < u32::MAX,
        ensures
            name_taken(self@, name@) ==> (r matches Err(NativeTableError::DuplicateName(n)) && n@
                == name@),
            !name_taken(self@, name@) ==> (r matches Ok(b) && b@ == with_slot(
                self@,
                self@.len() as u32,
                name@,
                f,
            )),
    {
        let index: u32 = self.entries.len() as u32;
        self.register_at(index, name, f)
    }

    /// Register `f` at `index`; lower slots that are missing become empty.
    pub fn register_at(self, index: u32, name: &str, f: NativeFn) -> (r: Result<
        Self,
        NativeTableError,
    >)
        requires
            index < u32::MAX,
        ensures
            name_taken(self@, name@) ==> (r matches Err(NativeTableError::DuplicateName(n)) && n@
                == name@),
            !name_taken(self@, name@) && !slot_free(self@, index) ==> (r matches Err(
                NativeTableError::SlotOccupied { index: i, name: n },
            ) && i == index && n@ == name@),
            !name_taken(self@, name@) && slot_free(self@, index) ==> (r matches Ok(b) && b@
                == with_slot(self@, index, name@, f)),
    {
        let mut k: usize = 0;
        while k < self.entries.len()
            invariant
                k <= self.entries@.len(),
                forall|j: int| 0 <= j < k ==> !#[trigger] slot_named(self@, j, name@),
            decreases self.entries@.len() - k,
        {
            assert(self@[k as int] == slot_model(self.entries@[k as int]));
            if let Some(e) = &self.entries[k] {
                if same_text(e.0.as_str(), name) {
                    assert(slot_named(self@, k as int, name@));
                    return Err(NativeTableError::DuplicateName(owned(name)));
                }
            }
            k += 1;
        }
        let at: usize = index as usize;
        let mut entries = self.entries;
        let ghost start = entries@;
        while entries.len() <= at
            invariant
                start == self.entries@,
                at < usize::MAX,
                start.len() <= entries@.len(),
                entries@.len() <= start.len() || entries@.len() <= at + 1,
                forall|j: int| 0 <= j < start.len() ==> entries@[j] == start[j],
                forall|j: int| start.len() <= j < entries@.len() ==> entries@[j] is None,
            decreases at + 1 - entries@.len(),
        {
            entries.push(None);
        }
        if entries[at].is_some() {
            assert(self@[at as int] == slot_model(self.entries@[at as int]));
            return Err(NativeTableError::SlotOccupied { index, name: owned(name) });
        }
        let ghost padded = entries@;
        entries.set(at, Some((owned(name), f)));
        proof {
            assert(self@.len() == start.len());
            if index < start.len() {
                assert(self@[at as int] == slot_model(start[at as int]));
                assert(entries@.len() == start.len());
            } else {
                assert(entries@.len() == at + 1);
            }
            let want = with_slot(self@, index, name@, f);
            assert(slot_models(entries@).len() == want.len());
            assert forall|j: int| 0 <= j < want.len() implies slot_models(entries@)[j]
                == want[j] by {
                if j < start.len() {
                    assert(self@[j] == slot_model(start[j]));
                }
            }
            assert(slot_models(entries@) =~= want);
        }
        Ok(NativeTableBuilder { entries })
    }

    pub fn build(self) -> (r: Arc<NativeTable>)
        ensures
            r@ == self@,
    {
        Arc::new(NativeTable { entries: self.entries })
    }
}

impl Default for NativeTableBuilder {
    fn default() -> (r: Self)
        ensures
            r@.len() == 0,
    {
        NativeTableBuilder::new()
    }
}

/// What a flow may call, as it was when its authority was issued, and the
/// revocation counters as they are now.
#[derive(Debug)]
pub struct NativeGate {
    pub has_native: bool,
    pub mask: NativeMask,
    pub authority_epoch: u64,
    pub flow_cell: RevocationCell,
    pub native_epoch: u64,
    pub native_cell: RevocationCell,
}

impl Clone for NativeGate {
    fn clone(&self) -> (r: Self)
        ensures
            r == *self,
    {
        NativeGate {
            has_native: self.has_native,
            mask: self.mask.clone(),
            authority_epoch: self.authority_epoch,
            flow_cell: self.flow_cell,
            native_epoch: self.native_epoch,
            native_cell: self.native_cell,
        }
    }
}

/// Neither the flow's authority nor the native table was revoked.
pub open spec fn gate_live(g: NativeGate) -> bool {
    g.flow_cell.count == g.authority_epoch && g.native_cell.count == g.native_epoch
}

/// The verdict of a gate on a call.
pub open spec fn gate_check(g: NativeGate, slots: nat, idx: NativeIdx) -> Result<
    (),
    NativeCallError,
> {
    if idx >= slots {
        Err(NativeCallError::IndexOutOfRange(idx))
    } else if !gate_live(g) {
        Err(NativeCallError::Revoked)
    } else if !g.has_native {
        Err(NativeCallError::NoNativeRight)
    } else if g.mask@.contains(idx as int) {
        Ok(())
    } else {
        Err(NativeCallError::IndexNotAllowlisted(idx))
    }
}

impl NativeGate {
    /// A gate that lets nothing pass.
    pub fn deny(native_count: usize) -> (r: Self)
        ensures
            !r.has_native,
            r.mask@ == Set::<int>::empty(),
            gate_live(r),
    {
        NativeGate {
            has_native: false,
            mask: NativeMask::empty(native_count),
            authority_epoch: 0,
            flow_cell: RevocationCell::new(),
            native_epoch: 0,
            native_cell: RevocationCell::new(),
        }
    }

    /// The native gate of a flow whose authority is `cap`.
    pub fn from_authority(
        cap: &Cap,
        flow_cell: RevocationCell,
        native_cell: RevocationCell,
        native_count: usize,
    ) -> (r: Self)
        ensures
            r.has_native == rights_contain(cap.rights, rights(RIGHT_NATIVE)),
            r.authority_epoch == cap.epoch,
            r.flow_cell == flow_cell,
            r.native_epoch == native_cell.count,
            r.native_cell == native_cell,
            match cap.native_mask {
                Some(m) => r.mask == m,
                None => r.mask@ == Set::<int>::empty(),
            },
    {
        let mask = match &cap.native_mask {
            Some(m) => m.clone(),
            None => NativeMask::empty(native_count),
        };
        NativeGate {
            has_native: cap.rights.contains(CapRights::native()),
            mask,
            authority_epoch: cap.epoch(),
            flow_cell,
            native_epoch: native_cell.epoch(),
            native_cell,
        }
    }

    pub fn is_live(&self) -> (r: bool)
        ensures
            r == gate_live(*self),
    {
        self.flow_cell.epoch() == self.authority_epoch && self.native_cell.epoch()
            == self.native_epoch
    }

    /// Take over the current revocation counters.
    pub fn refresh(&mut self, flow_cell: RevocationCell, native_cell: RevocationCell)
        ensures
            *final(self) == (NativeGate { flow_cell, native_cell, ..*old(self) }),
    {
        self.flow_cell = flow_cell;
        self.native_cell = native_cell;
    }
}

/// The verdict of a capability on a call.
pub open spec fn native_call_check(cap: Cap, slots: nat, idx: NativeIdx) -> Result<
    (),
    NativeCallError,
> {
    if idx >= slots {
        Err(NativeCallError::IndexOutOfRange(idx))
    } else if !rights_contain(cap.rights, rights(RIGHT_NATIVE)) {
        Err(NativeCallError::NoNativeRight)
    } else if cap.native_mask matches Some(m) && m@.contains(idx as int) {
        Ok(())
    } else {
        Err(NativeCallError::IndexNotAllowlisted(idx))
    }
}

/// Whether a capability allows a native call, for hosts that hold one.
pub fn check_native_call(cap: &Cap, table: &NativeTable, idx: NativeIdx) -> (r: Result<
    (),
    NativeCallError,
>)
    ensures
        r == native_call_check(*cap, table@.len(), idx),
{
    if (idx as usize) >= table.len() {
        return Err(NativeCallError::IndexOutOfRange(idx));
    }
    if !cap.rights.contains(CapRights::native()) {
        return Err(NativeCallError::NoNativeRight);
    }
    match &cap.native_mask {
        Some(mask) => if mask.allows(idx) {
            Ok(())
        } else {
            Err(NativeCallError::IndexNotAllowlisted(idx))
        },
        None => Err(NativeCallError::IndexNotAllowlisted(idx)),
    }
}

/// Whether the native gate of a flow lets a native call pass.
pub fn check_native_gate(gate: &NativeGate, table: &NativeTable, idx: NativeIdx) -> (r: Result<
    (),
    NativeCallError,
>)
    ensures
        r == gate_check(*gate, table@.len(), idx),
{
    if (idx as usize) >= table.len() {
        return Err(NativeCallError::IndexOutOfRange(idx));
    }
    if !gate.is_live() {
        return Err(NativeCallError::Revoked);
    }
    if !gate.has_native {
        return Err(NativeCallError::NoNativeRight);
    }
    if gate.mask.allows(idx) {
        Ok(())
    } else {
        Err(NativeCallError::IndexNotAllowlisted(idx))
    }
}

} // verus!
