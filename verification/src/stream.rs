//! The state of one Helius account stream: subscriptions, health and the
//! circuit-breaker state, advanced by what the socket delivers.

use std::collections::HashMap;
use std::time::{Duration, Instant, SystemTime};
use vstd::prelude::*;
use vstd::array::spec_array_fill_for_copy_type;
use vstd::std_specs::hash::spec_values_iter;
use vstd::std_specs::iter::IteratorSpec;

use crate::clock::{
    duration_between, duration_millis, duration_nanos, instant_gap, instant_now, system_now,
};
use crate::codec::{base64_standard_decoding, bs58_decode, bs58_encode, decode_base64, payload_bytes};
use crate::error::StreamError;
use crate::health::{exceeds, BackoffModel, HealthCounters, ReconnectPolicy, StreamHealth};
use crate::protocol::{
    pubkey_from_decoded, reads_pubkey, subscribe_request_for, subscribe_request_json, subscribe_request_text, InboundJson,
    NextStep, SubscribeRequest, WsAccountValue, WsEvent, WsNotification,
};
use crate::types::{AccountUpdate, Pubkey, StreamConfig, StreamState};

verus! {

broadcast use vstd::std_specs::hash::group_hash_axioms;

/// The state of a [`HeliusStream`] as mathematical values.
pub struct SessionModel {
    pub config: StreamConfig,
    pub state: StreamState,
    pub health: HealthCounters,
    /// The clock reading of the last update (of the start, before any).
    pub last_update: Instant,
    pub reconnect: BackoffModel,
    /// Acknowledged subscriptions: server subscription id to account.
    pub subs: Map<u64, Pubkey>,
    /// Subscribe requests sent but not yet acknowledged, oldest first.
    pub pending: Seq<(u64, Pubkey)>,
    pub next_request_id: u64,
}

impl SessionModel {
    /// Whether `pk` has an acknowledged subscription.
    pub open spec fn subscribed(self, pk: Pubkey) -> bool {
        exists|k: u64| #[trigger] self.subs.contains_key(k) && self.subs[k] == pk
    }

    /// Whether a subscribe request for `pk` awaits its acknowledgement.
    pub open spec fn awaiting(self, pk: Pubkey) -> bool {
        exists|i: int| 0 <= i < self.pending.len() && #[trigger] self.pending[i].1 == pk
    }

    /// Whether the stream already covers `pk`, subscribed or pending.
    pub open spec fn tracks(self, pk: Pubkey) -> bool {
        self.subscribed(pk) || self.awaiting(pk)
    }

    /// Whether a request with id `id` awaits its acknowledgement.
    pub open spec fn has_pending_id(self, id: u64) -> bool {
        exists|i: int| 0 <= i < self.pending.len() && #[trigger] self.pending[i].0 == id
    }

    /// The account that subscription `subscription` stands for; the
    /// all-zero key when the subscription is unknown.
    pub open spec fn key_for(self, subscription: u64) -> Pubkey {
        if self.subs.contains_key(subscription) {
            self.subs[subscription]
        } else {
            zero_key()
        }
    }

    /// Whether a sent request `(id, pk)` can be recorded as pending: its id
    /// was handed out, is not pending already, and `pk` is not covered yet.
    pub open spec fn accepts_request(self, id: u64, pk: Pubkey) -> bool {
        &&& id < self.next_request_id
        &&& !self.has_pending_id(id)
        &&& !self.tracks(pk)
    }

    /// The position of the pending request with id `id`.
    pub open spec fn pending_index(self, id: u64) -> int {
        choose|i: int| 0 <= i < self.pending.len() && self.pending[i].0 == id
    }

    /// The stream after the server acknowledged request `request_id` with
    /// subscription id `subscription_id`: a pending request with that id
    /// becomes the subscription; an unknown id changes nothing.
    pub open spec fn after_ack(self, request_id: u64, subscription_id: u64) -> SessionModel {
        if self.has_pending_id(request_id) {
            let i = self.pending_index(request_id);
            SessionModel {
                subs: self.subs.insert(subscription_id, self.pending[i].1),
                pending: self.pending.remove(i),
                ..self
            }
        } else {
            self
        }
    }

    /// The invariant of a stream: request ids are handed out in increasing
    /// order and each pending one is distinct, and no account is covered
    /// twice (not by two subscriptions, two requests, or one of each).
    pub open spec fn wf(self) -> bool {
        &&& self.health.wf()
        &&& self.subs.dom().finite()
        &&& self.next_request_id >= 1
        &&& forall|i: int| 0 <= i < self.pending.len() ==> #[trigger] self.pending[i].0 < self.next_request_id
        &&& forall|i: int, j: int|
            0 <= i < self.pending.len() && 0 <= j < self.pending.len() && i != j ==> #[trigger] self.pending[i].0
                != #[trigger] self.pending[j].0
        &&& forall|i: int, j: int|
            0 <= i < self.pending.len() && 0 <= j < self.pending.len() && i != j ==> #[trigger] self.pending[i].1
                != #[trigger] self.pending[j].1
        &&& forall|k: u64, i: int|
            #![trigger self.subs.contains_key(k), self.pending[i]]
            self.subs.contains_key(k) && 0 <= i < self.pending.len() ==> self.subs[k] != self.pending[i].1
        &&& forall|k1: u64, k2: u64|
            #![trigger self.subs.contains_key(k1), self.subs.contains_key(k2)]
            self.subs.contains_key(k1) && self.subs.contains_key(k2) && k1 != k2 ==> self.subs[k1]
                != self.subs[k2]
    }
}

/// The all-zero key.
pub open spec fn zero_key() -> Pubkey {
    spec_array_fill_for_copy_type::<u8, 32>(0)
}

/// Whether a state lets callers act on the data: connected, or degraded by
/// a gap of at most two slots.
pub open spec fn is_safe_state(state: StreamState) -> bool {
    match state {
        StreamState::Connected { .. } => true,
        StreamState::Degraded { gap_slots } => gap_slots <= 2,
        _ => false,
    }
}

/// What subscribing `pk` does, from `old` to `new`, returning `req`: an
/// account already covered gives no request and changes nothing; a new one
/// gets the next request id, and the request text for that id and account.
pub open spec fn subscribe_outcome(
    old: SessionModel,
    new: SessionModel,
    pk: Pubkey,
    req: Option<SubscribeRequest>,
) -> bool {
    if old.tracks(pk) {
        req is None && new == old
    } else {
        match req {
            Some(r) => {
                &&& r.id == old.next_request_id
                &&& r.pubkey == pk
                &&& r.text@ == subscribe_request_for(r.id, pk)
                &&& new == SessionModel { next_request_id: (old.next_request_id + 1) as u64, ..old }
            },
            None => false,
        }
    }
}

/// What an account update for `subscription` at `slot` does, from `old` to
/// `new`, delivering `u`, with the monotonic clock reading `at` and the
/// wall clock reading `wall`: the health records the slot at `at`, and the
/// state becomes `Degraded` by the number of slots skipped when the update
/// revealed a gap, `Connected` since `wall` otherwise.
pub open spec fn update_outcome(
    old: SessionModel,
    new: SessionModel,
    subscription: u64,
    slot: u64,
    lamports: u64,
    data: Seq<u8>,
    u: AccountUpdate,
    at: Instant,
    wall: SystemTime,
) -> bool {
    &&& u.pubkey == old.key_for(subscription)
    &&& u.lamports == lamports
    &&& u.data@ == data
    &&& u.slot == slot
    &&& u.write_version == slot
    &&& new.health == old.health.after_update(slot)
    &&& new.last_update == at
    &&& if old.health.reveals_gap(slot) {
        new.state == StreamState::Degraded { gap_slots: old.health.gap_before(slot) as u64 }
    } else {
        new.state == StreamState::Connected { since: wall }
    }
    &&& new == SessionModel {
        state: new.state,
        health: new.health,
        last_update: new.last_update,
        ..old
    }
}

/// What subscribing by the base58 address `addr` does, from `old` to
/// `new`, answering `r`: the key the address decodes to is subscribed as by
/// [`subscribe_outcome`], and a request sent carries the address as given;
/// an address that does not read as a key is refused and nothing changes.
pub open spec fn b58_outcome(
    old: SessionModel,
    new: SessionModel,
    addr: Seq<char>,
    r: Result<(Pubkey, Option<SubscribeRequest>), StreamError>,
) -> bool {
    match r {
        Ok((pk, req)) => {
            &&& reads_pubkey(Ok(pk), addr)
            &&& subscribe_outcome(old, new, pk, req)
            &&& req matches Some(q) ==> q.text@ == subscribe_request_json(q.id, addr)
        },
        Err(e) => reads_pubkey(Err(e), addr) && new == old,
    }
}

/// What noting `elapsed` since the last update does, from `old` to `new`:
/// longer than the staleness threshold makes the state `Stale` for the whole
/// milliseconds of `elapsed` (kept as their low 64 bits); otherwise nothing
/// changes.
pub open spec fn staleness_outcome(old: SessionModel, new: SessionModel, elapsed: Duration) -> bool {
    if duration_nanos(elapsed) > duration_nanos(old.config.staleness_threshold) {
        new == SessionModel {
            state: StreamState::Stale {
                stale_for_ms: ((duration_nanos(elapsed) / 1_000_000) as u128) as u64,
            },
            ..old
        }
    } else {
        new == old
    }
}

/// Whether `n` is an account notification the stream takes: its method is
/// `accountNotification` and it carries params with a result.
pub open spec fn is_account_notification(n: WsNotification) -> bool {
    &&& n.method matches Some(m) && m@ == "accountNotification"@
    &&& n.params matches Some(p) && p.result is Some
}

/// The subscription id a notification names (0 when absent).
pub open spec fn notified_subscription(n: WsNotification) -> u64 {
    match n.params {
        Some(p) => match p.subscription {
            Some(s) => s,
            None => 0,
        },
        None => 0,
    }
}

/// The slot a notification carries (0 when it has no context).
pub open spec fn notified_slot(n: WsNotification) -> u64 {
    match n.params {
        Some(p) => match p.result {
            Some(r) => match r.context {
                Some(c) => c.slot,
                None => 0,
            },
            None => 0,
        },
        None => 0,
    }
}

/// The text of the first item of an account value's data, when the data is
/// an array whose first item is a string; empty otherwise.
pub open spec fn data_text(v: WsAccountValue) -> Seq<char> {
    match v.data {
        Some(items) => if items@.len() > 0 && items@[0] is Some {
            items@[0]->0@
        } else {
            Seq::empty()
        },
        None => Seq::empty(),
    }
}

/// The lamports and data bytes a notification carries: those of its value
/// (the data decoded from base64), or 0 and nothing without a value.
pub open spec fn notified_account(n: WsNotification) -> (u64, Seq<u8>) {
    match n.params {
        Some(p) => match p.result {
            Some(r) => match r.value {
                Some(v) => (v.lamports, payload_bytes(data_text(v))),
                None => (0, Seq::empty()),
            },
            None => (0, Seq::empty()),
        },
        None => (0, Seq::empty()),
    }
}

/// Whether handling `event` delivers an account update.
pub open spec fn event_delivers(event: WsEvent) -> bool {
    match event {
        WsEvent::Text(Some(j)) => !(j.result is Some && j.id is Some) && (j.notification matches Some(
            n,
        ) && is_account_notification(n)),
        _ => false,
    }
}

/// What handling `event` does, from `old` to `new`, with next step `step`,
/// where an update takes the clock readings `at` and `wall` (see
/// [`update_outcome`]).
pub open spec fn event_outcome(
    old: SessionModel,
    new: SessionModel,
    event: WsEvent,
    step: NextStep,
    at: Instant,
    wall: SystemTime,
) -> bool {
    match event {
        WsEvent::Text(None) => step is Continue && new == old,
        WsEvent::Text(Some(j)) => if j.result is Some && j.id is Some {
            step is Continue && new == old.after_ack(j.id->0, j.result->0)
        } else {
            match j.notification {
                Some(n) => if is_account_notification(n) {
                    step matches NextStep::Deliver(u) && update_outcome(
                        old,
                        new,
                        notified_subscription(n),
                        notified_slot(n),
                        notified_account(n).0,
                        notified_account(n).1,
                        u,
                        at,
                        wall,
                    )
                } else {
                    step is Continue && new == old
                },
                None => step is Continue && new == old,
            }
        },
        WsEvent::Ping(payload) => step == NextStep::Reply(payload) && new == old,
        WsEvent::Close => step is Finish && new == SessionModel {
            state: StreamState::Failed { reason: new.state->reason },
            ..old
        } && new.state->reason@ == "server close"@,
        WsEvent::Error(why) => step is Finish && new == SessionModel {
            state: StreamState::Failed { reason: why },
            ..old
        },
        WsEvent::Other => step is Continue && new == old,
    }
}

/// Whether two keys hold the same bytes.
pub fn same_key(a: &Pubkey, b: &Pubkey) -> (same: bool)
    ensures
        same == (*a == *b),
{
    let mut i: usize = 0;
    while i < 32
        invariant
            i <= 32,
            forall|j: int| 0 <= j < i ==> a@[j] == b@[j],
        decreases 32 - i,
    {
        if a[i] != b[i] {
            assert(a@[i as int] != b@[i as int]);
            return false;
        }
        i = i + 1;
    }
    assert(*a =~= *b);
    true
}

/// The text of the first data item of an account value (see [`data_text`]).
fn first_data_text(v: &WsAccountValue) -> (text: &str)
    ensures
        text@ == data_text(*v),
{
    proof {
        reveal_strlit("");
    }
    match &v.data {
        Some(items) => {
            if items.len() > 0 {
                match &items[0] {
                    Some(t) => t.as_str(),
                    None => "",
                }
            } else {
                ""
            }
        },
        None => "",
    }
}

/// One step of subscription bookkeeping: a sent request `(id, account)`
/// being recorded ([`HeliusStream::subscription_sent`]), or the server's
/// acknowledgement of request `request_id` as subscription
/// `subscription_id` ([`HeliusStream::acknowledge`]).
pub enum SessionOp {
    Sent(u64, Pubkey),
    Acked(u64, u64),
}

impl SessionModel {
    /// The stream after one bookkeeping step.
    pub open spec fn after_op(self, op: SessionOp) -> SessionModel {
        match op {
            SessionOp::Sent(id, pk) => if self.accepts_request(id, pk) {
                SessionModel { pending: self.pending.push((id, pk)), ..self }
            } else {
                self
            },
            SessionOp::Acked(request_id, subscription_id) => self.after_ack(request_id, subscription_id),
        }
    }

    /// The stream after the bookkeeping steps `ops`, in order.
    pub open spec fn after_ops(self, ops: Seq<SessionOp>) -> SessionModel
        decreases ops.len(),
    {
        if ops.len() == 0 {
            self
        } else {
            self.after_ops(ops.drop_last()).after_op(ops.last())
        }
    }

    /// How many of the steps `ops` recorded a request as pending.
    pub open spec fn requests_recorded(self, ops: Seq<SessionOp>) -> nat
        decreases ops.len(),
    {
        if ops.len() == 0 {
            0
        } else {
            self.requests_recorded(ops.drop_last()) + match ops.last() {
                SessionOp::Sent(id, pk) => if self.after_ops(ops.drop_last()).accepts_request(id, pk) {
                    1nat
                } else {
                    0nat
                },
                SessionOp::Acked(_, _) => 0nat,
            }
        }
    }

    /// How many of the steps `ops` acknowledged a pending request.
    pub open spec fn requests_acknowledged(self, ops: Seq<SessionOp>) -> nat
        decreases ops.len(),
    {
        if ops.len() == 0 {
            0
        } else {
            self.requests_acknowledged(ops.drop_last()) + match ops.last() {
                SessionOp::Acked(request_id, _) => if self.after_ops(ops.drop_last()).has_pending_id(
                    request_id,
                ) {
                    1nat
                } else {
                    0nat
                },
                SessionOp::Sent(_, _) => 0nat,
            }
        }
    }

    /// How many of the steps `ops` acknowledged a pending request under a
    /// subscription id already in use (replacing its account).
    pub open spec fn subscriptions_replaced(self, ops: Seq<SessionOp>) -> nat
        decreases ops.len(),
    {
        if ops.len() == 0 {
            0
        } else {
            self.subscriptions_replaced(ops.drop_last()) + match ops.last() {
                SessionOp::Acked(request_id, subscription_id) => {
                    let m = self.after_ops(ops.drop_last());
                    if m.has_pending_id(request_id) && m.subs.contains_key(subscription_id) {
                        1nat
                    } else {
                        0nat
                    }
                },
                SessionOp::Sent(_, _) => 0nat,
            }
        }
    }
}

/// A resilient Helius account stream, without its socket: it decides what
/// to send and what to make of what arrives.
pub struct HeliusStream {
    config: StreamConfig,
    state: StreamState,
    health: StreamHealth,
    reconnect: ReconnectPolicy,
    /// Maps server-assigned subscription_id to pubkey.
    subs: HashMap<u64, Pubkey>,
    /// Subscribe requests sent but not yet acknowledged.
    pending_subs: Vec<(u64, Pubkey)>,
    next_request_id: u64,
}

impl View for HeliusStream {
    type V = SessionModel;

    closed spec fn view(&self) -> SessionModel {
        SessionModel {
            config: self.config,
            state: self.state,
            health: self.health@,
            last_update: self.health.spec_last_update(),
            reconnect: self.reconnect@,
            subs: self.subs@,
            pending: self.pending_subs@,
            next_request_id: self.next_request_id,
        }
    }
}

impl HeliusStream {
    /// The state of a stream whose connection was just opened: connected
    /// since now, with fresh health, default backoff and no subscription
    /// (see [`HeliusStream::new_at`], with the clock readings taken now).
    pub fn new(config: StreamConfig) -> (s: Self)
        ensures
            s@.wf(),
            s@.config == config,
            s@.state is Connected,
            s@.health == HealthCounters::initial(),
            s@.reconnect == (BackoffModel { attempt: 0, base_ms: 100, max_ms: 10_000 }),
            s@.subs == Map::<u64, Pubkey>::empty(),
            s@.pending == Seq::<(u64, Pubkey)>::empty(),
            s@.next_request_id == 1,
    {
        Self::new_at(config, system_now(), instant_now())
    }

    /// The state of a stream whose connection was opened at wall-clock time
    /// `wall`, its health clock started at `at`: connected since `wall`,
    /// with fresh health, default backoff and no subscription.
    pub fn new_at(config: StreamConfig, wall: SystemTime, at: Instant) -> (s: Self)
        ensures
            s@.wf(),
            s@.config == config,
            s@.state == (StreamState::Connected { since: wall }),
            s@.health == HealthCounters::initial(),
            s@.last_update == at,
            s@.reconnect == (BackoffModel { attempt: 0, base_ms: 100, max_ms: 10_000 }),
            s@.subs == Map::<u64, Pubkey>::empty(),
            s@.pending == Seq::<(u64, Pubkey)>::empty(),
            s@.next_request_id == 1,
    {
        HeliusStream {
            config,
            state: StreamState::Connected { since: wall },
            health: StreamHealth::started_at(at),
            reconnect: ReconnectPolicy::new(),
            subs: HashMap::new(),
            pending_subs: Vec::new(),
            next_request_id: 1,
        }
    }

    fn is_subscribed(&self, pubkey: &Pubkey) -> (found: bool)
        ensures
            found == self@.subscribed(*pubkey),
    {
        let ghost values = spec_values_iter(&self.subs).remaining();
        let mut found = false;
        for pk in it: self.subs.values()
            invariant
                it.seq() == values,
                found == exists|i: int| 0 <= i < it.index() && *values[i] == *pubkey,
        {
            if same_key(pk, pubkey) {
                found = true;
            }
        }
        proof {
            assert(found == exists|i: int| 0 <= i < values.len() && *values[i] == *pubkey);
            assert(values.unref().to_set() == self.subs@.values());
            if found {
                let i = choose|i: int| 0 <= i < values.len() && *values[i] == *pubkey;
                assert(values.unref()[i] == *pubkey);
                assert(values.unref().to_set().contains(*pubkey));
                let k = choose|k: u64| self.subs@.dom().contains(k) && self.subs@[k] == *pubkey;
                assert(self@.subs.contains_key(k));
            } else if self@.subscribed(*pubkey) {
                assert(self.subs@.values().contains(*pubkey));
                let i = choose|i: int| 0 <= i < values.unref().len() && values.unref()[i] == *pubkey;
                assert(*values[i] == *pubkey);
            }
        }
        found
    }

    fn is_pending(&self, pubkey: &Pubkey) -> (found: bool)
        ensures
            found == self@.awaiting(*pubkey),
    {
        let n = self.pending_subs.len();
        let mut i: usize = 0;
        while i < n
            invariant
                n == self.pending_subs@.len(),
                i <= n,
                forall|j: int| 0 <= j < i ==> self.pending_subs@[j].1 != *pubkey,
            decreases n - i,
        {
            if same_key(&self.pending_subs[i].1, pubkey) {
                assert(self@.pending[i as int].1 == *pubkey);
                return true;
            }
            i = i + 1;
        }
        false
    }

    fn has_pending_id(&self, id: u64) -> (found: bool)
        ensures
            found == self@.has_pending_id(id),
    {
        let n = self.pending_subs.len();
        let mut i: usize = 0;
        while i < n
            invariant
                n == self.pending_subs@.len(),
                i <= n,
                forall|j: int| 0 <= j < i ==> self.pending_subs@[j].0 != id,
            decreases n - i,
        {
            if self.pending_subs[i].0 == id {
                assert(self@.pending[i as int].0 == id);
                return true;
            }
            i = i + 1;
        }
        false
    }

    /// Whether the stream already covers `pubkey`: subscribed, or with a
    /// subscribe request awaiting its acknowledgement.
    pub fn is_tracked(&self, pubkey: &Pubkey) -> (found: bool)
        ensures
            found == self@.tracks(*pubkey),
    {
        self.is_subscribed(pubkey) || self.is_pending(pubkey)
    }

    /// Decides what subscribing to the account `pubkey` takes. An account
    /// the stream already covers needs nothing (`None`); otherwise the next
    /// request id is taken and the request to send is returned. Once it has
    /// been sent, report it with [`HeliusStream::subscription_sent`].
    pub fn subscribe_account(&mut self, pubkey: Pubkey) -> (req: Option<SubscribeRequest>)
        requires
            old(self)@.wf(),
            !old(self)@.tracks(pubkey) ==> old(self)@.next_request_id < u64::MAX,
        ensures
            final(self)@.wf(),
            subscribe_outcome(old(self)@, final(self)@, pubkey, req),
            req matches Some(r) ==> final(self)@.accepts_request(r.id, r.pubkey),
    {
        if self.is_tracked(&pubkey) {
            return None;
        }
        let addr = bs58_encode(&pubkey);
        let id = self.next_request_id;
        self.next_request_id = id + 1;
        let text = subscribe_request_text(id, addr.as_str());
        let req = SubscribeRequest { id, pubkey, text };
        proof {
            let o = old(self)@;
            let m = self@;
            assert(m.pending == o.pending);
            assert(m.subs == o.subs);
            assert forall|i: int| 0 <= i < m.pending.len() implies #[trigger] m.pending[i].0 < id by {
                assert(o.pending[i].0 < o.next_request_id);
            }
        }
        Some(req)
    }

    /// Records that `request` went out: it becomes pending, unless its id
    /// was not handed out by this stream, is pending already, or its
    /// account is covered already (then nothing changes).
    pub fn subscription_sent(&mut self, request: &SubscribeRequest)
        requires
            old(self)@.wf(),
        ensures
            final(self)@.wf(),
            final(self)@ == old(self)@.after_op(SessionOp::Sent(request.id, request.pubkey)),
    {
        if request.id < self.next_request_id && !self.has_pending_id(request.id)
            && !self.is_tracked(&request.pubkey) {
            self.pending_subs.push((request.id, request.pubkey));
        }
        proof {
            lemma_op_keeps_wf(old(self)@, SessionOp::Sent(request.id, request.pubkey));
        }
    }

    /// Reads the base58 address `addr` and subscribes to that account (see
    /// [`HeliusStream::subscribe_account`]). An address that does not
    /// decode to exactly 32 bytes is refused with `InvalidPubkey`, and
    /// nothing changes. A request sent carries the address as given.
    pub fn subscribe_account_b58(&mut self, addr: &str) -> (r: Result<
        (Pubkey, Option<SubscribeRequest>),
        StreamError,
    >)
        requires
            old(self)@.wf(),
            forall|pk: Pubkey| #[trigger] reads_pubkey(Ok(pk), addr@) && !old(self)@.tracks(pk)
                ==> old(self)@.next_request_id < u64::MAX,
        ensures
            final(self)@.wf(),
            b58_outcome(old(self)@, final(self)@, addr@, r),
    {
        let decoded = bs58_decode(addr);
        match pubkey_from_decoded(addr, decoded) {
            Ok(pk) => {
                assert(reads_pubkey(Ok(pk), addr@));
                let req = self.subscribe_account(pk);
                Ok((pk, req))
            },
            Err(e) => Err(e),
        }
    }

    /// [`HeliusStream::subscribe_account_b58`] where request ids allow it:
    /// when `addr` names an account not yet covered and the request ids
    /// have run out, nothing changes and the answer is `None`.
    pub fn subscribe_account_b58_within_ids(&mut self, addr: &str) -> (r: Option<
        Result<(Pubkey, Option<SubscribeRequest>), StreamError>,
    >)
        requires
            old(self)@.wf(),
        ensures
            final(self)@.wf(),
            match r {
                Some(res) => b58_outcome(old(self)@, final(self)@, addr@, res),
                None => {
                    &&& final(self)@ == old(self)@
                    &&& old(self)@.next_request_id == u64::MAX
                    &&& exists|pk: Pubkey| #[trigger] reads_pubkey(Ok(pk), addr@) && !old(self)@.tracks(pk)
                },
            },
    {
        if self.next_request_id == u64::MAX {
            let decoded = bs58_decode(addr);
            let key = pubkey_from_decoded(addr, decoded);
            match key {
                Ok(pk) => {
                    if !self.is_tracked(&pk) {
                        assert(reads_pubkey(Ok(pk), addr@));
                        return None;
                    }
                    assert forall|other: Pubkey| #[trigger] reads_pubkey(Ok(other), addr@) implies other == pk by {
                        assert(other@ =~= pk@);
                        assert(other =~= pk);
                    }
                },
                Err(_) => {},
            }
        }
        Some(self.subscribe_account_b58(addr))
    }

    /// The server acknowledged request `request_id` with subscription id
    /// `subscription_id`: the pending request with that id becomes a
    /// subscription (replacing any account that id stood for); an unknown
    /// request id changes nothing. See
    /// [`lemma_ack_subscribes_pending_account`] for the counts.
    pub fn acknowledge(&mut self, request_id: u64, subscription_id: u64)
        requires
            old(self)@.wf(),
        ensures
            final(self)@.wf(),
            final(self)@ == old(self)@.after_ack(request_id, subscription_id),
    {
        let n = self.pending_subs.len();
        let mut i: usize = 0;
        while i < n
            invariant
                self@ == old(self)@,
                self@.wf(),
                n == self.pending_subs@.len(),
                i <= n,
                forall|j: int| 0 <= j < i ==> self.pending_subs@[j].0 != request_id,
            decreases n - i,
        {
            if self.pending_subs[i].0 == request_id {
                let ghost o = self@;
                let entry = self.pending_subs.remove(i);
                self.subs.insert(subscription_id, entry.1);
                proof {
                    assert(o.pending[i as int].0 == request_id);
                    assert(o.has_pending_id(request_id));
                    let c = o.pending_index(request_id);
                    assert(c == i as int);
                    lemma_ack_keeps_wf(o, request_id, subscription_id);
                }
                return;
            }
            i = i + 1;
        }
    }

    /// Applies an account update for subscription `subscription` at
    /// `slot`, with the clocks read now (see [`HeliusStream::apply_update_at`]).
    pub fn apply_update(&mut self, subscription: u64, slot: u64, lamports: u64, data: Vec<u8>) -> (u:
        AccountUpdate)
        requires
            old(self)@.wf(),
            old(self)@.health.has_room(),
        ensures
            final(self)@.wf(),
            exists|at: Instant, wall: SystemTime|
                #[trigger] update_outcome(old(self)@, final(self)@, subscription, slot, lamports, data@, u, at, wall),
    {
        let at = instant_now();
        let wall = system_now();
        let u = self.apply_update_at(subscription, slot, lamports, data, at, wall);
        assert(update_outcome(old(self)@, self@, subscription, slot, lamports, u.data@, u, at, wall));
        u
    }

    /// Applies an account update for subscription `subscription` at
    /// `slot`, received at monotonic time `at` and wall-clock time `wall`:
    /// the health records the slot at `at`, the state follows it
    /// (`Degraded` after a gap, `Connected` since `wall` otherwise), and the
    /// update is returned with the account the subscription stands for.
    pub fn apply_update_at(
        &mut self,
        subscription: u64,
        slot: u64,
        lamports: u64,
        data: Vec<u8>,
        at: Instant,
        wall: SystemTime,
    ) -> (u: AccountUpdate)
        requires
            old(self)@.wf(),
            old(self)@.health.has_room(),
        ensures
            final(self)@.wf(),
            update_outcome(old(self)@, final(self)@, subscription, slot, lamports, data@, u, at, wall),
    {
        let pubkey: Pubkey = match self.subs.get(&subscription) {
            Some(pk) => *pk,
            None => [0u8; 32],
        };
        let previous_slot = self.health.last_slot();
        let gap = self.health.record_update_at(slot, at);
        if gap {
            let gap_slots = slot - previous_slot - 1;
            self.state = StreamState::Degraded { gap_slots };
        } else {
            self.state = StreamState::Connected { since: wall };
        }
        proof {
            lemma_wf_frame(old(self)@, self@);
        }
        AccountUpdate { pubkey, lamports, data, slot, write_version: slot }
    }

    fn accept_notification(&mut self, n: WsNotification, at: Instant, wall: SystemTime) -> (u: Option<
        AccountUpdate,
    >)
        requires
            old(self)@.wf(),
            is_account_notification(n) ==> old(self)@.health.has_room(),
        ensures
            final(self)@.wf(),
            if is_account_notification(n) {
                u matches Some(upd) && update_outcome(
                    old(self)@,
                    final(self)@,
                    notified_subscription(n),
                    notified_slot(n),
                    notified_account(n).0,
                    notified_account(n).1,
                    upd,
                    at,
                    wall,
                )
            } else {
                u is None && final(self)@ == old(self)@
            },
    {
        let expected = String::from_str("accountNotification");
        let named = match &n.method {
            Some(m) => *m == expected,
            None => false,
        };
        if !named {
            return None;
        }
        let params = match n.params {
            Some(p) => p,
            None => return None,
        };
        let subscription = match params.subscription {
            Some(sub) => sub,
            None => 0,
        };
        let result = match params.result {
            Some(r) => r,
            None => return None,
        };
        let slot = match result.context {
            Some(c) => c.slot,
            None => 0,
        };
        let (lamports, data) = match result.value {
            Some(v) => {
                let data = decode_base64(first_data_text(&v));
                (v.lamports, data)
            },
            None => (0, Vec::new()),
        };
        Some(self.apply_update_at(subscription, slot, lamports, data, at, wall))
    }

    /// Whether handling `event` delivers an account update (and so records
    /// a slot in the health).
    pub fn delivers(event: &WsEvent) -> (d: bool)
        ensures
            d == event_delivers(*event),
    {
        match event {
            WsEvent::Text(Some(json)) => {
                if json.result.is_some() && json.id.is_some() {
                    false
                } else {
                    match &json.notification {
                        Some(n) => {
                            let expected = String::from_str("accountNotification");
                            let named = match &n.method {
                                Some(m) => *m == expected,
                                None => false,
                            };
                            named && match &n.params {
                                Some(p) => p.result.is_some(),
                                None => false,
                            }
                        },
                        None => false,
                    }
                }
            },
            _ => false,
        }
    }

    /// Whether the health can record one more update without its counters
    /// overflowing.
    pub fn has_room_for_update(&self) -> (room: bool)
        ensures
            room == self@.health.has_room(),
    {
        self.health.total_updates() < u64::MAX
    }

    /// Advances the stream by one event read from the socket, with the
    /// clocks read now (see [`HeliusStream::handle_event_at`]).
    pub fn handle_event(&mut self, event: WsEvent) -> (step: NextStep)
        requires
            old(self)@.wf(),
            event_delivers(event) ==> old(self)@.health.has_room(),
        ensures
            final(self)@.wf(),
            exists|at: Instant, wall: SystemTime|
                #[trigger] event_outcome(old(self)@, final(self)@, event, step, at, wall),
    {
        let at = instant_now();
        let wall = system_now();
        let ghost e = event;
        let step = self.handle_event_at(event, at, wall);
        assert(event_outcome(old(self)@, self@, e, step, at, wall));
        step
    }

    /// Advances the stream by one event read from the socket at monotonic
    /// time `at` and wall-clock time `wall`, and says what the reader does
    /// next: acknowledgements complete pending requests, account
    /// notifications become updates, pings are answered, and a close or a
    /// read error ends the stream in the `Failed` state.
    pub fn handle_event_at(&mut self, event: WsEvent, at: Instant, wall: SystemTime) -> (step: NextStep)
        requires
            old(self)@.wf(),
            event_delivers(event) ==> old(self)@.health.has_room(),
        ensures
            final(self)@.wf(),
            event_outcome(old(self)@, final(self)@, event, step, at, wall),
    {
        match event {
            WsEvent::Text(None) => NextStep::Continue,
            WsEvent::Text(Some(json)) => {
                match (json.result, json.id) {
                    (Some(subscription_id), Some(request_id)) => {
                        self.acknowledge(request_id, subscription_id);
                        NextStep::Continue
                    },
                    _ => match json.notification {
                        Some(n) => match self.accept_notification(n, at, wall) {
                            Some(update) => NextStep::Deliver(update),
                            None => NextStep::Continue,
                        },
                        None => NextStep::Continue,
                    },
                }
            },
            WsEvent::Ping(payload) => NextStep::Reply(payload),
            WsEvent::Close => {
                self.state = StreamState::Failed { reason: String::from_str("server close") };
                proof {
                    lemma_wf_frame(old(self)@, self@);
                }
                NextStep::Finish
            },
            WsEvent::Error(why) => {
                self.state = StreamState::Failed { reason: why };
                proof {
                    lemma_wf_frame(old(self)@, self@);
                }
                NextStep::Finish
            },
            WsEvent::Other => NextStep::Continue,
        }
    }

    /// Re-checks freshness: reads the clock as `now` and hands the time
    /// from the last update to `now` to [`HeliusStream::note_elapsed`].
    /// Which reading the call takes depends on when it is made.
    pub fn check_staleness(&mut self)
        requires
            old(self)@.wf(),
        ensures
            final(self)@.wf(),
            exists|now: Instant|
                #![trigger instant_gap(now, old(self)@.last_update)]
                staleness_outcome(old(self)@, final(self)@, instant_gap(now, old(self)@.last_update)),
    {
        let now = instant_now();
        let elapsed = duration_between(&now, &self.health.last_update());
        self.note_elapsed(elapsed);
        assert(staleness_outcome(old(self)@, self@, instant_gap(now, old(self)@.last_update)));
    }

    /// Decides staleness for `elapsed` since the last update: longer than
    /// the configured threshold makes the state `Stale` for that many whole
    /// milliseconds; otherwise nothing changes.
    pub fn note_elapsed(&mut self, elapsed: Duration)
        requires
            old(self)@.wf(),
        ensures
            final(self)@.wf(),
            staleness_outcome(old(self)@, final(self)@, elapsed),
    {
        if exceeds(&elapsed, &self.config.staleness_threshold) {
            self.mark_stale(duration_millis(&elapsed));
        }
    }

    /// Marks the stream stale for `stale_for_ms` milliseconds (kept as its
    /// low 64 bits).
    pub fn mark_stale(&mut self, stale_for_ms: u128)
        requires
            old(self)@.wf(),
        ensures
            final(self)@.wf(),
            final(self)@ == (SessionModel {
                state: StreamState::Stale { stale_for_ms: stale_for_ms as u64 },
                ..old(self)@
            }),
    {
        self.state = StreamState::Stale { stale_for_ms: stale_for_ms as u64 };
    }

    /// True if state is `Connected` or mildly `Degraded` (at most a 2-slot
    /// gap). Use this as a circuit breaker before acting on data.
    pub fn is_safe_for_simulation(&self) -> (safe: bool)
        ensures
            safe == is_safe_state(self@.state),
    {
        match &self.state {
            StreamState::Connected { .. } => true,
            StreamState::Degraded { gap_slots } => *gap_slots <= 2,
            _ => false,
        }
    }

    pub fn state(&self) -> (s: &StreamState)
        ensures
            *s == self@.state,
    {
        &self.state
    }

    pub fn health(&self) -> (h: &StreamHealth)
        ensures
            h@ == self@.health,
    {
        &self.health
    }

    pub fn reconnect_policy_mut(&mut self) -> (policy: &mut ReconnectPolicy)
        ensures
            policy@ == old(self)@.reconnect,
            final(self)@ == (SessionModel { reconnect: final(policy)@, ..old(self)@ }),
    {
        &mut self.reconnect
    }

    pub fn subscription_count(&self) -> (n: usize)
        ensures
            n == self@.subs.len(),
    {
        self.subs.len()
    }

    pub fn pending_count(&self) -> (n: usize)
        ensures
            n == self@.pending.len(),
    {
        self.pending_subs.len()
    }

    /// The id the next subscribe request will carry.
    pub fn next_request_id(&self) -> (id: u64)
        ensures
            id == self@.next_request_id,
    {
        self.next_request_id
    }

    pub fn config(&self) -> (c: &StreamConfig)
        ensures
            *c == self@.config,
    {
        &self.config
    }
}

/// The circuit breaker after an update: a clean update leaves the stream
/// safe to act on; an update that skipped slots leaves it safe exactly when
/// it skipped at most two.
pub proof fn lemma_update_trips_breaker_on_wide_gap(
    old: SessionModel,
    new: SessionModel,
    subscription: u64,
    slot: u64,
    lamports: u64,
    data: Seq<u8>,
    u: AccountUpdate,
    at: Instant,
    wall: SystemTime,
)
    requires
        update_outcome(old, new, subscription, slot, lamports, data, u, at, wall),
    ensures
        !old.health.reveals_gap(slot) ==> is_safe_state(new.state),
        old.health.reveals_gap(slot) ==> (is_safe_state(new.state) <==> old.health.gap_before(slot) <= 2),
        old.health.reveals_gap(slot) ==> old.health.gap_before(slot) >= 1,
{
}

/// Once a subscribe request for a new account has been sent and recorded,
/// the stream covers that account, so subscribing to it again sends
/// nothing and changes nothing.
pub proof fn lemma_recorded_request_covers_account(
    m0: SessionModel,
    m1: SessionModel,
    pk: Pubkey,
    r: SubscribeRequest,
    m3: SessionModel,
    again: Option<SubscribeRequest>,
)
    requires
        m0.wf(),
        !m0.tracks(pk),
        m0.next_request_id < u64::MAX,
        subscribe_outcome(m0, m1, pk, Some(r)),
        subscribe_outcome(
            SessionModel { pending: m1.pending.push((r.id, r.pubkey)), ..m1 },
            m3,
            pk,
            again,
        ),
    ensures
        m1.accepts_request(r.id, r.pubkey),
        (SessionModel { pending: m1.pending.push((r.id, r.pubkey)), ..m1 }).tracks(pk),
        again is None,
        m3 == (SessionModel { pending: m1.pending.push((r.id, r.pubkey)), ..m1 }),
{
    let m2 = SessionModel { pending: m1.pending.push((r.id, r.pubkey)), ..m1 };
    assert(m2.pending[m1.pending.len() as int].1 == pk);
    assert forall|i: int| 0 <= i < m1.pending.len() implies #[trigger] m1.pending[i].0 != r.id by {
        assert(m0.pending[i].0 < m0.next_request_id);
    }
}

/// An acknowledgement of a pending request turns its account into a
/// subscription under the acknowledged id, leaves one request less
/// pending, and covers no account that was not covered before.
pub proof fn lemma_ack_subscribes_pending_account(m: SessionModel, request_id: u64, subscription_id: u64)
    requires
        m.wf(),
        m.has_pending_id(request_id),
    ensures
        ({
            let pk = m.pending[m.pending_index(request_id)].1;
            let a = m.after_ack(request_id, subscription_id);
            &&& a.subs.contains_key(subscription_id) && a.subs[subscription_id] == pk
            &&& !a.awaiting(pk)
            &&& a.pending.len() == m.pending.len() - 1
            &&& a.subs.len() == m.subs.len() + if m.subs.contains_key(subscription_id) {
                0int
            } else {
                1int
            }
            &&& forall|x: Pubkey| a.tracks(x) ==> m.tracks(x)
        }),
{
    let i = m.pending_index(request_id);
    let pk = m.pending[i].1;
    let a = m.after_ack(request_id, subscription_id);
    lemma_ack_keeps_wf(m, request_id, subscription_id);
    assert forall|x: int| 0 <= x < a.pending.len() implies #[trigger] a.pending[x].1 != pk by {
        let x2 = if x < i { x } else { x + 1 };
        assert(a.pending[x] == m.pending[x2]);
    }
    assert forall|x: Pubkey| a.tracks(x) implies m.tracks(x) by {
        if a.subscribed(x) {
            let k = choose|k: u64| #[trigger] a.subs.contains_key(k) && a.subs[k] == x;
            if k == subscription_id {
                assert(m.pending[i].1 == x);
            } else {
                assert(m.subs.contains_key(k));
            }
        } else {
            let y = choose|y: int| 0 <= y < a.pending.len() && #[trigger] a.pending[y].1 == x;
            let y2 = if y < i { y } else { y + 1 };
            assert(m.pending[y2].1 == x);
        }
    }
}

/// Request ids grow across a stream: no event changes the id counter, and
/// a request made after another carries a larger id.
pub proof fn lemma_request_ids_increase(
    m0: SessionModel,
    m1: SessionModel,
    pk1: Pubkey,
    r1: SubscribeRequest,
    m2: SessionModel,
    m3: SessionModel,
    pk2: Pubkey,
    r2: SubscribeRequest,
)
    requires
        m0.next_request_id < u64::MAX,
        subscribe_outcome(m0, m1, pk1, Some(r1)),
        m1.next_request_id <= m2.next_request_id,
        subscribe_outcome(m2, m3, pk2, Some(r2)),
    ensures
        r1.id < r2.id,
{
}

/// Handling an event never changes the request id counter.
pub proof fn lemma_events_keep_request_ids(
    old: SessionModel,
    new: SessionModel,
    event: WsEvent,
    step: NextStep,
    at: Instant,
    wall: SystemTime,
)
    requires
        event_outcome(old, new, event, step, at, wall),
    ensures
        new.next_request_id == old.next_request_id,
{
}

/// A server close or a read error ends the stream: the reader stops and
/// the stream is no longer safe to act on.
pub proof fn lemma_end_of_stream_is_unsafe(
    old: SessionModel,
    new: SessionModel,
    event: WsEvent,
    step: NextStep,
    at: Instant,
    wall: SystemTime,
)
    requires
        event is Close || event is Error,
        event_outcome(old, new, event, step, at, wall),
    ensures
        step is Finish,
        new.state is Failed,
        !is_safe_state(new.state),
{
}

/// Every bookkeeping step keeps the invariant of a stream.
pub proof fn lemma_op_keeps_wf(m: SessionModel, op: SessionOp)
    requires
        m.wf(),
    ensures
        m.after_op(op).wf(),
{
    match op {
        SessionOp::Sent(id, pk) => {
            if m.accepts_request(id, pk) {
                let a = m.after_op(op);
                let n = m.pending.len();
                assert forall|i: int, j: int|
                    0 <= i < a.pending.len() && 0 <= j < a.pending.len() && i != j implies #[trigger] a.pending[i].0
                        != #[trigger] a.pending[j].0 && a.pending[i].1 != a.pending[j].1 by {
                    if j == n {
                        assert(m.pending[i] == a.pending[i]);
                    } else if i == n {
                        assert(m.pending[j] == a.pending[j]);
                    } else {
                        assert(m.pending[i] == a.pending[i] && m.pending[j] == a.pending[j]);
                    }
                }
                assert forall|k: u64, i: int|
                    #![trigger a.subs.contains_key(k), a.pending[i]]
                    a.subs.contains_key(k) && 0 <= i < a.pending.len() implies a.subs[k] != a.pending[i].1 by {
                    if i < n {
                        assert(m.pending[i] == a.pending[i]);
                    }
                }
                assert forall|i: int| 0 <= i < a.pending.len() implies #[trigger] a.pending[i].0 < a.next_request_id by {
                    if i < n {
                        assert(m.pending[i] == a.pending[i]);
                    }
                }
            }
        },
        SessionOp::Acked(request_id, subscription_id) => {
            lemma_ack_keeps_wf(m, request_id, subscription_id);
        },
    }
}

/// The counts over a run of bookkeeping steps: every recorded request
/// adds one pending request; every acknowledged one moves a pending request
/// to the subscriptions, adding a subscription unless its id was in use.
/// So a fresh stream that recorded `p` requests and saw `k` of them
/// acknowledged under distinct new ids holds `k` subscriptions and `p - k`
/// pending requests.
pub proof fn lemma_bookkeeping_counts(m: SessionModel, ops: Seq<SessionOp>)
    requires
        m.wf(),
    ensures
        m.after_ops(ops).wf(),
        m.after_ops(ops).pending.len() == m.pending.len() + m.requests_recorded(ops)
            - m.requests_acknowledged(ops),
        m.after_ops(ops).subs.len() == m.subs.len() + m.requests_acknowledged(ops)
            - m.subscriptions_replaced(ops),
    decreases ops.len(),
{
    if ops.len() > 0 {
        lemma_bookkeeping_counts(m, ops.drop_last());
        let p = m.after_ops(ops.drop_last());
        lemma_op_keeps_wf(p, ops.last());
        match ops.last() {
            SessionOp::Sent(id, pk) => {},
            SessionOp::Acked(request_id, subscription_id) => {
                if p.has_pending_id(request_id) {
                    lemma_ack_subscribes_pending_account(p, request_id, subscription_id);
                }
            },
        }
    }
}

/// Bookkeeping steps never change the request id counter.
pub proof fn lemma_ops_keep_request_ids(m: SessionModel, ops: Seq<SessionOp>)
    ensures
        m.after_ops(ops).next_request_id == m.next_request_id,
    decreases ops.len(),
{
    if ops.len() > 0 {
        lemma_ops_keep_request_ids(m, ops.drop_last());
    }
}

/// Request ids are never reused on a stream: after a request for one
/// account, any run of recorded sends and acknowledgements, and a request
/// for another account, the later request carries the larger id.
pub proof fn lemma_request_ids_increase_over_run(
    m0: SessionModel,
    m1: SessionModel,
    pk1: Pubkey,
    r1: SubscribeRequest,
    ops: Seq<SessionOp>,
    m2: SessionModel,
    pk2: Pubkey,
    r2: SubscribeRequest,
)
    requires
        m0.next_request_id < u64::MAX,
        subscribe_outcome(m0, m1, pk1, Some(r1)),
        subscribe_outcome(m1.after_ops(ops), m2, pk2, Some(r2)),
    ensures
        r1.id < r2.id,
{
    lemma_ops_keep_request_ids(m1, ops);
    lemma_request_ids_increase(m0, m1, pk1, r1, m1.after_ops(ops), m2, pk2, r2);
}

/// The subscription id an acknowledgement carries.
pub open spec fn acked_subscription(op: SessionOp) -> Option<u64> {
    match op {
        SessionOp::Acked(_, subscription_id) => Some(subscription_id),
        SessionOp::Sent(_, _) => None,
    }
}

/// Whether the acknowledgements among `ops` carry distinct subscription
/// ids.
pub open spec fn distinct_subscription_ids(ops: Seq<SessionOp>) -> bool {
    forall|i: int, j: int|
        0 <= i < j < ops.len() && (#[trigger] acked_subscription(ops[i])) is Some
            ==> acked_subscription(ops[i]) != #[trigger] acked_subscription(ops[j])
}

proof fn lemma_subscription_ids_come_from_acks(m: SessionModel, ops: Seq<SessionOp>, k: u64)
    requires
        m.subs.dom().is_empty(),
        m.after_ops(ops).subs.contains_key(k),
    ensures
        exists|i: int| 0 <= i < ops.len() && #[trigger] acked_subscription(ops[i]) == Some(k),
    decreases ops.len(),
{
    if ops.len() == 0 {
        assert(m.subs.contains_key(k));
    } else {
        let p = m.after_ops(ops.drop_last());
        let n = ops.len() - 1;
        if acked_subscription(ops[n]) == Some(k) {
        } else {
            match ops.last() {
                SessionOp::Sent(id, pk) => {},
                SessionOp::Acked(request_id, subscription_id) => {},
            }
            assert(p.subs.contains_key(k));
            lemma_subscription_ids_come_from_acks(m, ops.drop_last(), k);
            let i = choose|i: int| 0 <= i < n && #[trigger] acked_subscription(ops.drop_last()[i]) == Some(k);
            assert(ops[i] == ops.drop_last()[i]);
        }
    }
}

proof fn lemma_distinct_ids_replace_nothing(m: SessionModel, ops: Seq<SessionOp>)
    requires
        m.subs.dom().is_empty(),
        distinct_subscription_ids(ops),
    ensures
        m.subscriptions_replaced(ops) == 0,
    decreases ops.len(),
{
    if ops.len() > 0 {
        let prev = ops.drop_last();
        let n = ops.len() - 1;
        assert(distinct_subscription_ids(prev)) by {
            assert forall|i: int, j: int|
                0 <= i < j < prev.len() && (#[trigger] acked_subscription(prev[i])) is Some implies acked_subscription(
                    prev[i],
                ) != #[trigger] acked_subscription(prev[j]) by {
                assert(prev[i] == ops[i] && prev[j] == ops[j]);
            }
        }
        lemma_distinct_ids_replace_nothing(m, prev);
        match ops.last() {
            SessionOp::Sent(_, _) => {},
            SessionOp::Acked(request_id, subscription_id) => {
                let p = m.after_ops(prev);
                if p.subs.contains_key(subscription_id) {
                    lemma_subscription_ids_come_from_acks(m, prev, subscription_id);
                    let i = choose|i: int| 0 <= i < prev.len() && #[trigger] acked_subscription(prev[i]) == Some(subscription_id);
                    assert(prev[i] == ops[i]);
                    assert(acked_subscription(ops[i]) != acked_subscription(ops[n]));
                }
            },
        }
    }
}

/// The counts of a fresh stream: after `p` recorded requests and `k`
/// acknowledgements of pending requests, all under distinct subscription
/// ids, it holds `k` subscriptions and `p - k` pending requests, and no
/// account is both.
pub proof fn lemma_fresh_stream_counts(m: SessionModel, ops: Seq<SessionOp>)
    requires
        m.wf(),
        m.subs.dom().is_empty(),
        m.pending.len() == 0,
        distinct_subscription_ids(ops),
    ensures
        m.after_ops(ops).wf(),
        m.after_ops(ops).subs.len() == m.requests_acknowledged(ops),
        m.after_ops(ops).pending.len() == m.requests_recorded(ops) - m.requests_acknowledged(ops),
{
    lemma_bookkeeping_counts(m, ops);
    lemma_distinct_ids_replace_nothing(m, ops);
    assert(m.subs.len() == 0) by {
        assert(m.subs.dom() =~= Set::<u64>::empty());
    }
}

/// A frame whose top-level `result` and `id` are unsigned integers, the id
/// naming a pending request, completes that request: its account becomes
/// the subscription under the `result` id and is no longer pending, one
/// request fewer waits, and the reader goes on, whatever else the frame
/// reads as (in particular a notification view that is no account
/// notification).
pub proof fn lemma_ack_frame_completes_request(
    old: SessionModel,
    new: SessionModel,
    j: InboundJson,
    step: NextStep,
    at: Instant,
    wall: SystemTime,
    i: int,
)
    requires
        old.wf(),
        j.result is Some,
        j.id is Some,
        0 <= i < old.pending.len(),
        old.pending[i].0 == j.id->0,
        event_outcome(old, new, WsEvent::Text(Some(j)), step, at, wall),
    ensures
        step is Continue,
        new.subs.contains_key(j.result->0),
        new.subs[j.result->0] == old.pending[i].1,
        !new.awaiting(old.pending[i].1),
        new.pending.len() == old.pending.len() - 1,
        new.state == old.state,
        new.health == old.health,
{
    let r = j.id->0;
    assert(old.has_pending_id(r));
    let c = old.pending_index(r);
    assert(c == i);
    lemma_ack_subscribes_pending_account(old, r, j.result->0);
}

/// Checking staleness against a reading: when the time since the last
/// update exceeds the staleness threshold, the stream ends up `Stale` for
/// the whole milliseconds of that time, whatever state it was in, so the
/// breaker reports it unsafe; otherwise nothing changes. Subscriptions,
/// requests and health are left alone either way.
pub proof fn lemma_overdue_stream_goes_stale(old: SessionModel, new: SessionModel, elapsed: Duration)
    requires
        staleness_outcome(old, new, elapsed),
    ensures
        duration_nanos(elapsed) > duration_nanos(old.config.staleness_threshold) ==> {
            &&& new.state == (StreamState::Stale {
                stale_for_ms: ((duration_nanos(elapsed) / 1_000_000) as u128) as u64,
            })
            &&& !is_safe_state(new.state)
        },
        duration_nanos(elapsed) <= duration_nanos(old.config.staleness_threshold) ==> new == old,
        new.subs == old.subs,
        new.pending == old.pending,
        new.health == old.health,
{
}

/// The data of a delivered update is the whole standard base64 decoding of
/// the first data item, when it decodes.
pub proof fn lemma_delivered_data_is_whole_decoding(n: WsNotification, v: WsAccountValue, decoded: Seq<u8>)
    requires
        n.params matches Some(p) && p.result matches Some(r) && r.value == Some(v),
        base64_standard_decoding(data_text(v)) == Some(decoded),
    ensures
        notified_account(n).0 == v.lamports,
        notified_account(n).1 == decoded,
        notified_account(n).1.len() == decoded.len(),
{
}

/// The invariant of a stream only looks at its subscriptions, requests and
/// health: a change elsewhere keeps it.
proof fn lemma_wf_frame(o: SessionModel, m: SessionModel)
    requires
        o.wf(),
        m.health.wf(),
        m.pending == o.pending,
        m.subs == o.subs,
        m.next_request_id == o.next_request_id,
    ensures
        m.wf(),
{
}

/// Acknowledging a request keeps the invariant of a stream.
proof fn lemma_ack_keeps_wf(m: SessionModel, request_id: u64, subscription_id: u64)
    requires
        m.wf(),
    ensures
        m.after_ack(request_id, subscription_id).wf(),
{
    if m.has_pending_id(request_id) {
        let i = m.pending_index(request_id);
        let pk = m.pending[i].1;
        let a = m.after_ack(request_id, subscription_id);
        assert(a.pending == m.pending.remove(i));
        assert(a.subs == m.subs.insert(subscription_id, pk));
        assert forall|x: int| 0 <= x < a.pending.len() implies #[trigger] a.pending[x].0 < a.next_request_id by {
            if x < i {
                assert(a.pending[x] == m.pending[x]);
            } else {
                assert(a.pending[x] == m.pending[x + 1]);
            }
        }
        assert forall|x: int, y: int|
            0 <= x < a.pending.len() && 0 <= y < a.pending.len() && x != y implies #[trigger] a.pending[x].0
                != #[trigger] a.pending[y].0 && a.pending[x].1 != a.pending[y].1 by {
            let x2 = if x < i { x } else { x + 1 };
            let y2 = if y < i { y } else { y + 1 };
            assert(a.pending[x] == m.pending[x2]);
            assert(a.pending[y] == m.pending[y2]);
        }
        assert forall|k: u64, x: int|
            #![trigger a.subs.contains_key(k), a.pending[x]]
            a.subs.contains_key(k) && 0 <= x < a.pending.len() implies a.subs[k] != a.pending[x].1 by {
            let x2 = if x < i { x } else { x + 1 };
            assert(a.pending[x] == m.pending[x2]);
            if k != subscription_id {
                assert(m.subs.contains_key(k));
            }
        }
        assert forall|k1: u64, k2: u64|
            #![trigger a.subs.contains_key(k1), a.subs.contains_key(k2)]
            a.subs.contains_key(k1) && a.subs.contains_key(k2) && k1 != k2 implies a.subs[k1]
                != a.subs[k2] by {
            if k1 == subscription_id {
                assert(m.subs.contains_key(k2));
            } else if k2 == subscription_id {
                assert(m.subs.contains_key(k1));
            } else {
                assert(m.subs.contains_key(k1) && m.subs.contains_key(k2));
            }
        }
    }
}

} // verus!
