//! Watch subscriptions and change notification.
//!
//! A subscription registers interest in a record's subkey range and moves
//! through the states `Registered -> Active -> (Canceled | Expired)`.
//! Every successful write that falls in an active subscription's range
//! appends a change event to that subscription's bounded pending queue;
//! when the queue is full the oldest event is dropped, so a slow reader
//! never blocks writers. Delivery is at-least-once: the transport may hand
//! the same event to a reader twice, and `Subscriber` deduplicates by the
//! `(record, subkey, sequence)` triple.

use vstd::prelude::*;
use crate::record::RecordKey;
use crate::store::DhtError;
use crate::store::RecordHandle;
use crate::store::RecordStore;

verus! {

/// Capacity of one subscription's pending queue. When a notification
/// arrives on a full queue the oldest pending event is dropped.
pub const WATCH_QUEUE_CAP: usize = 16;

/// Lifecycle of a subscription.
#[derive(Clone, Copy, PartialEq, Eq, Structural, Debug)]
pub enum WatchState {
    /// Created, not yet confirmed by the network layer.
    Registered,
    /// Confirmed; change events are delivered.
    Active,
    /// Ended by the subscriber; no further deliveries.
    Canceled,
    /// Ended because the owning session closed or disconnected.
    Expired,
}

/// One change notification: which subkey of which record moved to which
/// sequence number.
#[derive(Clone, Copy, PartialEq, Eq, Structural, Debug)]
pub struct ChangeEvent {
    pub record_key: RecordKey,
    pub subkey: u32,
    pub sequence: u32,
}

/// A registered interest in changes of one record, over an inclusive
/// subkey range, owned by the handle that created it.
#[derive(Debug)]
pub struct Subscription {
    pub sub_id: u64,
    pub owner_handle: u64,
    pub record_key: RecordKey,
    pub range_start: u32,
    pub range_end: u32,
    pub state: WatchState,
    pub pending: Vec<ChangeEvent>,
}

impl Subscription {
    /// Structural invariant: an ordered range and a bounded queue.
    pub open spec fn wf(self) -> bool {
        &&& self.range_start <= self.range_end
        &&& self.pending@.len() <= WATCH_QUEUE_CAP
    }

    /// Whether a write producing `ev` must be delivered to this
    /// subscription: only active subscriptions on the same record whose
    /// range covers the written subkey.
    pub open spec fn matches_event(self, ev: ChangeEvent) -> bool {
        &&& self.state is Active
        &&& self.record_key == ev.record_key
        &&& self.range_start <= ev.subkey <= self.range_end
    }
}

/// `b` is `a` with its pending queue replaced by `q`.
pub open spec fn sub_with_pending(a: Subscription, b: Subscription, q: Seq<ChangeEvent>) -> bool {
    &&& b.sub_id == a.sub_id
    &&& b.owner_handle == a.owner_handle
    &&& b.record_key == a.record_key
    &&& b.range_start == a.range_start
    &&& b.range_end == a.range_end
    &&& b.state == a.state
    &&& b.pending@ == q
}

/// `b` is `a` with its state replaced by `st`.
pub open spec fn sub_with_state(a: Subscription, b: Subscription, st: WatchState) -> bool {
    &&& b.sub_id == a.sub_id
    &&& b.owner_handle == a.owner_handle
    &&& b.record_key == a.record_key
    &&& b.range_start == a.range_start
    &&& b.range_end == a.range_end
    &&& b.state == st
    &&& b.pending@ == a.pending@
}

/// Append to a bounded queue, dropping the oldest entry when full.
pub open spec fn push_bounded(q: Seq<ChangeEvent>, ev: ChangeEvent) -> Seq<ChangeEvent> {
    if q.len() < WATCH_QUEUE_CAP {
        q.push(ev)
    } else {
        q.skip(1).push(ev)
    }
}

/// `s1` is `s0` after delivering `ev`: every matching subscription got the
/// event pushed onto its bounded queue, every other subscription is
/// untouched.
pub open spec fn subs_notified(s0: Seq<Subscription>, s1: Seq<Subscription>, ev: ChangeEvent) -> bool {
    &&& s1.len() == s0.len()
    &&& forall|k: int|
        0 <= k < s0.len() ==> if s0[k].matches_event(ev) {
            sub_with_pending(s0[k], #[trigger] s1[k], push_bounded(s0[k].pending@, ev))
        } else {
            sub_with_pending(s0[k], s1[k], s0[k].pending@)
        }
}

/// What one reader has already seen, dropping duplicate deliveries.
///
/// The transport delivers at-least-once, so the same `(record, subkey,
/// sequence)` event may arrive twice; `accept` reports an event as fresh
/// exactly once.
#[derive(Debug)]
pub struct Subscriber {
    pub seen: Vec<ChangeEvent>,
}

/// The seen-set after one delivery of `ev`: unchanged on a duplicate.
pub open spec fn spec_seen_after(seen: Seq<ChangeEvent>, ev: ChangeEvent) -> Seq<ChangeEvent> {
    if seen.contains(ev) {
        seen
    } else {
        seen.push(ev)
    }
}

impl Subscriber {
    /// Structural invariant: no event is recorded twice.
    pub open spec fn wf(self) -> bool {
        forall|i: int, j: int| 0 <= i < j < self.seen@.len() ==> self.seen@[i] != self.seen@[j]
    }

    pub fn new() -> (s: Subscriber)
        ensures
            s.wf(),
            s.seen@ =~= Seq::<ChangeEvent>::empty(),
    {
        Subscriber { seen: Vec::new() }
    }

    /// Takes one delivered event; reports whether it is new to this
    /// subscriber. A duplicate delivery changes nothing and is not fresh.
    pub fn accept(&mut self, ev: ChangeEvent) -> (fresh: bool)
        requires
            old(self).wf(),
        ensures
            final(self).wf(),
            fresh == !old(self).seen@.contains(ev),
            final(self).seen@ == spec_seen_after(old(self).seen@, ev),
    {
        let n = self.seen.len();
        let mut i: usize = 0;
        while i < n
            invariant
                n == self.seen@.len(),
                i <= n,
                old(self).wf(),
                self.seen@ == old(self).seen@,
                forall|j: int| 0 <= j < i ==> self.seen@[j] != ev,
            decreases n - i,
        {
            if self.seen[i] == ev {
                assert(self.seen@.contains(ev));
                return false;
            }
            i += 1;
        }
        assert(!self.seen@.contains(ev));
        self.seen.push(ev);
        true
    }
}

/// A freshly registered subscription: bound to its identifiers, range and
/// record, not yet confirmed, with nothing pending.
pub open spec fn spec_registered(
    s: Subscription,
    sub_id: u64,
    owner_handle: u64,
    key: RecordKey,
    range_start: u32,
    range_end: u32,
) -> bool {
    &&& s.sub_id == sub_id
    &&& s.owner_handle == owner_handle
    &&& s.record_key == key
    &&& s.range_start == range_start
    &&& s.range_end == range_end
    &&& s.state is Registered
    &&& s.pending@.len() == 0
}

/// The state after a cancellation request: a live subscription (registered
/// or active) becomes canceled, an already-ended one keeps its state.
pub open spec fn spec_canceled(st: WatchState) -> WatchState {
    match st {
        WatchState::Registered => WatchState::Canceled,
        WatchState::Active => WatchState::Canceled,
        other => other,
    }
}

/// Canceling is idempotent: a second cancellation request leaves the
/// subscription exactly where the first one put it.
pub proof fn lemma_cancel_idempotent(st: WatchState)
    ensures
        spec_canceled(spec_canceled(st)) == spec_canceled(st),
{
}

/// The state after the owning session closes: live subscriptions expire,
/// ended ones keep their state.
pub open spec fn spec_expired(st: WatchState) -> WatchState {
    match st {
        WatchState::Registered => WatchState::Expired,
        WatchState::Active => WatchState::Expired,
        other => other,
    }
}

impl RecordStore {
    /// Why `watch` must refuse, if it must: an unknown record, or one the
    /// network layer has not yet reported as reachable.
    pub open spec fn watch_error(self, key: RecordKey) -> Option<DhtError> {
        if !self.has_record(key) {
            Some(DhtError::RecordNotFound { record_key: key })
        } else if !self.record_of(key).network_ready {
            Some(DhtError::WatchUnavailable { record_key: key })
        } else {
            None
        }
    }

    /// Registers interest in changes to the handle's record over the
    /// inclusive subkey range. The new subscription starts `Registered`
    /// and delivers nothing until `activate_watch` confirms it; it is tied
    /// to the handle and dies with it (`release_handle`).
    pub fn watch(&mut self, handle: &RecordHandle, range_start: u32, range_end: u32) -> (r: Result<
        u64,
        DhtError,
    >)
        requires
            old(self).wf(),
            old(self).next_id < u64::MAX,
            range_start <= range_end,
        ensures
            final(self).wf(),
            final(self).records@ == old(self).records@,
            r is Err <==> old(self).watch_error(handle.record_key) is Some,
            r matches Err(e) ==> Some(e) == old(self).watch_error(handle.record_key) && *final(self)
                == *old(self),
            r matches Ok(sid) ==> ({
                &&& sid == old(self).next_id
                &&& final(self).next_id == old(self).next_id + 1
                &&& final(self).subs@.len() == old(self).subs@.len() + 1
                &&& (forall|k: int|
                    0 <= k < old(self).subs@.len() ==> final(self).subs@[k] == old(self).subs@[k])
                &&& spec_registered(
                    final(self).subs@[old(self).subs@.len() as int],
                    sid,
                    handle.handle_id,
                    handle.record_key,
                    range_start,
                    range_end,
                )
            }),
    {
        let ready = match self.get_ready(handle.record_key) {
            Ok(b) => b,
            Err(e) => {
                return Err(e);
            },
        };
        if !ready {
            return Err(DhtError::WatchUnavailable { record_key: handle.record_key });
        }
        let sid = self.next_id;
        let sub = Subscription {
            sub_id: sid,
            owner_handle: handle.handle_id,
            record_key: handle.record_key,
            range_start,
            range_end,
            state: WatchState::Registered,
            pending: Vec::new(),
        };
        self.subs.push(sub);
        self.next_id = self.next_id + 1;
        Ok(sid)
    }

    /// Whether the record is network-ready; the common prefix of `watch`
    /// and the sync layer's checks.
    fn get_ready(&self, key: RecordKey) -> (r: Result<bool, DhtError>)
        requires
            self.records_wf(),
        ensures
            r is Err <==> !self.has_record(key),
            r matches Err(e) ==> e == (DhtError::RecordNotFound { record_key: key }),
            r matches Ok(b) ==> self.has_record(key) && b == self.record_of(key).network_ready,
    {
        match self.find_record(key) {
            Some(i) => Ok(self.records[i].network_ready),
            None => Err(DhtError::RecordNotFound { record_key: key }),
        }
    }

    /// Confirms a registered subscription once the network layer reports
    /// that delivery is possible: `Registered` becomes `Active`, any other
    /// state is left alone.
    pub fn activate_watch(&mut self, sub_id: u64)
        requires
            old(self).wf(),
        ensures
            final(self).wf(),
            final(self).records@ == old(self).records@,
            final(self).next_id == old(self).next_id,
            final(self).subs@.len() == old(self).subs@.len(),
            forall|k: int|
                0 <= k < old(self).subs@.len() ==> sub_with_state(
                    old(self).subs@[k],
                    #[trigger] final(self).subs@[k],
                    if old(self).subs@[k].sub_id == sub_id && old(self).subs@[k].state
                        is Registered {
                        WatchState::Active
                    } else {
                        old(self).subs@[k].state
                    },
                ),
    {
        let n = self.subs.len();
        let mut k: usize = 0;
        while k < n
            invariant
                old(self).wf(),
                n == self.subs@.len(),
                self.subs@.len() == old(self).subs@.len(),
                k <= n,
                self.records == old(self).records,
                self.next_id == old(self).next_id,
                forall|l: int| k <= l < n ==> self.subs@[l] == old(self).subs@[l],
                forall|l: int|
                    0 <= l < k ==> sub_with_state(
                        old(self).subs@[l],
                        #[trigger] self.subs@[l],
                        if old(self).subs@[l].sub_id == sub_id && old(self).subs@[l].state
                            is Registered {
                            WatchState::Active
                        } else {
                            old(self).subs@[l].state
                        },
                    ),
            decreases n - k,
        {
            if self.subs[k].sub_id == sub_id && self.subs[k].state == WatchState::Registered {
                self.subs[k].state = WatchState::Active;
            }
            k += 1;
        }
    }

    /// Cancels a subscription: no further deliveries reach it. Canceling
    /// one that is already ended changes nothing, so a second call is
    /// harmless.
    pub fn cancel_watch(&mut self, sub_id: u64)
        requires
            old(self).wf(),
        ensures
            final(self).wf(),
            final(self).records@ == old(self).records@,
            final(self).next_id == old(self).next_id,
            final(self).subs@.len() == old(self).subs@.len(),
            forall|k: int|
                0 <= k < old(self).subs@.len() ==> sub_with_state(
                    old(self).subs@[k],
                    #[trigger] final(self).subs@[k],
                    if old(self).subs@[k].sub_id == sub_id {
                        spec_canceled(old(self).subs@[k].state)
                    } else {
                        old(self).subs@[k].state
                    },
                ),
    {
        let n = self.subs.len();
        let mut k: usize = 0;
        while k < n
            invariant
                old(self).wf(),
                n == self.subs@.len(),
                self.subs@.len() == old(self).subs@.len(),
                k <= n,
                self.records == old(self).records,
                self.next_id == old(self).next_id,
                forall|l: int| k <= l < n ==> self.subs@[l] == old(self).subs@[l],
                forall|l: int|
                    0 <= l < k ==> sub_with_state(
                        old(self).subs@[l],
                        #[trigger] self.subs@[l],
                        if old(self).subs@[l].sub_id == sub_id {
                            spec_canceled(old(self).subs@[l].state)
                        } else {
                            old(self).subs@[l].state
                        },
                    ),
            decreases n - k,
        {
            if self.subs[k].sub_id == sub_id {
                if self.subs[k].state == WatchState::Registered || self.subs[k].state
                    == WatchState::Active {
                    self.subs[k].state = WatchState::Canceled;
                }
            }
            k += 1;
        }
    }

    /// Hands out and clears the pending events of one subscription, in
    /// delivery order. An unknown identifier yields nothing.
    pub fn take_events(&mut self, sub_id: u64) -> (r: Vec<ChangeEvent>)
        requires
            old(self).wf(),
        ensures
            final(self).wf(),
            final(self).records@ == old(self).records@,
            final(self).next_id == old(self).next_id,
            final(self).subs@.len() == old(self).subs@.len(),
            forall|k: int|
                0 <= k < old(self).subs@.len() ==> if old(self).subs@[k].sub_id == sub_id {
                    sub_with_pending(
                        old(self).subs@[k],
                        #[trigger] final(self).subs@[k],
                        Seq::<ChangeEvent>::empty(),
                    ) && r@ == old(self).subs@[k].pending@
                } else {
                    final(self).subs@[k] == old(self).subs@[k]
                },
            (forall|k: int|
                0 <= k < old(self).subs@.len() ==> old(self).subs@[k].sub_id != sub_id) ==> r@
                == Seq::<ChangeEvent>::empty(),
    {
        let n = self.subs.len();
        let mut k: usize = 0;
        while k < n
            invariant
                old(self).wf(),
                n == self.subs@.len(),
                k <= n,
                *self == *old(self),
                forall|l: int| 0 <= l < k ==> old(self).subs@[l].sub_id != sub_id,
            decreases n - k,
        {
            if self.subs[k].sub_id == sub_id {
                let out = copy_events(&self.subs[k].pending);
                self.subs[k].pending.clear();
                return out;
            }
            k += 1;
        }
        Vec::new()
    }

    /// Closes a session: every subscription the handle owns is expired on
    /// the spot, so no notification fires after this returns. Already
    /// canceled subscriptions stay canceled.
    pub fn release_handle(&mut self, handle: &RecordHandle)
        requires
            old(self).wf(),
        ensures
            final(self).wf(),
            final(self).records@ == old(self).records@,
            final(self).next_id == old(self).next_id,
            final(self).subs@.len() == old(self).subs@.len(),
            forall|k: int|
                0 <= k < old(self).subs@.len() ==> sub_with_state(
                    old(self).subs@[k],
                    #[trigger] final(self).subs@[k],
                    if old(self).subs@[k].owner_handle == handle.handle_id {
                        spec_expired(old(self).subs@[k].state)
                    } else {
                        old(self).subs@[k].state
                    },
                ),
            forall|k: int, ev: ChangeEvent|
                0 <= k < final(self).subs@.len() && final(self).subs@[k].owner_handle
                    == handle.handle_id ==> !(#[trigger] final(self).subs@[k].matches_event(ev)),
    {
        let n = self.subs.len();
        let mut k: usize = 0;
        while k < n
            invariant
                old(self).wf(),
                n == self.subs@.len(),
                self.subs@.len() == old(self).subs@.len(),
                k <= n,
                self.records == old(self).records,
                self.next_id == old(self).next_id,
                forall|l: int| k <= l < n ==> self.subs@[l] == old(self).subs@[l],
                forall|l: int|
                    0 <= l < k ==> sub_with_state(
                        old(self).subs@[l],
                        #[trigger] self.subs@[l],
                        if old(self).subs@[l].owner_handle == handle.handle_id {
                            spec_expired(old(self).subs@[l].state)
                        } else {
                            old(self).subs@[l].state
                        },
                    ),
            decreases n - k,
        {
            if self.subs[k].owner_handle == handle.handle_id {
                if self.subs[k].state == WatchState::Registered || self.subs[k].state
                    == WatchState::Active {
                    self.subs[k].state = WatchState::Expired;
                }
            }
            k += 1;
        }
    }
}

/// Element-for-element copy of a pending queue.
fn copy_events(src: &Vec<ChangeEvent>) -> (r: Vec<ChangeEvent>)
    ensures
        r@ == src@,
{
    let n = src.len();
    let mut out: Vec<ChangeEvent> = Vec::new();
    let mut i: usize = 0;
    while i < n
        invariant
            n == src@.len(),
            i <= n,
            out@ =~= src@.take(i as int),
        decreases n - i,
    {
        out.push(src[i]);
        proof {
            assert(out@ =~= src@.take(i + 1));
        }
        i += 1;
    }
    proof {
        assert(src@.take(n as int) =~= src@);
    }
    out
}

/// Once an event has been accepted, accepting it again is never fresh and
/// never changes the seen-set: after deduplication a subscriber sees each
/// unique `(record, subkey, sequence)` event exactly once, however often
/// the transport re-delivers it.
pub proof fn lemma_notification_deduplicated(seen: Seq<ChangeEvent>, ev: ChangeEvent)
    ensures
        spec_seen_after(seen, ev).contains(ev),
        spec_seen_after(spec_seen_after(seen, ev), ev) == spec_seen_after(seen, ev),
{
    if !seen.contains(ev) {
        assert(seen.push(ev)[seen.len() as int] == ev);
    }
}

} // verus!
