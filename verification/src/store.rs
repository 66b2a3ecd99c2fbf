//! The record store: create and open records, write and read subkeys.
//!
//! All mutating operations go through `&mut self`, so writes to one store
//! are serialized and sequence numbers grow monotonically. A successful
//! write notifies every matching watch subscription before it returns.

use vstd::prelude::*;
use crate::record::KeyPair;
use crate::record::Record;
use crate::record::RecordKey;
use crate::record::SubkeyValue;
use crate::record::derive_record_key;
use crate::record::slot_view;
use crate::record::spec_record_key;
use crate::schema::Schema;
use crate::schema::SchemaError;
use crate::watch::ChangeEvent;
use crate::watch::Subscription;
use crate::watch::WATCH_QUEUE_CAP;
use crate::watch::WatchState;
use crate::watch::push_bounded;
use crate::watch::sub_with_pending;
use crate::watch::subs_notified;

verus! {

/// Failures of record operations. Every variant carries the identity of
/// the record (and where it applies, the subkey and credential) that
/// triggered it.
#[derive(Clone, Copy, PartialEq, Eq, Debug)]
pub enum DhtError {
    /// No record with this key is known to the store.
    RecordNotFound { record_key: RecordKey },
    /// The subkey index is past the schema's total subkey count.
    SubkeyOutOfRange { record_key: RecordKey, subkey: u32 },
    /// The credential does not own the targeted subkey range (or, for
    /// opening a handle, is not in the schema at all).
    UnauthorizedWriter { record_key: RecordKey, subkey: Option<u32>, credential_id: u64 },
    /// The record is not yet replicated far enough; the caller may retry
    /// with backoff. This is the only error safe to retry automatically.
    TryAgain { record_key: RecordKey },
    /// The record cannot presently accept watchers.
    WatchUnavailable { record_key: RecordKey },
}

/// A session-scoped capability to one record, handed out by
/// `open_record`. `writer` is the authorized identity, or `None` for a
/// read-only handle. Dropping a session must go through
/// `release_handle` so its subscriptions stop.
#[derive(Clone, Copy, PartialEq, Eq, Debug)]
pub struct RecordHandle {
    pub handle_id: u64,
    pub record_key: RecordKey,
    pub writer: Option<u64>,
}

/// The store: every record known locally, every watch subscription, and a
/// counter from which fresh handle and subscription identifiers are drawn.
#[derive(Debug)]
pub struct RecordStore {
    pub records: Vec<Record>,
    pub subs: Vec<Subscription>,
    pub next_id: u64,
}

/// `r1` is `r0` after one successful write of `data` to `subkey`: only
/// that slot changed, and it now carries the new payload, the bumped
/// sequence, and the writer's identity.
pub open spec fn record_written(
    r0: Record,
    r1: Record,
    subkey: int,
    data: Seq<u8>,
    sq: u32,
    writer_id: u64,
) -> bool {
    &&& r1.key == r0.key
    &&& r1.schema == r0.schema
    &&& r1.creator == r0.creator
    &&& r1.network_ready == r0.network_ready
    &&& r1.subkeys@.len() == r0.subkeys@.len()
    &&& forall|j: int|
        0 <= j < r0.subkeys@.len() && j != subkey ==> r1.subkeys@[j] == r0.subkeys@[j]
    &&& r1.subkeys@[subkey] matches Some(v) && v.data@ == data && v.sequence == sq && v.writer
        == writer_id
}

impl RecordStore {
    /// Structural invariant on the records: each is well formed and no two
    /// share a key.
    pub open spec fn records_wf(self) -> bool {
        &&& forall|i: int| 0 <= i < self.records@.len() ==> (#[trigger] self.records@[i]).wf()
        &&& forall|i: int, j: int|
            0 <= i < j < self.records@.len() ==> self.records@[i].key != self.records@[j].key
    }

    /// Structural invariant on the subscriptions: each is well formed,
    /// identifiers are unique and below the freshness counter.
    pub open spec fn subs_wf(self) -> bool {
        &&& forall|k: int|
            0 <= k < self.subs@.len() ==> (#[trigger] self.subs@[k]).wf() && self.subs@[k].sub_id
                < self.next_id
        &&& forall|k: int, l: int|
            0 <= k < l < self.subs@.len() ==> self.subs@[k].sub_id != self.subs@[l].sub_id
    }

    pub open spec fn wf(self) -> bool {
        self.records_wf() && self.subs_wf()
    }

    /// Whether some record in the store carries `key`.
    pub open spec fn has_record(self, key: RecordKey) -> bool {
        exists|i: int| 0 <= i < self.records@.len() && (#[trigger] self.records@[i]).key == key
    }

    /// The position of the record carrying `key` (meaningful only when
    /// `has_record` holds; unique because keys are).
    pub open spec fn index_of(self, key: RecordKey) -> int {
        choose|i: int| 0 <= i < self.records@.len() && (#[trigger] self.records@[i]).key == key
    }

    /// The record carrying `key`.
    pub open spec fn record_of(self, key: RecordKey) -> Record {
        self.records@[self.index_of(key)]
    }

    /// In a well-formed store, any position whose record carries `key` is
    /// the position `index_of` denotes.
    pub proof fn lemma_index_of(self, i: int, key: RecordKey)
        requires
            self.records_wf(),
            0 <= i < self.records@.len(),
            self.records@[i].key == key,
        ensures
            self.has_record(key),
            self.index_of(key) == i,
            self.record_of(key) == self.records@[i],
    {
        assert(self.has_record(key));
        let j = self.index_of(key);
        if i < j {
            assert(self.records@[i].key != self.records@[j].key);
        } else if j < i {
            assert(self.records@[j].key != self.records@[i].key);
        }
    }

    /// An empty store.
    pub fn new() -> (s: RecordStore)
        ensures
            s.wf(),
            s.records@.len() == 0,
            s.subs@.len() == 0,
    {
        RecordStore { records: Vec::new(), subs: Vec::new(), next_id: 1 }
    }

    /// Finds the record carrying `key`, if the store holds one.
    pub(crate) fn find_record(&self, key: RecordKey) -> (r: Option<usize>)
        requires
            self.records_wf(),
        ensures
            r matches Some(i) ==> i < self.records@.len() && self.records@[i as int].key == key
                && self.has_record(key) && self.index_of(key) == i,
            r is None <==> !self.has_record(key),
    {
        let n = self.records.len();
        let mut i: usize = 0;
        while i < n
            invariant
                self.records_wf(),
                n == self.records@.len(),
                i <= n,
                forall|j: int| 0 <= j < i ==> (#[trigger] self.records@[j]).key != key,
            decreases n - i,
        {
            if self.records[i].key == key {
                proof {
                    self.lemma_index_of(i as int, key);
                }
                return Some(i);
            }
            i += 1;
        }
        None
    }

    /// `create_record`'s view of a freshly allocated record: bound to the
    /// derived key, the given schema and creator, all subkeys empty, not
    /// yet reachable over the network.
    pub open spec fn spec_created(r: Record, kind: u32, schema: Schema, creator: KeyPair, nonce: u64) -> bool {
        &&& r.key == spec_record_key(kind, schema, nonce)
        &&& r.schema == schema
        &&& r.creator == creator
        &&& !r.network_ready
        &&& r.subkeys@.len() == schema.total_subkeys()
        &&& forall|i: int| 0 <= i < r.subkeys@.len() ==> (#[trigger] r.subkeys@[i]) is None
    }

    /// Validates the schema, derives the record's deterministic key, and
    /// allocates the record with every subkey empty at sequence zero.
    /// Creating the same record twice leaves the store unchanged and
    /// returns the same key.
    pub fn create_record(
        &mut self,
        kind: u32,
        schema: Schema,
        creator: KeyPair,
        nonce: u64,
    ) -> (r: Result<RecordKey, SchemaError>)
        requires
            old(self).wf(),
        ensures
            final(self).wf(),
            r is Err <==> !schema.valid(),
            r matches Err(e) ==> Err::<(), SchemaError>(e) == schema.spec_validate() && *final(self)
                == *old(self),
            r matches Ok(k) ==> ({
                &&& k == spec_record_key(kind, schema, nonce)
                &&& final(self).subs@ == old(self).subs@
                &&& final(self).next_id == old(self).next_id
                &&& (old(self).has_record(k) ==> *final(self) == *old(self))
                &&& (!old(self).has_record(k) ==> final(self).records@.len() == old(
                    self,
                ).records@.len() + 1 && (forall|j: int|
                    0 <= j < old(self).records@.len() ==> final(self).records@[j] == old(
                        self,
                    ).records@[j]) && Self::spec_created(
                    final(self).records@[old(self).records@.len() as int],
                    kind,
                    schema,
                    creator,
                    nonce,
                ))
            }),
    {
        match schema.validate() {
            Err(e) => {
                return Err(e);
            },
            Ok(()) => {},
        }
        let key = derive_record_key(kind, &schema, nonce);
        match self.find_record(key) {
            Some(_) => {
                return Ok(key);
            },
            None => {},
        }
        let total = schema.total_subkeys_count();
        let mut subkeys: Vec<Option<SubkeyValue>> = Vec::new();
        let mut i: usize = 0;
        while i < total
            invariant
                subkeys@.len() == i,
                i <= total,
                forall|j: int| 0 <= j < i ==> (#[trigger] subkeys@[j]) is None,
            decreases total - i,
        {
            subkeys.push(None);
            i += 1;
        }
        let rec = Record { key, schema, creator, subkeys, network_ready: false };
        self.records.push(rec);
        Ok(key)
    }

    /// The writer identity a handle opened with `credential` records: the
    /// credential's public key, or none for a read-only handle.
    pub open spec fn spec_opened_writer(credential: Option<KeyPair>) -> Option<u64> {
        match credential {
            Some(kp) => Some(kp.public),
            None => None,
        }
    }

    /// Why `open_record` must refuse, if it must: an unknown key, or a
    /// credential that appears nowhere in the record's schema. A missing
    /// credential is fine: the handle is then read-only.
    pub open spec fn open_error(self, key: RecordKey, credential: Option<KeyPair>) -> Option<
        DhtError,
    > {
        if !self.has_record(key) {
            Some(DhtError::RecordNotFound { record_key: key })
        } else if credential matches Some(kp) && !self.record_of(key).schema.spec_is_schema_key(
            self.record_of(key).creator.public,
            kp.public,
        ) {
            Some(
                DhtError::UnauthorizedWriter {
                    record_key: key,
                    subkey: None,
                    credential_id: credential->0.public,
                },
            )
        } else {
            None
        }
    }

    /// Resolves a record key and an optional writer credential into a
    /// session handle. The credential's public key must appear in the
    /// schema (as creator or member); without a credential the handle is
    /// read-only. Purely a local check against the cached schema.
    pub fn open_record(&mut self, key: RecordKey, credential: Option<KeyPair>) -> (r: Result<
        RecordHandle,
        DhtError,
    >)
        requires
            old(self).wf(),
            old(self).next_id < u64::MAX,
        ensures
            final(self).wf(),
            final(self).records@ == old(self).records@,
            final(self).subs@ == old(self).subs@,
            r is Err <==> old(self).open_error(key, credential) is Some,
            r matches Err(e) ==> Some(e) == old(self).open_error(key, credential)
                && final(self).next_id == old(self).next_id,
            r matches Ok(h) ==> ({
                &&& h.handle_id == old(self).next_id
                &&& final(self).next_id == old(self).next_id + 1
                &&& h.record_key == key
                &&& h.writer == Self::spec_opened_writer(credential)
            }),
    {
        let ri = match self.find_record(key) {
            Some(i) => i,
            None => {
                return Err(DhtError::RecordNotFound { record_key: key });
            },
        };
        let writer: Option<u64> = match credential {
            Some(kp) => {
                let creator_public = self.records[ri].creator.public;
                if !self.records[ri].schema.is_schema_key(creator_public, kp.public) {
                    return Err(
                        DhtError::UnauthorizedWriter {
                            record_key: key,
                            subkey: None,
                            credential_id: kp.public,
                        },
                    );
                }
                Some(kp.public)
            },
            None => None,
        };
        let h = RecordHandle { handle_id: self.next_id, record_key: key, writer };
        self.next_id = self.next_id + 1;
        Ok(h)
    }

    /// Why `set_value` must refuse, if it must: an unknown record, a
    /// subkey past the schema's total, or a credential that is not the
    /// writer the schema assigns to that subkey.
    pub open spec fn set_value_error(self, key: RecordKey, subkey: u32, writer_pub: u64) -> Option<
        DhtError,
    > {
        if !self.has_record(key) {
            Some(DhtError::RecordNotFound { record_key: key })
        } else if subkey as int >= self.record_of(key).schema.total_subkeys() {
            Some(DhtError::SubkeyOutOfRange { record_key: key, subkey })
        } else if Some(writer_pub) != self.record_of(key).schema.subkey_writer(
            self.record_of(key).creator.public,
            subkey as int,
        ) {
            Some(
                DhtError::UnauthorizedWriter {
                    record_key: key,
                    subkey: Some(subkey),
                    credential_id: writer_pub,
                },
            )
        } else {
            None
        }
    }

    /// Writes `data` to one subkey under the writer's credential.
    ///
    /// Succeeds exactly when the record exists, the subkey is in range and
    /// the schema assigns that subkey to the credential's public key; the
    /// subkey's sequence then grows by exactly one, and every matching
    /// active subscription is notified of the change before the call
    /// returns. On failure the store is left untouched.
    pub fn set_value(&mut self, key: RecordKey, subkey: u32, data: Vec<u8>, writer: KeyPair) -> (r:
        Result<u32, DhtError>)
        requires
            old(self).wf(),
            old(self).has_record(key) ==> old(self).record_of(key).seq_of(subkey as int)
                < u32::MAX,
        ensures
            final(self).wf(),
            r is Err <==> old(self).set_value_error(key, subkey, writer.public) is Some,
            r matches Err(e) ==> Some(e) == old(self).set_value_error(key, subkey, writer.public)
                && *final(self) == *old(self),
            r matches Ok(sq) ==> ({
                &&& sq == old(self).record_of(key).seq_of(subkey as int) + 1
                &&& final(self).records@.len() == old(self).records@.len()
                &&& (forall|j: int|
                    0 <= j < old(self).records@.len() && j != old(self).index_of(key)
                        ==> final(self).records@[j] == old(self).records@[j])
                &&& record_written(
                    old(self).record_of(key),
                    final(self).records@[old(self).index_of(key)],
                    subkey as int,
                    data@,
                    sq,
                    writer.public,
                )
                &&& final(self).index_of(key) == old(self).index_of(key)
                &&& subs_notified(
                    old(self).subs@,
                    final(self).subs@,
                    ChangeEvent { record_key: key, subkey, sequence: sq },
                )
                &&& final(self).next_id == old(self).next_id
            }),
    {
        let ri = match self.find_record(key) {
            Some(i) => i,
            None => {
                return Err(DhtError::RecordNotFound { record_key: key });
            },
        };
        if subkey as usize >= self.records[ri].subkeys.len() {
            return Err(DhtError::SubkeyOutOfRange { record_key: key, subkey });
        }
        let creator_public = self.records[ri].creator.public;
        let owner = self.records[ri].schema.subkey_owner(creator_public, subkey);
        let authorized = match owner {
            Some(o) => o == writer.public,
            None => false,
        };
        if !authorized {
            return Err(
                DhtError::UnauthorizedWriter {
                    record_key: key,
                    subkey: Some(subkey),
                    credential_id: writer.public,
                },
            );
        }
        let su = subkey as usize;
        let old_seq: u32 = match &self.records[ri].subkeys[su] {
            Some(v) => v.sequence,
            None => 0,
        };
        let sq = old_seq + 1;
        self.records[ri].subkeys[su] = Some(
            SubkeyValue { data, sequence: sq, writer: writer.public },
        );
        proof {
            old(self).lemma_index_of(ri as int, key);
            self.lemma_index_of(ri as int, key);
        }
        let ev = ChangeEvent { record_key: key, subkey, sequence: sq };
        self.notify_subscriptions(ev);
        Ok(sq)
    }

    /// What `get_value` returns, seen through views: the local knowledge
    /// of one subkey, or why there is none.
    pub open spec fn spec_get_value(self, key: RecordKey, subkey: u32) -> Result<
        Option<(Seq<u8>, u32, u64)>,
        DhtError,
    > {
        if !self.has_record(key) {
            Err(DhtError::RecordNotFound { record_key: key })
        } else if subkey as int >= self.record_of(key).schema.total_subkeys() {
            Err(DhtError::SubkeyOutOfRange { record_key: key, subkey })
        } else {
            Ok(slot_view(self.record_of(key).subkeys@[subkey as int]))
        }
    }

    /// Reads the best local knowledge of one subkey without touching the
    /// network: `None` if the subkey was never written. Refreshing against
    /// the network first is the sync layer's `reconcile_subkey`; this call
    /// never blocks and never changes the store.
    pub fn get_value(&self, key: RecordKey, subkey: u32) -> (r: Result<
        Option<SubkeyValue>,
        DhtError,
    >)
        requires
            self.wf(),
        ensures
            r is Err <==> self.spec_get_value(key, subkey) is Err,
            r matches Err(e) ==> Err::<Option<(Seq<u8>, u32, u64)>, DhtError>(e)
                == self.spec_get_value(key, subkey),
            r matches Ok(ov) ==> Ok::<Option<(Seq<u8>, u32, u64)>, DhtError>(slot_view(ov))
                == self.spec_get_value(key, subkey),
    {
        let ri = match self.find_record(key) {
            Some(i) => i,
            None => {
                return Err(DhtError::RecordNotFound { record_key: key });
            },
        };
        if subkey as usize >= self.records[ri].subkeys.len() {
            return Err(DhtError::SubkeyOutOfRange { record_key: key, subkey });
        }
        match &self.records[ri].subkeys[subkey as usize] {
            None => Ok(None),
            Some(v) => {
                let data = copy_bytes(&v.data);
                let out = SubkeyValue { data, sequence: v.sequence, writer: v.writer };
                proof {
                    assert(out@ == v@);
                }
                Ok(Some(out))
            },
        }
    }

    /// Delivers one change event to every matching active subscription,
    /// bounded-queue semantics (drop-oldest when full).
    pub(crate) fn notify_subscriptions(&mut self, ev: ChangeEvent)
        requires
            old(self).subs_wf(),
        ensures
            final(self).records == old(self).records,
            final(self).next_id == old(self).next_id,
            final(self).subs_wf(),
            subs_notified(old(self).subs@, final(self).subs@, ev),
    {
        let n = self.subs.len();
        let mut k: usize = 0;
        while k < n
            invariant
                old(self).subs_wf(),
                n == self.subs@.len(),
                self.subs@.len() == old(self).subs@.len(),
                k <= n,
                self.records == old(self).records,
                self.next_id == old(self).next_id,
                forall|l: int| k <= l < n ==> self.subs@[l] == old(self).subs@[l],
                forall|l: int|
                    0 <= l < k ==> if old(self).subs@[l].matches_event(ev) {
                        sub_with_pending(
                            old(self).subs@[l],
                            #[trigger] self.subs@[l],
                            push_bounded(old(self).subs@[l].pending@, ev),
                        )
                    } else {
                        sub_with_pending(old(self).subs@[l], self.subs@[l], old(self).subs@[l].pending@)
                    },
            decreases n - k,
        {
            let is_match = self.subs[k].state == WatchState::Active && self.subs[k].record_key
                == ev.record_key && self.subs[k].range_start <= ev.subkey && ev.subkey
                <= self.subs[k].range_end;
            if is_match {
                if self.subs[k].pending.len() == WATCH_QUEUE_CAP {
                    self.subs[k].pending.remove(0);
                    proof {
                        assert(old(self).subs@[k as int].pending@.remove(0) =~= old(
                            self,
                        ).subs@[k as int].pending@.skip(1));
                    }
                }
                self.subs[k].pending.push(ev);
            }
            k += 1;
        }
    }
}

/// Byte-for-byte copy of a payload.
fn copy_bytes(src: &Vec<u8>) -> (r: Vec<u8>)
    ensures
        r@ == src@,
{
    let n = src.len();
    let mut out: Vec<u8> = Vec::new();
    let mut i: usize = 0;
    while i < n
        invariant
            n == src@.len(),
            i <= n,
            out@ =~= src@.take(i as int),
        decreases n - i,
    {
        out.push(src[i]);
        proof {
            assert(out@ =~= src@.take(i + 1));
        }
        i += 1;
    }
    proof {
        assert(src@.take(n as int) =~= src@);
    }
    out
}

/// A credential whose public key appears nowhere in a record's schema —
/// neither as the creator nor as any member — can never write any subkey
/// of that record: `set_value` always refuses, and inside the schema's
/// subkey range it refuses precisely as an authorization failure.
pub proof fn lemma_unauthorized_writer_rejected(
    s: RecordStore,
    key: RecordKey,
    subkey: u32,
    credential_id: u64,
)
    requires
        s.has_record(key),
        !s.record_of(key).schema.spec_is_schema_key(
            s.record_of(key).creator.public,
            credential_id,
        ),
    ensures
        s.set_value_error(key, subkey, credential_id) is Some,
        (subkey as int) < s.record_of(key).schema.total_subkeys() ==> s.set_value_error(
            key,
            subkey,
            credential_id,
        ) == Some(
            DhtError::UnauthorizedWriter { record_key: key, subkey: Some(subkey), credential_id },
        ),
{
    s.record_of(key).schema.lemma_outsider_never_writes(
        s.record_of(key).creator.public,
        credential_id,
        subkey as int,
    );
}

/// Reading twice with no intervening write is idempotent: `get_value`'s
/// result is a function of the store's state alone, and the call never
/// changes that state, so two consecutive reads of the same subkey agree.
pub proof fn lemma_get_value_idempotent(
    s: RecordStore,
    key: RecordKey,
    subkey: u32,
    r1: Result<Option<(Seq<u8>, u32, u64)>, DhtError>,
    r2: Result<Option<(Seq<u8>, u32, u64)>, DhtError>,
)
    requires
        r1 == s.spec_get_value(key, subkey),
        r2 == s.spec_get_value(key, subkey),
    ensures
        r1 == r2,
{
}

} // verus!
