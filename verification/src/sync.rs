//! Reconciliation against the network and inspection of local state.
//!
//! The network hands back observations of remote writes as
//! `WriteCandidate`s. Conflicting candidates for the same subkey are
//! ordered deterministically — highest sequence first, later signature
//! timestamp on a sequence tie, larger writer identity last — so every
//! node that sees the same two candidates picks the same winner.
//! `reconcile_subkey` folds the winning candidate into the local cache,
//! and `inspect` reports the local per-subkey sequences once the record is
//! network-ready, signalling `TryAgain` (the one retryable error) before
//! that.

use vstd::prelude::*;
use crate::record::RecordKey;
use crate::record::SubkeyValue;
use crate::store::DhtError;
use crate::store::RecordStore;
use crate::store::record_written;
use crate::watch::ChangeEvent;
use crate::watch::subs_notified;

verus! {

/// One observed remote write: payload, claimed sequence, writer identity,
/// and the signature timestamp used to break sequence ties.
#[derive(Clone, PartialEq, Eq, Debug)]
pub struct WriteCandidate {
    pub data: Vec<u8>,
    pub sequence: u32,
    pub writer: u64,
    pub timestamp: u64,
}

/// The conflict-resolution order on two candidates for the same subkey:
/// the first wins on a strictly higher sequence; on a sequence tie, on a
/// strictly later timestamp; on a full tie of both, on the larger writer
/// identity (first on a complete tie of all three).
pub open spec fn spec_first_wins(a: WriteCandidate, b: WriteCandidate) -> bool {
    ||| a.sequence > b.sequence
    ||| (a.sequence == b.sequence && a.timestamp > b.timestamp)
    ||| (a.sequence == b.sequence && a.timestamp == b.timestamp && a.writer >= b.writer)
}

/// Picks the winner among two conflicting candidates, per
/// `spec_first_wins`. A pure function: the same two candidates always
/// yield the same winner, on every node and on every rerun.
pub fn reconcile_candidates(a: WriteCandidate, b: WriteCandidate) -> (w: WriteCandidate)
    ensures
        w == if spec_first_wins(a, b) {
            a
        } else {
            b
        },
{
    if a.sequence > b.sequence {
        a
    } else if a.sequence == b.sequence && a.timestamp > b.timestamp {
        a
    } else if a.sequence == b.sequence && a.timestamp == b.timestamp && a.writer >= b.writer {
        a
    } else {
        b
    }
}

/// The conflict order is antisymmetric whenever the two candidates differ
/// in sequence, timestamp or writer: presenting them in either order
/// crowns the same winner, so reconciliation converges.
pub proof fn lemma_reconcile_deterministic(a: WriteCandidate, b: WriteCandidate)
    requires
        a.sequence != b.sequence || a.timestamp != b.timestamp || a.writer != b.writer,
    ensures
        spec_first_wins(a, b) <==> !spec_first_wins(b, a),
{
}

/// A snapshot of one record's replication state: the sequence each subkey
/// is at locally (zero if never written), produced on demand and never
/// persisted.
#[derive(Clone, PartialEq, Eq, Debug)]
pub struct InspectionReport {
    pub subkey_seqs: Vec<u32>,
    pub is_fully_replicated: bool,
}

/// Simple retry policy for `TryAgain`: a fixed backoff for a capped
/// number of attempts. The engine only signals retryability; pacing the
/// retries is the caller's concern, with this as the default.
#[derive(Clone, Copy, PartialEq, Eq, Structural, Debug)]
pub struct RetryPolicy {
    pub max_attempts: u32,
    pub backoff_ms: u32,
}

impl RetryPolicy {
    /// How long to back off before retry number `attempt` (counted from
    /// zero), or `None` once the attempts are used up.
    pub fn next_delay(&self, attempt: u32) -> (r: Option<u32>)
        ensures
            r == if attempt < self.max_attempts {
                Some(self.backoff_ms)
            } else {
                None::<u32>
            },
    {
        if attempt < self.max_attempts {
            Some(self.backoff_ms)
        } else {
            None
        }
    }
}

impl RecordStore {
    /// Records the attachment layer's verdict on whether `key`'s record
    /// is reachable (replicated far enough for inspection and watches).
    pub fn set_network_ready(&mut self, key: RecordKey, ready: bool) -> (r: Result<(), DhtError>)
        requires
            old(self).wf(),
        ensures
            final(self).wf(),
            final(self).subs@ == old(self).subs@,
            final(self).next_id == old(self).next_id,
            r is Err <==> !old(self).has_record(key),
            r matches Err(e) ==> e == (DhtError::RecordNotFound { record_key: key }) && *final(self)
                == *old(self),
            r is Ok ==> ({
                &&& final(self).records@.len() == old(self).records@.len()
                &&& (forall|j: int|
                    0 <= j < old(self).records@.len() && j != old(self).index_of(key)
                        ==> final(self).records@[j] == old(self).records@[j])
                &&& final(self).records@[old(self).index_of(key)].network_ready == ready
                &&& final(self).records@[old(self).index_of(key)].key == key
                &&& final(self).records@[old(self).index_of(key)].schema == old(self).record_of(
                    key,
                ).schema
                &&& final(self).records@[old(self).index_of(key)].creator == old(self).record_of(
                    key,
                ).creator
                &&& final(self).records@[old(self).index_of(key)].subkeys@ == old(self).record_of(
                    key,
                ).subkeys@
            }),
    {
        let ri = match self.find_record(key) {
            Some(i) => i,
            None => {
                return Err(DhtError::RecordNotFound { record_key: key });
            },
        };
        self.records[ri].network_ready = ready;
        proof {
            old(self).lemma_index_of(ri as int, key);
        }
        Ok(())
    }

    /// What `inspect` must refuse: an unknown record, or — the one
    /// retryable condition — a record whose replication state is not yet
    /// established.
    pub open spec fn inspect_error(self, key: RecordKey) -> Option<DhtError> {
        if !self.has_record(key) {
            Some(DhtError::RecordNotFound { record_key: key })
        } else if !self.record_of(key).network_ready {
            Some(DhtError::TryAgain { record_key: key })
        } else {
            None
        }
    }

    /// Produces a snapshot of the record's per-subkey sequences.
    ///
    /// Before the network layer reports the record ready this fails with
    /// `TryAgain`, which the caller should retry with backoff
    /// (`RetryPolicy`); it never blocks. Once ready, the report lists the
    /// sequence of every subkey in order.
    pub fn inspect(&self, key: RecordKey) -> (r: Result<InspectionReport, DhtError>)
        requires
            self.wf(),
        ensures
            r is Err <==> self.inspect_error(key) is Some,
            r matches Err(e) ==> Some(e) == self.inspect_error(key),
            r matches Ok(rep) ==> ({
                &&& rep.subkey_seqs@.len() == self.record_of(key).schema.total_subkeys()
                &&& (forall|i: int|
                    0 <= i < rep.subkey_seqs@.len() ==> rep.subkey_seqs@[i] == self.record_of(
                        key,
                    ).seq_of(i))
                &&& rep.is_fully_replicated
            }),
    {
        let ri = match self.find_record(key) {
            Some(i) => i,
            None => {
                return Err(DhtError::RecordNotFound { record_key: key });
            },
        };
        if !self.records[ri].network_ready {
            return Err(DhtError::TryAgain { record_key: key });
        }
        let n = self.records[ri].subkeys.len();
        let mut seqs: Vec<u32> = Vec::new();
        let mut i: usize = 0;
        while i < n
            invariant
                self.wf(),
                ri < self.records@.len(),
                self.records@[ri as int].key == key,
                n == self.records@[ri as int].subkeys@.len(),
                i <= n,
                seqs@.len() == i,
                forall|j: int|
                    0 <= j < i ==> seqs@[j] == self.records@[ri as int].seq_of(j),
            decreases n - i,
        {
            let s: u32 = match &self.records[ri].subkeys[i] {
                Some(v) => v.sequence,
                None => 0,
            };
            seqs.push(s);
            i += 1;
        }
        proof {
            self.lemma_index_of(ri as int, key);
        }
        Ok(InspectionReport { subkey_seqs: seqs, is_fully_replicated: true })
    }

    /// Folds one network-observed write into the local cache, per the
    /// tie-break rule: a candidate strictly newer than the local sequence
    /// replaces the local value (and notifies matching watchers); an older
    /// or equal one is ignored — candidates at the same sequence are
    /// ordered among themselves with `reconcile_candidates` before being
    /// offered here. A candidate whose writer the schema does not assign
    /// to that subkey is rejected outright.
    ///
    /// Returns whether the candidate was applied.
    pub fn reconcile_subkey(&mut self, key: RecordKey, subkey: u32, c: WriteCandidate) -> (r:
        Result<bool, DhtError>)
        requires
            old(self).wf(),
        ensures
            final(self).wf(),
            r is Err <==> old(self).set_value_error(key, subkey, c.writer) is Some,
            r matches Err(e) ==> Some(e) == old(self).set_value_error(key, subkey, c.writer)
                && *final(self) == *old(self),
            r matches Ok(applied) ==> ({
                &&& applied == (c.sequence > old(self).record_of(key).seq_of(subkey as int))
                &&& (!applied ==> *final(self) == *old(self))
                &&& (applied ==> ({
                    &&& final(self).records@.len() == old(self).records@.len()
                    &&& (forall|j: int|
                        0 <= j < old(self).records@.len() && j != old(self).index_of(key)
                            ==> final(self).records@[j] == old(self).records@[j])
                    &&& record_written(
                        old(self).record_of(key),
                        final(self).records@[old(self).index_of(key)],
                        subkey as int,
                        c.data@,
                        c.sequence,
                        c.writer,
                    )
                    &&& subs_notified(
                        old(self).subs@,
                        final(self).subs@,
                        ChangeEvent { record_key: key, subkey, sequence: c.sequence },
                    )
                    &&& final(self).next_id == old(self).next_id
                }))
            }),
    {
        let ri = match self.find_record(key) {
            Some(i) => i,
            None => {
                return Err(DhtError::RecordNotFound { record_key: key });
            },
        };
        if subkey as usize >= self.records[ri].subkeys.len() {
            return Err(DhtError::SubkeyOutOfRange { record_key: key, subkey });
        }
        let creator_public = self.records[ri].creator.public;
        let owner = self.records[ri].schema.subkey_owner(creator_public, subkey);
        let authorized = match owner {
            Some(o) => o == c.writer,
            None => false,
        };
        if !authorized {
            return Err(
                DhtError::UnauthorizedWriter {
                    record_key: key,
                    subkey: Some(subkey),
                    credential_id: c.writer,
                },
            );
        }
        let su = subkey as usize;
        let local_seq: u32 = match &self.records[ri].subkeys[su] {
            Some(v) => v.sequence,
            None => 0,
        };
        if c.sequence <= local_seq {
            return Ok(false);
        }
        let sq = c.sequence;
        let writer_id = c.writer;
        self.records[ri].subkeys[su] = Some(
            SubkeyValue { data: c.data, sequence: sq, writer: writer_id },
        );
        proof {
            old(self).lemma_index_of(ri as int, key);
            self.lemma_index_of(ri as int, key);
        }
        let ev = ChangeEvent { record_key: key, subkey, sequence: sq };
        self.notify_subscriptions(ev);
        Ok(true)
    }
}

} // verus!
