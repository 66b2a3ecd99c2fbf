//! Records and their identities.
//!
//! A record is identified by a `RecordKey` derived deterministically from
//! the crypto kind, the schema, and a creation nonce. It owns its schema,
//! the creator's keypair, and one independently versioned value slot per
//! subkey.

use vstd::prelude::*;
use crate::schema::Member;
use crate::schema::Schema;

verus! {

/// A signing keypair. The public half doubles as the member identity the
/// schema speaks of; the secret half stays with the credential's holder and
/// never enters a record's shared state.
#[derive(Clone, Copy, PartialEq, Eq, Structural, Debug)]
pub struct KeyPair {
    pub public: u64,
    pub secret: u64,
}

/// Identity of a record: the crypto kind it was created under and an
/// identifier derived from the schema and the creation nonce.
#[derive(Clone, Copy, PartialEq, Eq, Structural, Debug)]
pub struct RecordKey {
    pub kind: u32,
    pub id: u64,
}

/// The current state of one subkey: its payload, a version counter that
/// grows by one on every successful write, and the identity that wrote it.
#[derive(Clone, PartialEq, Eq, Debug)]
pub struct SubkeyValue {
    pub data: Vec<u8>,
    pub sequence: u32,
    pub writer: u64,
}

/// One live record: its identity, immutable schema and creator, one slot
/// per subkey, and whether the network layer has reported the record as
/// reachable (replicated far enough for inspection and watches).
#[derive(Debug)]
pub struct Record {
    pub key: RecordKey,
    pub schema: Schema,
    pub creator: KeyPair,
    pub subkeys: Vec<Option<SubkeyValue>>,
    pub network_ready: bool,
}

impl View for SubkeyValue {
    type V = (Seq<u8>, u32, u64);

    /// Mathematical image of a subkey slot: payload bytes, sequence,
    /// writer identity.
    open spec fn view(&self) -> (Seq<u8>, u32, u64) {
        (self.data@, self.sequence, self.writer)
    }
}

/// View of an optional subkey slot.
pub open spec fn slot_view(slot: Option<SubkeyValue>) -> Option<(Seq<u8>, u32, u64)> {
    match slot {
        Some(v) => Some(v@),
        None => None,
    }
}

impl Record {
    /// Structural invariant: the schema is valid, there is exactly one slot
    /// per declared subkey, and every written slot carries a sequence of at
    /// least one and the writer the schema assigns to that subkey.
    pub open spec fn wf(self) -> bool {
        &&& self.schema.valid()
        &&& self.subkeys@.len() == self.schema.total_subkeys()
        &&& forall|i: int|
            0 <= i < self.subkeys@.len() ==> ((#[trigger] self.subkeys@[i]) matches Some(v)
                ==> v.sequence >= 1 && Some(v.writer) == self.schema.subkey_writer(
                self.creator.public,
                i,
            ))
    }

    /// The sequence number subkey `i` is currently at; zero if it was never
    /// written.
    pub open spec fn seq_of(self, i: int) -> u32 {
        match self.subkeys@[i] {
            Some(v) => v.sequence,
            None => 0,
        }
    }
}

/// One step of the record identifier hash: fold `v` into the accumulator
/// `h`, truncating to 64 bits.
pub open spec fn spec_mix(h: u64, v: u64) -> u64 {
    (((h * 1000003) + v) % 0x1_0000_0000_0000_0000) as u64
}

/// Fold every member's identity and range length into the accumulator.
pub open spec fn spec_fold_members(h: u64, members: Seq<Member>) -> u64
    decreases members.len(),
{
    if members.len() == 0 {
        h
    } else {
        spec_fold_members(
            spec_mix(spec_mix(h, members[0].member_id), members[0].subkey_count as u64),
            members.skip(1),
        )
    }
}

/// The record identifier: a deterministic digest of the crypto kind, the
/// creation nonce, and the whole schema.
pub open spec fn spec_record_id(kind: u32, schema: Schema, nonce: u64) -> u64 {
    spec_fold_members(
        spec_mix(spec_mix(spec_mix(1, kind as u64), nonce), schema.exclusive_count as u64),
        schema.members@,
    )
}

/// The full record key derived from the creation parameters.
pub open spec fn spec_record_key(kind: u32, schema: Schema, nonce: u64) -> RecordKey {
    RecordKey { kind, id: spec_record_id(kind, schema, nonce) }
}

fn mix(h: u64, v: u64) -> (r: u64)
    ensures
        r == spec_mix(h, v),
{
    ((((h as u128) * 1000003) + (v as u128)) % 0x1_0000_0000_0000_0000) as u64
}

/// Derives the key a record created with these parameters will have. The
/// same kind, schema and nonce always yield the same key.
pub fn derive_record_key(kind: u32, schema: &Schema, nonce: u64) -> (r: RecordKey)
    ensures
        r == spec_record_key(kind, *schema, nonce),
{
    let mut h: u64 = mix(mix(mix(1, kind as u64), nonce), schema.exclusive_count as u64);
    let n = schema.members.len();
    let mut i: usize = 0;
    proof {
        assert(schema.members@.skip(0) =~= schema.members@);
    }
    while i < n
        invariant
            n == schema.members@.len(),
            i <= n,
            spec_fold_members(h, schema.members@.skip(i as int)) == spec_record_id(
                kind,
                *schema,
                nonce,
            ),
        decreases n - i,
    {
        proof {
            assert(schema.members@.skip(i as int).skip(1) =~= schema.members@.skip(i + 1));
        }
        let m = schema.members[i];
        h = mix(mix(h, m.member_id), m.subkey_count as u64);
        i += 1;
    }
    proof {
        assert(schema.members@.skip(n as int) =~= Seq::<Member>::empty());
    }
    RecordKey { kind, id: h }
}

} // verus!
