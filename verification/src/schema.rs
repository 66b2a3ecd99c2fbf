//! SMPL schemas: who may write which subkeys of a record.
//!
//! A schema grants the record's creator the leading `exclusive_count`
//! subkeys and then each member, in order, a contiguous range of
//! `subkey_count` subkeys of its own. The schema is validated once, before
//! a record is created from it, and is immutable afterwards.

use vstd::prelude::*;

verus! {

/// Ceiling on the total number of subkeys a single record may declare.
pub const MAX_SUBKEYS: usize = 512;

/// One participant of an SMPL schema: an identity derived from the member's
/// public key, and how many subkeys that member alone may write.
#[derive(Clone, Copy, PartialEq, Eq, Structural, Debug)]
pub struct Member {
    pub member_id: u64,
    pub subkey_count: usize,
}

/// Why a schema was rejected by validation.
#[derive(Clone, Copy, PartialEq, Eq, Structural, Debug)]
pub enum SchemaError {
    /// Some member declares zero writable subkeys.
    InvalidMemberCount,
    /// The exclusive range plus all member ranges exceed `MAX_SUBKEYS`.
    SchemaOverflow,
    /// Two members share the same `member_id`.
    DuplicateMember,
}

/// An SMPL schema: a leading creator-exclusive subkey range followed by one
/// range per member.
#[derive(Clone, Debug)]
pub struct Schema {
    pub exclusive_count: usize,
    pub members: Vec<Member>,
}

/// Sum of the subkey counts of a member list.
pub open spec fn sum_counts(members: Seq<Member>) -> int
    decreases members.len(),
{
    if members.len() == 0 {
        0
    } else {
        members[0].subkey_count + sum_counts(members.skip(1))
    }
}

/// Which member, if any, owns index `idx` within the concatenation of the
/// member ranges (index 0 is the first subkey after the exclusive range).
pub open spec fn member_range_writer(members: Seq<Member>, idx: int) -> Option<u64>
    decreases members.len(),
{
    if members.len() == 0 {
        None
    } else if 0 <= idx < members[0].subkey_count {
        Some(members[0].member_id)
    } else if idx < 0 {
        None
    } else {
        member_range_writer(members.skip(1), idx - members[0].subkey_count)
    }
}

pub proof fn lemma_sum_counts_nonneg(members: Seq<Member>)
    ensures
        sum_counts(members) >= 0,
    decreases members.len(),
{
    if members.len() > 0 {
        lemma_sum_counts_nonneg(members.skip(1));
    }
}

/// Within the member ranges, exactly the indices below the total member
/// subkey count have a writer.
pub proof fn lemma_member_range_writer_some(members: Seq<Member>, idx: int)
    ensures
        member_range_writer(members, idx) is Some <==> 0 <= idx < sum_counts(members),
    decreases members.len(),
{
    if members.len() > 0 {
        lemma_sum_counts_nonneg(members.skip(1));
        if 0 <= idx < members[0].subkey_count {
        } else {
            lemma_member_range_writer_some(members.skip(1), idx - members[0].subkey_count);
        }
    }
}

/// Whoever the member ranges assign a subkey to is one of the members.
pub proof fn lemma_member_range_writer_is_member(members: Seq<Member>, idx: int)
    ensures
        member_range_writer(members, idx) matches Some(w) ==> exists|i: int|
            0 <= i < members.len() && (#[trigger] members[i]).member_id == w,
    decreases members.len(),
{
    if members.len() > 0 {
        if 0 <= idx < members[0].subkey_count {
            assert(members[0].member_id == member_range_writer(members, idx)->0);
        } else if idx >= 0 {
            lemma_member_range_writer_is_member(members.skip(1), idx - members[0].subkey_count);
            if member_range_writer(members, idx) is Some {
                let w = member_range_writer(members, idx)->0;
                let i = choose|i: int|
                    0 <= i < members.skip(1).len() && (#[trigger] members.skip(1)[i]).member_id
                        == w;
                assert(members[i + 1].member_id == w);
            }
        }
    }
}

impl Schema {
    /// Total number of subkeys the schema declares: the creator-exclusive
    /// range plus every member range.
    pub open spec fn total_subkeys(self) -> int {
        self.exclusive_count + sum_counts(self.members@)
    }

    /// Every member declares at least one subkey.
    pub open spec fn members_positive(self) -> bool {
        forall|i: int|
            0 <= i < self.members@.len() ==> #[trigger] self.members@[i].subkey_count > 0
    }

    /// No two members share an identity.
    pub open spec fn no_duplicate_members(self) -> bool {
        forall|i: int, j: int|
            0 <= i < j < self.members@.len() ==> self.members@[i].member_id
                != self.members@[j].member_id
    }

    /// A schema may be attached to a record exactly when this holds.
    pub open spec fn valid(self) -> bool {
        &&& self.members_positive()
        &&& self.total_subkeys() <= MAX_SUBKEYS
        &&& self.no_duplicate_members()
    }

    /// The identity allowed to write subkey `idx` of a record whose creator
    /// public key is `creator`: the creator inside the exclusive range, the
    /// owning member inside a member range, nobody past the end.
    pub open spec fn subkey_writer(self, creator: u64, idx: int) -> Option<u64> {
        if 0 <= idx < self.exclusive_count {
            Some(creator)
        } else if idx < 0 {
            None
        } else {
            member_range_writer(self.members@, idx - self.exclusive_count)
        }
    }

    /// An identity that appears nowhere in the schema — neither as the
    /// creator nor as any member — is never the assigned writer of any
    /// subkey.
    pub proof fn lemma_outsider_never_writes(self, creator: u64, candidate: u64, idx: int)
        requires
            !self.spec_is_schema_key(creator, candidate),
        ensures
            self.subkey_writer(creator, idx) != Some(candidate),
    {
        lemma_member_range_writer_is_member(self.members@, idx - self.exclusive_count);
    }

    /// A valid schema assigns a writer to exactly the indices below
    /// `total_subkeys`.
    pub proof fn lemma_subkey_writer_in_range(self, creator: u64, idx: int)
        ensures
            self.subkey_writer(creator, idx) is Some <==> 0 <= idx < self.total_subkeys(),
    {
        lemma_sum_counts_nonneg(self.members@);
        lemma_member_range_writer_some(self.members@, idx - self.exclusive_count);
    }

    /// The verdict validation must reach: the first violated rule in the
    /// order member counts, total size, duplicate identities; `Ok` exactly
    /// for the valid schemas.
    pub open spec fn spec_validate(self) -> Result<(), SchemaError> {
        if !self.members_positive() {
            Err(SchemaError::InvalidMemberCount)
        } else if self.total_subkeys() > MAX_SUBKEYS {
            Err(SchemaError::SchemaOverflow)
        } else if !self.no_duplicate_members() {
            Err(SchemaError::DuplicateMember)
        } else {
            Ok(())
        }
    }

    /// Checks that the schema may be attached to a record.
    ///
    /// Accepts exactly the valid schemas, and reports the first violated
    /// rule in the order: member counts, total size, duplicate identities.
    pub fn validate(&self) -> (r: Result<(), SchemaError>)
        ensures
            r is Ok <==> self.valid(),
            r == self.spec_validate(),
    {
        let n = self.members.len();
        let mut i: usize = 0;
        while i < n
            invariant
                n == self.members@.len(),
                forall|j: int| 0 <= j < i ==> #[trigger] self.members@[j].subkey_count > 0,
            decreases n - i,
        {
            if self.members[i].subkey_count == 0 {
                return Err(SchemaError::InvalidMemberCount);
            }
            i += 1;
        }
        assert(self.members_positive());

        if self.exclusive_count > MAX_SUBKEYS {
            proof {
                lemma_sum_counts_nonneg(self.members@);
            }
            return Err(SchemaError::SchemaOverflow);
        }
        let mut total: usize = self.exclusive_count;
        i = 0;
        proof {
            assert(self.members@.skip(0) =~= self.members@);
        }
        while i < n
            invariant
                n == self.members@.len(),
                i <= n,
                self.members_positive(),
                total <= MAX_SUBKEYS,
                total + sum_counts(self.members@.skip(i as int)) == self.total_subkeys(),
            decreases n - i,
        {
            let c = self.members[i].subkey_count;
            proof {
                assert(self.members@.skip(i as int).skip(1) =~= self.members@.skip(i + 1));
                lemma_sum_counts_nonneg(self.members@.skip(i + 1));
                assert(self.members@.skip(i as int)[0] == self.members@[i as int]);
                assert(sum_counts(self.members@.skip(i as int)) == c + sum_counts(
                    self.members@.skip(i + 1),
                ));
            }
            if c > MAX_SUBKEYS - total {
                return Err(SchemaError::SchemaOverflow);
            }
            total += c;
            i += 1;
        }
        proof {
            assert(self.members@.skip(n as int) =~= Seq::<Member>::empty());
        }
        assert(self.total_subkeys() <= MAX_SUBKEYS);

        i = 0;
        while i < n
            invariant
                n == self.members@.len(),
                self.members_positive(),
                self.total_subkeys() <= MAX_SUBKEYS,
                forall|p: int, q: int|
                    0 <= p < q < i ==> self.members@[p].member_id != self.members@[q].member_id,
            decreases n - i,
        {
            let mut j: usize = 0;
            while j < i
                invariant
                    i < n,
                    n == self.members@.len(),
                    self.members_positive(),
                    self.total_subkeys() <= MAX_SUBKEYS,
                    forall|q: int|
                        0 <= q < j ==> #[trigger] self.members@[q].member_id
                            != self.members@[i as int].member_id,
                decreases i - j,
            {
                if self.members[j].member_id == self.members[i].member_id {
                    assert(!self.no_duplicate_members());
                    return Err(SchemaError::DuplicateMember);
                }
                j += 1;
            }
            i += 1;
        }
        assert(self.no_duplicate_members());
        Ok(())
    }

    /// Counts the subkeys a record with this schema holds.
    pub fn total_subkeys_count(&self) -> (t: usize)
        requires
            self.total_subkeys() <= MAX_SUBKEYS,
        ensures
            t == self.total_subkeys(),
    {
        proof {
            lemma_sum_counts_nonneg(self.members@);
            assert(self.members@.skip(0) =~= self.members@);
        }
        let mut total: usize = self.exclusive_count;
        let n = self.members.len();
        let mut i: usize = 0;
        while i < n
            invariant
                n == self.members@.len(),
                i <= n,
                self.total_subkeys() <= MAX_SUBKEYS,
                total + sum_counts(self.members@.skip(i as int)) == self.total_subkeys(),
            decreases n - i,
        {
            proof {
                assert(self.members@.skip(i as int).skip(1) =~= self.members@.skip(i + 1));
                lemma_sum_counts_nonneg(self.members@.skip(i + 1));
                assert(self.members@.skip(i as int)[0] == self.members@[i as int]);
                assert(sum_counts(self.members@.skip(i as int))
                    == self.members@[i as int].subkey_count + sum_counts(
                    self.members@.skip(i + 1),
                ));
            }
            total += self.members[i].subkey_count;
            i += 1;
        }
        proof {
            assert(self.members@.skip(n as int) =~= Seq::<Member>::empty());
        }
        total
    }

    /// Whether `candidate` is one of the identities the schema knows: the
    /// creator's public key or some member's identity. A credential whose
    /// public key is none of these cannot open a writable handle.
    pub open spec fn spec_is_schema_key(self, creator_public: u64, candidate: u64) -> bool {
        candidate == creator_public || exists|i: int|
            0 <= i < self.members@.len() && (#[trigger] self.members@[i]).member_id == candidate
    }

    /// Checks `candidate` against the creator's key and every member.
    pub fn is_schema_key(&self, creator_public: u64, candidate: u64) -> (r: bool)
        ensures
            r == self.spec_is_schema_key(creator_public, candidate),
    {
        if candidate == creator_public {
            return true;
        }
        let n = self.members.len();
        let mut i: usize = 0;
        while i < n
            invariant
                n == self.members@.len(),
                i <= n,
                forall|j: int| 0 <= j < i ==> (#[trigger] self.members@[j]).member_id != candidate,
            decreases n - i,
        {
            if self.members[i].member_id == candidate {
                return true;
            }
            i += 1;
        }
        false
    }

    /// Looks up the identity allowed to write subkey `subkey`, walking the
    /// exclusive range and then each member range in order.
    pub fn subkey_owner(&self, creator_public: u64, subkey: u32) -> (r: Option<u64>)
        ensures
            r == self.subkey_writer(creator_public, subkey as int),
    {
        let mut idx: usize = subkey as usize;
        if idx < self.exclusive_count {
            return Some(creator_public);
        }
        idx = idx - self.exclusive_count;
        let n = self.members.len();
        let mut i: usize = 0;
        proof {
            assert(self.members@.skip(0) =~= self.members@);
        }
        while i < n
            invariant
                n == self.members@.len(),
                i <= n,
                member_range_writer(self.members@.skip(i as int), idx as int)
                    == self.subkey_writer(creator_public, subkey as int),
            decreases n - i,
        {
            proof {
                assert(self.members@.skip(i as int).skip(1) =~= self.members@.skip(i + 1));
            }
            if idx < self.members[i].subkey_count {
                return Some(self.members[i].member_id);
            }
            idx = idx - self.members[i].subkey_count;
            i += 1;
        }
        proof {
            assert(self.members@.skip(n as int) =~= Seq::<Member>::empty());
        }
        None
    }
}

} // verus!
