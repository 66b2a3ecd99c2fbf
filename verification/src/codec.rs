//! The key-file text format: `label = <value>` lines for a credential and
//! a record key, written by the creating node and read back by a joining
//! node.
//!
//! A credential line is `owner_kp = <public>:<secret>` and a record key
//! line is `RecordKey = <kind>:<id>`, each value a fixed-width lower-case
//! hexadecimal rendering and each line ending in a newline. Serialization
//! and parsing are exact inverses: whatever is written for a credential or
//! record key parses back to the identical value.

use vstd::prelude::*;
use crate::record::KeyPair;
use crate::record::RecordKey;

verus! {

/// Why a key file was rejected.
#[derive(Clone, Copy, PartialEq, Eq, Structural, Debug)]
pub enum PersistenceError {
    /// The file is the wrong shape: wrong length or a missing label.
    MissingField,
    /// A labelled value is not the fixed-width hex the format requires.
    MalformedValue,
}

/// Nibble `i` (big-endian, `0 <= i < 16`) of a 64-bit value.
pub open spec fn spec_nibble(x: u64, i: int) -> u64 {
    (x >> ((60 - 4 * i) as u64)) % 16
}

/// The lower-case hex character for a nibble value.
pub open spec fn hex_char(d: u64) -> u8 {
    if d < 10 {
        (48 + d) as u8
    } else {
        (87 + d) as u8
    }
}

/// The nibble value of a hex character, if it is one.
pub open spec fn hex_val(c: u8) -> Option<u64> {
    if 48 <= c <= 57 {
        Some((c - 48) as u64)
    } else if 97 <= c <= 102 {
        Some((c - 87) as u64)
    } else {
        None
    }
}

/// The 16-character hex rendering of a 64-bit value.
pub open spec fn spec_hex16(x: u64) -> Seq<u8> {
    Seq::new(16, |i: int| hex_char(spec_nibble(x, i)))
}

/// Hex characters round-trip through their nibble value.
pub proof fn lemma_hex_char_val(d: u64)
    requires
        d < 16,
    ensures
        hex_val(hex_char(d)) == Some(d),
{
}

fn hex_char_of(d: u64) -> (c: u8)
    requires
        d < 16,
    ensures
        c == hex_char(d),
{
    if d < 10 {
        (48 + d) as u8
    } else {
        (87 + d) as u8
    }
}

fn hex_val_of(c: u8) -> (r: Option<u64>)
    ensures
        r == hex_val(c),
{
    if 48 <= c && c <= 57 {
        Some((c - 48) as u64)
    } else if 97 <= c && c <= 102 {
        Some((c - 87) as u64)
    } else {
        None
    }
}

/// Appends the 16-character hex rendering of `x`.
fn push_hex16(out: &mut Vec<u8>, x: u64)
    ensures
        final(out)@ == old(out)@ + spec_hex16(x),
{
    let mut i: usize = 0;
    proof {
        assert(out@ =~= old(out)@ + spec_hex16(x).take(0));
    }
    while i < 16
        invariant
            i <= 16,
            out@ =~= old(out)@ + spec_hex16(x).take(i as int),
        decreases 16 - i,
    {
        let sh: u64 = 60 - 4 * (i as u64);
        let d: u64 = (x >> sh) % 16;
        let c = hex_char_of(d);
        proof {
            assert(d == spec_nibble(x, i as int));
            assert(spec_hex16(x)[i as int] == hex_char(spec_nibble(x, i as int)));
        }
        out.push(c);
        proof {
            assert(out@ =~= old(out)@ + spec_hex16(x).take(i + 1));
        }
        i += 1;
    }
    proof {
        assert(spec_hex16(x).take(16) =~= spec_hex16(x));
        assert(out@ == old(out)@ + spec_hex16(x));
    }
}

/// Whether `t` occurs in `s` at offset `off`, byte for byte.
fn range_eq(s: &Vec<u8>, off: usize, t: &Vec<u8>) -> (r: bool)
    requires
        off + t@.len() <= s@.len(),
    ensures
        r == (s@.subrange(off as int, off as int + t@.len()) == t@),
{
    let n = t.len();
    let sn = s.len();
    let mut i: usize = 0;
    while i < n
        invariant
            n == t@.len(),
            sn == s@.len(),
            off + n <= sn,
            i <= n,
            forall|j: int| 0 <= j < i ==> s@[off + j] == t@[j],
        decreases n - i,
    {
        if s[off + i] != t[i] {
            proof {
                assert(s@.subrange(off as int, off as int + t@.len())[i as int] != t@[i as int]);
            }
            return false;
        }
        i += 1;
    }
    proof {
        assert(s@.subrange(off as int, off as int + t@.len()) =~= t@);
    }
    true
}

/// Reads back the 16-character hex rendering of a 64-bit value at offset
/// `off`: exactly the sequences `spec_hex16` produces are accepted, and
/// each maps back to the one value that produced it.
fn parse_hex16(s: &Vec<u8>, off: usize) -> (r: Option<u64>)
    requires
        off + 16 <= s@.len(),
    ensures
        r matches Some(y) ==> s@.subrange(off as int, off as int + 16) == spec_hex16(y),
        forall|x: u64| s@.subrange(off as int, off as int + 16) == spec_hex16(x) ==> r == Some(x),
{
    let mut ds: Vec<u64> = Vec::new();
    let sn = s.len();
    let mut i: usize = 0;
    while i < 16
        invariant
            sn == s@.len(),
            off + 16 <= sn,
            i <= 16,
            ds@.len() == i,
            forall|j: int| 0 <= j < i ==> hex_val(s@[off + j]) == Some(ds@[j]),
            forall|j: int| 0 <= j < i ==> #[trigger] ds@[j] < 16,
        decreases 16 - i,
    {
        match hex_val_of(s[off + i]) {
            Some(d) => {
                ds.push(d);
            },
            None => {
                proof {
                    assert forall|x: u64|
                        s@.subrange(off as int, off as int + 16) != spec_hex16(x) by {
                        lemma_hex_char_val(spec_nibble(x, i as int));
                        if s@.subrange(off as int, off as int + 16) == spec_hex16(x) {
                            assert(s@.subrange(off as int, off as int + 16)[i as int] == s@[off
                                + i]);
                            assert(spec_hex16(x)[i as int] == hex_char(spec_nibble(x, i as int)));
                        }
                    }
                }
                return None;
            },
        }
        i += 1;
    }
    let d0 = ds[0];
    let d1 = ds[1];
    let d2 = ds[2];
    let d3 = ds[3];
    let d4 = ds[4];
    let d5 = ds[5];
    let d6 = ds[6];
    let d7 = ds[7];
    let d8 = ds[8];
    let d9 = ds[9];
    let d10 = ds[10];
    let d11 = ds[11];
    let d12 = ds[12];
    let d13 = ds[13];
    let d14 = ds[14];
    let d15 = ds[15];
    let y: u64 = (d0 << 60) | (d1 << 56) | (d2 << 52) | (d3 << 48) | (d4 << 44) | (d5 << 40) | (
    d6 << 36) | (d7 << 32) | (d8 << 28) | (d9 << 24) | (d10 << 20) | (d11 << 16) | (d12 << 12) | (
    d13 << 8) | (d14 << 4) | d15;
    proof {
        assert forall|x: u64| s@.subrange(off as int, off as int + 16) == spec_hex16(x) implies y
            == x by {
            assert forall|j: int| 0 <= j < 16 implies ds@[j] == spec_nibble(x, j) by {
                assert(s@.subrange(off as int, off as int + 16)[j] == s@[off + j]);
                assert(spec_hex16(x)[j] == hex_char(spec_nibble(x, j)));
                lemma_hex_char_val(spec_nibble(x, j));
            }
            assert(d0 == spec_nibble(x, 0));
            assert(d1 == spec_nibble(x, 1));
            assert(d2 == spec_nibble(x, 2));
            assert(d3 == spec_nibble(x, 3));
            assert(d4 == spec_nibble(x, 4));
            assert(d5 == spec_nibble(x, 5));
            assert(d6 == spec_nibble(x, 6));
            assert(d7 == spec_nibble(x, 7));
            assert(d8 == spec_nibble(x, 8));
            assert(d9 == spec_nibble(x, 9));
            assert(d10 == spec_nibble(x, 10));
            assert(d11 == spec_nibble(x, 11));
            assert(d12 == spec_nibble(x, 12));
            assert(d13 == spec_nibble(x, 13));
            assert(d14 == spec_nibble(x, 14));
            assert(d15 == spec_nibble(x, 15));
            assert(y == x) by (bit_vector)
                requires
                    y == (d0 << 60) | (d1 << 56) | (d2 << 52) | (d3 << 48) | (d4 << 44) | (d5
                        << 40) | (d6 << 36) | (d7 << 32) | (d8 << 28) | (d9 << 24) | (d10 << 20) | (
                    d11 << 16) | (d12 << 12) | (d13 << 8) | (d14 << 4) | d15,
                    d0 == (x >> 60) % 16,
                    d1 == (x >> 56) % 16,
                    d2 == (x >> 52) % 16,
                    d3 == (x >> 48) % 16,
                    d4 == (x >> 44) % 16,
                    d5 == (x >> 40) % 16,
                    d6 == (x >> 36) % 16,
                    d7 == (x >> 32) % 16,
                    d8 == (x >> 28) % 16,
                    d9 == (x >> 24) % 16,
                    d10 == (x >> 20) % 16,
                    d11 == (x >> 16) % 16,
                    d12 == (x >> 12) % 16,
                    d13 == (x >> 8) % 16,
                    d14 == (x >> 4) % 16,
                    d15 == (x >> 0) % 16,
            ;
        }
    }
    let mut expected: Vec<u8> = Vec::new();
    push_hex16(&mut expected, y);
    proof {
        assert(expected@ =~= spec_hex16(y));
    }
    if range_eq(s, off, &expected) {
        Some(y)
    } else {
        proof {
            assert forall|x: u64| s@.subrange(off as int, off as int + 16) != spec_hex16(x) by {
                if s@.subrange(off as int, off as int + 16) == spec_hex16(x) {
                    assert(y == x);
                }
            }
        }
        None
    }
}

/// The label of the credential line: `owner_kp = `.
pub open spec fn spec_label_owner() -> Seq<u8> {
    seq![111u8, 119u8, 110u8, 101u8, 114u8, 95u8, 107u8, 112u8, 32u8, 61u8, 32u8]
}

/// The label of the record key line: `RecordKey = `.
pub open spec fn spec_label_record() -> Seq<u8> {
    seq![82u8, 101u8, 99u8, 111u8, 114u8, 100u8, 75u8, 101u8, 121u8, 32u8, 61u8, 32u8]
}

fn label_owner_vec() -> (v: Vec<u8>)
    ensures
        v@ == spec_label_owner(),
{
    let mut v: Vec<u8> = Vec::new();
    v.push(111u8);
    v.push(119u8);
    v.push(110u8);
    v.push(101u8);
    v.push(114u8);
    v.push(95u8);
    v.push(107u8);
    v.push(112u8);
    v.push(32u8);
    v.push(61u8);
    v.push(32u8);
    proof {
        assert(v@ =~= spec_label_owner());
    }
    v
}

fn label_record_vec() -> (v: Vec<u8>)
    ensures
        v@ == spec_label_record(),
{
    let mut v: Vec<u8> = Vec::new();
    v.push(82u8);
    v.push(101u8);
    v.push(99u8);
    v.push(111u8);
    v.push(114u8);
    v.push(100u8);
    v.push(75u8);
    v.push(101u8);
    v.push(121u8);
    v.push(32u8);
    v.push(61u8);
    v.push(32u8);
    proof {
        assert(v@ =~= spec_label_record());
    }
    v
}

/// The credential line: `owner_kp = <public>:<secret>` and a newline, both
/// halves in 16-character hex. 45 bytes.
pub open spec fn spec_cred_line(kp: KeyPair) -> Seq<u8> {
    spec_label_owner() + spec_hex16(kp.public) + seq![58u8] + spec_hex16(kp.secret) + seq![10u8]
}

/// The record key line: `RecordKey = <kind>:<id>` and a newline, the kind
/// zero-extended to 64 bits, both halves in 16-character hex. 46 bytes.
pub open spec fn spec_record_key_line(rk: RecordKey) -> Seq<u8> {
    spec_label_record() + spec_hex16(rk.kind as u64) + seq![58u8] + spec_hex16(rk.id) + seq![10u8]
}

/// Writes the credential line for `kp`.
pub fn serialize_credential(kp: &KeyPair) -> (v: Vec<u8>)
    ensures
        v@ == spec_cred_line(*kp),
{
    let mut v = label_owner_vec();
    push_hex16(&mut v, kp.public);
    v.push(58u8);
    push_hex16(&mut v, kp.secret);
    v.push(10u8);
    proof {
        assert(v@ =~= spec_cred_line(*kp));
    }
    v
}

/// Writes the record key line for `rk`.
pub fn serialize_record_key(rk: &RecordKey) -> (v: Vec<u8>)
    ensures
        v@ == spec_record_key_line(*rk),
{
    let mut v = label_record_vec();
    push_hex16(&mut v, rk.kind as u64);
    v.push(58u8);
    push_hex16(&mut v, rk.id);
    v.push(10u8);
    proof {
        assert(v@ =~= spec_record_key_line(*rk));
    }
    v
}

/// Reads a credential line back. Exactly the output of
/// `serialize_credential` is accepted, and parses to the credential that
/// produced it; a wrong length or label is a missing field, anything else
/// a malformed value.
pub fn parse_credential(s: &Vec<u8>) -> (r: Result<KeyPair, PersistenceError>)
    ensures
        r matches Ok(kp) ==> s@ == spec_cred_line(kp),
        forall|kp: KeyPair| s@ == spec_cred_line(kp) ==> r == Ok::<KeyPair, PersistenceError>(kp),
        (s@.len() != 45 || s@.subrange(0, 11) != spec_label_owner()) ==> r == Err::<
            KeyPair,
            PersistenceError,
        >(PersistenceError::MissingField),
    {
    if s.len() != 45 {
        proof {
            assert forall|kp: KeyPair| s@ != spec_cred_line(kp) by {
                assert(spec_cred_line(kp).len() == 45);
            }
        }
        return Err(PersistenceError::MissingField);
    }
    let label = label_owner_vec();
    if !range_eq(s, 0, &label) {
        proof {
            assert forall|kp: KeyPair| s@ != spec_cred_line(kp) by {
                if s@ == spec_cred_line(kp) {
                    assert(s@.subrange(0, 11) =~= spec_label_owner());
                }
            }
        }
        return Err(PersistenceError::MissingField);
    }
    let public = match parse_hex16(s, 11) {
        Some(y) => y,
        None => {
            proof {
                assert forall|kp: KeyPair| s@ != spec_cred_line(kp) by {
                    if s@ == spec_cred_line(kp) {
                        assert(s@.subrange(11, 27) =~= spec_hex16(kp.public));
                    }
                }
            }
            return Err(PersistenceError::MalformedValue);
        },
    };
    if s[27] != 58u8 {
        proof {
            assert forall|kp: KeyPair| s@ != spec_cred_line(kp) by {
                if s@ == spec_cred_line(kp) {
                    assert(s@[27] == spec_cred_line(kp)[27]);
                }
            }
        }
        return Err(PersistenceError::MalformedValue);
    }
    let secret = match parse_hex16(s, 28) {
        Some(y) => y,
        None => {
            proof {
                assert forall|kp: KeyPair| s@ != spec_cred_line(kp) by {
                    if s@ == spec_cred_line(kp) {
                        assert(s@.subrange(28, 44) =~= spec_hex16(kp.secret));
                    }
                }
            }
            return Err(PersistenceError::MalformedValue);
        },
    };
    if s[44] != 10u8 {
        proof {
            assert forall|kp: KeyPair| s@ != spec_cred_line(kp) by {
                if s@ == spec_cred_line(kp) {
                    assert(s@[44] == spec_cred_line(kp)[44]);
                }
            }
        }
        return Err(PersistenceError::MalformedValue);
    }
    let kp = KeyPair { public, secret };
    proof {
        assert forall|i: int| 0 <= i < 45 implies s@[i] == spec_cred_line(kp)[i] by {
            if i < 11 {
                assert(s@.subrange(0, 11)[i] == s@[i]);
            } else if i < 27 {
                assert(s@.subrange(11, 27)[i - 11] == s@[i]);
                assert(spec_hex16(kp.public)[i - 11] == spec_cred_line(kp)[i]);
            } else if i == 27 {
            } else if i < 44 {
                assert(s@.subrange(28, 44)[i - 28] == s@[i]);
                assert(spec_hex16(kp.secret)[i - 28] == spec_cred_line(kp)[i]);
            }
        }
        assert(s@ =~= spec_cred_line(kp));
        assert forall|kp2: KeyPair| s@ == spec_cred_line(kp2) implies kp == kp2 by {
            assert(spec_label_owner().len() == 11);
            assert(spec_hex16(kp2.public).len() == 16);
            assert(s@.subrange(11, 27) =~= spec_hex16(kp2.public));
            assert(s@.subrange(28, 44) =~= spec_hex16(kp2.secret));
        }
    }
    Ok(kp)
}

/// Reads a record key line back. Exactly the output of
/// `serialize_record_key` is accepted, and parses to the record key that
/// produced it.
pub fn parse_record_key(s: &Vec<u8>) -> (r: Result<RecordKey, PersistenceError>)
    ensures
        r matches Ok(rk) ==> s@ == spec_record_key_line(rk),
        forall|rk: RecordKey| s@ == spec_record_key_line(rk) ==> r == Ok::<
            RecordKey,
            PersistenceError,
        >(rk),
        (s@.len() != 46 || s@.subrange(0, 12) != spec_label_record()) ==> r == Err::<
            RecordKey,
            PersistenceError,
        >(PersistenceError::MissingField),
    {
    if s.len() != 46 {
        proof {
            assert forall|rk: RecordKey| s@ != spec_record_key_line(rk) by {
                assert(spec_record_key_line(rk).len() == 46);
            }
        }
        return Err(PersistenceError::MissingField);
    }
    let label = label_record_vec();
    if !range_eq(s, 0, &label) {
        proof {
            assert forall|rk: RecordKey| s@ != spec_record_key_line(rk) by {
                if s@ == spec_record_key_line(rk) {
                    assert(s@.subrange(0, 12) =~= spec_label_record());
                }
            }
        }
        return Err(PersistenceError::MissingField);
    }
    let kind64 = match parse_hex16(s, 12) {
        Some(y) => y,
        None => {
            proof {
                assert forall|rk: RecordKey| s@ != spec_record_key_line(rk) by {
                    if s@ == spec_record_key_line(rk) {
                        assert(s@.subrange(12, 28) =~= spec_hex16(rk.kind as u64));
                    }
                }
            }
            return Err(PersistenceError::MalformedValue);
        },
    };
    if s[28] != 58u8 {
        proof {
            assert forall|rk: RecordKey| s@ != spec_record_key_line(rk) by {
                if s@ == spec_record_key_line(rk) {
                    assert(s@[28] == spec_record_key_line(rk)[28]);
                }
            }
        }
        return Err(PersistenceError::MalformedValue);
    }
    let id = match parse_hex16(s, 29) {
        Some(y) => y,
        None => {
            proof {
                assert forall|rk: RecordKey| s@ != spec_record_key_line(rk) by {
                    if s@ == spec_record_key_line(rk) {
                        assert(s@.subrange(29, 45) =~= spec_hex16(rk.id));
                    }
                }
            }
            return Err(PersistenceError::MalformedValue);
        },
    };
    if s[45] != 10u8 {
        proof {
            assert forall|rk: RecordKey| s@ != spec_record_key_line(rk) by {
                if s@ == spec_record_key_line(rk) {
                    assert(s@[45] == spec_record_key_line(rk)[45]);
                }
            }
        }
        return Err(PersistenceError::MalformedValue);
    }
    if kind64 > 0xFFFF_FFFF {
        proof {
            assert forall|rk: RecordKey| s@ != spec_record_key_line(rk) by {
                if s@ == spec_record_key_line(rk) {
                    assert(s@.subrange(12, 28) =~= spec_hex16(rk.kind as u64));
                }
            }
        }
        return Err(PersistenceError::MalformedValue);
    }
    let rk = RecordKey { kind: kind64 as u32, id };
    proof {
        assert forall|i: int| 0 <= i < 46 implies s@[i] == spec_record_key_line(rk)[i] by {
            if i < 12 {
                assert(s@.subrange(0, 12)[i] == s@[i]);
            } else if i < 28 {
                assert(s@.subrange(12, 28)[i - 12] == s@[i]);
                assert(spec_hex16(rk.kind as u64)[i - 12] == spec_record_key_line(rk)[i]);
            } else if i == 28 {
            } else if i < 45 {
                assert(s@.subrange(29, 45)[i - 29] == s@[i]);
                assert(spec_hex16(rk.id)[i - 29] == spec_record_key_line(rk)[i]);
            }
        }
        assert(s@ =~= spec_record_key_line(rk));
        assert forall|rk2: RecordKey| s@ == spec_record_key_line(rk2) implies rk == rk2 by {
            assert(spec_label_record().len() == 12);
            assert(spec_hex16(rk2.kind as u64).len() == 16);
            assert(s@.subrange(12, 28) =~= spec_hex16(rk2.kind as u64));
            assert(s@.subrange(29, 45) =~= spec_hex16(rk2.id));
            assert(kind64 == rk2.kind as u64);
        }
    }
    Ok(rk)
}

/// The whole key file: the credential line followed by the record key
/// line. 91 bytes.
pub open spec fn spec_key_file(kp: KeyPair, rk: RecordKey) -> Seq<u8> {
    spec_cred_line(kp) + spec_record_key_line(rk)
}

/// Writes the key file for a credential and a record key.
pub fn serialize_key_file(kp: &KeyPair, rk: &RecordKey) -> (v: Vec<u8>)
    ensures
        v@ == spec_key_file(*kp, *rk),
{
    let mut v = serialize_credential(kp);
    let mut tail = serialize_record_key(rk);
    v.append(&mut tail);
    proof {
        assert(v@ =~= spec_key_file(*kp, *rk));
    }
    v
}

/// Copies `src[a..b]` into a fresh buffer.
fn copy_range(src: &Vec<u8>, a: usize, b: usize) -> (r: Vec<u8>)
    requires
        a <= b <= src@.len(),
    ensures
        r@ == src@.subrange(a as int, b as int),
{
    let mut out: Vec<u8> = Vec::new();
    let mut i: usize = a;
    while i < b
        invariant
            a <= i <= b <= src@.len(),
            out@ =~= src@.subrange(a as int, i as int),
        decreases b - i,
    {
        out.push(src[i]);
        proof {
            assert(out@ =~= src@.subrange(a as int, i + 1));
        }
        i += 1;
    }
    proof {
        assert(out@ =~= src@.subrange(a as int, b as int));
    }
    out
}

/// Reads a whole key file back: exactly the output of
/// `serialize_key_file` is accepted, and parses to the credential and
/// record key that produced it.
pub fn parse_key_file(s: &Vec<u8>) -> (r: Result<(KeyPair, RecordKey), PersistenceError>)
    ensures
        r matches Ok(p) ==> s@ == spec_key_file(p.0, p.1),
        forall|kp: KeyPair, rk: RecordKey| s@ == spec_key_file(kp, rk) ==> r == Ok::<
            (KeyPair, RecordKey),
            PersistenceError,
        >((kp, rk)),
        s@.len() != 91 ==> r == Err::<(KeyPair, RecordKey), PersistenceError>(
            PersistenceError::MissingField,
        ),
    {
    if s.len() != 91 {
        proof {
            assert forall|kp: KeyPair, rk: RecordKey| s@ != spec_key_file(kp, rk) by {
                assert(spec_key_file(kp, rk).len() == 91);
            }
        }
        return Err(PersistenceError::MissingField);
    }
    let head = copy_range(s, 0, 45);
    let tail = copy_range(s, 45, 91);
    proof {
        assert forall|kp: KeyPair, rk: RecordKey| s@ == spec_key_file(kp, rk) implies head@
            == spec_cred_line(kp) && tail@ == spec_record_key_line(rk) by {
            assert(head@ =~= spec_cred_line(kp));
            assert(tail@ =~= spec_record_key_line(rk));
        }
    }
    let kp = match parse_credential(&head) {
        Ok(kp) => kp,
        Err(e) => {
            return Err(e);
        },
    };
    let rk = match parse_record_key(&tail) {
        Ok(rk) => rk,
        Err(e) => {
            return Err(e);
        },
    };
    proof {
        assert(s@ =~= spec_key_file(kp, rk));
    }
    Ok((kp, rk))
}

/// Round trip for credentials: `parse_credential`, applied to the bytes
/// `serialize_credential` wrote for `kp`, returns exactly `kp`. The
/// hypothesis is `parse_credential`'s own contract on those bytes.
pub proof fn lemma_credential_round_trip(kp: KeyPair, r: Result<KeyPair, PersistenceError>)
    requires
        forall|k2: KeyPair| spec_cred_line(kp) == spec_cred_line(k2) ==> r == Ok::<
            KeyPair,
            PersistenceError,
        >(k2),
    ensures
        r == Ok::<KeyPair, PersistenceError>(kp),
{
    assert(spec_cred_line(kp) == spec_cred_line(kp));
}

/// Round trip for record keys: `parse_record_key`, applied to the bytes
/// `serialize_record_key` wrote for `rk`, returns exactly `rk`. The
/// hypothesis is `parse_record_key`'s own contract on those bytes.
pub proof fn lemma_record_key_round_trip(rk: RecordKey, r: Result<RecordKey, PersistenceError>)
    requires
        forall|r2: RecordKey| spec_record_key_line(rk) == spec_record_key_line(r2) ==> r == Ok::<
            RecordKey,
            PersistenceError,
        >(r2),
    ensures
        r == Ok::<RecordKey, PersistenceError>(rk),
{
    assert(spec_record_key_line(rk) == spec_record_key_line(rk));
}

} // verus!
