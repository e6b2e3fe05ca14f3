//! Spend records and their on-disk encoding: each field as a little-endian
//! `u64` length followed by its bytes; a double-spend entry is two records
//! back to back.

use vstd::prelude::*;

verus! {

/// A signed claim that an asset has been spent into a destination transaction.
#[derive(Clone, Debug, PartialEq, Eq)]
pub struct SignedSpend {
    pub dbc_id: Vec<u8>,
    pub dst_tx_hash: Vec<u8>,
    pub tx: Vec<u8>,
    pub signature: Vec<u8>,
}

/// The value of a spend record.
pub ghost struct SpendRecord {
    pub dbc_id: Seq<u8>,
    pub dst_tx_hash: Seq<u8>,
    pub tx: Seq<u8>,
    pub signature: Seq<u8>,
}

impl View for SignedSpend {
    type V = SpendRecord;

    open spec fn view(&self) -> SpendRecord {
        SpendRecord {
            dbc_id: self.dbc_id@,
            dst_tx_hash: self.dst_tx_hash@,
            tx: self.tx@,
            signature: self.signature@,
        }
    }
}

pub open spec fn pow256(k: nat) -> nat
    decreases k,
{
    if k == 0 {
        1
    } else {
        256 * pow256((k - 1) as nat)
    }
}

/// `n` as `k` little-endian bytes.
pub open spec fn le_bytes(n: nat, k: nat) -> Seq<u8>
    decreases k,
{
    if k == 0 {
        seq![]
    } else {
        seq![(n % 256) as u8] + le_bytes(n / 256, (k - 1) as nat)
    }
}

/// The number that little-endian bytes stand for.
pub open spec fn le_value(b: Seq<u8>) -> nat
    decreases b.len(),
{
    if b.len() == 0 {
        0
    } else {
        b[0] as nat + 256 * le_value(b.drop_first())
    }
}

pub open spec fn field_bytes(f: Seq<u8>) -> Seq<u8> {
    le_bytes(f.len(), 8) + f
}

/// The encoding of a spend record.
pub open spec fn spend_bytes(r: SpendRecord) -> Seq<u8> {
    field_bytes(r.dbc_id) + field_bytes(r.dst_tx_hash) + field_bytes(r.tx) + field_bytes(
        r.signature,
    )
}

/// The encoding of a double-spend entry.
pub open spec fn pair_bytes(a: SpendRecord, b: SpendRecord) -> Seq<u8> {
    spend_bytes(a) + spend_bytes(b)
}

/// Every field of the record has a length that fits the 8-byte prefix.
pub open spec fn fits(r: SpendRecord) -> bool {
    r.dbc_id.len() < pow256(8) && r.dst_tx_hash.len() < pow256(8) && r.tx.len() < pow256(8)
        && r.signature.len() < pow256(8)
}

/// One length-prefixed field at the front of `b`, and what follows it.
pub open spec fn take_field(b: Seq<u8>) -> Option<(Seq<u8>, Seq<u8>)> {
    if b.len() < 8 {
        None
    } else {
        let n = le_value(b.subrange(0, 8));
        if b.len() - 8 < n {
            None
        } else {
            Some((b.subrange(8, 8 + n as int), b.subrange(8 + n as int, b.len() as int)))
        }
    }
}

/// The record encoded at the front of `b`, and the bytes after it.
pub open spec fn decode_spend(b: Seq<u8>) -> Option<(SpendRecord, Seq<u8>)> {
    match take_field(b) {
        None => None,
        Some((w, b1)) => match take_field(b1) {
            None => None,
            Some((x, b2)) => match take_field(b2) {
                None => None,
                Some((y, b3)) => match take_field(b3) {
                    None => None,
                    Some((z, rest)) => Some(
                        (SpendRecord { dbc_id: w, dst_tx_hash: x, tx: y, signature: z }, rest),
                    ),
                },
            },
        },
    }
}

/// The record that a valid-spend entry holds; trailing bytes are ignored.
pub open spec fn record_in(b: Seq<u8>) -> Option<SpendRecord> {
    match decode_spend(b) {
        Some((r, _)) => Some(r),
        None => None,
    }
}

/// The two records that a double-spend entry holds.
pub open spec fn pair_in(b: Seq<u8>) -> Option<(SpendRecord, SpendRecord)> {
    match decode_spend(b) {
        Some((r1, rest)) => match decode_spend(rest) {
            Some((r2, _)) => Some((r1, r2)),
            None => None,
        },
        None => None,
    }
}

pub proof fn lemma_le_bytes_len(n: nat, k: nat)
    ensures
        le_bytes(n, k).len() == k,
    decreases k,
{
    if k > 0 {
        lemma_le_bytes_len(n / 256, (k - 1) as nat);
    }
}

pub proof fn lemma_le_round_trip(n: nat, k: nat)
    requires
        n < pow256(k),
    ensures
        le_value(le_bytes(n, k)) == n,
    decreases k,
{
    if k > 0 {
        let p = pow256((k - 1) as nat);
        assert(n / 256 < p) by (nonlinear_arith)
            requires
                n < 256 * p,
        ;
        lemma_le_round_trip(n / 256, (k - 1) as nat);
        let b = le_bytes(n, k);
        assert(b.drop_first() =~= le_bytes(n / 256, (k - 1) as nat));
        assert(b[0] as nat == n % 256);
        assert(n == n % 256 + 256 * (n / 256)) by (nonlinear_arith);
    }
}

proof fn lemma_take_field(f: Seq<u8>, rest: Seq<u8>)
    requires
        f.len() < pow256(8),
    ensures
        take_field(field_bytes(f) + rest) == Some((f, rest)),
{
    let b = field_bytes(f) + rest;
    lemma_le_bytes_len(f.len(), 8);
    lemma_le_round_trip(f.len(), 8);
    assert(b.subrange(0, 8) =~= le_bytes(f.len(), 8));
    assert(b.subrange(8, 8 + f.len() as int) =~= f);
    assert(b.subrange(8 + f.len() as int, b.len() as int) =~= rest);
}

/// Decoding what was encoded gives the record back, whatever follows it.
pub proof fn lemma_decode_spend(r: SpendRecord, rest: Seq<u8>)
    requires
        fits(r),
    ensures
        decode_spend(spend_bytes(r) + rest) == Some((r, rest)),
{
    let s3 = field_bytes(r.signature) + rest;
    let s2 = field_bytes(r.tx) + s3;
    let s1 = field_bytes(r.dst_tx_hash) + s2;
    assert(spend_bytes(r) + rest =~= field_bytes(r.dbc_id) + s1);
    lemma_take_field(r.dbc_id, s1);
    lemma_take_field(r.dst_tx_hash, s2);
    lemma_take_field(r.tx, s3);
    lemma_take_field(r.signature, rest);
}

pub proof fn lemma_record_in(r: SpendRecord)
    requires
        fits(r),
    ensures
        record_in(spend_bytes(r)) == Some(r),
{
    lemma_decode_spend(r, seq![]);
    assert(spend_bytes(r) + seq![] =~= spend_bytes(r));
}

pub proof fn lemma_pair_in(a: SpendRecord, b: SpendRecord)
    requires
        fits(a),
        fits(b),
    ensures
        pair_in(pair_bytes(a, b)) == Some((a, b)),
{
    lemma_decode_spend(a, spend_bytes(b));
    lemma_decode_spend(b, seq![]);
    assert(spend_bytes(b) + seq![] =~= spend_bytes(b));
}

pub proof fn lemma_pow256_8()
    ensures
        pow256(8) == 0x1_0000_0000_0000_0000nat,
{
    assert(pow256(8) == 0x1_0000_0000_0000_0000nat) by {
        assert(pow256(0) == 1);
        assert(pow256(1) == 256);
        assert(pow256(2) == 0x1_0000);
        assert(pow256(3) == 0x100_0000);
        assert(pow256(4) == 0x1_0000_0000);
        assert(pow256(5) == 0x100_0000_0000);
        assert(pow256(6) == 0x1_0000_0000_0000);
        assert(pow256(7) == 0x100_0000_0000_0000);
    }
}

pub proof fn lemma_fits(s: &SignedSpend)
    ensures
        fits(s@),
{
    lemma_pow256_8();
    assert(s.dbc_id@.len() == s.dbc_id.len());
    assert(s.dst_tx_hash@.len() == s.dst_tx_hash.len());
    assert(s.tx@.len() == s.tx.len());
    assert(s.signature@.len() == s.signature.len());
}

/// A record decoded from a byte string that fits in memory fits the
/// length prefix.
pub proof fn lemma_decoded_fits(b: Seq<u8>)
    requires
        record_in(b) is Some,
        b.len() <= usize::MAX,
    ensures
        fits(record_in(b)->Some_0),
{
    lemma_pow256_8();
    lemma_decode_rest(b);
}

/// What a successful decode consumed: the four fields and their prefixes,
/// the rest being the tail of the input.
proof fn lemma_decode_rest(b: Seq<u8>)
    requires
        decode_spend(b) is Some,
    ensures
        ({
            let (r, rest) = decode_spend(b)->Some_0;
            &&& b.len() == 32 + r.dbc_id.len() + r.dst_tx_hash.len() + r.tx.len()
                + r.signature.len() + rest.len()
            &&& rest =~= b.subrange(b.len() - rest.len(), b.len() as int)
        }),
{
    let (w, b1) = take_field(b)->Some_0;
    let (x, b2) = take_field(b1)->Some_0;
    let (y, b3) = take_field(b2)->Some_0;
    let (z, rest) = take_field(b3)->Some_0;
    assert(b1 =~= b.subrange(b.len() - b1.len(), b.len() as int));
    assert(b2 =~= b.subrange(b.len() - b2.len(), b.len() as int));
    assert(b3 =~= b.subrange(b.len() - b3.len(), b.len() as int));
    assert(rest =~= b.subrange(b.len() - rest.len(), b.len() as int));
}

/// Relies on bincode::serialize with its default fixed-width encoding: a byte
/// vector is its length as a little-endian u64 followed by its bytes, a tuple
/// is its parts back to back, and byte vectors always encode.
#[verifier::external_body]
fn serialize_fields(w: &Vec<u8>, x: &Vec<u8>, y: &Vec<u8>, z: &Vec<u8>) -> (r: Vec<u8>)
    ensures
        r@ == field_bytes(w@) + field_bytes(x@) + field_bytes(y@) + field_bytes(z@),
{
    bincode::serialize(&(w, x, y, z)).unwrap_or_default()
}

/// Relies on bincode::deserialize of four byte vectors with its default
/// fixed-width encoding: each is a little-endian u64 length and that many
/// bytes, it fails where the bytes run out, and bytes after the last are
/// ignored.
#[verifier::external_body]
fn deserialize_fields(b: &[u8]) -> (r: Option<SignedSpend>)
    ensures
        match record_in(b@) {
            Some(rec) => r is Some && r->Some_0@ == rec,
            None => r is None,
        },
{
    match bincode::deserialize::<(Vec<u8>, Vec<u8>, Vec<u8>, Vec<u8>)>(b) {
        Ok((dbc_id, dst_tx_hash, tx, signature)) => Some(
            SignedSpend { dbc_id, dst_tx_hash, tx, signature },
        ),
        Err(_) => None,
    }
}

impl SignedSpend {
    /// A copy of the spend.
    pub fn clone_spend(&self) -> (r: SignedSpend)
        ensures
            r@ == self@,
    {
        SignedSpend {
            dbc_id: vstd::slice::slice_to_vec(self.dbc_id.as_slice()),
            dst_tx_hash: vstd::slice::slice_to_vec(self.dst_tx_hash.as_slice()),
            tx: vstd::slice::slice_to_vec(self.tx.as_slice()),
            signature: vstd::slice::slice_to_vec(self.signature.as_slice()),
        }
    }

    /// The encoded record.
    pub fn to_bytes(&self) -> (r: Vec<u8>)
        ensures
            r@ == spend_bytes(self@),
    {
        serialize_fields(&self.dbc_id, &self.dst_tx_hash, &self.tx, &self.signature)
    }

    /// The record encoded at the front of `bytes`, if any.
    pub fn from_bytes(bytes: &[u8]) -> (r: Option<SignedSpend>)
        ensures
            match record_in(bytes@) {
                Some(rec) => r is Some && r->Some_0@ == rec,
                None => r is None,
            },
    {
        deserialize_fields(bytes)
    }
}

/// The encoding of a double-spend entry for `a` and `b`.
pub fn encode_pair(a: &SignedSpend, b: &SignedSpend) -> (r: Vec<u8>)
    ensures
        r@ == pair_bytes(a@, b@),
{
    let mut out = a.to_bytes();
    let mut second = b.to_bytes();
    out.append(&mut second);
    out
}

/// The two records of a double-spend entry, if it decodes.
pub fn decode_pair(bytes: &[u8]) -> (r: Option<(SignedSpend, SignedSpend)>)
    ensures
        match pair_in(bytes@) {
            Some((x, y)) => r is Some && r->Some_0.0@ == x && r->Some_0.1@ == y,
            None => r is None,
        },
{
    match SignedSpend::from_bytes(bytes) {
        None => None,
        Some(first) => {
            proof {
                lemma_decode_rest(bytes@);
                assert(decode_spend(bytes@)->Some_0.0 == first@);
                assert(bytes@.len() == bytes.len());
            }
            let used = 32 + first.dbc_id.len() + first.dst_tx_hash.len() + first.tx.len()
                + first.signature.len();
            let tail = vstd::slice::slice_subrange(bytes, used, bytes.len());
            match SignedSpend::from_bytes(tail) {
                None => None,
                Some(second) => Some((first, second)),
            }
        },
    }
}

} // verus!
