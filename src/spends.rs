//! The spend ledgers of a node. For every asset id the node holds either one
//! valid spend, or, once two differing spends have been seen, the pair of
//! them as permanent evidence of a double spend; never both.

use vstd::prelude::*;
use crate::codec::{
    decode_pair, encode_pair, fits, lemma_decoded_fits, lemma_fits, lemma_pair_in, lemma_record_in, pair_bytes,
    pair_in, record_in, spend_bytes, SignedSpend, SpendRecord,
};
use crate::hashing::{dbc_address, xor_name, xor_name_of, DbcAddress};
use crate::store::{bytes_eq, entries_map, FileStore};

verus! {

/// The contents of both ledgers: entry bytes by address.
pub ghost struct Ledgers {
    pub valid: Map<Seq<u8>, Seq<u8>>,
    pub double: Map<Seq<u8>, Seq<u8>>,
}

/// What an operation reports.
pub ghost enum Outcome {
    Done,
    NotFound(Seq<u8>),
    AlreadyMarked(Seq<u8>),
    Attempt { new: SpendRecord, existing: SpendRecord },
    NotADoubleSpend(SpendRecord, SpendRecord),
    InvalidSignature(Seq<u8>),
}

/// Errors of the spend ledgers.
#[derive(Clone, Debug, PartialEq, Eq)]
pub enum Error {
    /// No entry at the address, or one that does not decode to a spend of it.
    SpendNotFound(DbcAddress),
    /// The asset is known to be double spent.
    AlreadyMarkedAsDoubleSpend(DbcAddress),
    /// A spend conflicting with the stored one arrived; both are returned.
    DoubleSpendAttempt { new: Box<SignedSpend>, existing: Box<SignedSpend> },
    /// A reported double spend is not one: other asset ids or equal content.
    NotADoubleSpendAttempt(Box<SignedSpend>, Box<SignedSpend>),
    /// The signature of the spend did not verify.
    InvalidSignature(DbcAddress),
}

impl View for Error {
    type V = Outcome;

    open spec fn view(&self) -> Outcome {
        match self {
            Error::SpendNotFound(a) => Outcome::NotFound(a@),
            Error::AlreadyMarkedAsDoubleSpend(a) => Outcome::AlreadyMarked(a@),
            Error::DoubleSpendAttempt { new, existing } => Outcome::Attempt {
                new: new@,
                existing: existing@,
            },
            Error::NotADoubleSpendAttempt(a, b) => Outcome::NotADoubleSpend(a@, b@),
            Error::InvalidSignature(a) => Outcome::InvalidSignature(a@),
        }
    }
}

pub open spec fn outcome(r: Result<(), Error>) -> Outcome {
    match r {
        Ok(_) => Outcome::Done,
        Err(e) => e@,
    }
}

/// The address of the asset that a spend spends.
pub open spec fn address_of(s: SpendRecord) -> Seq<u8> {
    xor_name_of(s.dbc_id)
}

/// Two spends are the same spend exactly when their content hashes agree.
pub open spec fn content_hash_of(s: SpendRecord) -> Seq<u8> {
    xor_name_of(spend_bytes(s))
}

/// The valid spend filed at `a`: its entry must decode to a spend of `a`.
pub open spec fn valid_spend_at(l: Ledgers, a: Seq<u8>) -> Option<SpendRecord> {
    if l.valid.contains_key(a) {
        match record_in(l.valid[a]) {
            Some(r) => if address_of(r) == a {
                Some(r)
            } else {
                None
            },
            None => None,
        }
    } else {
        None
    }
}

/// The double-spend evidence filed at `a`, where it decodes to a pair whose
/// first spend is of `a`.
pub open spec fn evidence_at(l: Ledgers, a: Seq<u8>) -> Option<(SpendRecord, SpendRecord)> {
    if l.double.contains_key(a) {
        match pair_in(l.double[a]) {
            Some((x, y)) => if address_of(x) == a {
                Some((x, y))
            } else {
                None
            },
            None => None,
        }
    } else {
        None
    }
}

pub open spec fn double_spent_at(l: Ledgers, a: Seq<u8>) -> bool {
    evidence_at(l, a) is Some
}

/// Every entry decodes to what it claims to be, and no address is in both
/// ledgers.
pub open spec fn ledgers_wf(l: Ledgers) -> bool {
    &&& forall|a: Seq<u8>| #[trigger]
        l.valid.contains_key(a) ==> (valid_spend_at(l, a) matches Some(r) && fits(r))
    &&& forall|a: Seq<u8>| #[trigger] l.double.contains_key(a) ==> double_spent_at(l, a)
    &&& forall|a: Seq<u8>| !(#[trigger] l.valid.contains_key(a) && l.double.contains_key(a))
}

/// The ledgers after a conflict at `a` between `x` and `y`: the evidence is
/// filed and the valid entry dropped.
pub open spec fn mark_double(l: Ledgers, a: Seq<u8>, x: SpendRecord, y: SpendRecord) -> Ledgers {
    Ledgers { valid: l.valid.remove(a), double: store_evidence(l.double, a, x, y) }
}

/// Files the pair `(x, y)` as evidence at `a`; evidence already filed there is
/// kept as it is.
pub open spec fn store_evidence(
    double: Map<Seq<u8>, Seq<u8>>,
    a: Seq<u8>,
    x: SpendRecord,
    y: SpendRecord,
) -> Map<Seq<u8>, Seq<u8>> {
    if double.contains_key(a) {
        double
    } else {
        double.insert(a, pair_bytes(x, y))
    }
}

/// Classifying a spend: `verified` is what the signature check said of it.
pub open spec fn validate_spec(l: Ledgers, s: SpendRecord, verified: bool) -> (Ledgers, Outcome) {
    let a = address_of(s);
    if double_spent_at(l, a) {
        (l, Outcome::AlreadyMarked(a))
    } else if valid_spend_at(l, a) is Some {
        let e = valid_spend_at(l, a)->Some_0;
        if content_hash_of(e) != content_hash_of(s) {
            (mark_double(l, a, e, s), Outcome::Attempt { new: s, existing: e })
        } else {
            (l, Outcome::Done)
        }
    } else if verified {
        (l, Outcome::Done)
    } else {
        (l, Outcome::InvalidSignature(a))
    }
}

/// Adding a freshly received spend.
pub open spec fn try_add_spec(l: Ledgers, s: SpendRecord, verified: bool) -> (Ledgers, Outcome) {
    let a = address_of(s);
    let (l1, o) = validate_spec(l, s, verified);
    if o != Outcome::Done {
        (l1, o)
    } else if l.valid.contains_key(a) {
        (l, Outcome::Done)
    } else {
        (Ledgers { valid: l.valid.insert(a, spend_bytes(s)), double: l.double }, Outcome::Done)
    }
}

/// `x` and `y` form a double spend: same asset, different content.
pub open spec fn conflicting(x: SpendRecord, y: SpendRecord) -> bool {
    x.dbc_id == y.dbc_id && content_hash_of(x) != content_hash_of(y)
}

/// Adding reported double-spend evidence.
pub open spec fn try_add_double_spec(l: Ledgers, x: SpendRecord, y: SpendRecord) -> (
    Ledgers,
    Outcome,
) {
    let a = address_of(x);
    if !conflicting(x, y) {
        (l, Outcome::NotADoubleSpend(x, y))
    } else if double_spent_at(l, a) {
        (l, Outcome::Done)
    } else {
        (mark_double(l, a, x, y), Outcome::Done)
    }
}

/// Moving an address into the double-spend ledger keeps the ledgers
/// well formed.
proof fn lemma_mark_double_wf(l: Ledgers, a: Seq<u8>, x: SpendRecord, y: SpendRecord)
    requires
        ledgers_wf(l),
        fits(x),
        fits(y),
        address_of(x) == a,
        !double_spent_at(l, a),
    ensures
        ledgers_wf(mark_double(l, a, x, y)),
        evidence_at(mark_double(l, a, x, y), a) == Some((x, y)),
{
    lemma_pair_in(x, y);
    assert(!l.double.contains_key(a));
    let m = mark_double(l, a, x, y);
    assert forall|b: Seq<u8>| #[trigger] m.valid.contains_key(b) implies (valid_spend_at(
        m,
        b,
    ) matches Some(r) && fits(r)) by {
        assert(l.valid.contains_key(b));
    }
    assert forall|b: Seq<u8>| #[trigger] m.double.contains_key(b) implies double_spent_at(
        m,
        b,
    ) by {
        if b != a {
            assert(l.double.contains_key(b));
        }
    }
}

/// Every operation keeps each address in at most one ledger, and every entry
/// decodable as what it claims to be.
pub proof fn lemma_ledgers_stay_wf(l: Ledgers, s: SpendRecord, verified: bool, x: SpendRecord, y: SpendRecord)
    requires
        ledgers_wf(l),
        fits(s),
        fits(x),
        fits(y),
    ensures
        ledgers_wf(validate_spec(l, s, verified).0),
        ledgers_wf(try_add_spec(l, s, verified).0),
        ledgers_wf(try_add_double_spec(l, x, y).0),
{
    let a = address_of(s);
    if !double_spent_at(l, a) && valid_spend_at(l, a) is Some {
        lemma_mark_double_wf(l, a, valid_spend_at(l, a)->Some_0, s);
    }
    if !double_spent_at(l, a) && !l.valid.contains_key(a) {
        lemma_record_in(s);
        let m = Ledgers { valid: l.valid.insert(a, spend_bytes(s)), double: l.double };
        assert(!l.double.contains_key(a));
        assert forall|b: Seq<u8>| #[trigger] m.valid.contains_key(b) implies (valid_spend_at(
            m,
            b,
        ) matches Some(r) && fits(r)) by {
            if b != a {
                assert(l.valid.contains_key(b));
            }
        }
        assert forall|b: Seq<u8>| #[trigger] m.double.contains_key(b) implies double_spent_at(
            m,
            b,
        ) by {
            assert(l.double.contains_key(b));
        }
    }
    if conflicting(x, y) && !double_spent_at(l, address_of(x)) {
        lemma_mark_double_wf(l, address_of(x), x, y);
    }
}

/// The content hash of a spend.
fn content_hash(s: &SignedSpend) -> (r: Vec<u8>)
    ensures
        r@ == content_hash_of(s@),
{
    let bytes = s.to_bytes();
    xor_name(bytes.as_slice())
}

/// Whether a spend whose content hash is `new_hash` conflicts with a stored
/// spend of the same asset whose content hash is `stored_hash`.
pub fn content_differs(stored_hash: &[u8], new_hash: &[u8]) -> (r: bool)
    ensures
        r == (stored_hash@ != new_hash@),
{
    !bytes_eq(stored_hash, new_hash)
}

/// Whether two reported spends, given by asset id and content hash, form a
/// double spend: the same asset, different content.
pub fn is_double_spend_pair(a_id: &[u8], a_hash: &[u8], b_id: &[u8], b_hash: &[u8]) -> (r: bool)
    ensures
        r == (a_id@ == b_id@ && a_hash@ != b_hash@),
{
    bytes_eq(a_id, b_id) && content_differs(a_hash, b_hash)
}

/// Storage of spends: a valid-spend ledger and a double-spend ledger.
pub struct SpendStorage {
    valid_spends: FileStore,
    double_spends: FileStore,
}

impl View for SpendStorage {
    type V = Ledgers;

    closed spec fn view(&self) -> Ledgers {
        Ledgers { valid: self.valid_spends@, double: self.double_spends@ }
    }
}

impl SpendStorage {
    pub closed spec fn wf(&self) -> bool {
        self.valid_spends.wf() && self.double_spends.wf() && ledgers_wf(self@)
    }

    /// A well-formed storage has well-formed ledgers: in particular no
    /// address is in both.
    pub proof fn lemma_wf_ledgers(&self)
        requires
            self.wf(),
        ensures
            ledgers_wf(self@),
            forall|a: Seq<u8>| !(self@.valid.contains_key(a) && self@.double.contains_key(a)),
    {
    }

    /// Empty ledgers.
    pub fn new() -> (r: SpendStorage)
        ensures
            r.wf(),
            r@.valid == Map::<Seq<u8>, Seq<u8>>::empty(),
            r@.double == Map::<Seq<u8>, Seq<u8>>::empty(),
    {
        SpendStorage { valid_spends: FileStore::new(), double_spends: FileStore::new() }
    }

    /// The valid spend filed at `address`. An entry that does not decode, or
    /// decodes to a spend of another address, counts as none.
    pub fn get(&self, address: &DbcAddress) -> (r: Result<SignedSpend, Error>)
        requires
            self.wf(),
        ensures
            match valid_spend_at(self@, address@) {
                Some(rec) => r is Ok && r->Ok_0@ == rec,
                None => r is Err && r->Err_0@ == Outcome::NotFound(address@),
            },
    {
        match self.valid_spends.get(address.name.as_slice()) {
            Some(bytes) => match SignedSpend::from_bytes(bytes.as_slice()) {
                Some(spend) => {
                    let at = dbc_address(spend.dbc_id.as_slice());
                    if bytes_eq(at.name.as_slice(), address.name.as_slice()) {
                        Ok(spend)
                    } else {
                        Err(Error::SpendNotFound(address.clone_address()))
                    }
                },
                None => Err(Error::SpendNotFound(address.clone_address())),
            },
            None => Err(Error::SpendNotFound(address.clone_address())),
        }
    }

    /// The double-spend evidence filed at `address`.
    fn try_get_double_spend(&self, address: &DbcAddress) -> (r: Result<
        (SignedSpend, SignedSpend),
        Error,
    >)
        requires
            self.wf(),
        ensures
            match evidence_at(self@, address@) {
                Some((x, y)) => r is Ok && r->Ok_0.0@ == x && r->Ok_0.1@ == y,
                None => r is Err && r->Err_0@ == Outcome::NotFound(address@),
            },
    {
        match self.double_spends.get(address.name.as_slice()) {
            Some(bytes) => match decode_pair(bytes.as_slice()) {
                Some((a_spend, b_spend)) => {
                    let at = dbc_address(a_spend.dbc_id.as_slice());
                    if bytes_eq(at.name.as_slice(), address.name.as_slice()) {
                        Ok((a_spend, b_spend))
                    } else {
                        Err(Error::SpendNotFound(address.clone_address()))
                    }
                },
                None => Err(Error::SpendNotFound(address.clone_address())),
            },
            None => Err(Error::SpendNotFound(address.clone_address())),
        }
    }

    /// Whether spends of the asset `dbc_id` are known to be double spent.
    fn is_unspendable(&self, dbc_id: &[u8]) -> (r: bool)
        requires
            self.wf(),
        ensures
            r == double_spent_at(self@, xor_name_of(dbc_id@)),
    {
        let address = dbc_address(dbc_id);
        self.try_get_double_spend(&address).is_ok()
    }

    /// Files the pair as double-spend evidence at `address`, unless evidence
    /// is filed there already. The valid-spend ledger is left alone.
    fn try_store_double_spend(
        &mut self,
        address: &DbcAddress,
        a_spend: &SignedSpend,
        b_spend: &SignedSpend,
    )
        requires
            old(self).valid_spends.wf(),
            old(self).double_spends.wf(),
        ensures
            final(self).valid_spends.wf(),
            final(self).double_spends.wf(),
            final(self)@.valid == old(self)@.valid,
            final(self)@.double == store_evidence(old(self)@.double, address@, a_spend@, b_spend@),
            old(self)@.double.contains_key(address@) ==> final(self)@ == old(self)@,
    {
        if self.double_spends.contains(address.name.as_slice()) {
            return;
        }
        let bytes = encode_pair(a_spend, b_spend);
        self.double_spends.put(address.clone_address().name, bytes);
    }

    /// Drops the valid spend filed at `address`, if any.
    fn remove(&mut self, address: &DbcAddress)
        requires
            old(self).valid_spends.wf(),
            old(self).double_spends.wf(),
        ensures
            final(self).valid_spends.wf(),
            final(self).double_spends.wf(),
            final(self)@.valid == old(self)@.valid.remove(address@),
            final(self)@.double == old(self)@.double,
    {
        self.valid_spends.remove(address.name.as_slice());
    }

    /// The bytes filed at `address` in the valid-spend ledger.
    pub fn valid_entry_bytes(&self, address: &DbcAddress) -> (r: Option<Vec<u8>>)
        requires
            self.wf(),
        ensures
            match r {
                Some(v) => self@.valid.contains_key(address@) && v@ == self@.valid[address@],
                None => !self@.valid.contains_key(address@),
            },
    {
        self.valid_spends.get(address.name.as_slice())
    }

    /// The bytes filed at `address` in the double-spend ledger.
    pub fn double_entry_bytes(&self, address: &DbcAddress) -> (r: Option<Vec<u8>>)
        requires
            self.wf(),
        ensures
            match r {
                Some(v) => self@.double.contains_key(address@) && v@ == self@.double[address@],
                None => !self@.double.contains_key(address@),
            },
    {
        self.double_spends.get(address.name.as_slice())
    }

    /// Every entry of the valid-spend ledger, as (address, bytes).
    pub fn valid_entries(&self) -> (r: Vec<(Vec<u8>, Vec<u8>)>)
        requires
            self.wf(),
        ensures
            entries_map(r@) == self@.valid,
    {
        self.valid_spends.entries()
    }

    /// Every entry of the double-spend ledger, as (address, bytes).
    pub fn double_entries(&self) -> (r: Vec<(Vec<u8>, Vec<u8>)>)
        requires
            self.wf(),
        ensures
            entries_map(r@) == self@.double,
    {
        self.double_spends.entries()
    }

    /// Files a valid-spend entry read back from storage. It is kept only
    /// where it decodes to a spend of `address` and the address is not in
    /// the double-spend ledger; otherwise it counts as absent and nothing
    /// changes.
    pub fn restore_valid(&mut self, address: Vec<u8>, bytes: Vec<u8>) -> (r: bool)
        requires
            old(self).wf(),
        ensures
            final(self).wf(),
            r == (record_in(bytes@) matches Some(rec) && address_of(rec) == address@
                && !old(self)@.double.contains_key(address@)),
            r ==> final(self)@ == (Ledgers {
                valid: old(self)@.valid.insert(address@, bytes@),
                double: old(self)@.double,
            }),
            !r ==> final(self)@ == old(self)@,
    {
        let spend = match SignedSpend::from_bytes(bytes.as_slice()) {
            Some(spend) => spend,
            None => return false,
        };
        let at = dbc_address(spend.dbc_id.as_slice());
        if !bytes_eq(at.name.as_slice(), address.as_slice()) {
            return false;
        }
        if self.double_spends.contains(address.as_slice()) {
            return false;
        }
        proof {
            assert(bytes@.len() == bytes.len());
            lemma_decoded_fits(bytes@);
        }
        let ghost old_l = self@;
        let ghost key = address@;
        self.valid_spends.put(address, bytes);
        proof {
            let l = self@;
            assert forall|b: Seq<u8>| #[trigger] l.valid.contains_key(b) implies (valid_spend_at(
                l,
                b,
            ) matches Some(r) && fits(r)) by {
                if b != key {
                    assert(old_l.valid.contains_key(b));
                }
            }
            assert forall|b: Seq<u8>| #[trigger] l.double.contains_key(b) implies double_spent_at(
                l,
                b,
            ) by {
                assert(old_l.double.contains_key(b));
            }
        }
        true
    }

    /// Files double-spend evidence read back from storage. It is kept only
    /// where it decodes to a pair whose first spend is of `address` and no
    /// evidence is filed there yet; it then replaces any valid entry there.
    /// Otherwise nothing changes.
    pub fn restore_double(&mut self, address: Vec<u8>, bytes: Vec<u8>) -> (r: bool)
        requires
            old(self).wf(),
        ensures
            final(self).wf(),
            r == (pair_in(bytes@) matches Some((x, _)) && address_of(x) == address@
                && !old(self)@.double.contains_key(address@)),
            r ==> final(self)@ == (Ledgers {
                valid: old(self)@.valid.remove(address@),
                double: old(self)@.double.insert(address@, bytes@),
            }),
            !r ==> final(self)@ == old(self)@,
    {
        let first = match decode_pair(bytes.as_slice()) {
            Some((first, _)) => first,
            None => return false,
        };
        let at = dbc_address(first.dbc_id.as_slice());
        if !bytes_eq(at.name.as_slice(), address.as_slice()) {
            return false;
        }
        if self.double_spends.contains(address.as_slice()) {
            return false;
        }
        let ghost old_l = self@;
        let ghost key = address@;
        self.valid_spends.remove(address.as_slice());
        self.double_spends.put(address, bytes);
        proof {
            let l = self@;
            assert forall|b: Seq<u8>| #[trigger] l.valid.contains_key(b) implies (valid_spend_at(
                l,
                b,
            ) matches Some(r) && fits(r)) by {
                assert(old_l.valid.contains_key(b));
            }
            assert forall|b: Seq<u8>| #[trigger] l.double.contains_key(b) implies double_spent_at(
                l,
                b,
            ) by {
                if b != key {
                    assert(old_l.double.contains_key(b));
                }
            }
        }
        true
    }

    /// Classifies `signed_spend` without adding it; `verified` is what the
    /// signature check of the spend against its destination transaction hash
    /// said. A conflict with the stored spend is recorded at once: the pair
    /// goes to the double-spend ledger and the valid entry is dropped.
    pub fn validate(&mut self, signed_spend: &SignedSpend, verified: bool) -> (r: Result<(), Error>)
        requires
            old(self).wf(),
        ensures
            final(self).wf(),
            (final(self)@, outcome(r)) == validate_spec(old(self)@, signed_spend@, verified),
            ledgers_wf(final(self)@),
    {
        proof {
            lemma_fits(signed_spend);
            lemma_ledgers_stay_wf(self@, signed_spend@, verified, signed_spend@, signed_spend@);
        }
        let address = dbc_address(signed_spend.dbc_id.as_slice());
        if self.try_get_double_spend(&address).is_ok() {
            return Err(Error::AlreadyMarkedAsDoubleSpend(address));
        }
        if let Ok(existing) = self.get(&address) {
            let new_hash = content_hash(signed_spend);
            let old_hash = content_hash(&existing);
            if !content_differs(old_hash.as_slice(), new_hash.as_slice()) {
                // The same spend delivered again.
                return Ok(());
            }
            proof {
                assert(!self@.double.contains_key(address@));
            }
            self.try_store_double_spend(&address, &existing, signed_spend);
            self.remove(&address);
            return Err(
                Error::DoubleSpendAttempt {
                    new: Box::new(signed_spend.clone_spend()),
                    existing: Box::new(existing),
                },
            );
        }
        if verified {
            Ok(())
        } else {
            Err(Error::InvalidSignature(address))
        }
    }

    /// Adds a freshly received spend: validates it, and files it in the
    /// valid-spend ledger unless an entry is there already.
    pub fn try_add(&mut self, signed_spend: &SignedSpend, verified: bool) -> (r: Result<(), Error>)
        requires
            old(self).wf(),
        ensures
            final(self).wf(),
            (final(self)@, outcome(r)) == try_add_spec(old(self)@, signed_spend@, verified),
            ledgers_wf(final(self)@),
    {
        proof {
            lemma_fits(signed_spend);
            lemma_ledgers_stay_wf(self@, signed_spend@, verified, signed_spend@, signed_spend@);
        }
        let r = self.validate(signed_spend, verified);
        match r {
            Err(e) => Err(e),
            Ok(()) => {
                let address = dbc_address(signed_spend.dbc_id.as_slice());
                if self.valid_spends.contains(address.name.as_slice()) {
                    return Ok(());
                }
                let bytes = signed_spend.to_bytes();
                self.valid_spends.put(address.name, bytes);
                Ok(())
            },
        }
    }

    /// Adds double-spend evidence reported by a peer, after checking that the
    /// two spends are of one asset and differ in content.
    pub fn try_add_double(&mut self, a_spend: &SignedSpend, b_spend: &SignedSpend) -> (r: Result<
        (),
        Error,
    >)
        requires
            old(self).wf(),
        ensures
            final(self).wf(),
            (final(self)@, outcome(r)) == try_add_double_spec(old(self)@, a_spend@, b_spend@),
            ledgers_wf(final(self)@),
    {
        proof {
            lemma_fits(a_spend);
            lemma_fits(b_spend);
            lemma_ledgers_stay_wf(self@, a_spend@, true, a_spend@, b_spend@);
        }
        let a_hash = content_hash(a_spend);
        let b_hash = content_hash(b_spend);
        if !is_double_spend_pair(
            a_spend.dbc_id.as_slice(),
            a_hash.as_slice(),
            b_spend.dbc_id.as_slice(),
            b_hash.as_slice(),
        ) {
            return Err(
                Error::NotADoubleSpendAttempt(
                    Box::new(a_spend.clone_spend()),
                    Box::new(b_spend.clone_spend()),
                ),
            );
        }
        if self.is_unspendable(a_spend.dbc_id.as_slice()) {
            return Ok(());
        }
        let address = dbc_address(a_spend.dbc_id.as_slice());
        proof {
            assert(!self@.double.contains_key(address@));
        }
        self.try_store_double_spend(&address, a_spend, b_spend);
        self.remove(&address);
        Ok(())
    }
}

/// A fresh valid spend added to ledgers that know nothing of its asset can be
/// read back at once, and no other address changes.
pub proof fn lemma_write_then_read(l: Ledgers, s: SpendRecord)
    requires
        ledgers_wf(l),
        fits(s),
        !l.valid.contains_key(address_of(s)),
        !l.double.contains_key(address_of(s)),
    ensures
        ({
            let (l1, o) = try_add_spec(l, s, true);
            &&& o == Outcome::Done
            &&& l1.valid[address_of(s)] == spend_bytes(s)
            &&& valid_spend_at(l1, address_of(s)) == Some(s)
            &&& forall|b: Seq<u8>|
                b != address_of(s) ==> valid_spend_at(l1, b) == valid_spend_at(l, b)
        }),
{
    lemma_record_in(s);
}

/// Adding a valid spend twice succeeds both times; the second add changes
/// nothing, and the one entry at the asset's address holds that spend.
pub proof fn lemma_add_idempotent(l: Ledgers, s: SpendRecord)
    requires
        ledgers_wf(l),
        fits(s),
        !double_spent_at(l, address_of(s)),
        valid_spend_at(l, address_of(s)) is None || valid_spend_at(l, address_of(s)) == Some(s),
    ensures
        ({
            let (l1, o1) = try_add_spec(l, s, true);
            let (l2, o2) = try_add_spec(l1, s, true);
            &&& o1 == Outcome::Done
            &&& o2 == Outcome::Done
            &&& l2 == l1
            &&& valid_spend_at(l1, address_of(s)) == Some(s)
            &&& l1.valid.dom() == l.valid.dom().insert(address_of(s))
        }),
{
    let a = address_of(s);
    lemma_record_in(s);
    assert(!l.double.contains_key(a));
    if l.valid.contains_key(a) {
        assert(l.valid.dom().insert(a) =~= l.valid.dom());
    } else {
        let l1 = try_add_spec(l, s, true).0;
        assert(l1.valid.dom() =~= l.valid.dom().insert(a));
        assert(!double_spent_at(l1, a));
    }
}

/// When two added spends conflict, the stored pair reproduces both records
/// exactly: the new one as it arrived, the existing one as it was stored.
pub proof fn lemma_evidence_matches(l: Ledgers, s: SpendRecord, verified: bool)
    requires
        ledgers_wf(l),
        fits(s),
    ensures
        try_add_spec(l, s, verified).1 is Attempt ==> ({
            let (l1, o) = try_add_spec(l, s, verified);
            &&& o->Attempt_new == s
            &&& valid_spend_at(l, address_of(s)) == Some(o->Attempt_existing)
            &&& evidence_at(l1, address_of(s)) == Some((o->Attempt_existing, s))
        }),
{
    let a = address_of(s);
    if !double_spent_at(l, a) && valid_spend_at(l, a) is Some {
        lemma_mark_double_wf(l, a, valid_spend_at(l, a)->Some_0, s);
    }
}

/// Reported evidence of two spends of different assets, or of equal content,
/// is refused and changes nothing.
pub proof fn lemma_rejects_non_conflicting(l: Ledgers, x: SpendRecord, y: SpendRecord)
    requires
        x.dbc_id != y.dbc_id || content_hash_of(x) == content_hash_of(y),
    ensures
        try_add_double_spec(l, x, y) == (l, Outcome::NotADoubleSpend(x, y)),
{
}

/// Two conflicting spends of an unknown asset, added in either order, leave
/// the asset double spent with the same valid ledger and the same addresses
/// marked; the evidence holds both spends, and afterwards neither can be
/// read or added again.
pub proof fn lemma_conflict_order_independent(l: Ledgers, x: SpendRecord, y: SpendRecord)
    requires
        ledgers_wf(l),
        fits(x),
        fits(y),
        conflicting(x, y),
        !l.valid.contains_key(address_of(x)),
        !l.double.contains_key(address_of(x)),
    ensures
        ({
            let a = address_of(x);
            let (lxy, oxy) = try_add_spec(try_add_spec(l, x, true).0, y, true);
            let (lyx, oyx) = try_add_spec(try_add_spec(l, y, true).0, x, true);
            &&& oxy == Outcome::Attempt { new: y, existing: x }
            &&& oyx == Outcome::Attempt { new: x, existing: y }
            &&& lxy.valid == lyx.valid
            &&& lxy.double.dom() == lyx.double.dom()
            &&& evidence_at(lxy, a) == Some((x, y))
            &&& evidence_at(lyx, a) == Some((y, x))
            &&& valid_spend_at(lxy, a) is None
            &&& valid_spend_at(lyx, a) is None
            &&& try_add_spec(lxy, x, true) == (lxy, Outcome::AlreadyMarked(a))
            &&& try_add_spec(lxy, y, true) == (lxy, Outcome::AlreadyMarked(a))
            &&& try_add_spec(lyx, x, true) == (lyx, Outcome::AlreadyMarked(a))
            &&& try_add_spec(lyx, y, true) == (lyx, Outcome::AlreadyMarked(a))
        }),
{
    let a = address_of(x);
    assert(address_of(y) == a);
    lemma_write_then_read(l, x);
    lemma_write_then_read(l, y);
    let lx = try_add_spec(l, x, true).0;
    let ly = try_add_spec(l, y, true).0;
    lemma_ledgers_stay_wf(l, x, true, x, x);
    lemma_ledgers_stay_wf(l, y, true, y, y);
    assert(!double_spent_at(lx, a));
    assert(!double_spent_at(ly, a));
    lemma_mark_double_wf(lx, a, x, y);
    lemma_mark_double_wf(ly, a, y, x);
    let lxy = try_add_spec(lx, y, true).0;
    let lyx = try_add_spec(ly, x, true).0;
    assert(lxy.valid =~= l.valid);
    assert(lyx.valid =~= l.valid);
    assert(lxy.double.dom() =~= lyx.double.dom());
}

/// Once an address is marked double spent it stays marked through every
/// operation, and never again holds a valid spend.
pub proof fn lemma_double_spent_is_terminal(
    l: Ledgers,
    a: Seq<u8>,
    s: SpendRecord,
    verified: bool,
    x: SpendRecord,
    y: SpendRecord,
)
    requires
        ledgers_wf(l),
        double_spent_at(l, a),
        fits(s),
        fits(x),
        fits(y),
    ensures
        double_spent_at(validate_spec(l, s, verified).0, a),
        valid_spend_at(validate_spec(l, s, verified).0, a) is None,
        double_spent_at(try_add_spec(l, s, verified).0, a),
        valid_spend_at(try_add_spec(l, s, verified).0, a) is None,
        double_spent_at(try_add_double_spec(l, x, y).0, a),
        valid_spend_at(try_add_double_spec(l, x, y).0, a) is None,
{
    assert(l.double.contains_key(a));
    assert(!l.valid.contains_key(a));
    let v = validate_spec(l, s, verified).0;
    let t = try_add_spec(l, s, verified).0;
    let d = try_add_double_spec(l, x, y).0;
    if address_of(s) != a {
        assert(v.double[a] == l.double[a]);
        assert(t.double[a] == l.double[a]);
    }
    if address_of(x) != a {
        assert(d.double[a] == l.double[a]);
    }
}

/// The ledgers after adding each spend of `ss` in order, as verified spends.
pub open spec fn add_all(l: Ledgers, ss: Seq<SpendRecord>) -> Ledgers
    decreases ss.len(),
{
    if ss.len() == 0 {
        l
    } else {
        try_add_spec(add_all(l, ss.drop_last()), ss.last(), true).0
    }
}

/// Every add in the sequence succeeded.
pub open spec fn all_added(l: Ledgers, ss: Seq<SpendRecord>) -> bool
    decreases ss.len(),
{
    if ss.len() == 0 {
        true
    } else {
        all_added(l, ss.drop_last()) && try_add_spec(add_all(l, ss.drop_last()), ss.last(), true).1
            == Outcome::Done
    }
}

/// Spends of distinct addresses, none known to the ledgers, written one after
/// the other: every write succeeds, and afterwards every one of them reads
/// back as written; later writes do not disturb earlier ones.
pub proof fn lemma_write_then_read_all(l: Ledgers, ss: Seq<SpendRecord>)
    requires
        ledgers_wf(l),
        forall|i: int| 0 <= i < ss.len() ==> fits(#[trigger] ss[i]),
        forall|i: int, j: int|
            0 <= i < j < ss.len() ==> address_of(#[trigger] ss[i]) != address_of(#[trigger] ss[j]),
        forall|i: int|
            0 <= i < ss.len() ==> !l.valid.contains_key(address_of(#[trigger] ss[i]))
                && !l.double.contains_key(address_of(ss[i])),
    ensures
        ledgers_wf(add_all(l, ss)),
        all_added(l, ss),
        add_all(l, ss).double == l.double,
        forall|i: int|
            0 <= i < ss.len() ==> valid_spend_at(add_all(l, ss), address_of(#[trigger] ss[i]))
                == Some(ss[i]),
        forall|a: Seq<u8>|
            (forall|i: int| 0 <= i < ss.len() ==> address_of(#[trigger] ss[i]) != a) ==> (
            #[trigger] add_all(l, ss).valid.contains_key(a) == l.valid.contains_key(a)),
    decreases ss.len(),
{
    if ss.len() > 0 {
        let pre = ss.drop_last();
        let s = ss.last();
        let n = ss.len() - 1;
        assert forall|i: int, j: int| 0 <= i < j < pre.len() implies address_of(#[trigger] pre[i])
            != address_of(#[trigger] pre[j]) by {
            assert(pre[i] == ss[i] && pre[j] == ss[j]);
        }
        assert forall|i: int| 0 <= i < pre.len() implies fits(#[trigger] pre[i]) by {
            assert(pre[i] == ss[i]);
        }
        assert forall|i: int| 0 <= i < pre.len() implies !l.valid.contains_key(
            address_of(#[trigger] pre[i]),
        ) && !l.double.contains_key(address_of(pre[i])) by {
            assert(pre[i] == ss[i]);
        }
        lemma_write_then_read_all(l, pre);
        let lp = add_all(l, pre);
        assert(s == ss[n]);
        assert(fits(s));
        assert(!l.valid.contains_key(address_of(s)) && !l.double.contains_key(address_of(s)));
        assert forall|i: int| 0 <= i < pre.len() implies address_of(#[trigger] pre[i])
            != address_of(s) by {
            assert(pre[i] == ss[i]);
        }
        assert(!lp.valid.contains_key(address_of(s)));
        lemma_write_then_read(lp, s);
        lemma_ledgers_stay_wf(lp, s, true, s, s);
        let lf = add_all(l, ss);
        assert forall|i: int| 0 <= i < ss.len() implies valid_spend_at(
            lf,
            address_of(#[trigger] ss[i]),
        ) == Some(ss[i]) by {
            if i < n {
                assert(pre[i] == ss[i]);
                assert(address_of(ss[i]) != address_of(ss[n]));
            }
        }
        assert forall|a: Seq<u8>|
            (forall|i: int| 0 <= i < ss.len() ==> address_of(#[trigger] ss[i]) != a) implies (
            #[trigger] lf.valid.contains_key(a) == l.valid.contains_key(a)) by {
            assert(address_of(ss[n]) != a);
            assert forall|i: int| 0 <= i < pre.len() implies address_of(#[trigger] pre[i])
                != a by {
                assert(pre[i] == ss[i]);
            }
        }
    }
}

} // verus!
