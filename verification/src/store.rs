//! The consumed-nonce record of one-shot purchases.
//!
//! A nonce is consumed once, before delivery, bound to the payment that backs
//! it. An exact retry gets the stored receipt; any other use of the nonce, and
//! any use of its payment under another nonce, is a replay.

use vstd::prelude::*;
use vstd::utf8::{
    decode_utf8_encode_utf8, encode_utf8, encode_utf8_decode_utf8, encode_utf8_valid_utf8,
};

use crate::bytes::{copy_array, copy_bytes, extend, same_array, same_bytes};
use crate::framing::{
    field, field_at, frame, lemma_field_at_frame, lemma_field_at_is_field, read_field, MAX_FIELD,
};
use crate::log::{
    fields_view, lemma_log_append, lemma_log_cut, lemma_log_torn, read_rows, row, row_fits,
    rows_end, rows_from, rows_view,
};
use crate::medium::LogMedium;
use crate::sealed::Sealed;
use crate::table::{Table, TextSet};
use crate::text::{holds_char, last_position, text_bytes, text_from_utf8};

verus! {

/// Why a nonce was not consumed.
#[derive(Debug, Clone, Copy, PartialEq, Eq)]
pub enum StoreError {
    /// The nonce was consumed under another decision, or the payment backs
    /// another nonce.
    Replayed,
    /// The consumption could not be recorded. Nothing was consumed, and nothing
    /// may be delivered.
    Unavailable,
}

/// The decision recorded against a consumed nonce.
#[derive(Debug)]
pub struct NonceRecord {
    pub payment_ref: String,
    pub idem: Vec<u8>,
    pub resource: String,
    /// The merchant signature over the quote the nonce was consumed under.
    pub quote_sig: [u8; 64],
}

/// What a [`NonceRecord`] says.
pub struct NonceRecordView {
    pub payment_ref: Seq<char>,
    pub idem: Seq<u8>,
    pub resource: Seq<char>,
    pub quote_sig: [u8; 64],
}

impl View for NonceRecord {
    type V = NonceRecordView;

    open spec fn view(&self) -> NonceRecordView {
        NonceRecordView {
            payment_ref: self.payment_ref@,
            idem: self.idem@,
            resource: self.resource@,
            quote_sig: self.quote_sig,
        }
    }
}

impl NonceRecord {
    /// A copy.
    pub fn copy(&self) -> (r: NonceRecord)
        ensures
            r@ == self@,
    {
        NonceRecord {
            payment_ref: self.payment_ref.clone(),
            idem: copy_bytes(self.idem.as_slice()),
            resource: self.resource.clone(),
            quote_sig: self.quote_sig,
        }
    }

    /// Whether two records say the same.
    pub fn same(&self, other: &NonceRecord) -> (r: bool)
        ensures
            r == (self@ == other@),
    {
        self.payment_ref == other.payment_ref && same_bytes(
            self.idem.as_slice(),
            other.idem.as_slice(),
        ) && self.resource == other.resource && same_array(&self.quote_sig, &other.quote_sig)
    }
}

/// One paid leg of a receipt.
#[derive(Debug)]
pub struct PaidLeg {
    pub leg: String,
    pub network: String,
    pub reference: String,
}

/// What a [`PaidLeg`] says.
pub struct PaidLegView {
    pub leg: Seq<char>,
    pub network: Seq<char>,
    pub reference: Seq<char>,
}

impl View for PaidLeg {
    type V = PaidLegView;

    open spec fn view(&self) -> PaidLegView {
        PaidLegView { leg: self.leg@, network: self.network@, reference: self.reference@ }
    }
}

/// The views of a list of paid legs.
pub open spec fn legs_view(legs: Seq<PaidLeg>) -> Seq<PaidLegView> {
    legs.map_values(|leg: PaidLeg| leg@)
}

/// A signed receipt: what it binds, and its signed JSON form.
#[derive(Debug)]
pub struct Receipt {
    pub nonce: [u8; 32],
    pub idem: Vec<u8>,
    pub resource: String,
    pub paid: Vec<PaidLeg>,
    pub entry: Option<[u8; 32]>,
    pub ts: u64,
    pub json: Vec<u8>,
}

/// What a [`Receipt`] says.
pub struct ReceiptView {
    pub nonce: [u8; 32],
    pub idem: Seq<u8>,
    pub resource: Seq<char>,
    pub paid: Seq<PaidLegView>,
    pub entry: Option<[u8; 32]>,
    pub ts: u64,
    pub json: Seq<u8>,
}

impl View for Receipt {
    type V = ReceiptView;

    open spec fn view(&self) -> ReceiptView {
        ReceiptView {
            nonce: self.nonce,
            idem: self.idem@,
            resource: self.resource@,
            paid: legs_view(self.paid@),
            entry: self.entry,
            ts: self.ts,
            json: self.json@,
        }
    }
}

/// A copy of a list of paid legs.
pub fn copy_legs(legs: &Vec<PaidLeg>) -> (out: Vec<PaidLeg>)
    ensures
        legs_view(out@) == legs_view(legs@),
{
    let mut out: Vec<PaidLeg> = Vec::new();
    let mut i: usize = 0;
    while i < legs.len()
        invariant
            i <= legs@.len(),
            out@.len() == i,
            forall|j: int| 0 <= j < i ==> (#[trigger] out@[j])@ == legs@[j]@,
        decreases legs@.len() - i,
    {
        out.push(
            PaidLeg {
                leg: legs[i].leg.clone(),
                network: legs[i].network.clone(),
                reference: legs[i].reference.clone(),
            },
        );
        i = i + 1;
    }
    assert(legs_view(out@) =~= legs_view(legs@));
    out
}

impl Receipt {
    /// A copy.
    pub fn copy(&self) -> (r: Receipt)
        ensures
            r@ == self@,
    {
        Receipt {
            nonce: self.nonce,
            idem: copy_bytes(self.idem.as_slice()),
            resource: self.resource.clone(),
            paid: copy_legs(&self.paid),
            entry: self.entry,
            ts: self.ts,
            json: copy_bytes(self.json.as_slice()),
        }
    }
}

/// What a nonce is known to be before its payment is verified.
#[derive(Debug)]
pub enum Peek {
    /// The nonce and its payment are unseen.
    Fresh,
    /// The nonce was consumed under exactly this decision, with this receipt.
    Stored(Box<Receipt>),
    /// The nonce or its payment belongs to another decision.
    Replayed,
}

/// The character that joins the two references of a two-leg payment. No
/// canonical settlement reference holds it.
pub const PAYMENT_REF_DELIMITER: char = '|';

/// Whether a settlement reference holds the reserved delimiter.
pub fn has_reserved_ref_delimiter(reference: &str) -> (r: bool)
    ensures
        r == reference@.contains(PAYMENT_REF_DELIMITER),
{
    holds_char(reference, PAYMENT_REF_DELIMITER)
}

/// Whether `part` is what follows the last delimiter of `whole`.
pub open spec fn is_net_part(whole: Seq<char>, part: Seq<char>) -> bool {
    &&& part.len() < whole.len()
    &&& whole.subrange(whole.len() - part.len(), whole.len() as int) == part
    &&& whole[whole.len() - part.len() - 1] == PAYMENT_REF_DELIMITER
    &&& !part.contains(PAYMENT_REF_DELIMITER)
}

/// The references a payment uses up: the whole reference and, for a two-leg
/// payment, the net leg's own.
pub open spec fn ref_keys(payment_ref: Seq<char>) -> Set<Seq<char>> {
    Set::new(|key: Seq<char>| key == payment_ref || is_net_part(payment_ref, key))
}

/// The references a payment uses up.
fn used_ref_keys(payment_ref: &String) -> (keys: Vec<String>)
    ensures
        keys@.len() >= 1,
        forall|i: int| 0 <= i < keys@.len() ==> ref_keys(payment_ref@).contains(#[trigger] keys@[i]@),
        forall|key: Seq<char>| #[trigger]
            ref_keys(payment_ref@).contains(key) ==> exists|i: int|
                0 <= i < keys@.len() && #[trigger] keys@[i]@ == key,
{
    let mut keys: Vec<String> = Vec::new();
    keys.push(payment_ref.clone());
    let s: &str = payment_ref.as_str();
    match last_position(s, PAYMENT_REF_DELIMITER) {
        Some(at) => {
            let n: usize = s.unicode_len();
            let part: String = s.substring_char(at + 1, n).to_owned();
            keys.push(part);
            proof {
                let whole = payment_ref@;
                assert(is_net_part(whole, part@)) by {
                    if part@.contains(PAYMENT_REF_DELIMITER) {
                        let j = choose|j: int| 0 <= j < part@.len() && part@[j] == PAYMENT_REF_DELIMITER;
                        assert(whole[at + 1 + j] == PAYMENT_REF_DELIMITER);
                    }
                }
                assert(keys@[0]@ == whole);
                assert(keys@[1]@ == part@);
                assert forall|key: Seq<char>| #[trigger] ref_keys(whole).contains(key) implies exists|i: int|
                    0 <= i < keys@.len() && #[trigger] keys@[i]@ == key by {
                    if key == whole {
                        assert(keys@[0]@ == key);
                    } else {
                        assert(is_net_part(whole, key));
                        let k = whole.len() - key.len() - 1;
                        if k < at {
                            assert(key[at - k - 1] == whole[at as int]);
                            assert(key.contains(PAYMENT_REF_DELIMITER));
                        }
                        assert(k == at);
                        assert(key =~= part@);
                        assert(keys@[1]@ == key);
                    }
                }
            }
        },
        None => {
            proof {
                let whole = payment_ref@;
                assert(keys@[0]@ == whole);
                assert forall|key: Seq<char>| #[trigger] ref_keys(whole).contains(key) implies exists|i: int|
                    0 <= i < keys@.len() && #[trigger] keys@[i]@ == key by {
                    if key != whole {
                        assert(is_net_part(whole, key));
                        assert(whole.contains(whole[whole.len() - key.len() - 1]));
                    }
                    assert(keys@[0]@ == key);
                }
            }
        },
    }
    keys
}

/// A consumed nonce: its decision and its receipt.
struct Consumed {
    record: NonceRecord,
    receipt: Receipt,
}

impl View for Consumed {
    type V = (NonceRecordView, ReceiptView);

    closed spec fn view(&self) -> (NonceRecordView, ReceiptView) {
        (self.record@, self.receipt@)
    }
}

/// The consumed nonces and the references they use up.
struct Nonces {
    by_nonce: Table<[u8; 32], Consumed>,
    used_refs: TextSet,
}

/// What a peek at `nonce` finds.
pub open spec fn peeked(
    consumed: Map<[u8; 32], (NonceRecordView, ReceiptView)>,
    used: Set<Seq<char>>,
    nonce: [u8; 32],
    record: NonceRecordView,
    r: Peek,
) -> bool {
    if consumed.dom().contains(nonce) {
        if consumed[nonce].0 == record {
            r matches Peek::Stored(receipt) && receipt@ == consumed[nonce].1
        } else {
            r is Replayed
        }
    } else if refs_taken(used, record.payment_ref) {
        r is Replayed
    } else {
        r is Fresh
    }
}

/// Whether a reference of the payment is used up.
pub open spec fn refs_taken(used: Set<Seq<char>>, payment_ref: Seq<char>) -> bool {
    exists|key: Seq<char>| #[trigger] ref_keys(payment_ref).contains(key) && used.contains(key)
}

impl Nonces {
    spec fn consumed(&self) -> Map<[u8; 32], (NonceRecordView, ReceiptView)> {
        self.by_nonce@
    }

    spec fn used(&self) -> Set<Seq<char>> {
        self.used_refs@
    }

    fn new() -> (n: Nonces)
        ensures
            n.consumed() == Map::<[u8; 32], (NonceRecordView, ReceiptView)>::empty(),
            n.used() == Set::<Seq<char>>::empty(),
    {
        Nonces { by_nonce: Table::new(), used_refs: TextSet::new() }
    }

    fn taken(&self, payment_ref: &String) -> (r: bool)
        ensures
            r == refs_taken(self.used(), payment_ref@),
    {
        let keys: Vec<String> = used_ref_keys(payment_ref);
        let mut i: usize = 0;
        while i < keys.len()
            invariant
                i <= keys@.len(),
                forall|j: int| 0 <= j < keys@.len() ==> ref_keys(payment_ref@).contains(#[trigger] keys@[j]@),
                forall|j: int| 0 <= j < i ==> !self.used().contains(#[trigger] keys@[j]@),
            decreases keys@.len() - i,
        {
            if self.used_refs.contains(&keys[i]) {
                assert(ref_keys(payment_ref@).contains(keys@[i as int]@));
                return true;
            }
            i = i + 1;
        }
        false
    }

    fn peek(&self, nonce: [u8; 32], record: &NonceRecord) -> (r: Peek)
        ensures
            peeked(self.consumed(), self.used(), nonce, record@, r),
    {
        match self.by_nonce.get(&nonce) {
            Some(c) => {
                if c.record.same(record) {
                    Peek::Stored(Box::new(c.receipt.copy()))
                } else {
                    Peek::Replayed
                }
            },
            None => {
                if self.taken(&record.payment_ref) {
                    Peek::Replayed
                } else {
                    Peek::Fresh
                }
            },
        }
    }

    fn mark_used(&mut self, payment_ref: &String)
        ensures
            final(self).consumed() == old(self).consumed(),
            final(self).used() == old(self).used().union(ref_keys(payment_ref@)),
    {
        let keys: Vec<String> = used_ref_keys(payment_ref);
        let mut i: usize = 0;
        while i < keys.len()
            invariant
                i <= keys@.len(),
                self.consumed() == old(self).consumed(),
                forall|j: int| 0 <= j < keys@.len() ==> ref_keys(payment_ref@).contains(#[trigger] keys@[j]@),
                forall|s: Seq<char>| #[trigger]
                    self.used().contains(s) <==> old(self).used().contains(s) || exists|j: int|
                        0 <= j < i && #[trigger] keys@[j]@ == s,
            decreases keys@.len() - i,
        {
            let ghost before: Set<Seq<char>> = self.used();
            let _ = self.used_refs.insert(keys[i].clone());
            proof {
                assert forall|s: Seq<char>| #[trigger] self.used().contains(s) <==> old(self).used().contains(s)
                    || exists|j: int| 0 <= j < i + 1 && #[trigger] keys@[j]@ == s by {
                    if s == keys@[i as int]@ {
                        assert(keys@[i as int]@ == s);
                    }
                }
            }
            i = i + 1;
        }
        assert(self.used() =~= old(self).used().union(ref_keys(payment_ref@)));
    }

    fn put(&mut self, nonce: [u8; 32], record: &NonceRecord, receipt: &Receipt)
        ensures
            final(self).consumed() == old(self).consumed().insert(nonce, (record@, receipt@)),
            final(self).used() == old(self).used().union(ref_keys(record@.payment_ref)),
    {
        self.by_nonce.insert(nonce, Consumed { record: record.copy(), receipt: receipt.copy() });
        self.mark_used(&record.payment_ref);
    }
}

/// Whether `nonce` was not consumed, and no reference of the payment of `record` used up.
pub open spec fn nonce_fresh(
    consumed: Map<[u8; 32], (NonceRecordView, ReceiptView)>,
    used: Set<Seq<char>>,
    nonce: [u8; 32],
    record: NonceRecordView,
) -> bool {
    !consumed.dom().contains(nonce) && !refs_taken(used, record.payment_ref)
}

/// Whether every receipt that may have been built can be framed in a log row.
pub open spec fn receipts_fit(built: spec_fn(Receipt) -> bool) -> bool {
    forall|b: Receipt| #[trigger] built(b) ==> b@.json.len() <= MAX_FIELD
}

/// What consuming `nonce` under `record` did: `before` and `after` are the
/// consumed nonces with the used references, `built` says which receipts the
/// caller may have built.
pub open spec fn consumption(
    before: (Map<[u8; 32], (NonceRecordView, ReceiptView)>, Set<Seq<char>>),
    after: (Map<[u8; 32], (NonceRecordView, ReceiptView)>, Set<Seq<char>>),
    nonce: [u8; 32],
    record: NonceRecordView,
    built: spec_fn(Receipt) -> bool,
    r: Result<Receipt, StoreError>,
) -> bool {
    match r {
        Ok(receipt) => if before.0.dom().contains(nonce) {
            &&& before.0[nonce] == (record, receipt@)
            &&& after == before
        } else {
            &&& !refs_taken(before.1, record.payment_ref)
            &&& exists|b: Receipt| #[trigger] built(b) && b@ == receipt@
            &&& after.0 == before.0.insert(nonce, (record, receipt@))
            &&& after.1 == before.1.union(ref_keys(record.payment_ref))
        },
        Err(StoreError::Replayed) => {
            &&& after == before
            &&& if before.0.dom().contains(nonce) {
                before.0[nonce].0 != record
            } else {
                refs_taken(before.1, record.payment_ref)
            }
        },
        Err(StoreError::Unavailable) => after == before,
    }
}

/// The consumed-nonce record.
pub trait MerchantStore {
    /// The consumed nonces, each with its decision and its receipt.
    spec fn consumed(&self) -> Map<[u8; 32], (NonceRecordView, ReceiptView)>;

    /// The references that are used up.
    spec fn used(&self) -> Set<Seq<char>>;

    /// The store's own invariant.
    spec fn wf(&self) -> bool;

    /// Whether `r` is what consuming `nonce` under `record` gave, and `after` the store
    /// then; `built` says which receipts the caller may have built. A store says here
    /// what it answers and when; one that says nothing is held to `consume_nonce` alone,
    /// and the name tells which nonce was consumed and what came back.
    closed spec fn answered(
        &self,
        nonce: [u8; 32],
        record: NonceRecordView,
        built: spec_fn(Receipt) -> bool,
        after: &Self,
        r: Result<Receipt, StoreError>,
    ) -> bool {
        true
    }

    /// Looks at `nonce` without consuming it.
    fn peek(&self, nonce: [u8; 32], record: &NonceRecord) -> (r: Peek)
        requires
            self.wf(),
        ensures
            peeked(self.consumed(), self.used(), nonce, record@, r),
    ;

    /// Consumes `nonce` under `record`, before delivery. Only a fresh nonce has
    /// its receipt built.
    fn consume_nonce<B: FnOnce() -> Receipt>(
        &mut self,
        nonce: [u8; 32],
        record: &NonceRecord,
        build: B,
    ) -> (r: Result<Receipt, StoreError>)
        requires
            old(self).wf(),
            build.requires(()),
        ensures
            final(self).wf(),
            old(self).answered(nonce, record@, |b: Receipt| build.ensures((), b), final(self), r),
            consumption(
                (old(self).consumed(), old(self).used()),
                (final(self).consumed(), final(self).used()),
                nonce,
                record@,
                |b: Receipt| build.ensures((), b),
                r,
            ),
    ;
}

/// A store that survives a restart. Only this crate implements it.
pub trait DurableMerchantStore: MerchantStore + Sealed {

}

/// A store in memory, for a single process without restart durability.
pub struct InMemoryStore {
    inner: Nonces,
}

impl InMemoryStore {
    /// An empty store.
    pub fn new() -> (s: InMemoryStore)
        ensures
            s.wf(),
            s.consumed() == Map::<[u8; 32], (NonceRecordView, ReceiptView)>::empty(),
            s.used() == Set::<Seq<char>>::empty(),
    {
        InMemoryStore { inner: Nonces::new() }
    }
}

impl MerchantStore for InMemoryStore {
    closed spec fn consumed(&self) -> Map<[u8; 32], (NonceRecordView, ReceiptView)> {
        self.inner.consumed()
    }

    closed spec fn used(&self) -> Set<Seq<char>> {
        self.inner.used()
    }

    open spec fn wf(&self) -> bool {
        true
    }

    /// Every consumption is recorded: an exact retry gets the stored receipt, a fresh
    /// nonce its own, and anything else is a replay. Only a fresh nonce changes the store.
    open spec fn answered(
        &self,
        nonce: [u8; 32],
        record: NonceRecordView,
        built: spec_fn(Receipt) -> bool,
        after: &Self,
        r: Result<Receipt, StoreError>,
    ) -> bool {
        &&& r != Err::<Receipt, StoreError>(StoreError::Unavailable)
        &&& !nonce_fresh(self.consumed(), self.used(), nonce, record) ==> *after == *self
    }

    fn peek(&self, nonce: [u8; 32], record: &NonceRecord) -> (r: Peek) {
        self.inner.peek(nonce, record)
    }

    fn consume_nonce<B: FnOnce() -> Receipt>(
        &mut self,
        nonce: [u8; 32],
        record: &NonceRecord,
        build: B,
    ) -> (r: Result<Receipt, StoreError>) {
        match self.inner.peek(nonce, record) {
            Peek::Stored(receipt) => Ok(*receipt),
            Peek::Replayed => Err(StoreError::Replayed),
            Peek::Fresh => {
                let receipt: Receipt = build();
                self.inner.put(nonce, record, &receipt);
                proof {
                    let built = |b: Receipt| build.ensures((), b);
                    assert(built(receipt));
                }
                Ok(receipt)
            },
        }
    }
}

/// Whether every field of a record can be framed.
pub open spec fn record_fits(r: NonceRecordView) -> bool {
    &&& encode_utf8(r.payment_ref).len() <= MAX_FIELD
    &&& r.idem.len() <= MAX_FIELD
    &&& encode_utf8(r.resource).len() <= MAX_FIELD
}

/// The bytes of a record: three framed fields, then the quote signature.
pub open spec fn record_bytes(r: NonceRecordView) -> Seq<u8> {
    field(encode_utf8(r.payment_ref)) + field(r.idem) + field(encode_utf8(r.resource)) + r.quote_sig@
}

/// Whether `bytes` are the bytes of a record.
pub open spec fn is_record(bytes: Seq<u8>) -> bool {
    exists|r: NonceRecordView| record_fits(r) && #[trigger] record_bytes(r) == bytes
}

/// The record whose bytes are `bytes`.
pub open spec fn record_of(bytes: Seq<u8>) -> NonceRecordView {
    choose|r: NonceRecordView| record_fits(r) && #[trigger] record_bytes(r) == bytes
}

/// Where the four parts of a record's bytes end, and what they hold.
proof fn lemma_record_parts(r: NonceRecordView)
    requires
        record_fits(r),
    ensures
        ({
            let bytes = record_bytes(r);
            let a = 4 + encode_utf8(r.payment_ref).len() as int;
            let b = a + 4 + r.idem.len() as int;
            let c = b + 4 + encode_utf8(r.resource).len() as int;
            &&& field_at(bytes, 0) == Some((encode_utf8(r.payment_ref), a))
            &&& field_at(bytes, a) == Some((r.idem, b))
            &&& field_at(bytes, b) == Some((encode_utf8(r.resource), c))
            &&& bytes.len() == c + 64
            &&& bytes.subrange(c, c + 64) == r.quote_sig@
        }),
{
    let bytes = record_bytes(r);
    let p = encode_utf8(r.payment_ref);
    let q = encode_utf8(r.resource);
    let none = Seq::<u8>::empty();
    lemma_field_at_frame(none, p, field(r.idem) + field(q) + r.quote_sig@);
    assert(none + field(p) + (field(r.idem) + field(q) + r.quote_sig@) =~= bytes);
    lemma_field_at_frame(field(p), r.idem, field(q) + r.quote_sig@);
    assert(field(p) + field(r.idem) + (field(q) + r.quote_sig@) =~= bytes);
    lemma_field_at_frame(field(p) + field(r.idem), q, r.quote_sig@);
    let c = (field(p) + field(r.idem) + field(q)).len() as int;
    assert(bytes.subrange(c, c + 64) =~= r.quote_sig@);
}

/// A record is determined by its bytes.
pub proof fn law_record_bytes_injective(r: NonceRecordView, s: NonceRecordView)
    requires
        record_fits(r),
        record_fits(s),
        record_bytes(r) == record_bytes(s),
    ensures
        r == s,
{
    lemma_record_parts(r);
    lemma_record_parts(s);
    encode_utf8_decode_utf8(r.payment_ref);
    encode_utf8_decode_utf8(s.payment_ref);
    encode_utf8_decode_utf8(r.resource);
    encode_utf8_decode_utf8(s.resource);
    assert(r.quote_sig =~= s.quote_sig) by {
        assert forall|i: int| 0 <= i < 64 implies r.quote_sig[i] == s.quote_sig[i] by {
            assert(r.quote_sig@[i] == s.quote_sig@[i]);
        }
    }
}

/// The bytes of a record, or `None` where a field is too long to be framed.
pub fn encode_record(r: &NonceRecord) -> (out: Option<Vec<u8>>)
    ensures
        match out {
            Some(bytes) => record_fits(r@) && bytes@ == record_bytes(r@),
            None => !record_fits(r@),
        },
{
    let payment_ref: Vec<u8> = text_bytes(r.payment_ref.as_str());
    let resource: Vec<u8> = text_bytes(r.resource.as_str());
    if payment_ref.len() > MAX_FIELD || r.idem.len() > MAX_FIELD || resource.len() > MAX_FIELD {
        return None;
    }
    let mut out: Vec<u8> = Vec::new();
    frame(&mut out, payment_ref.as_slice());
    frame(&mut out, r.idem.as_slice());
    frame(&mut out, resource.as_slice());
    extend(&mut out, r.quote_sig.as_slice());
    assert(out@ =~= record_bytes(r@));
    Some(out)
}

/// The record whose bytes are `bytes`; `None` where there is none. Bytes behind
/// a record are no part of it, and are refused.
pub fn decode_record(bytes: &[u8]) -> (out: Option<NonceRecord>)
    ensures
        match out {
            Some(r) => record_fits(r@) && record_bytes(r@) == bytes@,
            None => !is_record(bytes@),
        },
{
    proof {
        if is_record(bytes@) {
            let r = record_of(bytes@);
            lemma_record_parts(r);
            encode_utf8_valid_utf8(r.payment_ref);
            encode_utf8_valid_utf8(r.resource);
        }
    }
    let mut off: usize = 0;
    let payment: Vec<u8> = match read_field(bytes, &mut off) {
        Some(data) => data,
        None => return None,
    };
    let ghost a: int = off as int;
    let idem: Vec<u8> = match read_field(bytes, &mut off) {
        Some(data) => data,
        None => return None,
    };
    let ghost b: int = off as int;
    let resource_bytes: Vec<u8> = match read_field(bytes, &mut off) {
        Some(data) => data,
        None => return None,
    };
    let ghost c: int = off as int;
    let ghost p: Seq<u8> = payment@;
    let ghost q: Seq<u8> = resource_bytes@;
    if bytes.len() - off != 64 {
        return None;
    }
    let payment_ref: String = match text_from_utf8(payment) {
        Some(s) => s,
        None => return None,
    };
    let resource: String = match text_from_utf8(resource_bytes) {
        Some(s) => s,
        None => return None,
    };
    let quote_sig: [u8; 64] = copy_array::<64>(bytes, off);
    let out: NonceRecord = NonceRecord { payment_ref, idem, resource, quote_sig };
    proof {
        decode_utf8_encode_utf8(p);
        decode_utf8_encode_utf8(q);
        lemma_field_at_is_field(bytes@, 0);
        lemma_field_at_is_field(bytes@, a);
        lemma_field_at_is_field(bytes@, b);
        assert(bytes@ =~= bytes@.subrange(0, a) + bytes@.subrange(a, b) + bytes@.subrange(b, c)
            + bytes@.subrange(c, c + 64));
    }
    Some(out)
}

/// What a log row of a consumed nonce holds.
pub open spec fn nonce_row(nonce: [u8; 32], record: NonceRecordView, json: Seq<u8>) -> Seq<Seq<u8>> {
    seq![nonce@, record_bytes(record), json]
}

/// Whether a log row and the receipt read from it belong together: a nonce, a
/// record, and a receipt of that nonce, idempotency key and resource.
pub open spec fn row_sound(fields: Seq<Seq<u8>>, receipt: Option<ReceiptView>) -> bool {
    &&& fields[0].len() == 32
    &&& is_record(fields[1])
    &&& receipt matches Some(r) && {
        &&& r.nonce@ == fields[0]
        &&& r.idem == record_of(fields[1]).idem
        &&& r.resource == record_of(fields[1]).resource
    }
}

/// The consumed nonces and used references of the first `n` rows of a log, with
/// the receipts read from them. The first row of a nonce counts.
pub open spec fn restored(
    rows: Seq<Seq<Seq<u8>>>,
    receipts: Seq<ReceiptView>,
    n: nat,
) -> (Map<[u8; 32], (NonceRecordView, ReceiptView)>, Set<Seq<char>>)
    decreases n,
{
    if n == 0 {
        (Map::empty(), Set::empty())
    } else {
        let (consumed, used) = restored(rows, receipts, (n - 1) as nat);
        let fields = rows[n - 1];
        let record = record_of(fields[1]);
        let receipt = ReceiptView { json: fields[2], ..receipts[n - 1] };
        (
            if consumed.dom().contains(receipt.nonce) {
                consumed
            } else {
                consumed.insert(receipt.nonce, (record, receipt))
            },
            used.union(ref_keys(record.payment_ref)),
        )
    }
}

/// Whether row `i` is the first of `rows` that is of `nonce`.
pub open spec fn first_of(rows: Seq<Seq<Seq<u8>>>, nonce: [u8; 32], i: int) -> bool {
    &&& 0 <= i < rows.len()
    &&& rows[i][0] == nonce@
    &&& forall|j: int| 0 <= j < i ==> (#[trigger] rows[j])[0] != nonce@
}

/// Whether the first row of every consumed nonce holds its record and its receipt.
pub open spec fn on_log(
    consumed: Map<[u8; 32], (NonceRecordView, ReceiptView)>,
    rows: Seq<Seq<Seq<u8>>>,
) -> bool {
    forall|nonce: [u8; 32]| #[trigger]
        consumed.dom().contains(nonce) ==> logged(rows, nonce, consumed[nonce].0, consumed[nonce].1.json)
}

/// Whether the first row of a nonce holds `record` and `json`.
pub open spec fn logged(
    rows: Seq<Seq<Seq<u8>>>,
    nonce: [u8; 32],
    record: NonceRecordView,
    json: Seq<u8>,
) -> bool {
    &&& record_fits(record)
    &&& exists|i: int| #[trigger] first_of(rows, nonce, i) && rows[i] == nonce_row(nonce, record, json)
}

/// Whether every row of a log is of a consumed nonce.
pub open spec fn log_known(
    consumed: Map<[u8; 32], (NonceRecordView, ReceiptView)>,
    rows: Seq<Seq<Seq<u8>>>,
) -> bool {
    forall|i: int| 0 <= i < rows.len() ==> row_known(consumed, #[trigger] rows[i])
}

/// Whether a log row is of a consumed nonce.
pub open spec fn row_known(
    consumed: Map<[u8; 32], (NonceRecordView, ReceiptView)>,
    fields: Seq<Seq<u8>>,
) -> bool {
    exists|nonce: [u8; 32]| #[trigger] consumed.dom().contains(nonce) && fields[0] == nonce@
}

/// Whether a record can be framed in a log row.
pub open spec fn recordable(r: NonceRecordView) -> bool {
    record_fits(r) && record_bytes(r).len() <= MAX_FIELD
}

/// Whether every consumed nonce has used up the references of its payment.
pub open spec fn refs_follow(
    consumed: Map<[u8; 32], (NonceRecordView, ReceiptView)>,
    used: Set<Seq<char>>,
) -> bool {
    forall|nonce: [u8; 32]| #[trigger]
        consumed.dom().contains(nonce) ==> ref_keys(consumed[nonce].0.payment_ref).subset_of(used)
}

/// Why a log could not be opened.
#[derive(Debug, Clone, Copy, PartialEq, Eq)]
pub enum OpenError {
    /// The medium failed.
    Io,
    /// A whole row does not hold what a row must hold. A log that has forgotten
    /// a consumed nonce is not opened.
    Corrupt,
}

/// A log that was read but not yet replayed: the receipts in its rows are still
/// in their signed form, and the caller reads them.
pub struct NonceLog<F> {
    medium: F,
    rows: Vec<Vec<Vec<u8>>>,
    valid: usize,
    total: usize,
}

impl<F: LogMedium> NonceLog<F> {
    /// The whole rows of the log.
    pub closed spec fn rows(&self) -> Seq<Seq<Seq<u8>>> {
        rows_view(self.rows@)
    }

    /// The bytes on the medium.
    pub closed spec fn contents(&self) -> Seq<u8> {
        self.medium.contents()
    }

    /// Whether the medium can be relied on to be read and to move its cursor.
    pub closed spec fn readable(&self) -> bool {
        self.medium.readable()
    }

    /// Whether the medium can be relied on to be appended to and cut back.
    pub closed spec fn writable(&self) -> bool {
        self.medium.writable()
    }

    /// Whether the rows are those of the medium.
    pub closed spec fn wf(&self) -> bool {
        &&& rows_view(self.rows@) == rows_from(self.medium.contents(), 0, 3)
        &&& self.valid == rows_end(self.medium.contents(), 0, 3)
        &&& self.valid <= self.total
        &&& self.total == self.medium.contents().len()
        &&& forall|i: int| 0 <= i < self.rows@.len() ==> (#[trigger] self.rows@[i])@.len() == 3
    }

    /// Reads the log on `medium`, which fails only where the medium does.
    pub fn read(medium: F) -> (r: Result<NonceLog<F>, OpenError>)
        ensures
            medium.readable() ==> r is Ok,
            match r {
                Ok(log) => {
                    &&& log.wf()
                    &&& log.contents() == medium.contents()
                    &&& log.rows() == rows_from(medium.contents(), 0, 3)
                    &&& medium.readable() ==> log.readable()
                    &&& medium.writable() ==> log.writable()
                },
                Err(e) => e == OpenError::Io,
            },
    {
        let mut medium: F = medium;
        let bytes: Vec<u8> = match medium.read_all() {
            Some(bytes) => bytes,
            None => return Err(OpenError::Io),
        };
        let (rows, valid): (Vec<Vec<Vec<u8>>>, usize) = read_rows(bytes.as_slice(), 3);
        Ok(NonceLog { medium, rows, valid, total: bytes.len() })
    }

    /// The number of whole rows.
    pub fn len(&self) -> (n: usize)
        ensures
            n == self.rows().len(),
    {
        self.rows.len()
    }

    /// The signed receipt in row `i`.
    pub fn receipt_json(&self, i: usize) -> (json: Vec<u8>)
        requires
            self.wf(),
            i < self.rows().len(),
        ensures
            json@ == self.rows()[i as int][2],
    {
        copy_bytes(self.rows[i][2].as_slice())
    }
}

/// A durable store: an append-only log with one row for each consumed nonce.
///
/// The row binds the nonce, its record and its receipt, so that no crash can
/// leave a nonce without the references it used up.
pub struct WalMerchantStore<F> {
    nonces: Nonces,
    medium: F,
    len: u64,
    poisoned: bool,
}

impl<F: LogMedium> Sealed for WalMerchantStore<F> {

}

impl<F: LogMedium> DurableMerchantStore for WalMerchantStore<F> {

}

/// The views of a list of receipts.
pub open spec fn receipts_view(receipts: Seq<Option<Receipt>>) -> Seq<ReceiptView> {
    receipts.map_values(|r: Option<Receipt>| (r->0)@)
}

/// The view of a receipt, where there is one.
pub open spec fn receipt_view(receipt: Option<Receipt>) -> Option<ReceiptView> {
    match receipt {
        Some(r) => Some(r@),
        None => None,
    }
}

impl<F: LogMedium> WalMerchantStore<F> {
    /// The bytes on the medium.
    pub closed spec fn log(&self) -> Seq<u8> {
        self.medium.contents()
    }

    /// Whether the store has poisoned itself.
    pub closed spec fn poisoned(&self) -> bool {
        self.poisoned
    }

    /// Whether the medium can be relied on to be appended to and cut back.
    pub closed spec fn writable(&self) -> bool {
        self.medium.writable()
    }

    /// Whether every consumption that can be recorded will be: the store is not
    /// poisoned, and its medium can be relied on.
    pub open spec fn healthy(&self) -> bool {
        !self.poisoned() && self.writable()
    }

    closed spec fn sound(&self) -> bool {
        &&& !self.poisoned ==> {
            &&& self.len == self.medium.contents().len()
            &&& self.medium.cursor() == self.len
            &&& rows_end(self.medium.contents(), 0, 3) == self.len
            &&& log_known(self.nonces.consumed(), rows_from(self.medium.contents(), 0, 3))
        }
        &&& on_log(self.nonces.consumed(), rows_from(self.medium.contents(), 0, 3))
        &&& refs_follow(self.nonces.consumed(), self.nonces.used())
    }

    /// Replays a log with the receipts read from its rows; a row whose receipt
    /// does not read has `None` there. A torn row is cut off. Where the rows are sound,
    /// a log on a medium that can be read is opened, and where a torn row lies on it,
    /// one on a medium that can also be cut back.
    pub fn open(log: NonceLog<F>, receipts: Vec<Option<Receipt>>) -> (r: Result<WalMerchantStore<F>, OpenError>)
        requires
            log.wf(),
            receipts@.len() == log.rows().len(),
        ensures
            match r {
                Ok(s) => {
                    &&& s.wf()
                    &&& !s.poisoned()
                    &&& forall|i: int|
                        0 <= i < log.rows().len() ==> row_sound(
                            #[trigger] log.rows()[i],
                            receipt_view(receipts@[i]),
                        )
                    &&& (s.consumed(), s.used()) == restored(
                        log.rows(),
                        receipts_view(receipts@),
                        log.rows().len(),
                    )
                    &&& s.log() == log.contents().take(rows_end(log.contents(), 0, 3))
                    &&& log.writable() ==> s.writable()
                },
                Err(OpenError::Corrupt) => exists|i: int|
                    0 <= i < log.rows().len() && !row_sound(
                        #[trigger] log.rows()[i],
                        receipt_view(receipts@[i]),
                    ),
                Err(OpenError::Io) => {
                    &&& !(log.readable() && (log.writable() || rows_end(log.contents(), 0, 3)
                        == log.contents().len()))
                    &&& forall|i: int|
                        0 <= i < log.rows().len() ==> row_sound(
                            #[trigger] log.rows()[i],
                            receipt_view(receipts@[i]),
                        )
                },
            },
    {
        let ghost contents: Seq<u8> = log.medium.contents();
        let ghost rows: Seq<Seq<Seq<u8>>> = log.rows();
        let ghost read: Seq<ReceiptView> = receipts_view(receipts@);
        let mut nonces: Nonces = Nonces::new();
        let mut i: usize = 0;
        while i < log.rows.len()
            invariant
                i <= log.rows@.len(),
                log.wf(),
                rows == log.rows(),
                receipts@.len() == rows.len(),
                rows.len() == log.rows@.len(),
                read == receipts_view(receipts@),
                forall|j: int| 0 <= j < i ==> row_sound(#[trigger] rows[j], receipt_view(receipts@[j])),
                (nonces.consumed(), nonces.used()) == restored(rows, read, i as nat),
                on_log(nonces.consumed(), rows.take(i as int)),
                log_known(nonces.consumed(), rows.take(i as int)),
                refs_follow(nonces.consumed(), nonces.used()),
            decreases log.rows@.len() - i,
        {
            assert(rows[i as int] == fields_view(log.rows@[i as int]@));
            let nonce_bytes: &Vec<u8> = &log.rows[i][0];
            if nonce_bytes.len() != 32 {
                assert(!row_sound(rows[i as int], receipt_view(receipts@[i as int])));
                return Err(OpenError::Corrupt);
            }
            let record: NonceRecord = match decode_record(log.rows[i][1].as_slice()) {
                Some(record) => record,
                None => {
                    assert(!row_sound(rows[i as int], receipt_view(receipts@[i as int])));
                    return Err(OpenError::Corrupt);
                },
            };
            proof {
                let bytes = rows[i as int][1];
                assert(is_record(bytes));
                law_record_bytes_injective(record@, record_of(bytes));
            }
            let receipt: &Receipt = match &receipts[i] {
                Some(receipt) => receipt,
                None => {
                    assert(!row_sound(rows[i as int], receipt_view(receipts@[i as int])));
                    return Err(OpenError::Corrupt);
                },
            };
            if !same_bytes(receipt.nonce.as_slice(), nonce_bytes.as_slice()) || !same_bytes(
                receipt.idem.as_slice(),
                record.idem.as_slice(),
            ) || receipt.resource != record.resource {
                assert(!row_sound(rows[i as int], receipt_view(receipts@[i as int])));
                return Err(OpenError::Corrupt);
            }
            let mut stored: Receipt = receipt.copy();
            stored.json = copy_bytes(log.rows[i][2].as_slice());
            let nonce: [u8; 32] = receipt.nonce;
            proof {
                assert(read[i as int] == receipt@);
                assert(stored@ == ReceiptView { json: rows[i as int][2], ..read[i as int] });
                assert(rows[i as int] =~= nonce_row(nonce, record@, stored@.json));
            }
            let ghost before: Map<[u8; 32], (NonceRecordView, ReceiptView)> = nonces.consumed();
            nonces.mark_used(&record.payment_ref);
            if !nonces.by_nonce.contains(&nonce) {
                nonces.by_nonce.insert(nonce, Consumed { record, receipt: stored });
            }
            proof {
                let after = nonces.consumed();
                assert(rows.take(i + 1) =~= rows.take(i as int).push(rows[i as int]));
                if before.dom().contains(nonce) {
                    assert(after == before);
                    lemma_on_log_grows(before, rows.take(i as int), rows[i as int]);
                } else {
                    assert(after == before.insert(nonce, (record_of(rows[i as int][1]), after[nonce].1)));
                    lemma_on_log_fresh(before, after, rows.take(i as int), nonce, rows[i as int]);
                }
                lemma_log_known_grows(before, after, rows.take(i as int), nonce, rows[i as int]);
            }
            i = i + 1;
        }
        proof {
            lemma_log_cut(contents, 3);
            assert(rows.take(rows.len() as int) =~= rows);
        }
        let mut medium: F = log.medium;
        let valid: u64 = log.valid as u64;
        if log.valid != log.total {
            if !medium.cut(valid) {
                return Err(OpenError::Io);
            }
        } else {
            assert(contents.take(valid as int) =~= contents);
        }
        if !medium.seek(valid) {
            return Err(OpenError::Io);
        }
        Ok(WalMerchantStore { nonces, medium, len: valid, poisoned: false })
    }

    /// Whether the store has poisoned itself; it then consumes nothing more.
    pub fn is_poisoned(&self) -> (r: bool)
        ensures
            r == self.poisoned(),
    {
        self.poisoned
    }

    /// The medium, with the log on it.
    pub fn into_medium(self) -> (medium: F)
        ensures
            medium.contents() == self.log(),
            medium.writable() == self.writable(),
    {
        self.medium
    }
}

proof fn lemma_same_array(a: [u8; 32], b: [u8; 32])
    requires
        a@ == b@,
    ensures
        a == b,
{
    assert forall|i: int| 0 <= i < 32 implies a[i] == b[i] by {
        assert(a@[i] == b@[i]);
    }
    assert(a =~= b);
}

proof fn lemma_restored_first(
    rows: Seq<Seq<Seq<u8>>>,
    receipts: Seq<ReceiptView>,
    nonce: [u8; 32],
    i: int,
    n: nat,
)
    requires
        first_of(rows, nonce, i),
        n <= rows.len(),
        forall|j: int| 0 <= j < n ==> (#[trigger] receipts[j]).nonce@ == rows[j][0],
    ensures
        n <= i ==> !restored(rows, receipts, n).0.dom().contains(nonce),
        n > i ==> restored(rows, receipts, n).0.contains_pair(
            nonce,
            (record_of(rows[i][1]), ReceiptView { json: rows[i][2], ..receipts[i] }),
        ),
        n > i ==> ref_keys(record_of(rows[i][1]).payment_ref).subset_of(restored(rows, receipts, n).1),
    decreases n,
{
    if n > 0 {
        lemma_restored_first(rows, receipts, nonce, i, (n - 1) as nat);
        assert(receipts[n - 1].nonce@ == rows[n - 1][0]);
        if n - 1 < i {
            assert(rows[n - 1][0] != nonce@);
        } else if n - 1 == i {
            lemma_same_array(receipts[i].nonce, nonce);
        }
    }
}

/// A consumed nonce survives a restart: when the log of a store is replayed, with the
/// receipts that `read` reads from its rows, every nonce that the store holds is
/// consumed again under the same record, with the receipt read from the same bytes,
/// and the references of its payment are used up again. Where `read` gives back what
/// was written, the receipt is the same.
pub proof fn law_restart_keeps_nonces<F: LogMedium>(
    store: WalMerchantStore<F>,
    read: spec_fn(Seq<u8>) -> Option<ReceiptView>,
    receipts: Seq<ReceiptView>,
    nonce: [u8; 32],
)
    requires
        store.wf(),
        ({
            let rows = rows_from(store.log(), 0, 3);
            &&& receipts.len() == rows.len()
            &&& forall|i: int|
                0 <= i < rows.len() ==> row_sound(#[trigger] rows[i], Some(receipts[i])) && read(rows[i][2])
                    == Some(receipts[i])
        }),
        store.consumed().dom().contains(nonce),
    ensures
        ({
            let rows = rows_from(store.log(), 0, 3);
            let (consumed, used) = restored(rows, receipts, rows.len());
            let (record, receipt) = store.consumed()[nonce];
            &&& read(receipt.json) is Some
            &&& consumed.contains_pair(
                nonce,
                (record, ReceiptView { json: receipt.json, ..read(receipt.json)->0 }),
            )
            &&& read(receipt.json) == Some(receipt) ==> consumed[nonce] == (record, receipt)
            &&& ref_keys(record.payment_ref).subset_of(used)
        }),
{
    let rows = rows_from(store.log(), 0, 3);
    let (record, receipt) = store.consumed()[nonce];
    assert(logged(rows, nonce, record, receipt.json));
    let i = choose|i: int| #[trigger]
        first_of(rows, nonce, i) && rows[i] == nonce_row(nonce, record, receipt.json);
    assert(row_sound(rows[i], Some(receipts[i])));
    assert(rows[i][1] == record_bytes(record) && rows[i][2] == receipt.json);
    lemma_sound_nonces(rows, receipts);
    lemma_restored_first(rows, receipts, nonce, i, rows.len());
    law_record_bytes_injective(record, record_of(rows[i][1]));
}

proof fn lemma_sound_nonces(rows: Seq<Seq<Seq<u8>>>, receipts: Seq<ReceiptView>)
    requires
        receipts.len() == rows.len(),
        forall|i: int| 0 <= i < rows.len() ==> row_sound(#[trigger] rows[i], Some(receipts[i])),
    ensures
        forall|j: int| 0 <= j < rows.len() ==> (#[trigger] receipts[j]).nonce@ == rows[j][0],
{
    assert forall|j: int| 0 <= j < rows.len() implies (#[trigger] receipts[j]).nonce@ == rows[j][0] by {
        assert(row_sound(rows[j], Some(receipts[j])));
    }
}

/// A payment that was consumed under one nonce is refused under every other.
pub proof fn law_payment_backs_one_nonce<S: MerchantStore>(
    before: S,
    nonce: [u8; 32],
    record: NonceRecordView,
    other: [u8; 32],
    again: NonceRecordView,
    r: Peek,
)
    requires
        before.consumed().dom().contains(nonce),
        before.consumed()[nonce].0 == record,
        refs_follow(before.consumed(), before.used()),
        other != nonce,
        exists|key: Seq<char>| #[trigger]
            ref_keys(record.payment_ref).contains(key) && ref_keys(again.payment_ref).contains(key),
        !before.consumed().dom().contains(other),
        peeked(before.consumed(), before.used(), other, again, r),
    ensures
        r is Replayed,
{
    let key = choose|key: Seq<char>| #[trigger]
        ref_keys(record.payment_ref).contains(key) && ref_keys(again.payment_ref).contains(key);
    assert(before.used().contains(key));
}

impl<F: LogMedium> MerchantStore for WalMerchantStore<F> {
    closed spec fn consumed(&self) -> Map<[u8; 32], (NonceRecordView, ReceiptView)> {
        self.nonces.consumed()
    }

    closed spec fn used(&self) -> Set<Seq<char>> {
        self.nonces.used()
    }

    closed spec fn wf(&self) -> bool {
        self.sound()
    }

    /// A poisoned store is unavailable. Else an exact retry gets the stored receipt, a
    /// replay is refused, and a fresh nonce is consumed wherever its row can be written:
    /// the row is then on the medium. Only a fresh nonce changes the store, and one that
    /// could not be recorded leaves at most a part of its row behind.
    open spec fn answered(
        &self,
        nonce: [u8; 32],
        record: NonceRecordView,
        built: spec_fn(Receipt) -> bool,
        after: &Self,
        r: Result<Receipt, StoreError>,
    ) -> bool {
        let fresh = nonce_fresh(self.consumed(), self.used(), nonce, record);
        &&& self.writable() ==> after.writable()
        &&& self.poisoned() ==> r == Err::<Receipt, StoreError>(StoreError::Unavailable)
        &&& self.poisoned() || !fresh || !recordable(record) ==> *after == *self
        &&& !self.poisoned() ==> {
            &&& !fresh ==> r != Err::<Receipt, StoreError>(StoreError::Unavailable)
            &&& fresh && !recordable(record) ==> r == Err::<Receipt, StoreError>(StoreError::Unavailable)
            &&& fresh && recordable(record) && self.writable() && receipts_fit(built) ==> r is Ok
        }
        &&& match r {
            Ok(receipt) => {
                &&& !after.poisoned()
                &&& fresh ==> after.log() == self.log() + row(nonce_row(nonce, record, receipt@.json))
            },
            Err(StoreError::Replayed) => !fresh,
            Err(StoreError::Unavailable) => {
                &&& self.writable() ==> *after == *self
                &&& after.poisoned() || after.log() == self.log()
                &&& after.log() == self.log() || exists|b: Receipt, cut: int|
                    {
                        &&& #[trigger] built(b)
                        &&& 0 <= cut <= row(nonce_row(nonce, record, b@.json)).len()
                        &&& after.log() == self.log() + #[trigger] row(
                            nonce_row(nonce, record, b@.json),
                        ).take(cut)
                    }
            },
        }
    }

    fn peek(&self, nonce: [u8; 32], record: &NonceRecord) -> (r: Peek) {
        self.nonces.peek(nonce, record)
    }

    fn consume_nonce<B: FnOnce() -> Receipt>(
        &mut self,
        nonce: [u8; 32],
        record: &NonceRecord,
        build: B,
    ) -> (r: Result<Receipt, StoreError>)
        ensures
            r is Ok ==> !final(self).poisoned(),
            r == Err::<Receipt, StoreError>(StoreError::Replayed) ==> *final(self) == *old(self),
    {
        if self.poisoned {
            return Err(StoreError::Unavailable);
        }
        match self.nonces.peek(nonce, record) {
            Peek::Stored(receipt) => {
                return Ok(*receipt);
            },
            Peek::Replayed => {
                return Err(StoreError::Replayed);
            },
            Peek::Fresh => {},
        }
        let receipt: Receipt = build();
        proof {
            let built = |b: Receipt| build.ensures((), b);
            assert(built(receipt));
        }
        let encoded: Vec<u8> = match encode_record(record) {
            Some(encoded) => encoded,
            None => return Err(StoreError::Unavailable),
        };
        if encoded.len() > MAX_FIELD || receipt.json.len() > MAX_FIELD {
            return Err(StoreError::Unavailable);
        }
        let mut rec: Vec<u8> = Vec::new();
        frame(&mut rec, nonce.as_slice());
        frame(&mut rec, encoded.as_slice());
        frame(&mut rec, receipt.json.as_slice());
        let ghost log: Seq<u8> = self.medium.contents();
        let ghost fields: Seq<Seq<u8>> = nonce_row(nonce, record@, receipt@.json);
        proof {
            lemma_nonce_row(nonce, record@, receipt@.json);
            assert(rec@ =~= row(fields));
            lemma_log_append(log, fields);
        }
        let ghost rows: Seq<Seq<Seq<u8>>> = rows_from(log, 0, 3);
        if !self.medium.append(&rec) {
            proof {
                let cut = choose|cut: int|
                    0 <= cut <= rec@.len() && self.medium.contents() == log + #[trigger] rec@.take(cut);
                if cut < rec@.len() {
                    lemma_log_torn(log, fields, cut);
                } else {
                    assert(rec@.take(cut) =~= rec@);
                    lemma_on_log_grows(self.nonces.consumed(), rows, fields);
                }
                assert((log + rec@.take(cut)).take(log.len() as int) =~= log);
            }
            let len: u64 = self.len;
            let cut: bool = self.medium.cut(len);
            let seek: bool = self.medium.seek(len);
            if !cut || !seek {
                self.poisoned = true;
            }
            return Err(StoreError::Unavailable);
        }
        self.len = self.len + rec.len() as u64;
        let ghost before: Map<[u8; 32], (NonceRecordView, ReceiptView)> = self.nonces.consumed();
        self.nonces.put(nonce, record, &receipt);
        proof {
            let after = self.nonces.consumed();
            lemma_on_log_fresh(before, after, rows, nonce, fields);
            lemma_log_known_grows(before, after, rows, nonce, fields);
        }
        Ok(receipt)
    }
}

proof fn lemma_on_log_grows(
    consumed: Map<[u8; 32], (NonceRecordView, ReceiptView)>,
    rows: Seq<Seq<Seq<u8>>>,
    fields: Seq<Seq<u8>>,
)
    requires
        on_log(consumed, rows),
    ensures
        on_log(consumed, rows.push(fields)),
{
    let all = rows.push(fields);
    assert forall|n: [u8; 32]| #[trigger] consumed.dom().contains(n) implies logged(
        all,
        n,
        consumed[n].0,
        consumed[n].1.json,
    ) by {
        assert(logged(rows, n, consumed[n].0, consumed[n].1.json));
        let j = choose|j: int| #[trigger]
            first_of(rows, n, j) && rows[j] == nonce_row(n, consumed[n].0, consumed[n].1.json);
        assert(all[j] == rows[j]);
        assert forall|k: int| 0 <= k < j implies (#[trigger] all[k])[0] != n@ by {
            assert(all[k] == rows[k]);
        }
        assert(first_of(all, n, j));
    }
}

proof fn lemma_on_log_fresh(
    before: Map<[u8; 32], (NonceRecordView, ReceiptView)>,
    after: Map<[u8; 32], (NonceRecordView, ReceiptView)>,
    rows: Seq<Seq<Seq<u8>>>,
    nonce: [u8; 32],
    fields: Seq<Seq<u8>>,
)
    requires
        on_log(before, rows),
        log_known(before, rows),
        !before.dom().contains(nonce),
        after == before.insert(nonce, after[nonce]),
        record_fits(after[nonce].0),
        fields == nonce_row(nonce, after[nonce].0, after[nonce].1.json),
    ensures
        on_log(after, rows.push(fields)),
{
    lemma_on_log_grows(before, rows, fields);
    let all = rows.push(fields);
    let at = rows.len() as int;
    assert(first_of(all, nonce, at)) by {
        assert forall|j: int| 0 <= j < at implies (#[trigger] all[j])[0] != nonce@ by {
            assert(all[j] == rows[j]);
            assert(row_known(before, rows[j]));
            let n = choose|n: [u8; 32]| #[trigger] before.dom().contains(n) && rows[j][0] == n@;
            if n@ == nonce@ {
                lemma_same_array(n, nonce);
            }
        }
    }
    assert forall|n: [u8; 32]| #[trigger] after.dom().contains(n) implies logged(
        all,
        n,
        after[n].0,
        after[n].1.json,
    ) by {
        if n == nonce {
            assert(all[at] == fields);
        } else {
            assert(before.dom().contains(n));
            assert(after[n] == before[n]);
        }
    }
}

proof fn lemma_log_known_grows(
    before: Map<[u8; 32], (NonceRecordView, ReceiptView)>,
    after: Map<[u8; 32], (NonceRecordView, ReceiptView)>,
    rows: Seq<Seq<Seq<u8>>>,
    nonce: [u8; 32],
    fields: Seq<Seq<u8>>,
)
    requires
        log_known(before, rows),
        after.dom().contains(nonce),
        forall|n: [u8; 32]| #[trigger] before.dom().contains(n) ==> after.dom().contains(n),
        fields[0] == nonce@,
    ensures
        log_known(after, rows.push(fields)),
{
    let all = rows.push(fields);
    assert forall|i: int| 0 <= i < all.len() implies row_known(after, #[trigger] all[i]) by {
        if i < rows.len() {
            assert(all[i] == rows[i]);
            assert(row_known(before, rows[i]));
            let n = choose|n: [u8; 32]| #[trigger] before.dom().contains(n) && rows[i][0] == n@;
            assert(after.dom().contains(n));
        } else {
            assert(after.dom().contains(nonce));
        }
    }
}

proof fn lemma_nonce_row(nonce: [u8; 32], record: NonceRecordView, json: Seq<u8>)
    requires
        record_bytes(record).len() <= MAX_FIELD,
        json.len() <= MAX_FIELD,
    ensures
        row_fits(nonce_row(nonce, record, json)),
        row(nonce_row(nonce, record, json)) =~= field(nonce@) + field(record_bytes(record)) + field(json),
{
    let fields = nonce_row(nonce, record, json);
    assert(fields.drop_first() =~= seq![record_bytes(record), json]);
    assert(fields.drop_first().drop_first() =~= seq![json]);
    assert(fields.drop_first().drop_first().drop_first() =~= Seq::empty());
    reveal_with_fuel(row, 4);
}

/// A payment with one reference uses up that reference, and no other.
pub proof fn law_a_single_reference_uses_up_itself(reference: Seq<char>, name: Seq<char>, used: Set<Seq<char>>)
    requires
        !reference.contains('|'),
    ensures
        ref_keys(reference).contains(name) <==> name == reference,
        refs_taken(used, reference) <==> used.contains(reference),
{
    assert forall|key: Seq<char>| #[trigger] ref_keys(reference).contains(key) implies key == reference by {
        if is_net_part(reference, key) {
            assert(reference.contains(reference[reference.len() - key.len() - 1]));
        }
    }
    assert(ref_keys(reference).contains(reference));
}

/// What consuming a nonce did is settled by what was consumed before. A receipt is given for a
/// nonce that stands then under exactly this decision, with this receipt; a nonce that stood
/// under another decision, or whose payment backs another, is given none; and nothing but
/// the one nonce and the references of its payment is ever added.
pub proof fn law_a_nonce_stands_under_one_decision(
    before: (Map<[u8; 32], (NonceRecordView, ReceiptView)>, Set<Seq<char>>),
    after: (Map<[u8; 32], (NonceRecordView, ReceiptView)>, Set<Seq<char>>),
    nonce: [u8; 32],
    record: NonceRecordView,
    built: spec_fn(Receipt) -> bool,
    r: Result<Receipt, StoreError>,
)
    requires
        consumption(before, after, nonce, record, built, r),
    ensures
        r matches Ok(receipt) ==> after.0.dom().contains(nonce) && after.0[nonce].0 == record && after.0[nonce].1
            == receipt@,
        before.0.dom().contains(nonce) && before.0[nonce].0 != record ==> r is Err,
        !before.0.dom().contains(nonce) && (exists|key: Seq<char>| #[trigger]
            before.1.contains(key) && (key == record.payment_ref || is_net_part(record.payment_ref, key)))
            ==> r is Err,
        r == Err::<Receipt, StoreError>(StoreError::Replayed) ==> before.0.dom().contains(nonce) || exists|
            key: Seq<char>,
        | #[trigger]
            before.1.contains(key) && (key == record.payment_ref || is_net_part(record.payment_ref, key)),
        before.0.contains_pair(nonce, (record, before.0[nonce].1)) ==> r != Err::<Receipt, StoreError>(
            StoreError::Replayed,
        ),
        r is Err ==> after == before,
        before.0.dom().contains(nonce) ==> after == before,
        forall|other: [u8; 32]|
            other != nonce ==> (#[trigger] after.0.dom().contains(other) <==> before.0.dom().contains(other))
                && (before.0.dom().contains(other) ==> after.0[other] == before.0[other]),
        r is Ok && !before.0.dom().contains(nonce) ==> {
            &&& after.1.contains(record.payment_ref)
            &&& forall|key: Seq<char>| #[trigger]
                after.1.contains(key) <==> before.1.contains(key) || key == record.payment_ref || is_net_part(
                    record.payment_ref,
                    key,
                )
            &&& exists|b: Receipt| #[trigger] built(b) && b@ == (r->Ok_0)@
        },
{
    if exists|key: Seq<char>| #[trigger]
        before.1.contains(key) && (key == record.payment_ref || is_net_part(record.payment_ref, key)) {
        let key = choose|key: Seq<char>| #[trigger]
            before.1.contains(key) && (key == record.payment_ref || is_net_part(record.payment_ref, key));
        assert(ref_keys(record.payment_ref).contains(key));
        assert(refs_taken(before.1, record.payment_ref));
    }
    if refs_taken(before.1, record.payment_ref) {
        let key = choose|key: Seq<char>| #[trigger]
            ref_keys(record.payment_ref).contains(key) && before.1.contains(key);
        assert(before.1.contains(key));
    }
    if r is Ok && !before.0.dom().contains(nonce) {
        assert(ref_keys(record.payment_ref).contains(record.payment_ref));
        assert forall|key: Seq<char>| #[trigger] after.1.contains(key) <==> before.1.contains(key) || key
            == record.payment_ref || is_net_part(record.payment_ref, key) by {
            assert(ref_keys(record.payment_ref).contains(key) <==> key == record.payment_ref || is_net_part(
                record.payment_ref,
                key,
            ));
        }
    }
}

/// A look at a nonce says what consuming it would: the stored receipt for its own decision,
/// a replay for another or for a payment that is used up, and fresh for neither.
pub proof fn law_a_look_tells_what_consuming_would(
    consumed: Map<[u8; 32], (NonceRecordView, ReceiptView)>,
    used: Set<Seq<char>>,
    nonce: [u8; 32],
    record: NonceRecordView,
    p: Peek,
)
    requires
        peeked(consumed, used, nonce, record, p),
        !record.payment_ref.contains('|'),
    ensures
        p is Fresh <==> !consumed.dom().contains(nonce) && !used.contains(record.payment_ref),
        p matches Peek::Stored(receipt) ==> consumed.dom().contains(nonce) && consumed[nonce].0 == record
            && consumed[nonce].1 == receipt@,
        consumed.dom().contains(nonce) && consumed[nonce].0 == record ==> p is Stored,
{
    law_a_single_reference_uses_up_itself(record.payment_ref, record.payment_ref, used);
}

/// A record can be framed exactly where the length of each of its texts fits four bytes.
pub proof fn law_which_records_can_be_framed(r: NonceRecordView)
    ensures
        record_fits(r) <==> {
            &&& encode_utf8(r.payment_ref).len() <= 0xffff_ffff
            &&& r.idem.len() <= 0xffff_ffff
            &&& encode_utf8(r.resource).len() <= 0xffff_ffff
        },
{
}

/// A recorded row is taken over exactly with the receipt that it was written for: of its nonce,
/// its idempotency key and its resource.
pub proof fn law_which_rows_are_taken_over(
    nonce: [u8; 32],
    record: NonceRecordView,
    json: Seq<u8>,
    receipt: ReceiptView,
)
    requires
        record_fits(record),
    ensures
        row_sound(nonce_row(nonce, record, json), Some(receipt)) <==> {
            &&& receipt.nonce@ == nonce@
            &&& receipt.idem == record.idem
            &&& receipt.resource == record.resource
        },
        !row_sound(nonce_row(nonce, record, json), None),
{
    let bytes = nonce_row(nonce, record, json)[1];
    assert(bytes == record_bytes(record));
    assert(is_record(bytes));
    law_record_bytes_injective(record, record_of(bytes));
}

} // verus!
