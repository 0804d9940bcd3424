//! Channel establishment: which channels a merchant accepts, and what it keeps
//! of each.
//!
//! An identifier is accepted once. A byte-identical retransmission gets the
//! stored acknowledgment and changes nothing; any other use of a retained
//! identifier is a replay. A chained successor opens at the position its
//! predecessor left, exactly once, or not at all.

use vstd::prelude::*;
use vstd::utf8::{encode_utf8, encode_utf8_decode_utf8};

use crate::bignat::BigNat;
use crate::bytes::{
    be_bytes, be_encode, copy_array, copy_bytes, extend, lemma_concat, lemma_number_then,
    lemma_octet_then, lemma_pow256_values, same_array,
};
use crate::framing::{field, frame, lemma_field_then, MAX_FIELD};
use crate::keys::{chopen_key, chopen_ns, chopen_prefix, open_key_bytes, strip_prefix, stripped};
use crate::meed::{copy_rows, rows_nat};
use crate::one_decision::{
    claim, claimed_in, in_order, keeps, recorded_in, Decision, OneDecisionStore,
};
use crate::rail::texts;
use crate::table::{Key, Table};

verus! {

/// How far a timestamp may lie from the merchant's clock: skew and latency.
pub const ACCEPT_WINDOW_SECS: u64 = 600;

/// How a channel is paid.
#[derive(Debug, Clone, Copy, PartialEq, Eq, Structural)]
pub enum Mode {
    /// The payer settles what was metered.
    Postpay,
    /// The payer deposits, and consumption is taken from the deposit.
    Prepay,
}

/// A channel at one of its checkpoints.
#[derive(Debug, Clone, Copy, PartialEq, Eq)]
pub struct CheckpointKey {
    pub channel: [u8; 8],
    pub ckpt_ref: [u8; 32],
}

impl Key for CheckpointKey {
    fn same(&self, other: &Self) -> (r: bool) {
        same_array(&self.channel, &other.channel) && same_array(&self.ckpt_ref, &other.ckpt_ref)
    }
}

/// Why an open was refused.
#[derive(Debug, Clone, Copy, PartialEq, Eq)]
pub enum ChannelError {
    /// The authorization names another merchant.
    WrongMerchant,
    /// The authorization does not verify, or its meed vector is not governed.
    BadAuth,
    /// The timestamp lies outside the acceptance window.
    TimestampOutOfWindow,
    /// The identifier was used before, with other terms or for a channel that
    /// has ended.
    ChannelReplay,
    /// The predecessor's checkpoint was imported before.
    ChainReplay,
    /// The predecessor's position cannot be imported.
    ChainRejected,
    /// The acceptance could not be recorded.
    StoreUnavailable,
    /// The sealed secret does not open.
    SealInvalid,
    /// The secret is not the committed one.
    HsMismatch,
    /// The channel is not denominated in the baseline asset.
    OffBaselineUnsupported,
}

/// One seat of the meed vector.
#[derive(Debug)]
pub struct VectorEntry {
    pub role: u8,
    pub bp: u16,
    pub dest: String,
}

/// The payer's authorization of a channel.
#[derive(Debug)]
pub struct ChannelAuth {
    pub payer_key: [u8; 32],
    pub channel_id: [u8; 8],
    pub merchant_key: [u8; 32],
    pub denom: String,
    pub mode: Mode,
    pub th_value: u128,
    pub th_time: u64,
    pub refund_ptr: Option<String>,
    pub baseline_net: String,
    pub baseline_asset: String,
    pub vector: Vec<VectorEntry>,
    pub predecessor: Option<CheckpointKey>,
    pub timestamp: u64,
    pub fin_meed: String,
    pub fin_denom: String,
}

/// The terms of a channel that its funding and settlement are held to.
#[derive(Debug)]
pub struct SettlementTerms {
    pub denom: String,
    pub baseline_asset: String,
    /// The network of the baseline rail, not the asset on it.
    pub baseline_net: String,
    /// The destinations a round's outputs may name.
    pub bound_dests: Vec<String>,
    /// Whether a round must carry a conversion.
    pub conversion_required: bool,
    /// Where funding and net legs land.
    pub settle_ptr: String,
    /// The finality that funding and net legs must reach.
    pub fin_denom: String,
    /// The finality that the meed leg must reach.
    pub fin_meed: String,
    /// The seed of the channel's meed instance.
    pub seed_instance: [u8; 32],
    /// Where an unconsumed deposit goes at close.
    pub refund_ptr: Option<String>,
    pub th_value: u128,
    pub th_time: u64,
}

/// What [`SettlementTerms`] say.
#[verifier::ext_equal]
pub struct TermsView {
    pub denom: Seq<char>,
    pub baseline_asset: Seq<char>,
    pub baseline_net: Seq<char>,
    pub bound_dests: Seq<Seq<char>>,
    pub conversion_required: bool,
    pub settle_ptr: Seq<char>,
    pub fin_denom: Seq<char>,
    pub fin_meed: Seq<char>,
    pub seed_instance: [u8; 32],
    pub refund_ptr: Option<Seq<char>>,
    pub th_value: u128,
    pub th_time: u64,
}

/// The contents of an optional string.
pub open spec fn text_option(s: Option<String>) -> Option<Seq<char>> {
    match s {
        Some(s) => Some(s@),
        None => None,
    }
}

impl View for SettlementTerms {
    type V = TermsView;

    open spec fn view(&self) -> TermsView {
        TermsView {
            denom: self.denom@,
            baseline_asset: self.baseline_asset@,
            baseline_net: self.baseline_net@,
            bound_dests: texts(self.bound_dests@),
            conversion_required: self.conversion_required,
            settle_ptr: self.settle_ptr@,
            fin_denom: self.fin_denom@,
            fin_meed: self.fin_meed@,
            seed_instance: self.seed_instance,
            refund_ptr: text_option(self.refund_ptr),
            th_value: self.th_value,
            th_time: self.th_time,
        }
    }
}

/// The reconciled position that a successor opens at.
#[derive(Debug)]
pub struct ChainSnapshot {
    pub cum_total: u128,
    pub accruals: Vec<(u8, BigNat)>,
    pub opening_settled_r: Vec<(u8, BigNat)>,
    pub opening_net_legs: u128,
    pub opening_funding: u128,
    pub imported_balance: i128,
    pub payer_key: [u8; 32],
    pub mode: Mode,
    pub terms_fingerprint: [u8; 32],
    /// When the chain was established; a successor inherits it.
    pub established_at: u64,
}

/// What a [`ChainSnapshot`] says.
#[verifier::ext_equal]
pub struct SnapshotView {
    pub cum_total: u128,
    pub accruals: Seq<(u8, nat)>,
    pub opening_settled_r: Seq<(u8, nat)>,
    pub opening_net_legs: u128,
    pub opening_funding: u128,
    pub imported_balance: i128,
    pub payer_key: [u8; 32],
    pub mode: Mode,
    pub terms_fingerprint: [u8; 32],
    pub established_at: u64,
}

impl View for ChainSnapshot {
    type V = SnapshotView;

    open spec fn view(&self) -> SnapshotView {
        SnapshotView {
            cum_total: self.cum_total,
            accruals: rows_nat(self.accruals@),
            opening_settled_r: rows_nat(self.opening_settled_r@),
            opening_net_legs: self.opening_net_legs,
            opening_funding: self.opening_funding,
            imported_balance: self.imported_balance,
            payer_key: self.payer_key,
            mode: self.mode,
            terms_fingerprint: self.terms_fingerprint,
            established_at: self.established_at,
        }
    }
}

/// What a successor's ledger starts from.
#[derive(Debug)]
pub struct LedgerOpenings {
    pub settled_r: Vec<(u8, BigNat)>,
    pub net_legs: u128,
    pub funding: u128,
}

/// A position to import: the metering state a successor starts with, and the
/// openings of its ledger.
#[derive(Debug)]
pub struct ImportPlan {
    pub cum_total: u128,
    /// The accruals in the order of the successor's vector.
    pub accruals: Vec<BigNat>,
    pub imported_balance: i128,
    pub openings: LedgerOpenings,
    pub established_at: u64,
}

/// What is kept of an accepted channel.
struct Retained {
    auth_hash: [u8; 32],
    open_hash: [u8; 32],
    payer_key: [u8; 32],
    ack: Vec<u8>,
    terminated: bool,
    terms: SettlementTerms,
}

/// What is kept of an accepted channel.
#[verifier::ext_equal]
pub struct RetainedView {
    pub auth_hash: [u8; 32],
    pub open_hash: [u8; 32],
    pub payer_key: [u8; 32],
    pub ack: Seq<u8>,
    pub terminated: bool,
    pub terms: TermsView,
}

impl View for Retained {
    type V = RetainedView;

    closed spec fn view(&self) -> RetainedView {
        RetainedView {
            auth_hash: self.auth_hash,
            open_hash: self.open_hash,
            payer_key: self.payer_key,
            ack: self.ack@,
            terminated: self.terminated,
            terms: self.terms@,
        }
    }
}

/// What the caller found out about an open before any decision.
#[derive(Debug, Clone, Copy)]
pub struct OpenFacts {
    /// Whether the payer's signature verifies.
    pub verified: bool,
    /// Whether the meed vector is the governed one.
    pub governed: bool,
    /// The hash of the authorization, where it can be formed.
    pub auth_hash: Option<[u8; 32]>,
    /// The hash of the whole open object, where it can be formed.
    pub open_hash: Option<[u8; 32]>,
}

/// An open that is not refused.
#[derive(Debug)]
pub enum OpenOutcome {
    /// A retransmission of an acknowledged open: send this acknowledgment again
    /// and change nothing.
    Retransmit(Vec<u8>),
    /// A channel to be established, with the hashes of its open.
    Fresh { auth_hash: [u8; 32], open_hash: [u8; 32] },
}

/// What opening the sealed secret gave.
#[derive(Debug, Clone, Copy)]
pub enum Unsealed {
    /// The authorization has no canonical form to open it under.
    NoContext,
    /// The seal does not open.
    Invalid,
    /// The seal opens; `committed` says whether the secret is the committed one.
    Opened { committed: bool },
}

/// A channel that was established.
#[derive(Debug)]
pub struct Established {
    pub channel_id: [u8; 8],
    pub auth_hash: [u8; 32],
    pub ack: Vec<u8>,
    pub th_value: u128,
    pub th_time: u64,
    pub established_at: u64,
    /// What the ledger starts from, for a chained channel.
    pub ledger_openings: Option<LedgerOpenings>,
}

/// The merchant's side of establishment.
pub struct ChannelDriver {
    key: [u8; 32],
    enc_key: [u8; 32],
    settle_ptr: String,
    retained: Table<[u8; 8], Retained>,
    consumed_chain_refs: Table<CheckpointKey, bool>,
    chain_snapshots: Table<CheckpointKey, ChainSnapshot>,
    tombstones: Table<[u8; 8], bool>,
}

/// What a [`ChannelDriver`] holds.
#[verifier::ext_equal]
pub struct DriverView {
    pub key: [u8; 32],
    pub enc_key: [u8; 32],
    pub settle_ptr: Seq<char>,
    /// The channels accepted in this life.
    pub retained: Map<[u8; 8], RetainedView>,
    /// The predecessor checkpoints that were imported.
    pub chained: Set<CheckpointKey>,
    /// The positions that can be imported.
    pub snapshots: Map<CheckpointKey, SnapshotView>,
    /// The identifiers accepted in an earlier life.
    pub tombstones: Set<[u8; 8]>,
}

impl View for ChannelDriver {
    type V = DriverView;

    closed spec fn view(&self) -> DriverView {
        DriverView {
            key: self.key,
            enc_key: self.enc_key,
            settle_ptr: self.settle_ptr@,
            retained: self.retained@,
            chained: self.consumed_chain_refs@.dom(),
            snapshots: self.chain_snapshots@,
            tombstones: self.tombstones@.dom(),
        }
    }
}

/// The terms that a successor must share with its predecessor.
#[verifier::ext_equal]
pub struct ChainTerms {
    pub mode: Mode,
    pub seed_instance: [u8; 32],
    pub denom: Seq<char>,
    pub baseline_net: Seq<char>,
    pub fin_meed: Seq<char>,
    pub fin_denom: Seq<char>,
    pub th_value: u128,
    pub th_time: u64,
}

/// The octet of a mode.
pub open spec fn mode_octet(mode: Mode) -> u8 {
    match mode {
        Mode::Postpay => 1,
        Mode::Prepay => 0,
    }
}

/// The bytes that the identical-terms fingerprint of a chain is taken over: the
/// mode, the instance seed, the framed denomination, baseline network and two
/// finality levels, and the two thresholds.
pub open spec fn chain_terms_bytes(t: ChainTerms) -> Seq<u8> {
    seq![mode_octet(t.mode)] + t.seed_instance@ + field(encode_utf8(t.denom)) + field(
        encode_utf8(t.baseline_net),
    ) + field(encode_utf8(t.fin_meed)) + field(encode_utf8(t.fin_denom)) + be_bytes(
        t.th_value as nat,
        16,
    ) + be_bytes(t.th_time as nat, 8)
}

/// Whether every text of the terms can be framed.
pub open spec fn chain_terms_fit(t: ChainTerms) -> bool {
    text_fits(t.denom) && text_fits(t.baseline_net) && text_fits(t.fin_meed) && text_fits(t.fin_denom)
}

/// Whether a text can be framed.
pub open spec fn text_fits(s: Seq<char>) -> bool {
    encode_utf8(s).len() <= MAX_FIELD
}

/// The bytes that the identical-terms fingerprint of a chain is taken over.
pub fn chain_terms_preimage(
    mode: Mode,
    seed_instance: &[u8; 32],
    denom: &str,
    baseline_net: &str,
    fin_meed: &str,
    fin_denom: &str,
    th_value: u128,
    th_time: u64,
) -> (body: Vec<u8>)
    requires
        text_fits(denom@),
        text_fits(baseline_net@),
        text_fits(fin_meed@),
        text_fits(fin_denom@),
    ensures
        body@ == chain_terms_bytes(
            ChainTerms {
                mode,
                seed_instance: *seed_instance,
                denom: denom@,
                baseline_net: baseline_net@,
                fin_meed: fin_meed@,
                fin_denom: fin_denom@,
                th_value,
                th_time,
            },
        ),
{
    let mut body: Vec<u8> = Vec::new();
    match mode {
        Mode::Postpay => body.push(1),
        Mode::Prepay => body.push(0),
    }
    assert(body@ =~= seq![mode_octet(mode)]);
    extend(&mut body, seed_instance.as_slice());
    frame(&mut body, denom.as_bytes());
    frame(&mut body, baseline_net.as_bytes());
    frame(&mut body, fin_meed.as_bytes());
    frame(&mut body, fin_denom.as_bytes());
    let value: Vec<u8> = be_encode(th_value, 16);
    extend(&mut body, value.as_slice());
    let time: Vec<u8> = be_encode(th_time as u128, 8);
    extend(&mut body, time.as_slice());
    body
}

proof fn lemma_regroup(
    a: Seq<u8>,
    b: Seq<u8>,
    c: Seq<u8>,
    d: Seq<u8>,
    e: Seq<u8>,
    f: Seq<u8>,
    g: Seq<u8>,
    h: Seq<u8>,
)
    ensures
        a + b + c + d + e + f + g + h == a + (b + (c + (d + (e + (f + (g + (h + Seq::<u8>::empty()))))))),
{
    assert(a + b + c + d + e + f + g + h =~= a + (b + (c + (d + (e + (f + (g + (h
        + Seq::<u8>::empty()))))))));
}

/// The identical-terms bytes of two channels are equal only where every term is
/// equal: a successor that differs in any of them has other bytes.
pub proof fn law_chain_terms_determined(a: ChainTerms, b: ChainTerms)
    requires
        chain_terms_fit(a),
        chain_terms_fit(b),
        chain_terms_bytes(a) == chain_terms_bytes(b),
    ensures
        a == b,
{
    lemma_pow256_values();
    let none = Seq::<u8>::empty();
    let (sa, sb) = (a.seed_instance@, b.seed_instance@);
    let (da, db) = (encode_utf8(a.denom), encode_utf8(b.denom));
    let (na, nb) = (encode_utf8(a.baseline_net), encode_utf8(b.baseline_net));
    let (ma, mb) = (encode_utf8(a.fin_meed), encode_utf8(b.fin_meed));
    let (fa, fb) = (encode_utf8(a.fin_denom), encode_utf8(b.fin_denom));
    let (va, vb) = (be_bytes(a.th_value as nat, 16), be_bytes(b.th_value as nat, 16));
    let (ta, tb) = (be_bytes(a.th_time as nat, 8), be_bytes(b.th_time as nat, 8));
    lemma_regroup(seq![mode_octet(a.mode)], sa, field(da), field(na), field(ma), field(fa), va, ta);
    lemma_regroup(seq![mode_octet(b.mode)], sb, field(db), field(nb), field(mb), field(fb), vb, tb);
    let (a7, b7) = (ta + none, tb + none);
    let (a6, b6) = (va + a7, vb + b7);
    let (a5, b5) = (field(fa) + a6, field(fb) + b6);
    let (a4, b4) = (field(ma) + a5, field(mb) + b5);
    let (a3, b3) = (field(na) + a4, field(nb) + b4);
    let (a2, b2) = (field(da) + a3, field(db) + b3);
    lemma_octet_then(mode_octet(a.mode), mode_octet(b.mode), sa + a2, sb + b2);
    lemma_concat(sa, sb, a2, b2);
    lemma_field_then(da, db, a3, b3);
    lemma_field_then(na, nb, a4, b4);
    lemma_field_then(ma, mb, a5, b5);
    lemma_field_then(fa, fb, a6, b6);
    lemma_number_then(a.th_value as nat, b.th_value as nat, 16, a7, b7);
    lemma_number_then(a.th_time as nat, b.th_time as nat, 8, none, none);
    encode_utf8_decode_utf8(a.denom);
    encode_utf8_decode_utf8(b.denom);
    encode_utf8_decode_utf8(a.baseline_net);
    encode_utf8_decode_utf8(b.baseline_net);
    encode_utf8_decode_utf8(a.fin_meed);
    encode_utf8_decode_utf8(b.fin_meed);
    encode_utf8_decode_utf8(a.fin_denom);
    encode_utf8_decode_utf8(b.fin_denom);
    assert(a.seed_instance =~= b.seed_instance) by {
        assert forall|i: int| 0 <= i < 32 implies a.seed_instance[i] == b.seed_instance[i] by {
            assert(sa[i] == sb[i]);
        }
    }
}

/// Whether two times lie within the acceptance window of each other.
pub open spec fn in_window(now: u64, timestamp: u64) -> bool {
    now - timestamp <= ACCEPT_WINDOW_SECS && timestamp - now <= ACCEPT_WINDOW_SECS
}

fn within_window(now: u64, timestamp: u64) -> (r: bool)
    ensures
        r == in_window(now, timestamp),
{
    let diff: u64 = if now >= timestamp {
        now - timestamp
    } else {
        timestamp - now
    };
    diff <= ACCEPT_WINDOW_SECS
}

/// Why an open is refused before its seal is opened; `None` where it is not.
pub open spec fn refusal(
    d: DriverView,
    auth: ChannelAuth,
    facts: OpenFacts,
    now: u64,
) -> Option<ChannelError> {
    if auth.merchant_key != d.key {
        Some(ChannelError::WrongMerchant)
    } else if !facts.verified || !facts.governed {
        Some(ChannelError::BadAuth)
    } else if auth.denom@ != auth.baseline_asset@ {
        Some(ChannelError::OffBaselineUnsupported)
    } else if !in_window(now, auth.timestamp) {
        Some(ChannelError::TimestampOutOfWindow)
    } else if facts.auth_hash is None || facts.open_hash is None {
        Some(ChannelError::BadAuth)
    } else if d.tombstones.contains(auth.channel_id) {
        Some(ChannelError::ChannelReplay)
    } else if d.retained.dom().contains(auth.channel_id) {
        if retransmitted(d, auth.channel_id, facts) {
            None
        } else {
            Some(ChannelError::ChannelReplay)
        }
    } else if auth.predecessor is Some && d.chained.contains(auth.predecessor->0) {
        Some(ChannelError::ChainReplay)
    } else {
        None
    }
}

/// Whether an open is the one a live channel was accepted by.
pub open spec fn retransmitted(d: DriverView, channel: [u8; 8], facts: OpenFacts) -> bool {
    &&& d.retained.dom().contains(channel)
    &&& !d.retained[channel].terminated
    &&& facts.auth_hash == Some(d.retained[channel].auth_hash)
    &&& facts.open_hash == Some(d.retained[channel].open_hash)
}

/// Whether `rows` holds a row of `role`.
pub open spec fn has_role(rows: Seq<(u8, nat)>, role: u8) -> bool {
    exists|i: int| 0 <= i < rows.len() && (#[trigger] rows[i]).0 == role
}

/// Whether the position under `pred` can be imported by `auth`.
pub open spec fn importable(
    d: DriverView,
    pred: CheckpointKey,
    auth: ChannelAuth,
    terms_fp: [u8; 32],
) -> bool {
    &&& d.snapshots.dom().contains(pred)
    &&& d.snapshots[pred].payer_key == auth.payer_key
    &&& d.snapshots[pred].mode == auth.mode
    &&& auth.denom@ == auth.baseline_asset@
    &&& d.snapshots[pred].terms_fingerprint == terms_fp
    &&& forall|i: int|
        0 <= i < auth.vector@.len() ==> has_role(
            d.snapshots[pred].accruals,
            (#[trigger] auth.vector@[i]).role,
        )
}

/// Whether `plan` is the import of the position `snap` under `auth`.
pub open spec fn imports(snap: SnapshotView, auth: ChannelAuth, plan: ImportPlan) -> bool {
    &&& plan.cum_total == snap.cum_total
    &&& plan.imported_balance == snap.imported_balance
    &&& plan.established_at == snap.established_at
    &&& rows_nat(plan.openings.settled_r@) == snap.opening_settled_r
    &&& plan.openings.net_legs == snap.opening_net_legs
    &&& plan.openings.funding == snap.opening_funding
    &&& plan.accruals@.len() == auth.vector@.len()
    &&& forall|i: int|
        0 <= i < auth.vector@.len() ==> (#[trigger] plan.accruals@[i])@ == crate::meed::amount_of(
            snap.accruals,
            auth.vector@[i].role,
        )
}

/// The terms that an accepted authorization binds.
pub open spec fn bound_terms(auth: ChannelAuth, settle_ptr: Seq<char>, seed_instance: [u8; 32]) -> TermsView {
    TermsView {
        denom: auth.denom@,
        baseline_asset: auth.baseline_asset@,
        baseline_net: auth.baseline_net@,
        bound_dests: auth.vector@.map_values(|v: VectorEntry| v.dest@).push(settle_ptr),
        conversion_required: auth.denom@ != auth.baseline_asset@,
        settle_ptr,
        fin_denom: auth.fin_denom@,
        fin_meed: auth.fin_meed@,
        seed_instance,
        refund_ptr: text_option(auth.refund_ptr),
        th_value: auth.th_value,
        th_time: auth.th_time,
    }
}

/// The driver after it accepted a channel.
pub open spec fn accepted(
    d: DriverView,
    auth: ChannelAuth,
    auth_hash: [u8; 32],
    open_hash: [u8; 32],
    seed_instance: [u8; 32],
    ack: Seq<u8>,
) -> DriverView {
    DriverView {
        retained: d.retained.insert(
            auth.channel_id,
            RetainedView {
                auth_hash,
                open_hash,
                payer_key: auth.payer_key,
                ack,
                terminated: false,
                terms: bound_terms(auth, d.settle_ptr, seed_instance),
            },
        ),
        chained: match auth.predecessor {
            Some(pred) => d.chained.insert(pred),
            None => d.chained,
        },
        ..d
    }
}

/// Whether every accepted-channel record among `entries` names a channel.
pub open spec fn open_records_sound(entries: Seq<(Vec<u8>, Vec<u8>)>) -> bool {
    forall|i: int|
        0 <= i < entries.len() ==> (stripped((#[trigger] entries[i]).0@, chopen_ns()) matches Some(rest) ==> rest.len()
            == 8)
}

/// Whether `entries` records the acceptance of `channel`.
pub open spec fn records_open(entries: Seq<(Vec<u8>, Vec<u8>)>, channel: [u8; 8]) -> bool {
    exists|i: int| 0 <= i < entries.len() && (#[trigger] entries[i]).0@ == open_key_bytes(channel)
}

fn copy_option_text(s: &Option<String>) -> (r: Option<String>)
    ensures
        text_option(r) == text_option(*s),
{
    match s {
        Some(s) => Some(s.clone()),
        None => None,
    }
}

fn find_row(rows: &Vec<(u8, BigNat)>, role: u8) -> (r: Option<BigNat>)
    ensures
        match r {
            Some(n) => has_role(rows_nat(rows@), role) && n@ == crate::meed::amount_of(rows_nat(rows@), role),
            None => !has_role(rows_nat(rows@), role),
        },
{
    let ghost s: Seq<(u8, nat)> = rows_nat(rows@);
    let mut i: usize = 0;
    while i < rows.len()
        invariant
            i <= rows@.len(),
            s == rows_nat(rows@),
            forall|j: int| 0 <= j < i ==> (#[trigger] s[j]).0 != role,
        decreases rows@.len() - i,
    {
        if rows[i].0 == role {
            assert(s[i as int].0 == role);
            return Some(crate::meed::find_amount(rows, role));
        }
        assert(s[i as int].0 != role);
        i = i + 1;
    }
    None
}

impl ChannelDriver {
    /// A merchant with no channels.
    pub fn new(key: [u8; 32], enc_key: [u8; 32], settle_ptr: String) -> (d: ChannelDriver)
        ensures
            d@ == (DriverView {
                key,
                enc_key,
                settle_ptr: settle_ptr@,
                retained: Map::empty(),
                chained: Set::empty(),
                snapshots: Map::empty(),
                tombstones: Set::empty(),
            }),
    {
        let d: ChannelDriver = ChannelDriver {
            key,
            enc_key,
            settle_ptr,
            retained: Table::new(),
            consumed_chain_refs: Table::new(),
            chain_snapshots: Table::new(),
            tombstones: Table::new(),
        };
        assert(d@.chained =~= Set::empty());
        assert(d@.tombstones =~= Set::empty());
        d
    }

    /// Restores the identifiers accepted in an earlier life from the decisions
    /// in `entries`. A record that names no channel is corrupt, and nothing is
    /// served on a corrupt record.
    pub fn attach_decisions(&mut self, entries: &Vec<(Vec<u8>, Vec<u8>)>) -> (r: Result<(), ChannelError>)
        ensures
            match r {
                Ok(_) => {
                    &&& open_records_sound(entries@)
                    &&& final(self)@ == (DriverView {
                        tombstones: final(self)@.tombstones,
                        ..old(self)@
                    })
                    &&& forall|c: [u8; 8]| #[trigger]
                        final(self)@.tombstones.contains(c) <==> old(self)@.tombstones.contains(c)
                            || records_open(entries@, c)
                },
                Err(e) => e == ChannelError::StoreUnavailable && !open_records_sound(entries@),
            },
    {
        let ns: Vec<u8> = chopen_prefix();
        let mut i: usize = 0;
        while i < entries.len()
            invariant
                i <= entries@.len(),
                ns@ == chopen_ns(),
                forall|j: int|
                    0 <= j < i ==> (stripped((#[trigger] entries@[j]).0@, chopen_ns()) matches Some(rest) ==> rest.len()
                        == 8),
                self@ == (DriverView { tombstones: self@.tombstones, ..old(self)@ }),
                forall|c: [u8; 8]| #[trigger]
                    self@.tombstones.contains(c) <==> old(self)@.tombstones.contains(c) || records_open(
                        entries@.take(i as int),
                        c,
                    ),
            decreases entries@.len() - i,
        {
            let ghost before: DriverView = self@;
            let key: &Vec<u8> = &entries[i].0;
            if let Some(rest) = strip_prefix(key, &ns) {
                if rest.len() != 8 {
                    assert(!open_records_sound(entries@)) by {
                        assert(stripped(entries@[i as int].0@, chopen_ns()) == Some(rest@));
                    }
                    return Err(ChannelError::StoreUnavailable);
                }
                let channel: [u8; 8] = copy_array::<8>(rest.as_slice(), 0);
                self.tombstones.insert(channel, true);
                proof {
                    assert(rest@.subrange(0, 8) =~= rest@);
                    assert(key@ =~= open_key_bytes(channel));
                    lemma_records_open_next(entries@, i as int, channel);
                }
            } else {
                proof {
                    lemma_records_open_other(entries@, i as int);
                }
            }
            proof {
                assert(self@ =~= (DriverView { tombstones: self@.tombstones, ..old(self)@ }));
            }
            i = i + 1;
        }
        assert(entries@.take(entries@.len() as int) =~= entries@);
        Ok(())
    }

    /// Records the position that a chained successor opens at.
    pub fn record_chain_snapshot(&mut self, key: CheckpointKey, snapshot: ChainSnapshot)
        ensures
            final(self)@ == (DriverView {
                snapshots: old(self)@.snapshots.insert(key, snapshot@),
                ..old(self)@
            }),
    {
        self.chain_snapshots.insert(key, snapshot);
    }

    /// Drops a recorded position.
    pub fn remove_chain_snapshot(&mut self, key: &CheckpointKey)
        ensures
            final(self)@ == (DriverView { snapshots: old(self)@.snapshots.remove(*key), ..old(self)@ }),
    {
        let _ = self.chain_snapshots.remove(key);
    }

    /// The merchant's identity key.
    pub fn key(&self) -> (r: [u8; 32])
        ensures
            r == self@.key,
    {
        self.key
    }

    /// The key that session secrets are sealed to.
    pub fn enc_key(&self) -> (r: [u8; 32])
        ensures
            r == self@.enc_key,
    {
        self.enc_key
    }

    /// Decides an open as far as it can be decided without its secret.
    pub fn open_channel(&self, auth: &ChannelAuth, facts: &OpenFacts, now: u64) -> (r: Result<OpenOutcome, ChannelError>)
        ensures
            match r {
                Ok(OpenOutcome::Retransmit(ack)) => {
                    &&& refusal(self@, *auth, *facts, now) is None
                    &&& retransmitted(self@, auth.channel_id, *facts)
                    &&& ack@ == self@.retained[auth.channel_id].ack
                },
                Ok(OpenOutcome::Fresh { auth_hash, open_hash }) => {
                    &&& refusal(self@, *auth, *facts, now) is None
                    &&& !self@.retained.dom().contains(auth.channel_id)
                    &&& facts.auth_hash == Some(auth_hash)
                    &&& facts.open_hash == Some(open_hash)
                },
                Err(e) => refusal(self@, *auth, *facts, now) == Some(e),
            },
    {
        if !same_array(&auth.merchant_key, &self.key) {
            return Err(ChannelError::WrongMerchant);
        }
        if !facts.verified || !facts.governed {
            return Err(ChannelError::BadAuth);
        }
        if auth.denom != auth.baseline_asset {
            return Err(ChannelError::OffBaselineUnsupported);
        }
        if !within_window(now, auth.timestamp) {
            return Err(ChannelError::TimestampOutOfWindow);
        }
        let (auth_hash, open_hash): ([u8; 32], [u8; 32]) = match (facts.auth_hash, facts.open_hash) {
            (Some(a), Some(o)) => (a, o),
            _ => return Err(ChannelError::BadAuth),
        };
        if self.tombstones.contains(&auth.channel_id) {
            return Err(ChannelError::ChannelReplay);
        }
        if let Some(r) = self.retained.get(&auth.channel_id) {
            if !r.terminated && same_array(&r.auth_hash, &auth_hash) && same_array(
                &r.open_hash,
                &open_hash,
            ) {
                return Ok(OpenOutcome::Retransmit(copy_bytes(r.ack.as_slice())));
            }
            return Err(ChannelError::ChannelReplay);
        }
        if let Some(pred) = auth.predecessor {
            if self.consumed_chain_refs.contains(&pred) {
                return Err(ChannelError::ChainReplay);
            }
        }
        Ok(OpenOutcome::Fresh { auth_hash, open_hash })
    }

    /// Decides what the opened seal gave.
    pub fn check_secret(unsealed: Unsealed) -> (r: Result<(), ChannelError>)
        ensures
            match unsealed {
                Unsealed::NoContext => r == Err::<(), ChannelError>(ChannelError::BadAuth),
                Unsealed::Invalid => r == Err::<(), ChannelError>(ChannelError::SealInvalid),
                Unsealed::Opened { committed } => r == (if committed {
                    Ok::<(), ChannelError>(())
                } else {
                    Err(ChannelError::HsMismatch)
                }),
            },
    {
        match unsealed {
            Unsealed::NoContext => Err(ChannelError::BadAuth),
            Unsealed::Invalid => Err(ChannelError::SealInvalid),
            Unsealed::Opened { committed } => if committed {
                Ok(())
            } else {
                Err(ChannelError::HsMismatch)
            },
        }
    }

    /// The position that a chained open imports; `terms_fp` is the fingerprint
    /// of the successor's own terms.
    pub fn chained_import(
        &self,
        pred: &CheckpointKey,
        auth: &ChannelAuth,
        terms_fp: &[u8; 32],
    ) -> (r: Result<ImportPlan, ChannelError>)
        ensures
            match r {
                Ok(plan) => {
                    &&& importable(self@, *pred, *auth, *terms_fp)
                    &&& imports(self@.snapshots[*pred], *auth, plan)
                },
                Err(e) => {
                    &&& e == ChannelError::ChainRejected
                    &&& !importable(self@, *pred, *auth, *terms_fp)
                },
            },
    {
        let snap: &ChainSnapshot = match self.chain_snapshots.get(pred) {
            Some(snap) => snap,
            None => return Err(ChannelError::ChainRejected),
        };
        if !same_array(&snap.payer_key, &auth.payer_key) || auth.mode != snap.mode {
            return Err(ChannelError::ChainRejected);
        }
        if auth.denom != auth.baseline_asset {
            return Err(ChannelError::ChainRejected);
        }
        if !same_array(terms_fp, &snap.terms_fingerprint) {
            return Err(ChannelError::ChainRejected);
        }
        let mut accruals: Vec<BigNat> = Vec::new();
        let mut i: usize = 0;
        while i < auth.vector.len()
            invariant
                i <= auth.vector@.len(),
                accruals@.len() == i,
                snap@ == self@.snapshots[*pred],
                forall|j: int|
                    0 <= j < i ==> has_role(snap@.accruals, (#[trigger] auth.vector@[j]).role),
                forall|j: int|
                    0 <= j < i ==> (#[trigger] accruals@[j])@ == crate::meed::amount_of(
                        snap@.accruals,
                        auth.vector@[j].role,
                    ),
            decreases auth.vector@.len() - i,
        {
            match find_row(&snap.accruals, auth.vector[i].role) {
                Some(a) => accruals.push(a),
                None => {
                    assert(!has_role(snap@.accruals, auth.vector@[i as int].role));
                    return Err(ChannelError::ChainRejected);
                },
            }
            i = i + 1;
        }
        Ok(
            ImportPlan {
                cum_total: snap.cum_total,
                accruals,
                imported_balance: snap.imported_balance,
                openings: LedgerOpenings {
                    settled_r: copy_rows(&snap.opening_settled_r),
                    net_legs: snap.opening_net_legs,
                    funding: snap.opening_funding,
                },
                established_at: snap.established_at,
            },
        )
    }

    fn bind_terms(&self, auth: &ChannelAuth, seed_instance: &[u8; 32]) -> (terms: SettlementTerms)
        ensures
            terms@ == bound_terms(*auth, self@.settle_ptr, *seed_instance),
    {
        let mut bound_dests: Vec<String> = Vec::new();
        let mut i: usize = 0;
        while i < auth.vector.len()
            invariant
                i <= auth.vector@.len(),
                bound_dests@.len() == i,
                forall|j: int| 0 <= j < i ==> (#[trigger] bound_dests@[j])@ == auth.vector@[j].dest@,
            decreases auth.vector@.len() - i,
        {
            bound_dests.push(auth.vector[i].dest.clone());
            i = i + 1;
        }
        bound_dests.push(self.settle_ptr.clone());
        let terms: SettlementTerms = SettlementTerms {
            denom: auth.denom.clone(),
            baseline_asset: auth.baseline_asset.clone(),
            baseline_net: auth.baseline_net.clone(),
            bound_dests,
            conversion_required: auth.denom != auth.baseline_asset,
            settle_ptr: self.settle_ptr.clone(),
            fin_denom: auth.fin_denom.clone(),
            fin_meed: auth.fin_meed.clone(),
            seed_instance: *seed_instance,
            refund_ptr: copy_option_text(&auth.refund_ptr),
            th_value: auth.th_value,
            th_time: auth.th_time,
        };
        assert(terms@ =~= bound_terms(*auth, self@.settle_ptr, *seed_instance));
        terms
    }

    /// Accepts a channel: keeps its terms, and marks its predecessor's
    /// checkpoint as imported.
    pub fn retain(
        &mut self,
        auth: &ChannelAuth,
        auth_hash: [u8; 32],
        open_hash: [u8; 32],
        seed_instance: &[u8; 32],
        ack: &Vec<u8>,
    )
        ensures
            final(self)@ == accepted(old(self)@, *auth, auth_hash, open_hash, *seed_instance, ack@),
    {
        let terms: SettlementTerms = self.bind_terms(auth, seed_instance);
        self.retained.insert(
            auth.channel_id,
            Retained {
                auth_hash,
                open_hash,
                payer_key: auth.payer_key,
                ack: copy_bytes(ack.as_slice()),
                terminated: false,
                terms,
            },
        );
        if let Some(pred) = auth.predecessor {
            self.consumed_chain_refs.insert(pred, true);
        }
        assert(self@ =~= accepted(old(self)@, *auth, auth_hash, open_hash, *seed_instance, ack@));
    }

    /// Accepts a channel if its acceptance was recorded for the first time. One
    /// that was recorded before is a replay; one that could not be recorded is
    /// refused, for it could not be recognised again after a restart.
    pub fn open_decided(
        &mut self,
        decision: &Decision,
        auth: &ChannelAuth,
        auth_hash: [u8; 32],
        open_hash: [u8; 32],
        seed_instance: &[u8; 32],
        ack: &Vec<u8>,
    ) -> (r: Result<(), ChannelError>)
        ensures
            match decision {
                Decision::Fresh => r is Ok && final(self)@ == accepted(
                    old(self)@,
                    *auth,
                    auth_hash,
                    open_hash,
                    *seed_instance,
                    ack@,
                ),
                Decision::AlreadyDecided(_) => r == Err::<(), ChannelError>(ChannelError::ChannelReplay)
                    && final(self)@ == old(self)@,
                Decision::Failed => r == Err::<(), ChannelError>(ChannelError::StoreUnavailable)
                    && final(self)@ == old(self)@,
            },
    {
        match decision {
            Decision::Fresh => {
                self.retain(auth, auth_hash, open_hash, seed_instance, ack);
                Ok(())
            },
            Decision::AlreadyDecided(_) => Err(ChannelError::ChannelReplay),
            Decision::Failed => Err(ChannelError::StoreUnavailable),
        }
    }

    /// Records the acceptance of a channel in the store, where there is one, and
    /// then accepts it.
    pub fn establish<S: OneDecisionStore>(
        &mut self,
        store: &mut Option<S>,
        auth: &ChannelAuth,
        auth_hash: [u8; 32],
        open_hash: [u8; 32],
        seed_instance: &[u8; 32],
        ack: &Vec<u8>,
    ) -> (r: Result<(), ChannelError>)
        requires
            in_order(*old(store)),
        ensures
            in_order(*final(store)),
            *final(store) is Some == *old(store) is Some,
            keeps(recorded_in(*old(store)), recorded_in(*final(store))),
            exists|decision: Decision|
                {
                    &&& #[trigger] claimed_in(
                        *old(store),
                        open_key_bytes(auth.channel_id),
                        Seq::empty(),
                        *final(store),
                        decision,
                    )
                    &&& match decision {
                        Decision::Fresh => r is Ok,
                        Decision::AlreadyDecided(_) => r == Err::<(), ChannelError>(
                            ChannelError::ChannelReplay,
                        ),
                        Decision::Failed => r == Err::<(), ChannelError>(ChannelError::StoreUnavailable),
                    }
                },
            *old(store) is None ==> r is Ok,
            recorded_in(*old(store)).dom().contains(open_key_bytes(auth.channel_id)) ==> r is Err,
            match r {
                Ok(_) => {
                    &&& final(self)@ == accepted(
                        old(self)@,
                        *auth,
                        auth_hash,
                        open_hash,
                        *seed_instance,
                        ack@,
                    )
                    &&& *final(store) is Some ==> recorded_in(*final(store)).contains_pair(
                        open_key_bytes(auth.channel_id),
                        Seq::empty(),
                    )
                },
                Err(ChannelError::ChannelReplay) => {
                    &&& final(self)@ == old(self)@
                    &&& recorded_in(*final(store)).dom().contains(open_key_bytes(auth.channel_id))
                },
                Err(e) => final(self)@ == old(self)@ && e == ChannelError::StoreUnavailable,
            },
    {
        let key: Vec<u8> = chopen_key(&auth.channel_id);
        let empty: Vec<u8> = Vec::new();
        let decision: Decision = claim(store, &key, &empty);
        assert(empty@ =~= Seq::empty());
        assert(claimed_in(*old(store), open_key_bytes(auth.channel_id), Seq::empty(), *store, decision));
        self.open_decided(&decision, auth, auth_hash, open_hash, seed_instance, ack)
    }

    /// Ends a channel: its identifier is never accepted again.
    pub fn terminate(&mut self, channel: &[u8; 8])
        ensures
            final(self)@ == terminated(old(self)@, *channel),
    {
        if let Some(r) = self.retained.remove(channel) {
            let mut r: Retained = r;
            r.terminated = true;
            self.retained.insert(*channel, r);
        }
        assert(self@ =~= terminated(old(self)@, *channel));
    }

    /// The payer of a channel.
    pub fn payer_key(&self, channel: &[u8; 8]) -> (r: Option<[u8; 32]>)
        ensures
            r == (if self@.retained.dom().contains(*channel) {
                Some(self@.retained[*channel].payer_key)
            } else {
                None
            }),
    {
        match self.retained.get(channel) {
            Some(r) => Some(r.payer_key),
            None => None,
        }
    }

    /// The hash of a channel's authorization.
    pub fn auth_hash(&self, channel: &[u8; 8]) -> (r: Option<[u8; 32]>)
        ensures
            r == (if self@.retained.dom().contains(*channel) {
                Some(self@.retained[*channel].auth_hash)
            } else {
                None
            }),
    {
        match self.retained.get(channel) {
            Some(r) => Some(r.auth_hash),
            None => None,
        }
    }

    /// The terms of a channel.
    pub fn settlement_terms(&self, channel: &[u8; 8]) -> (r: Option<&SettlementTerms>)
        ensures
            match r {
                Some(t) => self@.retained.dom().contains(*channel) && t@ == self@.retained[*channel].terms,
                None => !self@.retained.dom().contains(*channel),
            },
    {
        match self.retained.get(channel) {
            Some(r) => Some(&r.terms),
            None => None,
        }
    }

    /// Serves the stored acknowledgment of a live channel for a request that its
    /// payer signed, and that is recent. `signed` says whether the signature
    /// verifies under the channel's payer key.
    pub fn serve_ack_request(
        &self,
        channel: &[u8; 8],
        timestamp: u64,
        signed: bool,
        now: u64,
    ) -> (r: Option<Vec<u8>>)
        ensures
            match r {
                Some(ack) => served(self@, *channel, timestamp, signed, now) && ack@
                    == self@.retained[*channel].ack,
                None => !served(self@, *channel, timestamp, signed, now),
            },
    {
        match self.retained.get(channel) {
            Some(r) => {
                if r.terminated || !within_window(now, timestamp) || !signed {
                    return None;
                }
                Some(copy_bytes(r.ack.as_slice()))
            },
            None => None,
        }
    }
}

/// The driver after a channel ended.
pub open spec fn terminated(d: DriverView, channel: [u8; 8]) -> DriverView {
    if d.retained.dom().contains(channel) {
        DriverView {
            retained: d.retained.insert(
                channel,
                RetainedView { terminated: true, ..d.retained[channel] },
            ),
            ..d
        }
    } else {
        d
    }
}

/// Whether an acknowledgment request is served.
pub open spec fn served(d: DriverView, channel: [u8; 8], timestamp: u64, signed: bool, now: u64) -> bool {
    &&& d.retained.dom().contains(channel)
    &&& !d.retained[channel].terminated
    &&& in_window(now, timestamp)
    &&& signed
}

/// What an established channel hands on; a chained one inherits the time its
/// chain was established at.
pub fn established(
    auth: &ChannelAuth,
    auth_hash: [u8; 32],
    ack: Vec<u8>,
    import: Option<ImportPlan>,
) -> (est: Established)
    ensures
        est.channel_id == auth.channel_id,
        est.auth_hash == auth_hash,
        est.ack@ == ack@,
        est.th_value == auth.th_value,
        est.th_time == auth.th_time,
        match import {
            Some(plan) => {
                &&& est.established_at == plan.established_at
                &&& est.ledger_openings == Some(plan.openings)
            },
            None => est.established_at == auth.timestamp && est.ledger_openings is None,
        },
{
    let (established_at, ledger_openings): (u64, Option<LedgerOpenings>) = match import {
        Some(plan) => (plan.established_at, Some(plan.openings)),
        None => (auth.timestamp, None),
    };
    Established {
        channel_id: auth.channel_id,
        auth_hash,
        ack,
        th_value: auth.th_value,
        th_time: auth.th_time,
        established_at,
        ledger_openings,
    }
}

proof fn lemma_records_open_next(entries: Seq<(Vec<u8>, Vec<u8>)>, i: int, channel: [u8; 8])
    requires
        0 <= i < entries.len(),
        entries[i].0@ == open_key_bytes(channel),
    ensures
        forall|c: [u8; 8]| #[trigger]
            records_open(entries.take(i + 1), c) <==> records_open(entries.take(i), c) || c == channel,
{
    assert forall|c: [u8; 8]| #[trigger] records_open(entries.take(i + 1), c) <==> records_open(
        entries.take(i),
        c,
    ) || c == channel by {
        let next = entries.take(i + 1);
        let prev = entries.take(i);
        if records_open(next, c) {
            let j = choose|j: int| 0 <= j < next.len() && (#[trigger] next[j]).0@ == open_key_bytes(c);
            if j < i {
                assert(prev[j].0@ == open_key_bytes(c));
            } else {
                assert(open_key_bytes(c).skip(7) =~= c@);
                assert(open_key_bytes(channel).skip(7) =~= channel@);
                assert forall|k: int| 0 <= k < 8 implies c[k] == channel[k] by {
                    assert(c@[k] == channel@[k]);
                }
                assert(c =~= channel);
            }
        }
        if records_open(prev, c) {
            let j = choose|j: int| 0 <= j < prev.len() && (#[trigger] prev[j]).0@ == open_key_bytes(c);
            assert(next[j].0@ == open_key_bytes(c));
        }
        if c == channel {
            assert(next[i].0@ == open_key_bytes(c));
        }
    }
}

proof fn lemma_records_open_other(entries: Seq<(Vec<u8>, Vec<u8>)>, i: int)
    requires
        0 <= i < entries.len(),
        stripped(entries[i].0@, chopen_ns()) is None,
    ensures
        forall|c: [u8; 8]| #[trigger]
            records_open(entries.take(i + 1), c) <==> records_open(entries.take(i), c),
{
    assert forall|c: [u8; 8]| #[trigger] records_open(entries.take(i + 1), c) <==> records_open(
        entries.take(i),
        c,
    ) by {
        let next = entries.take(i + 1);
        let prev = entries.take(i);
        if records_open(next, c) {
            let j = choose|j: int| 0 <= j < next.len() && (#[trigger] next[j]).0@ == open_key_bytes(c);
            if j < i {
                assert(prev[j].0@ == open_key_bytes(c));
            } else {
                assert(open_key_bytes(c).take(7) =~= chopen_ns());
            }
        }
        if records_open(prev, c) {
            let j = choose|j: int| 0 <= j < prev.len() && (#[trigger] prev[j]).0@ == open_key_bytes(c);
            assert(next[j].0@ == open_key_bytes(c));
        }
    }
}

/// Once a channel was accepted, no open of its identifier is ever accepted
/// again: at best it is a retransmission, and after the channel ended not even
/// that.
pub proof fn law_identifier_accepted_once(
    d: DriverView,
    auth: ChannelAuth,
    facts: OpenFacts,
    now: u64,
)
    requires
        d.retained.dom().contains(auth.channel_id) || d.tombstones.contains(auth.channel_id),
    ensures
        refusal(d, auth, facts, now) is None ==> {
            &&& retransmitted(d, auth.channel_id, facts)
            &&& !d.tombstones.contains(auth.channel_id)
        },
        refusal(terminated(d, auth.channel_id), auth, facts, now) is Some,
{
}

/// A predecessor's checkpoint is imported by at most one successor: after one
/// was accepted, an open of any other channel that names it is refused.
pub proof fn law_checkpoint_imported_once(
    d: DriverView,
    auth: ChannelAuth,
    auth_hash: [u8; 32],
    open_hash: [u8; 32],
    seed_instance: [u8; 32],
    ack: Seq<u8>,
    other: ChannelAuth,
    facts: OpenFacts,
    now: u64,
)
    requires
        auth.predecessor is Some,
        other.predecessor == auth.predecessor,
        other.channel_id != auth.channel_id,
        !d.retained.dom().contains(other.channel_id),
    ensures
        refusal(
            accepted(d, auth, auth_hash, open_hash, seed_instance, ack),
            other,
            facts,
            now,
        ) is Some,
{
}

/// An open is heard exactly where it is addressed to this merchant, verifies under a governed
/// vector, is denominated in the baseline asset, is no more than ten minutes from the
/// merchant's clock, and has its hashes; and then only for an identifier that was never
/// accepted and a predecessor's checkpoint that was never imported, or as the retransmission
/// of the very open that a live channel was accepted by.
pub proof fn law_which_opens_are_heard(d: DriverView, auth: ChannelAuth, facts: OpenFacts, now: u64)
    ensures
        refusal(d, auth, facts, now) is None <==> {
            &&& auth.merchant_key == d.key
            &&& facts.verified
            &&& facts.governed
            &&& auth.denom@ == auth.baseline_asset@
            &&& now <= auth.timestamp + 600
            &&& auth.timestamp <= now + 600
            &&& facts.auth_hash is Some
            &&& facts.open_hash is Some
            &&& !d.tombstones.contains(auth.channel_id)
            &&& if d.retained.dom().contains(auth.channel_id) {
                &&& !d.retained[auth.channel_id].terminated
                &&& facts.auth_hash->0 == d.retained[auth.channel_id].auth_hash
                &&& facts.open_hash->0 == d.retained[auth.channel_id].open_hash
            } else {
                auth.predecessor matches Some(pred) ==> !d.chained.contains(pred)
            }
        },
{
}

/// A refusal names what is wrong with the open.
pub proof fn law_a_refusal_names_its_cause(
    d: DriverView,
    auth: ChannelAuth,
    facts: OpenFacts,
    now: u64,
    e: ChannelError,
)
    requires
        refusal(d, auth, facts, now) == Some(e),
    ensures
        match e {
            ChannelError::WrongMerchant => auth.merchant_key != d.key,
            ChannelError::BadAuth => !facts.verified || !facts.governed || facts.auth_hash is None
                || facts.open_hash is None,
            ChannelError::OffBaselineUnsupported => auth.denom@ != auth.baseline_asset@,
            ChannelError::TimestampOutOfWindow => now > auth.timestamp + 600 || auth.timestamp > now + 600,
            ChannelError::ChannelReplay => d.tombstones.contains(auth.channel_id)
                || d.retained.dom().contains(auth.channel_id),
            ChannelError::ChainReplay => auth.predecessor matches Some(pred) && d.chained.contains(pred),
            _ => false,
        },
        auth.merchant_key != d.key ==> e == ChannelError::WrongMerchant,
        auth.merchant_key == d.key && (!facts.verified || !facts.governed) ==> e == ChannelError::BadAuth,
{
}

/// An acknowledgment is served exactly for a live channel, to a request that its payer signed
/// no more than ten minutes from the merchant's clock.
pub proof fn law_which_acknowledgments_are_served(
    d: DriverView,
    channel: [u8; 8],
    timestamp: u64,
    signed: bool,
    now: u64,
)
    ensures
        served(d, channel, timestamp, signed, now) <==> {
            &&& d.retained.dom().contains(channel)
            &&& !d.retained[channel].terminated
            &&& signed
            &&& now <= timestamp + 600
            &&& timestamp <= now + 600
        },
        !served(terminated(d, channel), channel, timestamp, signed, now),
{
}

/// What is kept of an accepted channel is what the payer authorized: its terms are the
/// authorization's, with the merchant's own settlement pointer; outputs may go to the seats
/// of the vector and to that pointer, and nowhere else; and only a channel that is not in the
/// baseline asset needs a conversion.
pub proof fn law_accepted_terms_are_the_authorized_ones(
    d: DriverView,
    auth: ChannelAuth,
    auth_hash: [u8; 32],
    open_hash: [u8; 32],
    seed_instance: [u8; 32],
    ack: Seq<u8>,
    dest: Seq<char>,
)
    ensures
        ({
            let after = accepted(d, auth, auth_hash, open_hash, seed_instance, ack);
            let kept = after.retained[auth.channel_id];
            &&& after.retained.dom() == d.retained.dom().insert(auth.channel_id)
            &&& kept.auth_hash == auth_hash
            &&& kept.open_hash == open_hash
            &&& kept.payer_key == auth.payer_key
            &&& kept.ack == ack
            &&& !kept.terminated
            &&& kept.terms.denom == auth.denom@
            &&& kept.terms.baseline_asset == auth.baseline_asset@
            &&& kept.terms.baseline_net == auth.baseline_net@
            &&& kept.terms.fin_denom == auth.fin_denom@
            &&& kept.terms.fin_meed == auth.fin_meed@
            &&& kept.terms.seed_instance == seed_instance
            &&& kept.terms.settle_ptr == d.settle_ptr
            &&& kept.terms.refund_ptr is Some == auth.refund_ptr is Some
            &&& auth.refund_ptr matches Some(p) ==> kept.terms.refund_ptr == Some(p@)
            &&& kept.terms.th_value == auth.th_value
            &&& kept.terms.th_time == auth.th_time
            &&& kept.terms.conversion_required <==> auth.denom@ != auth.baseline_asset@
            &&& kept.terms.bound_dests.contains(dest) <==> dest == d.settle_ptr || exists|i: int|
                0 <= i < auth.vector@.len() && (#[trigger] auth.vector@[i]).dest@ == dest
            &&& forall|c: [u8; 8]|
                c != auth.channel_id && #[trigger] d.retained.dom().contains(c) ==> after.retained[c]
                    == d.retained[c]
            &&& forall|pred: CheckpointKey| #[trigger]
                after.chained.contains(pred) <==> d.chained.contains(pred) || auth.predecessor == Some(pred)
            &&& after.key == d.key
            &&& after.tombstones == d.tombstones
            &&& after.snapshots == d.snapshots
        }),
{
    let after = accepted(d, auth, auth_hash, open_hash, seed_instance, ack);
    let seats = auth.vector@.map_values(|v: VectorEntry| v.dest@);
    let dests = after.retained[auth.channel_id].terms.bound_dests;
    assert(after.retained.dom() =~= d.retained.dom().insert(auth.channel_id));
    assert(dests == seats.push(d.settle_ptr));
    if dests.contains(dest) {
        let i = choose|i: int| 0 <= i < dests.len() && dests[i] == dest;
        if i < seats.len() {
            assert(auth.vector@[i].dest@ == dest);
        }
    }
    if dest == d.settle_ptr {
        assert(dests[seats.len() as int] == dest);
    }
    if exists|i: int| 0 <= i < auth.vector@.len() && (#[trigger] auth.vector@[i]).dest@ == dest {
        let i = choose|i: int| 0 <= i < auth.vector@.len() && (#[trigger] auth.vector@[i]).dest@ == dest;
        assert(dests[i] == dest);
    }
}

/// A channel that ended keeps everything but its life.
pub proof fn law_an_ended_channel_is_kept(d: DriverView, channel: [u8; 8])
    requires
        d.retained.dom().contains(channel),
    ensures
        ({
            let after = terminated(d, channel);
            &&& after.retained.dom() == d.retained.dom()
            &&& after.retained[channel].terminated
            &&& after.retained[channel].terms == d.retained[channel].terms
            &&& after.retained[channel].auth_hash == d.retained[channel].auth_hash
            &&& after.retained[channel].payer_key == d.retained[channel].payer_key
            &&& forall|c: [u8; 8]|
                c != channel && #[trigger] d.retained.dom().contains(c) ==> after.retained[c] == d.retained[c]
            &&& after == (DriverView { retained: after.retained, ..d })
        }),
{
    assert(terminated(d, channel).retained.dom() =~= d.retained.dom());
}

/// Whether some row is the role's.
pub open spec fn row_of_role(rows: Seq<(u8, nat)>, role: u8) -> bool {
    exists|j: int| 0 <= j < rows.len() && (#[trigger] rows[j]).0 == role
}

/// A position can be imported exactly by its own payer, in its own mode, on the baseline asset
/// and under the same terms, with a vector all of whose roles the position has accruals for.
pub proof fn law_who_may_import_a_position(
    d: DriverView,
    pred: CheckpointKey,
    auth: ChannelAuth,
    terms_fp: [u8; 32],
)
    ensures
        importable(d, pred, auth, terms_fp) <==> {
            &&& d.snapshots.dom().contains(pred)
            &&& auth.payer_key == d.snapshots[pred].payer_key
            &&& auth.mode == d.snapshots[pred].mode
            &&& auth.denom@ == auth.baseline_asset@
            &&& terms_fp == d.snapshots[pred].terms_fingerprint
            &&& forall|i: int|
                0 <= i < auth.vector@.len() ==> row_of_role(
                    d.snapshots[pred].accruals,
                    (#[trigger] auth.vector@[i]).role,
                )
        },
{
    assert forall|rows: Seq<(u8, nat)>, role: u8| #[trigger] has_role(rows, role) == row_of_role(rows, role) by {}
    if forall|i: int|
        0 <= i < auth.vector@.len() ==> row_of_role(
            d.snapshots[pred].accruals,
            (#[trigger] auth.vector@[i]).role,
        ) {
        assert forall|i: int| 0 <= i < auth.vector@.len() implies has_role(
            d.snapshots[pred].accruals,
            (#[trigger] auth.vector@[i]).role,
        ) by {
            assert(row_of_role(d.snapshots[pred].accruals, auth.vector@[i].role));
        }
    }
    if importable(d, pred, auth, terms_fp) {
        assert forall|i: int| 0 <= i < auth.vector@.len() implies row_of_role(
            d.snapshots[pred].accruals,
            (#[trigger] auth.vector@[i]).role,
        ) by {
            assert(has_role(d.snapshots[pred].accruals, auth.vector@[i].role));
        }
    }
}

/// An import carries the recorded position over unchanged: its total and balance, when its chain
/// was established, what was settled of the meed, the net and the funding, and for each role
/// of the vector, in its order, what that role accrued.
pub proof fn law_an_import_is_the_recorded_position(
    snap: SnapshotView,
    auth: ChannelAuth,
    plan: ImportPlan,
    i: int,
)
    requires
        imports(snap, auth, plan),
        0 <= i < auth.vector@.len(),
    ensures
        plan.cum_total == snap.cum_total,
        plan.imported_balance == snap.imported_balance,
        plan.established_at == snap.established_at,
        rows_nat(plan.openings.settled_r@) == snap.opening_settled_r,
        plan.openings.net_legs == snap.opening_net_legs,
        plan.openings.funding == snap.opening_funding,
        plan.accruals@.len() == auth.vector@.len(),
        plan.accruals@[i]@ == crate::meed::amount_of(snap.accruals, auth.vector@[i].role),
{
    assert(plan.accruals@[i]@ == crate::meed::amount_of(snap.accruals, auth.vector@[i].role));
}

} // verus!
