//! The channel plane: what a merchant answers to the control messages of its
//! channels, and what it keeps of them.
//!
//! The carriage holds the establishment driver, the operative checkpoint and the
//! settlement ledger of each channel, the settlement rounds, and the records that
//! make each money decision once: the consumed rail references and the close
//! dispositions. Signatures, hashes and rail reads come in as facts about a
//! message; what the metering engine has to do goes out as an effect.

use vstd::prelude::*;

use crate::bignat::BigNat;
use crate::bytes::extend;
use crate::channel::{text_option, ChannelDriver, ChannelError, CheckpointKey, DriverView, Mode};
use crate::disposition::ChainState;
use crate::meed::rows_nat;
use crate::one_decision::{claimed_in, found_in, in_order, recorded_in, Decision, OneDecisionStore};
use crate::rail::{finality_is_irreversible, irreversible, texts};
use crate::table::{Table, TextSet};

pub mod chain;
pub mod checkpoint;
pub mod close;
pub mod fingerprint;
pub mod funding;
pub mod guards;
pub mod interim;
pub mod open;
pub mod propose;
pub mod rounds;
pub mod routing;
pub mod settle;

verus! {

/// The number of proposal hashes kept per round.
pub const MAX_PROPOSAL_HASHES: usize = 64;

/// The number of settlement proofs kept per round as evidence.
pub const MAX_PROOFS: usize = 64;

/// Why a message is refused. Whatever fails before the sender is known to hold
/// the channel's keys is `Rejected`, so that a stranger learns nothing.
#[derive(Debug, PartialEq, Eq)]
pub enum CarriageError {
    /// An empty body, or a type octet that no message has.
    UnknownType,
    /// A message posted to the wrong resource.
    Misrouted,
    /// The message does not parse.
    Malformed,
    /// An unknown channel, a bad signature, or a refused request.
    Rejected,
    /// A message that the merchant sends and never receives.
    Unsupported,
    /// A slice at or below the floor, or one that was accounted before.
    SeqInvalid,
    /// A slice beyond the balance bound.
    WindowExceeded,
    /// A slice beyond the evidence bound.
    EvidenceRequired,
    /// A slice on a channel that settles or has ended.
    Closed,
    /// A checkpoint that does not follow from the merchant's books, with the merchant's own
    /// checkpoint where it holds one.
    StateMismatch(Option<Vec<u8>>),
}

/// What a request is answered.
#[derive(Debug, PartialEq, Eq)]
pub enum Response {
    /// A message to return.
    Message(Vec<u8>),
    /// Accepted, with nothing to return.
    Accepted,
}

/// What the metering engine has to do for an answered message.
#[derive(Debug, Clone, Copy, PartialEq, Eq)]
pub enum Effect {
    /// Nothing.
    Nothing,
    /// Credit funding to a channel.
    Credit { channel: [u8; 8], amount: u128 },
    /// Take a settled gross amount from a channel's balance.
    Settle { channel: [u8; 8], gross: u128 },
    /// Raise a channel's floor to the checkpoint that was countersigned.
    RaiseFloor { channel: [u8; 8] },
    /// Stop a channel's metering for settlement.
    BeginSettling { channel: [u8; 8] },
}

/// An answered message.
#[derive(Debug, PartialEq, Eq)]
pub struct Handled {
    pub reply: Result<Response, CarriageError>,
    pub effect: Effect,
}

/// Why a carriage could not be built.
#[derive(Debug, Clone, Copy, PartialEq, Eq)]
pub enum ConfigError {
    /// A record of an accepted channel is corrupt.
    Retention(ChannelError),
    /// A record of a consumed reference or of a disposition is corrupt.
    DecisionLog,
}

/// What a carriage is built for.
#[derive(Debug, Clone, Copy, PartialEq, Eq, Structural)]
pub enum Profile {
    /// A demonstration: the rail and the store are optional.
    Demo,
    /// A deployment that moves money: both are there.
    Proof,
}

/// The phase of a channel.
#[derive(Debug, Clone, Copy, PartialEq, Eq, Structural)]
pub enum Status {
    Open,
    PausedWindow,
    PausedEvidence,
    Settling,
    Closed,
}

/// What the metering engine says of a channel.
#[derive(Debug)]
pub struct Meter {
    pub mode: Mode,
    pub status: Status,
    pub cum_total: u128,
    pub accruals: Vec<(u8, BigNat)>,
    pub balance: i128,
    pub bound_lower: i128,
    pub bound_upper: i128,
}

/// What a [`Meter`] says.
#[verifier::ext_equal]
pub struct MeterView {
    pub mode: Mode,
    pub status: Status,
    pub cum_total: u128,
    pub accruals: Seq<(u8, nat)>,
    pub balance: i128,
    pub bound_lower: i128,
    pub bound_upper: i128,
}

impl View for Meter {
    type V = MeterView;

    open spec fn view(&self) -> MeterView {
        MeterView {
            mode: self.mode,
            status: self.status,
            cum_total: self.cum_total,
            accruals: rows_nat(self.accruals@),
            balance: self.balance,
            bound_lower: self.bound_lower,
            bound_upper: self.bound_upper,
        }
    }
}

/// The last countersigned checkpoint of a channel: its reference and metering.
struct Operative {
    ckpt_ref: [u8; 32],
    cum_total: BigNat,
    accruals: Vec<(u8, BigNat)>,
    /// Its encoding, where it can be formed.
    encoded: Option<Vec<u8>>,
}

/// The last countersigned checkpoint of a channel.
#[verifier::ext_equal]
pub struct OperativeView {
    pub ckpt_ref: [u8; 32],
    pub cum_total: nat,
    pub accruals: Seq<(u8, nat)>,
    /// Its encoding, where it can be formed.
    pub encoded: Option<Seq<u8>>,
}

impl View for Operative {
    type V = OperativeView;

    closed spec fn view(&self) -> OperativeView {
        OperativeView {
            ckpt_ref: self.ckpt_ref,
            cum_total: self.cum_total@,
            accruals: rows_nat(self.accruals@),
            encoded: bytes_option(self.encoded),
        }
    }
}

/// The bytes of an optional message.
pub open spec fn bytes_option(bytes: Option<Vec<u8>>) -> Option<Seq<u8>> {
    match bytes {
        Some(b) => Some(b@),
        None => None,
    }
}

/// What was settled on a channel.
struct Ledger {
    settled_r: Vec<(u8, BigNat)>,
    net_legs_sum: u128,
    funding_sum: u128,
    version: u64,
}

/// What was settled on a channel.
#[verifier::ext_equal]
pub struct LedgerView {
    /// The settled meed numerators, per role.
    pub settled_r: Seq<(u8, nat)>,
    /// The net legs of the settled rounds.
    pub net_legs_sum: u128,
    /// The credited funding.
    pub funding_sum: u128,
    /// How often a round moved the ledger.
    pub version: u64,
}

impl View for Ledger {
    type V = LedgerView;

    closed spec fn view(&self) -> LedgerView {
        LedgerView {
            settled_r: rows_nat(self.settled_r@),
            net_legs_sum: self.net_legs_sum,
            funding_sum: self.funding_sum,
            version: self.version,
        }
    }
}

/// One net output of a round.
#[derive(Debug)]
pub struct Output {
    pub amount: BigNat,
    pub asset: String,
    pub dest: String,
}

/// What an [`Output`] says.
#[verifier::ext_equal]
pub struct OutputView {
    pub amount: nat,
    pub asset: Seq<char>,
    pub dest: Seq<char>,
}

impl View for Output {
    type V = OutputView;

    open spec fn view(&self) -> OutputView {
        OutputView { amount: self.amount@, asset: self.asset@, dest: self.dest@ }
    }
}

/// What a list of outputs says.
pub open spec fn outputs_view(outputs: Seq<Output>) -> Seq<OutputView> {
    outputs.map_values(|o: Output| o@)
}

/// The decision on a settlement round.
struct RoundDecision {
    terms_fp: [u8; 32],
    proposal_hashes: Table<[u8; 32], bool>,
    proofs: Vec<Vec<u8>>,
    outputs: Vec<Output>,
    meed_amount: Option<u128>,
    e_r: Vec<(u8, BigNat)>,
    meed_folded: bool,
    net_folded: bool,
    meed_final_time: Option<u64>,
    deterministic: bool,
    ledger_version: u64,
    confirmed: bool,
    draw_ref: Option<String>,
    target_p: Option<u128>,
}

/// The decision on a settlement round.
#[verifier::ext_equal]
pub struct RoundView {
    /// The fingerprint of the round's terms.
    pub terms_fp: [u8; 32],
    /// The proposals that were accepted for it.
    pub proposal_hashes: Set<[u8; 32]>,
    /// The proofs kept as evidence.
    pub proofs: Seq<Seq<u8>>,
    /// The net outputs owed.
    pub outputs: Seq<OutputView>,
    /// The meed owed, if any.
    pub meed_amount: Option<u128>,
    /// What the round extinguishes, per role.
    pub e_r: Seq<(u8, nat)>,
    /// Whether `e_r` is in the ledger.
    pub meed_folded: bool,
    /// Whether the net is in the ledger.
    pub net_folded: bool,
    /// When the meed leg became final.
    pub meed_final_time: Option<u64>,
    /// Whether the round needs no conversion.
    pub deterministic: bool,
    /// The ledger version that the round stands on.
    pub ledger_version: u64,
    /// Whether the round is complete.
    pub confirmed: bool,
    /// The merchant's own draw, once submitted.
    pub draw_ref: Option<Seq<char>>,
    /// The watermark that the meed leg has to reach.
    pub target_p: Option<u128>,
}

impl View for RoundDecision {
    type V = RoundView;

    closed spec fn view(&self) -> RoundView {
        RoundView {
            terms_fp: self.terms_fp,
            proposal_hashes: self.proposal_hashes@.dom(),
            proofs: self.proofs@.map_values(|p: Vec<u8>| p@),
            outputs: outputs_view(self.outputs@),
            meed_amount: self.meed_amount,
            e_r: rows_nat(self.e_r@),
            meed_folded: self.meed_folded,
            net_folded: self.net_folded,
            meed_final_time: self.meed_final_time,
            deterministic: self.deterministic,
            ledger_version: self.ledger_version,
            confirmed: self.confirmed,
            draw_ref: text_option(self.draw_ref),
            target_p: self.target_p,
        }
    }
}

/// The position that a chained channel opened at.
struct ImportedBasis {
    cum: u128,
    ckpt_ref: [u8; 32],
    accruals: Vec<(u8, BigNat)>,
    opening_settled_r: Vec<(u8, BigNat)>,
}

/// The position that a chained channel opened at.
#[verifier::ext_equal]
pub struct BasisView {
    pub cum: u128,
    pub ckpt_ref: [u8; 32],
    pub accruals: Seq<(u8, nat)>,
    /// What the predecessor had settled, per role.
    pub opening_settled_r: Seq<(u8, nat)>,
}

impl View for ImportedBasis {
    type V = BasisView;

    closed spec fn view(&self) -> BasisView {
        BasisView {
            cum: self.cum,
            ckpt_ref: self.ckpt_ref,
            accruals: rows_nat(self.accruals@),
            opening_settled_r: rows_nat(self.opening_settled_r@),
        }
    }
}

/// The merchant's channel plane.
pub struct Carriage<S: OneDecisionStore> {
    profile: Profile,
    driver: ChannelDriver,
    channels: Table<[u8; 8], Meter>,
    operative: Table<[u8; 8], Operative>,
    ledger: Table<[u8; 8], Ledger>,
    rounds: Table<CheckpointKey, RoundDecision>,
    levels: Option<Vec<String>>,
    consumed_funding: TextSet,
    channel_established_at: Table<[u8; 8], u64>,
    chain_state: Table<[u8; 8], ChainState>,
    imported_basis: Table<[u8; 8], ImportedBasis>,
    decisions: Option<S>,
}

/// What a [`Carriage`] holds, apart from its store.
#[verifier::ext_equal]
pub struct CarriageView {
    pub profile: Profile,
    pub driver: DriverView,
    /// The metering of each channel.
    pub channels: Map<[u8; 8], MeterView>,
    /// The operative checkpoint of each channel.
    pub operative: Map<[u8; 8], OperativeView>,
    /// The ledger of each channel on which something was settled.
    pub ledger: Map<[u8; 8], LedgerView>,
    /// The settlement rounds.
    pub rounds: Map<CheckpointKey, RoundView>,
    /// The finality levels of the rail, weakest first, where there is a rail.
    pub levels: Option<Seq<Seq<char>>>,
    /// The rail references that were credited.
    pub consumed: Set<Seq<char>>,
    /// When each channel's chain was established.
    pub established_at: Map<[u8; 8], u64>,
    /// The close dispositions.
    pub chain: Map<[u8; 8], ChainState>,
    /// The positions that chained channels opened at.
    pub imported: Map<[u8; 8], BasisView>,
}

impl<S: OneDecisionStore> View for Carriage<S> {
    type V = CarriageView;

    closed spec fn view(&self) -> CarriageView {
        CarriageView {
            profile: self.profile,
            driver: self.driver@,
            channels: self.channels@,
            operative: self.operative@,
            ledger: self.ledger@,
            rounds: self.rounds@,
            levels: match self.levels {
                Some(l) => Some(texts(l@)),
                None => None,
            },
            consumed: self.consumed_funding@,
            established_at: self.channel_established_at@,
            chain: self.chain_state@,
            imported: self.imported_basis@,
        }
    }
}

/// The ledger of a channel; one on which nothing was settled is empty.
pub open spec fn ledger_of(v: CarriageView, channel: [u8; 8]) -> LedgerView {
    if v.ledger.dom().contains(channel) {
        v.ledger[channel]
    } else {
        LedgerView { settled_r: Seq::empty(), net_legs_sum: 0, funding_sum: 0, version: 0 }
    }
}

/// The mode of a channel that is metered.
pub open spec fn mode_of(v: CarriageView, channel: [u8; 8]) -> Option<Mode> {
    if v.channels.dom().contains(channel) {
        Some(v.channels[channel].mode)
    } else {
        None
    }
}

/// The disposition of a channel.
pub open spec fn disposition_of(v: CarriageView, channel: [u8; 8]) -> Option<ChainState> {
    if v.chain.dom().contains(channel) {
        Some(v.chain[channel])
    } else {
        None
    }
}

/// Whether a new settlement round is barred: only while a successor may still
/// take, or took, the position over.
pub open spec fn barred(v: CarriageView, channel: [u8; 8]) -> bool {
    match disposition_of(v, channel) {
        Some(ChainState::Pending) => true,
        Some(ChainState::Committed { .. }) => true,
        _ => false,
    }
}

/// Whether funding can be credited to a channel. A postpay channel takes it in
/// every phase but the last; a prepay one only while its deposit can still be
/// returned.
pub open spec fn admissible(v: CarriageView, channel: [u8; 8]) -> bool {
    &&& v.channels.dom().contains(channel)
    &&& v.channels[channel].status != Status::Closed
    &&& match v.channels[channel].mode {
        Mode::Postpay => !(disposition_of(v, channel) matches Some(ChainState::Committed { .. })),
        Mode::Prepay => !(disposition_of(v, channel) matches Some(ChainState::Committed { .. }))
            && !(disposition_of(v, channel) matches Some(ChainState::Reconciled { .. })),
    }
}

/// The channel that `steps` successor links lead to from `channel`, or the first
/// on the way that has none.
pub open spec fn tip_from(chain: Map<[u8; 8], ChainState>, channel: [u8; 8], steps: nat) -> [u8; 8]
    decreases steps,
{
    if steps == 0 {
        channel
    } else if chain.dom().contains(channel) {
        match chain[channel] {
            ChainState::Committed { successor } => tip_from(chain, successor, (steps - 1) as nat),
            _ => channel,
        }
    } else {
        channel
    }
}

/// The channel that carries the position of `channel` now.
pub open spec fn live_tip(chain: Map<[u8; 8], ChainState>, channel: [u8; 8]) -> [u8; 8] {
    tip_from(chain, channel, chain.dom().len() + 1)
}

/// Whether a round of `channel` other than the one at `but` is not complete.
pub open spec fn other_round_open(v: CarriageView, channel: [u8; 8], but: Option<[u8; 32]>) -> bool {
    exists|k: CheckpointKey|
        {
            &&& #[trigger] v.rounds.dom().contains(k)
            &&& k.channel == channel
            &&& but != Some(k.ckpt_ref)
            &&& !v.rounds[k].confirmed
        }
}

/// `type-octet ‖ object bytes`.
pub open spec fn framed_bytes(octet: u8, obj: Seq<u8>) -> Seq<u8> {
    seq![octet] + obj
}

/// `type-octet ‖ object bytes`.
pub fn framed(octet: u8, obj: &[u8]) -> (out: Vec<u8>)
    ensures
        out@ == framed_bytes(octet, obj@),
{
    let mut out: Vec<u8> = Vec::new();
    out.push(octet);
    extend(&mut out, obj);
    assert(out@ =~= framed_bytes(octet, obj@));
    out
}

fn copy_output(o: &Output) -> (r: Output)
    ensures
        r@ == o@,
{
    Output { amount: o.amount.copy(), asset: o.asset.clone(), dest: o.dest.clone() }
}

fn copy_outputs(outputs: &Vec<Output>) -> (r: Vec<Output>)
    ensures
        outputs_view(r@) == outputs_view(outputs@),
{
    let mut r: Vec<Output> = Vec::new();
    let mut i: usize = 0;
    while i < outputs.len()
        invariant
            i <= outputs@.len(),
            r@.len() == i,
            forall|j: int| 0 <= j < i ==> (#[trigger] r@[j])@ == outputs@[j]@,
        decreases outputs@.len() - i,
    {
        r.push(copy_output(&outputs[i]));
        i = i + 1;
    }
    assert(outputs_view(r@) =~= outputs_view(outputs@));
    r
}

/// Whether the bounds of every channel's balance are in order.
pub open spec fn bounds_ordered(v: CarriageView) -> bool {
    forall|channel: [u8; 8]| #[trigger]
        v.channels.dom().contains(channel) ==> v.channels[channel].bound_lower
            <= v.channels[channel].bound_upper
}

/// Whether every round that is held to a checkpoint pays one output at most.
pub open spec fn one_output(v: CarriageView) -> bool {
    forall|key: CheckpointKey| #[trigger]
        v.rounds.dom().contains(key) && v.rounds[key].deterministic ==> v.rounds[key].outputs.len() <= 1
}

/// Whether every round with both its legs in the ledger is complete.
pub open spec fn rounds_whole(v: CarriageView) -> bool {
    forall|key: CheckpointKey| #[trigger]
        v.rounds.dom().contains(key) && v.rounds[key].meed_folded && v.rounds[key].net_folded
            ==> v.rounds[key].confirmed
}

impl<S: OneDecisionStore> Carriage<S> {
    /// The store, where there is one.
    pub closed spec fn store(&self) -> Option<S> {
        self.decisions
    }

    /// The decisions that the store is known to hold.
    pub open spec fn recorded(&self) -> Map<Seq<u8>, Seq<u8>> {
        recorded_in(self.store())
    }

    /// Whether there is a store.
    pub open spec fn stored(&self) -> bool {
        self.store() is Some
    }

    /// Whether `r` is what claiming `key` for `value` in the store gave, and `after` the
    /// carriage with the store as it is then. Without a store a claim is fresh.
    pub open spec fn asked(&self, key: Seq<u8>, value: Seq<u8>, after: Self, r: Decision) -> bool {
        claimed_in(self.store(), key, value, after.store(), r)
    }

    /// Whether `r` is what reading `key` in the store gave; without a store nothing is
    /// found.
    pub open spec fn found(&self, key: Seq<u8>, r: Option<Vec<u8>>) -> bool {
        found_in(self.store(), key, r)
    }

    /// Whether `after` has the same store, in the same state.
    pub open spec fn same_store(&self, after: Self) -> bool {
        self.store() == after.store()
    }

    /// Whether the store is in order, the bounds of every balance are, every round that is
    /// held to a checkpoint pays one output at most, and every round with both its legs in
    /// the ledger is complete.
    pub open spec fn wf(&self) -> bool {
        &&& in_order(self.store())
        &&& bounds_ordered(self@)
        &&& one_output(self@)
        &&& rounds_whole(self@)
    }

    fn empty(driver: ChannelDriver, profile: Profile, levels: Option<Vec<String>>) -> (c: Self)
        ensures
            c.wf(),
            !c.stored(),
            c.recorded() == Map::<Seq<u8>, Seq<u8>>::empty(),
            c@ == fresh(driver@, profile, match levels {
                Some(l) => Some(texts(l@)),
                None => None,
            }),
    {
        let c: Carriage<S> = Carriage {
            profile,
            driver,
            channels: Table::new(),
            operative: Table::new(),
            ledger: Table::new(),
            rounds: Table::new(),
            levels,
            consumed_funding: TextSet::new(),
            channel_established_at: Table::new(),
            chain_state: Table::new(),
            imported_basis: Table::new(),
            decisions: None,
        };
        c
    }

    /// A carriage for demonstrations: no rail, no store.
    pub fn demo(driver: ChannelDriver) -> (c: Self)
        ensures
            c.wf(),
            !c.stored(),
            c.recorded() == Map::<Seq<u8>, Seq<u8>>::empty(),
            c@ == fresh(driver@, Profile::Demo, None),
    {
        Self::empty(driver, Profile::Demo, None)
    }

    /// Attaches a rail with the given finality levels, weakest first.
    pub fn with_rail(self, levels: Vec<String>) -> (c: Self)
        requires
            self.wf(),
        ensures
            c.wf(),
            self.same_store(c),
            c@ == (CarriageView { levels: Some(texts(levels@)), ..self@ }),
    {
        let mut c: Self = self;
        c.levels = Some(levels);
        c
    }

    /// The merchant's identity key.
    pub fn merchant_key(&self) -> (r: [u8; 32])
        ensures
            r == self@.driver.key,
    {
        self.driver.key()
    }

    /// The key that session secrets are sealed to.
    pub fn enc_key(&self) -> (r: [u8; 32])
        ensures
            r == self@.driver.enc_key,
    {
        self.driver.enc_key()
    }

    /// The establishment driver.
    pub fn driver(&self) -> (r: &ChannelDriver)
        ensures
            r@ == self@.driver,
    {
        &self.driver
    }

    /// The close disposition of a channel.
    pub fn disposition(&self, channel: &[u8; 8]) -> (r: Option<ChainState>)
        ensures
            r == disposition_of(self@, *channel),
    {
        match self.chain_state.get(channel) {
            Some(state) => Some(*state),
            None => None,
        }
    }

    /// The metering of a channel.
    pub fn state(&self, channel: &[u8; 8]) -> (r: Option<&Meter>)
        ensures
            match r {
                Some(m) => self@.channels.dom().contains(*channel) && m@ == self@.channels[*channel],
                None => !self@.channels.dom().contains(*channel),
            },
    {
        self.channels.get(channel)
    }

    /// Takes over what the metering engine says of a channel that is open here.
    /// The result says whether it is.
    pub fn refresh(&mut self, channel: &[u8; 8], meter: Meter) -> (known: bool)
        requires
            old(self).wf(),
            meter.bound_lower <= meter.bound_upper,
        ensures
            final(self).wf(),
            old(self).same_store(*final(self)),
            known == old(self)@.channels.dom().contains(*channel),
            final(self)@ == (if known {
                CarriageView {
                    channels: old(self)@.channels.insert(*channel, meter@),
                    ..old(self)@
                }
            } else {
                old(self)@
            }),
    {
        if !self.channels.contains(channel) {
            return false;
        }
        self.channels.insert(*channel, meter);
        true
    }

    /// Whether a new settlement round is barred on a channel.
    pub fn bars_new_round(&self, channel: &[u8; 8]) -> (r: bool)
        ensures
            r == barred(self@, *channel),
    {
        match self.chain_state.get(channel) {
            Some(ChainState::Pending) => true,
            Some(ChainState::Committed { .. }) => true,
            _ => false,
        }
    }

    /// Whether funding can be credited to a channel.
    pub fn funding_admissible(&self, channel: &[u8; 8]) -> (r: bool)
        ensures
            r == admissible(self@, *channel),
    {
        let meter: &Meter = match self.channels.get(channel) {
            Some(m) => m,
            None => return false,
        };
        if meter.status == Status::Closed {
            return false;
        }
        match meter.mode {
            Mode::Postpay => match self.chain_state.get(channel) {
                Some(ChainState::Committed { .. }) => false,
                _ => true,
            },
            Mode::Prepay => match self.chain_state.get(channel) {
                Some(ChainState::Committed { .. }) => false,
                Some(ChainState::Reconciled { .. }) => false,
                _ => true,
            },
        }
    }

    /// The channel that carries the position of `channel` now.
    pub fn resolve_chain_tip(&self, channel: [u8; 8]) -> (r: [u8; 8])
        ensures
            self@.chain.dom().finite(),
            r == live_tip(self@.chain, channel),
    {
        let n: usize = self.chain_state.count();
        let mut cur: [u8; 8] = channel;
        let mut left: usize = n;
        let mut more: bool = true;
        while more
            invariant
                n == self@.chain.dom().len(),
                left <= n,
                more ==> live_tip(self@.chain, channel) == tip_from(self@.chain, cur, (left + 1) as nat),
                !more ==> live_tip(self@.chain, channel) == cur,
            decreases
                if more {
                    left + 1
                } else {
                    0
                },
        {
            proof {
                reveal_with_fuel(tip_from, 2);
            }
            match self.chain_state.get(&cur) {
                Some(ChainState::Committed { successor }) => {
                    cur = *successor;
                    if left == 0 {
                        more = false;
                    } else {
                        left = left - 1;
                    }
                },
                _ => {
                    more = false;
                },
            }
        }
        cur
    }

    /// Whether both finality levels are the rail's strongest one.
    pub fn finality_is_irreversible(&self, fin_meed: &String, fin_denom: &String) -> (r: bool)
        ensures
            r == irreversible(self@.levels, fin_meed@, fin_denom@),
    {
        finality_is_irreversible(self.levels.as_ref(), fin_meed, fin_denom)
    }

    /// Whether a rail reference was credited.
    pub fn ref_consumed(&self, canonical: &String) -> (r: bool)
        ensures
            r == self@.consumed.contains(canonical@),
    {
        self.consumed_funding.contains(canonical)
    }
}

/// A carriage on which nothing has happened.
pub open spec fn fresh(
    driver: DriverView,
    profile: Profile,
    levels: Option<Seq<Seq<char>>>,
) -> CarriageView {
    CarriageView {
        profile,
        driver,
        channels: Map::empty(),
        operative: Map::empty(),
        ledger: Map::empty(),
        rounds: Map::empty(),
        levels,
        consumed: Set::empty(),
        established_at: Map::empty(),
        chain: Map::empty(),
        imported: Map::empty(),
    }
}

} // verus!
