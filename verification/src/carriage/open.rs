//! Opening a channel, fresh or chained to a predecessor.

use vstd::prelude::*;

use crate::bignat::BigNat;
use crate::bytes::same_array;
use crate::carriage::guards::law_healthy_log_decides;
use crate::carriage::rounds::{imported_settled, target_of};
use crate::carriage::{
    disposition_of, framed, framed_bytes, ledger_of, BasisView, Carriage, CarriageError,
    CarriageView, ImportedBasis, Ledger, LedgerView, Meter, MeterView, Profile, Response,
};
use crate::channel::{
    accepted, chain_terms_bytes, chain_terms_fit, chain_terms_preimage, established, importable,
    imports, refusal, text_fits, ChainSnapshot, ChainTerms, ChannelAuth, ChannelError, DriverView,
    Established, ImportPlan, Mode, OpenFacts, OpenOutcome, SnapshotView,
};
use crate::disposition::{disp_bytes, ChainState};
use crate::framing::MAX_FIELD;
use crate::keys::{disp_key_bytes, open_key_bytes};
use crate::medium::LogMedium;
use crate::meed::{
    amount_of, ascending, carve, copy_rows, find_amount, law_later_accrual_is_unsettled,
    law_outstanding_is_unsettled, meed_carve, outstanding, outstanding_meed_per_role, reconcilable, rows_nat,
    sum_of, total, unsettled,
};
use crate::one_decision::{claimed_in, keeps, Decision, OneDecisionStore, WalOneDecision};
use crate::rail::irreversible;

verus! {

/// The type octet of a channel acknowledgment.
pub const T_CHANNEL_ACK: u8 = 0x02;

/// `n` between `low` and `high`.
pub open spec fn clamped(n: int, low: int, high: int) -> int {
    if n < low {
        low
    } else if n > high {
        high
    } else {
        n
    }
}

/// What was paid of a position: the funding, and on a postpay channel the net legs
/// and the settled carve. It stops at the largest number it is kept in.
pub open spec fn position_paid(mode: Mode, settled: Seq<(u8, nat)>, net_legs: u128, funding: u128) -> int {
    match mode {
        Mode::Postpay => clamped(funding + net_legs + carve(settled), 0, u128::MAX as int),
        Mode::Prepay => funding as int,
    }
}

/// The balance that a successor opens with: what was consumed less what was paid,
/// within the channel's bounds.
pub open spec fn imported_balance(
    mode: Mode,
    cum: u128,
    settled: Seq<(u8, nat)>,
    net_legs: u128,
    funding: u128,
    low: i128,
    high: i128,
) -> int {
    clamped(
        clamped(
            cum - position_paid(mode, settled, net_legs, funding),
            i128::MIN as int,
            i128::MAX as int,
        ),
        low as int,
        high as int,
    )
}

/// The balance that a successor opens with.
pub fn imported_balance_f6e(
    mode: Mode,
    cum: u128,
    settled_r: &Vec<(u8, BigNat)>,
    net_legs: u128,
    funding: u128,
    bound_lower: i128,
    bound_upper: i128,
) -> (b: i128)
    requires
        bound_lower <= bound_upper,
    ensures
        b == imported_balance(
            mode,
            cum,
            rows_nat(settled_r@),
            net_legs,
            funding,
            bound_lower,
            bound_upper,
        ),
{
    let paid: u128 = match mode {
        Mode::Postpay => {
            let carve: u128 = match meed_carve(settled_r).to_u128() {
                Some(n) => n,
                None => u128::MAX,
            };
            funding.saturating_add(net_legs).saturating_add(carve)
        },
        Mode::Prepay => funding,
    };
    assert(paid == position_paid(mode, rows_nat(settled_r@), net_legs, funding));
    let top: u128 = 0x7fff_ffff_ffff_ffff_ffff_ffff_ffff_ffff;
    let b: i128 = if cum >= paid {
        let d: u128 = cum - paid;
        if d <= top {
            d as i128
        } else {
            i128::MAX
        }
    } else {
        let d: u128 = paid - cum;
        if d <= top {
            -(d as i128)
        } else {
            i128::MIN
        }
    };
    if b < bound_lower {
        bound_lower
    } else if b > bound_upper {
        bound_upper
    } else {
        b
    }
}

/// What the caller computed for a chained open.
#[derive(Debug, Clone, Copy)]
pub struct ChainFacts {
    /// The reference of the predecessor's synthetic checkpoint, where it can be
    /// formed from [`Carriage::stillborn`].
    pub synthetic_ref: Option<[u8; 32]>,
    /// The fingerprint of the predecessor's terms, from
    /// [`Carriage::chain_preimage`].
    pub terms_fp: [u8; 32],
}

/// What the synthetic checkpoint of a channel without one is made of.
#[derive(Debug)]
pub struct Stillborn {
    pub prepay: bool,
    pub accruals: Vec<(u8, BigNat)>,
    pub net_legs_sum: u128,
    pub funding_sum: u128,
    pub timestamp: u64,
}

/// The signed metering of a predecessor that `named_ref` names: its operative
/// checkpoint, or, where nothing was metered, its synthetic one.
pub open spec fn named_basis(
    v: CarriageView,
    channel: [u8; 8],
    named_ref: [u8; 32],
    synthetic_ref: Option<[u8; 32]>,
) -> Option<(u128, Seq<(u8, nat)>)> {
    if v.operative.dom().contains(channel) {
        let op = v.operative[channel];
        if op.ckpt_ref == named_ref && op.cum_total <= u128::MAX {
            Some((op.cum_total as u128, op.accruals))
        } else {
            None
        }
    } else if v.channels[channel].cum_total == 0 && synthetic_ref == Some(named_ref) {
        Some((0, v.channels[channel].accruals))
    } else {
        None
    }
}

/// The terms of a channel that its successor must share.
pub open spec fn chain_terms_of(v: CarriageView, channel: [u8; 8]) -> ChainTerms {
    let t = v.driver.retained[channel].terms;
    ChainTerms {
        mode: v.channels[channel].mode,
        seed_instance: t.seed_instance,
        denom: t.denom,
        baseline_net: t.baseline_net,
        fin_meed: t.fin_meed,
        fin_denom: t.fin_denom,
        th_value: t.th_value,
        th_time: t.th_time,
    }
}

/// The position that a successor of `channel` opens at, as it is now.
pub open spec fn snapshot_of(
    v: CarriageView,
    channel: [u8; 8],
    named_ref: [u8; 32],
    facts: ChainFacts,
) -> Option<SnapshotView> {
    let led = ledger_of(v, channel);
    if !v.channels.dom().contains(channel) || !v.driver.retained.dom().contains(channel)
        || !v.established_at.dom().contains(channel) {
        None
    } else {
        let meter = v.channels[channel];
        match named_basis(v, channel, named_ref, facts.synthetic_ref) {
            Some((cum_total, accruals)) => if reconcilable(accruals, led.settled_r) {
                Some(
                    SnapshotView {
                        cum_total,
                        accruals,
                        opening_settled_r: led.settled_r,
                        opening_net_legs: led.net_legs_sum,
                        opening_funding: led.funding_sum,
                        imported_balance: imported_balance(
                            meter.mode,
                            cum_total,
                            led.settled_r,
                            led.net_legs_sum,
                            led.funding_sum,
                            meter.bound_lower,
                            meter.bound_upper,
                        ) as i128,
                        payer_key: v.driver.retained[channel].payer_key,
                        mode: meter.mode,
                        terms_fingerprint: facts.terms_fp,
                        established_at: v.established_at[channel],
                    },
                )
            } else {
                None
            },
            None => None,
        }
    }
}

/// The carriage once the predecessor of an open is looked up, or why the open is
/// refused. A pending predecessor's position is taken as it is now; what an
/// earlier open left of it is dropped first, so that a stale position is never
/// imported.
pub open spec fn open_prepared(v: CarriageView, auth: ChannelAuth, facts: ChainFacts) -> Result<
    CarriageView,
    CarriageError,
> {
    if !irreversible(v.levels, auth.fin_meed@, auth.fin_denom@) {
        Err(CarriageError::Rejected)
    } else {
        match auth.predecessor {
            Some(pred) => {
                let cleared = DriverView { snapshots: v.driver.snapshots.remove(pred), ..v.driver };
                match disposition_of(v, pred.channel) {
                    Some(ChainState::Pending) => Ok(
                        CarriageView {
                            driver: match snapshot_of(v, pred.channel, pred.ckpt_ref, facts) {
                                Some(snap) => DriverView {
                                    snapshots: cleared.snapshots.insert(pred, snap),
                                    ..cleared
                                },
                                None => cleared,
                            },
                            ..v
                        },
                    ),
                    Some(ChainState::Committed { .. }) => Ok(CarriageView { driver: cleared, ..v }),
                    Some(ChainState::Reconciled { .. }) => Err(CarriageError::Rejected),
                    None => Ok(v),
                }
            },
            None => Ok(v),
        }
    }
}

/// Whether the metering engine starts a channel where it has to: in its mode, within
/// ordered bounds, and at the imported position, role by role of its vector; a channel
/// that imports none starts at nothing.
pub open spec fn opens_at(meter: MeterView, auth: ChannelAuth, import: Option<ImportPlan>) -> bool {
    &&& meter.mode == auth.mode
    &&& meter.bound_lower <= meter.bound_upper
    &&& match import {
        Some(plan) => {
            &&& meter.cum_total == plan.cum_total
            &&& meter.balance == plan.imported_balance
            &&& meter.accruals.len() == plan.accruals@.len()
            &&& plan.accruals@.len() == auth.vector@.len()
            &&& forall|i: int|
                0 <= i < auth.vector@.len() ==> (#[trigger] plan.accruals@[i])@ == amount_of(
                    meter.accruals,
                    auth.vector@[i].role,
                )
        },
        None => {
            &&& meter.cum_total == 0
            &&& meter.balance == 0
            &&& forall|i: int| 0 <= i < meter.accruals.len() ==> (#[trigger] meter.accruals[i]).1 == 0
        },
    }
}

fn same_accruals(accruals: &Vec<BigNat>, rows: &Vec<(u8, BigNat)>, auth: &ChannelAuth) -> (r: bool)
    requires
        accruals@.len() == auth.vector@.len(),
    ensures
        r == (forall|i: int|
            0 <= i < auth.vector@.len() ==> (#[trigger] accruals@[i])@ == amount_of(
                rows_nat(rows@),
                auth.vector@[i].role,
            )),
{
    let mut i: usize = 0;
    while i < auth.vector.len()
        invariant
            i <= auth.vector@.len(),
            accruals@.len() == auth.vector@.len(),
            forall|j: int|
                0 <= j < i ==> (#[trigger] accruals@[j])@ == amount_of(
                    rows_nat(rows@),
                    auth.vector@[j].role,
                ),
        decreases auth.vector@.len() - i,
    {
        if !accruals[i].same(&find_amount(rows, auth.vector[i].role)) {
            assert(accruals@[i as int]@ != amount_of(rows_nat(rows@), auth.vector@[i as int].role));
            return false;
        }
        i = i + 1;
    }
    true
}

fn all_zero(rows: &Vec<(u8, BigNat)>) -> (r: bool)
    ensures
        r == (forall|i: int| 0 <= i < rows@.len() ==> (#[trigger] rows_nat(rows@)[i]).1 == 0),
{
    let zero: BigNat = BigNat::zero();
    let mut i: usize = 0;
    while i < rows.len()
        invariant
            i <= rows@.len(),
            zero@ == 0,
            forall|j: int| 0 <= j < i ==> (#[trigger] rows_nat(rows@)[j]).1 == 0,
        decreases rows@.len() - i,
    {
        assert(rows_nat(rows@)[i as int].1 == rows@[i as int].1@);
        if !rows[i].1.same(&zero) {
            return false;
        }
        i = i + 1;
    }
    true
}

fn starts_at(meter: &Meter, auth: &ChannelAuth, import: &Option<ImportPlan>) -> (r: bool)
    ensures
        r == opens_at(meter@, *auth, *import),
{
    if meter.mode != auth.mode || meter.bound_lower > meter.bound_upper {
        return false;
    }
    assert(meter@.accruals.len() == meter.accruals@.len());
    match import {
        Some(plan) => meter.cum_total == plan.cum_total && meter.balance == plan.imported_balance
            && meter.accruals.len() == plan.accruals.len() && plan.accruals.len() == auth.vector.len()
            && same_accruals(&plan.accruals, &meter.accruals, auth),
        None => meter.cum_total == 0 && meter.balance == 0 && all_zero(&meter.accruals),
    }
}

/// The position that a chained channel opened at.
pub open spec fn basis_of(auth: ChannelAuth, meter: MeterView, plan: ImportPlan) -> BasisView {
    BasisView {
        cum: meter.cum_total,
        ckpt_ref: (auth.predecessor->0).ckpt_ref,
        accruals: meter.accruals,
        opening_settled_r: rows_nat(plan.openings.settled_r@),
    }
}

/// The carriage once a channel is established.
pub open spec fn installed(
    v: CarriageView,
    auth: ChannelAuth,
    auth_hash: [u8; 32],
    open_hash: [u8; 32],
    seed_instance: [u8; 32],
    ack: Seq<u8>,
    meter: MeterView,
    import: Option<ImportPlan>,
) -> CarriageView {
    let channel = auth.channel_id;
    let base = CarriageView {
        driver: accepted(v.driver, auth, auth_hash, open_hash, seed_instance, ack),
        channels: v.channels.insert(channel, meter),
        established_at: v.established_at.insert(
            channel,
            match import {
                Some(plan) => plan.established_at,
                None => auth.timestamp,
            },
        ),
        ..v
    };
    match import {
        Some(plan) => CarriageView {
            ledger: base.ledger.insert(
                channel,
                LedgerView {
                    settled_r: rows_nat(plan.openings.settled_r@),
                    net_legs_sum: plan.openings.net_legs,
                    funding_sum: plan.openings.funding,
                    version: 0,
                },
            ),
            imported: base.imported.insert(channel, basis_of(auth, meter, plan)),
            chain: base.chain.insert(
                (auth.predecessor->0).channel,
                ChainState::Committed { successor: channel },
            ),
            ..base
        },
        None => base,
    }
}

impl<S: OneDecisionStore> Carriage<S> {
    /// What the synthetic checkpoint of a channel is made of.
    pub fn stillborn(&self, channel: &[u8; 8]) -> (r: Option<Stillborn>)
        ensures
            match r {
                Some(s) => {
                    &&& self@.channels.dom().contains(*channel)
                    &&& self@.established_at.dom().contains(*channel)
                    &&& s.prepay == (self@.channels[*channel].mode == Mode::Prepay)
                    &&& rows_nat(s.accruals@) == self@.channels[*channel].accruals
                    &&& s.net_legs_sum == ledger_of(self@, *channel).net_legs_sum
                    &&& s.funding_sum == ledger_of(self@, *channel).funding_sum
                    &&& s.timestamp == self@.established_at[*channel]
                },
                None => !self@.channels.dom().contains(*channel) || !self@.established_at.dom().contains(
                    *channel,
                ),
            },
    {
        let (net_legs_sum, funding_sum, _version): (u128, u128, u64) = self.ledger_sums(channel);
        match (self.channels.get(channel), self.channel_established_at.get(channel)) {
            (Some(m), Some(at)) => Some(
                Stillborn {
                    prepay: m.mode == Mode::Prepay,
                    accruals: copy_rows(&m.accruals),
                    net_legs_sum,
                    funding_sum,
                    timestamp: *at,
                },
            ),
            _ => None,
        }
    }

    /// The bytes that the identical-terms fingerprint of a channel is taken over;
    /// `None` where the channel is unknown, or one of its terms cannot be framed.
    pub fn chain_preimage(&self, channel: &[u8; 8]) -> (r: Option<Vec<u8>>)
        ensures
            ({
                let known = self@.channels.dom().contains(*channel) && self@.driver.retained.dom().contains(
                    *channel,
                );
                let t = chain_terms_of(self@, *channel);
                match r {
                    Some(bytes) => known && chain_terms_fit(t) && bytes@ == chain_terms_bytes(t),
                    None => !known || !chain_terms_fit(t),
                }
            }),
    {
        match (self.channels.get(channel), self.driver.settlement_terms(channel)) {
            (Some(m), Some(t)) => {
                if !framable(&t.denom) || !framable(&t.baseline_net) || !framable(&t.fin_meed)
                    || !framable(&t.fin_denom) {
                    return None;
                }
                Some(
                    chain_terms_preimage(
                        m.mode,
                        &t.seed_instance,
                        t.denom.as_str(),
                        t.baseline_net.as_str(),
                        t.fin_meed.as_str(),
                        t.fin_denom.as_str(),
                        t.th_value,
                        t.th_time,
                    ),
                )
            },
            _ => None,
        }
    }

    fn signed_metering(
        &self,
        channel: &[u8; 8],
        named_ref: &[u8; 32],
        synthetic_ref: &Option<[u8; 32]>,
        meter: &Meter,
    ) -> (r: Option<(u128, Vec<(u8, BigNat)>)>)
        requires
            self@.channels.dom().contains(*channel),
            meter@ == self@.channels[*channel],
        ensures
            match r {
                Some((cum, rows)) => named_basis(self@, *channel, *named_ref, *synthetic_ref) == Some(
                    (cum, rows_nat(rows@)),
                ),
                None => named_basis(self@, *channel, *named_ref, *synthetic_ref) is None,
            },
    {
        match self.operative.get(channel) {
            Some(op) => {
                if !same_array(&op.ckpt_ref, named_ref) {
                    return None;
                }
                match op.cum_total.to_u128() {
                    Some(cum) => Some((cum, copy_rows(&op.accruals))),
                    None => None,
                }
            },
            None => {
                let named: bool = match synthetic_ref {
                    Some(s) => same_array(s, named_ref),
                    None => false,
                };
                if meter.cum_total != 0 || !named {
                    return None;
                }
                Some((0, copy_rows(&meter.accruals)))
            },
        }
    }

    /// The position that a successor of a channel opens at, as it is now.
    pub fn compute_chain_snapshot(
        &self,
        channel: &[u8; 8],
        named_ref: &[u8; 32],
        facts: &ChainFacts,
    ) -> (r: Option<ChainSnapshot>)
        requires
            self.wf(),
        ensures
            match r {
                Some(snap) => snapshot_of(self@, *channel, *named_ref, *facts) == Some(snap@),
                None => snapshot_of(self@, *channel, *named_ref, *facts) is None,
            },
    {
        let meter: &Meter = match self.channels.get(channel) {
            Some(meter) => meter,
            None => return None,
        };
        let payer_key: [u8; 32] = match self.driver.payer_key(channel) {
            Some(key) => key,
            None => return None,
        };
        let established_at: u64 = match self.channel_established_at.get(channel) {
            Some(at) => *at,
            None => return None,
        };
        let opening_settled_r: Vec<(u8, BigNat)> = match self.ledger.get(channel) {
            Some(led) => copy_rows(&led.settled_r),
            None => Vec::new(),
        };
        let (opening_net_legs, opening_funding, _version): (u128, u128, u64) = self.ledger_sums(channel);
        assert(rows_nat(opening_settled_r@) =~= ledger_of(self@, *channel).settled_r);
        let (cum_total, accruals): (u128, Vec<(u8, BigNat)>) = match self.signed_metering(
            channel,
            named_ref,
            &facts.synthetic_ref,
            meter,
        ) {
            Some(basis) => basis,
            None => return None,
        };
        if outstanding_meed_per_role(&accruals, &opening_settled_r).is_none() {
            return None;
        }
        let imported_balance: i128 = imported_balance_f6e(
            meter.mode,
            cum_total,
            &opening_settled_r,
            opening_net_legs,
            opening_funding,
            meter.bound_lower,
            meter.bound_upper,
        );
        Some(
            ChainSnapshot {
                cum_total,
                accruals,
                opening_settled_r,
                opening_net_legs,
                opening_funding,
                imported_balance,
                payer_key,
                mode: meter.mode,
                terms_fingerprint: facts.terms_fp,
                established_at,
            },
        )
    }

    /// Looks up the predecessor of an open, before the driver decides on it.
    pub fn on_open(&mut self, auth: &ChannelAuth, facts: &ChainFacts) -> (r: Result<(), CarriageError>)
        requires
            old(self).wf(),
        ensures
            final(self).wf(),
            old(self).same_store(*final(self)),
            match open_prepared(old(self)@, *auth, *facts) {
                Ok(after) => r is Ok && final(self)@ == after,
                Err(e) => r == Err::<(), CarriageError>(e) && final(self)@ == old(self)@,
            },
    {
        if !self.finality_is_irreversible(&auth.fin_meed, &auth.fin_denom) {
            return Err(CarriageError::Rejected);
        }
        if let Some(pred) = auth.predecessor {
            let state: Option<ChainState> = match self.chain_state.get(&pred.channel) {
                Some(state) => Some(*state),
                None => None,
            };
            match state {
                Some(ChainState::Pending) => {
                    let snap: Option<ChainSnapshot> = self.compute_chain_snapshot(
                        &pred.channel,
                        &pred.ckpt_ref,
                        facts,
                    );
                    self.driver.remove_chain_snapshot(&pred);
                    if let Some(snap) = snap {
                        self.driver.record_chain_snapshot(pred, snap);
                    }
                },
                Some(ChainState::Committed { .. }) => {
                    self.driver.remove_chain_snapshot(&pred);
                },
                Some(ChainState::Reconciled { .. }) => return Err(CarriageError::Rejected),
                None => {},
            }
        }
        Ok(())
    }

    /// Decides an open as far as it can be decided without its secret; see
    /// [`crate::channel::ChannelDriver::open_channel`]. Every refusal is the same
    /// to the sender.
    pub fn decide_open(&self, auth: &ChannelAuth, facts: &OpenFacts, now: u64) -> (r: Result<
        OpenOutcome,
        CarriageError,
    >)
        ensures
            match r {
                Ok(OpenOutcome::Retransmit(ack)) => {
                    &&& refusal(self@.driver, *auth, *facts, now) is None
                    &&& self@.driver.retained.dom().contains(auth.channel_id)
                    &&& ack@ == self@.driver.retained[auth.channel_id].ack
                },
                Ok(OpenOutcome::Fresh { auth_hash, open_hash }) => {
                    &&& refusal(self@.driver, *auth, *facts, now) is None
                    &&& !self@.driver.retained.dom().contains(auth.channel_id)
                    &&& facts.auth_hash == Some(auth_hash)
                    &&& facts.open_hash == Some(open_hash)
                },
                Err(e) => e == CarriageError::Rejected && refusal(self@.driver, *auth, *facts, now) is Some,
            },
    {
        match self.driver.open_channel(auth, facts, now) {
            Ok(outcome) => Ok(outcome),
            Err(_) => Err(CarriageError::Rejected),
        }
    }

    /// The answer to a retransmitted open: the stored acknowledgment.
    pub fn retransmitted_ack(ack: &Vec<u8>) -> (r: Response)
        ensures
            r matches Response::Message(m) && m@ == framed_bytes(T_CHANNEL_ACK, ack@),
    {
        Response::Message(framed(T_CHANNEL_ACK, ack.as_slice()))
    }

    /// The position that an open imports, where it is a chained one; `terms_fp` is
    /// the fingerprint of its own terms.
    pub fn decide_import(&self, auth: &ChannelAuth, terms_fp: &[u8; 32]) -> (r: Result<
        Option<ImportPlan>,
        CarriageError,
    >)
        ensures
            match r {
                Ok(Some(plan)) => {
                    &&& auth.predecessor is Some
                    &&& importable(self@.driver, auth.predecessor->0, *auth, *terms_fp)
                    &&& imports(self@.driver.snapshots[auth.predecessor->0], *auth, plan)
                },
                Ok(None) => auth.predecessor is None,
                Err(e) => {
                    &&& e == CarriageError::Rejected
                    &&& auth.predecessor is Some
                    &&& !importable(self@.driver, auth.predecessor->0, *auth, *terms_fp)
                },
            },
    {
        match auth.predecessor {
            Some(pred) => match self.driver.chained_import(&pred, auth, terms_fp) {
                Ok(plan) => Ok(Some(plan)),
                Err(_) => Err(CarriageError::Rejected),
            },
            None => Ok(None),
        }
    }

    /// Whether `r` is what recording the acceptance of a channel gave, and `after` the
    /// carriage with the store as it is then. A demonstration records none, and accepts.
    pub open spec fn acceptance_asked(&self, channel: [u8; 8], after: Self, r: Decision) -> bool {
        match self@.profile {
            Profile::Proof => self.asked(open_key_bytes(channel), Seq::empty(), after, r),
            Profile::Demo => r == Decision::Fresh && self.same_store(after),
        }
    }

    /// Whether `r` is what recording that a channel's position moved on to `successor`
    /// gave, and `after` the carriage with the store as it is then.
    pub open spec fn commitment_asked(
        &self,
        channel: [u8; 8],
        successor: [u8; 8],
        after: Self,
        r: Decision,
    ) -> bool {
        self.asked(
            disp_key_bytes(channel),
            disp_bytes(ChainState::Committed { successor }),
            after,
            r,
        )
    }

    /// Establishes a channel: records its acceptance, keeps its terms, and, where it
    /// is chained, takes the position over from its predecessor, and records that. One
    /// whose metering does not start at that position is refused, with nothing changed.
    pub fn install(
        &mut self,
        auth: &ChannelAuth,
        auth_hash: [u8; 32],
        open_hash: [u8; 32],
        seed_instance: &[u8; 32],
        ack: Vec<u8>,
        meter: Meter,
        import: Option<ImportPlan>,
    ) -> (r: Result<Response, CarriageError>)
        requires
            old(self).wf(),
            import is Some == auth.predecessor is Some,
        ensures
            final(self).wf(),
            final(self).stored() == old(self).stored(),
            keeps(old(self).recorded(), final(self).recorded()),
            !opens_at(meter@, *auth, import) ==> r is Err && old(self).same_store(*final(self)),
            opens_at(meter@, *auth, import) && (!old(self).stored() || old(self)@.profile
                == Profile::Demo) ==> r is Ok,
            old(self)@.profile == Profile::Proof && old(self).recorded().dom().contains(
                open_key_bytes(auth.channel_id),
            ) ==> r is Err,
            opens_at(meter@, *auth, import) ==> exists|opened: Decision, mid: Self|
                {
                    &&& #[trigger] old(self).acceptance_asked(auth.channel_id, mid, opened)
                    &&& r is Ok == (opened is Fresh)
                    &&& r is Err || auth.predecessor is None ==> mid.same_store(*final(self))
                    &&& r is Ok && auth.predecessor is Some ==> exists|kept: Decision|
                        {
                            &&& #[trigger] mid.commitment_asked(
                                (auth.predecessor->0).channel,
                                auth.channel_id,
                                *final(self),
                                kept,
                            )
                            &&& old(self).stored() && kept is Fresh
                                ==> final(self).recorded().contains_pair(
                                disp_key_bytes((auth.predecessor->0).channel),
                                disp_bytes(ChainState::Committed { successor: auth.channel_id }),
                            )
                        }
                },
            match r {
                Ok(reply) => {
                    &&& reply matches Response::Message(m) && m@ == framed_bytes(T_CHANNEL_ACK, ack@)
                    &&& final(self)@ == installed(
                        old(self)@,
                        *auth,
                        auth_hash,
                        open_hash,
                        *seed_instance,
                        ack@,
                        meter@,
                        import,
                    )
                    &&& old(self).stored() && old(self)@.profile == Profile::Proof
                        ==> final(self).recorded().contains_pair(
                        open_key_bytes(auth.channel_id),
                        Seq::empty(),
                    )
                },
                Err(e) => e == CarriageError::Rejected && final(self)@ == old(self)@,
            },
    {
        if !starts_at(&meter, auth, &import) {
            return Err(CarriageError::Rejected);
        }
        let ghost start: Map<Seq<u8>, Seq<u8>> = self.recorded();
        let opened: Result<(), ChannelError> = match self.profile {
            Profile::Proof => self.driver.establish(
                &mut self.decisions,
                auth,
                auth_hash,
                open_hash,
                seed_instance,
                &ack,
            ),
            Profile::Demo => self.driver.open_decided(
                &Decision::Fresh,
                auth,
                auth_hash,
                open_hash,
                seed_instance,
                &ack,
            ),
        };
        let ghost met: Self = *self;
        let ghost answer: Decision = if old(self)@.profile == Profile::Proof {
            choose|d: Decision|
                {
                    &&& #[trigger] claimed_in(
                        old(self).decisions,
                        open_key_bytes(auth.channel_id),
                        Seq::empty(),
                        met.decisions,
                        d,
                    )
                    &&& opened is Ok == (d is Fresh)
                }
        } else {
            Decision::Fresh
        };
        assert(old(self).acceptance_asked(auth.channel_id, met, answer) && opened is Ok == (answer is Fresh));
        if opened.is_err() {
            return Err(CarriageError::Rejected);
        }
        let ghost mid: Map<Seq<u8>, Seq<u8>> = self.recorded();
        let ghost after: CarriageView = self@;
        let reply: Response = Response::Message(framed(T_CHANNEL_ACK, ack.as_slice()));
        let ghost plan: Option<ImportPlan> = import;
        let basis: Option<ImportedBasis> = match (&import, &auth.predecessor) {
            (Some(plan), Some(pred)) => Some(
                ImportedBasis {
                    cum: meter.cum_total,
                    ckpt_ref: pred.ckpt_ref,
                    accruals: copy_rows(&meter.accruals),
                    opening_settled_r: copy_rows(&plan.openings.settled_r),
                },
            ),
            _ => None,
        };
        let est: Established = established(auth, auth_hash, ack, import);
        if let Some(op) = est.ledger_openings {
            self.ledger.insert(
                est.channel_id,
                Ledger {
                    settled_r: op.settled_r,
                    net_legs_sum: op.net_legs,
                    funding_sum: op.funding,
                    version: 0,
                },
            );
        }
        self.channel_established_at.insert(est.channel_id, est.established_at);
        if let Some(basis) = basis {
            self.imported_basis.insert(est.channel_id, basis);
        }
        self.channels.insert(est.channel_id, meter);
        if let Some(pred) = auth.predecessor {
            let committed: ChainState = ChainState::Committed { successor: est.channel_id };
            let ghost before: Self = *self;
            let kept: Decision = self.record_disposition(&pred.channel, &committed);
            self.chain_state.insert(pred.channel, committed);
            proof {
                assert(before.commitment_asked(pred.channel, auth.channel_id, *self, kept));
                assert(met.commitment_asked(pred.channel, auth.channel_id, *self, kept));
            }
        }
        proof {
            let want = installed(
                old(self)@,
                *auth,
                auth_hash,
                open_hash,
                *seed_instance,
                ack@,
                meter@,
                plan,
            );
            assert(self@ =~= want);
            assert forall|key: Seq<u8>| #[trigger] start.dom().contains(key) implies self.recorded().dom().contains(
                key,
            ) && self.recorded()[key] == start[key] by {
                assert(mid.dom().contains(key));
            }
            if old(self).stored() {
                if old(self)@.profile == Profile::Proof {
                    assert(mid.dom().contains(open_key_bytes(auth.channel_id)));
                }
            }
        }
        Ok(reply)
    }
}

fn framable(s: &String) -> (r: bool)
    ensures
        r == text_fits(s@),
{
    s.as_str().as_bytes().len() <= MAX_FIELD
}

/// Over a healthy log a channel is accepted exactly where its identifier was not accepted
/// before, and the log stays healthy.
pub proof fn law_healthy_log_opens<F: LogMedium>(
    c: Carriage<WalOneDecision<F>>,
    after: Carriage<WalOneDecision<F>>,
    channel: [u8; 8],
    r: Decision,
)
    requires
        c.store() is Some,
        c.store()->0.healthy(),
        c@.profile == Profile::Proof,
        c.acceptance_asked(channel, after, r),
    ensures
        after.store() is Some,
        after.store()->0.healthy(),
        r is Fresh == !c.recorded().dom().contains(open_key_bytes(channel)),
        after.recorded().dom() == c.recorded().dom().insert(open_key_bytes(channel)),
{
    law_healthy_log_decides(c, after, open_key_bytes(channel), Seq::empty(), r);
    assert(after.recorded().dom() =~= c.recorded().dom().insert(open_key_bytes(channel)));
}

/// A position that was settled on the predecessor's own books is never imported:
/// an open that names a reconciled channel is refused.
pub proof fn law_reconciled_position_is_never_imported(
    v: CarriageView,
    auth: ChannelAuth,
    facts: ChainFacts,
)
    requires
        auth.predecessor is Some,
        disposition_of(v, (auth.predecessor->0).channel) matches Some(ChainState::Reconciled { .. }),
    ensures
        open_prepared(v, auth, facts) is Err,
{
}

/// A position rolls forward once: after a successor took it over, no other open
/// that names the same channel finds a position to import, by whatever checkpoint.
pub proof fn law_position_rolls_forward_once(
    v: CarriageView,
    auth: ChannelAuth,
    facts: ChainFacts,
    terms_fp: [u8; 32],
)
    requires
        auth.predecessor is Some,
        disposition_of(v, (auth.predecessor->0).channel) matches Some(ChainState::Committed { .. }),
    ensures
        open_prepared(v, auth, facts) matches Ok(after) ==> !importable(
            after.driver,
            auth.predecessor->0,
            auth,
            terms_fp,
        ),
{
}

/// An imported position is the predecessor's current one: the successor's ledger,
/// its clock, its consumption, its accruals and its balance are what the predecessor's
/// books say at the moment of the import, late funding included.
pub proof fn law_import_takes_the_current_position(
    v: CarriageView,
    auth: ChannelAuth,
    facts: ChainFacts,
    auth_hash: [u8; 32],
    open_hash: [u8; 32],
    seed_instance: [u8; 32],
    ack: Seq<u8>,
    meter: MeterView,
    plan: ImportPlan,
)
    requires
        auth.predecessor is Some,
        disposition_of(v, (auth.predecessor->0).channel) == Some(ChainState::Pending),
        open_prepared(v, auth, facts) is Ok,
        (open_prepared(v, auth, facts)->Ok_0).driver.snapshots.dom().contains(auth.predecessor->0),
        imports(
            (open_prepared(v, auth, facts)->Ok_0).driver.snapshots[auth.predecessor->0],
            auth,
            plan,
        ),
        opens_at(meter, auth, Some(plan)),
        auth.channel_id != (auth.predecessor->0).channel,
    ensures
        ({
            let pred = (auth.predecessor->0).channel;
            let after = installed(
                open_prepared(v, auth, facts)->Ok_0,
                auth,
                auth_hash,
                open_hash,
                seed_instance,
                ack,
                meter,
                Some(plan),
            );
            let (old_led, new_led) = (ledger_of(v, pred), ledger_of(after, auth.channel_id));
            &&& new_led.settled_r == old_led.settled_r
            &&& new_led.net_legs_sum == old_led.net_legs_sum
            &&& new_led.funding_sum == old_led.funding_sum
            &&& after.established_at[auth.channel_id] == v.established_at[pred]
            &&& after.chain[pred] == (ChainState::Committed { successor: auth.channel_id })
            &&& named_basis(v, pred, (auth.predecessor->0).ckpt_ref, facts.synthetic_ref) matches Some(
                (cum, accruals),
            ) && {
                &&& after.channels[auth.channel_id].cum_total == cum
                &&& forall|i: int|
                    0 <= i < auth.vector@.len() ==> amount_of(
                        after.channels[auth.channel_id].accruals,
                        (#[trigger] auth.vector@[i]).role,
                    ) == amount_of(accruals, auth.vector@[i].role)
                &&& after.channels[auth.channel_id].balance == imported_balance(
                    v.channels[pred].mode,
                    cum,
                    old_led.settled_r,
                    old_led.net_legs_sum,
                    old_led.funding_sum,
                    v.channels[pred].bound_lower,
                    v.channels[pred].bound_upper,
                ) as i128
            }
        }),
{
    let pred = (auth.predecessor->0).channel;
    let snap = (open_prepared(v, auth, facts)->Ok_0).driver.snapshots[auth.predecessor->0];
    assert(snapshot_of(v, pred, (auth.predecessor->0).ckpt_ref, facts) == Some(snap));
    assert forall|i: int| 0 <= i < auth.vector@.len() implies amount_of(
        meter.accruals,
        (#[trigger] auth.vector@[i]).role,
    ) == amount_of(snap.accruals, auth.vector@[i].role) by {
        assert(plan.accruals@[i]@ == amount_of(snap.accruals, auth.vector@[i].role));
    }
}

/// Within the bounds, the imported balance is exactly what was consumed less what
/// was paid.
pub proof fn law_imported_balance_is_exact(
    mode: Mode,
    cum: u128,
    settled: Seq<(u8, nat)>,
    net_legs: u128,
    funding: u128,
    low: i128,
    high: i128,
)
    requires
        low <= high,
        mode == Mode::Postpay ==> funding + net_legs + carve(settled) <= u128::MAX,
        ({
            let exact = match mode {
                Mode::Postpay => cum - funding - net_legs - carve(settled),
                Mode::Prepay => cum - funding,
            };
            low <= exact <= high
        }),
    ensures
        imported_balance(mode, cum, settled, net_legs, funding, low, high) == (match mode {
            Mode::Postpay => cum - funding - net_legs - carve(settled),
            Mode::Prepay => cum - funding,
        }),
{
}

/// The total and the accruals that a predecessor's books sign for at `named`: its operative
/// checkpoint's, where it has one by that name; a channel without a checkpoint signs for
/// nothing, by the reference of its synthetic one, and only if nothing was metered.
pub open spec fn signed_at(
    v: CarriageView,
    channel: [u8; 8],
    named: [u8; 32],
    synthetic: Option<[u8; 32]>,
    cum: nat,
    accruals: Seq<(u8, nat)>,
) -> bool {
    if v.operative.dom().contains(channel) {
        &&& v.operative[channel].ckpt_ref == named
        &&& cum == v.operative[channel].cum_total
        &&& accruals == v.operative[channel].accruals
    } else {
        &&& synthetic == Some(named)
        &&& v.channels[channel].cum_total == 0
        &&& cum == 0
        &&& accruals == v.channels[channel].accruals
    }
}

/// A successor goes on where its predecessor's books stand: what its watermark is reduced by
/// is what the predecessor's ledger had settled, so that for whatever accrues on top of the
/// imported position its target is the whole units of what the predecessor left unsettled
/// and of that, and nothing that was settled before is settled again.
pub proof fn law_successor_owes_what_was_left_unsettled(
    v: CarriageView,
    auth: ChannelAuth,
    facts: ChainFacts,
    auth_hash: [u8; 32],
    open_hash: [u8; 32],
    seed_instance: [u8; 32],
    ack: Seq<u8>,
    meter: MeterView,
    plan: ImportPlan,
    later: Seq<(u8, nat)>,
    more: Seq<nat>,
)
    requires
        auth.predecessor is Some,
        v.chain.dom().contains((auth.predecessor->0).channel),
        v.chain[(auth.predecessor->0).channel] is Pending,
        open_prepared(v, auth, facts) is Ok,
        (open_prepared(v, auth, facts)->Ok_0).driver.snapshots.dom().contains(auth.predecessor->0),
        imports(
            (open_prepared(v, auth, facts)->Ok_0).driver.snapshots[auth.predecessor->0],
            auth,
            plan,
        ),
        opens_at(meter, auth, Some(plan)),
        auth.channel_id != (auth.predecessor->0).channel,
        ascending(later),
        reconcilable(later, ledger_of(v, (auth.predecessor->0).channel).settled_r),
        later.len() == meter.accruals.len(),
        more.len() == meter.accruals.len(),
        forall|i: int|
            0 <= i < later.len() ==> {
                &&& (#[trigger] later[i]).0 == meter.accruals[i].0
                &&& later[i].1 == meter.accruals[i].1 + more[i]
                &&& amount_of(
                    ledger_of(v, (auth.predecessor->0).channel).settled_r,
                    meter.accruals[i].0,
                ) <= meter.accruals[i].1
            },
    ensures
        ({
            let pred = (auth.predecessor->0).channel;
            let succ = auth.channel_id;
            let settled = ledger_of(v, pred).settled_r;
            let after = installed(
                open_prepared(v, auth, facts)->Ok_0,
                auth,
                auth_hash,
                open_hash,
                seed_instance,
                ack,
                meter,
                Some(plan),
            );
            let whole = (unsettled(meter.accruals, settled) + sum_of(more)) / 10_000;
            &&& imported_settled(after, succ) == settled
            &&& after.imported.dom().contains(succ)
            &&& after.imported[succ].opening_settled_r == settled
            &&& after.imported[succ].ckpt_ref == (auth.predecessor->0).ckpt_ref
            &&& after.imported[succ].accruals == meter.accruals
            &&& exists|accruals: Seq<(u8, nat)>| #[trigger]
                signed_at(
                    v,
                    pred,
                    (auth.predecessor->0).ckpt_ref,
                    facts.synthetic_ref,
                    after.imported[succ].cum as nat,
                    accruals,
                )
            &&& 0 < whole <= u128::MAX ==> target_of(after, succ, later) == Some(whole as u128)
            &&& whole == 0 ==> target_of(after, succ, later) is None
            &&& ledger_of(after, succ).settled_r == settled
        }),
{
    let pred = (auth.predecessor->0).channel;
    let settled = ledger_of(v, pred).settled_r;
    let snap = (open_prepared(v, auth, facts)->Ok_0).driver.snapshots[auth.predecessor->0];
    assert(snapshot_of(v, pred, (auth.predecessor->0).ckpt_ref, facts) == Some(snap));
    assert(signed_at(
        v,
        pred,
        (auth.predecessor->0).ckpt_ref,
        facts.synthetic_ref,
        snap.cum_total as nat,
        snap.accruals,
    ));
    law_later_accrual_is_unsettled(meter.accruals, later, more, settled);
    law_outstanding_is_unsettled(later, settled);
    let after = installed(
        open_prepared(v, auth, facts)->Ok_0,
        auth,
        auth_hash,
        open_hash,
        seed_instance,
        ack,
        meter,
        Some(plan),
    );
    assert(after.imported[auth.channel_id].cum == snap.cum_total);
    assert(imported_settled(after, auth.channel_id) == settled);
    assert(carve(outstanding(later, settled)) == (unsettled(meter.accruals, settled) + sum_of(more))
        / 10_000);
}

/// A position can be taken over as it stands: the predecessor that intends to chain, whose
/// books sign for everything by the named checkpoint, has a position to import, which is its
/// own payer's and mode's, at its own total, ledger, terms and clock.
pub proof fn law_a_pending_position_can_be_taken_over(
    v: CarriageView,
    auth: ChannelAuth,
    facts: ChainFacts,
    cum: u128,
    accruals: Seq<(u8, nat)>,
)
    requires
        auth.predecessor is Some,
        v.chain.dom().contains((auth.predecessor->0).channel),
        v.chain[(auth.predecessor->0).channel] is Pending,
        v.channels.dom().contains((auth.predecessor->0).channel),
        v.driver.retained.dom().contains((auth.predecessor->0).channel),
        v.established_at.dom().contains((auth.predecessor->0).channel),
        signed_at(
            v,
            (auth.predecessor->0).channel,
            (auth.predecessor->0).ckpt_ref,
            facts.synthetic_ref,
            cum as nat,
            accruals,
        ),
        reconcilable(accruals, ledger_of(v, (auth.predecessor->0).channel).settled_r),
        v.levels matches Some(levels) ==> levels.len() > 0 && auth.fin_meed@ == levels[levels.len() - 1]
            && auth.fin_denom@ == levels[levels.len() - 1],
    ensures
        ({
            let pred = auth.predecessor->0;
            let led = ledger_of(v, pred.channel);
            open_prepared(v, auth, facts) matches Ok(after) && {
                &&& after.driver.snapshots.dom().contains(pred)
                &&& after.driver.snapshots[pred].cum_total == cum
                &&& after.driver.snapshots[pred].accruals == accruals
                &&& after.driver.snapshots[pred].opening_settled_r == led.settled_r
                &&& after.driver.snapshots[pred].opening_net_legs == led.net_legs_sum
                &&& after.driver.snapshots[pred].opening_funding == led.funding_sum
                &&& after.driver.snapshots[pred].payer_key == v.driver.retained[pred.channel].payer_key
                &&& after.driver.snapshots[pred].mode == v.channels[pred.channel].mode
                &&& after.driver.snapshots[pred].terms_fingerprint == facts.terms_fp
                &&& after.driver.snapshots[pred].established_at == v.established_at[pred.channel]
                &&& after == (CarriageView { driver: after.driver, ..v })
                &&& after.driver.retained == v.driver.retained
            }
        }),
{
}

/// No stale position is taken over: after an open was prepared, what can be imported under the
/// named checkpoint is the position as it is now, or nothing where the books do not sign for
/// it; and an open at a finality that the rail can reverse is refused.
pub proof fn law_no_stale_position_is_taken_over(v: CarriageView, auth: ChannelAuth, facts: ChainFacts)
    requires
        auth.predecessor is Some,
        v.chain.dom().contains((auth.predecessor->0).channel),
        v.chain[(auth.predecessor->0).channel] is Pending,
    ensures
        ({
            let pred = auth.predecessor->0;
            open_prepared(v, auth, facts) matches Ok(after) ==> {
                after.driver.snapshots.dom().contains(pred) ==> {
                    let snap = after.driver.snapshots[pred];
                    &&& signed_at(
                        v,
                        pred.channel,
                        pred.ckpt_ref,
                        facts.synthetic_ref,
                        snap.cum_total as nat,
                        snap.accruals,
                    )
                    &&& snap.opening_settled_r == ledger_of(v, pred.channel).settled_r
                    &&& snap.opening_net_legs == ledger_of(v, pred.channel).net_legs_sum
                    &&& snap.opening_funding == ledger_of(v, pred.channel).funding_sum
                }
            }
        }),
        v.levels matches Some(levels) ==> (levels.len() == 0 || auth.fin_meed@ != levels[levels.len() - 1]
            || auth.fin_denom@ != levels[levels.len() - 1]) ==> open_prepared(v, auth, facts) is Err,
{
}

/// The balance that a successor opens with is what was consumed less what was paid, brought
/// within the bounds: a postpay position was paid by funding, net legs and the settled carve,
/// a prepay one by its deposit.
pub proof fn law_imported_balance_is_kept_within_its_bounds(
    mode: Mode,
    cum: u128,
    settled: Seq<(u8, nat)>,
    net_legs: u128,
    funding: u128,
    low: i128,
    high: i128,
)
    requires
        low <= high,
        mode == Mode::Postpay ==> funding + net_legs + total(settled) / 10_000 <= u128::MAX,
    ensures
        ({
            let paid = match mode {
                Mode::Postpay => funding + net_legs + total(settled) / 10_000,
                Mode::Prepay => funding as int,
            };
            let b = imported_balance(mode, cum, settled, net_legs, funding, low, high);
            &&& low <= b <= high
            &&& low <= cum - paid <= high ==> b + paid == cum
            &&& cum - paid < low ==> b == low
            &&& cum - paid > high ==> b == high
        }),
{
}

/// A channel that imports nothing opens with nothing settled that was not there before: its
/// clock starts at its authorization, and no ledger, position or disposition changes.
pub proof fn law_a_fresh_channel_imports_nothing(
    v: CarriageView,
    auth: ChannelAuth,
    auth_hash: [u8; 32],
    open_hash: [u8; 32],
    seed_instance: [u8; 32],
    ack: Seq<u8>,
    meter: MeterView,
)
    requires
        auth.predecessor is None,
        opens_at(meter, auth, None),
    ensures
        ({
            let after = installed(v, auth, auth_hash, open_hash, seed_instance, ack, meter, None);
            &&& after.channels[auth.channel_id] == meter
            &&& meter.cum_total == 0
            &&& meter.balance == 0
            &&& forall|i: int| 0 <= i < meter.accruals.len() ==> (#[trigger] meter.accruals[i]).1 == 0
            &&& after.established_at[auth.channel_id] == auth.timestamp
            &&& after.ledger == v.ledger
            &&& after.imported == v.imported
            &&& after.chain == v.chain
            &&& after.operative == v.operative
            &&& after.rounds == v.rounds
            &&& after.consumed == v.consumed
            &&& after.driver.chained == v.driver.chained
            &&& forall|c: [u8; 8]|
                c != auth.channel_id && #[trigger] v.channels.dom().contains(c) ==> after.channels[c]
                    == v.channels[c]
        }),
{
}

/// A chained channel opens with its predecessor's books and marks the predecessor: its
/// position has moved on to this channel, and its checkpoint is imported by no other. Nothing
/// else of what the carriage holds changes.
pub proof fn law_a_chained_channel_takes_over_once(
    v: CarriageView,
    auth: ChannelAuth,
    auth_hash: [u8; 32],
    open_hash: [u8; 32],
    seed_instance: [u8; 32],
    ack: Seq<u8>,
    meter: MeterView,
    plan: ImportPlan,
)
    requires
        auth.predecessor is Some,
        opens_at(meter, auth, Some(plan)),
        auth.channel_id != (auth.predecessor->0).channel,
    ensures
        ({
            let after = installed(v, auth, auth_hash, open_hash, seed_instance, ack, meter, Some(plan));
            let pred = (auth.predecessor->0).channel;
            let led = ledger_of(after, auth.channel_id);
            &&& led.settled_r == rows_nat(plan.openings.settled_r@)
            &&& led.net_legs_sum == plan.openings.net_legs
            &&& led.funding_sum == plan.openings.funding
            &&& led.version == 0
            &&& after.channels[auth.channel_id] == meter
            &&& meter.cum_total == plan.cum_total
            &&& meter.balance == plan.imported_balance
            &&& after.established_at[auth.channel_id] == plan.established_at
            &&& after.chain[pred] == (ChainState::Committed { successor: auth.channel_id })
            &&& after.driver.chained.contains(auth.predecessor->0)
            &&& forall|c: [u8; 8]|
                c != auth.channel_id ==> #[trigger] ledger_of(after, c) == ledger_of(v, c)
            &&& forall|c: [u8; 8]|
                c != pred && #[trigger] v.chain.dom().contains(c) ==> after.chain[c] == v.chain[c]
            &&& after.operative == v.operative
            &&& after.rounds == v.rounds
            &&& after.consumed == v.consumed
        }),
{
}

/// What a successor must share with a channel is the channel's own: the mode that it is metered
/// in, and the instance, the denomination, the two finality levels, the baseline and the two
/// thresholds that it was established with.
pub proof fn law_chain_terms_are_the_channels_own(v: CarriageView, channel: [u8; 8])
    ensures
        ({
            let t = chain_terms_of(v, channel);
            let own = v.driver.retained[channel].terms;
            &&& t.mode == v.channels[channel].mode
            &&& t.seed_instance == own.seed_instance
            &&& t.denom == own.denom
            &&& t.baseline_net == own.baseline_net
            &&& t.fin_meed == own.fin_meed
            &&& t.fin_denom == own.fin_denom
            &&& t.th_value == own.th_value
            &&& t.th_time == own.th_time
        }),
{
}

/// A channel that takes over a position is metered from there: in the authorized mode, within
/// ordered bounds, from the imported total and balance, with a row for every imported accrual
/// and each role of the vector accrued as imported; a channel that takes none over is metered
/// from nothing.
pub proof fn law_a_meter_opens_at_its_position(
    meter: MeterView,
    auth: ChannelAuth,
    plan: ImportPlan,
    i: int,
    j: int,
)
    requires
        0 <= i < auth.vector@.len(),
        0 <= j < meter.accruals.len(),
    ensures
        opens_at(meter, auth, Some(plan)) ==> {
            &&& meter.mode == auth.mode
            &&& meter.bound_lower <= meter.bound_upper
            &&& meter.cum_total == plan.cum_total
            &&& meter.balance == plan.imported_balance
            &&& meter.accruals.len() == plan.accruals@.len() == auth.vector@.len()
            &&& amount_of(meter.accruals, auth.vector@[i].role) == plan.accruals@[i]@
        },
        opens_at(meter, auth, None) ==> {
            &&& meter.mode == auth.mode
            &&& meter.bound_lower <= meter.bound_upper
            &&& meter.cum_total == 0
            &&& meter.balance == 0
            &&& meter.accruals[j].1 == 0
        },
{
    if opens_at(meter, auth, Some(plan)) {
        assert(plan.accruals@[i]@ == amount_of(meter.accruals, auth.vector@[i].role));
    }
}

/// A meter that stands at nothing opens a channel that takes nothing over.
pub proof fn law_an_empty_meter_opens_a_fresh_channel(meter: MeterView, auth: ChannelAuth)
    requires
        meter.mode == auth.mode,
        meter.bound_lower <= meter.bound_upper,
        meter.cum_total == 0,
        meter.balance == 0,
        forall|i: int| 0 <= i < meter.accruals.len() ==> (#[trigger] meter.accruals[i]).1 == 0,
    ensures
        opens_at(meter, auth, None),
{
}

/// A channel can be opened only where its meed and net are to be final at the rail's last level,
/// and not on a position that was reconciled; preparing it changes no more than which
/// positions are recorded.
pub proof fn law_which_opens_are_prepared(v: CarriageView, auth: ChannelAuth, facts: ChainFacts)
    ensures
        open_prepared(v, auth, facts) is Ok <==> {
            &&& v.levels matches Some(levels) ==> levels.len() > 0 && auth.fin_meed@ == levels[levels.len()
                - 1] && auth.fin_denom@ == levels[levels.len() - 1]
            &&& auth.predecessor matches Some(pred) ==> !(v.chain.dom().contains(pred.channel)
                && v.chain[pred.channel] is Reconciled)
        },
        open_prepared(v, auth, facts) matches Err(e) ==> e == CarriageError::Rejected,
        open_prepared(v, auth, facts) matches Ok(after) ==> after == (CarriageView {
            driver: DriverView { snapshots: after.driver.snapshots, ..v.driver },
            ..v
        }),
        auth.predecessor is None && open_prepared(v, auth, facts) is Ok ==> open_prepared(v, auth, facts) == Ok::<
            CarriageView,
            CarriageError,
        >(v),
{
}

} // verus!
