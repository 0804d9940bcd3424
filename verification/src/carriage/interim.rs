//! The merchant's own draws: on a running prepay channel it pays the accrued carve
//! to the instance out of the deposit, without closing the channel.

use vstd::prelude::*;

use crate::bignat::{two_pow_256, BigNat};
use crate::bytes::{be_bytes, be_encode, extend};
use crate::carriage::close::{DrawOrder, DrawOrderView};
use crate::carriage::propose::serial;
use crate::carriage::rounds::{
    draw_folded, draw_owed, imported_settled, recomputed, shares_view, target_of, RoundTerms,
};
use crate::carriage::{
    ledger_of, mode_of, other_round_open, rounds_whole, Carriage, CarriageView, RoundDecision,
    RoundView, Status,
};
use crate::channel::{CheckpointKey, Mode};
use crate::meed::{
    amount_of, ascending, copy_rows, law_fold_is_exact, law_outstanding_is_unsettled, outstanding,
    reconcilable, rows_nat, total, unsettled,
};
use crate::one_decision::OneDecisionStore;
use crate::rail::{final_enough, finality_reached, irreversible, Finality};
use crate::table::Table;

verus! {

/// What to do for a draw.
#[derive(Debug)]
pub enum InterimStep {
    /// There is nothing to draw, or nothing can be drawn.
    Nothing,
    /// The draw is complete: its receipt can be given again.
    Reissue { round: CheckpointKey, tx_ref: String },
    /// The draw was submitted: ask whether it is final.
    Recheck { round: CheckpointKey, tx_ref: String },
    /// Make the draw.
    Draw { round: CheckpointKey, order: DrawOrder },
}

/// What an [`InterimStep`] says.
#[verifier::ext_equal]
pub enum InterimStepView {
    Nothing,
    Reissue { round: CheckpointKey, tx_ref: Seq<char> },
    Recheck { round: CheckpointKey, tx_ref: Seq<char> },
    Draw { round: CheckpointKey, order: DrawOrderView },
}

impl View for InterimStep {
    type V = InterimStepView;

    open spec fn view(&self) -> InterimStepView {
        match self {
            InterimStep::Nothing => InterimStepView::Nothing,
            InterimStep::Reissue { round, tx_ref } => InterimStepView::Reissue {
                round: *round,
                tx_ref: tx_ref@,
            },
            InterimStep::Recheck { round, tx_ref } => InterimStepView::Recheck {
                round: *round,
                tx_ref: tx_ref@,
            },
            InterimStep::Draw { round, order } => InterimStepView::Draw {
                round: *round,
                order: order@,
            },
        }
    }
}

/// What submitting a draw, or asking for it again, gave.
#[derive(Debug)]
pub enum DrawOutcome {
    /// The rail refused for now; the round stays locked.
    Failed,
    /// The rail had moved the watermark before, and gave no reference.
    NoReference,
    /// The draw's reference, and its finality.
    Drawn { reference: String, finality: Option<Finality> },
}

/// The receipt of a complete draw, to be signed.
#[derive(Debug)]
pub struct DrawReceipt {
    pub channel_id: [u8; 8],
    pub ckpt_ref: [u8; 32],
    /// The watermark that was reached.
    pub amount: u128,
    pub extinguished: Vec<(u8, BigNat)>,
    /// The seed that the claim record is named by.
    pub seed_instance: [u8; 32],
    /// The baseline network.
    pub rail: String,
    pub tx_ref: String,
    pub finality: String,
}

/// What a [`DrawReceipt`] says.
#[verifier::ext_equal]
pub struct ReceiptView {
    pub channel_id: [u8; 8],
    pub ckpt_ref: [u8; 32],
    pub amount: u128,
    pub extinguished: Seq<(u8, nat)>,
    pub seed_instance: [u8; 32],
    pub rail: Seq<char>,
    pub tx_ref: Seq<char>,
    pub finality: Seq<char>,
}

impl View for DrawReceipt {
    type V = ReceiptView;

    open spec fn view(&self) -> ReceiptView {
        ReceiptView {
            channel_id: self.channel_id,
            ckpt_ref: self.ckpt_ref,
            amount: self.amount,
            extinguished: rows_nat(self.extinguished@),
            seed_instance: self.seed_instance,
            rail: self.rail@,
            tx_ref: self.tx_ref@,
            finality: self.finality@,
        }
    }
}

/// What an optional receipt says.
pub open spec fn receipt_option(r: Option<DrawReceipt>) -> Option<ReceiptView> {
    match r {
        Some(receipt) => Some(receipt@),
        None => None,
    }
}

/// Whether the merchant may draw on a channel: a running prepay channel on the
/// baseline asset, at an irreversible finality, with a rail.
pub open spec fn drawable(v: CarriageView, channel: [u8; 8]) -> bool {
    &&& mode_of(v, channel) == Some(Mode::Prepay)
    &&& v.channels[channel].status != Status::Settling
    &&& v.channels[channel].status != Status::Closed
    &&& v.driver.retained.dom().contains(channel)
    &&& !v.driver.retained[channel].terms.conversion_required
    &&& irreversible(
        v.levels,
        v.driver.retained[channel].terms.fin_meed,
        v.driver.retained[channel].terms.fin_denom,
    )
    &&& v.levels is Some
}

/// The draw that moves a channel's watermark to `target_p`.
pub open spec fn draw_order(v: CarriageView, channel: [u8; 8], target_p: u128) -> DrawOrderView {
    let terms = v.driver.retained[channel].terms;
    DrawOrderView {
        settle_ptr: terms.settle_ptr,
        seed_instance: terms.seed_instance,
        target_p,
        asset: terms.baseline_asset,
    }
}

/// The round that a new draw would be locked in: its checkpoint, what it
/// extinguishes, its meed and its watermark.
pub open spec fn new_draw(v: CarriageView, channel: [u8; 8], shares: Option<Seq<nat>>) -> Option<(
    CheckpointKey,
    Seq<(u8, nat)>,
    u128,
    u128,
)> {
    if !v.operative.dom().contains(channel) {
        None
    } else {
        let key = CheckpointKey { channel, ckpt_ref: v.operative[channel].ckpt_ref };
        match recomputed(v, channel, shares) {
            Some(owed) => match (
                owed.meed_amount,
                target_of(v, channel, v.operative[channel].accruals),
            ) {
                (Some(p), Some(target_p)) => Some((key, owed.e_r, p, target_p)),
                _ => None,
            },
            None => None,
        }
    }
}

/// Whether `open` is a round in flight of a channel; `None` where it has none.
pub open spec fn in_flight(v: CarriageView, channel: [u8; 8], open: Option<CheckpointKey>) -> bool {
    match open {
        Some(key) => v.rounds.dom().contains(key) && key.channel == channel && !v.rounds[key].confirmed,
        None => !other_round_open(v, channel, None),
    }
}

/// What to do for a draw on a channel; `open` is its round in flight.
pub open spec fn interim_step(
    v: CarriageView,
    channel: [u8; 8],
    open: Option<CheckpointKey>,
    shares: Option<Seq<nat>>,
) -> InterimStepView {
    if !drawable(v, channel) {
        InterimStepView::Nothing
    } else {
        match open {
            Some(key) => match (v.rounds[key].target_p, v.rounds[key].draw_ref) {
                (Some(_), Some(tx_ref)) => InterimStepView::Recheck { round: key, tx_ref },
                (Some(target_p), None) => InterimStepView::Draw {
                    round: key,
                    order: draw_order(v, channel, target_p),
                },
                _ => InterimStepView::Nothing,
            },
            None => {
                let key = CheckpointKey { channel, ckpt_ref: v.operative[channel].ckpt_ref };
                if v.operative.dom().contains(channel) && v.rounds.dom().contains(key) {
                    match (v.rounds[key].target_p, v.rounds[key].draw_ref) {
                        (Some(_), Some(tx_ref)) if v.rounds[key].confirmed => InterimStepView::Reissue {
                            round: key,
                            tx_ref,
                        },
                        _ => InterimStepView::Nothing,
                    }
                } else {
                    match new_draw(v, channel, shares) {
                        Some((key, _, _, target_p)) => InterimStepView::Draw {
                            round: key,
                            order: draw_order(v, channel, target_p),
                        },
                        None => InterimStepView::Nothing,
                    }
                }
            },
        }
    }
}

/// The carriage once a new draw is locked, before the rail is asked.
pub open spec fn draw_locked(
    v: CarriageView,
    channel: [u8; 8],
    open: Option<CheckpointKey>,
    shares: Option<Seq<nat>>,
    terms_fp: [u8; 32],
) -> CarriageView {
    let key = CheckpointKey { channel, ckpt_ref: v.operative[channel].ckpt_ref };
    match new_draw(v, channel, shares) {
        Some((_, e_r, p, target_p)) if drawable(v, channel) && open is None && !v.rounds.dom().contains(key) => CarriageView {
            rounds: v.rounds.insert(
                key,
                RoundView {
                    terms_fp,
                    proposal_hashes: Set::empty(),
                    proofs: Seq::empty(),
                    outputs: Seq::empty(),
                    meed_amount: Some(p),
                    e_r,
                    meed_folded: false,
                    net_folded: true,
                    meed_final_time: None,
                    deterministic: true,
                    ledger_version: ledger_of(v, channel).version,
                    confirmed: false,
                    draw_ref: None,
                    target_p: Some(target_p),
                },
            ),
            ..v
        },
        _ => v,
    }
}

/// The carriage once a round's draw has a reference.
pub open spec fn draw_noted(v: CarriageView, key: CheckpointKey, reference: Seq<char>) -> CarriageView {
    CarriageView {
        rounds: v.rounds.insert(key, RoundView { draw_ref: Some(reference), ..v.rounds[key] }),
        ..v
    }
}

/// Whether a draw's finality is the one that the meed leg needs.
pub open spec fn draw_final(v: CarriageView, key: CheckpointKey, finality: Option<Finality>) -> bool {
    v.levels is Some && final_enough(
        v.levels->0,
        finality,
        v.driver.retained[key.channel].terms.fin_meed,
    )
}

/// The carriage once the outcome of a draw is known.
pub open spec fn drawn(v: CarriageView, key: CheckpointKey, outcome: DrawOutcome) -> CarriageView {
    if !v.rounds.dom().contains(key) || !v.driver.retained.dom().contains(key.channel) {
        v
    } else {
        let e_r = v.rounds[key].e_r;
        match outcome {
            DrawOutcome::Failed => v,
            DrawOutcome::NoReference => draw_folded(v, key, e_r, None),
            DrawOutcome::Drawn { reference, finality } => if draw_final(v, key, finality) {
                draw_folded(draw_noted(v, key, reference@), key, e_r, Some((finality->0).time))
            } else {
                draw_noted(v, key, reference@)
            },
        }
    }
}

/// The receipt of the draw of the round at `key`.
pub open spec fn receipt_of(
    v: CarriageView,
    key: CheckpointKey,
    tx_ref: Seq<char>,
    finality: Option<Finality>,
) -> Option<ReceiptView> {
    match v.rounds[key].target_p {
        Some(target_p) => Some(
            ReceiptView {
                channel_id: key.channel,
                ckpt_ref: key.ckpt_ref,
                amount: target_p,
                extinguished: v.rounds[key].e_r,
                seed_instance: v.driver.retained[key.channel].terms.seed_instance,
                rail: v.driver.retained[key.channel].terms.baseline_net,
                tx_ref,
                finality: match finality {
                    Some(f) => f.level@,
                    None => Seq::empty(),
                },
            },
        ),
        None => None,
    }
}

/// The bytes that the fingerprint of a merchant's own round is taken over.
pub fn draw_preimage(round: &CheckpointKey, target_p: u128) -> (out: Vec<u8>)
    ensures
        out@ == round.channel@ + round.ckpt_ref@ + be_bytes(target_p as nat, 16),
{
    let mut out: Vec<u8> = Vec::new();
    extend(&mut out, round.channel.as_slice());
    extend(&mut out, round.ckpt_ref.as_slice());
    let target: Vec<u8> = be_encode(target_p, 16);
    extend(&mut out, target.as_slice());
    assert(out@ =~= round.channel@ + round.ckpt_ref@ + be_bytes(target_p as nat, 16));
    out
}

fn level_text(finality: &Option<Finality>) -> (r: String)
    ensures
        r@ == (match *finality {
            Some(f) => f.level@,
            None => Seq::empty(),
        }),
{
    match finality {
        Some(f) => f.level.clone(),
        None => {
            let r: String = "".to_owned();
            proof {
                reveal_strlit("");
                assert(r@ =~= Seq::empty());
            }
            r
        },
    }
}

impl<S: OneDecisionStore> Carriage<S> {
    fn check_drawable(&self, channel: &[u8; 8]) -> (r: bool)
        ensures
            r == drawable(self@, *channel),
    {
        match self.channels.get(channel) {
            Some(m) => if m.mode != Mode::Prepay || m.status == Status::Settling || m.status
                == Status::Closed {
                return false;
            },
            None => return false,
        }
        match self.driver.settlement_terms(channel) {
            Some(terms) => !terms.conversion_required && self.levels.is_some()
                && self.finality_is_irreversible(&terms.fin_meed, &terms.fin_denom),
            None => false,
        }
    }

    fn order_for(&self, channel: &[u8; 8], target_p: u128) -> (r: Option<DrawOrder>)
        ensures
            match r {
                Some(order) => self@.driver.retained.dom().contains(*channel) && order@ == draw_order(
                    self@,
                    *channel,
                    target_p,
                ),
                None => !self@.driver.retained.dom().contains(*channel),
            },
    {
        match self.driver.settlement_terms(channel) {
            Some(terms) => Some(
                DrawOrder {
                    settle_ptr: terms.settle_ptr.clone(),
                    seed_instance: terms.seed_instance,
                    target_p,
                    asset: terms.baseline_asset.clone(),
                },
            ),
            None => None,
        }
    }

    /// The checkpoint and the watermark that a new draw would be locked at.
    pub fn next_draw(&self, channel: &[u8; 8]) -> (r: Option<(CheckpointKey, u128)>)
        ensures
            r == (if self@.operative.dom().contains(*channel) {
                match target_of(self@, *channel, self@.operative[*channel].accruals) {
                    Some(target_p) => Some(
                        (
                            CheckpointKey {
                                channel: *channel,
                                ckpt_ref: self@.operative[*channel].ckpt_ref,
                            },
                            target_p,
                        ),
                    ),
                    None => None,
                }
            } else {
                None
            }),
    {
        match self.operative.get(channel) {
            Some(op) => match self.cumulative_target_p(channel, &op.accruals) {
                Some(target_p) => Some(
                    (CheckpointKey { channel: *channel, ckpt_ref: op.ckpt_ref }, target_p),
                ),
                None => None,
            },
            None => None,
        }
    }

    /// Begins a draw on a channel whose round in flight is `open`: takes up the
    /// round that is locked, or locks a new one before the rail is asked. A round
    /// that is locked is never computed anew.
    pub fn begin_draw(
        &mut self,
        channel: &[u8; 8],
        open: &Option<CheckpointKey>,
        shares: &Option<Vec<BigNat>>,
        terms_fp: &[u8; 32],
    ) -> (r: InterimStep)
        requires
            old(self).wf(),
            open matches Some(key) ==> old(self)@.rounds.dom().contains(*key),
        ensures
            final(self).wf(),
            old(self).same_store(*final(self)),
            r@ == interim_step(old(self)@, *channel, *open, shares_view(*shares)),
            final(self)@ == draw_locked(old(self)@, *channel, *open, shares_view(*shares), *terms_fp),
    {
        if !self.check_drawable(channel) {
            return InterimStep::Nothing;
        }
        if let Some(key) = open {
            if let Some(d) = self.rounds.get(key) {
                return match (d.target_p, &d.draw_ref) {
                    (Some(_), Some(tx_ref)) => InterimStep::Recheck { round: *key, tx_ref: tx_ref.clone() },
                    (Some(target_p), None) => match self.order_for(channel, target_p) {
                        Some(order) => InterimStep::Draw { round: *key, order },
                        None => InterimStep::Nothing,
                    },
                    _ => InterimStep::Nothing,
                };
            }
            return InterimStep::Nothing;
        }
        let (key, target): (CheckpointKey, Option<u128>) = match self.operative.get(channel) {
            Some(op) => (
                CheckpointKey { channel: *channel, ckpt_ref: op.ckpt_ref },
                self.cumulative_target_p(channel, &op.accruals),
            ),
            None => return InterimStep::Nothing,
        };
        if let Some(d) = self.rounds.get(&key) {
            return match (d.target_p, &d.draw_ref) {
                (Some(_), Some(tx_ref)) => if d.confirmed {
                    InterimStep::Reissue { round: key, tx_ref: tx_ref.clone() }
                } else {
                    InterimStep::Nothing
                },
                _ => InterimStep::Nothing,
            };
        }
        let owed: RoundTerms = match self.recompute_round(channel, shares) {
            Some(owed) => owed,
            None => return InterimStep::Nothing,
        };
        let (p, target_p): (u128, u128) = match (owed.meed_amount, target) {
            (Some(p), Some(target_p)) => (p, target_p),
            _ => return InterimStep::Nothing,
        };
        let order: DrawOrder = match self.order_for(channel, target_p) {
            Some(order) => order,
            None => return InterimStep::Nothing,
        };
        let (_net_legs, _funding, ledger_version): (u128, u128, u64) = self.ledger_sums(channel);
        let d: RoundDecision = RoundDecision {
            terms_fp: *terms_fp,
            proposal_hashes: Table::new(),
            proofs: Vec::new(),
            outputs: Vec::new(),
            meed_amount: Some(p),
            e_r: owed.e_r,
            meed_folded: false,
            net_folded: true,
            meed_final_time: None,
            deterministic: true,
            ledger_version,
            confirmed: false,
            draw_ref: None,
            target_p: Some(target_p),
        };
        proof {
            let want = draw_locked(
                old(self)@,
                *channel,
                *open,
                shares_view(*shares),
                *terms_fp,
            ).rounds[key];
            assert(d@.proposal_hashes =~= want.proposal_hashes);
            assert(d@.proofs =~= want.proofs);
            assert(d@.outputs =~= want.outputs);
            assert(d@ =~= want);
        }
        self.rounds.insert(key, d);
        InterimStep::Draw { round: key, order }
    }

    /// Begins a draw on a running prepay channel. `shares` is the division of
    /// [`Carriage::round_outstanding`] among the roles, and `terms_fp` the
    /// fingerprint that a new round is locked under.
    pub fn run_prepay_interim_draw(
        &mut self,
        channel: &[u8; 8],
        shares: &Option<Vec<BigNat>>,
        terms_fp: &[u8; 32],
    ) -> (r: InterimStep)
        requires
            old(self).wf(),
        ensures
            final(self).wf(),
            old(self).same_store(*final(self)),
            exists|open: Option<CheckpointKey>|
                {
                    &&& in_flight(old(self)@, *channel, open)
                    &&& r@ == #[trigger] interim_step(old(self)@, *channel, open, shares_view(*shares))
                    &&& final(self)@ == draw_locked(
                        old(self)@,
                        *channel,
                        open,
                        shares_view(*shares),
                        *terms_fp,
                    )
                },
    {
        let open: Option<CheckpointKey> = self.find_open_round(channel, &None);
        let r: InterimStep = self.begin_draw(channel, &open, shares, terms_fp);
        assert(r@ == interim_step(old(self)@, *channel, open, shares_view(*shares)));
        r
    }

    fn receipt_for(&self, key: &CheckpointKey, tx_ref: &String, finality: &Option<Finality>) -> (r: Option<
        DrawReceipt,
    >)
        requires
            self@.rounds.dom().contains(*key),
            self@.driver.retained.dom().contains(key.channel),
        ensures
            receipt_option(r) == receipt_of(self@, *key, tx_ref@, *finality),
    {
        match (self.rounds.get(key), self.driver.settlement_terms(&key.channel)) {
            (Some(d), Some(terms)) => match d.target_p {
                Some(target_p) => Some(
                    DrawReceipt {
                        channel_id: key.channel,
                        ckpt_ref: key.ckpt_ref,
                        amount: target_p,
                        extinguished: copy_rows(&d.e_r),
                        seed_instance: terms.seed_instance,
                        rail: terms.baseline_net.clone(),
                        tx_ref: tx_ref.clone(),
                        finality: level_text(finality),
                    },
                ),
                None => None,
            },
            _ => None,
        }
    }

    /// The receipt of a complete draw, given again. Nothing is drawn again.
    pub fn reissue_receipt(&self, key: &CheckpointKey, finality: &Option<Finality>) -> (r: Option<DrawReceipt>)
        ensures
            receipt_option(r) == (if self@.rounds.dom().contains(*key) && self@.driver.retained.dom().contains(
                key.channel,
            ) && self@.rounds[*key].confirmed && self@.rounds[*key].draw_ref is Some {
                receipt_of(self@, *key, self@.rounds[*key].draw_ref->0, *finality)
            } else {
                None
            }),
    {
        if self.driver.settlement_terms(&key.channel).is_none() {
            return None;
        }
        match self.rounds.get(key) {
            Some(d) => match &d.draw_ref {
                Some(tx_ref) => if d.confirmed {
                    self.receipt_for(key, tx_ref, finality)
                } else {
                    None
                },
                None => None,
            },
            None => None,
        }
    }

    /// Notes the outcome of a draw: a final one enters the ledger and has a
    /// receipt; one that is not final yet stays locked under its reference.
    pub fn interim_drawn(&mut self, key: &CheckpointKey, outcome: &DrawOutcome) -> (r: Option<DrawReceipt>)
        requires
            old(self).wf(),
        ensures
            final(self).wf(),
            old(self).same_store(*final(self)),
            final(self)@ == drawn(old(self)@, *key, *outcome),
            receipt_option(r) == (match *outcome {
                DrawOutcome::Drawn { reference, finality } => if old(self)@.rounds.dom().contains(*key)
                    && old(self)@.driver.retained.dom().contains(key.channel) && draw_final(
                    old(self)@,
                    *key,
                    finality,
                ) {
                    receipt_of(old(self)@, *key, reference@, finality)
                } else {
                    None
                },
                _ => None,
            }),
    {
        let fin_meed: String = match self.driver.settlement_terms(&key.channel) {
            Some(terms) => terms.fin_meed.clone(),
            None => return None,
        };
        let e_r: Vec<(u8, BigNat)> = match self.rounds.get(key) {
            Some(d) => copy_rows(&d.e_r),
            None => return None,
        };
        match outcome {
            DrawOutcome::Failed => None,
            DrawOutcome::NoReference => {
                self.fold_interim_round(key, &e_r, None);
                None
            },
            DrawOutcome::Drawn { reference, finality } => {
                let last: bool = match &self.levels {
                    Some(levels) => finality_reached(levels, finality, &fin_meed),
                    None => false,
                };
                let receipt: Option<DrawReceipt> = if last {
                    self.receipt_for(key, reference, finality)
                } else {
                    None
                };
                if let Some(d) = self.rounds.remove(key) {
                    let mut d: RoundDecision = d;
                    d.draw_ref = Some(reference.clone());
                    self.rounds.insert(*key, d);
                }
                assert(self@ =~= draw_noted(old(self)@, *key, reference@));
                if last {
                    let time: Option<u64> = match finality {
                        Some(f) => Some(f.time),
                        None => None,
                    };
                    self.fold_interim_round(key, &e_r, time);
                }
                receipt
            },
        }
    }
}

/// Locking a draw never puts two rounds of one channel in flight.
pub proof fn law_draw_keeps_rounds_serial(
    v: CarriageView,
    channel: [u8; 8],
    open: Option<CheckpointKey>,
    shares: Option<Seq<nat>>,
    terms_fp: [u8; 32],
)
    requires
        serial(v),
        open is None ==> !other_round_open(v, channel, None),
    ensures
        serial(draw_locked(v, channel, open, shares, terms_fp)),
{
    let after = draw_locked(v, channel, open, shares, terms_fp);
    assert forall|a: CheckpointKey, b: CheckpointKey|
        #![trigger after.rounds.dom().contains(a), after.rounds.dom().contains(b)]
        {
            &&& after.rounds.dom().contains(a)
            &&& after.rounds.dom().contains(b)
            &&& a.channel == b.channel
            &&& !after.rounds[a].confirmed
            &&& !after.rounds[b].confirmed
        } implies a == b by {
        if a != b {
            if v.rounds.dom().contains(a) && v.rounds.dom().contains(b) {
            } else if v.rounds.dom().contains(a) {
                assert(other_round_open(v, channel, None));
            } else if v.rounds.dom().contains(b) {
                assert(other_round_open(v, channel, None));
            }
        }
    }
}

/// A draw is folded once: folding a complete round again changes nothing.
pub proof fn law_draw_folds_once(
    v: CarriageView,
    key: CheckpointKey,
    e_r: Seq<(u8, nat)>,
    time: Option<u64>,
    again: Option<u64>,
)
    ensures
        draw_folded(draw_folded(v, key, e_r, time), key, e_r, again) == draw_folded(v, key, e_r, time),
{
}

/// A complete draw is not made again: once a draw, whose round has no net leg to wait for,
/// has its receipt at the operative checkpoint of a running prepay channel, and no other
/// round is in flight, the next draw gives the same reference back and changes nothing,
/// and the receipt that is given again differs from the first in no more than the
/// finality that was read for it.
pub proof fn law_complete_draw_is_given_again(
    v: CarriageView,
    key: CheckpointKey,
    reference: String,
    finality: Option<Finality>,
    open: Option<CheckpointKey>,
    shares: Option<Seq<nat>>,
    terms_fp: [u8; 32],
    later: Option<Finality>,
)
    requires
        rounds_whole(v),
        drawable(v, key.channel),
        v.operative.dom().contains(key.channel),
        v.operative[key.channel].ckpt_ref == key.ckpt_ref,
        v.rounds.dom().contains(key),
        v.rounds[key].net_folded,
        draw_final(v, key, finality),
        receipt_of(v, key, reference@, finality) is Some,
        !other_round_open(v, key.channel, Some(key.ckpt_ref)),
        in_flight(drawn(v, key, DrawOutcome::Drawn { reference, finality }), key.channel, open),
    ensures
        ({
            let after = drawn(v, key, DrawOutcome::Drawn { reference, finality });
            let first = receipt_of(v, key, reference@, finality)->0;
            &&& after.rounds[key].confirmed
            &&& after.rounds[key].draw_ref == Some(reference@)
            &&& interim_step(after, key.channel, open, shares) == (InterimStepView::Reissue {
                round: key,
                tx_ref: reference@,
            })
            &&& draw_locked(after, key.channel, open, shares, terms_fp) == after
            &&& receipt_of(after, key, reference@, later) matches Some(again) && again == (ReceiptView {
                finality: again.finality,
                ..first
            })
            &&& receipt_of(after, key, reference@, finality) == Some(first)
        }),
{
    let after = drawn(v, key, DrawOutcome::Drawn { reference, finality });
    assert(after.rounds[key].confirmed);
    if open is Some {
        assert(v.rounds.dom().contains(open->0));
    }
    assert(key == (CheckpointKey { channel: key.channel, ckpt_ref: key.ckpt_ref }));
}

/// Interim draws and the close draw move one watermark: folding a round changes
/// neither a later target nor the watermark that a close draws up to.
pub proof fn law_draws_move_one_watermark(
    v: CarriageView,
    key: CheckpointKey,
    e_r: Seq<(u8, nat)>,
    time: Option<u64>,
    channel: [u8; 8],
    accruals: Seq<(u8, nat)>,
)
    ensures
        target_of(draw_folded(v, key, e_r, time), channel, accruals) == target_of(v, channel, accruals),
        draw_owed(draw_folded(v, key, e_r, time), channel) == draw_owed(v, channel),
{
}

proof fn lemma_total_monotone(a: Seq<(u8, nat)>, b: Seq<(u8, nat)>)
    requires
        a.len() == b.len(),
        forall|i: int| 0 <= i < a.len() ==> (#[trigger] a[i]).1 <= b[i].1,
    ensures
        total(a) <= total(b),
    decreases a.len(),
{
    if a.len() > 0 {
        let (fa, fb) = (a.drop_last(), b.drop_last());
        assert forall|i: int| 0 <= i < fa.len() implies (#[trigger] fa[i]).1 <= fb[i].1 by {
            assert(fa[i] == a[i]);
        }
        lemma_total_monotone(fa, fb);
        assert(a[a.len() - 1].1 <= b[b.len() - 1].1);
    }
}

/// The watermark never falls: what accrues later only raises the target.
pub proof fn law_target_is_monotone(
    v: CarriageView,
    channel: [u8; 8],
    before: Seq<(u8, nat)>,
    after: Seq<(u8, nat)>,
)
    requires
        before.len() == after.len(),
        forall|i: int|
            0 <= i < before.len() ==> (#[trigger] before[i]).0 == after[i].0 && before[i].1 <= after[i].1,
        target_of(v, channel, before) is Some,
        target_of(v, channel, after) is Some,
    ensures
        target_of(v, channel, before)->0 <= target_of(v, channel, after)->0,
{
    let imported = imported_settled(v, channel);
    let (a, b) = (outstanding(before, imported), outstanding(after, imported));
    assert forall|i: int| 0 <= i < a.len() implies (#[trigger] a[i]).1 <= b[i].1 by {
        assert(before[i].1 <= after[i].1);
    }
    lemma_total_monotone(a, b);
}

/// What the channel itself accrued up to its operative checkpoint, over what it imported as
/// settled.
pub open spec fn own_accrual(v: CarriageView, channel: [u8; 8]) -> nat {
    unsettled(v.operative[channel].accruals, if v.imported.dom().contains(channel) {
        v.imported[channel].opening_settled_r
    } else {
        Seq::empty()
    })
}

/// Only a running prepay channel on the baseline asset is drawn on, with a rail, and at the
/// rail's last finality.
pub proof fn law_only_a_running_deposit_is_drawn_on(v: CarriageView, channel: [u8; 8])
    ensures
        drawable(v, channel) <==> {
            let terms = v.driver.retained[channel].terms;
            &&& v.channels.dom().contains(channel)
            &&& v.channels[channel].mode == Mode::Prepay
            &&& !(v.channels[channel].status is Settling)
            &&& !(v.channels[channel].status is Closed)
            &&& v.driver.retained.dom().contains(channel)
            &&& !terms.conversion_required
            &&& v.levels matches Some(levels) && {
                &&& levels.len() > 0
                &&& terms.fin_meed == levels[levels.len() - 1]
                &&& terms.fin_denom == levels[levels.len() - 1]
            }
        },
{
}

/// A new draw is locked before it is made, at the operative checkpoint: it brings the
/// watermark to the whole units of what the channel itself accrued, extinguishes the given
/// share of each role, and is ordered out of the settlement pointer to the channel's own
/// instance.
pub proof fn law_a_new_draw_is_what_accrued(
    v: CarriageView,
    channel: [u8; 8],
    shares: Option<Seq<nat>>,
    terms_fp: [u8; 32],
    round: CheckpointKey,
    order: DrawOrderView,
)
    requires
        interim_step(v, channel, None, shares) == (InterimStepView::Draw { round, order }),
    ensures
        ({
            let terms = v.driver.retained[channel].terms;
            let after = draw_locked(v, channel, None, shares, terms_fp);
            let d = after.rounds[round];
            &&& drawable(v, channel)
            &&& v.operative.dom().contains(channel)
            &&& round == (CheckpointKey { channel, ckpt_ref: v.operative[channel].ckpt_ref })
            &&& !v.rounds.dom().contains(round)
            &&& order.target_p == own_accrual(v, channel) / 10_000
            &&& order.target_p > 0
            &&& order.settle_ptr == terms.settle_ptr
            &&& order.seed_instance == terms.seed_instance
            &&& order.asset == terms.baseline_asset
            &&& unsettled(v.operative[channel].accruals, ledger_of(v, channel).settled_r) >= 10_000
            &&& after.rounds.dom() == v.rounds.dom().insert(round)
            &&& after == (CarriageView { rounds: after.rounds, ..v })
            &&& d.target_p == Some(order.target_p)
            &&& d.draw_ref is None
            &&& !d.confirmed && !d.meed_folded
            &&& d.net_folded && d.outputs.len() == 0
            &&& shares is Some
            &&& forall|i: int|
                0 <= i < d.e_r.len() ==> (#[trigger] d.e_r[i]).0 == v.operative[channel].accruals[i].0
                    && d.e_r[i].1 == (shares->0)[i]
            &&& (shares->0).len() >= v.operative[channel].accruals.len() ==> d.e_r.len()
                == v.operative[channel].accruals.len()
        }),
{
    let op = v.operative[channel];
    law_outstanding_is_unsettled(op.accruals, ledger_of(v, channel).settled_r);
    law_outstanding_is_unsettled(op.accruals, imported_settled(v, channel));
    let after = draw_locked(v, channel, None, shares, terms_fp);
    assert(after.rounds.dom() =~= v.rounds.dom().insert(round));
}

/// Whole units of meed that are unsettled at the operative checkpoint of a channel that may
/// be drawn on are drawn, where no round has begun there or is in flight.
pub proof fn law_owed_meed_is_drawn(v: CarriageView, channel: [u8; 8], shares: Seq<nat>)
    requires
        drawable(v, channel),
        v.operative.dom().contains(channel),
        !v.rounds.dom().contains(
            CheckpointKey { channel, ckpt_ref: v.operative[channel].ckpt_ref },
        ),
        ({
            let op = v.operative[channel];
            let before = if v.imported.dom().contains(channel) {
                v.imported[channel].opening_settled_r
            } else {
                Seq::empty()
            };
            let owed = unsettled(op.accruals, ledger_of(v, channel).settled_r);
            &&& op.cum_total < two_pow_256()
            &&& ascending(op.accruals)
            &&& reconcilable(op.accruals, ledger_of(v, channel).settled_r)
            &&& reconcilable(op.accruals, before)
            &&& 10_000 <= owed
            &&& owed / 10_000 <= u128::MAX
            &&& 0 < own_accrual(v, channel) / 10_000 <= u128::MAX
        }),
    ensures
        interim_step(v, channel, None, Some(shares)) is Draw,
{
    let op = v.operative[channel];
    law_outstanding_is_unsettled(op.accruals, ledger_of(v, channel).settled_r);
    law_outstanding_is_unsettled(op.accruals, imported_settled(v, channel));
}

/// A draw in flight is not made anew: without a reference it is submitted again as it was
/// locked, with one it is asked for, and nothing is locked beside it.
pub proof fn law_a_locked_draw_is_kept(
    v: CarriageView,
    channel: [u8; 8],
    key: CheckpointKey,
    shares: Option<Seq<nat>>,
    terms_fp: [u8; 32],
)
    requires
        drawable(v, channel),
        v.rounds.dom().contains(key),
        key.channel == channel,
        v.rounds[key].target_p is Some,
    ensures
        draw_locked(v, channel, Some(key), shares, terms_fp) == v,
        v.rounds[key].draw_ref matches Some(name) ==> interim_step(v, channel, Some(key), shares) == (
        InterimStepView::Recheck { round: key, tx_ref: name }),
        v.rounds[key].draw_ref is None ==> (interim_step(v, channel, Some(key), shares) matches InterimStepView::Draw {
            round,
            order,
        } && round == key && Some(order.target_p) == v.rounds[key].target_p),
{
}

/// A draw counts once it is final: then each role gains what the round extinguishes and the
/// round is complete; before that it only has its reference, and a draw that failed changes
/// nothing. Whatever came, no net, no funding and no other channel's ledger changes.
pub proof fn law_a_draw_counts_once_it_is_final(
    v: CarriageView,
    key: CheckpointKey,
    reference: String,
    finality: Option<Finality>,
    role: u8,
)
    requires
        v.rounds.dom().contains(key),
        v.driver.retained.dom().contains(key.channel),
        v.levels is Some,
        !v.rounds[key].meed_folded,
        ascending(ledger_of(v, key.channel).settled_r),
        ascending(v.rounds[key].e_r),
    ensures
        ({
            let after = drawn(v, key, DrawOutcome::Drawn { reference, finality });
            let counts = finality is Some && final_enough(
                v.levels->0,
                finality,
                v.driver.retained[key.channel].terms.fin_meed,
            );
            let (led, led2) = (ledger_of(v, key.channel), ledger_of(after, key.channel));
            &&& amount_of(led2.settled_r, role) == amount_of(led.settled_r, role) + if counts {
                amount_of(v.rounds[key].e_r, role)
            } else {
                0
            }
            &&& after.rounds[key].confirmed == (v.rounds[key].confirmed || counts)
            &&& after.rounds[key].meed_folded == counts
            &&& after.rounds[key].draw_ref == Some(reference@)
            &&& led2.net_legs_sum == led.net_legs_sum
            &&& led2.funding_sum == led.funding_sum
            &&& forall|c: [u8; 8]| c != key.channel ==> #[trigger] ledger_of(after, c) == ledger_of(v, c)
            &&& drawn(v, key, DrawOutcome::Failed) == v
            &&& amount_of(
                ledger_of(drawn(v, key, DrawOutcome::NoReference), key.channel).settled_r,
                role,
            ) == amount_of(led.settled_r, role) + amount_of(v.rounds[key].e_r, role)
            &&& drawn(v, key, DrawOutcome::NoReference).rounds[key].confirmed
        }),
{
    law_fold_is_exact(ledger_of(v, key.channel).settled_r, v.rounds[key].e_r, role);
}

/// The receipt of a draw says what was drawn: the round's checkpoint, its watermark, what it
/// extinguished, on the channel's own instance and network, under the given reference and at
/// the given finality.
pub proof fn law_a_receipt_says_what_was_drawn(
    v: CarriageView,
    key: CheckpointKey,
    tx_ref: Seq<char>,
    f: Finality,
)
    requires
        v.rounds[key].target_p is Some,
    ensures
        receipt_of(v, key, tx_ref, Some(f)) matches Some(receipt) && {
            let terms = v.driver.retained[key.channel].terms;
            &&& receipt.channel_id == key.channel
            &&& receipt.ckpt_ref == key.ckpt_ref
            &&& Some(receipt.amount) == v.rounds[key].target_p
            &&& receipt.extinguished == v.rounds[key].e_r
            &&& receipt.seed_instance == terms.seed_instance
            &&& receipt.rail == terms.baseline_net
            &&& receipt.tx_ref == tx_ref
            &&& receipt.finality == f.level@
        },
{
}

/// A draw that is not known, or that the rail refused, changes nothing, and none changes another
/// round or another channel's ledger.
pub proof fn law_a_draw_touches_its_round_alone(
    v: CarriageView,
    key: CheckpointKey,
    outcome: DrawOutcome,
    other: CheckpointKey,
    channel: [u8; 8],
)
    requires
        other != key,
        channel != key.channel,
    ensures
        !v.rounds.dom().contains(key) || !v.driver.retained.dom().contains(key.channel) || outcome is Failed
            ==> drawn(v, key, outcome) == v,
        drawn(v, key, outcome).rounds.dom() == v.rounds.dom(),
        v.rounds.dom().contains(other) ==> drawn(v, key, outcome).rounds[other] == v.rounds[other],
        ledger_of(drawn(v, key, outcome), channel) == ledger_of(v, channel),
{
    assert(drawn(v, key, outcome).rounds.dom() =~= v.rounds.dom());
}

} // verus!
