//! Closing a channel: its deposit is returned once, or its position rolls forward
//! once, never both.

use vstd::prelude::*;

use crate::bignat::BigNat;
use crate::bytes::same_array;
use crate::carriage::rounds::{
    draw_folded, draw_owed, dust_of, evidenced, imported_settled, law_carve_is_accounted_for,
};
use crate::carriage::settle::{advance_reached, advanced_to};
use crate::carriage::{
    disposition_of, ledger_of, mode_of, other_round_open, Carriage, CarriageError, CarriageView,
    Effect, Handled, Response,
};
use crate::channel::{terminated, text_option, CheckpointKey, Mode, SettlementTerms};
use crate::disposition::{disp_bytes, disp_found, disp_of, ChainState};
use crate::keys::{
    disp_key_bytes, refund_ref_key, refund_reserve_key, release_key_bytes, reserve_key_bytes,
};
use crate::medium::LogMedium;
use crate::meed::{
    amount_of, ascending, carve, copy_rows, law_fold_is_exact, law_outstanding_is_unsettled, owed_net,
    prepay_unconsumed_deposit, reconcilable, roles_within, unsettled,
};
use crate::one_decision::{claim, keeps, Decision, OneDecisionStore, WalOneDecision};
use crate::rail::AdvanceFact;
use crate::text::text_bytes;

verus! {

/// A close of a channel at a checkpoint.
#[derive(Debug, Clone, Copy)]
pub struct Close {
    pub channel_id: [u8; 8],
    pub ckpt_ref: [u8; 32],
    /// Whether the close is accepted under the channel's keys, and if so whether
    /// the payer means to chain.
    pub accepted: Option<bool>,
}

/// A refund to be released.
#[derive(Debug)]
pub struct RefundOrder {
    pub settle_ptr: String,
    pub refund_ptr: String,
    pub denom: String,
    pub amount: u128,
}

/// What a [`RefundOrder`] says.
#[verifier::ext_equal]
pub struct RefundView {
    pub settle_ptr: Seq<char>,
    pub refund_ptr: Seq<char>,
    pub denom: Seq<char>,
    pub amount: u128,
}

impl View for RefundOrder {
    type V = RefundView;

    open spec fn view(&self) -> RefundView {
        RefundView {
            settle_ptr: self.settle_ptr@,
            refund_ptr: self.refund_ptr@,
            denom: self.denom@,
            amount: self.amount,
        }
    }
}

/// A draw of the carve to the instance.
#[derive(Debug)]
pub struct DrawOrder {
    pub settle_ptr: String,
    pub seed_instance: [u8; 32],
    pub target_p: u128,
    pub asset: String,
}

/// What a [`DrawOrder`] says.
#[verifier::ext_equal]
pub struct DrawOrderView {
    pub settle_ptr: Seq<char>,
    pub seed_instance: [u8; 32],
    pub target_p: u128,
    pub asset: Seq<char>,
}

impl View for DrawOrder {
    type V = DrawOrderView;

    open spec fn view(&self) -> DrawOrderView {
        DrawOrderView {
            settle_ptr: self.settle_ptr@,
            seed_instance: self.seed_instance,
            target_p: self.target_p,
            asset: self.asset@,
        }
    }
}

/// What to do with a close.
#[derive(Debug)]
pub enum CloseStep {
    /// It is refused.
    Refuse,
    /// The intent to chain stands; nothing is refunded.
    Chain,
    /// The first plain close: release the refund, if any, and reconcile.
    First(Option<RefundOrder>),
    /// The channel was decided on before: nothing but a draw still owed.
    Replay,
}

/// What a [`CloseStep`] says.
#[verifier::ext_equal]
pub enum CloseStepView {
    Refuse,
    Chain,
    First(Option<RefundView>),
    Replay,
}

impl View for CloseStep {
    type V = CloseStepView;

    open spec fn view(&self) -> CloseStepView {
        match self {
            CloseStep::Refuse => CloseStepView::Refuse,
            CloseStep::Chain => CloseStepView::Chain,
            CloseStep::First(None) => CloseStepView::First(None),
            CloseStep::First(Some(order)) => CloseStepView::First(Some(order@)),
            CloseStep::Replay => CloseStepView::Replay,
        }
    }
}

/// The consumption that both sides have signed for: the operative checkpoint's,
/// or else the imported one, or else none.
pub open spec fn basis_cum(v: CarriageView, channel: [u8; 8]) -> u128 {
    if v.operative.dom().contains(channel) {
        if v.operative[channel].cum_total <= u128::MAX {
            v.operative[channel].cum_total as u128
        } else {
            u128::MAX
        }
    } else if v.imported.dom().contains(channel) {
        v.imported[channel].cum
    } else {
        0
    }
}

/// The refund that a first plain close owes: the deposit less the signed
/// consumption, where there is a rail to release it on and a place for it to go.
pub open spec fn refund_owed(v: CarriageView, channel: [u8; 8]) -> Option<RefundView> {
    let terms = v.driver.retained[channel].terms;
    let basis = basis_cum(v, channel);
    if v.channels.dom().contains(channel) && v.ledger.dom().contains(channel) && terms.refund_ptr is Some
        && v.levels is Some && basis < v.ledger[channel].funding_sum {
        Some(
            RefundView {
                settle_ptr: terms.settle_ptr,
                refund_ptr: terms.refund_ptr->0,
                denom: terms.denom,
                amount: (v.ledger[channel].funding_sum - basis) as u128,
            },
        )
    } else {
        None
    }
}

/// The disposition that counts: the carriage's own, or else the stored one.
pub open spec fn prior_disposition(
    v: CarriageView,
    channel: [u8; 8],
    stored: Option<ChainState>,
) -> Option<ChainState> {
    match disposition_of(v, channel) {
        Some(state) => Some(state),
        None => stored,
    }
}

/// Whether a close at `ckpt_ref` can be considered: it names the operative
/// checkpoint, where there is one and the channel is not reconciled yet; and a
/// chaining one finds no round in flight.
pub open spec fn closable(v: CarriageView, close: Close) -> bool {
    let channel = close.channel_id;
    &&& v.driver.retained.dom().contains(channel)
    &&& close.accepted is Some
    &&& (disposition_of(v, channel) matches Some(ChainState::Reconciled { .. }))
        || !v.operative.dom().contains(channel) || v.operative[channel].ckpt_ref == close.ckpt_ref
    &&& !(close.accepted->0 && other_round_open(v, channel, None))
}

/// Whether a chaining close can stand: everything metered is signed for, by a
/// checkpoint of the channel itself unless nothing was metered.
pub open spec fn chainable(v: CarriageView, channel: [u8; 8]) -> bool {
    let live = if v.channels.dom().contains(channel) {
        v.channels[channel].cum_total
    } else {
        0
    };
    live == basis_cum(v, channel) && (v.operative.dom().contains(channel) || live == 0)
}

/// What to do with a close; `stored` is the disposition that the store holds.
pub open spec fn close_step(v: CarriageView, close: Close, stored: Option<ChainState>) -> CloseStepView {
    let channel = close.channel_id;
    if !closable(v, close) {
        CloseStepView::Refuse
    } else if close.accepted->0 && !v.driver.retained[channel].terms.conversion_required {
        if chainable(v, channel) {
            CloseStepView::Chain
        } else {
            CloseStepView::Refuse
        }
    } else {
        match prior_disposition(v, channel, stored) {
            None => CloseStepView::First(refund_owed(v, channel)),
            Some(ChainState::Pending) => CloseStepView::First(refund_owed(v, channel)),
            _ => CloseStepView::Replay,
        }
    }
}

/// The carriage once a close was considered: an intent to chain is noted, where
/// nothing was decided before.
pub open spec fn close_begun(v: CarriageView, close: Close, stored: Option<ChainState>) -> CarriageView {
    if close_step(v, close, stored) is Chain && prior_disposition(v, close.channel_id, stored) is None {
        CarriageView { chain: v.chain.insert(close.channel_id, ChainState::Pending), ..v }
    } else {
        v
    }
}

/// What the rail says of the merchant's own draw for a round.
#[derive(Debug, Clone, Copy)]
pub struct DrawFact {
    pub ckpt_ref: [u8; 32],
    pub advanced: Option<AdvanceFact>,
}

/// A round of a channel whose draw the rail is to be asked about.
#[derive(Debug)]
pub struct OpenDraw {
    pub ckpt_ref: [u8; 32],
    pub draw_ref: Option<String>,
}

/// Whether the rail shows that the draw of the round at `key` reached its target.
pub open spec fn draw_reached(v: CarriageView, key: CheckpointKey, fact: DrawFact) -> bool {
    let d = v.rounds[key];
    &&& v.rounds.dom().contains(key)
    &&& !d.confirmed
    &&& d.target_p is Some
    &&& d.draw_ref is Some
    &&& advanced_to(
        fact.advanced,
        key.channel,
        v.driver.retained[key.channel].terms.seed_instance,
        d.target_p->0,
    )
}

/// The carriage once the rounds whose draw the rail shows as reached are folded.
pub open spec fn draws_folded(v: CarriageView, channel: [u8; 8], facts: Seq<DrawFact>) -> CarriageView
    decreases facts.len(),
{
    if facts.len() == 0 {
        v
    } else {
        let before = draws_folded(v, channel, facts.drop_last());
        let key = CheckpointKey { channel, ckpt_ref: facts.last().ckpt_ref };
        if draw_reached(before, key, facts.last()) {
            draw_folded(before, key, before.rounds[key].e_r, None)
        } else {
            before
        }
    }
}

/// The carriage without the rounds of `channel` that are not complete.
pub open spec fn open_rounds_dropped(v: CarriageView, channel: [u8; 8]) -> CarriageView {
    CarriageView {
        rounds: v.rounds.restrict(
            Set::new(|k: CheckpointKey| k.channel != channel || v.rounds[k].confirmed),
        ),
        ..v
    }
}

/// The carriage once the merchant's own rounds of a prepay channel are resolved:
/// folded where the rail shows the draw, and dropped else.
pub open spec fn drained(v: CarriageView, channel: [u8; 8], facts: Seq<DrawFact>) -> CarriageView {
    if mode_of(v, channel) == Some(Mode::Prepay) && v.driver.retained.dom().contains(channel) {
        open_rounds_dropped(draws_folded(v, channel, facts), channel)
    } else {
        v
    }
}

/// The disposition that a first plain close of a channel is given.
pub open spec fn reconciled_state(v: CarriageView, channel: [u8; 8]) -> ChainState {
    ChainState::Reconciled { pending_draw: draw_owed(v, channel) }
}

/// The draw that a reconciled channel still owes to its instance, as pinned.
pub open spec fn close_draw(v: CarriageView, channel: [u8; 8]) -> Option<DrawOrderView> {
    match disposition_of(v, channel) {
        Some(ChainState::Reconciled { pending_draw: Some((_, target_p)) }) => if v.driver.retained.dom().contains(
            channel,
        ) && v.levels is Some {
            let terms = v.driver.retained[channel].terms;
            Some(
                DrawOrderView {
                    settle_ptr: terms.settle_ptr,
                    seed_instance: terms.seed_instance,
                    target_p,
                    asset: terms.baseline_asset,
                },
            )
        } else {
            None
        },
        _ => None,
    }
}

/// The carriage once the pinned draw was made.
pub open spec fn draw_cleared(v: CarriageView, channel: [u8; 8]) -> CarriageView {
    match disposition_of(v, channel) {
        Some(ChainState::Reconciled { .. }) => CarriageView {
            chain: v.chain.insert(channel, ChainState::Reconciled { pending_draw: None }),
            ..v
        },
        _ => v,
    }
}

impl<S: OneDecisionStore> Carriage<S> {
    fn signed_basis(&self, channel: &[u8; 8]) -> (r: u128)
        ensures
            r == basis_cum(self@, *channel),
    {
        match self.operative.get(channel) {
            Some(op) => match op.cum_total.to_u128() {
                Some(n) => n,
                None => u128::MAX,
            },
            None => match self.imported_basis.get(channel) {
                Some(b) => b.cum,
                None => 0,
            },
        }
    }

    fn refund_order(&self, channel: &[u8; 8]) -> (r: Option<RefundOrder>)
        requires
            self@.driver.retained.dom().contains(*channel),
        ensures
            match r {
                Some(order) => refund_owed(self@, *channel) == Some(order@),
                None => refund_owed(self@, *channel) is None,
            },
    {
        let terms: &SettlementTerms = match self.driver.settlement_terms(channel) {
            Some(terms) => terms,
            None => return None,
        };
        let refund_ptr: &String = match &terms.refund_ptr {
            Some(p) => p,
            None => return None,
        };
        let funding: u128 = match self.ledger.get(channel) {
            Some(led) => led.funding_sum,
            None => return None,
        };
        if !self.channels.contains(channel) || self.levels.is_none() {
            return None;
        }
        match prepay_unconsumed_deposit(funding, self.signed_basis(channel)) {
            Some(amount) => if amount > 0 {
                Some(
                    RefundOrder {
                        settle_ptr: terms.settle_ptr.clone(),
                        refund_ptr: refund_ptr.clone(),
                        denom: terms.denom.clone(),
                        amount,
                    },
                )
            } else {
                None
            },
            None => None,
        }
    }

    fn check_closable(&self, close: &Close) -> (r: bool)
        ensures
            r == closable(self@, *close),
    {
        let channel: &[u8; 8] = &close.channel_id;
        if self.driver.payer_key(channel).is_none() {
            return false;
        }
        let chain_intent: bool = match close.accepted {
            Some(chain_intent) => chain_intent,
            None => return false,
        };
        let reconciled: bool = match self.chain_state.get(channel) {
            Some(ChainState::Reconciled { .. }) => true,
            _ => false,
        };
        if !reconciled {
            if let Some(op) = self.operative.get(channel) {
                if !same_array(&close.ckpt_ref, &op.ckpt_ref) {
                    return false;
                }
            }
        }
        !(chain_intent && self.has_open_round(channel, &None))
    }

    /// Considers a close, given the disposition that the store holds of the
    /// channel.
    pub fn begin_close(&mut self, close: &Close, stored: &Option<ChainState>) -> (r: CloseStep)
        requires
            old(self).wf(),
        ensures
            final(self).wf(),
            old(self).same_store(*final(self)),
            r@ == close_step(old(self)@, *close, *stored),
            final(self)@ == close_begun(old(self)@, *close, *stored),
    {
        let channel: &[u8; 8] = &close.channel_id;
        if !self.check_closable(close) {
            return CloseStep::Refuse;
        }
        let conversion: bool = match self.driver.settlement_terms(channel) {
            Some(terms) => terms.conversion_required,
            None => return CloseStep::Refuse,
        };
        let chain_intent: bool = match close.accepted {
            Some(chain_intent) => chain_intent,
            None => return CloseStep::Refuse,
        };
        let prior: Option<ChainState> = match self.chain_state.get(channel) {
            Some(state) => Some(*state),
            None => *stored,
        };
        if chain_intent && !conversion {
            let live: u128 = match self.channels.get(channel) {
                Some(m) => m.cum_total,
                None => 0,
            };
            if live != self.signed_basis(channel) || (!self.operative.contains(channel) && live != 0) {
                return CloseStep::Refuse;
            }
            if prior.is_none() {
                self.chain_state.insert(*channel, ChainState::Pending);
            }
            return CloseStep::Chain;
        }
        match prior {
            None => {
                let order: Option<RefundOrder> = self.refund_order(channel);
                CloseStep::First(order)
            },
            Some(ChainState::Pending) => {
                let order: Option<RefundOrder> = self.refund_order(channel);
                CloseStep::First(order)
            },
            _ => CloseStep::Replay,
        }
    }

    /// Answers a close as far as it can be answered before a rail is asked. The
    /// store is the authority on what was decided before.
    pub fn on_close(&mut self, close: &Close) -> (r: CloseStep)
        requires
            old(self).wf(),
        ensures
            final(self).wf(),
            old(self).same_store(*final(self)),
            exists|value: Option<Vec<u8>>|
                {
                    let stored = disp_found(value);
                    &&& #[trigger] old(self).found(disp_key_bytes(close.channel_id), value)
                    &&& !old(self).stored() ==> stored is None
                    &&& old(self).recorded().dom().contains(disp_key_bytes(close.channel_id)) ==> stored
                        == disp_of(old(self).recorded()[disp_key_bytes(close.channel_id)])
                    &&& r@ == close_step(old(self)@, *close, stored)
                    &&& final(self)@ == close_begun(old(self)@, *close, stored)
                },
    {
        let stored: Option<ChainState> = self.stored_disposition(&close.channel_id);
        let r: CloseStep = self.begin_close(close, &stored);
        assert(r@ == close_step(old(self)@, *close, stored));
        r
    }

    /// Records that a refund is due, before it is released: a restart that falls in
    /// between finds it, and releases it under the same key.
    pub fn reserve_refund(&mut self, channel: &[u8; 8], ckpt_ref: &[u8; 32]) -> (r: Decision)
        requires
            old(self).wf(),
        ensures
            final(self).wf(),
            final(self).stored() == old(self).stored(),
            final(self)@ == old(self)@,
            keeps(old(self).recorded(), final(self).recorded()),
            old(self).asked(
                reserve_key_bytes(*channel, *ckpt_ref),
                Seq::empty(),
                *final(self),
                r,
            ),
            old(self).stored() && r is Fresh ==> final(self).recorded().contains_pair(
                reserve_key_bytes(*channel, *ckpt_ref),
                Seq::empty(),
            ),
            old(self).stored() && !(r is Failed) ==> final(self).recorded().dom().contains(
                reserve_key_bytes(*channel, *ckpt_ref),
            ),
            !old(self).stored() ==> r is Fresh,
    {
        let key: Vec<u8> = refund_reserve_key(channel, ckpt_ref);
        let empty: Vec<u8> = Vec::new();
        let r: Decision = claim(&mut self.decisions, &key, &empty);
        assert(empty@ =~= Seq::empty());
        assert(self@ == old(self)@);
        r
    }

    /// Records the rail reference of a released refund.
    pub fn record_release(&mut self, channel: &[u8; 8], ckpt_ref: &[u8; 32], reference: &String) -> (r:
        Decision)
        requires
            old(self).wf(),
        ensures
            final(self).wf(),
            final(self).stored() == old(self).stored(),
            final(self)@ == old(self)@,
            keeps(old(self).recorded(), final(self).recorded()),
            old(self).asked(
                release_key_bytes(*channel, *ckpt_ref),
                vstd::utf8::encode_utf8(reference@),
                *final(self),
                r,
            ),
            old(self).stored() && r is Fresh ==> final(self).recorded().contains_pair(
                release_key_bytes(*channel, *ckpt_ref),
                vstd::utf8::encode_utf8(reference@),
            ),
            !old(self).stored() ==> r is Fresh,
    {
        let key: Vec<u8> = refund_ref_key(channel, ckpt_ref);
        let value: Vec<u8> = text_bytes(reference.as_str());
        let r: Decision = claim(&mut self.decisions, &key, &value);
        assert(self@ == old(self)@);
        r
    }

    /// The rounds of a channel that are not complete, with the merchant's own draw
    /// for each.
    pub fn open_draws(&self, channel: &[u8; 8]) -> (r: Vec<OpenDraw>)
        ensures
            forall|i: int|
                0 <= i < r@.len() ==> {
                    let k = CheckpointKey { channel: *channel, ckpt_ref: (#[trigger] r@[i]).ckpt_ref };
                    &&& self@.rounds.dom().contains(k)
                    &&& !self@.rounds[k].confirmed
                    &&& text_option(r@[i].draw_ref) == self@.rounds[k].draw_ref
                },
            forall|k: CheckpointKey|
                {
                    &&& #[trigger] self@.rounds.dom().contains(k)
                    &&& k.channel == *channel
                    &&& !self@.rounds[k].confirmed
                } ==> exists|i: int| 0 <= i < r@.len() && (#[trigger] r@[i]).ckpt_ref == k.ckpt_ref,
    {
        let mut r: Vec<OpenDraw> = Vec::new();
        let n: usize = self.rounds.len();
        let mut i: usize = 0;
        while i < n
            invariant
                i <= n,
                n == self.rounds.keys().len(),
                forall|k: CheckpointKey|
                    self.rounds@.dom().contains(k) <==> self.rounds.keys().contains(k),
                forall|j: int|
                    0 <= j < r@.len() ==> {
                        let k = CheckpointKey { channel: *channel, ckpt_ref: (#[trigger] r@[j]).ckpt_ref };
                        &&& self@.rounds.dom().contains(k)
                        &&& !self@.rounds[k].confirmed
                        &&& text_option(r@[j].draw_ref) == self@.rounds[k].draw_ref
                    },
                forall|j: int|
                    0 <= j < i ==> {
                        let k = #[trigger] self.rounds.keys()[j];
                        k.channel == *channel && !self@.rounds[k].confirmed ==> exists|m: int|
                            0 <= m < r@.len() && (#[trigger] r@[m]).ckpt_ref == k.ckpt_ref
                    },
            decreases n - i,
        {
            let k: CheckpointKey = self.rounds.key_at(i);
            let ghost before: Seq<OpenDraw> = r@;
            if same_array(&k.channel, channel) {
                if let Some(d) = self.rounds.get(&k) {
                    if !d.confirmed {
                        let draw_ref: Option<String> = match &d.draw_ref {
                            Some(s) => Some(s.clone()),
                            None => None,
                        };
                        r.push(OpenDraw { ckpt_ref: k.ckpt_ref, draw_ref });
                        assert(r@[before.len() as int].ckpt_ref == k.ckpt_ref);
                    }
                }
            }
            proof {
                assert forall|j: int| 0 <= j < i + 1 implies {
                    let k = #[trigger] self.rounds.keys()[j];
                    k.channel == *channel && !self@.rounds[k].confirmed ==> exists|m: int|
                        0 <= m < r@.len() && (#[trigger] r@[m]).ckpt_ref == k.ckpt_ref
                } by {
                    let kj = self.rounds.keys()[j];
                    if j < i && kj.channel == *channel && !self@.rounds[kj].confirmed {
                        let m = choose|m: int|
                            0 <= m < before.len() && (#[trigger] before[m]).ckpt_ref == kj.ckpt_ref;
                        assert(r@[m] == before[m]);
                    }
                }
            }
            i = i + 1;
        }
        assert forall|k: CheckpointKey|
            {
                &&& #[trigger] self@.rounds.dom().contains(k)
                &&& k.channel == *channel
                &&& !self@.rounds[k].confirmed
            } implies exists|i: int| 0 <= i < r@.len() && (#[trigger] r@[i]).ckpt_ref == k.ckpt_ref by {
            assert(self.rounds.keys().contains(k));
            let j = choose|j: int| 0 <= j < self.rounds.keys().len() && self.rounds.keys()[j] == k;
            assert(self.rounds.keys()[j] == k);
        }
        r
    }

    fn drop_open_rounds(&mut self, channel: &[u8; 8])
        requires
            old(self).wf(),
        ensures
            final(self).wf(),
            old(self).same_store(*final(self)),
            final(self)@ == open_rounds_dropped(old(self)@, *channel),
    {
        let ghost start: CarriageView = self@;
        let mut left: usize = self.rounds.count();
        let mut next: Option<CheckpointKey> = self.find_open_round(channel, &None);
        while next.is_some()
            invariant
                self.wf(),
                old(self).same_store(*self),
                start == old(self)@,
                self@ == (CarriageView { rounds: self@.rounds, ..start }),
                open_rounds_dropped(self@, *channel).rounds == open_rounds_dropped(start, *channel).rounds,
                self@.rounds.dom().finite(),
                left == self@.rounds.dom().len(),
                match next {
                    Some(k) => {
                        &&& self@.rounds.dom().contains(k)
                        &&& k.channel == *channel
                        &&& !self@.rounds[k].confirmed
                    },
                    None => !other_round_open(self@, *channel, None),
                },
            decreases left,
        {
            if let Some(k) = next {
                let ghost before: CarriageView = self@;
                let _ = self.rounds.remove(&k);
                proof {
                    assert(self@.rounds.dom() =~= before.rounds.dom().remove(k));
                    assert(open_rounds_dropped(self@, *channel).rounds =~= open_rounds_dropped(
                        before,
                        *channel,
                    ).rounds);
                }
                left = left - 1;
            }
            next = self.find_open_round(channel, &None);
        }
        proof {
            let after = open_rounds_dropped(self@, *channel).rounds;
            assert(after =~= self@.rounds) by {
                assert forall|k: CheckpointKey| #[trigger] self@.rounds.dom().contains(k) implies after.dom().contains(
                    k,
                ) by {}
            }
        }
    }

    fn fold_reached_draws(&mut self, channel: &[u8; 8], facts: &Vec<DrawFact>, seed: &[u8; 32])
        requires
            old(self).wf(),
            old(self)@.driver.retained.dom().contains(*channel),
            *seed == old(self)@.driver.retained[*channel].terms.seed_instance,
        ensures
            final(self).wf(),
            old(self).same_store(*final(self)),
            final(self)@ == draws_folded(old(self)@, *channel, facts@),
    {
        let mut i: usize = 0;
        assert(facts@.take(0) =~= Seq::empty());
        while i < facts.len()
            invariant
                i <= facts@.len(),
                self.wf(),
                old(self).same_store(*self),
                self@.driver == old(self)@.driver,
                *seed == old(self)@.driver.retained[*channel].terms.seed_instance,
                self@ == draws_folded(old(self)@, *channel, facts@.take(i as int)),
            decreases facts@.len() - i,
        {
            proof {
                let next = facts@.take(i + 1);
                assert(next.drop_last() =~= facts@.take(i as int));
                assert(next.last() == facts@[i as int]);
            }
            let key: CheckpointKey = CheckpointKey { channel: *channel, ckpt_ref: facts[i].ckpt_ref };
            let reached: Option<Vec<(u8, BigNat)>> = match self.rounds.get(&key) {
                Some(d) => match (d.target_p, &d.draw_ref) {
                    (Some(target_p), Some(_)) => if !d.confirmed && advance_reached(
                        &facts[i].advanced,
                        channel,
                        seed,
                        target_p,
                    ) {
                        Some(copy_rows(&d.e_r))
                    } else {
                        None
                    },
                    _ => None,
                },
                None => None,
            };
            assert(reached is Some == draw_reached(self@, key, facts@[i as int]));
            if let Some(e_r) = reached {
                self.fold_interim_round(&key, &e_r, None);
            }
            i = i + 1;
        }
        assert(facts@.take(facts@.len() as int) =~= facts@);
    }

    /// Resolves the merchant's own rounds of a prepay channel, so that a close
    /// draws no accrual twice. The rail decides: a round counts only where the rail
    /// shows that its draw reached the target.
    pub fn drain_interim_rounds(&mut self, channel: &[u8; 8], facts: &Vec<DrawFact>)
        requires
            old(self).wf(),
        ensures
            final(self).wf(),
            old(self).same_store(*final(self)),
            final(self)@ == drained(old(self)@, *channel, facts@),
    {
        match self.channels.get(channel) {
            Some(m) => if m.mode != Mode::Prepay {
                return;
            },
            None => return,
        }
        let seed: [u8; 32] = match self.driver.settlement_terms(channel) {
            Some(terms) => terms.seed_instance,
            None => return,
        };
        self.fold_reached_draws(channel, facts, &seed);
        self.drop_open_rounds(channel);
    }

    /// Takes over a terminal disposition once it was recorded. One that could not
    /// be recorded is not taken over, and the close is refused, to be retried.
    pub fn close_recorded(&mut self, channel: &[u8; 8], state: &ChainState, decision: &Decision) -> (r:
        Result<(), CarriageError>)
        requires
            old(self).wf(),
        ensures
            final(self).wf(),
            old(self).same_store(*final(self)),
            match decision {
                Decision::Failed => r == Err::<(), CarriageError>(CarriageError::Rejected) && final(self)@
                    == old(self)@,
                _ => r is Ok && final(self)@ == (CarriageView {
                    chain: old(self)@.chain.insert(*channel, *state),
                    ..old(self)@
                }),
            },
    {
        match decision {
            Decision::Failed => Err(CarriageError::Rejected),
            _ => {
                self.chain_state.insert(*channel, *state);
                Ok(())
            },
        }
    }

    /// Reconciles a channel at its first plain close: its open rounds are resolved,
    /// the carve still owed is pinned, and the disposition is recorded.
    pub fn reconcile_close(&mut self, channel: &[u8; 8], facts: &Vec<DrawFact>) -> (r: Result<(), CarriageError>)
        requires
            old(self).wf(),
        ensures
            final(self).wf(),
            final(self).stored() == old(self).stored(),
            keeps(old(self).recorded(), final(self).recorded()),
            !old(self).stored() ==> r is Ok,
            ({
                let after = drained(old(self)@, *channel, facts@);
                let state = reconciled_state(after, *channel);
                exists|decision: Decision|
                    {
                        &&& #[trigger] old(self).asked(
                            disp_key_bytes(*channel),
                            disp_bytes(state),
                            *final(self),
                            decision,
                        )
                        &&& r is Err == (decision is Failed)
                        &&& old(self).stored() && decision is Fresh
                            ==> final(self).recorded().contains_pair(
                            disp_key_bytes(*channel),
                            disp_bytes(state),
                        )
                    }
            }),
            ({
                let after = drained(old(self)@, *channel, facts@);
                match r {
                    Ok(_) => {
                        &&& final(self)@ == (CarriageView {
                            chain: after.chain.insert(*channel, reconciled_state(after, *channel)),
                            ..after
                        })
                        &&& old(self).stored() ==> final(self).recorded().dom().contains(
                            disp_key_bytes(*channel),
                        )
                    },
                    Err(e) => e == CarriageError::Rejected && final(self)@ == after,
                }
            }),
    {
        self.drain_interim_rounds(channel, facts);
        let state: ChainState = ChainState::Reconciled { pending_draw: self.compute_pending_draw(channel) };
        let decision: Decision = self.record_disposition(channel, &state);
        let r: Result<(), CarriageError> = self.close_recorded(channel, &state, &decision);
        assert(old(self).asked(disp_key_bytes(*channel), disp_bytes(state), *self, decision));
        r
    }

    /// The draw that a reconciled channel still owes to its instance.
    pub fn close_draw_order(&self, channel: &[u8; 8]) -> (r: Option<DrawOrder>)
        ensures
            match r {
                Some(order) => close_draw(self@, *channel) == Some(order@),
                None => close_draw(self@, *channel) is None,
            },
    {
        let target_p: u128 = match self.chain_state.get(channel) {
            Some(ChainState::Reconciled { pending_draw: Some((_, p)) }) => *p,
            _ => return None,
        };
        if self.levels.is_none() {
            return None;
        }
        match self.driver.settlement_terms(channel) {
            Some(terms) => Some(
                DrawOrder {
                    settle_ptr: terms.settle_ptr.clone(),
                    seed_instance: terms.seed_instance,
                    target_p,
                    asset: terms.baseline_asset.clone(),
                },
            ),
            None => None,
        }
    }

    /// Notes the outcome of the pinned draw: one that was made is owed no longer,
    /// one that failed stays pinned for the next close.
    pub fn attempt_prepay_close_draw(&mut self, channel: &[u8; 8], drawn: bool)
        requires
            old(self).wf(),
        ensures
            final(self).wf(),
            old(self).same_store(*final(self)),
            final(self)@ == (if drawn {
                draw_cleared(old(self)@, *channel)
            } else {
                old(self)@
            }),
    {
        if drawn {
            let reconciled: bool = match self.chain_state.get(channel) {
                Some(ChainState::Reconciled { .. }) => true,
                _ => false,
            };
            if reconciled {
                self.chain_state.insert(*channel, ChainState::Reconciled { pending_draw: None });
            }
        }
    }

    /// Ends an accepted close: the channel's metering stops, and its identifier is
    /// never accepted again.
    pub fn finish_close(&mut self, channel: &[u8; 8]) -> (r: Handled)
        requires
            old(self).wf(),
        ensures
            final(self).wf(),
            old(self).same_store(*final(self)),
            if old(self)@.channels.dom().contains(*channel) {
                &&& r.reply == Ok::<Response, CarriageError>(Response::Accepted)
                &&& r.effect == (Effect::BeginSettling { channel: *channel })
                &&& final(self)@ == (CarriageView {
                    driver: terminated(old(self)@.driver, *channel),
                    ..old(self)@
                })
            } else {
                &&& r.reply == Err::<Response, CarriageError>(CarriageError::Rejected)
                &&& r.effect == Effect::Nothing
                &&& final(self)@ == old(self)@
            },
    {
        if !self.channels.contains(channel) {
            return Handled { reply: Err(CarriageError::Rejected), effect: Effect::Nothing };
        }
        self.driver.terminate(channel);
        Handled {
            reply: Ok(Response::Accepted),
            effect: Effect::BeginSettling { channel: *channel },
        }
    }
}

/// What a close reads of a log is the disposition that is recorded there, or nothing where
/// none is.
pub proof fn law_log_gives_the_recorded_disposition<F: LogMedium>(
    c: Carriage<WalOneDecision<F>>,
    channel: [u8; 8],
    value: Option<Vec<u8>>,
)
    requires
        c.store() is Some,
        c.found(disp_key_bytes(channel), value),
    ensures
        disp_found(value) == (if c.recorded().dom().contains(disp_key_bytes(channel)) {
            disp_of(c.recorded()[disp_key_bytes(channel)])
        } else {
            None
        }),
{
}

/// A deposit is returned at most once, and never after the position rolled
/// forward: once a channel is reconciled or committed, here or in the store, no
/// close of it is a first close.
pub proof fn law_refund_at_most_once(v: CarriageView, close: Close, stored: Option<ChainState>)
    requires
        prior_disposition(v, close.channel_id, stored) matches Some(state) && state !is Pending,
    ensures
        !(close_step(v, close, stored) is First),
        close_begun(v, close, stored) == v,
{
}

/// A refund and the signed consumption add up to the deposit.
pub proof fn law_refund_conserves_the_deposit(v: CarriageView, close: Close, stored: Option<ChainState>)
    requires
        close_step(v, close, stored) matches CloseStepView::First(Some(_)),
    ensures
        close_step(v, close, stored) matches CloseStepView::First(Some(order)) && {
            &&& order.amount > 0
            &&& order.amount + basis_cum(v, close.channel_id) == ledger_of(v, close.channel_id).funding_sum
        },
{
}

/// A prepay close gives the whole deposit away: the refund, the carve that is drawn for
/// this channel, the carve that its predecessors had settled, the dust, and the
/// merchant's net of the signed consumption add up to it.
pub proof fn law_prepay_close_adds_up(v: CarriageView, close: Close, stored: Option<ChainState>)
    requires
        close_step(v, close, stored) matches CloseStepView::First(Some(_)),
        mode_of(v, close.channel_id) == Some(Mode::Prepay),
        !v.driver.retained[close.channel_id].terms.conversion_required,
        evidenced(v, close.channel_id) is Some,
        ({
            let accruals = (evidenced(v, close.channel_id)->0).1;
            let imported = imported_settled(v, close.channel_id);
            &&& ascending(accruals)
            &&& ascending(imported)
            &&& reconcilable(accruals, imported)
            &&& roles_within(imported, accruals)
            &&& carve(accruals) <= basis_cum(v, close.channel_id)
        }),
    ensures
        ({
            let channel = close.channel_id;
            let accruals = (evidenced(v, channel)->0).1;
            let drawn = match draw_owed(v, channel) {
                Some((_, target_p)) => target_p,
                None => 0,
            };
            let net = owed_net(basis_cum(v, channel) as nat, accruals, 0, 0);
            close_step(v, close, stored) matches CloseStepView::First(Some(order)) && order.amount + drawn
                + carve(imported_settled(v, channel)) + dust_of(v, channel) + net == ledger_of(
                v,
                channel,
            ).funding_sum
        }),
{
    law_carve_is_accounted_for(v, close.channel_id);
}

/// A refund rests on what both sides signed for: no metering beyond the signed
/// basis changes it.
pub proof fn law_refund_ignores_live_metering(
    v: CarriageView,
    channel: [u8; 8],
    meter: crate::carriage::MeterView,
)
    requires
        v.channels.dom().contains(channel),
    ensures
        refund_owed(
            CarriageView { channels: v.channels.insert(channel, meter), ..v },
            channel,
        ) == refund_owed(v, channel),
{
}

/// The draw of a reconciled channel is pinned: no later checkpoint moves it.
pub proof fn law_close_draw_is_pinned(
    v: CarriageView,
    channel: [u8; 8],
    op: crate::carriage::OperativeView,
    meter: crate::carriage::MeterView,
)
    ensures
        close_draw(
            CarriageView {
                operative: v.operative.insert(channel, op),
                channels: v.channels.insert(channel, meter),
                ..v
            },
            channel,
        ) == close_draw(v, channel),
{
}

/// A chain intent is no waiver: a plain close of a pending channel is a first
/// close, with the refund that is owed.
pub proof fn law_chain_intent_is_revocable(v: CarriageView, close: Close, stored: Option<ChainState>)
    requires
        closable(v, close),
        close.accepted == Some(false),
        disposition_of(v, close.channel_id) == Some(ChainState::Pending),
    ensures
        close_step(v, close, stored) == CloseStepView::First(refund_owed(v, close.channel_id)),
{
}

proof fn lemma_folds_keep_complete(v: CarriageView, channel: [u8; 8], facts: Seq<DrawFact>)
    ensures
        forall|k: CheckpointKey| #[trigger]
            v.rounds.dom().contains(k) && v.rounds[k].confirmed ==> draws_folded(
                v,
                channel,
                facts,
            ).rounds.contains_pair(k, v.rounds[k]),
    decreases facts.len(),
{
    if facts.len() > 0 {
        lemma_folds_keep_complete(v, channel, facts.drop_last());
    }
}

/// After a prepay channel was drained none of its rounds is in flight, and what
/// was complete stays.
pub proof fn law_drain_leaves_no_open_round(v: CarriageView, channel: [u8; 8], facts: Seq<DrawFact>)
    requires
        mode_of(v, channel) == Some(Mode::Prepay),
        v.driver.retained.dom().contains(channel),
    ensures
        !other_round_open(drained(v, channel, facts), channel, None),
        forall|k: CheckpointKey| #[trigger]
            v.rounds.dom().contains(k) && v.rounds[k].confirmed ==> drained(
                v,
                channel,
                facts,
            ).rounds.contains_pair(k, v.rounds[k]),
{
    let after = drained(v, channel, facts);
    let folded = draws_folded(v, channel, facts);
    lemma_folds_keep_complete(v, channel, facts);
    assert forall|k: CheckpointKey| #[trigger] after.rounds.dom().contains(k) implies k.channel != channel
        || after.rounds[k].confirmed by {
        assert(folded.rounds.dom().contains(k));
    }
}

/// Without a word of the rail no draw counts: the ledger stays as it is, and so does
/// what the close owes.
pub proof fn law_unseen_draws_count_nothing(v: CarriageView, channel: [u8; 8])
    ensures
        drained(v, channel, Seq::empty()).ledger == v.ledger,
        draw_owed(drained(v, channel, Seq::empty()), channel) == draw_owed(v, channel),
{
}

/// Whether a first plain close of a channel has a refund to give: there is a rail to release
/// it on and a place for it to go, and the deposit exceeds what was signed for.
pub open spec fn refundable(v: CarriageView, channel: [u8; 8], signed: nat) -> bool {
    &&& v.levels is Some
    &&& v.channels.dom().contains(channel)
    &&& v.driver.retained[channel].terms.refund_ptr is Some
    &&& v.ledger.dom().contains(channel)
    &&& signed < v.ledger[channel].funding_sum
}

/// The refund and the consumption that both sides signed for make up the deposit. A channel
/// with an operative checkpoint of its own is held to that one, whether or not it imported a
/// position; the imported total counts only where there is none, and where there is neither
/// the whole deposit goes back. The refund goes where the payer said, from the settlement
/// pointer, in the channel's denomination; and none is given only where none is due.
pub proof fn law_refund_and_signed_total_make_up_the_deposit(
    v: CarriageView,
    close: Close,
    stored: Option<ChainState>,
    refund: Option<RefundView>,
)
    requires
        close_step(v, close, stored) == CloseStepView::First(refund),
    ensures
        ({
            let channel = close.channel_id;
            let terms = v.driver.retained[channel].terms;
            &&& v.operative.dom().contains(channel) ==> {
                let signed = v.operative[channel].cum_total;
                &&& refund is Some <==> refundable(v, channel, signed)
                &&& refund matches Some(order) ==> order.amount + signed == v.ledger[channel].funding_sum
            }
            &&& !v.operative.dom().contains(channel) && v.imported.dom().contains(channel) ==> {
                let signed = v.imported[channel].cum;
                &&& refund is Some <==> refundable(v, channel, signed as nat)
                &&& refund matches Some(order) ==> order.amount + signed == v.ledger[channel].funding_sum
            }
            &&& !v.operative.dom().contains(channel) && !v.imported.dom().contains(channel) ==> {
                &&& refund is Some <==> refundable(v, channel, 0)
                &&& refund matches Some(order) ==> order.amount == v.ledger[channel].funding_sum
            }
            &&& refund matches Some(order) ==> {
                &&& order.settle_ptr == terms.settle_ptr
                &&& Some(order.refund_ptr) == terms.refund_ptr
                &&& order.denom == terms.denom
            }
        }),
{
}

/// A close is heard only where it is accepted under the keys of a known channel, and names
/// the operative checkpoint if there is one; a reconciled channel may be closed again by any.
pub proof fn law_a_close_names_the_operative_checkpoint(
    v: CarriageView,
    close: Close,
    stored: Option<ChainState>,
)
    requires
        !(close_step(v, close, stored) is Refuse),
    ensures
        v.driver.retained.dom().contains(close.channel_id),
        close.accepted is Some,
        v.operative.dom().contains(close.channel_id) ==> v.operative[close.channel_id].ckpt_ref
            == close.ckpt_ref || (v.chain.dom().contains(close.channel_id)
            && v.chain[close.channel_id] is Reconciled),
        close.accepted == Some(true) ==> forall|k: CheckpointKey| #[trigger]
            v.rounds.dom().contains(k) && k.channel == close.channel_id ==> v.rounds[k].confirmed,
{
}

/// A plain close at the operative checkpoint is the first close of a channel that was not
/// decided on, and a replay of one that was.
pub proof fn law_a_plain_close_is_taken(v: CarriageView, close: Close, stored: Option<ChainState>)
    requires
        v.driver.retained.dom().contains(close.channel_id),
        close.accepted == Some(false),
        v.operative.dom().contains(close.channel_id) ==> v.operative[close.channel_id].ckpt_ref
            == close.ckpt_ref,
    ensures
        ({
            let held = if v.chain.dom().contains(close.channel_id) {
                Some(v.chain[close.channel_id])
            } else {
                stored
            };
            if held is None || held->0 is Pending {
                close_step(v, close, stored) is First
            } else {
                close_step(v, close, stored) is Replay
            }
        }),
        close_begun(v, close, stored) == v,
{
}

/// A chaining close stands exactly where everything metered is signed for and no round is in
/// flight: by the operative checkpoint, or, on a channel without one, because nothing was
/// metered. It moves no money; it notes the intent where nothing was decided before.
pub proof fn law_a_chaining_close_leaves_nothing_unsigned(
    v: CarriageView,
    close: Close,
    stored: Option<ChainState>,
)
    requires
        v.driver.retained.dom().contains(close.channel_id),
        !v.driver.retained[close.channel_id].terms.conversion_required,
        v.channels.dom().contains(close.channel_id),
        close.accepted == Some(true),
    ensures
        ({
            let channel = close.channel_id;
            let live = v.channels[channel].cum_total;
            let quiet = forall|k: CheckpointKey| #[trigger]
                v.rounds.dom().contains(k) && k.channel == channel ==> v.rounds[k].confirmed;
            let reconciled = v.chain.dom().contains(channel) && v.chain[channel] is Reconciled;
            &&& v.operative.dom().contains(channel) && live < u128::MAX ==> (close_step(
                v,
                close,
                stored,
            ) is Chain <==> quiet && v.operative[channel].cum_total == live && (reconciled
                || v.operative[channel].ckpt_ref == close.ckpt_ref))
            &&& !v.operative.dom().contains(channel) && !v.imported.dom().contains(channel) ==> (
            close_step(v, close, stored) is Chain <==> quiet && live == 0)
            &&& !v.operative.dom().contains(channel) && v.imported.dom().contains(channel) ==> (
            close_step(v, close, stored) is Chain <==> quiet && live == 0 && v.imported[channel].cum == 0)
            &&& close_step(v, close, stored) is Chain || close_step(v, close, stored) is Refuse
            &&& close_step(v, close, stored) is Chain && !v.chain.dom().contains(channel) && stored is None
                ==> close_begun(v, close, stored) == (CarriageView {
                chain: v.chain.insert(channel, ChainState::Pending),
                ..v
            })
            &&& v.chain.dom().contains(channel) || stored is Some || close_step(v, close, stored) is Refuse
                ==> close_begun(v, close, stored) == v
        }),
{
    let channel = close.channel_id;
    if other_round_open(v, channel, None) {
        let k = choose|k: CheckpointKey|
            {
                &&& #[trigger] v.rounds.dom().contains(k)
                &&& k.channel == channel
                &&& !v.rounds[k].confirmed
            };
        assert(v.rounds.dom().contains(k));
    }
}

/// The draw that a prepay close owes brings the watermark to the whole units of what the
/// channel itself accrued, by its own checkpoint, or else by the position that it imported;
/// it is owed exactly where that is at least one unit.
pub proof fn law_close_draws_what_the_channel_accrued(v: CarriageView, channel: [u8; 8])
    requires
        v.channels.dom().contains(channel),
        v.channels[channel].mode == Mode::Prepay,
        v.driver.retained.dom().contains(channel),
        !v.driver.retained[channel].terms.conversion_required,
        v.operative.dom().contains(channel) || v.imported.dom().contains(channel),
        ({
            let accruals = if v.operative.dom().contains(channel) {
                v.operative[channel].accruals
            } else {
                v.imported[channel].accruals
            };
            let before = if v.imported.dom().contains(channel) {
                v.imported[channel].opening_settled_r
            } else {
                Seq::empty()
            };
            ascending(accruals) && reconcilable(accruals, before) && unsettled(accruals, before) / 10_000
                <= u128::MAX
        }),
    ensures
        ({
            let accruals = if v.operative.dom().contains(channel) {
                v.operative[channel].accruals
            } else {
                v.imported[channel].accruals
            };
            let before = if v.imported.dom().contains(channel) {
                v.imported[channel].opening_settled_r
            } else {
                Seq::empty()
            };
            let named = if v.operative.dom().contains(channel) {
                v.operative[channel].ckpt_ref
            } else {
                v.imported[channel].ckpt_ref
            };
            let whole = unsettled(accruals, before) / 10_000;
            &&& reconciled_state(v, channel) matches ChainState::Reconciled { pending_draw } && {
                &&& pending_draw is Some <==> whole > 0
                &&& pending_draw matches Some((ckpt_ref, target_p)) ==> ckpt_ref == named && target_p == whole
            }
        }),
{
    let accruals = if v.operative.dom().contains(channel) {
        v.operative[channel].accruals
    } else {
        v.imported[channel].accruals
    };
    let before = if v.imported.dom().contains(channel) {
        v.imported[channel].opening_settled_r
    } else {
        Seq::empty()
    };
    law_outstanding_is_unsettled(accruals, before);
}

/// No draw is owed at the close of a postpay channel, or of one on which nothing was ever
/// signed for.
pub proof fn law_nothing_unsigned_is_drawn(v: CarriageView, channel: [u8; 8])
    requires
        !v.channels.dom().contains(channel) || v.channels[channel].mode == Mode::Postpay || (
        !v.operative.dom().contains(channel) && !v.imported.dom().contains(channel)),
    ensures
        reconciled_state(v, channel) == (ChainState::Reconciled { pending_draw: None }),
{
}

/// The draw that is carried out is the one that is pinned, to the channel's own instance, out
/// of its settlement pointer; once it was made, nothing more is drawn.
pub proof fn law_the_pinned_draw_is_made_once(v: CarriageView, channel: [u8; 8], ckpt_ref: [u8; 32], p: u128)
    requires
        v.chain.dom().contains(channel),
        v.chain[channel] == (ChainState::Reconciled { pending_draw: Some((ckpt_ref, p)) }),
        v.driver.retained.dom().contains(channel),
        v.levels is Some,
    ensures
        close_draw(v, channel) matches Some(order) && {
            let terms = v.driver.retained[channel].terms;
            &&& order.target_p == p
            &&& order.settle_ptr == terms.settle_ptr
            &&& order.seed_instance == terms.seed_instance
            &&& order.asset == terms.baseline_asset
        },
        close_draw(draw_cleared(v, channel), channel) is None,
        draw_cleared(v, channel) == (CarriageView { chain: draw_cleared(v, channel).chain, ..v }),
        forall|c: [u8; 8]|
            c != channel && #[trigger] v.chain.dom().contains(c) ==> draw_cleared(v, channel).chain[c]
                == v.chain[c],
{
}

/// A draw that is in flight when a prepay channel is closed enters the ledger exactly where
/// the rail shows that it moved the channel's own watermark to its target: each role then
/// gains what the round extinguishes.
pub proof fn law_a_seen_draw_enters_the_ledger(
    v: CarriageView,
    channel: [u8; 8],
    fact: DrawFact,
    role: u8,
)
    requires
        v.channels.dom().contains(channel),
        v.channels[channel].mode == Mode::Prepay,
        v.driver.retained.dom().contains(channel),
        v.rounds.dom().contains(CheckpointKey { channel, ckpt_ref: fact.ckpt_ref }),
        ({
            let d = v.rounds[CheckpointKey { channel, ckpt_ref: fact.ckpt_ref }];
            &&& !d.confirmed
            &&& !d.meed_folded
            &&& d.target_p is Some
            &&& d.draw_ref is Some
            &&& ascending(d.e_r)
        }),
        ascending(ledger_of(v, channel).settled_r),
    ensures
        ({
            let key = CheckpointKey { channel, ckpt_ref: fact.ckpt_ref };
            let d = v.rounds[key];
            let after = drained(v, channel, seq![fact]);
            let seen = fact.advanced matches Some(f) && f.channel_id == channel && f.seed_instance
                == v.driver.retained[channel].terms.seed_instance && f.funded_p >= d.target_p->0;
            &&& amount_of(ledger_of(after, channel).settled_r, role) == amount_of(
                ledger_of(v, channel).settled_r,
                role,
            ) + if seen {
                amount_of(d.e_r, role)
            } else {
                0
            }
            &&& after.rounds.dom().contains(key) <==> seen
            &&& seen ==> after.rounds[key].confirmed && after.rounds[key].meed_folded
            &&& ledger_of(after, channel).net_legs_sum == ledger_of(v, channel).net_legs_sum
            &&& ledger_of(after, channel).funding_sum == ledger_of(v, channel).funding_sum
            &&& forall|c: [u8; 8]| c != channel ==> #[trigger] ledger_of(after, c) == ledger_of(v, c)
        }),
{
    let key = CheckpointKey { channel, ckpt_ref: fact.ckpt_ref };
    let facts = seq![fact];
    assert(facts.drop_last() =~= Seq::empty());
    assert(draws_folded(v, channel, facts.drop_last()) == v);
    law_fold_is_exact(ledger_of(v, channel).settled_r, v.rounds[key].e_r, role);
    let folded = draws_folded(v, channel, facts);
    assert(folded.rounds.dom().contains(key));
}

proof fn lemma_folds_keep_others(v: CarriageView, channel: [u8; 8], facts: Seq<DrawFact>)
    ensures
        forall|k: CheckpointKey| #[trigger]
            v.rounds.dom().contains(k) && k.channel != channel ==> draws_folded(
                v,
                channel,
                facts,
            ).rounds.contains_pair(k, v.rounds[k]),
        forall|c: [u8; 8]|
            c != channel ==> #[trigger] ledger_of(draws_folded(v, channel, facts), c) == ledger_of(v, c),
        ledger_of(draws_folded(v, channel, facts), channel).net_legs_sum == ledger_of(v, channel).net_legs_sum,
        ledger_of(draws_folded(v, channel, facts), channel).funding_sum == ledger_of(v, channel).funding_sum,
    decreases facts.len(),
{
    if facts.len() > 0 {
        lemma_folds_keep_others(v, channel, facts.drop_last());
        let before = draws_folded(v, channel, facts.drop_last());
        let after = draws_folded(v, channel, facts);
        assert forall|c: [u8; 8]| c != channel implies #[trigger] ledger_of(after, c) == ledger_of(v, c) by {
            assert(ledger_of(before, c) == ledger_of(v, c));
        }
        assert forall|k: CheckpointKey| #[trigger]
            v.rounds.dom().contains(k) && k.channel != channel implies after.rounds.contains_pair(
            k,
            v.rounds[k],
        ) by {
            assert(before.rounds.contains_pair(k, v.rounds[k]));
        }
    }
}

/// Draining a channel touches no other: the rounds and ledgers of every other channel stay, and
/// so do the channel's own net legs and funding; a postpay channel is not drained at all.
pub proof fn law_draining_touches_no_other_channel(v: CarriageView, channel: [u8; 8], facts: Seq<DrawFact>)
    ensures
        ({
            let after = drained(v, channel, facts);
            &&& forall|k: CheckpointKey| #[trigger]
                v.rounds.dom().contains(k) && k.channel != channel ==> after.rounds.contains_pair(
                    k,
                    v.rounds[k],
                )
            &&& forall|c: [u8; 8]| c != channel ==> #[trigger] ledger_of(after, c) == ledger_of(v, c)
            &&& ledger_of(after, channel).net_legs_sum == ledger_of(v, channel).net_legs_sum
            &&& ledger_of(after, channel).funding_sum == ledger_of(v, channel).funding_sum
            &&& !v.channels.dom().contains(channel) || v.channels[channel].mode == Mode::Postpay ==> after
                == v
        }),
{
    lemma_folds_keep_others(v, channel, facts);
    let after = drained(v, channel, facts);
    assert forall|k: CheckpointKey| #[trigger]
        v.rounds.dom().contains(k) && k.channel != channel implies after.rounds.contains_pair(
        k,
        v.rounds[k],
    ) by {
        assert(draws_folded(v, channel, facts).rounds.contains_pair(k, v.rounds[k]));
    }
    assert forall|c: [u8; 8]| c != channel implies #[trigger] ledger_of(after, c) == ledger_of(v, c) by {
        assert(ledger_of(draws_folded(v, channel, facts), c) == ledger_of(v, c));
    }
}

/// Draining enters only draws that the rail shows: a round that is complete, or that locked no
/// target, or whose draw was never given to the rail, is entered by no facts, nor one whose
/// instance no fact shows at its target.
pub proof fn law_an_unseen_draw_is_not_entered(
    v: CarriageView,
    key: CheckpointKey,
    facts: Seq<DrawFact>,
)
    requires
        v.rounds.dom().contains(key),
        v.rounds[key].confirmed || v.rounds[key].target_p is None || v.rounds[key].draw_ref is None || forall|
            i: int,
        |
            0 <= i < facts.len() && facts[i].ckpt_ref == key.ckpt_ref ==> (#[trigger] facts[i]).advanced is None,
    ensures
        draws_folded(v, key.channel, facts).rounds.dom().contains(key),
        draws_folded(v, key.channel, facts).rounds[key] == v.rounds[key],
    decreases facts.len(),
{
    if facts.len() > 0 {
        let earlier = facts.drop_last();
        assert forall|i: int|
            0 <= i < earlier.len() && earlier[i].ckpt_ref == key.ckpt_ref && facts[i].advanced is None implies (
        #[trigger] earlier[i]).advanced is None by {
            assert(earlier[i] == facts[i]);
        }
        law_an_unseen_draw_is_not_entered(v, key, earlier);
        let last = facts[facts.len() - 1];
        assert(facts.last() == last);
        let before = draws_folded(v, key.channel, earlier);
        if last.ckpt_ref == key.ckpt_ref {
            assert(!draw_reached(before, key, last));
        }
    }
}

/// A close is taken once: a plain close is first only while nothing was decided, or an intent to
/// chain alone, and is a replay after; an intent to chain is noted only where nothing was
/// decided; and considering a close changes nothing else.
pub proof fn law_a_close_is_taken_once(v: CarriageView, close: Close, stored: Option<ChainState>)
    ensures
        ({
            let channel = close.channel_id;
            let step = close_step(v, close, stored);
            let after = close_begun(v, close, stored);
            &&& step is First ==> {
                ||| v.chain.dom().contains(channel) && v.chain[channel] is Pending
                ||| !v.chain.dom().contains(channel) && (stored is None || stored->0 is Pending)
            }
            &&& step is Replay ==> {
                ||| v.chain.dom().contains(channel) && v.chain[channel] !is Pending
                ||| !v.chain.dom().contains(channel) && stored is Some && stored->0 !is Pending
            }
            &&& v.chain.dom().contains(channel) || stored is Some || step !is Chain ==> after == v
            &&& step is Chain && !v.chain.dom().contains(channel) && stored is None ==> after == (
            CarriageView { chain: v.chain.insert(channel, ChainState::Pending), ..v })
        }),
{
}

} // verus!
