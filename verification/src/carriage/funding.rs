//! Funding: which transfers are credited, where, and how much of them.

use vstd::prelude::*;

use crate::bignat::BigNat;
use crate::bytes::same_array;
use crate::carriage::guards::{
    claimed, law_healthy_log_credits_once, outcome_of, ConsumeOutcome,
};
use crate::carriage::{
    admissible, disposition_of, ledger_of, live_tip, Carriage, CarriageError, CarriageView, Effect,
    Handled, Ledger, LedgerView, Meter, Profile, Response, Status,
};
use crate::channel::{Mode, SettlementTerms};
use crate::disposition::ChainState;
use crate::framing::MAX_FIELD;
use crate::keys::fund_key_bytes;
use crate::medium::LogMedium;
use crate::meed::{outstanding_merchant_net, owed_net, total};
use crate::one_decision::{keeps, Decision, OneDecisionStore, WalOneDecision};
use crate::rail::{final_enough, finality_reached, RefInfo, RefRead};

verus! {

/// A payer's claim that it funded a channel.
#[derive(Debug)]
pub struct FundingProof {
    pub channel_id: [u8; 8],
    pub auth_hash: [u8; 32],
    pub amount: u128,
    pub tx_ref: String,
}

/// A credit that is due.
#[derive(Debug)]
pub struct FundingPlan {
    /// The channel that is credited.
    pub target: [u8; 8],
    /// The one name of the transfer.
    pub canonical: String,
    /// How much is credited.
    pub credited: u128,
}

/// What a [`FundingPlan`] says.
#[verifier::ext_equal]
pub struct PlanView {
    pub target: [u8; 8],
    pub canonical: Seq<char>,
    pub credited: u128,
}

impl View for FundingPlan {
    type V = PlanView;

    open spec fn view(&self) -> PlanView {
        PlanView { target: self.target, canonical: self.canonical@, credited: self.credited }
    }
}

/// Where funding of `channel` is credited: where its position is now.
pub open spec fn credit_target(v: CarriageView, channel: [u8; 8]) -> [u8; 8] {
    match disposition_of(v, channel) {
        Some(ChainState::Committed { .. }) => live_tip(v.chain, channel),
        _ => channel,
    }
}

/// The amount and the one name of the transfer behind a funding proof. With a
/// rail they are what the rail says, provided that the transfer reached the
/// settlement pointer in the channel's denomination, for at least the claimed
/// amount, bound to this channel, and final. Without one, a demonstration takes
/// the claim as it is.
pub open spec fn transfer_of(v: CarriageView, fp: FundingProof, read: RefRead) -> Option<(
    u128,
    Seq<char>,
)> {
    match v.levels {
        Some(levels) => match read.info {
            Some(info) => {
                let kept = v.driver.retained[fp.channel_id];
                if info.to@ == kept.terms.settle_ptr && info.asset@ == kept.terms.denom && info.amount
                    >= fp.amount && info.memo == Some(kept.auth_hash) && final_enough(
                    levels,
                    read.finality,
                    kept.terms.fin_denom,
                ) {
                    Some((info.amount, info.canonical@))
                } else {
                    None
                }
            },
            None => None,
        },
        None => if v.profile == Profile::Demo {
            Some((fp.amount, fp.tx_ref@))
        } else {
            None
        },
    }
}

/// How much of a transfer is credited. A postpay channel takes no more than the
/// merchant's outstanding net; a prepay deposit counts in full.
pub open spec fn credit_due(v: CarriageView, target: [u8; 8], amount: u128) -> u128 {
    let meter = v.channels[target];
    let led = ledger_of(v, target);
    match meter.mode {
        Mode::Postpay => {
            let net = owed_net(
                meter.cum_total as nat,
                meter.accruals,
                led.net_legs_sum as nat,
                led.funding_sum as nat,
            );
            if amount <= net {
                amount
            } else {
                net as u128
            }
        },
        Mode::Prepay => amount,
    }
}

/// The credit that a funding proof is due, if any; `verified` says whether the
/// payer's signature verifies.
pub open spec fn funding_due(
    v: CarriageView,
    fp: FundingProof,
    verified: bool,
    read: RefRead,
) -> Option<PlanView> {
    let target = credit_target(v, fp.channel_id);
    if !v.driver.retained.dom().contains(fp.channel_id) || !verified || fp.auth_hash
        != v.driver.retained[fp.channel_id].auth_hash || !admissible(v, target) {
        None
    } else {
        match transfer_of(v, fp, read) {
            Some((amount, canonical)) => {
                let credited = credit_due(v, target, amount);
                if v.consumed.contains(canonical) || ledger_of(v, target).funding_sum + credited
                    > u128::MAX {
                    None
                } else {
                    Some(PlanView { target, canonical, credited })
                }
            },
            None => None,
        }
    }
}

/// The carriage after a credit.
pub open spec fn funded(v: CarriageView, plan: PlanView) -> CarriageView {
    let led = ledger_of(v, plan.target);
    CarriageView {
        ledger: v.ledger.insert(
            plan.target,
            LedgerView { funding_sum: (led.funding_sum + plan.credited) as u128, ..led },
        ),
        ..v
    }
}

/// Whether a credit that is due was answered as the claim of its reference came out:
/// a first claim is credited, a duplicate acknowledged, and one that could not be
/// recorded refused, with nothing changed.
pub open spec fn funding_answered(
    v: CarriageView,
    plan: PlanView,
    outcome: ConsumeOutcome,
    after: CarriageView,
    r: Handled,
) -> bool {
    match outcome {
        ConsumeOutcome::First => {
            &&& after == funded(claimed(v, plan.canonical, outcome), plan)
            &&& r.reply == Ok::<Response, CarriageError>(Response::Accepted)
            &&& r.effect == (Effect::Credit { channel: plan.target, amount: plan.credited })
        },
        ConsumeOutcome::Duplicate => {
            &&& after == claimed(v, plan.canonical, outcome)
            &&& r.reply == Ok::<Response, CarriageError>(Response::Accepted)
            &&& r.effect == Effect::Nothing
        },
        ConsumeOutcome::Failed => {
            &&& after == v
            &&& r.reply == Err::<Response, CarriageError>(CarriageError::Rejected)
            &&& r.effect == Effect::Nothing
        },
    }
}

impl<S: OneDecisionStore> Carriage<S> {
    /// The credit that a funding proof is due. Everything that can fail is tested
    /// here, before anything changes.
    pub fn check_funding(
        &self,
        fp: &FundingProof,
        verified: bool,
        read: &RefRead,
    ) -> (r: Option<FundingPlan>)
        ensures
            match r {
                Some(plan) => funding_due(self@, *fp, verified, *read) == Some(plan@),
                None => funding_due(self@, *fp, verified, *read) is None,
            },
    {
        let target: [u8; 8] = match self.chain_state.get(&fp.channel_id) {
            Some(ChainState::Committed { .. }) => self.resolve_chain_tip(fp.channel_id),
            _ => fp.channel_id,
        };
        let (terms, auth_hash): (&SettlementTerms, [u8; 32]) = match (
            self.driver.settlement_terms(&fp.channel_id),
            self.driver.auth_hash(&fp.channel_id),
        ) {
            (Some(terms), Some(auth_hash)) => (terms, auth_hash),
            _ => return None,
        };
        if !verified || !same_array(&fp.auth_hash, &auth_hash) || !self.funding_admissible(&target) {
            return None;
        }
        let (amount, canonical): (u128, String) = match &self.levels {
            Some(levels) => {
                let info: &RefInfo = match &read.info {
                    Some(info) => info,
                    None => return None,
                };
                let bound: bool = match &info.memo {
                    Some(memo) => same_array(memo, &auth_hash),
                    None => false,
                };
                if info.to != terms.settle_ptr || info.asset != terms.denom || info.amount < fp.amount
                    || !bound || !finality_reached(levels, &read.finality, &terms.fin_denom) {
                    return None;
                }
                (info.amount, info.canonical.clone())
            },
            None => match self.profile {
                Profile::Proof => return None,
                Profile::Demo => (fp.amount, fp.tx_ref.clone()),
            },
        };
        if self.ref_consumed(&canonical) {
            return None;
        }
        let meter: &Meter = match self.channels.get(&target) {
            Some(meter) => meter,
            None => return None,
        };
        let (net_legs, funding, _version): (u128, u128, u64) = self.ledger_sums(&target);
        let credited: u128 = match meter.mode {
            Mode::Postpay => {
                let cum: BigNat = BigNat::from_u128(meter.cum_total);
                let net: BigNat = outstanding_merchant_net(&cum, &meter.accruals, net_legs, funding);
                match net.to_u128() {
                    Some(net) => if amount <= net {
                        amount
                    } else {
                        net
                    },
                    None => amount,
                }
            },
            Mode::Prepay => amount,
        };
        if funding.checked_add(credited).is_none() {
            return None;
        }
        Some(FundingPlan { target, canonical, credited })
    }

    /// Carries out a credit once its reference was claimed: only the first claim
    /// is credited; a duplicate is acknowledged, and a failed one refused.
    pub fn commit_funding(&mut self, plan: &FundingPlan, outcome: ConsumeOutcome) -> (r: Handled)
        requires
            old(self).wf(),
            ledger_of(old(self)@, plan.target).funding_sum + plan.credited <= u128::MAX,
        ensures
            final(self).wf(),
            old(self).same_store(*final(self)),
            match outcome {
                ConsumeOutcome::First => {
                    &&& final(self)@ == funded(old(self)@, plan@)
                    &&& r.reply == Ok::<Response, CarriageError>(Response::Accepted)
                    &&& r.effect == (Effect::Credit { channel: plan.target, amount: plan.credited })
                },
                ConsumeOutcome::Duplicate => {
                    &&& final(self)@ == old(self)@
                    &&& r.reply == Ok::<Response, CarriageError>(Response::Accepted)
                    &&& r.effect == Effect::Nothing
                },
                ConsumeOutcome::Failed => {
                    &&& final(self)@ == old(self)@
                    &&& r.reply == Err::<Response, CarriageError>(CarriageError::Rejected)
                    &&& r.effect == Effect::Nothing
                },
            },
    {
        match outcome {
            ConsumeOutcome::First => {
                let mut led: Ledger = self.take_ledger(&plan.target);
                led.funding_sum = led.funding_sum + plan.credited;
                self.ledger.insert(plan.target, led);
                assert(self@ =~= funded(old(self)@, plan@));
                Handled {
                    reply: Ok(Response::Accepted),
                    effect: Effect::Credit { channel: plan.target, amount: plan.credited },
                }
            },
            ConsumeOutcome::Duplicate => Handled {
                reply: Ok(Response::Accepted),
                effect: Effect::Nothing,
            },
            ConsumeOutcome::Failed => Handled {
                reply: Err(CarriageError::Rejected),
                effect: Effect::Nothing,
            },
        }
    }

    /// Whether a credit that is due was answered as the store decided on its reference.
    pub open spec fn funding_decided(
        &self,
        plan: PlanView,
        decision: Decision,
        after: Self,
        r: Handled,
    ) -> bool {
        let key = fund_key_bytes(plan.canonical);
        &&& self.ref_asked(plan.canonical, after, decision)
        &&& funding_answered(self@, plan, outcome_of(decision), after@, r)
        &&& self.stored() && decision is Fresh ==> !self.recorded().dom().contains(key)
            && after.recorded().contains_pair(key, Seq::empty())
        &&& decision is AlreadyDecided ==> after.recorded().dom().contains(key)
        &&& !self.stored() ==> decision is Fresh
    }

    /// Answers a funding proof.
    pub fn on_funding(&mut self, fp: &FundingProof, verified: bool, read: &RefRead) -> (r: Handled)
        requires
            old(self).wf(),
        ensures
            final(self).wf(),
            final(self).stored() == old(self).stored(),
            keeps(old(self).recorded(), final(self).recorded()),
            match funding_due(old(self)@, *fp, verified, *read) {
                None => {
                    &&& old(self).same_store(*final(self))
                    &&& final(self)@ == old(self)@
                    &&& r.reply == Err::<Response, CarriageError>(CarriageError::Rejected)
                    &&& r.effect == Effect::Nothing
                },
                Some(plan) => exists|decision: Decision| #[trigger]
                    old(self).funding_decided(plan, decision, *final(self), r),
            },
    {
        let plan: FundingPlan = match self.check_funding(fp, verified, read) {
            Some(plan) => plan,
            None => return Handled { reply: Err(CarriageError::Rejected), effect: Effect::Nothing },
        };
        let outcome: ConsumeOutcome = self.consume_ref(&plan.canonical);
        let ghost mid: Self = *self;
        assert(ledger_of(self@, plan.target) == ledger_of(old(self)@, plan.target));
        let r: Handled = self.commit_funding(&plan, outcome);
        proof {
            if !old(self).stored() {
                assert(old(self).ref_asked(plan@.canonical, mid, Decision::Fresh));
            }
            let decision = choose|d: Decision| #[trigger]
                old(self).ref_asked(plan@.canonical, mid, d) && outcome == outcome_of(d);
            let due = funding_due(old(self)@, *fp, verified, *read);
            assert(old(self).funding_decided(due->0, decision, *self, r));
        }
        r
    }
}

/// Over a healthy log a credit that is due is paid on the first claim of its transfer,
/// and on no other: a transfer that the log records already is acknowledged, and credits
/// nothing. No proof is refused for want of the log, and the log stays healthy.
pub proof fn law_healthy_log_funds<F: LogMedium>(
    c: Carriage<WalOneDecision<F>>,
    after: Carriage<WalOneDecision<F>>,
    plan: PlanView,
    decision: Decision,
    r: Handled,
)
    requires
        c.store() is Some,
        c.store()->0.healthy(),
        fund_key_bytes(plan.canonical).len() <= MAX_FIELD,
        c.funding_decided(plan, decision, after, r),
    ensures
        after.store() is Some,
        after.store()->0.healthy(),
        after.recorded().dom() == c.recorded().dom().insert(fund_key_bytes(plan.canonical)),
        r.reply == Ok::<Response, CarriageError>(Response::Accepted),
        r.effect == (if c.recorded().dom().contains(fund_key_bytes(plan.canonical)) {
            Effect::Nothing
        } else {
            Effect::Credit { channel: plan.target, amount: plan.credited }
        }),
{
    law_healthy_log_credits_once(c, after, plan.canonical, decision);
}

/// A transfer is credited once: after one was, no funding proof that the rail
/// names by the same reference is due a credit, whatever channel it names.
pub proof fn law_transfer_credited_once(
    v: CarriageView,
    plan: PlanView,
    fp: FundingProof,
    verified: bool,
    read: RefRead,
)
    requires
        ({
            let after = funded(claimed(v, plan.canonical, ConsumeOutcome::First), plan);
            transfer_of(after, fp, read) matches Some((_, canonical)) ==> canonical == plan.canonical
        }),
    ensures
        funding_due(
            funded(claimed(v, plan.canonical, ConsumeOutcome::First), plan),
            fp,
            verified,
            read,
        ) is None,
{
}

/// Postpay funding never takes the credited sum above what is owed to the
/// merchant: an excess is not recorded.
pub proof fn law_funding_never_overpays(
    v: CarriageView,
    fp: FundingProof,
    verified: bool,
    read: RefRead,
)
    requires
        funding_due(v, fp, verified, read) is Some,
        v.channels[credit_target(v, fp.channel_id)].mode == Mode::Postpay,
    ensures
        ({
            let target = credit_target(v, fp.channel_id);
            let meter = v.channels[target];
            let before = ledger_of(v, target);
            let after = ledger_of(funded(v, funding_due(v, fp, verified, read)->0), target);
            let owed = |led: LedgerView|
                owed_net(
                    meter.cum_total as nat,
                    meter.accruals,
                    led.net_legs_sum as nat,
                    led.funding_sum as nat,
                );
            owed(after) + (funding_due(v, fp, verified, read)->0).credited == owed(before)
        }),
{
}

/// Funding of a channel that rolled forward lands on the channel that carries its
/// position now, and never on one whose deposit was returned or rolled forward.
pub proof fn law_funding_lands_on_the_tip(
    v: CarriageView,
    fp: FundingProof,
    verified: bool,
    read: RefRead,
)
    requires
        funding_due(v, fp, verified, read) is Some,
    ensures
        ({
            let plan = funding_due(v, fp, verified, read)->0;
            &&& plan.target == credit_target(v, fp.channel_id)
            &&& !(disposition_of(v, plan.target) matches Some(ChainState::Committed { .. }))
            &&& v.channels[plan.target].mode == Mode::Prepay ==> !(disposition_of(v, plan.target) matches Some(
                ChainState::Reconciled { .. },
            ))
        }),
{
}

/// What a funding proof's transfer moved: what the rail shows, or, in a demonstration without
/// one, what the payer claims.
pub open spec fn amount_moved(v: CarriageView, fp: FundingProof, read: RefRead) -> u128 {
    if v.levels is Some {
        (read.info->0).amount
    } else {
        fp.amount
    }
}

/// A transfer is credited in full up to what is owed, and no further. On a postpay channel
/// one that the carve, the net legs, the funding so far and the transfer do not take beyond
/// the metered total counts for all that it moved; a larger one for what was left, and
/// nothing where nothing was. A prepay deposit always counts in full.
pub proof fn law_transfer_is_credited_up_to_the_owed(
    v: CarriageView,
    fp: FundingProof,
    verified: bool,
    read: RefRead,
    plan: PlanView,
)
    requires
        funding_due(v, fp, verified, read) == Some(plan),
    ensures
        ({
            let meter = v.channels[plan.target];
            let led = ledger_of(v, plan.target);
            let taken = total(meter.accruals) / 10_000 + led.net_legs_sum + led.funding_sum;
            let moved = amount_moved(v, fp, read);
            &&& v.channels.dom().contains(plan.target)
            &&& meter.mode == Mode::Prepay ==> plan.credited == moved
            &&& meter.mode == Mode::Postpay ==> {
                &&& taken + moved <= meter.cum_total ==> plan.credited == moved
                &&& taken <= meter.cum_total <= taken + moved ==> taken + plan.credited == meter.cum_total
                &&& meter.cum_total <= taken ==> plan.credited == 0
            }
        }),
{
}

/// A credit rests on a transfer that backs it: the payer signed for its own channel, and the
/// rail shows the transfer at the settlement pointer, in the channel's denomination, for at
/// least what is claimed, bound to the channel's authorization and final enough, under a name
/// that was not credited before. Only a demonstration credits without a rail.
pub proof fn law_a_credit_is_backed(
    v: CarriageView,
    fp: FundingProof,
    verified: bool,
    read: RefRead,
    plan: PlanView,
)
    requires
        funding_due(v, fp, verified, read) == Some(plan),
    ensures
        v.driver.retained.dom().contains(fp.channel_id),
        verified,
        fp.auth_hash == v.driver.retained[fp.channel_id].auth_hash,
        !v.consumed.contains(plan.canonical),
        v.levels is None ==> v.profile == Profile::Demo && plan.canonical == fp.tx_ref@,
        v.levels matches Some(levels) ==> read.info matches Some(info) && {
            let kept = v.driver.retained[fp.channel_id];
            &&& info.to@ == kept.terms.settle_ptr
            &&& info.asset@ == kept.terms.denom
            &&& info.amount >= fp.amount
            &&& info.memo == Some(kept.auth_hash)
            &&& final_enough(levels, read.finality, kept.terms.fin_denom)
            &&& plan.canonical == info.canonical@
        },
        v.channels[plan.target].status != Status::Closed,
        v.chain.dom().contains(plan.target) ==> !(v.chain[plan.target] is Committed),
        v.channels[plan.target].mode == Mode::Prepay && v.chain.dom().contains(plan.target)
            ==> v.chain[plan.target] is Pending,
        !(v.chain.dom().contains(fp.channel_id) && v.chain[fp.channel_id] is Committed) ==> plan.target
            == fp.channel_id,
{
}

/// A transfer that backs a proof is credited: on a channel that was not closed, rolled
/// forward or reconciled, what the rail shows is due, to that channel, under the rail's own
/// name, unless the ledger could not hold it.
pub proof fn law_backed_funding_is_due(
    v: CarriageView,
    fp: FundingProof,
    read: RefRead,
    levels: Seq<Seq<char>>,
    info: RefInfo,
)
    requires
        v.driver.retained.dom().contains(fp.channel_id),
        v.channels.dom().contains(fp.channel_id),
        v.channels[fp.channel_id].status != Status::Closed,
        v.chain.dom().contains(fp.channel_id) ==> v.chain[fp.channel_id] is Pending || (
        v.chain[fp.channel_id] is Reconciled && v.channels[fp.channel_id].mode == Mode::Postpay),
        fp.auth_hash == v.driver.retained[fp.channel_id].auth_hash,
        v.levels == Some(levels),
        read.info == Some(info),
        info.to@ == v.driver.retained[fp.channel_id].terms.settle_ptr,
        info.asset@ == v.driver.retained[fp.channel_id].terms.denom,
        info.amount >= fp.amount,
        info.memo == Some(v.driver.retained[fp.channel_id].auth_hash),
        final_enough(levels, read.finality, v.driver.retained[fp.channel_id].terms.fin_denom),
        !v.consumed.contains(info.canonical@),
        ledger_of(v, fp.channel_id).funding_sum + info.amount <= u128::MAX,
    ensures
        funding_due(v, fp, true, read) matches Some(plan) && plan.target == fp.channel_id && plan.canonical
            == info.canonical@,
{
}

/// A demonstration without a rail credits what the payer claims, under the name that the
/// payer gives it, once.
pub proof fn law_a_demonstration_takes_the_claim(v: CarriageView, fp: FundingProof, read: RefRead)
    requires
        v.profile == Profile::Demo,
        v.levels is None,
        v.driver.retained.dom().contains(fp.channel_id),
        v.channels.dom().contains(fp.channel_id),
        v.channels[fp.channel_id].status != Status::Closed,
        !v.chain.dom().contains(fp.channel_id),
        fp.auth_hash == v.driver.retained[fp.channel_id].auth_hash,
        !v.consumed.contains(fp.tx_ref@),
        ledger_of(v, fp.channel_id).funding_sum + fp.amount <= u128::MAX,
    ensures
        funding_due(v, fp, true, read) matches Some(plan) && plan.target == fp.channel_id && plan.canonical
            == fp.tx_ref@,
{
}

/// A credit that was answered first is in the ledger of its channel, and nowhere else: the
/// funding there rises by what the metering engine is told to credit, the transfer is known
/// as credited, and nothing else changes. A duplicate changes no ledger, and one that could
/// not be recorded changes nothing.
pub proof fn law_a_credit_enters_one_ledger(
    v: CarriageView,
    plan: PlanView,
    outcome: ConsumeOutcome,
    after: CarriageView,
    r: Handled,
)
    requires
        funding_answered(v, plan, outcome, after, r),
        ledger_of(v, plan.target).funding_sum + plan.credited <= u128::MAX,
    ensures
        outcome == ConsumeOutcome::First ==> {
            &&& r.reply == Ok::<Response, CarriageError>(Response::Accepted)
            &&& r.effect == (Effect::Credit { channel: plan.target, amount: plan.credited })
            &&& ledger_of(after, plan.target).funding_sum == ledger_of(v, plan.target).funding_sum
                + plan.credited
            &&& ledger_of(after, plan.target).net_legs_sum == ledger_of(v, plan.target).net_legs_sum
            &&& ledger_of(after, plan.target).settled_r == ledger_of(v, plan.target).settled_r
            &&& ledger_of(after, plan.target).version == ledger_of(v, plan.target).version
        },
        outcome == ConsumeOutcome::Duplicate ==> {
            &&& r.reply == Ok::<Response, CarriageError>(Response::Accepted)
            &&& r.effect == Effect::Nothing
            &&& after.ledger == v.ledger
        },
        outcome == ConsumeOutcome::Failed ==> {
            &&& r.reply == Err::<Response, CarriageError>(CarriageError::Rejected)
            &&& r.effect == Effect::Nothing
            &&& after == v
        },
        outcome != ConsumeOutcome::Failed ==> forall|name: Seq<char>| #[trigger]
            after.consumed.contains(name) <==> v.consumed.contains(name) || name == plan.canonical,
        forall|c: [u8; 8]| c != plan.target ==> #[trigger] ledger_of(after, c) == ledger_of(v, c),
        after == (CarriageView { ledger: after.ledger, consumed: after.consumed, ..v }),
{
}

} // verus!
