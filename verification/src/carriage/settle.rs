//! Settlement proofs: the debtor names the transfers that paid a round, and the
//! merchant credits what the rail shows, each leg once.

use vstd::prelude::*;

use crate::bignat::BigNat;
use crate::bytes::{copy_bytes, same_array};
use crate::carriage::guards::{
    claimed, law_healthy_log_credits_once, outcome_of, ConsumeOutcome,
};
use crate::carriage::propose::serial;
use crate::carriage::rounds::{bumped, next_version};
use crate::carriage::{
    framed, framed_bytes, ledger_of, one_output, outputs_view, Carriage, CarriageError,
    CarriageView, Effect, Handled, Ledger, LedgerView, Output, OutputView, Response, RoundDecision,
    RoundView, MAX_PROOFS,
};
use crate::channel::{CheckpointKey, SettlementTerms, TermsView};
use crate::framing::MAX_FIELD;
use crate::keys::fund_key_bytes;
use crate::medium::LogMedium;
use crate::meed::{
    amount_of, ascending, carve, credit_all, credited_all, law_fold_is_exact,
    lemma_credited_all_total, meed_carve, total,
};
use crate::one_decision::{keeps, Decision, OneDecisionStore, WalOneDecision};
use crate::rail::{final_enough, finality_reached, texts, AdvanceFact, RefInfo, RefRead};
use crate::table::TextSet;

verus! {

/// The type octet of a settlement receipt.
pub const T_SETTLEMENT_CONFIRMED: u8 = 0x08;

/// One transfer that a proof names: the leg it is to pay, and what the rail says
/// of it.
#[derive(Debug)]
pub struct TxLeg {
    pub leg: u8,
    pub read: RefRead,
}

/// What the caller found out about a proof.
#[derive(Debug)]
pub struct ProofFacts {
    /// Where the meed leg has to go.
    pub instance_addr: String,
    /// The memo that binds a net leg to the round.
    pub net_memo: [u8; 32],
    /// The signed receipt of the round, where it can be formed.
    pub receipt: Option<Vec<u8>>,
    /// The proof itself, to be kept as evidence.
    pub evidence: Vec<u8>,
}

/// What was found of a proof's transfers so far.
struct Tally {
    seen: TextSet,
    meed_time: Option<u64>,
    matched: Vec<bool>,
    net_refs: Vec<String>,
    net_times: Vec<u64>,
}

/// What was found of a proof's transfers so far.
#[verifier::ext_equal]
pub struct TallyView {
    /// The transfers, by their one name.
    pub seen: Set<Seq<char>>,
    /// When the meed leg became final.
    pub meed_time: Option<u64>,
    /// The outputs that a transfer pays.
    pub matched: Seq<bool>,
    /// The transfers that pay an output.
    pub net_refs: Seq<Seq<char>>,
    /// When each of them became final.
    pub net_times: Seq<u64>,
}

impl View for Tally {
    type V = TallyView;

    closed spec fn view(&self) -> TallyView {
        TallyView {
            seen: self.seen@,
            meed_time: self.meed_time,
            matched: self.matched@,
            net_refs: texts(self.net_refs@),
            net_times: self.net_times@,
        }
    }
}

/// Whether a transfer moved the channel's own watermark at least to `target_p`.
/// Only a transfer that ran the meed division carries such a fact.
pub open spec fn advanced_to(
    fact: Option<AdvanceFact>,
    channel: [u8; 8],
    seed_instance: [u8; 32],
    target_p: u128,
) -> bool {
    match fact {
        Some(f) => f.channel_id == channel && f.seed_instance == seed_instance && f.funded_p >= target_p,
        None => false,
    }
}

/// The first output at or after `i` that is not paid yet and that a transfer pays
/// exactly.
pub open spec fn paid_output(
    outputs: Seq<OutputView>,
    matched: Seq<bool>,
    info: RefInfo,
    i: int,
) -> Option<int>
    decreases outputs.len() - i,
{
    if i < 0 || i >= outputs.len() {
        None
    } else if !matched[i] && outputs[i].dest == info.to@ && outputs[i].asset == info.asset@
        && outputs[i].amount == info.amount {
        Some(i)
    } else {
        paid_output(outputs, matched, info, i + 1)
    }
}

/// The tally once another transfer is counted; `None` where it pays nothing of the
/// round.
pub open spec fn counted(
    channel: [u8; 8],
    terms: TermsView,
    levels: Seq<Seq<char>>,
    d: RoundView,
    facts: ProofFacts,
    t: TallyView,
    tx: TxLeg,
) -> Option<TallyView> {
    match tx.read.info {
        None => None,
        Some(info) => if t.seen.contains(info.canonical@) {
            None
        } else if tx.leg == 1 {
            if d.target_p is Some && t.meed_time is None && info.to@ == facts.instance_addr@ && info.asset@
                == terms.baseline_asset && advanced_to(
                info.advanced,
                channel,
                terms.seed_instance,
                d.target_p->0,
            ) && final_enough(levels, tx.read.finality, terms.fin_meed) {
                Some(
                    TallyView {
                        seen: t.seen.insert(info.canonical@),
                        meed_time: Some((tx.read.finality->0).time),
                        ..t
                    },
                )
            } else {
                None
            }
        } else if tx.leg == 2 {
            match paid_output(d.outputs, t.matched, info, 0) {
                Some(i) => if info.memo == Some(facts.net_memo) && final_enough(
                    levels,
                    tx.read.finality,
                    terms.fin_denom,
                ) {
                    Some(
                        TallyView {
                            seen: t.seen.insert(info.canonical@),
                            matched: t.matched.update(i, true),
                            net_refs: t.net_refs.push(info.canonical@),
                            net_times: t.net_times.push((tx.read.finality->0).time),
                            ..t
                        },
                    )
                } else {
                    None
                },
                None => None,
            }
        } else {
            None
        },
    }
}

/// The tally of a proof's transfers, in turn; `None` where one pays nothing of the
/// round.
pub open spec fn tally_of(
    channel: [u8; 8],
    terms: TermsView,
    levels: Seq<Seq<char>>,
    d: RoundView,
    facts: ProofFacts,
    txs: Seq<TxLeg>,
) -> Option<TallyView>
    decreases txs.len(),
{
    if txs.len() == 0 {
        Some(
            TallyView {
                seen: Set::empty(),
                meed_time: None,
                matched: Seq::new(d.outputs.len(), |i: int| false),
                net_refs: Seq::empty(),
                net_times: Seq::empty(),
            },
        )
    } else {
        match tally_of(channel, terms, levels, d, facts, txs.drop_last()) {
            Some(t) => counted(channel, terms, levels, d, facts, t, txs.last()),
            None => None,
        }
    }
}

/// What a proof settles of a round.
#[derive(Debug)]
pub struct ProofPlan {
    /// Whether the meed leg enters the ledger.
    pub fold_meed: bool,
    /// Whether the net legs enter the ledger.
    pub fold_net: bool,
    /// Whether the round is complete then.
    pub confirm: bool,
    /// When the meed leg became final.
    pub meed_time: Option<u64>,
    /// The transfers that pay the net.
    pub net_refs: Vec<String>,
    /// What they pay.
    pub net_total: u128,
}

/// What a [`ProofPlan`] says.
#[verifier::ext_equal]
pub struct ProofPlanView {
    pub fold_meed: bool,
    pub fold_net: bool,
    pub confirm: bool,
    pub meed_time: Option<u64>,
    pub net_refs: Seq<Seq<char>>,
    pub net_total: u128,
}

impl View for ProofPlan {
    type V = ProofPlanView;

    open spec fn view(&self) -> ProofPlanView {
        ProofPlanView {
            fold_meed: self.fold_meed,
            fold_net: self.fold_net,
            confirm: self.confirm,
            meed_time: self.meed_time,
            net_refs: texts(self.net_refs@),
            net_total: self.net_total,
        }
    }
}

/// The sum of the outputs; one that no transfer can pay counts nothing.
pub open spec fn outputs_sum(outputs: Seq<OutputView>) -> nat
    decreases outputs.len(),
{
    if outputs.len() == 0 {
        0
    } else {
        outputs_sum(outputs.drop_last()) + if outputs.last().amount <= u128::MAX {
            outputs.last().amount
        } else {
            0
        }
    }
}

/// Whether every output is paid.
pub open spec fn all_paid(matched: Seq<bool>) -> bool {
    forall|i: int| 0 <= i < matched.len() ==> matched[i]
}

/// Whether no time is earlier than `time`.
pub open spec fn none_earlier(times: Seq<u64>, time: u64) -> bool {
    forall|i: int| 0 <= i < times.len() ==> times[i] >= time
}

/// Whether none of the transfers was credited.
pub open spec fn unclaimed(consumed: Set<Seq<char>>, refs: Seq<Seq<char>>) -> bool {
    forall|i: int| 0 <= i < refs.len() ==> !consumed.contains(refs[i])
}

/// What a tally settles of a round; `None` where it settles nothing, where a net
/// leg became final before the meed leg, or where a transfer was credited before.
pub open spec fn plan_of(
    d: RoundView,
    led: LedgerView,
    consumed: Set<Seq<char>>,
    t: TallyView,
) -> Option<ProofPlanView> {
    let owes_meed = d.meed_amount is Some;
    let fold_meed = owes_meed && !d.meed_folded && t.meed_time is Some;
    let net_paid = all_paid(t.matched);
    let fold_net = !d.net_folded && net_paid && t.net_refs.len() > 0;
    let confirm = (!owes_meed || d.meed_folded || fold_meed) && (d.net_folded || net_paid);
    let ordered = match (t.meed_time, d.meed_final_time) {
        (Some(m), _) => none_earlier(t.net_times, m),
        (None, Some(m)) => none_earlier(t.net_times, m),
        (None, None) => !owes_meed,
    };
    let fresh = unclaimed(consumed, t.net_refs);
    let sum = outputs_sum(d.outputs);
    if !fold_meed && !fold_net && !confirm {
        None
    } else if fold_net && (!ordered || !fresh || led.net_legs_sum + sum > u128::MAX) {
        None
    } else {
        Some(
            ProofPlanView {
                fold_meed,
                fold_net,
                confirm,
                meed_time: t.meed_time,
                net_refs: if fold_net {
                    t.net_refs
                } else {
                    Seq::empty()
                },
                net_total: if fold_net {
                    sum as u128
                } else {
                    0
                },
            },
        )
    }
}

/// What to do with a proof.
#[derive(Debug)]
pub enum ProofStep {
    /// The round is complete: send its receipt again.
    Reissue,
    /// The round cannot be verified on a rail: keep the proof.
    Keep,
    /// The proof is refused.
    Refuse(CarriageError),
    /// The proof settles this much of the round.
    Settle(ProofPlan),
}

/// What [`ProofStep`] says.
pub enum ProofStepView {
    Reissue,
    Keep,
    Refuse(CarriageError),
    Settle(ProofPlanView),
}

impl View for ProofStep {
    type V = ProofStepView;

    open spec fn view(&self) -> ProofStepView {
        match self {
            ProofStep::Reissue => ProofStepView::Reissue,
            ProofStep::Keep => ProofStepView::Keep,
            ProofStep::Refuse(e) => ProofStepView::Refuse(*e),
            ProofStep::Settle(plan) => ProofStepView::Settle(plan@),
        }
    }
}

/// What to do with a proof of the round at `key`; one of a round that is not there is
/// refused.
pub open spec fn proof_step(
    v: CarriageView,
    key: CheckpointKey,
    txs: Seq<TxLeg>,
    facts: ProofFacts,
) -> ProofStepView {
    let d = v.rounds[key];
    let led = ledger_of(v, key.channel);
    if !v.rounds.dom().contains(key) || !v.driver.retained.dom().contains(key.channel) {
        ProofStepView::Refuse(CarriageError::Rejected)
    } else if d.confirmed {
        ProofStepView::Reissue
    } else if v.levels is None || !d.deterministic {
        ProofStepView::Keep
    } else if led.version != d.ledger_version {
        ProofStepView::Refuse(CarriageError::Rejected)
    } else {
        match tally_of(
            key.channel,
            v.driver.retained[key.channel].terms,
            v.levels->0,
            d,
            facts,
            txs,
        ) {
            Some(t) => match plan_of(d, led, v.consumed, t) {
                Some(plan) => if plan.confirm && facts.receipt is None {
                    ProofStepView::Refuse(CarriageError::Malformed)
                } else {
                    ProofStepView::Settle(plan)
                },
                None => ProofStepView::Refuse(CarriageError::Rejected),
            },
            None => ProofStepView::Refuse(CarriageError::Rejected),
        }
    }
}

/// Whether the round at `key` is one of `channel` for which the proposal `hash`
/// was accepted.
pub open spec fn is_round(v: CarriageView, channel: [u8; 8], hash: [u8; 32], key: CheckpointKey) -> bool {
    &&& v.rounds.dom().contains(key)
    &&& key.channel == channel
    &&& v.rounds[key].proposal_hashes.contains(hash)
}

/// The ledger once a plan is carried out.
pub open spec fn plan_ledger(led: LedgerView, d: RoundView, plan: ProofPlanView) -> LedgerView {
    LedgerView {
        settled_r: if plan.fold_meed {
            credited_all(led.settled_r, d.e_r)
        } else {
            led.settled_r
        },
        net_legs_sum: (led.net_legs_sum + plan.net_total) as u128,
        funding_sum: led.funding_sum,
        version: if plan.fold_meed || plan.fold_net {
            bumped(led.version)
        } else {
            led.version
        },
    }
}

/// By how much a plan lowers the channel's balance: the step of the settled
/// carve, and the net.
pub open spec fn plan_gross(led: LedgerView, d: RoundView, plan: ProofPlanView) -> nat {
    (carve(plan_ledger(led, d, plan).settled_r) - carve(led.settled_r)) as nat + plan.net_total as nat
}

/// The largest `u128` that is no larger than `n`.
pub open spec fn capped(n: nat) -> u128 {
    if n <= u128::MAX {
        n as u128
    } else {
        u128::MAX
    }
}

/// The carriage once a plan is carried out.
pub open spec fn settled(v: CarriageView, key: CheckpointKey, plan: ProofPlanView) -> CarriageView {
    let d = v.rounds[key];
    let led = plan_ledger(ledger_of(v, key.channel), d, plan);
    CarriageView {
        ledger: v.ledger.insert(key.channel, led),
        rounds: v.rounds.insert(
            key,
            RoundView {
                meed_folded: d.meed_folded || plan.fold_meed,
                meed_final_time: if plan.fold_meed {
                    plan.meed_time
                } else {
                    d.meed_final_time
                },
                net_folded: d.net_folded || plan.fold_net,
                ledger_version: led.version,
                confirmed: d.confirmed || plan.confirm,
                ..d
            },
        ),
        ..v
    }
}

/// What the metering engine has to do for a plan.
pub open spec fn settle_effect(v: CarriageView, key: CheckpointKey, plan: ProofPlanView) -> Effect {
    let gross = plan_gross(ledger_of(v, key.channel), v.rounds[key], plan);
    if gross > 0 {
        Effect::Settle { channel: key.channel, gross: capped(gross) }
    } else {
        Effect::Nothing
    }
}

/// The carriage once a proof was kept as evidence.
pub open spec fn evidence_kept(v: CarriageView, key: CheckpointKey, evidence: Seq<u8>) -> CarriageView {
    let d = v.rounds[key];
    CarriageView {
        rounds: v.rounds.insert(
            key,
            RoundView {
                proofs: if d.proofs.len() < MAX_PROOFS {
                    d.proofs.push(evidence)
                } else {
                    d.proofs
                },
                ..d
            },
        ),
        ..v
    }
}

pub(super) fn advance_reached(
    fact: &Option<AdvanceFact>,
    channel: &[u8; 8],
    seed_instance: &[u8; 32],
    target_p: u128,
) -> (r: bool)
    ensures
        r == advanced_to(*fact, *channel, *seed_instance, target_p),
{
    match fact {
        Some(f) => same_array(&f.channel_id, channel) && same_array(&f.seed_instance, seed_instance)
            && f.funded_p >= target_p,
        None => false,
    }
}

fn find_paid_output(outputs: &Vec<Output>, matched: &Vec<bool>, info: &RefInfo) -> (r: Option<usize>)
    requires
        matched@.len() == outputs@.len(),
    ensures
        match r {
            Some(i) => i < outputs@.len() && paid_output(outputs_view(outputs@), matched@, *info, 0)
                == Some(i as int),
            None => paid_output(outputs_view(outputs@), matched@, *info, 0) is None,
        },
{
    let ghost all: Seq<OutputView> = outputs_view(outputs@);
    let mut i: usize = 0;
    while i < outputs.len()
        invariant
            i <= outputs@.len(),
            all == outputs_view(outputs@),
            matched@.len() == outputs@.len(),
            paid_output(all, matched@, *info, 0) == paid_output(all, matched@, *info, i as int),
        decreases outputs@.len() - i,
    {
        assert(all[i as int] == outputs@[i as int]@);
        let exact: bool = match outputs[i].amount.to_u128() {
            Some(n) => n == info.amount,
            None => false,
        };
        if !matched[i] && outputs[i].dest == info.to && outputs[i].asset == info.asset && exact {
            return Some(i);
        }
        i = i + 1;
    }
    None
}

fn sum_outputs(outputs: &Vec<Output>) -> (r: Option<u128>)
    ensures
        match r {
            Some(n) => n == outputs_sum(outputs_view(outputs@)),
            None => outputs_sum(outputs_view(outputs@)) > u128::MAX,
        },
{
    let ghost all: Seq<OutputView> = outputs_view(outputs@);
    let mut sum: u128 = 0;
    let mut i: usize = 0;
    assert(all.take(0) =~= Seq::empty());
    while i < outputs.len()
        invariant
            i <= outputs@.len(),
            all == outputs_view(outputs@),
            sum == outputs_sum(all.take(i as int)),
        decreases outputs@.len() - i,
    {
        let n: u128 = match outputs[i].amount.to_u128() {
            Some(n) => n,
            None => 0,
        };
        proof {
            let next = all.take(i + 1);
            assert(next.drop_last() =~= all.take(i as int));
            assert(next.last() == outputs@[i as int]@);
            lemma_outputs_sum_grows(all, i + 1);
        }
        sum = match sum.checked_add(n) {
            Some(sum) => sum,
            None => return None,
        };
        i = i + 1;
    }
    assert(all.take(outputs@.len() as int) =~= all);
    Some(sum)
}

proof fn lemma_outputs_sum_grows(outputs: Seq<OutputView>, i: int)
    requires
        0 <= i <= outputs.len(),
    ensures
        outputs_sum(outputs.take(i)) <= outputs_sum(outputs),
    decreases outputs.len() - i,
{
    if i < outputs.len() {
        lemma_outputs_sum_grows(outputs, i + 1);
        assert(outputs.take(i + 1).drop_last() =~= outputs.take(i));
    } else {
        assert(outputs.take(i) =~= outputs);
    }
}

fn all_set(flags: &Vec<bool>) -> (r: bool)
    ensures
        r == all_paid(flags@),
{
    let mut i: usize = 0;
    while i < flags.len()
        invariant
            i <= flags@.len(),
            forall|j: int| 0 <= j < i ==> flags@[j],
        decreases flags@.len() - i,
    {
        if !flags[i] {
            return false;
        }
        i = i + 1;
    }
    true
}

fn none_before(times: &Vec<u64>, time: u64) -> (r: bool)
    ensures
        r == none_earlier(times@, time),
{
    let mut i: usize = 0;
    while i < times.len()
        invariant
            i <= times@.len(),
            forall|j: int| 0 <= j < i ==> times@[j] >= time,
        decreases times@.len() - i,
    {
        if times[i] < time {
            return false;
        }
        i = i + 1;
    }
    true
}

fn count_tx(
    channel: &[u8; 8],
    terms: &SettlementTerms,
    levels: &Vec<String>,
    d: &RoundDecision,
    facts: &ProofFacts,
    t: &mut Tally,
    tx: &TxLeg,
) -> (ok: bool)
    requires
        old(t)@.matched.len() == d@.outputs.len(),
    ensures
        ok == (counted(*channel, terms@, texts(levels@), d@, *facts, old(t)@, *tx) is Some),
        ok ==> {
            &&& counted(*channel, terms@, texts(levels@), d@, *facts, old(t)@, *tx) == Some(final(t)@)
            &&& final(t)@.matched.len() == d@.outputs.len()
        },
{
    let info: &RefInfo = match &tx.read.info {
        Some(info) => info,
        None => return false,
    };
    if t.seen.contains(&info.canonical) {
        return false;
    }
    if tx.leg == 1 {
        let target_p: u128 = match d.target_p {
            Some(p) => p,
            None => return false,
        };
        if t.meed_time.is_some() || info.to != facts.instance_addr || info.asset != terms.baseline_asset
            || !advance_reached(&info.advanced, channel, &terms.seed_instance, target_p)
            || !finality_reached(levels, &tx.read.finality, &terms.fin_meed) {
            return false;
        }
        let _ = t.seen.insert(info.canonical.clone());
        t.meed_time = match &tx.read.finality {
            Some(f) => Some(f.time),
            None => None,
        };
        true
    } else if tx.leg == 2 {
        let i: usize = match find_paid_output(&d.outputs, &t.matched, info) {
            Some(i) => i,
            None => return false,
        };
        let bound: bool = match &info.memo {
            Some(memo) => same_array(memo, &facts.net_memo),
            None => false,
        };
        if !bound || !finality_reached(levels, &tx.read.finality, &terms.fin_denom) {
            return false;
        }
        let time: u64 = match &tx.read.finality {
            Some(f) => f.time,
            None => return false,
        };
        let _ = t.seen.insert(info.canonical.clone());
        t.matched[i] = true;
        t.net_refs.push(info.canonical.clone());
        t.net_times.push(time);
        assert(t@.net_refs =~= old(t)@.net_refs.push(info.canonical@));
        true
    } else {
        false
    }
}

fn tally(
    channel: &[u8; 8],
    terms: &SettlementTerms,
    levels: &Vec<String>,
    d: &RoundDecision,
    facts: &ProofFacts,
    txs: &Vec<TxLeg>,
) -> (r: Option<Tally>)
    ensures
        match r {
            Some(t) => tally_of(*channel, terms@, texts(levels@), d@, *facts, txs@) == Some(t@),
            None => tally_of(*channel, terms@, texts(levels@), d@, *facts, txs@) is None,
        },
{
    let mut matched: Vec<bool> = Vec::new();
    let n: usize = d.outputs.len();
    while matched.len() < n
        invariant
            matched@.len() <= n,
            forall|j: int| 0 <= j < matched@.len() ==> !matched@[j],
        decreases n - matched@.len(),
    {
        matched.push(false);
    }
    let mut t: Tally = Tally {
        seen: TextSet::new(),
        meed_time: None,
        matched,
        net_refs: Vec::new(),
        net_times: Vec::new(),
    };
    proof {
        assert(txs@.take(0) =~= Seq::empty());
        let none = tally_of(*channel, terms@, texts(levels@), d@, *facts, txs@.take(0))->0;
        assert(t@.matched =~= none.matched);
        assert(t@ =~= none);
    }
    let mut i: usize = 0;
    while i < txs.len()
        invariant
            i <= txs@.len(),
            t@.matched.len() == d@.outputs.len(),
            tally_of(*channel, terms@, texts(levels@), d@, *facts, txs@.take(i as int)) == Some(t@),
        decreases txs@.len() - i,
    {
        proof {
            let next = txs@.take(i + 1);
            assert(next.drop_last() =~= txs@.take(i as int));
            assert(next.last() == txs@[i as int]);
        }
        if !count_tx(channel, terms, levels, d, facts, &mut t, &txs[i]) {
            proof {
                lemma_tally_refused(*channel, terms@, texts(levels@), d@, *facts, txs@, i + 1);
            }
            return None;
        }
        i = i + 1;
    }
    assert(txs@.take(txs@.len() as int) =~= txs@);
    Some(t)
}

proof fn lemma_tally_refused(
    channel: [u8; 8],
    terms: TermsView,
    levels: Seq<Seq<char>>,
    d: RoundView,
    facts: ProofFacts,
    txs: Seq<TxLeg>,
    i: int,
)
    requires
        0 <= i <= txs.len(),
        tally_of(channel, terms, levels, d, facts, txs.take(i)) is None,
    ensures
        tally_of(channel, terms, levels, d, facts, txs) is None,
    decreases txs.len() - i,
{
    if i < txs.len() {
        assert(txs.take(i + 1).drop_last() =~= txs.take(i));
        lemma_tally_refused(channel, terms, levels, d, facts, txs, i + 1);
    } else {
        assert(txs.take(i) =~= txs);
    }
}

impl<S: OneDecisionStore> Carriage<S> {
    /// The round that a proof speaks of; `verified` says whether the payer's
    /// signature verifies.
    pub fn locate_round(&self, channel: &[u8; 8], verified: bool, hash: &[u8; 32]) -> (r: Option<
        CheckpointKey,
    >)
        ensures
            match r {
                Some(key) => self@.driver.retained.dom().contains(*channel) && verified && is_round(
                    self@,
                    *channel,
                    *hash,
                    key,
                ),
                None => !self@.driver.retained.dom().contains(*channel) || !verified || forall|
                    key: CheckpointKey,
                | !#[trigger] is_round(self@, *channel, *hash, key),
            },
    {
        if self.driver.payer_key(channel).is_none() || !verified {
            return None;
        }
        let n: usize = self.rounds.len();
        let mut i: usize = 0;
        while i < n
            invariant
                i <= n,
                n == self.rounds.keys().len(),
                forall|k: CheckpointKey|
                    self.rounds@.dom().contains(k) <==> self.rounds.keys().contains(k),
                forall|j: int|
                    0 <= j < i ==> !is_round(
                        self@,
                        *channel,
                        *hash,
                        #[trigger] self.rounds.keys()[j],
                    ),
                self@.driver.retained.dom().contains(*channel),
                verified,
            decreases n - i,
        {
            let k: CheckpointKey = self.rounds.key_at(i);
            if same_array(&k.channel, channel) {
                if let Some(d) = self.rounds.get(&k) {
                    if d.proposal_hashes.contains(hash) {
                        return Some(k);
                    }
                }
            }
            i = i + 1;
        }
        assert forall|key: CheckpointKey| !#[trigger] is_round(self@, *channel, *hash, key) by {
            if is_round(self@, *channel, *hash, key) {
                assert(self.rounds.keys().contains(key));
                let j = choose|j: int|
                    0 <= j < self.rounds.keys().len() && self.rounds.keys()[j] == key;
                assert(!is_round(self@, *channel, *hash, self.rounds.keys()[j]));
            }
        }
        None
    }

    fn none_consumed(&self, refs: &Vec<String>) -> (r: bool)
        ensures
            r == unclaimed(self@.consumed, texts(refs@)),
    {
        let mut i: usize = 0;
        while i < refs.len()
            invariant
                i <= refs@.len(),
                forall|j: int| 0 <= j < i ==> !self@.consumed.contains(texts(refs@)[j]),
            decreases refs@.len() - i,
        {
            assert(texts(refs@)[i as int] == refs@[i as int]@);
            if self.ref_consumed(&refs[i]) {
                return false;
            }
            i = i + 1;
        }
        true
    }

    fn plan_proof(&self, d: &RoundDecision, channel: &[u8; 8], t: Tally) -> (r: Option<ProofPlan>)
        ensures
            match r {
                Some(plan) => plan_of(d@, ledger_of(self@, *channel), self@.consumed, t@) == Some(plan@),
                None => plan_of(d@, ledger_of(self@, *channel), self@.consumed, t@) is None,
            },
    {
        let owes_meed: bool = d.meed_amount.is_some();
        let fold_meed: bool = owes_meed && !d.meed_folded && t.meed_time.is_some();
        let net_paid: bool = all_set(&t.matched);
        let fold_net: bool = !d.net_folded && net_paid && t.net_refs.len() > 0;
        let confirm: bool = (!owes_meed || d.meed_folded || fold_meed) && (d.net_folded || net_paid);
        if !fold_meed && !fold_net && !confirm {
            return None;
        }
        if !fold_net {
            let plan: ProofPlan = ProofPlan {
                fold_meed,
                fold_net,
                confirm,
                meed_time: t.meed_time,
                net_refs: Vec::new(),
                net_total: 0,
            };
            assert(plan@.net_refs =~= Seq::empty());
            return Some(plan);
        }
        let ordered: bool = match (t.meed_time, d.meed_final_time) {
            (Some(m), _) => none_before(&t.net_times, m),
            (None, Some(m)) => none_before(&t.net_times, m),
            (None, None) => !owes_meed,
        };
        if !ordered || !self.none_consumed(&t.net_refs) {
            return None;
        }
        let (net_legs, _funding, _version): (u128, u128, u64) = self.ledger_sums(channel);
        let net_total: u128 = match sum_outputs(&d.outputs) {
            Some(n) => n,
            None => return None,
        };
        if net_legs.checked_add(net_total).is_none() {
            return None;
        }
        Some(
            ProofPlan {
                fold_meed,
                fold_net,
                confirm,
                meed_time: t.meed_time,
                net_refs: t.net_refs,
                net_total,
            },
        )
    }

    /// What to do with a proof of the round at `key`. Everything that can fail is
    /// tested here, before anything changes.
    pub fn check_proof(&self, key: &CheckpointKey, txs: &Vec<TxLeg>, facts: &ProofFacts) -> (r: ProofStep)
        ensures
            r@ == proof_step(self@, *key, txs@, *facts),
    {
        let (d, terms): (&RoundDecision, &SettlementTerms) = match (
            self.rounds.get(key),
            self.driver.settlement_terms(&key.channel),
        ) {
            (Some(d), Some(terms)) => (d, terms),
            _ => return ProofStep::Refuse(CarriageError::Rejected),
        };
        if d.confirmed {
            return ProofStep::Reissue;
        }
        let levels: &Vec<String> = match &self.levels {
            Some(levels) => levels,
            None => return ProofStep::Keep,
        };
        if !d.deterministic {
            return ProofStep::Keep;
        }
        let (_, _, version): (u128, u128, u64) = self.ledger_sums(&key.channel);
        if version != d.ledger_version {
            return ProofStep::Refuse(CarriageError::Rejected);
        }
        let t: Tally = match tally(&key.channel, terms, levels, d, facts, txs) {
            Some(t) => t,
            None => return ProofStep::Refuse(CarriageError::Rejected),
        };
        match self.plan_proof(d, &key.channel, t) {
            Some(plan) => if plan.confirm && facts.receipt.is_none() {
                ProofStep::Refuse(CarriageError::Malformed)
            } else {
                ProofStep::Settle(plan)
            },
            None => ProofStep::Refuse(CarriageError::Rejected),
        }
    }

    /// Claims the transfers of a plan, in turn, up to the first that is not a first
    /// claim.
    pub fn consume_all(&mut self, refs: &Vec<String>) -> (outcome: ConsumeOutcome)
        requires
            old(self).wf(),
        ensures
            final(self).wf(),
            final(self).stored() == old(self).stored(),
            keeps(old(self).recorded(), final(self).recorded()),
            exists|n: nat|
                {
                    &&& n <= refs@.len()
                    &&& final(self)@ == #[trigger] claimed_up_to(old(self)@, texts(refs@), n)
                    &&& match outcome {
                        ConsumeOutcome::First => n == refs@.len(),
                        ConsumeOutcome::Duplicate => n > 0,
                        ConsumeOutcome::Failed => n < refs@.len(),
                    }
                },
            exists|n: nat, mid: Self| #[trigger]
                claims_ran(*old(self), texts(refs@), n, mid, *final(self), outcome),
            old(self).stored() && outcome == ConsumeOutcome::Duplicate ==> exists|i: int|
                0 <= i < refs@.len() && final(self).recorded().dom().contains(
                    fund_key_bytes(#[trigger] texts(refs@)[i]),
                ),
            refs@.len() == 0 ==> *final(self) == *old(self) && outcome == ConsumeOutcome::First,
            outcome == ConsumeOutcome::First ==> {
                &&& forall|i: int|
                    0 <= i < refs@.len() ==> #[trigger] final(self)@.consumed.contains(texts(refs@)[i])
                &&& old(self).stored() ==> forall|i: int|
                    0 <= i < refs@.len() ==> {
                        &&& !old(self).recorded().dom().contains(
                            #[trigger] fund_key_bytes(texts(refs@)[i]),
                        )
                        &&& final(self).recorded().contains_pair(
                            fund_key_bytes(texts(refs@)[i]),
                            Seq::empty(),
                        )
                    }
            },
            !old(self).stored() ==> {
                &&& old(self).same_store(*final(self))
                &&& outcome == (if texts(refs@).no_duplicates() && unclaimed(
                    old(self)@.consumed,
                    texts(refs@),
                ) {
                    ConsumeOutcome::First
                } else {
                    ConsumeOutcome::Duplicate
                })
            },
    {
        let ghost all: Seq<Seq<char>> = texts(refs@);
        let mut i: usize = 0;
        assert(self@ =~= claimed_up_to(self@, all, 0)) by {
            assert(all.take(0).to_set() =~= Set::empty());
            assert(self@.consumed.union(all.take(0).to_set()) =~= self@.consumed);
        }
        while i < refs.len()
            invariant
                i <= refs@.len(),
                all == texts(refs@),
                self.wf(),
                self.stored() == old(self).stored(),
                i == 0 ==> *self == *old(self),
                keeps(old(self).recorded(), self.recorded()),
                self@ == claimed_up_to(old(self)@, all, i as nat),
                old(self).stored() ==> forall|j: int|
                    0 <= j < i ==> {
                        &&& !old(self).recorded().dom().contains(#[trigger] fund_key_bytes(all[j]))
                        &&& self.recorded().contains_pair(fund_key_bytes(all[j]), Seq::empty())
                    },
                all_first(*old(self), all.take(i as int), *self),
                !old(self).stored() ==> {
                    &&& old(self).same_store(*self)
                    &&& all.take(i as int).no_duplicates()
                    &&& unclaimed(old(self)@.consumed, all.take(i as int))
                },
            decreases refs@.len() - i,
        {
            let ghost before: Self = *self;
            assert(all[i as int] == refs@[i as int]@);
            let outcome: ConsumeOutcome = self.consume_ref(&refs[i]);
            proof {
                assert(keeps(old(self).recorded(), self.recorded())) by {
                    assert forall|key: Seq<u8>| #[trigger] old(self).recorded().dom().contains(key) implies self.recorded().dom().contains(
                        key,
                    ) && self.recorded()[key] == old(self).recorded()[key] by {
                        assert(before.recorded().dom().contains(key));
                    }
                }
                lemma_claimed_next(old(self)@, all, i as nat);
                let seen = all.take(i + 1);
                assert(seen.drop_last() =~= all.take(i as int));
                if !old(self).stored() {
                    lemma_next_unclaimed(old(self)@, all, i as nat);
                }
                if old(self).stored() {
                    assert forall|j: int| 0 <= j < i implies self.recorded().contains_pair(
                        #[trigger] fund_key_bytes(all[j]),
                        Seq::empty(),
                    ) by {
                        assert(before.recorded().dom().contains(fund_key_bytes(all[j])));
                    }
                    if outcome == ConsumeOutcome::First {
                        assert(!old(self).recorded().dom().contains(fund_key_bytes(all[i as int])));
                    }
                }
            }
            if outcome != ConsumeOutcome::First {
                assert(claims_ran(*old(self), all, i as nat, before, *self, outcome));
                return outcome;
            }
            assert(before.ref_claimed(all.take(i + 1).last(), *self, ConsumeOutcome::First));
            i = i + 1;
        }
        proof {
            assert forall|j: int| 0 <= j < refs@.len() implies #[trigger] self@.consumed.contains(all[j]) by {
                assert(all.take(refs@.len() as int)[j] == all[j]);
            }
            assert(all.take(refs@.len() as int) =~= all);
            assert(claims_ran(*old(self), all, refs@.len(), *self, *self, ConsumeOutcome::First));
        }
        ConsumeOutcome::First
    }

    /// Carries out a plan once its transfers were claimed: only first claims are
    /// credited; a duplicate is acknowledged, and a failed one refused.
    pub fn commit_proof(
        &mut self,
        key: &CheckpointKey,
        plan: &ProofPlan,
        receipt: &Option<Vec<u8>>,
        outcome: ConsumeOutcome,
    ) -> (r: Handled)
        requires
            old(self).wf(),
            old(self)@.rounds.dom().contains(*key),
            ledger_of(old(self)@, key.channel).net_legs_sum + plan.net_total <= u128::MAX,
            plan.confirm ==> *receipt is Some,
            completes(old(self)@.rounds[*key], plan@),
        ensures
            final(self).wf(),
            old(self).same_store(*final(self)),
            match outcome {
                ConsumeOutcome::First => {
                    &&& final(self)@ == settled(old(self)@, *key, plan@)
                    &&& r.effect == settle_effect(old(self)@, *key, plan@)
                    &&& plan.confirm ==> (r.reply matches Ok(Response::Message(m)) && m@ == framed_bytes(
                        T_SETTLEMENT_CONFIRMED,
                        (receipt->0)@,
                    ))
                    &&& !plan.confirm ==> r.reply == Ok::<Response, CarriageError>(Response::Accepted)
                },
                ConsumeOutcome::Duplicate => {
                    &&& final(self)@ == old(self)@
                    &&& r.reply == Ok::<Response, CarriageError>(Response::Accepted)
                    &&& r.effect == Effect::Nothing
                },
                ConsumeOutcome::Failed => {
                    &&& final(self)@ == old(self)@
                    &&& r.reply == Err::<Response, CarriageError>(CarriageError::Rejected)
                    &&& r.effect == Effect::Nothing
                },
            },
    {
        match outcome {
            ConsumeOutcome::First => {},
            ConsumeOutcome::Duplicate => return Handled {
                reply: Ok(Response::Accepted),
                effect: Effect::Nothing,
            },
            ConsumeOutcome::Failed => return Handled {
                reply: Err(CarriageError::Rejected),
                effect: Effect::Nothing,
            },
        }
        let mut d: RoundDecision = match self.rounds.remove(key) {
            Some(d) => d,
            None => return Handled {
                reply: Err(CarriageError::Rejected),
                effect: Effect::Nothing,
            },
        };
        let mut led: Ledger = self.take_ledger(&key.channel);
        let ghost before: LedgerView = led@;
        assert(before == ledger_of(old(self)@, key.channel));
        let mut gross: u128 = 0;
        if plan.fold_meed {
            let start: BigNat = meed_carve(&led.settled_r);
            credit_all(&mut led.settled_r, &d.e_r);
            let end: BigNat = meed_carve(&led.settled_r);
            proof {
                lemma_credited_all_total(before.settled_r, d@.e_r);
            }
            gross = match end.minus(&start) {
                Some(step) => match step.to_u128() {
                    Some(step) => step,
                    None => u128::MAX,
                },
                None => 0,
            };
        }
        led.net_legs_sum = led.net_legs_sum + plan.net_total;
        gross = gross.saturating_add(plan.net_total);
        if plan.fold_meed || plan.fold_net {
            led.version = next_version(led.version);
        }
        assert(led@ == plan_ledger(before, d@, plan@));
        assert(gross == capped(plan_gross(before, d@, plan@)));
        let version: u64 = led.version;
        self.ledger.insert(key.channel, led);
        if plan.fold_meed {
            d.meed_folded = true;
            d.meed_final_time = plan.meed_time;
        }
        if plan.fold_net {
            d.net_folded = true;
        }
        d.ledger_version = version;
        if plan.confirm {
            d.confirmed = true;
        }
        self.rounds.insert(*key, d);
        proof {
            assert(self@.ledger =~= settled(old(self)@, *key, plan@).ledger);
            assert(self@.rounds =~= settled(old(self)@, *key, plan@).rounds);
        }
        let effect: Effect = if gross > 0 {
            Effect::Settle { channel: key.channel, gross }
        } else {
            Effect::Nothing
        };
        let reply: Response = match receipt {
            Some(receipt) if plan.confirm => Response::Message(
                framed(T_SETTLEMENT_CONFIRMED, receipt.as_slice()),
            ),
            _ => Response::Accepted,
        };
        Handled { reply: Ok(reply), effect }
    }

    fn keep_evidence(&mut self, key: &CheckpointKey, evidence: &Vec<u8>)
        requires
            old(self).wf(),
            old(self)@.rounds.dom().contains(*key),
        ensures
            final(self).wf(),
            old(self).same_store(*final(self)),
            final(self)@ == evidence_kept(old(self)@, *key, evidence@),
    {
        if let Some(d) = self.rounds.remove(key) {
            let mut d: RoundDecision = d;
            let ghost before: RoundView = d@;
            if d.proofs.len() < MAX_PROOFS {
                d.proofs.push(copy_bytes(evidence.as_slice()));
                assert(d@.proofs =~= before.proofs.push(evidence@));
            }
            let ghost after: RoundView = d@;
            self.rounds.insert(*key, d);
            assert(self@.rounds =~= old(self)@.rounds.insert(*key, after));
        }
    }

    /// Whether a plan was answered as the store decided on its transfer.
    pub open spec fn proof_decided(
        &self,
        key: CheckpointKey,
        plan: ProofPlanView,
        receipt: Option<Vec<u8>>,
        decision: Decision,
        after: Self,
        r: Handled,
    ) -> bool {
        let claim = fund_key_bytes(plan.net_refs[0]);
        &&& self.ref_asked(plan.net_refs[0], after, decision)
        &&& proof_answered(self@, key, plan, receipt, outcome_of(decision), after@, r)
        &&& self.stored() && decision is Fresh ==> !self.recorded().dom().contains(claim)
            && after.recorded().contains_pair(claim, Seq::empty())
        &&& decision is AlreadyDecided ==> after.recorded().dom().contains(claim)
        &&& !self.stored() ==> decision is Fresh
    }

    /// Answers a settlement proof of the round at `key`. One that is refused changes
    /// nothing, so that its transfers can be presented again.
    pub fn on_settlement_proof(&mut self, key: &CheckpointKey, txs: &Vec<TxLeg>, facts: &ProofFacts) -> (r:
        Handled)
        requires
            old(self).wf(),
        ensures
            final(self).wf(),
            final(self).stored() == old(self).stored(),
            keeps(old(self).recorded(), final(self).recorded()),
            match proof_step(old(self)@, *key, txs@, *facts) {
                ProofStepView::Reissue => {
                    &&& old(self).same_store(*final(self))
                    &&& final(self)@ == old(self)@
                    &&& r.effect == Effect::Nothing
                    &&& !old(self)@.rounds[*key].deterministic ==> r.reply == Ok::<Response, CarriageError>(
                        Response::Accepted,
                    )
                    &&& old(self)@.rounds[*key].deterministic ==> match facts.receipt {
                        Some(receipt) => r.reply matches Ok(Response::Message(m)) && m@ == framed_bytes(
                            T_SETTLEMENT_CONFIRMED,
                            receipt@,
                        ),
                        None => r.reply == Err::<Response, CarriageError>(CarriageError::Malformed),
                    }
                },
                ProofStepView::Keep => {
                    &&& old(self).same_store(*final(self))
                    &&& final(self)@ == evidence_kept(old(self)@, *key, facts.evidence@)
                    &&& r.reply == Ok::<Response, CarriageError>(Response::Accepted)
                    &&& r.effect == Effect::Nothing
                },
                ProofStepView::Refuse(e) => {
                    &&& old(self).same_store(*final(self))
                    &&& final(self)@ == old(self)@
                    &&& r.reply == Err::<Response, CarriageError>(e)
                    &&& r.effect == Effect::Nothing
                },
                ProofStepView::Settle(plan) => {
                    &&& plan.net_refs.len() <= 1
                    &&& plan.net_refs.len() == 0 ==> {
                        &&& old(self).same_store(*final(self))
                        &&& proof_answered(
                            old(self)@,
                            *key,
                            plan,
                            facts.receipt,
                            ConsumeOutcome::First,
                            final(self)@,
                            r,
                        )
                    }
                    &&& plan.net_refs.len() == 1 ==> exists|decision: Decision| #[trigger]
                        old(self).proof_decided(*key, plan, facts.receipt, decision, *final(self), r)
                },
            },
            r.reply is Err ==> final(self)@ == old(self)@,
    {
        let step: ProofStep = self.check_proof(key, txs, facts);
        match step {
            ProofStep::Reissue => {
                let deterministic: bool = match self.rounds.get(key) {
                    Some(d) => d.deterministic,
                    None => false,
                };
                let reply: Result<Response, CarriageError> = if deterministic {
                    match &facts.receipt {
                        Some(receipt) => Ok(
                            Response::Message(framed(T_SETTLEMENT_CONFIRMED, receipt.as_slice())),
                        ),
                        None => Err(CarriageError::Malformed),
                    }
                } else {
                    Ok(Response::Accepted)
                };
                Handled { reply, effect: Effect::Nothing }
            },
            ProofStep::Keep => {
                self.keep_evidence(key, &facts.evidence);
                Handled { reply: Ok(Response::Accepted), effect: Effect::Nothing }
            },
            ProofStep::Refuse(e) => Handled { reply: Err(e), effect: Effect::Nothing },
            ProofStep::Settle(plan) => {
                proof {
                    lemma_plan_refs_distinct(old(self)@, *key, txs@, *facts);
                    lemma_plan_one_ref(old(self)@, *key, txs@, *facts);
                }
                let outcome: ConsumeOutcome = self.consume_all(&plan.net_refs);
                let ghost mid: Self = *self;
                let ghost refs: Seq<Seq<char>> = plan@.net_refs;
                proof {
                    let n = choose|n: nat|
                        {
                            &&& n <= refs.len()
                            &&& mid@ == #[trigger] claimed_up_to(old(self)@, refs, n)
                            &&& match outcome {
                                ConsumeOutcome::First => n == refs.len(),
                                ConsumeOutcome::Duplicate => n > 0,
                                ConsumeOutcome::Failed => n < refs.len(),
                            }
                        };
                    assert(ledger_of(self@, key.channel) == ledger_of(old(self)@, key.channel));
                    if n == 0 {
                        assert(refs.take(0).to_set() =~= Set::empty());
                        assert(old(self)@.consumed.union(refs.take(0).to_set()) =~= old(self)@.consumed);
                        assert(mid@ == old(self)@);
                    }
                }
                let r: Handled = self.commit_proof(key, &plan, &facts.receipt, outcome);
                proof {
                    let step = proof_step(old(self)@, *key, txs@, *facts);
                    assert(step == ProofStepView::Settle(plan@));
                    assert(proof_answered(
                        old(self)@,
                        *key,
                        plan@,
                        facts.receipt,
                        outcome,
                        self@,
                        r,
                    ));
                    if refs.len() == 1 {
                        let (n, at) = choose|n: nat, at: Self| #[trigger]
                            claims_ran(*old(self), refs, n, at, mid, outcome);
                        lemma_one_claim(*old(self), refs, n, at, mid, outcome);
                        if !old(self).stored() {
                            assert(old(self).ref_asked(refs[0], mid, Decision::Fresh));
                        }
                        let decision = choose|d: Decision| #[trigger]
                            old(self).ref_asked(refs[0], mid, d) && outcome == outcome_of(d);
                        assert(old(self).proof_decided(
                            *key,
                            step->Settle_0,
                            facts.receipt,
                            decision,
                            *self,
                            r,
                        ));
                    }
                }
                r
            },
        }
    }
}

/// Whether a plan was answered as the claim of its transfers came out: first claims are
/// settled, a duplicate is acknowledged, and one that could not be recorded refused, with
/// nothing changed.
pub open spec fn proof_answered(
    v: CarriageView,
    key: CheckpointKey,
    plan: ProofPlanView,
    receipt: Option<Vec<u8>>,
    outcome: ConsumeOutcome,
    after: CarriageView,
    r: Handled,
) -> bool {
    let claimed = claimed_up_to(v, plan.net_refs, plan.net_refs.len());
    match outcome {
        ConsumeOutcome::First => {
            &&& after == settled(claimed, key, plan)
            &&& r.effect == settle_effect(v, key, plan)
            &&& plan.confirm ==> (r.reply matches Ok(Response::Message(m)) && m@ == framed_bytes(
                T_SETTLEMENT_CONFIRMED,
                (receipt->0)@,
            ))
            &&& !plan.confirm ==> r.reply == Ok::<Response, CarriageError>(Response::Accepted)
        },
        ConsumeOutcome::Duplicate => {
            &&& after == claimed
            &&& r.reply == Ok::<Response, CarriageError>(Response::Accepted)
            &&& r.effect == Effect::Nothing
        },
        ConsumeOutcome::Failed => {
            &&& after == v
            &&& r.reply == Err::<Response, CarriageError>(CarriageError::Rejected)
            &&& r.effect == Effect::Nothing
        },
    }
}

/// Whether a plan that leaves neither leg of a round out of the ledger completes it.
pub open spec fn completes(d: RoundView, plan: ProofPlanView) -> bool {
    (d.meed_folded || plan.fold_meed) && (d.net_folded || plan.fold_net) ==> d.confirmed || plan.confirm
}

/// The carriage once the first `n` of a list of references are claimed.
pub open spec fn claimed_up_to(v: CarriageView, refs: Seq<Seq<char>>, n: nat) -> CarriageView {
    CarriageView { consumed: v.consumed.union(refs.take(n as int).to_set()), ..v }
}

proof fn lemma_claimed_next(v: CarriageView, refs: Seq<Seq<char>>, n: nat)
    requires
        n < refs.len(),
    ensures
        claimed_up_to(v, refs, n + 1) == claimed(
            claimed_up_to(v, refs, n),
            refs[n as int],
            ConsumeOutcome::First,
        ),
{
    let (a, b) = (refs.take(n as int), refs.take((n + 1) as int));
    assert(b =~= a.push(refs[n as int]));
    assert(b.to_set() =~= a.to_set().insert(refs[n as int])) by {
        assert forall|c: Seq<char>| #[trigger] b.to_set().contains(c) <==> a.to_set().insert(
            refs[n as int],
        ).contains(c) by {
            if a.contains(c) {
                let j = choose|j: int| 0 <= j < a.len() && a[j] == c;
                assert(b[j] == c);
            }
            assert(b[n as int] == refs[n as int]);
            if b.contains(c) {
                let j = choose|j: int| 0 <= j < b.len() && b[j] == c;
                if j < n {
                    assert(a[j] == c);
                }
            }
        }
    }
    assert(v.consumed.union(b.to_set()) =~= v.consumed.union(a.to_set()).insert(refs[n as int]));
}

/// The next reference is claimed already exactly where the references up to it repeat
/// one, or hold one that was claimed before them.
proof fn lemma_next_unclaimed(v: CarriageView, refs: Seq<Seq<char>>, n: nat)
    requires
        n < refs.len(),
        refs.take(n as int).no_duplicates(),
        unclaimed(v.consumed, refs.take(n as int)),
    ensures
        !claimed_up_to(v, refs, n).consumed.contains(refs[n as int]) <==> {
            let seen = refs.take((n + 1) as int);
            seen.no_duplicates() && unclaimed(v.consumed, seen)
        },
        claimed_up_to(v, refs, n).consumed.contains(refs[n as int]) ==> !(refs.no_duplicates()
            && unclaimed(v.consumed, refs)),
{
    let a = refs.take(n as int);
    let seen = refs.take((n + 1) as int);
    assert(forall|i: int| 0 <= i < n ==> seen[i] == a[i] && a[i] == refs[i]);
    assert(seen[n as int] == refs[n as int]);
    if a.contains(refs[n as int]) {
        let j = choose|j: int| 0 <= j < a.len() && a[j] == refs[n as int];
        assert(refs[j] == refs[n as int]);
        assert(seen[j] == seen[n as int]);
    } else if !v.consumed.contains(refs[n as int]) {
        assert forall|i: int, j: int| 0 <= i < j < seen.len() implies seen[i] != seen[j] by {
            if j == n {
                assert(a.contains(a[i]));
            }
        }
    }
}

/// Whether claiming `refs` in turn gave a first claim each, and led from `before` to
/// `after`.
pub open spec fn all_first<S: OneDecisionStore>(
    before: Carriage<S>,
    refs: Seq<Seq<char>>,
    after: Carriage<S>,
) -> bool
    decreases refs.len(),
{
    if refs.len() == 0 {
        after == before
    } else {
        exists|mid: Carriage<S>|
            all_first(before, refs.drop_last(), mid) && #[trigger] mid.ref_claimed(
                refs.last(),
                after,
                ConsumeOutcome::First,
            )
    }
}

/// Whether claiming `refs` in turn gave `outcome`, and led from `before` to `after`: the
/// first `n` were first claims, up to `mid`, and the next, if there is one, was not.
pub open spec fn claims_ran<S: OneDecisionStore>(
    before: Carriage<S>,
    refs: Seq<Seq<char>>,
    n: nat,
    mid: Carriage<S>,
    after: Carriage<S>,
    outcome: ConsumeOutcome,
) -> bool {
    &&& n <= refs.len()
    &&& all_first(before, refs.take(n as int), mid)
    &&& if n == refs.len() {
        after == mid && outcome == ConsumeOutcome::First
    } else {
        mid.ref_claimed(refs[n as int], after, outcome) && outcome != ConsumeOutcome::First
    }
}

proof fn lemma_one_claim<S: OneDecisionStore>(
    before: Carriage<S>,
    refs: Seq<Seq<char>>,
    n: nat,
    mid: Carriage<S>,
    after: Carriage<S>,
    outcome: ConsumeOutcome,
)
    requires
        refs.len() == 1,
        claims_ran(before, refs, n, mid, after, outcome),
    ensures
        before.ref_claimed(refs[0], after, outcome),
{
    let seen = refs.take(n as int);
    if n == 1 {
        assert(seen =~= refs);
        let start = choose|start: Carriage<S>|
            all_first(before, seen.drop_last(), start) && #[trigger] start.ref_claimed(
                seen.last(),
                mid,
                ConsumeOutcome::First,
            );
        assert(start == before);
    }
}

proof fn lemma_tally_distinct(
    channel: [u8; 8],
    terms: TermsView,
    levels: Seq<Seq<char>>,
    d: RoundView,
    facts: ProofFacts,
    txs: Seq<TxLeg>,
)
    ensures
        tally_of(channel, terms, levels, d, facts, txs) matches Some(t) ==> {
            &&& t.net_refs.no_duplicates()
            &&& forall|i: int| 0 <= i < t.net_refs.len() ==> t.seen.contains(#[trigger] t.net_refs[i])
        },
    decreases txs.len(),
{
    if txs.len() > 0 {
        lemma_tally_distinct(channel, terms, levels, d, facts, txs.drop_last());
        if let Some(t) = tally_of(channel, terms, levels, d, facts, txs) {
            let before = tally_of(channel, terms, levels, d, facts, txs.drop_last())->0;
            let tx = txs.last();
            let name = (tx.read.info->0).canonical@;
            assert(!before.seen.contains(name));
            if tx.leg == 2 {
                assert(t.net_refs == before.net_refs.push(name));
                assert forall|i: int, j: int|
                    0 <= i < t.net_refs.len() && 0 <= j < t.net_refs.len() && i != j implies t.net_refs[i]
                    != t.net_refs[j] by {
                    if i < before.net_refs.len() {
                        assert(before.seen.contains(before.net_refs[i]));
                    }
                    if j < before.net_refs.len() {
                        assert(before.seen.contains(before.net_refs[j]));
                    }
                }
            }
        }
    }
}

proof fn lemma_plan_refs_distinct(
    v: CarriageView,
    key: CheckpointKey,
    txs: Seq<TxLeg>,
    facts: ProofFacts,
)
    ensures
        proof_step(v, key, txs, facts) matches ProofStepView::Settle(plan) ==> {
            &&& plan.net_refs.no_duplicates()
            &&& unclaimed(v.consumed, plan.net_refs)
            &&& !plan.fold_net ==> plan.net_refs.len() == 0
        },
{
    if v.levels is Some {
        lemma_tally_distinct(
            key.channel,
            v.driver.retained[key.channel].terms,
            v.levels->0,
            v.rounds[key],
            facts,
            txs,
        );
    }
}

proof fn lemma_paid_output_bounds(outputs: Seq<OutputView>, matched: Seq<bool>, info: RefInfo, i: int)
    ensures
        paid_output(outputs, matched, info, i) matches Some(j) ==> i <= j < outputs.len() && !matched[j],
    decreases outputs.len() - i,
{
    if 0 <= i < outputs.len() {
        lemma_paid_output_bounds(outputs, matched, info, i + 1);
    }
}

proof fn lemma_tally_one_ref(
    channel: [u8; 8],
    terms: TermsView,
    levels: Seq<Seq<char>>,
    d: RoundView,
    facts: ProofFacts,
    txs: Seq<TxLeg>,
)
    requires
        d.outputs.len() <= 1,
    ensures
        tally_of(channel, terms, levels, d, facts, txs) matches Some(t) ==> {
            &&& t.matched.len() == d.outputs.len()
            &&& t.net_refs.len() <= d.outputs.len()
            &&& t.net_refs.len() == 1 ==> t.matched[0]
        },
    decreases txs.len(),
{
    if txs.len() > 0 {
        lemma_tally_one_ref(channel, terms, levels, d, facts, txs.drop_last());
        if let Some(t) = tally_of(channel, terms, levels, d, facts, txs) {
            let before = tally_of(channel, terms, levels, d, facts, txs.drop_last())->0;
            let info = txs.last().read.info->0;
            lemma_paid_output_bounds(d.outputs, before.matched, info, 0);
        }
    }
}

proof fn lemma_plan_one_ref(v: CarriageView, key: CheckpointKey, txs: Seq<TxLeg>, facts: ProofFacts)
    requires
        one_output(v),
    ensures
        proof_step(v, key, txs, facts) matches ProofStepView::Settle(plan) ==> plan.net_refs.len() <= 1,
{
    if v.levels is Some && v.rounds.dom().contains(key) && v.rounds[key].deterministic {
        lemma_tally_one_ref(
            key.channel,
            v.driver.retained[key.channel].terms,
            v.levels->0,
            v.rounds[key],
            facts,
            txs,
        );
    }
}

/// A proof never brings a second round in flight.
pub proof fn law_settling_keeps_rounds_serial(v: CarriageView, key: CheckpointKey, plan: ProofPlanView)
    requires
        serial(v),
        v.rounds.dom().contains(key),
    ensures
        serial(settled(v, key, plan)),
{
    let after = settled(v, key, plan);
    assert forall|a: CheckpointKey, b: CheckpointKey|
        #![trigger after.rounds.dom().contains(a), after.rounds.dom().contains(b)]
        {
            &&& after.rounds.dom().contains(a)
            &&& after.rounds.dom().contains(b)
            &&& a.channel == b.channel
            &&& !after.rounds[a].confirmed
            &&& !after.rounds[b].confirmed
        } implies a == b by {
        assert(v.rounds.dom().contains(a));
        assert(v.rounds.dom().contains(b));
    }
}

/// Over a healthy log a plan is settled on the first claim of its transfer, and on no
/// other: a transfer that the log records already is acknowledged, and settles nothing.
pub proof fn law_healthy_log_settles<F: LogMedium>(
    c: Carriage<WalOneDecision<F>>,
    after: Carriage<WalOneDecision<F>>,
    key: CheckpointKey,
    plan: ProofPlanView,
    receipt: Option<Vec<u8>>,
    decision: Decision,
    r: Handled,
)
    requires
        c.store() is Some,
        c.store()->0.healthy(),
        plan.net_refs.len() == 1,
        fund_key_bytes(plan.net_refs[0]).len() <= MAX_FIELD,
        c.proof_decided(key, plan, receipt, decision, after, r),
    ensures
        after.store() is Some,
        after.store()->0.healthy(),
        r.reply is Ok,
        ({
            let claims = claimed_up_to(c@, plan.net_refs, 1);
            if c.recorded().dom().contains(fund_key_bytes(plan.net_refs[0])) {
                after@ == claims && r.effect == Effect::Nothing
            } else {
                after@ == settled(claims, key, plan) && r.effect == settle_effect(c@, key, plan)
            }
        }),
{
    law_healthy_log_credits_once(c, after, plan.net_refs[0], decision);
}

/// Each leg of a round enters the ledger once: what a plan folded, no later proof
/// folds again, and a complete round is settled no further.
pub proof fn law_each_leg_folds_once(
    v: CarriageView,
    key: CheckpointKey,
    plan: ProofPlanView,
    txs: Seq<TxLeg>,
    facts: ProofFacts,
)
    requires
        v.rounds.dom().contains(key),
    ensures
        match proof_step(settled(v, key, plan), key, txs, facts) {
            ProofStepView::Settle(next) => {
                &&& !plan.confirm
                &&& plan.fold_meed ==> !next.fold_meed
                &&& plan.fold_net ==> !next.fold_net
            },
            _ => true,
        },
{
}

/// A net leg is never credited ahead of the meed: where meed is owed, the net of a
/// round enters the ledger only once the meed leg is final, and no earlier.
pub proof fn law_net_follows_meed(
    d: RoundView,
    led: LedgerView,
    consumed: Set<Seq<char>>,
    t: TallyView,
)
    requires
        d.meed_amount is Some,
        plan_of(d, led, consumed, t) matches Some(plan) && plan.fold_net,
    ensures
        t.meed_time is Some || d.meed_final_time is Some,
        forall|i: int|
            0 <= i < t.net_times.len() ==> (#[trigger] t.net_times[i]) >= (if t.meed_time is Some {
                t.meed_time->0
            } else {
                d.meed_final_time->0
            }),
{
}

/// What leaves a channel's balance is what enters its ledger: the step of the
/// settled carve, and the net.
pub proof fn law_settlement_ties_out(led: LedgerView, d: RoundView, plan: ProofPlanView)
    requires
        led.net_legs_sum + plan.net_total <= u128::MAX,
    ensures
        ({
            let after = plan_ledger(led, d, plan);
            &&& carve(after.settled_r) >= carve(led.settled_r)
            &&& plan_gross(led, d, plan) == (carve(after.settled_r) - carve(led.settled_r)) + (
            after.net_legs_sum - led.net_legs_sum)
        }),
{
    lemma_credited_all_total(led.settled_r, d.e_r);
}

/// A transfer pays one net leg: after a plan was carried out, with its transfers
/// claimed, none of them pays a net leg again, of whatever round.
pub proof fn law_net_leg_paid_once(
    v: CarriageView,
    done: CheckpointKey,
    plan: ProofPlanView,
    key: CheckpointKey,
    txs: Seq<TxLeg>,
    facts: ProofFacts,
)
    requires
        forall|i: int| 0 <= i < plan.net_refs.len() ==> v.consumed.contains(#[trigger] plan.net_refs[i]),
    ensures
        proof_step(settled(v, done, plan), key, txs, facts) matches ProofStepView::Settle(next) ==> forall|
            i: int,
        |
            0 <= i < next.net_refs.len() ==> !plan.net_refs.contains(#[trigger] next.net_refs[i]),
{
    let after = settled(v, done, plan);
    lemma_plan_refs_distinct(after, key, txs, facts);
    if let ProofStepView::Settle(next) = proof_step(after, key, txs, facts) {
        assert forall|i: int| 0 <= i < next.net_refs.len() implies !plan.net_refs.contains(
            #[trigger] next.net_refs[i],
        ) by {
            assert(!after.consumed.contains(next.net_refs[i]));
        }
    }
}

/// Whether the transfers named `refs` pay an output each: `pairs` names for each its place
/// among `txs` and the output, and the rail shows there, under that name, a transfer to
/// the output's destination, in its asset and by its amount, bound to the round by `memo`,
/// and final enough. No transfer and no output stands in two pairs.
pub open spec fn pay_an_output_each(
    outputs: Seq<OutputView>,
    memo: [u8; 32],
    levels: Seq<Seq<char>>,
    required: Seq<char>,
    txs: Seq<TxLeg>,
    refs: Seq<Seq<char>>,
    pairs: Seq<(int, int)>,
) -> bool {
    &&& pairs.len() == refs.len()
    &&& forall|j: int|
        0 <= j < pairs.len() ==> {
            let tx = txs[(#[trigger] pairs[j]).0];
            let output = outputs[pairs[j].1];
            &&& 0 <= pairs[j].0 < txs.len()
            &&& 0 <= pairs[j].1 < outputs.len()
            &&& tx.leg == 2
            &&& tx.read.info matches Some(info) && {
                &&& info.canonical@ == refs[j]
                &&& info.to@ == output.dest
                &&& info.asset@ == output.asset
                &&& info.amount == output.amount
                &&& info.memo == Some(memo)
            }
            &&& final_enough(levels, tx.read.finality, required)
        }
    &&& forall|i: int, j: int|
        0 <= i < j < pairs.len() ==> (#[trigger] pairs[i]).0 != (#[trigger] pairs[j]).0 && pairs[i].1
            != pairs[j].1
}

/// Whether some pair pays the output at `o`.
pub open spec fn paid_by(pairs: Seq<(int, int)>, o: int) -> bool {
    exists|j: int| 0 <= j < pairs.len() && (#[trigger] pairs[j]).1 == o
}

/// What the transfers of `pairs` moved on the rail, together.
pub open spec fn moved(txs: Seq<TxLeg>, pairs: Seq<(int, int)>) -> nat
    decreases pairs.len(),
{
    if pairs.len() == 0 {
        0
    } else {
        moved(txs, pairs.drop_last()) + (txs[pairs.last().0].read.info->0).amount as nat
    }
}

spec fn matched_sum(outputs: Seq<OutputView>, matched: Seq<bool>) -> nat
    decreases outputs.len(),
{
    if outputs.len() == 0 {
        0
    } else {
        matched_sum(outputs.drop_last(), matched) + if matched[outputs.len() - 1] {
            outputs.last().amount
        } else {
            0
        }
    }
}

proof fn lemma_matched_none(outputs: Seq<OutputView>, matched: Seq<bool>)
    requires
        forall|i: int| 0 <= i < outputs.len() ==> !(#[trigger] matched[i]),
    ensures
        matched_sum(outputs, matched) == 0,
    decreases outputs.len(),
{
    if outputs.len() > 0 {
        lemma_matched_none(outputs.drop_last(), matched);
        assert(!matched[outputs.len() - 1]);
    }
}

proof fn lemma_matched_next(outputs: Seq<OutputView>, matched: Seq<bool>, i: int)
    requires
        0 <= i < matched.len(),
        outputs.len() <= matched.len(),
        !matched[i],
    ensures
        matched_sum(outputs, matched.update(i, true)) == matched_sum(outputs, matched) + if i
            < outputs.len() {
            outputs[i].amount
        } else {
            0
        },
    decreases outputs.len(),
{
    if outputs.len() > 0 {
        lemma_matched_next(outputs.drop_last(), matched, i);
        if i < outputs.len() - 1 {
            assert(outputs.drop_last()[i] == outputs[i]);
        }
    }
}

proof fn lemma_matched_all(outputs: Seq<OutputView>, matched: Seq<bool>)
    requires
        outputs.len() <= matched.len(),
        all_paid(matched),
        forall|i: int| 0 <= i < outputs.len() ==> (#[trigger] outputs[i]).amount <= u128::MAX,
    ensures
        matched_sum(outputs, matched) == outputs_sum(outputs),
    decreases outputs.len(),
{
    if outputs.len() > 0 {
        let front = outputs.drop_last();
        assert forall|i: int| 0 <= i < front.len() implies (#[trigger] front[i]).amount <= u128::MAX by {
            assert(front[i] == outputs[i]);
        }
        lemma_matched_all(front, matched);
        assert(outputs[outputs.len() - 1].amount <= u128::MAX);
        assert(matched[outputs.len() - 1]);
    }
}

proof fn lemma_paid_output_pays(outputs: Seq<OutputView>, matched: Seq<bool>, info: RefInfo, i: int)
    ensures
        paid_output(outputs, matched, info, i) matches Some(j) ==> {
            &&& i <= j < outputs.len()
            &&& !matched[j]
            &&& outputs[j].dest == info.to@
            &&& outputs[j].asset == info.asset@
            &&& outputs[j].amount == info.amount
        },
    decreases outputs.len() - i,
{
    if 0 <= i < outputs.len() {
        lemma_paid_output_pays(outputs, matched, info, i + 1);
    }
}

proof fn lemma_moved_prefix(txs: Seq<TxLeg>, pairs: Seq<(int, int)>)
    requires
        txs.len() > 0,
        forall|j: int| 0 <= j < pairs.len() ==> 0 <= (#[trigger] pairs[j]).0 < txs.len() - 1,
    ensures
        moved(txs, pairs) == moved(txs.drop_last(), pairs),
    decreases pairs.len(),
{
    if pairs.len() > 0 {
        let front = pairs.drop_last();
        assert forall|j: int| 0 <= j < front.len() implies 0 <= (#[trigger] front[j]).0 < txs.len() - 1 by {
            assert(front[j] == pairs[j]);
        }
        lemma_moved_prefix(txs, front);
        let k = pairs[pairs.len() - 1].0;
        assert(txs.drop_last()[k] == txs[k]);
    }
}

spec fn pair_times(txs: Seq<TxLeg>, pairs: Seq<(int, int)>, times: Seq<u64>) -> bool {
    &&& times.len() == pairs.len()
    &&& forall|j: int|
        0 <= j < pairs.len() ==> (txs[(#[trigger] pairs[j]).0].read.finality matches Some(f) && f.time
            == times[j])
}

spec fn pairs_match(outputs: Seq<OutputView>, matched: Seq<bool>, pairs: Seq<(int, int)>) -> bool {
    &&& matched.len() == outputs.len()
    &&& forall|o: int|
        0 <= o < matched.len() && (#[trigger] matched[o]) ==> exists|j: int|
            0 <= j < pairs.len() && (#[trigger] pairs[j]).1 == o
    &&& forall|j: int|
        0 <= j < pairs.len() ==> 0 <= (#[trigger] pairs[j]).1 < matched.len() && matched[pairs[j].1]
}

proof fn lemma_tally_pairs(
    channel: [u8; 8],
    terms: TermsView,
    levels: Seq<Seq<char>>,
    d: RoundView,
    facts: ProofFacts,
    txs: Seq<TxLeg>,
) -> (pairs: Seq<(int, int)>)
    requires
        tally_of(channel, terms, levels, d, facts, txs) is Some,
    ensures
        ({
            let t = tally_of(channel, terms, levels, d, facts, txs)->0;
            &&& pay_an_output_each(
                d.outputs,
                facts.net_memo,
                levels,
                terms.fin_denom,
                txs,
                t.net_refs,
                pairs,
            )
            &&& pair_times(txs, pairs, t.net_times)
            &&& pairs_match(d.outputs, t.matched, pairs)
            &&& moved(txs, pairs) == matched_sum(d.outputs, t.matched)
        }),
    decreases txs.len(),
{
    let t = tally_of(channel, terms, levels, d, facts, txs)->0;
    if txs.len() == 0 {
        lemma_matched_none(d.outputs, t.matched);
        Seq::empty()
    } else {
        let front = txs.drop_last();
        let before = tally_of(channel, terms, levels, d, facts, front)->0;
        let old = lemma_tally_pairs(channel, terms, levels, d, facts, front);
        let tx = txs.last();
        let info = tx.read.info->0;
        let n = txs.len() - 1;
        assert forall|j: int| 0 <= j < old.len() implies 0 <= (#[trigger] old[j]).0 < n && front[old[j].0]
            == txs[old[j].0] by {}
        lemma_moved_prefix(txs, old);
        if tx.leg == 1 {
            assert(pay_an_output_each(
                d.outputs,
                facts.net_memo,
                levels,
                terms.fin_denom,
                txs,
                t.net_refs,
                old,
            ));
            old
        } else {
            let o = paid_output(d.outputs, before.matched, info, 0)->0;
            lemma_paid_output_pays(d.outputs, before.matched, info, 0);
            lemma_matched_next(d.outputs, before.matched, o);
            let pairs = old.push((n, o));
            assert(pairs.drop_last() =~= old);
            assert forall|j: int| 0 <= j < pairs.len() implies {
                let x = txs[(#[trigger] pairs[j]).0];
                let output = d.outputs[pairs[j].1];
                &&& 0 <= pairs[j].0 < txs.len()
                &&& 0 <= pairs[j].1 < d.outputs.len()
                &&& x.leg == 2
                &&& x.read.info matches Some(info) && {
                    &&& info.canonical@ == t.net_refs[j]
                    &&& info.to@ == output.dest
                    &&& info.asset@ == output.asset
                    &&& info.amount == output.amount
                    &&& info.memo == Some(facts.net_memo)
                }
                &&& final_enough(levels, x.read.finality, terms.fin_denom)
            } by {
                if j < old.len() {
                    assert(pairs[j] == old[j]);
                    assert(before.net_refs[j] == t.net_refs[j]);
                }
            }
            assert forall|i: int, j: int| 0 <= i < j < pairs.len() implies (#[trigger] pairs[i]).0 != (
            #[trigger] pairs[j]).0 && pairs[i].1 != pairs[j].1 by {
                assert(pairs[i] == old[i]);
                if j < old.len() {
                    assert(pairs[j] == old[j]);
                } else {
                    assert(before.matched[old[i].1]);
                }
            }
            assert forall|j: int| 0 <= j < pairs.len() implies (txs[(#[trigger] pairs[j]).0].read.finality matches Some(
                f,
            ) && f.time == t.net_times[j]) by {
                if j < old.len() {
                    assert(pairs[j] == old[j]);
                }
            }
            assert forall|q: int| 0 <= q < t.matched.len() && (#[trigger] t.matched[q]) implies exists|j: int|
                0 <= j < pairs.len() && (#[trigger] pairs[j]).1 == q by {
                if q == o {
                    assert(pairs[old.len() as int].1 == o);
                } else {
                    assert(before.matched[q]);
                    let j = choose|j: int| 0 <= j < old.len() && (#[trigger] old[j]).1 == q;
                    assert(pairs[j].1 == q);
                }
            }
            assert forall|j: int| 0 <= j < pairs.len() implies 0 <= (#[trigger] pairs[j]).1 < t.matched.len()
                && t.matched[pairs[j].1] by {
                if j < old.len() {
                    assert(pairs[j] == old[j]);
                    assert(before.matched[old[j].1]);
                }
            }
            pairs
        }
    }
}

/// The net that enters the ledger was paid on the rail: the transfers that a proof claims
/// pay an output of the round each, exactly, every output is paid by one of them, and what
/// they moved together is what the ledger is told; none of them was claimed before. Where
/// the round owes meed, none became final before the meed leg did.
pub proof fn law_claimed_transfers_pay_the_net(
    v: CarriageView,
    key: CheckpointKey,
    txs: Seq<TxLeg>,
    facts: ProofFacts,
    plan: ProofPlanView,
)
    requires
        proof_step(v, key, txs, facts) == ProofStepView::Settle(plan),
    ensures
        plan.fold_net ==> !v.rounds[key].net_folded && exists|pairs: Seq<(int, int)>|
            {
                &&& #[trigger] pay_an_output_each(
                    v.rounds[key].outputs,
                    facts.net_memo,
                    v.levels->0,
                    v.driver.retained[key.channel].terms.fin_denom,
                    txs,
                    plan.net_refs,
                    pairs,
                )
                &&& forall|o: int| 0 <= o < v.rounds[key].outputs.len() ==> #[trigger] paid_by(pairs, o)
                &&& moved(txs, pairs) == plan.net_total
                &&& pairs.len() > 0
                &&& v.rounds[key].meed_amount is Some ==> {
                    let meed_time = if plan.meed_time is Some {
                        plan.meed_time
                    } else {
                        v.rounds[key].meed_final_time
                    };
                    meed_time is Some && forall|j: int|
                        0 <= j < pairs.len() ==> (txs[(#[trigger] pairs[j]).0].read.finality->0).time
                            >= meed_time->0
                }
            },
        forall|i: int| 0 <= i < plan.net_refs.len() ==> !v.consumed.contains(#[trigger] plan.net_refs[i]),
        !plan.fold_net ==> plan.net_refs.len() == 0 && plan.net_total == 0,
{
    let d = v.rounds[key];
    let terms = v.driver.retained[key.channel].terms;
    let t = tally_of(key.channel, terms, v.levels->0, d, facts, txs)->0;
    let pairs = lemma_tally_pairs(key.channel, terms, v.levels->0, d, facts, txs);
    lemma_plan_refs_distinct(v, key, txs, facts);
    assert forall|i: int| 0 <= i < plan.net_refs.len() implies !v.consumed.contains(
        #[trigger] plan.net_refs[i],
    ) by {}
    if plan.fold_net {
        assert forall|o: int| 0 <= o < d.outputs.len() implies #[trigger] paid_by(pairs, o) by {
            assert(t.matched[o]);
        }
        assert forall|o: int| 0 <= o < d.outputs.len() implies (#[trigger] d.outputs[o]).amount
            <= u128::MAX by {
            assert(paid_by(pairs, o));
            let j = choose|j: int| 0 <= j < pairs.len() && (#[trigger] pairs[j]).1 == o;
            assert(d.outputs[pairs[j].1].amount == (txs[pairs[j].0].read.info->0).amount);
        }
        lemma_matched_all(d.outputs, t.matched);
        assert forall|j: int| 0 <= j < pairs.len() implies (txs[(#[trigger] pairs[j]).0].read.finality->0).time
            == t.net_times[j] by {}
    }
}

/// Whether the rail shows a transfer that pays the meed leg of a round: to the instance, in
/// the baseline asset, moving the channel's own watermark to the round's target or beyond,
/// and final enough.
pub open spec fn pays_the_meed(
    tx: TxLeg,
    channel: [u8; 8],
    terms: TermsView,
    levels: Seq<Seq<char>>,
    instance_addr: Seq<char>,
    target_p: u128,
) -> bool {
    &&& tx.leg == 1
    &&& tx.read.info matches Some(info) && {
        &&& info.to@ == instance_addr
        &&& info.asset@ == terms.baseline_asset
        &&& info.advanced matches Some(fact) && {
            &&& fact.channel_id == channel
            &&& fact.seed_instance == terms.seed_instance
            &&& fact.funded_p >= target_p
        }
    }
    &&& tx.read.finality is Some
    &&& final_enough(levels, tx.read.finality, terms.fin_meed)
}

/// Whether the rail shows a transfer that pays an output of a round.
pub open spec fn pays_the_output(
    tx: TxLeg,
    output: OutputView,
    memo: [u8; 32],
    levels: Seq<Seq<char>>,
    required: Seq<char>,
) -> bool {
    &&& tx.leg == 2
    &&& tx.read.info matches Some(info) && {
        &&& info.to@ == output.dest
        &&& info.asset@ == output.asset
        &&& info.amount == output.amount
        &&& info.memo == Some(memo)
    }
    &&& tx.read.finality is Some
    &&& final_enough(levels, tx.read.finality, required)
}

proof fn lemma_tally_meed(
    channel: [u8; 8],
    terms: TermsView,
    levels: Seq<Seq<char>>,
    d: RoundView,
    facts: ProofFacts,
    txs: Seq<TxLeg>,
)
    requires
        tally_of(channel, terms, levels, d, facts, txs) is Some,
    ensures
        ({
            let t = tally_of(channel, terms, levels, d, facts, txs)->0;
            t.meed_time is Some ==> d.target_p is Some && exists|k: int|
                {
                    &&& 0 <= k < txs.len()
                    &&& #[trigger] pays_the_meed(
                        txs[k],
                        channel,
                        terms,
                        levels,
                        facts.instance_addr@,
                        d.target_p->0,
                    )
                    &&& (txs[k].read.finality->0).time == t.meed_time->0
                }
        }),
    decreases txs.len(),
{
    let t = tally_of(channel, terms, levels, d, facts, txs)->0;
    if txs.len() > 0 && t.meed_time is Some {
        let front = txs.drop_last();
        let n = txs.len() - 1;
        lemma_tally_meed(channel, terms, levels, d, facts, front);
        if txs.last().leg == 1 {
            assert(pays_the_meed(
                txs[n],
                channel,
                terms,
                levels,
                facts.instance_addr@,
                d.target_p->0,
            ));
        } else {
            let k = choose|k: int|
                {
                    &&& 0 <= k < front.len()
                    &&& #[trigger] pays_the_meed(
                        front[k],
                        channel,
                        terms,
                        levels,
                        facts.instance_addr@,
                        d.target_p->0,
                    )
                    &&& (front[k].read.finality->0).time == t.meed_time->0
                };
            assert(front[k] == txs[k]);
        }
    }
}

/// The meed that enters the ledger was paid on the rail: one of the proof's transfers moved
/// the channel's own watermark to the round's target, at the instance and final enough; and
/// it enters only where it is owed and has not entered.
pub proof fn law_settled_meed_moved_the_watermark(
    v: CarriageView,
    key: CheckpointKey,
    txs: Seq<TxLeg>,
    facts: ProofFacts,
    plan: ProofPlanView,
)
    requires
        proof_step(v, key, txs, facts) == ProofStepView::Settle(plan),
        plan.fold_meed,
    ensures
        v.rounds[key].meed_amount is Some,
        v.rounds[key].target_p is Some,
        !v.rounds[key].meed_folded,
        exists|k: int|
            {
                &&& 0 <= k < txs.len()
                &&& #[trigger] pays_the_meed(
                    txs[k],
                    key.channel,
                    v.driver.retained[key.channel].terms,
                    v.levels->0,
                    facts.instance_addr@,
                    v.rounds[key].target_p->0,
                )
                &&& plan.meed_time == Some((txs[k].read.finality->0).time)
            },
{
    lemma_tally_meed(
        key.channel,
        v.driver.retained[key.channel].terms,
        v.levels->0,
        v.rounds[key],
        facts,
        txs,
    );
}

proof fn lemma_tally_counts(
    channel: [u8; 8],
    terms: TermsView,
    levels: Seq<Seq<char>>,
    d: RoundView,
    facts: ProofFacts,
    txs: Seq<TxLeg>,
)
    requires
        tally_of(channel, terms, levels, d, facts, txs) is Some,
    ensures
        ({
            let t = tally_of(channel, terms, levels, d, facts, txs)->0;
            &&& forall|k: int|
                0 <= k < txs.len() ==> {
                    &&& (#[trigger] txs[k]).read.info is Some
                    &&& txs[k].leg == 1 || txs[k].leg == 2
                    &&& t.seen.contains((txs[k].read.info->0).canonical@)
                }
            &&& forall|i: int, j: int|
                0 <= i < j < txs.len() ==> ((#[trigger] txs[i]).read.info->0).canonical@ != ((
                #[trigger] txs[j]).read.info->0).canonical@
            &&& forall|i: int, j: int|
                0 <= i < j < txs.len() ==> !((#[trigger] txs[i]).leg == 1 && (#[trigger] txs[j]).leg == 1)
            &&& t.meed_time is None ==> forall|i: int| 0 <= i < txs.len() ==> (#[trigger] txs[i]).leg == 2
        }),
    decreases txs.len(),
{
    if txs.len() > 0 {
        let front = txs.drop_last();
        lemma_tally_counts(channel, terms, levels, d, facts, front);
        let before = tally_of(channel, terms, levels, d, facts, front)->0;
        let t = tally_of(channel, terms, levels, d, facts, txs)->0;
        assert forall|k: int| 0 <= k < front.len() implies front[k] == #[trigger] txs[k] by {}
        assert forall|k: int| 0 <= k < txs.len() implies {
            &&& (#[trigger] txs[k]).read.info is Some
            &&& txs[k].leg == 1 || txs[k].leg == 2
            &&& t.seen.contains((txs[k].read.info->0).canonical@)
        } by {
            if k < front.len() {
                assert(front[k] == txs[k]);
                assert(before.seen.contains((front[k].read.info->0).canonical@));
            }
        }
        assert forall|i: int, j: int| 0 <= i < j < txs.len() implies ((#[trigger] txs[i]).read.info->0).canonical@
            != ((#[trigger] txs[j]).read.info->0).canonical@ by {
            assert(front[i] == txs[i]);
            assert(before.seen.contains((front[i].read.info->0).canonical@));
            if j < front.len() {
                assert(front[j] == txs[j]);
            }
        }
        assert forall|i: int, j: int| 0 <= i < j < txs.len() implies !((#[trigger] txs[i]).leg == 1 && (
        #[trigger] txs[j]).leg == 1) by {
            assert(front[i] == txs[i]);
            if j < front.len() {
                assert(front[j] == txs[j]);
            }
        }
    }
}

/// A proof names nothing idle: every transfer of one that settles is known to the rail, is a
/// meed or a net leg, and is named once, under whatever name; and there is one meed leg at
/// most. One that names anything else settles nothing.
pub proof fn law_every_named_transfer_counts(
    v: CarriageView,
    key: CheckpointKey,
    txs: Seq<TxLeg>,
    facts: ProofFacts,
)
    requires
        proof_step(v, key, txs, facts) is Settle,
    ensures
        forall|k: int|
            0 <= k < txs.len() ==> (#[trigger] txs[k]).read.info is Some && (txs[k].leg == 1 || txs[k].leg
                == 2),
        forall|i: int, j: int|
            0 <= i < j < txs.len() ==> ((#[trigger] txs[i]).read.info->0).canonical@ != ((
            #[trigger] txs[j]).read.info->0).canonical@,
        forall|i: int, j: int|
            0 <= i < j < txs.len() ==> !((#[trigger] txs[i]).leg == 1 && (#[trigger] txs[j]).leg == 1),
{
    lemma_tally_counts(
        key.channel,
        v.driver.retained[key.channel].terms,
        v.levels->0,
        v.rounds[key],
        facts,
        txs,
    );
}

/// Whether a proof of the round at `key` is looked into: the channel and the round are
/// known, the round is held to a checkpoint and not complete, there is a rail, and nothing
/// else moved the ledger since the round was agreed.
pub open spec fn provable(v: CarriageView, key: CheckpointKey) -> bool {
    &&& v.rounds.dom().contains(key)
    &&& v.driver.retained.dom().contains(key.channel)
    &&& v.levels is Some
    &&& v.rounds[key].deterministic
    &&& !v.rounds[key].confirmed
    &&& v.rounds[key].ledger_version == (if v.ledger.dom().contains(key.channel) {
        v.ledger[key.channel].version
    } else {
        0
    })
}

/// A round is settled only where its proof may be looked into; a complete round gives its
/// receipt again, and one that no rail can verify keeps the proof.
pub proof fn law_only_an_open_round_settles(
    v: CarriageView,
    key: CheckpointKey,
    txs: Seq<TxLeg>,
    facts: ProofFacts,
)
    ensures
        proof_step(v, key, txs, facts) is Settle ==> provable(v, key),
        proof_step(v, key, txs, facts) is Reissue <==> v.rounds.dom().contains(key)
            && v.driver.retained.dom().contains(key.channel) && v.rounds[key].confirmed,
        proof_step(v, key, txs, facts) is Keep <==> v.rounds.dom().contains(key)
            && v.driver.retained.dom().contains(key.channel) && !v.rounds[key].confirmed && (v.levels is None
            || !v.rounds[key].deterministic),
        proof_step(v, key, txs, facts) matches ProofStepView::Settle(plan) ==> (plan.confirm
            ==> facts.receipt is Some),
{
}

proof fn lemma_tally_one(
    channel: [u8; 8],
    terms: TermsView,
    levels: Seq<Seq<char>>,
    d: RoundView,
    facts: ProofFacts,
    tx: TxLeg,
)
    ensures
        tally_of(channel, terms, levels, d, facts, seq![tx]) == counted(
            channel,
            terms,
            levels,
            d,
            facts,
            tally_of(channel, terms, levels, d, facts, Seq::empty())->0,
            tx,
        ),
        tally_of(channel, terms, levels, d, facts, Seq::empty()) is Some,
{
    assert(seq![tx].drop_last() =~= Seq::empty());
}

/// A round that is paid is confirmed: a proof that names the meed leg and then the one net
/// output, both as the rail shows them, enters both and completes the round.
pub proof fn law_paid_round_is_confirmed(
    v: CarriageView,
    key: CheckpointKey,
    meed: TxLeg,
    net: TxLeg,
    facts: ProofFacts,
)
    requires
        provable(v, key),
        ({
            let d = v.rounds[key];
            let terms = v.driver.retained[key.channel].terms;
            &&& d.meed_amount is Some
            &&& d.target_p is Some
            &&& !d.meed_folded
            &&& !d.net_folded
            &&& d.outputs.len() == 1
            &&& pays_the_meed(
                meed,
                key.channel,
                terms,
                v.levels->0,
                facts.instance_addr@,
                d.target_p->0,
            )
            &&& pays_the_output(net, d.outputs[0], facts.net_memo, v.levels->0, terms.fin_denom)
        }),
        (meed.read.info->0).canonical@ != (net.read.info->0).canonical@,
        (meed.read.finality->0).time <= (net.read.finality->0).time,
        !v.consumed.contains((net.read.info->0).canonical@),
        v.ledger.dom().contains(key.channel) ==> v.ledger[key.channel].net_legs_sum + (
        net.read.info->0).amount <= u128::MAX,
        facts.receipt is Some,
    ensures
        proof_step(v, key, seq![meed, net], facts) matches ProofStepView::Settle(plan) && {
            &&& plan.fold_meed
            &&& plan.fold_net
            &&& plan.confirm
            &&& plan.meed_time == Some((meed.read.finality->0).time)
            &&& plan.net_refs == seq![(net.read.info->0).canonical@]
            &&& plan.net_total == (net.read.info->0).amount
        },
{
    let d = v.rounds[key];
    let terms = v.driver.retained[key.channel].terms;
    let levels = v.levels->0;
    let both = seq![meed, net];
    assert(both.drop_last() =~= seq![meed]);
    assert(both.last() == net);
    lemma_tally_one(key.channel, terms, levels, d, facts, meed);
    let first = tally_of(key.channel, terms, levels, d, facts, seq![meed])->0;
    assert(paid_output(d.outputs, first.matched, net.read.info->0, 0) == Some(0int));
    let t = tally_of(key.channel, terms, levels, d, facts, both)->0;
    assert(t.matched =~= seq![true]);
    assert(t.net_refs =~= seq![(net.read.info->0).canonical@]);
    assert(d.outputs.drop_last() =~= Seq::empty());
    assert(outputs_sum(d.outputs.drop_last()) == 0);
}

/// A meed leg is settled by itself: a proof that names it alone enters the meed, and
/// completes a round that has no net to wait for.
pub proof fn law_meed_settles_alone(v: CarriageView, key: CheckpointKey, meed: TxLeg, facts: ProofFacts)
    requires
        provable(v, key),
        ({
            let d = v.rounds[key];
            &&& d.meed_amount is Some
            &&& d.target_p is Some
            &&& !d.meed_folded
            &&& pays_the_meed(
                meed,
                key.channel,
                v.driver.retained[key.channel].terms,
                v.levels->0,
                facts.instance_addr@,
                d.target_p->0,
            )
        }),
        facts.receipt is Some,
    ensures
        proof_step(v, key, seq![meed], facts) matches ProofStepView::Settle(plan) && {
            &&& plan.fold_meed
            &&& !plan.fold_net
            &&& plan.confirm == (v.rounds[key].net_folded || v.rounds[key].outputs.len() == 0)
            &&& plan.meed_time == Some((meed.read.finality->0).time)
        },
{
    let d = v.rounds[key];
    let terms = v.driver.retained[key.channel].terms;
    lemma_tally_one(key.channel, terms, v.levels->0, d, facts, meed);
    let t = tally_of(key.channel, terms, v.levels->0, d, facts, seq![meed])->0;
    if d.outputs.len() > 0 {
        assert(!t.matched[0]);
    }
}

/// A net leg is settled once its meed is, or where none is owed: a proof that names the one
/// net output alone then completes the round.
pub proof fn law_net_settles_after_its_meed(
    v: CarriageView,
    key: CheckpointKey,
    net: TxLeg,
    facts: ProofFacts,
)
    requires
        provable(v, key),
        ({
            let d = v.rounds[key];
            &&& d.meed_amount is Some ==> d.meed_folded && d.meed_final_time is Some
            &&& d.meed_final_time matches Some(time) ==> time <= (net.read.finality->0).time
            &&& !d.net_folded
            &&& d.outputs.len() == 1
            &&& pays_the_output(
                net,
                d.outputs[0],
                facts.net_memo,
                v.levels->0,
                v.driver.retained[key.channel].terms.fin_denom,
            )
        }),
        !v.consumed.contains((net.read.info->0).canonical@),
        v.ledger.dom().contains(key.channel) ==> v.ledger[key.channel].net_legs_sum + (
        net.read.info->0).amount <= u128::MAX,
        facts.receipt is Some,
    ensures
        proof_step(v, key, seq![net], facts) matches ProofStepView::Settle(plan) && {
            &&& !plan.fold_meed
            &&& plan.fold_net
            &&& plan.confirm
            &&& plan.net_refs == seq![(net.read.info->0).canonical@]
            &&& plan.net_total == (net.read.info->0).amount
        },
{
    let d = v.rounds[key];
    let terms = v.driver.retained[key.channel].terms;
    let levels = v.levels->0;
    lemma_tally_one(key.channel, terms, levels, d, facts, net);
    let none = tally_of(key.channel, terms, levels, d, facts, Seq::empty())->0;
    assert(paid_output(d.outputs, none.matched, net.read.info->0, 0) == Some(0int));
    let t = tally_of(key.channel, terms, levels, d, facts, seq![net])->0;
    assert(t.matched =~= seq![true]);
    assert(t.net_refs =~= seq![(net.read.info->0).canonical@]);
    assert(d.outputs.drop_last() =~= Seq::empty());
    assert(outputs_sum(d.outputs.drop_last()) == 0);
}

/// What a plan enters is all that it changes: the net legs rise by the net, each role's
/// settled meed by what the round extinguishes, funding stays, no other channel's ledger
/// and no other round changes, and the round notes what entered.
pub proof fn law_a_plan_moves_its_own_ledger(
    v: CarriageView,
    key: CheckpointKey,
    plan: ProofPlanView,
    role: u8,
)
    requires
        v.rounds.dom().contains(key),
        ascending(ledger_of(v, key.channel).settled_r),
        ascending(v.rounds[key].e_r),
        ledger_of(v, key.channel).net_legs_sum + plan.net_total <= u128::MAX,
    ensures
        ({
            let (d, led) = (v.rounds[key], ledger_of(v, key.channel));
            let after = settled(v, key, plan);
            let (d2, led2) = (after.rounds[key], ledger_of(after, key.channel));
            &&& led2.net_legs_sum == led.net_legs_sum + plan.net_total
            &&& led2.funding_sum == led.funding_sum
            &&& amount_of(led2.settled_r, role) == amount_of(led.settled_r, role) + if plan.fold_meed {
                amount_of(d.e_r, role)
            } else {
                0
            }
            &&& plan.fold_meed || plan.fold_net ==> led2.version != led.version
            &&& !plan.fold_meed && !plan.fold_net ==> led2.version == led.version
            &&& d2.ledger_version == led2.version
            &&& d2.meed_folded == (d.meed_folded || plan.fold_meed)
            &&& d2.net_folded == (d.net_folded || plan.fold_net)
            &&& d2.confirmed == (d.confirmed || plan.confirm)
            &&& plan.fold_meed ==> d2.meed_final_time == plan.meed_time
            &&& d2.outputs == d.outputs && d2.e_r == d.e_r && d2.target_p == d.target_p && d2.terms_fp
                == d.terms_fp
            &&& forall|k: CheckpointKey|
                k != key ==> (#[trigger] after.rounds.dom().contains(k) <==> v.rounds.dom().contains(k))
                    && after.rounds[k] == v.rounds[k]
            &&& forall|c: [u8; 8]| c != key.channel ==> #[trigger] ledger_of(after, c) == ledger_of(v, c)
            &&& after.consumed == v.consumed
            &&& after.channels == v.channels
            &&& after.operative == v.operative
            &&& after.chain == v.chain
            &&& after.imported == v.imported
        }),
{
    law_fold_is_exact(ledger_of(v, key.channel).settled_r, v.rounds[key].e_r, role);
}

/// What leaves the channel's balance for a plan is the whole units that the settled meed
/// gained, and the net; nothing leaves it for nothing.
pub proof fn law_a_plan_clears_what_it_enters(v: CarriageView, key: CheckpointKey, plan: ProofPlanView)
    ensures
        ({
            let held = total(ledger_of(v, key.channel).settled_r);
            let gained = if plan.fold_meed {
                total(v.rounds[key].e_r)
            } else {
                0
            };
            let gross = (held + gained) / 10_000 - held / 10_000 + plan.net_total;
            &&& gross == 0 ==> settle_effect(v, key, plan) == Effect::Nothing
            &&& 0 < gross <= u128::MAX ==> (settle_effect(v, key, plan) matches Effect::Settle {
                channel,
                gross: cleared,
            } && channel == key.channel && cleared == gross)
        }),
{
    lemma_credited_all_total(ledger_of(v, key.channel).settled_r, v.rounds[key].e_r);
}

/// A proof that was answered enters the ledger once: on a first claim the net legs rise by what
/// the plan pays, and the reply is the round's receipt where it is complete; a duplicate is
/// acknowledged and enters nothing, and one that could not be recorded changes nothing. Unless
/// it failed, exactly the plan's transfers are claimed.
pub proof fn law_an_answered_proof_enters_once(
    v: CarriageView,
    key: CheckpointKey,
    plan: ProofPlanView,
    receipt: Option<Vec<u8>>,
    outcome: ConsumeOutcome,
    after: CarriageView,
    r: Handled,
    name: Seq<char>,
)
    requires
        proof_answered(v, key, plan, receipt, outcome, after, r),
        v.rounds.dom().contains(key),
        ledger_of(v, key.channel).net_legs_sum + plan.net_total <= u128::MAX,
    ensures
        outcome == ConsumeOutcome::First ==> {
            &&& r.reply is Ok
            &&& ledger_of(after, key.channel).net_legs_sum == ledger_of(v, key.channel).net_legs_sum
                + plan.net_total
            &&& after.rounds[key].net_folded == (v.rounds[key].net_folded || plan.fold_net)
            &&& after.rounds[key].meed_folded == (v.rounds[key].meed_folded || plan.fold_meed)
            &&& after.rounds[key].confirmed == (v.rounds[key].confirmed || plan.confirm)
            &&& plan.net_total > 0 ==> (r.effect matches Effect::Settle { channel, gross } && channel
                == key.channel && gross >= plan.net_total)
            &&& plan.confirm ==> (r.reply matches Ok(Response::Message(m)) && m@ == seq![0x08u8] + (
            receipt->0)@)
        },
        outcome == ConsumeOutcome::Duplicate ==> {
            &&& r.reply is Ok
            &&& r.effect == Effect::Nothing
            &&& after.ledger == v.ledger
            &&& after.rounds == v.rounds
        },
        outcome == ConsumeOutcome::Failed ==> r.reply is Err && r.effect == Effect::Nothing && after == v,
        outcome != ConsumeOutcome::Failed ==> (after.consumed.contains(name) <==> v.consumed.contains(name)
            || plan.net_refs.contains(name)),
{
    assert(plan.net_refs.take(plan.net_refs.len() as int) =~= plan.net_refs);
    lemma_credited_all_total(ledger_of(v, key.channel).settled_r, v.rounds[key].e_r);
}

/// A proof that cannot be verified is kept as evidence, in the order of arrival, up to
/// sixty-four of them; nothing else of the round, and no ledger, changes.
pub proof fn law_evidence_is_kept_in_order(v: CarriageView, key: CheckpointKey, evidence: Seq<u8>)
    requires
        v.rounds.dom().contains(key),
    ensures
        ({
            let after = evidence_kept(v, key, evidence);
            let (d, d2) = (v.rounds[key], after.rounds[key]);
            &&& d.proofs.len() < 64 ==> d2.proofs == d.proofs.push(evidence)
            &&& d.proofs.len() >= 64 ==> d2.proofs == d.proofs
            &&& d2 == (RoundView { proofs: d2.proofs, ..d })
            &&& after.ledger == v.ledger
            &&& after.consumed == v.consumed
            &&& forall|k: CheckpointKey|
                k != key && #[trigger] v.rounds.dom().contains(k) ==> after.rounds[k] == v.rounds[k]
        }),
{
}

/// A proof that is settled settles something: it enters the meed, or the net, or completes the
/// round; it enters no leg twice, and a net leg only with its transfers.
pub proof fn law_a_settled_proof_settles_something(
    v: CarriageView,
    key: CheckpointKey,
    txs: Seq<TxLeg>,
    facts: ProofFacts,
)
    ensures
        proof_step(v, key, txs, facts) matches ProofStepView::Settle(plan) ==> {
            &&& plan.fold_meed || plan.fold_net || plan.confirm
            &&& plan.fold_meed ==> !v.rounds[key].meed_folded && v.rounds[key].meed_amount is Some
                && plan.meed_time is Some
            &&& plan.fold_net ==> !v.rounds[key].net_folded && plan.net_refs.len() > 0
            &&& !plan.fold_net ==> plan.net_refs.len() == 0 && plan.net_total == 0
            &&& plan.confirm ==> {
                &&& v.rounds[key].meed_amount is None || v.rounds[key].meed_folded || plan.fold_meed
                &&& v.rounds[key].net_folded || plan.fold_net || v.rounds[key].outputs.len() == 0
            }
        },
{
    if let ProofStepView::Settle(plan) = proof_step(v, key, txs, facts) {
        let d = v.rounds[key];
        let terms = v.driver.retained[key.channel].terms;
        lemma_matched_shape(key.channel, terms, v.levels->0, d, facts, txs);
        let t = tally_of(key.channel, terms, v.levels->0, d, facts, txs)->0;
        if d.outputs.len() > 0 && all_paid(t.matched) {
            assert(t.matched[0]);
        }
    }
}

proof fn lemma_matched_shape(
    channel: [u8; 8],
    terms: TermsView,
    levels: Seq<Seq<char>>,
    d: RoundView,
    facts: ProofFacts,
    txs: Seq<TxLeg>,
)
    requires
        tally_of(channel, terms, levels, d, facts, txs) is Some,
    ensures
        ({
            let t = tally_of(channel, terms, levels, d, facts, txs)->0;
            &&& t.matched.len() == d.outputs.len()
            &&& t.net_refs.len() == 0 ==> forall|i: int| 0 <= i < t.matched.len() ==> !t.matched[i]
        }),
    decreases txs.len(),
{
    if txs.len() > 0 {
        lemma_matched_shape(channel, terms, levels, d, facts, txs.drop_last());
        let before = tally_of(channel, terms, levels, d, facts, txs.drop_last())->0;
        lemma_paid_output_bounds(d.outputs, before.matched, txs.last().read.info->0, 0);
    }
}

/// A proof of an unknown channel or round is rejected, as is one that does not pay the round;
/// only where a receipt is owed and cannot be formed is a proof malformed.
pub proof fn law_a_refused_proof_is_told_why(
    v: CarriageView,
    key: CheckpointKey,
    txs: Seq<TxLeg>,
    facts: ProofFacts,
)
    ensures
        proof_step(v, key, txs, facts) matches ProofStepView::Refuse(e) ==> {
            ||| e == CarriageError::Rejected
            ||| e == CarriageError::Malformed && facts.receipt is None && provable(v, key)
        },
        !v.rounds.dom().contains(key) || !v.driver.retained.dom().contains(key.channel) ==> proof_step(
            v,
            key,
            txs,
            facts,
        ) == ProofStepView::Refuse(CarriageError::Rejected),
{
}

/// A proof that completes a round under a receipt is malformed without one.
pub proof fn law_no_round_completes_without_its_receipt(
    v: CarriageView,
    key: CheckpointKey,
    txs: Seq<TxLeg>,
    facts: ProofFacts,
    told: ProofFacts,
)
    requires
        told == (ProofFacts { receipt: None, ..facts }),
        proof_step(v, key, txs, facts) matches ProofStepView::Settle(plan) && plan.confirm,
    ensures
        proof_step(v, key, txs, told) == ProofStepView::Refuse(CarriageError::Malformed),
{
    lemma_tally_without_receipt(
        key.channel,
        v.driver.retained[key.channel].terms,
        v.levels->0,
        v.rounds[key],
        facts,
        told,
        txs,
    );
}

proof fn lemma_tally_without_receipt(
    channel: [u8; 8],
    terms: TermsView,
    levels: Seq<Seq<char>>,
    d: RoundView,
    facts: ProofFacts,
    told: ProofFacts,
    txs: Seq<TxLeg>,
)
    requires
        told == (ProofFacts { receipt: None, ..facts }),
    ensures
        tally_of(channel, terms, levels, d, told, txs) == tally_of(channel, terms, levels, d, facts, txs),
    decreases txs.len(),
{
    if txs.len() > 0 {
        lemma_tally_without_receipt(channel, terms, levels, d, facts, told, txs.drop_last());
    }
}

} // verus!
