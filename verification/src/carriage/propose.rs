//! Settlement proposals: the debtor says what a round pays, and the merchant
//! holds it to what the operative checkpoint owes.

use vstd::prelude::*;

use crate::bignat::{two_pow_256, BigNat};
use crate::bytes::same_array;
use crate::carriage::rounds::{recomputed, shares_view, target_of, RoundTerms};
use crate::carriage::settle::is_round;
use crate::carriage::{
    barred, ledger_of, mode_of, other_round_open, outputs_view, Carriage, CarriageError,
    CarriageView, Output, OutputView, Response, RoundDecision, RoundView, MAX_PROPOSAL_HASHES,
};
use crate::channel::{CheckpointKey, Mode, SettlementTerms, TermsView};
use crate::meed::{
    ascending, law_outstanding_is_unsettled, reconcilable, rows_nat, same_rows, total, unsettled,
};
use crate::one_decision::OneDecisionStore;
use crate::rail::irreversible;
use crate::table::Table;

verus! {

/// The meed leg of a proposal.
#[derive(Debug)]
pub struct InstanceLeg {
    pub amount: BigNat,
    pub extinguished: Vec<(u8, BigNat)>,
}

/// The conversion of a proposal that is not on the baseline asset.
#[derive(Debug)]
pub struct Conversion {
    pub rate: String,
    pub rate_time: u64,
    pub rate_exp: u64,
    pub rate_grace: u64,
}

/// A proposed settlement round.
#[derive(Debug)]
pub struct SettlementPropose {
    pub channel_id: [u8; 8],
    pub ckpt_ref: [u8; 32],
    pub outputs: Vec<Output>,
    pub instance_leg: Option<InstanceLeg>,
    pub conversion: Option<Conversion>,
    /// Whether the merchant's signature slot is filled.
    pub merchant_signed: bool,
}

/// What the caller found out about a proposal.
#[derive(Debug)]
pub struct ProposalFacts {
    /// Whether the debtor's signature verifies.
    pub verified: bool,
    /// The hash of the proposal's terms.
    pub terms_fp: [u8; 32],
    /// The hash of the proposal, where it can be formed.
    pub proposal_hash: Option<[u8; 32]>,
    /// The division of the owed meed among the roles, where it can be made.
    pub shares: Option<Vec<BigNat>>,
}

/// The round that a proposal names.
pub open spec fn round_key(p: SettlementPropose) -> CheckpointKey {
    CheckpointKey { channel: p.channel_id, ckpt_ref: p.ckpt_ref }
}

/// Whether every output goes to a destination bound at establishment, in the
/// channel's denomination.
pub open spec fn outputs_bound(terms: TermsView, outputs: Seq<OutputView>) -> bool {
    forall|i: int|
        0 <= i < outputs.len() ==> terms.bound_dests.contains((#[trigger] outputs[i]).dest)
            && outputs[i].asset == terms.denom
}

/// Whether a round at the proposal's checkpoint may stand: it is the operative
/// one, or the round has begun.
pub open spec fn anchored(v: CarriageView, p: SettlementPropose) -> bool {
    ||| v.operative.dom().contains(p.channel_id) && v.operative[p.channel_id].ckpt_ref == p.ckpt_ref
    ||| v.rounds.dom().contains(round_key(p))
}

/// Whether a proposal may be considered at all: an authenticated, single-signed
/// proposal on a postpay channel that is not rolling forward, at an irreversible
/// finality, with no other round in flight.
pub open spec fn proposable(v: CarriageView, p: SettlementPropose, verified: bool) -> bool {
    let channel = p.channel_id;
    &&& !barred(v, channel)
    &&& v.driver.retained.dom().contains(channel)
    &&& verified
    &&& !p.merchant_signed
    &&& mode_of(v, channel) != Some(Mode::Prepay)
    &&& irreversible(
        v.levels,
        v.driver.retained[channel].terms.fin_meed,
        v.driver.retained[channel].terms.fin_denom,
    )
    &&& !other_round_open(v, channel, Some(p.ckpt_ref))
    &&& anchored(v, p)
}

/// Whether a proposed meed leg is the one that is owed: it reaches the watermark
/// and extinguishes each role's share, and there is one only where meed is owed.
pub open spec fn leg_matches(
    leg: Option<InstanceLeg>,
    target_p: Option<u128>,
    e_r: Seq<(u8, nat)>,
) -> bool {
    match (leg, target_p) {
        (Some(l), Some(p)) => l.amount@ == p && rows_nat(l.extinguished@) == e_r,
        (None, None) => true,
        _ => false,
    }
}

/// The carriage once a proposal is accepted, or why it is refused.
pub open spec fn proposed(v: CarriageView, p: SettlementPropose, facts: ProposalFacts) -> Result<
    CarriageView,
    CarriageError,
> {
    let channel = p.channel_id;
    let key = round_key(p);
    let terms = v.driver.retained[channel].terms;
    if !proposable(v, p, facts.verified) {
        Err(CarriageError::Rejected)
    } else if p.conversion is Some != terms.conversion_required {
        Err(CarriageError::Malformed)
    } else if !outputs_bound(terms, outputs_view(p.outputs@)) {
        Err(CarriageError::Rejected)
    } else if v.rounds.dom().contains(key) {
        let d = v.rounds[key];
        if d.terms_fp != facts.terms_fp {
            Err(CarriageError::Rejected)
        } else {
            match facts.proposal_hash {
                None => Err(CarriageError::Malformed),
                Some(hash) => if !d.proposal_hashes.contains(hash) && d.proposal_hashes.len()
                    >= MAX_PROPOSAL_HASHES {
                    Err(CarriageError::Rejected)
                } else {
                    Ok(
                        CarriageView {
                            rounds: v.rounds.insert(
                                key,
                                RoundView { proposal_hashes: d.proposal_hashes.insert(hash), ..d },
                            ),
                            ..v
                        },
                    )
                },
            }
        }
    } else if p.conversion is Some {
        Err(CarriageError::Rejected)
    } else {
        match recomputed(v, channel, shares_view(facts.shares)) {
            None => Err(CarriageError::Rejected),
            Some(owed) => {
                let target_p = match owed.meed_amount {
                    Some(_) => target_of(v, channel, v.operative[channel].accruals),
                    None => None,
                };
                if outputs_view(p.outputs@) != owed.outputs || owed.meed_amount is Some != target_p is Some
                    || !leg_matches(p.instance_leg, target_p, owed.e_r) {
                    Err(CarriageError::Rejected)
                } else {
                    match facts.proposal_hash {
                        None => Err(CarriageError::Malformed),
                        Some(hash) => Ok(
                            CarriageView {
                                rounds: v.rounds.insert(
                                    key,
                                    RoundView {
                                        terms_fp: facts.terms_fp,
                                        proposal_hashes: set![hash],
                                        proofs: Seq::empty(),
                                        outputs: owed.outputs,
                                        meed_amount: owed.meed_amount,
                                        e_r: owed.e_r,
                                        meed_folded: false,
                                        net_folded: false,
                                        meed_final_time: None,
                                        deterministic: true,
                                        ledger_version: ledger_of(v, channel).version,
                                        confirmed: false,
                                        draw_ref: None,
                                        target_p,
                                    },
                                ),
                                ..v
                            },
                        ),
                    }
                }
            },
        }
    }
}

/// Whether at most one round of each channel is in flight.
pub open spec fn serial(v: CarriageView) -> bool {
    forall|a: CheckpointKey, b: CheckpointKey|
        #![trigger v.rounds.dom().contains(a), v.rounds.dom().contains(b)]
        {
            &&& v.rounds.dom().contains(a)
            &&& v.rounds.dom().contains(b)
            &&& a.channel == b.channel
            &&& !v.rounds[a].confirmed
            &&& !v.rounds[b].confirmed
        } ==> a == b
}

fn same_outputs(a: &Vec<Output>, b: &Vec<Output>) -> (r: bool)
    ensures
        r == (outputs_view(a@) == outputs_view(b@)),
{
    if a.len() != b.len() {
        assert(outputs_view(a@).len() != outputs_view(b@).len());
        return false;
    }
    let mut i: usize = 0;
    while i < a.len()
        invariant
            i <= a@.len(),
            a@.len() == b@.len(),
            forall|j: int| 0 <= j < i ==> (#[trigger] a@[j])@ == b@[j]@,
        decreases a@.len() - i,
    {
        if !a[i].amount.same(&b[i].amount) || a[i].asset != b[i].asset || a[i].dest != b[i].dest {
            assert(outputs_view(a@)[i as int] != outputs_view(b@)[i as int]);
            return false;
        }
        i = i + 1;
    }
    assert(outputs_view(a@) =~= outputs_view(b@));
    true
}

fn dest_bound(terms: &SettlementTerms, dest: &String) -> (r: bool)
    ensures
        r == terms@.bound_dests.contains(dest@),
{
    let mut i: usize = 0;
    while i < terms.bound_dests.len()
        invariant
            i <= terms.bound_dests@.len(),
            forall|j: int| 0 <= j < i ==> (#[trigger] terms.bound_dests@[j])@ != dest@,
        decreases terms.bound_dests@.len() - i,
    {
        if terms.bound_dests[i] == *dest {
            assert(terms@.bound_dests[i as int] == dest@);
            return true;
        }
        i = i + 1;
    }
    assert(!terms@.bound_dests.contains(dest@)) by {
        if terms@.bound_dests.contains(dest@) {
            let j = choose|j: int|
                0 <= j < terms@.bound_dests.len() && terms@.bound_dests[j] == dest@;
            assert(terms.bound_dests@[j]@ == dest@);
        }
    }
    false
}

fn check_outputs(terms: &SettlementTerms, outputs: &Vec<Output>) -> (r: bool)
    ensures
        r == outputs_bound(terms@, outputs_view(outputs@)),
{
    let mut i: usize = 0;
    while i < outputs.len()
        invariant
            i <= outputs@.len(),
            forall|j: int|
                0 <= j < i ==> terms@.bound_dests.contains(
                    (#[trigger] outputs_view(outputs@)[j]).dest,
                ) && outputs_view(outputs@)[j].asset == terms@.denom,
        decreases outputs@.len() - i,
    {
        assert(outputs_view(outputs@)[i as int] == outputs@[i as int]@);
        if !dest_bound(terms, &outputs[i].dest) || outputs[i].asset != terms.denom {
            return false;
        }
        i = i + 1;
    }
    true
}

fn check_leg(leg: &Option<InstanceLeg>, target_p: Option<u128>, e_r: &Vec<(u8, BigNat)>) -> (r: bool)
    ensures
        r == leg_matches(*leg, target_p, rows_nat(e_r@)),
{
    match (leg, target_p) {
        (Some(l), Some(p)) => l.amount.same(&BigNat::from_u128(p)) && same_rows(&l.extinguished, e_r),
        (None, None) => true,
        _ => false,
    }
}

impl<S: OneDecisionStore> Carriage<S> {
    /// A round of the channel, other than the one at `but`, that is not complete.
    pub fn find_open_round(&self, channel: &[u8; 8], but: &Option<[u8; 32]>) -> (r: Option<CheckpointKey>)
        ensures
            match r {
                Some(k) => {
                    &&& self@.rounds.dom().contains(k)
                    &&& k.channel == *channel
                    &&& *but != Some(k.ckpt_ref)
                    &&& !self@.rounds[k].confirmed
                },
                None => !other_round_open(self@, *channel, *but),
            },
    {
        let n: usize = self.rounds.len();
        let mut i: usize = 0;
        while i < n
            invariant
                i <= n,
                n == self.rounds.keys().len(),
                forall|k: CheckpointKey|
                    self.rounds@.dom().contains(k) <==> self.rounds.keys().contains(k),
                forall|j: int|
                    0 <= j < i ==> {
                        let k = #[trigger] self.rounds.keys()[j];
                        k.channel != channel || *but == Some(k.ckpt_ref) || self.rounds@[k].confirmed
                    },
            decreases n - i,
        {
            let k: CheckpointKey = self.rounds.key_at(i);
            let named: bool = match but {
                Some(b) => same_array(&k.ckpt_ref, b),
                None => false,
            };
            if same_array(&k.channel, channel) && !named {
                if let Some(d) = self.rounds.get(&k) {
                    if !d.confirmed {
                        return Some(k);
                    }
                }
            }
            i = i + 1;
        }
        assert forall|k: CheckpointKey| #[trigger] self@.rounds.dom().contains(k) implies k.channel
            != channel || *but == Some(k.ckpt_ref) || self@.rounds[k].confirmed by {
            assert(self.rounds.keys().contains(k));
            let j = choose|j: int| 0 <= j < self.rounds.keys().len() && self.rounds.keys()[j] == k;
            assert(self.rounds.keys()[j] == k);
        }
        None
    }

    /// Whether a round of the channel, other than the one at `but`, is not
    /// complete.
    pub fn has_open_round(&self, channel: &[u8; 8], but: &Option<[u8; 32]>) -> (r: bool)
        ensures
            r == other_round_open(self@, *channel, *but),
    {
        match self.find_open_round(channel, but) {
            Some(k) => {
                assert(self@.rounds.dom().contains(k));
                true
            },
            None => false,
        }
    }

    fn check_proposable(&self, p: &SettlementPropose, verified: bool) -> (r: bool)
        ensures
            r == proposable(self@, *p, verified),
    {
        let terms: &SettlementTerms = match self.driver.settlement_terms(&p.channel_id) {
            Some(terms) => terms,
            None => return false,
        };
        if self.bars_new_round(&p.channel_id) || !verified || p.merchant_signed {
            return false;
        }
        if let Some(m) = self.channels.get(&p.channel_id) {
            if m.mode == Mode::Prepay {
                return false;
            }
        }
        if !self.finality_is_irreversible(&terms.fin_meed, &terms.fin_denom) {
            return false;
        }
        if self.has_open_round(&p.channel_id, &Some(p.ckpt_ref)) {
            return false;
        }
        let key: CheckpointKey = CheckpointKey { channel: p.channel_id, ckpt_ref: p.ckpt_ref };
        let operative: bool = match self.operative.get(&p.channel_id) {
            Some(op) => same_array(&op.ckpt_ref, &p.ckpt_ref),
            None => false,
        };
        operative || self.rounds.contains(&key)
    }

    /// Answers a settlement proposal: accepted where it is the round that is owed,
    /// or a retry of it with the same terms.
    pub fn on_settlement_propose(&mut self, p: &SettlementPropose, facts: &ProposalFacts) -> (r: Result<
        Response,
        CarriageError,
    >)
        requires
            old(self).wf(),
        ensures
            final(self).wf(),
            old(self).same_store(*final(self)),
            match proposed(old(self)@, *p, *facts) {
                Ok(after) => r == Ok::<Response, CarriageError>(Response::Accepted) && final(self)@ == after,
                Err(e) => r == Err::<Response, CarriageError>(e) && final(self)@ == old(self)@,
            },
    {
        if !self.check_proposable(p, facts.verified) {
            return Err(CarriageError::Rejected);
        }
        let terms: &SettlementTerms = match self.driver.settlement_terms(&p.channel_id) {
            Some(terms) => terms,
            None => return Err(CarriageError::Rejected),
        };
        if p.conversion.is_some() != terms.conversion_required {
            return Err(CarriageError::Malformed);
        }
        if !check_outputs(terms, &p.outputs) {
            return Err(CarriageError::Rejected);
        }
        let key: CheckpointKey = CheckpointKey { channel: p.channel_id, ckpt_ref: p.ckpt_ref };
        if self.rounds.contains(&key) {
            self.retry_round(&key, facts)
        } else {
            self.begin_round(&key, p, facts)
        }
    }

    fn retry_round(&mut self, key: &CheckpointKey, facts: &ProposalFacts) -> (r: Result<
        Response,
        CarriageError,
    >)
        requires
            old(self).wf(),
            old(self)@.rounds.dom().contains(*key),
        ensures
            final(self).wf(),
            old(self).same_store(*final(self)),
            ({
                let d = old(self)@.rounds[*key];
                if d.terms_fp != facts.terms_fp {
                    r == Err::<Response, CarriageError>(CarriageError::Rejected) && final(self)@ == old(self)@
                } else {
                    match facts.proposal_hash {
                        None => r == Err::<Response, CarriageError>(CarriageError::Malformed) && final(self)@
                            == old(self)@,
                        Some(hash) => if !d.proposal_hashes.contains(hash) && d.proposal_hashes.len()
                            >= MAX_PROPOSAL_HASHES {
                            r == Err::<Response, CarriageError>(CarriageError::Rejected) && final(self)@
                                == old(self)@
                        } else {
                            r == Ok::<Response, CarriageError>(Response::Accepted) && final(self)@ == (
                            CarriageView {
                                rounds: old(self)@.rounds.insert(
                                    *key,
                                    RoundView { proposal_hashes: d.proposal_hashes.insert(hash), ..d },
                                ),
                                ..old(self)@
                            })
                        },
                    }
                }
            }),
    {
        let full: bool = match self.rounds.get(key) {
            Some(d) => {
                if !same_array(&d.terms_fp, &facts.terms_fp) {
                    return Err(CarriageError::Rejected);
                }
                match &facts.proposal_hash {
                    Some(hash) => !d.proposal_hashes.contains(hash) && d.proposal_hashes.count()
                        >= MAX_PROPOSAL_HASHES,
                    None => return Err(CarriageError::Malformed),
                }
            },
            None => return Err(CarriageError::Rejected),
        };
        if full {
            return Err(CarriageError::Rejected);
        }
        if let (Some(d), Some(hash)) = (self.rounds.remove(key), facts.proposal_hash) {
            let mut d: RoundDecision = d;
            d.proposal_hashes.insert(hash, true);
            let ghost after: RoundView = d@;
            self.rounds.insert(*key, d);
            proof {
                let before = old(self)@.rounds[*key];
                assert(after =~= (RoundView {
                    proposal_hashes: before.proposal_hashes.insert(hash),
                    ..before
                }));
                assert(self@.rounds =~= old(self)@.rounds.insert(*key, after));
            }
        }
        Ok(Response::Accepted)
    }

    fn begin_round(&mut self, key: &CheckpointKey, p: &SettlementPropose, facts: &ProposalFacts) -> (r: Result<
        Response,
        CarriageError,
    >)
        requires
            old(self).wf(),
            *key == round_key(*p),
            proposable(old(self)@, *p, facts.verified),
            !old(self)@.rounds.dom().contains(*key),
            (p.conversion is Some) == old(self)@.driver.retained[p.channel_id].terms.conversion_required,
            outputs_bound(
                old(self)@.driver.retained[p.channel_id].terms,
                outputs_view(p.outputs@),
            ),
        ensures
            final(self).wf(),
            old(self).same_store(*final(self)),
            match proposed(old(self)@, *p, *facts) {
                Ok(after) => r == Ok::<Response, CarriageError>(Response::Accepted) && final(self)@ == after,
                Err(e) => r == Err::<Response, CarriageError>(e) && final(self)@ == old(self)@,
            },
    {
        if p.conversion.is_some() {
            return Err(CarriageError::Rejected);
        }
        let owed: RoundTerms = match self.recompute_round(&p.channel_id, &facts.shares) {
            Some(owed) => owed,
            None => return Err(CarriageError::Rejected),
        };
        if !same_outputs(&p.outputs, &owed.outputs) {
            return Err(CarriageError::Rejected);
        }
        let target_p: Option<u128> = match owed.meed_amount {
            Some(_) => {
                let target: Option<u128> = match self.operative.get(&p.channel_id) {
                    Some(op) => self.cumulative_target_p(&p.channel_id, &op.accruals),
                    None => None,
                };
                if target.is_none() {
                    return Err(CarriageError::Rejected);
                }
                target
            },
            None => None,
        };
        if !check_leg(&p.instance_leg, target_p, &owed.e_r) {
            return Err(CarriageError::Rejected);
        }
        let hash: [u8; 32] = match facts.proposal_hash {
            Some(hash) => hash,
            None => return Err(CarriageError::Malformed),
        };
        let (_, _, ledger_version): (u128, u128, u64) = self.ledger_sums(&p.channel_id);
        let mut proposal_hashes: Table<[u8; 32], bool> = Table::new();
        proposal_hashes.insert(hash, true);
        let d: RoundDecision = RoundDecision {
            terms_fp: facts.terms_fp,
            proposal_hashes,
            proofs: Vec::new(),
            outputs: owed.outputs,
            meed_amount: owed.meed_amount,
            e_r: owed.e_r,
            meed_folded: false,
            net_folded: false,
            meed_final_time: None,
            deterministic: true,
            ledger_version,
            confirmed: false,
            draw_ref: None,
            target_p,
        };
        proof {
            let want = (proposed(old(self)@, *p, *facts)->Ok_0).rounds[*key];
            assert(d@.proposal_hashes =~= set![hash]);
            assert(d@.proofs =~= Seq::empty());
            assert(d@ =~= want);
        }
        self.rounds.insert(*key, d);
        Ok(Response::Accepted)
    }
}

/// Accepting a proposal never puts two rounds of one channel in flight.
pub proof fn law_propose_keeps_rounds_serial(
    v: CarriageView,
    p: SettlementPropose,
    facts: ProposalFacts,
)
    requires
        serial(v),
    ensures
        proposed(v, p, facts) matches Ok(after) ==> serial(after),
{
    if let Ok(after) = proposed(v, p, facts) {
        let key = round_key(p);
        assert forall|a: CheckpointKey, b: CheckpointKey|
            #![trigger after.rounds.dom().contains(a), after.rounds.dom().contains(b)]
            {
                &&& after.rounds.dom().contains(a)
                &&& after.rounds.dom().contains(b)
                &&& a.channel == b.channel
                &&& !after.rounds[a].confirmed
                &&& !after.rounds[b].confirmed
            } implies a == b by {
            if a != key {
                assert(v.rounds.dom().contains(a));
            }
            if b != key {
                assert(v.rounds.dom().contains(b));
            }
            if a == key && b != key {
                assert(!other_round_open(v, p.channel_id, Some(p.ckpt_ref)));
            }
            if b == key && a != key {
                assert(!other_round_open(v, p.channel_id, Some(p.ckpt_ref)));
            }
        }
    }
}

/// A round is what its checkpoint owes: an accepted new round pays the merchant
/// exactly the outstanding net, and names the meed leg exactly where meed is owed.
pub proof fn law_new_round_is_owed(v: CarriageView, p: SettlementPropose, facts: ProposalFacts)
    requires
        !v.rounds.dom().contains(round_key(p)),
        proposed(v, p, facts) is Ok,
    ensures
        ({
            let owed = recomputed(v, p.channel_id, shares_view(facts.shares))->0;
            &&& recomputed(v, p.channel_id, shares_view(facts.shares)) is Some
            &&& outputs_view(p.outputs@) == owed.outputs
            &&& p.instance_leg is Some == owed.meed_amount is Some
            &&& p.instance_leg matches Some(leg) ==> rows_nat(leg.extinguished@) == owed.e_r && Some(
                leg.amount@,
            ) == Some(
                target_of(v, p.channel_id, v.operative[p.channel_id].accruals)->0 as nat,
            )
        }),
{
}

/// A round's terms are decided once: a later proposal for the same checkpoint with
/// other terms is refused.
pub proof fn law_round_terms_are_final(v: CarriageView, p: SettlementPropose, facts: ProposalFacts)
    requires
        v.rounds.dom().contains(round_key(p)),
        v.rounds[round_key(p)].terms_fp != facts.terms_fp,
    ensures
        proposed(v, p, facts) is Err,
{
}

/// Whether a channel owes whole units of meed at its operative checkpoint.
pub open spec fn owes_meed(v: CarriageView, channel: [u8; 8]) -> bool {
    unsettled(v.operative[channel].accruals, ledger_of(v, channel).settled_r) >= 10_000
}

/// A new round is what its checkpoint leaves to be paid. Its one output, the carve of the
/// checkpoint's accruals, the net legs settled so far and the funding credited so far make
/// up the checkpoint's cumulative total, and there is an output exactly where they fall
/// short of it; it goes to the settlement pointer, in the channel's denomination. Its meed
/// leg is there exactly where whole units of meed are unsettled, and brings the watermark
/// to the whole units of what the channel itself accrued.
pub proof fn law_new_round_pays_the_rest(
    v: CarriageView,
    p: SettlementPropose,
    facts: ProposalFacts,
    after: CarriageView,
)
    requires
        !v.rounds.dom().contains(round_key(p)),
        proposed(v, p, facts) == Ok::<CarriageView, CarriageError>(after),
    ensures
        ({
            let channel = p.channel_id;
            let op = v.operative[channel];
            let led = ledger_of(v, channel);
            let terms = v.driver.retained[channel].terms;
            let taken = total(op.accruals) / 10_000 + led.net_legs_sum + led.funding_sum;
            &&& v.operative.dom().contains(channel)
            &&& op.ckpt_ref == p.ckpt_ref
            &&& p.outputs@.len() == (if taken < op.cum_total {
                1int
            } else {
                0
            })
            &&& p.outputs@.len() == 1 ==> {
                &&& p.outputs@[0].amount@ + taken == op.cum_total
                &&& p.outputs@[0].asset@ == terms.denom
                &&& p.outputs@[0].dest@ == terms.settle_ptr
            }
            &&& p.instance_leg is Some == owes_meed(v, channel)
            &&& p.instance_leg matches Some(leg) ==> {
                &&& leg.amount@ > 0
                &&& leg.amount@ == unsettled(op.accruals, if v.imported.dom().contains(channel) {
                    v.imported[channel].opening_settled_r
                } else {
                    Seq::empty()
                }) / 10_000
                &&& facts.shares is Some
                &&& forall|i: int|
                    0 <= i < leg.extinguished@.len() ==> {
                        &&& (#[trigger] leg.extinguished@[i]).0 == op.accruals[i].0
                        &&& leg.extinguished@[i].1@ == (facts.shares->0)@[i]@
                    }
                &&& (facts.shares->0)@.len() >= op.accruals.len() ==> leg.extinguished@.len()
                    == op.accruals.len()
            }
        }),
{
    let channel = p.channel_id;
    let op = v.operative[channel];
    let owed = recomputed(v, channel, shares_view(facts.shares))->0;
    law_outstanding_is_unsettled(op.accruals, ledger_of(v, channel).settled_r);
    law_outstanding_is_unsettled(
        op.accruals,
        if v.imported.dom().contains(channel) {
            v.imported[channel].opening_settled_r
        } else {
            Seq::empty()
        },
    );
    assert(outputs_view(p.outputs@).len() == p.outputs@.len());
    if p.outputs@.len() == 1 {
        assert(outputs_view(p.outputs@)[0] == p.outputs@[0]@);
    }
    if let Some(leg) = p.instance_leg {
        let rows = rows_nat(leg.extinguished@);
        assert(rows == owed.e_r);
        assert forall|i: int| 0 <= i < leg.extinguished@.len() implies {
            &&& (#[trigger] leg.extinguished@[i]).0 == op.accruals[i].0
            &&& leg.extinguished@[i].1@ == (facts.shares->0)@[i]@
        } by {
            assert(rows[i] == (leg.extinguished@[i].0, leg.extinguished@[i].1@));
            assert(owed.e_r[i] == (op.accruals[i].0, shares_view(facts.shares)->0[i]));
        }
    }
}

/// A new round is agreed on what it says, and nothing else changes: it is held to the
/// proposed outputs and meed leg, its legs have yet to enter the ledger, and it stands on
/// the ledger as it is.
pub proof fn law_new_round_is_recorded(
    v: CarriageView,
    p: SettlementPropose,
    facts: ProposalFacts,
    after: CarriageView,
)
    requires
        !v.rounds.dom().contains(round_key(p)),
        proposed(v, p, facts) == Ok::<CarriageView, CarriageError>(after),
    ensures
        ({
            let key = CheckpointKey { channel: p.channel_id, ckpt_ref: p.ckpt_ref };
            let d = after.rounds[key];
            &&& after.rounds.dom() == v.rounds.dom().insert(key)
            &&& after == (CarriageView { rounds: after.rounds, ..v })
            &&& forall|k: CheckpointKey|
                k != key && #[trigger] v.rounds.dom().contains(k) ==> after.rounds[k] == v.rounds[k]
            &&& d.outputs.len() == p.outputs@.len()
            &&& forall|i: int|
                0 <= i < p.outputs@.len() ==> {
                    &&& d.outputs[i].amount == (#[trigger] p.outputs@[i]).amount@
                    &&& d.outputs[i].asset == p.outputs@[i].asset@
                    &&& d.outputs[i].dest == p.outputs@[i].dest@
                }
            &&& d.target_p is Some == p.instance_leg is Some
            &&& d.meed_amount is Some == p.instance_leg is Some
            &&& p.instance_leg matches Some(leg) ==> {
                &&& d.target_p->0 == leg.amount@
                &&& d.e_r == rows_nat(leg.extinguished@)
                &&& d.meed_amount->0 == unsettled(
                    v.operative[p.channel_id].accruals,
                    ledger_of(v, p.channel_id).settled_r,
                ) / 10_000
            }
            &&& d.terms_fp == facts.terms_fp
            &&& facts.proposal_hash is Some
            &&& forall|hash: [u8; 32]| #[trigger]
                d.proposal_hashes.contains(hash) <==> hash == facts.proposal_hash->0
            &&& d.proofs.len() == 0
            &&& !d.meed_folded && !d.net_folded && !d.confirmed && d.deterministic
            &&& d.meed_final_time is None
            &&& d.draw_ref is None
            &&& d.ledger_version == ledger_of(v, p.channel_id).version
        }),
{
    let key = round_key(p);
    law_outstanding_is_unsettled(
        v.operative[p.channel_id].accruals,
        ledger_of(v, p.channel_id).settled_r,
    );
    assert(after.rounds.dom() =~= v.rounds.dom().insert(key));
    assert forall|i: int| 0 <= i < p.outputs@.len() implies after.rounds[key].outputs[i] == (
    #[trigger] p.outputs@[i])@ by {
        assert(outputs_view(p.outputs@)[i] == p.outputs@[i]@);
    }
}

/// Only a debtor that may propose is heard: on a known postpay channel whose position is not
/// rolling forward, under the debtor's signature and no other, at the rail's last finality,
/// at the operative checkpoint or one that a round has begun at, and while no other round of
/// the channel is in flight.
pub proof fn law_only_a_debtor_proposes(v: CarriageView, p: SettlementPropose, facts: ProposalFacts)
    requires
        proposed(v, p, facts) is Ok,
    ensures
        ({
            let channel = p.channel_id;
            let terms = v.driver.retained[channel].terms;
            &&& v.driver.retained.dom().contains(channel)
            &&& facts.verified
            &&& !p.merchant_signed
            &&& v.channels.dom().contains(channel) ==> v.channels[channel].mode == Mode::Postpay
            &&& v.chain.dom().contains(channel) ==> v.chain[channel] is Reconciled
            &&& v.levels matches Some(levels) ==> levels.len() > 0 && terms.fin_meed == levels[levels.len()
                - 1] && terms.fin_denom == levels[levels.len() - 1]
            &&& forall|k: CheckpointKey| #[trigger]
                v.rounds.dom().contains(k) && k.channel == channel && !v.rounds[k].confirmed ==> k.ckpt_ref
                    == p.ckpt_ref
            &&& v.rounds.dom().contains(CheckpointKey { channel, ckpt_ref: p.ckpt_ref }) || (
            v.operative.dom().contains(channel) && v.operative[channel].ckpt_ref == p.ckpt_ref)
            &&& p.conversion is Some == terms.conversion_required
            &&& forall|i: int|
                0 <= i < p.outputs@.len() ==> (#[trigger] p.outputs@[i]).asset@ == terms.denom
                    && terms.bound_dests.contains(p.outputs@[i].dest@)
        }),
{
    assert forall|i: int| 0 <= i < p.outputs@.len() implies (#[trigger] p.outputs@[i]).asset@
        == v.driver.retained[p.channel_id].terms.denom
        && v.driver.retained[p.channel_id].terms.bound_dests.contains(p.outputs@[i].dest@) by {
        assert(outputs_view(p.outputs@)[i] == p.outputs@[i]@);
    }
}

/// A proposal of exactly what is owed is accepted: its output makes up the checkpoint's
/// cumulative total with the carve, the net legs and the funding, and its meed leg brings
/// the watermark to what the channel accrued, extinguishing the given share of each role.
pub proof fn law_owed_round_is_accepted(v: CarriageView, p: SettlementPropose, facts: ProposalFacts)
    requires
        !v.rounds.dom().contains(round_key(p)),
        v.driver.retained.dom().contains(p.channel_id),
        v.operative.dom().contains(p.channel_id),
        v.operative[p.channel_id].ckpt_ref == p.ckpt_ref,
        v.chain.dom().contains(p.channel_id) ==> v.chain[p.channel_id] is Reconciled,
        v.channels.dom().contains(p.channel_id) ==> v.channels[p.channel_id].mode == Mode::Postpay,
        facts.verified,
        !p.merchant_signed,
        facts.proposal_hash is Some,
        facts.shares is Some,
        p.conversion is None,
        !v.driver.retained[p.channel_id].terms.conversion_required,
        v.levels matches Some(levels) ==> {
            &&& levels.len() > 0
            &&& v.driver.retained[p.channel_id].terms.fin_meed == levels[levels.len() - 1]
            &&& v.driver.retained[p.channel_id].terms.fin_denom == levels[levels.len() - 1]
        },
        forall|k: CheckpointKey| #[trigger]
            v.rounds.dom().contains(k) && k.channel == p.channel_id ==> v.rounds[k].confirmed,
        v.driver.retained[p.channel_id].terms.bound_dests.contains(
            v.driver.retained[p.channel_id].terms.settle_ptr,
        ),
        ({
            let op = v.operative[p.channel_id];
            let led = ledger_of(v, p.channel_id);
            let terms = v.driver.retained[p.channel_id].terms;
            let taken = total(op.accruals) / 10_000 + led.net_legs_sum + led.funding_sum;
            let before = if v.imported.dom().contains(p.channel_id) {
                v.imported[p.channel_id].opening_settled_r
            } else {
                Seq::empty()
            };
            &&& op.cum_total < two_pow_256()
            &&& ascending(op.accruals)
            &&& reconcilable(op.accruals, led.settled_r)
            &&& unsettled(op.accruals, led.settled_r) / 10_000 <= u128::MAX
            &&& if taken < op.cum_total {
                &&& p.outputs@.len() == 1
                &&& p.outputs@[0].amount@ + taken == op.cum_total
                &&& p.outputs@[0].asset@ == terms.denom
                &&& p.outputs@[0].dest@ == terms.settle_ptr
            } else {
                p.outputs@.len() == 0
            }
            &&& (facts.shares->0)@.len() == op.accruals.len()
            &&& if owes_meed(v, p.channel_id) {
                &&& reconcilable(op.accruals, before)
                &&& 0 < unsettled(op.accruals, before) / 10_000 <= u128::MAX
                &&& p.instance_leg matches Some(leg) && {
                    &&& leg.amount@ == unsettled(op.accruals, before) / 10_000
                    &&& leg.extinguished@.len() == op.accruals.len()
                    &&& forall|i: int|
                        0 <= i < leg.extinguished@.len() ==> {
                            &&& (#[trigger] leg.extinguished@[i]).0 == op.accruals[i].0
                            &&& leg.extinguished@[i].1@ == (facts.shares->0)@[i]@
                        }
                }
            } else {
                p.instance_leg is None
            }
        }),
    ensures
        proposed(v, p, facts) is Ok,
{
    let channel = p.channel_id;
    let op = v.operative[channel];
    let led = ledger_of(v, channel);
    let before = if v.imported.dom().contains(channel) {
        v.imported[channel].opening_settled_r
    } else {
        Seq::empty()
    };
    law_outstanding_is_unsettled(op.accruals, led.settled_r);
    law_outstanding_is_unsettled(op.accruals, before);
    assert(proposable(v, p, facts.verified));
    let outputs = outputs_view(p.outputs@);
    assert(outputs.len() == p.outputs@.len());
    if outputs.len() == 1 {
        assert(outputs[0] == p.outputs@[0]@);
    }
    let owed = recomputed(v, channel, shares_view(facts.shares))->0;
    assert(recomputed(v, channel, shares_view(facts.shares)) is Some);
    assert(outputs =~= owed.outputs);
    if let Some(leg) = p.instance_leg {
        let rows = rows_nat(leg.extinguished@);
        assert forall|i: int| 0 <= i < rows.len() implies #[trigger] rows[i] == owed.e_r[i] by {
            assert(rows[i] == (leg.extinguished@[i].0, leg.extinguished@[i].1@));
            assert(owed.e_r[i] == (op.accruals[i].0, shares_view(facts.shares)->0[i]));
        }
        assert(rows =~= owed.e_r);
    }
}

/// A proposal of an agreed round is accepted again under the same terms, and changes nothing
/// but that the round knows one more proposal by its hash.
pub proof fn law_agreed_round_is_accepted_again(v: CarriageView, p: SettlementPropose, facts: ProposalFacts)
    requires
        v.rounds.dom().contains(round_key(p)),
        proposed(v, p, facts) is Ok,
    ensures
        ({
            let key = round_key(p);
            let after = proposed(v, p, facts)->Ok_0;
            let (d, d2) = (v.rounds[key], after.rounds[key]);
            &&& facts.terms_fp == d.terms_fp
            &&& facts.proposal_hash is Some
            &&& d2 == (RoundView { proposal_hashes: d2.proposal_hashes, ..d })
            &&& forall|hash: [u8; 32]| #[trigger]
                d2.proposal_hashes.contains(hash) <==> d.proposal_hashes.contains(hash) || hash
                    == facts.proposal_hash->0
            &&& after == (CarriageView { rounds: v.rounds.insert(key, d2), ..v })
        }),
{
}

/// A retry of an agreed round is accepted: under the agreed terms, from a debtor that may still
/// propose, with a proposal that the round knows or has room for among its sixty-four.
pub proof fn law_a_retry_is_accepted(v: CarriageView, p: SettlementPropose, facts: ProposalFacts)
    requires
        v.rounds.dom().contains(round_key(p)),
        v.driver.retained.dom().contains(p.channel_id),
        v.chain.dom().contains(p.channel_id) ==> v.chain[p.channel_id] is Reconciled,
        v.channels.dom().contains(p.channel_id) ==> v.channels[p.channel_id].mode == Mode::Postpay,
        facts.verified,
        !p.merchant_signed,
        v.levels matches Some(levels) ==> {
            &&& levels.len() > 0
            &&& v.driver.retained[p.channel_id].terms.fin_meed == levels[levels.len() - 1]
            &&& v.driver.retained[p.channel_id].terms.fin_denom == levels[levels.len() - 1]
        },
        forall|k: CheckpointKey| #[trigger]
            v.rounds.dom().contains(k) && k.channel == p.channel_id && k.ckpt_ref != p.ckpt_ref
                ==> v.rounds[k].confirmed,
        p.conversion is Some == v.driver.retained[p.channel_id].terms.conversion_required,
        forall|i: int|
            0 <= i < p.outputs@.len() ==> (#[trigger] p.outputs@[i]).asset@
                == v.driver.retained[p.channel_id].terms.denom
                && v.driver.retained[p.channel_id].terms.bound_dests.contains(p.outputs@[i].dest@),
        facts.terms_fp == v.rounds[round_key(p)].terms_fp,
        facts.proposal_hash is Some,
        v.rounds[round_key(p)].proposal_hashes.contains(facts.proposal_hash->0)
            || v.rounds[round_key(p)].proposal_hashes.len() < 64,
    ensures
        proposed(v, p, facts) is Ok,
{
    let terms = v.driver.retained[p.channel_id].terms;
    let outputs = outputs_view(p.outputs@);
    assert forall|i: int| 0 <= i < outputs.len() implies terms.bound_dests.contains(
        (#[trigger] outputs[i]).dest,
    ) && outputs[i].asset == terms.denom by {
        assert(outputs[i] == p.outputs@[i]@);
    }
    assert(proposable(v, p, facts.verified));
}

/// A round that knows sixty-four proposals takes no other.
pub proof fn law_a_round_knows_sixty_four_proposals(v: CarriageView, p: SettlementPropose, facts: ProposalFacts)
    requires
        v.rounds.dom().contains(round_key(p)),
        v.rounds[round_key(p)].proposal_hashes.len() >= 64,
        proposed(v, p, facts) is Ok,
    ensures
        v.rounds[round_key(p)].proposal_hashes.contains(facts.proposal_hash->0),
{
}

/// A proposal that would be accepted is refused as malformed where its conversion is there
/// against the channel's terms, or missing against them, or where its hash cannot be formed;
/// and it is rejected where the debtor's signature does not verify or the merchant's is there
/// already.
pub proof fn law_a_refused_proposal_is_told_why(
    v: CarriageView,
    p: SettlementPropose,
    facts: ProposalFacts,
    q: SettlementPropose,
    told: ProposalFacts,
)
    requires
        proposed(v, p, facts) is Ok,
        q == (SettlementPropose {
            conversion: q.conversion,
            merchant_signed: q.merchant_signed,
            ..p
        }),
        told == (ProposalFacts {
            verified: told.verified,
            proposal_hash: told.proposal_hash,
            ..facts
        }),
    ensures
        !told.verified || q.merchant_signed ==> proposed(v, q, told) == Err::<CarriageView, CarriageError>(
            CarriageError::Rejected,
        ),
        told.verified && !q.merchant_signed && q.conversion is Some != p.conversion is Some ==> proposed(
            v,
            q,
            told,
        ) == Err::<CarriageView, CarriageError>(CarriageError::Malformed),
        told.verified && q == p && told.proposal_hash is None ==> proposed(v, q, told) == Err::<
            CarriageView,
            CarriageError,
        >(CarriageError::Malformed),
{
    assert(proposable(v, p, true));
    if told.verified && !q.merchant_signed {
        assert(round_key(q) == round_key(p));
        assert(proposable(v, q, true));
    }
}

/// A proof of an accepted proposal finds the round that the proposal agreed, by its channel and
/// hash, and a proof of another channel does not.
pub proof fn law_a_proof_finds_its_round(
    v: CarriageView,
    p: SettlementPropose,
    facts: ProposalFacts,
    after: CarriageView,
    other: [u8; 8],
)
    requires
        proposed(v, p, facts) == Ok::<CarriageView, CarriageError>(after),
        other != p.channel_id,
    ensures
        is_round(after, p.channel_id, facts.proposal_hash->0, round_key(p)),
        !is_round(after, other, facts.proposal_hash->0, round_key(p)),
        forall|hash: [u8; 32]| #[trigger]
            is_round(after, p.channel_id, hash, round_key(p)) && hash != facts.proposal_hash->0
                ==> v.rounds.dom().contains(round_key(p)) && v.rounds[round_key(p)].proposal_hashes.contains(
                hash,
            ),
{
}

/// A round can be begun without a conversion only: a proposal that carries one, at a checkpoint
/// where no round has begun, is refused.
pub proof fn law_no_round_begins_with_a_conversion(v: CarriageView, p: SettlementPropose, facts: ProposalFacts)
    requires
        !v.rounds.dom().contains(round_key(p)),
        p.conversion is Some,
    ensures
        proposed(v, p, facts) is Err,
{
}

} // verus!
