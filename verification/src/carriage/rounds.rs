//! What a settlement round owes, recomputed from the operative checkpoint and
//! the ledger, and how a completed round enters the ledger.

use vstd::prelude::*;

use crate::bignat::{two_pow_256, BigNat};
use crate::carriage::{
    ledger_of, mode_of, Carriage, CarriageView, Ledger, LedgerView, Operative, Output, OutputView,
    RoundDecision, RoundView, outputs_view,
};
use crate::channel::{CheckpointKey, Mode, SettlementTerms};
use crate::meed::{
    amount_of, ascending, carve, credit_all, credited_all, law_all_is_unsettled_at_first, law_carve_dust,
    law_outstanding_completes_settled, law_outstanding_is_unsettled, lemma_settled_fits, roles_within,
    meed_carve, outstanding, outstanding_meed_per_role, outstanding_merchant_net, owed_net,
    reconcilable, roles_ascend, rows_nat, total, unsettled,
};
use crate::one_decision::OneDecisionStore;

verus! {

/// What a round owes.
#[derive(Debug)]
pub struct RoundTerms {
    /// The meed, where at least one unit is owed.
    pub meed_amount: Option<u128>,
    /// What the round extinguishes, per role.
    pub e_r: Vec<(u8, BigNat)>,
    /// The merchant's net, where any is owed.
    pub outputs: Vec<Output>,
}

/// What [`RoundTerms`] say.
#[verifier::ext_equal]
pub struct RoundTermsView {
    pub meed_amount: Option<u128>,
    pub e_r: Seq<(u8, nat)>,
    pub outputs: Seq<OutputView>,
}

impl View for RoundTerms {
    type V = RoundTermsView;

    open spec fn view(&self) -> RoundTermsView {
        RoundTermsView {
            meed_amount: self.meed_amount,
            e_r: rows_nat(self.e_r@),
            outputs: outputs_view(self.outputs@),
        }
    }
}

/// The numbers of an optional list.
pub open spec fn shares_view(shares: Option<Vec<BigNat>>) -> Option<Seq<nat>> {
    match shares {
        Some(s) => Some(s@.map_values(|n: BigNat| n@)),
        None => None,
    }
}

/// The shares, each under the role of its row.
pub open spec fn under_roles(rows: Seq<(u8, nat)>, shares: Seq<nat>) -> Seq<(u8, nat)> {
    Seq::new(
        if rows.len() <= shares.len() {
            rows.len()
        } else {
            shares.len()
        },
        |i: int| (rows[i].0, shares[i]),
    )
}

/// The meed that a channel's operative checkpoint still owes, per role; `None`
/// where there is no checkpoint, or its history is inconsistent.
pub open spec fn owed_meed(v: CarriageView, channel: [u8; 8]) -> Option<Seq<(u8, nat)>> {
    if !v.operative.dom().contains(channel) || !v.driver.retained.dom().contains(channel) {
        None
    } else {
        let accrued = v.operative[channel].accruals;
        let settled = ledger_of(v, channel).settled_r;
        if ascending(accrued) && reconcilable(accrued, settled) {
            Some(outstanding(accrued, settled))
        } else {
            None
        }
    }
}

/// What a round of `channel` owes now; `shares` is the division of the owed meed
/// among the roles. `None` where no round can be settled.
pub open spec fn recomputed(
    v: CarriageView,
    channel: [u8; 8],
    shares: Option<Seq<nat>>,
) -> Option<RoundTermsView> {
    match (owed_meed(v, channel), shares) {
        (Some(owed), Some(shares)) => {
            let op = v.operative[channel];
            let led = ledger_of(v, channel);
            let terms = v.driver.retained[channel].terms;
            let p = carve(owed);
            let net = owed_net(
                op.cum_total,
                op.accruals,
                led.net_legs_sum as nat,
                led.funding_sum as nat,
            );
            if op.cum_total >= two_pow_256() || p > u128::MAX {
                None
            } else {
                Some(
                    RoundTermsView {
                        meed_amount: if p > 0 {
                            Some(p as u128)
                        } else {
                            None
                        },
                        e_r: under_roles(op.accruals, shares),
                        outputs: if net > 0 {
                            seq![OutputView { amount: net, asset: terms.denom, dest: terms.settle_ptr }]
                        } else {
                            Seq::empty()
                        },
                    },
                )
            }
        },
        _ => None,
    }
}

/// What a channel's predecessor had settled when it was imported, per role.
pub open spec fn imported_settled(v: CarriageView, channel: [u8; 8]) -> Seq<(u8, nat)> {
    if v.imported.dom().contains(channel) {
        v.imported[channel].opening_settled_r
    } else {
        Seq::empty()
    }
}

/// The watermark that the meed of `channel` has to reach: the carve of what the
/// channel itself accrued, over what its predecessor had settled. `None` where it
/// is zero or the history is inconsistent.
pub open spec fn target_of(
    v: CarriageView,
    channel: [u8; 8],
    accruals: Seq<(u8, nat)>,
) -> Option<u128> {
    let imported = imported_settled(v, channel);
    if ascending(accruals) && reconcilable(accruals, imported) {
        let p = carve(outstanding(accruals, imported));
        if 0 < p <= u128::MAX {
            Some(p as u128)
        } else {
            None
        }
    } else {
        None
    }
}

/// The evidenced accruals of a channel and their checkpoint: its own operative
/// checkpoint, or else the one it imported.
pub open spec fn evidenced(v: CarriageView, channel: [u8; 8]) -> Option<([u8; 32], Seq<(u8, nat)>)> {
    if v.operative.dom().contains(channel) {
        Some((v.operative[channel].ckpt_ref, v.operative[channel].accruals))
    } else if v.imported.dom().contains(channel) {
        Some((v.imported[channel].ckpt_ref, v.imported[channel].accruals))
    } else {
        None
    }
}

/// The carve draw that a plain close owes to the instance, with its checkpoint:
/// only a prepay channel's, and never on live metering.
pub open spec fn draw_owed(v: CarriageView, channel: [u8; 8]) -> Option<([u8; 32], u128)> {
    if mode_of(v, channel) == Some(Mode::Prepay) && v.driver.retained.dom().contains(channel)
        && !v.driver.retained[channel].terms.conversion_required {
        match evidenced(v, channel) {
            Some((ckpt_ref, accruals)) => match target_of(v, channel, accruals) {
                Some(target_p) => Some((ckpt_ref, target_p)),
                None => None,
            },
            None => None,
        }
    } else {
        None
    }
}

/// The rows whose number fits in 256 bits.
pub open spec fn fitting(rows: Seq<(u8, nat)>) -> Seq<(u8, nat)> {
    rows.filter(|row: (u8, nat)| row.1 < two_pow_256())
}

/// The carve as a `u128`; zero where it does not fit.
pub open spec fn small_carve(rows: Seq<(u8, nat)>) -> u128 {
    let c = carve(fitting(rows));
    if c <= u128::MAX {
        c as u128
    } else {
        0
    }
}

/// `a - b`, and never below zero.
pub open spec fn less(a: u128, b: u128) -> u128 {
    if a >= b {
        (a - b) as u128
    } else {
        0
    }
}

/// The part of the whole-chain carve that no watermark distributes.
pub open spec fn dust_of(v: CarriageView, channel: [u8; 8]) -> u128 {
    match evidenced(v, channel) {
        Some((_, accruals)) => {
            let target = match target_of(v, channel, accruals) {
                Some(p) => p,
                None => 0,
            };
            less(less(small_carve(accruals), small_carve(imported_settled(v, channel))), target)
        },
        None => 0,
    }
}

/// A ledger once a round's extinguished meed is in it.
pub open spec fn meed_entered(led: LedgerView, e_r: Seq<(u8, nat)>) -> LedgerView {
    LedgerView { settled_r: credited_all(led.settled_r, e_r), ..led }
}

/// The next ledger version.
pub open spec fn bumped(version: u64) -> u64 {
    if version == u64::MAX {
        0
    } else {
        (version + 1) as u64
    }
}

/// The carriage once the merchant's own draw for a round is complete: what the
/// round extinguishes is in the ledger, once, and the round is complete.
pub open spec fn draw_folded(
    v: CarriageView,
    key: CheckpointKey,
    e_r: Seq<(u8, nat)>,
    final_time: Option<u64>,
) -> CarriageView {
    if !v.rounds.dom().contains(key) || v.rounds[key].meed_folded {
        v
    } else {
        let led = ledger_of(v, key.channel);
        let version = bumped(led.version);
        CarriageView {
            ledger: v.ledger.insert(key.channel, LedgerView { version, ..meed_entered(led, e_r) }),
            rounds: v.rounds.insert(
                key,
                RoundView {
                    meed_folded: true,
                    net_folded: true,
                    confirmed: true,
                    meed_final_time: final_time,
                    ledger_version: version,
                    ..v.rounds[key]
                },
            ),
            ..v
        }
    }
}

pub(super) fn next_version(version: u64) -> (r: u64)
    ensures
        r == bumped(version),
{
    if version == u64::MAX {
        0
    } else {
        version + 1
    }
}

fn small_carve_of(rows: &Vec<(u8, BigNat)>) -> (r: u128)
    ensures
        r == small_carve(rows_nat(rows@)),
{
    let ghost s: Seq<(u8, nat)> = rows_nat(rows@);
    let ghost fits: spec_fn((u8, nat)) -> bool = |row: (u8, nat)| row.1 < two_pow_256();
    let mut sum: BigNat = BigNat::zero();
    let mut i: usize = 0;
    proof {
        reveal(Seq::filter);
        assert(s.take(0) =~= Seq::empty());
        assert(s.take(0).filter(fits) =~= Seq::empty());
    }
    while i < rows.len()
        invariant
            i <= rows@.len(),
            s == rows_nat(rows@),
            fits == (|row: (u8, nat)| row.1 < two_pow_256()),
            sum@ == total(s.take(i as int).filter(fits)),
        decreases rows@.len() - i,
    {
        proof {
            reveal(Seq::filter);
            let next = s.take(i + 1);
            assert(next.drop_last() =~= s.take(i as int));
            assert(next.last() == s[i as int]);
            let kept = s.take(i as int).filter(fits);
            if fits(s[i as int]) {
                assert(next.filter(fits) == kept.push(s[i as int]));
                assert(kept.push(s[i as int]).drop_last() =~= kept);
            }
        }
        if rows[i].1.fits_256() {
            sum = sum.plus(&rows[i].1);
        }
        i = i + 1;
    }
    assert(s.take(rows@.len() as int) =~= s);
    match sum.over(10_000).to_u128() {
        Some(n) => n,
        None => 0,
    }
}

impl<S: OneDecisionStore> Carriage<S> {
    /// The meed that a channel's operative checkpoint still owes, per role.
    pub fn round_outstanding(&self, channel: &[u8; 8]) -> (r: Option<Vec<(u8, BigNat)>>)
        ensures
            match r {
                Some(rows) => owed_meed(self@, *channel) == Some(rows_nat(rows@)),
                None => owed_meed(self@, *channel) is None,
            },
    {
        let op: &Operative = match self.operative.get(channel) {
            Some(op) => op,
            None => return None,
        };
        if self.driver.settlement_terms(channel).is_none() || !roles_ascend(&op.accruals) {
            return None;
        }
        match self.ledger.get(channel) {
            Some(led) => outstanding_meed_per_role(&op.accruals, &led.settled_r),
            None => {
                let none: Vec<(u8, BigNat)> = Vec::new();
                assert(rows_nat(none@) =~= Seq::empty());
                outstanding_meed_per_role(&op.accruals, &none)
            },
        }
    }

    /// The sums of a channel's ledger: net legs, funding, version.
    pub(super) fn ledger_sums(&self, channel: &[u8; 8]) -> (r: (u128, u128, u64))
        ensures
            r.0 == ledger_of(self@, *channel).net_legs_sum,
            r.1 == ledger_of(self@, *channel).funding_sum,
            r.2 == ledger_of(self@, *channel).version,
    {
        match self.ledger.get(channel) {
            Some(led) => (led.net_legs_sum, led.funding_sum, led.version),
            None => (0, 0, 0),
        }
    }

    /// Takes a channel's ledger out, to be put back changed.
    pub(super) fn take_ledger(&mut self, channel: &[u8; 8]) -> (led: Ledger)
        ensures
            led@ == ledger_of(old(self)@, *channel),
            final(self)@ == (CarriageView {
                ledger: old(self)@.ledger.remove(*channel),
                ..old(self)@
            }),
            final(self).decisions == old(self).decisions,
    {
        match self.ledger.remove(channel) {
            Some(led) => led,
            None => {
                let settled_r: Vec<(u8, BigNat)> = Vec::new();
                assert(rows_nat(settled_r@) =~= Seq::empty());
                Ledger { settled_r, net_legs_sum: 0, funding_sum: 0, version: 0 }
            },
        }
    }

    /// What a round of the channel owes now. `shares` is the division of
    /// [`Carriage::round_outstanding`] among the roles, where it can be made.
    pub fn recompute_round(
        &self,
        channel: &[u8; 8],
        shares: &Option<Vec<BigNat>>,
    ) -> (r: Option<RoundTerms>)
        ensures
            match r {
                Some(terms) => recomputed(self@, *channel, shares_view(*shares)) == Some(terms@),
                None => recomputed(self@, *channel, shares_view(*shares)) is None,
            },
    {
        let owed: Vec<(u8, BigNat)> = match self.round_outstanding(channel) {
            Some(owed) => owed,
            None => return None,
        };
        let (op, terms): (&Operative, &SettlementTerms) = match (
            self.operative.get(channel),
            self.driver.settlement_terms(channel),
        ) {
            (Some(op), Some(terms)) => (op, terms),
            _ => return None,
        };
        let shares: &Vec<BigNat> = match shares {
            Some(shares) => shares,
            None => return None,
        };
        if !op.cum_total.fits_256() {
            return None;
        }
        let p: u128 = match meed_carve(&owed).to_u128() {
            Some(p) => p,
            None => return None,
        };
        let (net_legs, funding, _version): (u128, u128, u64) = self.ledger_sums(channel);
        let net: BigNat = outstanding_merchant_net(&op.cum_total, &op.accruals, net_legs, funding);
        let mut e_r: Vec<(u8, BigNat)> = Vec::new();
        let mut i: usize = 0;
        while i < op.accruals.len() && i < shares.len()
            invariant
                i <= op.accruals@.len(),
                i <= shares@.len(),
                e_r@.len() == i,
                forall|j: int|
                    0 <= j < i ==> (#[trigger] e_r@[j]).0 == op.accruals@[j].0 && e_r@[j].1@
                        == shares@[j]@,
            decreases shares@.len() - i,
        {
            e_r.push((op.accruals[i].0, shares[i].copy()));
            i = i + 1;
        }
        let mut outputs: Vec<Output> = Vec::new();
        if BigNat::zero().less(&net) {
            outputs.push(
                Output { amount: net, asset: terms.denom.clone(), dest: terms.settle_ptr.clone() },
            );
        }
        let r: RoundTerms = RoundTerms {
            meed_amount: if p > 0 {
                Some(p)
            } else {
                None
            },
            e_r,
            outputs,
        };
        proof {
            let want = recomputed(self@, *channel, shares_view(Some(*shares)))->0;
            assert(r@.e_r =~= want.e_r);
            assert(r@.outputs =~= want.outputs);
        }
        Some(r)
    }

    /// The watermark that the meed of a channel has to reach for `accruals`.
    pub fn cumulative_target_p(&self, channel: &[u8; 8], accruals: &Vec<(u8, BigNat)>) -> (r: Option<u128>)
        ensures
            r == target_of(self@, *channel, rows_nat(accruals@)),
    {
        if !roles_ascend(accruals) {
            return None;
        }
        let owed: Option<Vec<(u8, BigNat)>> = match self.imported_basis.get(channel) {
            Some(b) => outstanding_meed_per_role(accruals, &b.opening_settled_r),
            None => {
                let none: Vec<(u8, BigNat)> = Vec::new();
                assert(rows_nat(none@) =~= Seq::empty());
                outstanding_meed_per_role(accruals, &none)
            },
        };
        match owed {
            Some(owed) => match meed_carve(&owed).to_u128() {
                Some(p) => if p > 0 {
                    Some(p)
                } else {
                    None
                },
                None => None,
            },
            None => None,
        }
    }

    /// The carve draw that a plain close of the channel owes to the instance.
    pub fn compute_pending_draw(&self, channel: &[u8; 8]) -> (r: Option<([u8; 32], u128)>)
        ensures
            r == draw_owed(self@, *channel),
    {
        match self.channels.get(channel) {
            Some(m) => if m.mode != Mode::Prepay {
                return None;
            },
            None => return None,
        }
        match self.driver.settlement_terms(channel) {
            Some(terms) => if terms.conversion_required {
                return None;
            },
            None => return None,
        }
        if let Some(op) = self.operative.get(channel) {
            return match self.cumulative_target_p(channel, &op.accruals) {
                Some(p) => Some((op.ckpt_ref, p)),
                None => None,
            };
        }
        match self.imported_basis.get(channel) {
            Some(b) => match self.cumulative_target_p(channel, &b.accruals) {
                Some(p) => Some((b.ckpt_ref, p)),
                None => None,
            },
            None => None,
        }
    }

    /// The part of the whole-chain carve that no watermark distributes: a line of
    /// its own in the merchant's books.
    pub fn reconciliation_dust(&self, channel: &[u8; 8]) -> (r: u128)
        ensures
            r == dust_of(self@, *channel),
    {
        let accruals: &Vec<(u8, BigNat)> = match self.operative.get(channel) {
            Some(op) => &op.accruals,
            None => match self.imported_basis.get(channel) {
                Some(b) => &b.accruals,
                None => return 0,
            },
        };
        let imported: u128 = match self.imported_basis.get(channel) {
            Some(b) => small_carve_of(&b.opening_settled_r),
            None => {
                proof {
                    reveal(Seq::filter);
                    assert(fitting(Seq::empty()) =~= Seq::empty());
                }
                0
            },
        };
        let target: u128 = match self.cumulative_target_p(channel, accruals) {
            Some(p) => p,
            None => 0,
        };
        small_carve_of(accruals).saturating_sub(imported).saturating_sub(target)
    }

    /// Enters what the merchant's own draw extinguished into the ledger, once, and
    /// completes the round. The channel's balance does not move: the deposit was
    /// taken when it was consumed.
    pub fn fold_interim_round(
        &mut self,
        key: &CheckpointKey,
        e_r: &Vec<(u8, BigNat)>,
        final_time: Option<u64>,
    )
        requires
            old(self).wf(),
        ensures
            final(self).wf(),
            old(self).same_store(*final(self)),
            final(self)@ == draw_folded(old(self)@, *key, rows_nat(e_r@), final_time),
    {
        match self.rounds.get(key) {
            Some(d) => if d.meed_folded {
                return;
            },
            None => return,
        }
        let mut led: Ledger = self.take_ledger(&key.channel);
        credit_all(&mut led.settled_r, e_r);
        led.version = next_version(led.version);
        let version: u64 = led.version;
        self.ledger.insert(key.channel, led);
        if let Some(d) = self.rounds.remove(key) {
            let mut d: RoundDecision = d;
            d.meed_folded = true;
            d.net_folded = true;
            d.confirmed = true;
            d.meed_final_time = final_time;
            d.ledger_version = version;
            self.rounds.insert(*key, d);
        }
        assert(self@ =~= draw_folded(old(self)@, *key, rows_nat(e_r@), final_time));
    }
}

proof fn lemma_fitting_all(rows: Seq<(u8, nat)>)
    requires
        forall|i: int| 0 <= i < rows.len() ==> (#[trigger] rows[i]).1 < two_pow_256(),
    ensures
        fitting(rows) == rows,
    decreases rows.len(),
{
    reveal(Seq::filter);
    if rows.len() > 0 {
        let front = rows.drop_last();
        assert forall|i: int| 0 <= i < front.len() implies (#[trigger] front[i]).1 < two_pow_256() by {
            assert(front[i] == rows[i]);
        }
        lemma_fitting_all(front);
        assert(rows[rows.len() - 1].1 < two_pow_256());
        assert(fitting(rows) =~= rows);
    }
}

/// The reconciliation dust is at most one unit per hop, and none on a channel
/// whose predecessor had settled nothing.
pub proof fn law_dust_is_at_most_one(v: CarriageView, channel: [u8; 8])
    requires
        evidenced(v, channel) is Some,
        ({
            let accruals = (evidenced(v, channel)->0).1;
            let imported = imported_settled(v, channel);
            &&& ascending(accruals)
            &&& ascending(imported)
            &&& reconcilable(accruals, imported)
            &&& roles_within(imported, accruals)
            &&& carve(accruals) <= u128::MAX
        }),
    ensures
        dust_of(v, channel) <= 1,
        imported_settled(v, channel).len() == 0 ==> dust_of(v, channel) == 0,
{
    let accruals = (evidenced(v, channel)->0).1;
    let imported = imported_settled(v, channel);
    law_outstanding_completes_settled(accruals, imported);
    lemma_settled_fits(accruals, imported);
    assert forall|i: int| 0 <= i < accruals.len() implies (#[trigger] accruals[i]).1 < two_pow_256() by {}
    lemma_fitting_all(accruals);
    lemma_fitting_all(imported);
    law_carve_dust(total(accruals), total(imported));
}

/// The carve of the whole chain is accounted for: what the predecessors had settled, what
/// this channel's watermark distributes, and the dust.
pub proof fn law_carve_is_accounted_for(v: CarriageView, channel: [u8; 8])
    requires
        evidenced(v, channel) is Some,
        ({
            let accruals = (evidenced(v, channel)->0).1;
            let imported = imported_settled(v, channel);
            &&& ascending(accruals)
            &&& ascending(imported)
            &&& reconcilable(accruals, imported)
            &&& roles_within(imported, accruals)
            &&& carve(accruals) <= u128::MAX
        }),
    ensures
        ({
            let accruals = (evidenced(v, channel)->0).1;
            let target = match target_of(v, channel, accruals) {
                Some(p) => p,
                None => 0,
            };
            carve(accruals) == carve(imported_settled(v, channel)) + target + dust_of(v, channel)
        }),
{
    let accruals = (evidenced(v, channel)->0).1;
    let imported = imported_settled(v, channel);
    law_outstanding_completes_settled(accruals, imported);
    lemma_settled_fits(accruals, imported);
    assert forall|i: int| 0 <= i < accruals.len() implies (#[trigger] accruals[i]).1 < two_pow_256() by {}
    lemma_fitting_all(accruals);
    lemma_fitting_all(imported);
    law_carve_dust(total(accruals), total(imported));
}

/// What a round owes is what its checkpoint leaves: the merchant's net is the cumulative
/// total less the carve, the net legs and the funding, its meed the whole units that are
/// unsettled, and each role is extinguished by its share.
pub proof fn law_a_round_owes_the_rest(
    v: CarriageView,
    channel: [u8; 8],
    shares: Seq<nat>,
    owed: RoundTermsView,
)
    requires
        recomputed(v, channel, Some(shares)) == Some(owed),
    ensures
        ({
            let op = v.operative[channel];
            let led = ledger_of(v, channel);
            let terms = v.driver.retained[channel].terms;
            let taken = total(op.accruals) / 10_000 + led.net_legs_sum + led.funding_sum;
            let whole = unsettled(op.accruals, led.settled_r) / 10_000;
            &&& v.operative.dom().contains(channel)
            &&& op.cum_total <= taken ==> owed.outputs.len() == 0
            &&& taken < op.cum_total ==> {
                &&& owed.outputs.len() == 1
                &&& owed.outputs[0].amount + taken == op.cum_total
                &&& owed.outputs[0].asset == terms.denom
                &&& owed.outputs[0].dest == terms.settle_ptr
            }
            &&& owed.meed_amount is Some <==> whole > 0
            &&& owed.meed_amount matches Some(p) ==> p == whole
            &&& forall|i: int|
                0 <= i < owed.e_r.len() ==> (#[trigger] owed.e_r[i]).0 == op.accruals[i].0 && owed.e_r[i].1
                    == shares[i]
            &&& shares.len() == op.accruals.len() ==> owed.e_r.len() == shares.len()
        }),
{
    law_outstanding_is_unsettled(v.operative[channel].accruals, ledger_of(v, channel).settled_r);
}

/// The watermark of a channel is the whole units of what it accrued over what its predecessor
/// had settled; there is one exactly where that is at least one unit.
pub proof fn law_the_watermark_is_the_own_accrual(
    v: CarriageView,
    channel: [u8; 8],
    accruals: Seq<(u8, nat)>,
)
    requires
        ascending(accruals),
        ({
            let before = if v.imported.dom().contains(channel) {
                v.imported[channel].opening_settled_r
            } else {
                Seq::empty()
            };
            reconcilable(accruals, before) && unsettled(accruals, before) / 10_000 <= u128::MAX
        }),
    ensures
        ({
            let before = if v.imported.dom().contains(channel) {
                v.imported[channel].opening_settled_r
            } else {
                Seq::empty()
            };
            let whole = unsettled(accruals, before) / 10_000;
            &&& target_of(v, channel, accruals) is Some <==> whole > 0
            &&& target_of(v, channel, accruals) matches Some(p) ==> p == whole
            &&& !v.imported.dom().contains(channel) ==> whole == total(accruals) / 10_000
        }),
{
    law_outstanding_is_unsettled(accruals, imported_settled(v, channel));
    law_all_is_unsettled_at_first(accruals);
}

/// Only a consistent history can be settled: what a channel owes in meed is known exactly where
/// the channel and its checkpoint are, the checkpoint's roles rise, and no role has more
/// settled than it accrued; a round follows from it where the division is known as well and
/// the amounts can be carried, and a watermark where there is a whole unit to reach.
pub proof fn law_which_histories_can_be_settled(
    v: CarriageView,
    channel: [u8; 8],
    shares: Option<Seq<nat>>,
    accruals: Seq<(u8, nat)>,
)
    ensures
        ({
            let op = v.operative[channel];
            let settled = ledger_of(v, channel).settled_r;
            &&& owed_meed(v, channel) is Some <==> {
                &&& v.operative.dom().contains(channel)
                &&& v.driver.retained.dom().contains(channel)
                &&& forall|i: int, j: int|
                    0 <= i < j < op.accruals.len() ==> (#[trigger] op.accruals[i]).0 < (
                    #[trigger] op.accruals[j]).0
                &&& forall|i: int|
                    0 <= i < op.accruals.len() ==> amount_of(settled, (#[trigger] op.accruals[i]).0)
                        <= op.accruals[i].1 < two_pow_256()
            }
            &&& recomputed(v, channel, shares) is Some <==> {
                &&& owed_meed(v, channel) is Some
                &&& shares is Some
                &&& op.cum_total < two_pow_256()
                &&& unsettled(op.accruals, settled) / 10_000 <= u128::MAX
            }
        }),
        ({
            let before = if v.imported.dom().contains(channel) {
                v.imported[channel].opening_settled_r
            } else {
                Seq::empty()
            };
            target_of(v, channel, accruals) is Some <==> {
                &&& forall|i: int, j: int|
                    0 <= i < j < accruals.len() ==> (#[trigger] accruals[i]).0 < (#[trigger] accruals[j]).0
                &&& forall|i: int|
                    0 <= i < accruals.len() ==> amount_of(before, (#[trigger] accruals[i]).0)
                        <= accruals[i].1 < two_pow_256()
                &&& 0 < unsettled(accruals, before) / 10_000 <= u128::MAX
            }
        }),
{
    let op = v.operative[channel];
    let settled = ledger_of(v, channel).settled_r;
    if owed_meed(v, channel) is Some {
        law_outstanding_is_unsettled(op.accruals, settled);
    }
    let before = imported_settled(v, channel);
    if reconcilable(accruals, before) {
        law_outstanding_is_unsettled(accruals, before);
    }
}

/// Every change of a ledger makes a new version of it, the next number up to the last and then
/// the first again.
pub proof fn law_versions_follow_each_other(version: u64)
    ensures
        bumped(version) != version,
        version < u64::MAX ==> bumped(version) == version + 1,
        bumped(u64::MAX) == 0,
{
}

} // verus!
