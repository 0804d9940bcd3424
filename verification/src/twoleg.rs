//! Two-leg purchases: the merchant's net on one rail, and the meed funded into an
//! entry on the baseline rail.

use vstd::prelude::*;
use vstd::string::StringExecFns;

use crate::bytes::{copy_bytes, same_array};
use crate::decimal::{
    at_most, canon_u128, canon_u64, canonical, decimal, digits_of, law_decimal_read_back,
    parse_u128, parsed,
};
use crate::rail::{at_least, texts, RefInfo, RefRead};
use crate::redeem::{
    check_leg_final, deadline_of, decision_of, find_offer, honor_deadline,
    law_the_first_offer_of_a_kind_counts, leg_refusal,
    member, member_from, member_of, member_str, member_text, offer_from, pass_on,
    pays, record_of, redemption, text_u128, Merchant, Offer, Quote, RedeemError, StrictValue,
};
use crate::store::{
    consumption, has_reserved_ref_delimiter, peeked, DurableMerchantStore, MerchantStore,
    NonceRecord, NonceRecordView, PaidLeg, PaidLegView, Peek, Receipt, ReceiptView, StoreError,
    PAYMENT_REF_DELIMITER,
};

verus! {

/// The largest time that a quote may name, so that no window overflows.
pub const MAX_TIME: u64 = 0x1f_ffff_ffff_ffff;

/// What a two-leg quote is built from.
#[derive(Debug)]
pub struct TwoLegParams {
    pub exp: u64,
    pub grace: u64,
    pub net_network: String,
    pub net_asset: String,
    pub net_amount: u128,
    pub baseline_asset: String,
    pub meed_amount: u128,
    pub rate: String,
    pub rate_source: String,
    pub reclaim: u64,
    pub contest: u64,
    pub fin_meed: String,
    pub fin_net: String,
}

/// What a two-leg quote asks for.
#[derive(Debug)]
pub struct TwoLegTerms {
    pub net_pay_to: String,
    pub net_asset: String,
    pub net_amount: u128,
    pub baseline_asset: String,
    pub meed_amount: u128,
    pub contest: u64,
    pub fin_meed: String,
    pub fin_net: String,
    /// When the entry's reclaim opens.
    pub t_open: u64,
    /// When the entry lapses.
    pub t_lapse: u64,
}

/// What [`TwoLegTerms`] say.
#[verifier::ext_equal]
pub struct TwoLegTermsView {
    pub net_pay_to: Seq<char>,
    pub net_asset: Seq<char>,
    pub net_amount: u128,
    pub baseline_asset: Seq<char>,
    pub meed_amount: u128,
    pub contest: u64,
    pub fin_meed: Seq<char>,
    pub fin_net: Seq<char>,
    pub t_open: u64,
    pub t_lapse: u64,
}

impl View for TwoLegTerms {
    type V = TwoLegTermsView;

    open spec fn view(&self) -> TwoLegTermsView {
        TwoLegTermsView {
            net_pay_to: self.net_pay_to@,
            net_asset: self.net_asset@,
            net_amount: self.net_amount,
            baseline_asset: self.baseline_asset@,
            meed_amount: self.meed_amount,
            contest: self.contest,
            fin_meed: self.fin_meed@,
            fin_net: self.fin_net@,
            t_open: self.t_open,
            t_lapse: self.t_lapse,
        }
    }
}

/// A canonical text as a `u128`.
pub open spec fn canon_amount(s: Option<Seq<char>>) -> Option<u128> {
    match s {
        Some(s) => match at_most(canonical(s), u128::MAX as nat) {
            Some(n) => Some(n as u128),
            None => None,
        },
        None => None,
    }
}

/// A canonical text as a time.
pub open spec fn canon_time(s: Option<Seq<char>>) -> Option<u64> {
    match s {
        Some(s) => match at_most(canonical(s), MAX_TIME as nat) {
            Some(n) => Some(n as u64),
            None => None,
        },
        None => None,
    }
}

/// The net amount of a two-leg offer, under its current name or its older one.
pub open spec fn net_amount_of(accept: StrictValue) -> Option<u128> {
    match member_text(accept, "maxAmountRequired"@) {
        Some(s) => text_u128(Some(s)),
        None => text_u128(member_text(accept, "amount"@)),
    }
}

/// The sum of two times, where it is one.
pub open spec fn time_sum(a: u64, b: u64) -> Option<u64> {
    if a + b <= u64::MAX {
        Some((a + b) as u64)
    } else {
        None
    }
}

/// What the offer of a two-leg quote asks for.
pub open spec fn offer_terms(offer: Offer, exp: u64, grace: u64) -> Option<TwoLegTermsView> {
    match (offer.two_leg, time_sum(exp, grace)) {
        (Some(tl), Some(t_open)) => match (
            member_text(offer.accept, "payTo"@),
            member_text(offer.accept, "asset"@),
            net_amount_of(offer.accept),
            member_text(tl, "asset"@),
            canon_amount(member_text(tl, "meed"@)),
            canon_time(member_text(tl, "reclaim"@)),
            canon_time(member_text(tl, "contest"@)),
            member_of(tl, "finality"@),
        ) {
            (
                Some(net_pay_to),
                Some(net_asset),
                Some(net_amount),
                Some(baseline_asset),
                Some(meed_amount),
                Some(reclaim),
                Some(contest),
                Some(fin),
            ) => match (
                member_text(fin, "meed"@),
                member_text(fin, "net"@),
                time_sum(t_open, reclaim),
            ) {
                (Some(fin_meed), Some(fin_net), Some(t_lapse)) => Some(
                    TwoLegTermsView {
                        net_pay_to,
                        net_asset,
                        net_amount,
                        baseline_asset,
                        meed_amount,
                        contest,
                        fin_meed,
                        fin_net,
                        t_open,
                        t_lapse,
                    },
                ),
                _ => None,
            },
            _ => None,
        },
        _ => None,
    }
}

/// What a two-leg quote asks for: the terms of its first two-leg offer.
pub open spec fn two_leg_terms(quote: Quote) -> Option<TwoLegTermsView> {
    match offer_from(quote.offers@, true, 0) {
        Some(offer) => offer_terms(offer, quote.exp, quote.grace),
        None => None,
    }
}

/// What the rail says of an entry.
#[derive(Debug, Clone, Copy, PartialEq, Eq)]
pub enum EntryStatus {
    /// Funded, and not released.
    Funded,
    /// Released to the recipients.
    Attested,
    /// The payer has asked for it back; it goes back at this time, where the rail
    /// names one.
    ReclaimOpen { t_exec: Option<u64> },
    /// Anything else, or no such entry.
    Gone,
}

/// Whether an entry can still be released, or was: one that the payer has asked for
/// back only where twice the rail's latency is left.
pub open spec fn entry_deliverable(status: EntryStatus, latency: u64, now: u64) -> bool {
    match status {
        EntryStatus::Funded => true,
        EntryStatus::Attested => true,
        EntryStatus::ReclaimOpen { t_exec } => match t_exec {
            Some(t) => now + 2 * latency < t,
            None => false,
        },
        EntryStatus::Gone => false,
    }
}

/// What the rail says of the two legs of a purchase.
#[derive(Debug)]
pub struct TwoLegReads {
    pub meed: RefRead,
    pub net: RefRead,
    pub entry: EntryStatus,
    /// The rail's inclusion latency.
    pub latency: u64,
}

/// Whether a transfer funded the entry of this purchase, in the baseline asset, bound
/// to its nonce.
pub open spec fn funds_entry(info: RefInfo, entry_id: [u8; 32], asset: Seq<char>, nonce: [u8; 32]) -> bool {
    info.funds_entry == Some(entry_id) && info.asset@ == asset && info.memo == Some(nonce)
}

/// Why the legs of a purchase do not redeem its quote, where they do not.
pub open spec fn two_leg_refusal(
    quote: Quote,
    terms: TwoLegTermsView,
    entry_id: [u8; 32],
    levels: Seq<Seq<char>>,
    reads: TwoLegReads,
    now: u64,
) -> Option<RedeemError> {
    let deadline = honor_deadline(quote);
    let meed_bound = match reads.meed.info {
        Some(info) => funds_entry(info, entry_id, terms.baseline_asset, quote.nonce),
        None => false,
    };
    let net_paid = match reads.net.info {
        Some(info) => pays(info, terms.net_pay_to, terms.net_asset, terms.net_amount) && info.memo == Some(
            quote.nonce,
        ),
        None => false,
    };
    if !meed_bound {
        Some(RedeemError::PaymentUnverified)
    } else {
        match leg_refusal(levels, reads.meed.finality, terms.fin_meed, deadline, now) {
            Some(e) => Some(e),
            None => if !entry_deliverable(reads.entry, reads.latency, now) {
                Some(RedeemError::PaymentUnverified)
            } else {
                match leg_refusal(levels, reads.net.finality, terms.fin_net, deadline, now) {
                    Some(e) => Some(e),
                    None => if net_paid {
                        None
                    } else {
                        Some(RedeemError::PaymentUnverified)
                    },
                }
            },
        }
    }
}

/// The receipt of a two-leg payment, before it is signed.
pub open spec fn receipt_of(
    quote: Quote,
    meed_ref: Seq<char>,
    net_ref: Seq<char>,
    entry_id: [u8; 32],
    now: u64,
) -> ReceiptView {
    let network = match offer_from(quote.offers@, true, 0) {
        Some(offer) => match member_text(offer.accept, "network"@) {
            Some(network) => network,
            None => ""@,
        },
        None => ""@,
    };
    ReceiptView {
        nonce: quote.nonce,
        idem: quote.idem@,
        resource: quote.resource@,
        paid: seq![
            PaidLegView { leg: "meed"@, network: quote.baseline@, reference: meed_ref },
            PaidLegView { leg: "net"@, network, reference: net_ref },
        ],
        entry: Some(entry_id),
        ts: now,
        json: Seq::empty(),
    }
}

/// The one reference of a two-leg payment: its two references, joined.
pub open spec fn joined_ref(meed_ref: Seq<char>, net_ref: Seq<char>) -> Seq<char> {
    meed_ref + seq![PAYMENT_REF_DELIMITER] + net_ref
}

fn join_refs(meed_ref: &String, net_ref: &String) -> (r: String)
    ensures
        r@ == joined_ref(meed_ref@, net_ref@),
{
    proof {
        reveal_strlit("|");
    }
    let mut r: String = meed_ref.clone();
    r.append("|");
    r.append(net_ref.as_str());
    assert(r@ =~= joined_ref(meed_ref@, net_ref@));
    r
}

fn pair(name: &str, value: String) -> (r: (String, StrictValue))
    ensures
        r.0@ == name@,
        r.1 == StrictValue::String(value),
{
    (name.to_owned(), StrictValue::String(value))
}

/// The offer of a two-leg quote: the net leg pays the merchant, and the meed leg's
/// terms stand beside it. There is no split, so it names no net destination of its
/// own.
pub fn two_leg_offer(p: &TwoLegParams, payout: &String) -> (offer: Offer)
    ensures
        offer.finality is None,
        offer.merchant_net is None,
        offer.two_leg is Some,
        member_text(offer.accept, "scheme"@) == Some("exact"@),
        member_text(offer.accept, "network"@) == Some(p.net_network@),
        member_text(offer.accept, "asset"@) == Some(p.net_asset@),
        member_text(offer.accept, "maxAmountRequired"@) == Some(digits_of(p.net_amount as nat)),
        member_text(offer.accept, "payTo"@) == Some(payout@),
        ({
            let tl = offer.two_leg->0;
            &&& member_text(tl, "asset"@) == Some(p.baseline_asset@)
            &&& member_text(tl, "meed"@) == Some(digits_of(p.meed_amount as nat))
            &&& member_text(tl, "rate"@) == Some(p.rate@)
            &&& member_text(tl, "rateSource"@) == Some(p.rate_source@)
            &&& member_text(tl, "reclaim"@) == Some(digits_of(p.reclaim as nat))
            &&& member_text(tl, "contest"@) == Some(digits_of(p.contest as nat))
            &&& member_of(tl, "finality"@) matches Some(fin) && member_text(fin, "meed"@) == Some(p.fin_meed@)
                && member_text(fin, "net"@) == Some(p.fin_net@)
        }),
{
    let mut accept: Vec<(String, StrictValue)> = Vec::new();
    accept.push(pair("scheme", "exact".to_owned()));
    accept.push(pair("network", p.net_network.clone()));
    accept.push(pair("asset", p.net_asset.clone()));
    accept.push(pair("maxAmountRequired", decimal(p.net_amount)));
    accept.push(pair("payTo", payout.clone()));
    let mut finality: Vec<(String, StrictValue)> = Vec::new();
    finality.push(pair("meed", p.fin_meed.clone()));
    finality.push(pair("net", p.fin_net.clone()));
    let fin: StrictValue = StrictValue::Object(finality);
    let ghost fin_value: StrictValue = fin;
    let mut tl: Vec<(String, StrictValue)> = Vec::new();
    tl.push(pair("asset", p.baseline_asset.clone()));
    tl.push(pair("meed", decimal(p.meed_amount)));
    tl.push(pair("rate", p.rate.clone()));
    tl.push(pair("rateSource", p.rate_source.clone()));
    tl.push(pair("reclaim", decimal(p.reclaim as u128)));
    tl.push(pair("contest", decimal(p.contest as u128)));
    tl.push(("finality".to_owned(), fin));
    proof {
        reveal_with_fuel(member_from, 8);
        reveal_strlit("scheme");
        reveal_strlit("network");
        reveal_strlit("asset");
        reveal_strlit("maxAmountRequired");
        reveal_strlit("payTo");
        reveal_strlit("meed");
        reveal_strlit("net");
        reveal_strlit("rate");
        reveal_strlit("rateSource");
        reveal_strlit("reclaim");
        reveal_strlit("contest");
        reveal_strlit("finality");
        assert("asset"@[0] == 'a' && "payTo"@[0] == 'p');
        assert("meed"@[0] == 'm' && "rate"@[0] == 'r');
        assert("reclaim"@[0] == 'r' && "contest"@[0] == 'c');
        assert("asset"@.len() == 5 && "meed"@.len() == 4 && "rate"@.len() == 4);
        assert("rateSource"@.len() == 10 && "reclaim"@.len() == 7 && "contest"@.len() == 7);
        assert("finality"@.len() == 8 && "net"@.len() == 3);
        assert("scheme"@.len() == 6 && "network"@.len() == 7 && "maxAmountRequired"@.len() == 17);
        assert("payTo"@.len() == 5);
        let value = StrictValue::Object(tl);
        assert(member_from(tl@, "finality"@, 0) == Some(fin_value));
        assert(member_text(value, "meed"@) == Some(digits_of(p.meed_amount as nat)));
        assert(member_text(value, "contest"@) == Some(digits_of(p.contest as nat)));
        assert(member_text(fin_value, "net"@) == Some(p.fin_net@));
    }
    Offer {
        accept: StrictValue::Object(accept),
        finality: None,
        merchant_net: None,
        two_leg: Some(StrictValue::Object(tl)),
    }
}

/// The window of an entry: when its reclaim opens, and when it lapses.
pub fn entry_window(exp: u64, grace: u64, reclaim: u64) -> (r: (u64, u64))
    ensures
        r.0 == (if exp + grace <= u64::MAX {
            (exp + grace) as u64
        } else {
            u64::MAX
        }),
        r.1 == (if r.0 + reclaim <= u64::MAX {
            (r.0 + reclaim) as u64
        } else {
            u64::MAX
        }),
{
    let t_open: u64 = exp.saturating_add(grace);
    (t_open, t_open.saturating_add(reclaim))
}

fn read_amount(v: &StrictValue, key: &str) -> (r: Option<u128>)
    ensures
        r == canon_amount(member_text(*v, key@)),
{
    match member_str(v, key) {
        Some(s) => canon_u128(s.as_str()),
        None => None,
    }
}

fn read_time(v: &StrictValue, key: &str) -> (r: Option<u64>)
    ensures
        r == canon_time(member_text(*v, key@)),
{
    match member_str(v, key) {
        Some(s) => match canon_u64(s.as_str()) {
            Some(t) => if t <= MAX_TIME {
                Some(t)
            } else {
                None
            },
            None => None,
        },
        None => None,
    }
}

fn read_net_amount(accept: &StrictValue) -> (r: Option<u128>)
    ensures
        r == net_amount_of(*accept),
{
    let text: Option<String> = match member_str(accept, "maxAmountRequired") {
        Some(s) => Some(s),
        None => member_str(accept, "amount"),
    };
    match text {
        Some(s) => parse_u128(s.as_str()),
        None => None,
    }
}

fn read_offer(offer: &Offer, exp: u64, grace: u64) -> (r: Option<TwoLegTerms>)
    ensures
        match r {
            Some(terms) => offer_terms(*offer, exp, grace) == Some(terms@),
            None => offer_terms(*offer, exp, grace) is None,
        },
{
    let tl: &StrictValue = match &offer.two_leg {
        Some(tl) => tl,
        None => return None,
    };
    let t_open: u64 = match exp.checked_add(grace) {
        Some(t) => t,
        None => return None,
    };
    let net_pay_to: String = match member_str(&offer.accept, "payTo") {
        Some(s) => s,
        None => return None,
    };
    let net_asset: String = match member_str(&offer.accept, "asset") {
        Some(s) => s,
        None => return None,
    };
    let net_amount: u128 = match read_net_amount(&offer.accept) {
        Some(n) => n,
        None => return None,
    };
    let baseline_asset: String = match member_str(tl, "asset") {
        Some(s) => s,
        None => return None,
    };
    let meed_amount: u128 = match read_amount(tl, "meed") {
        Some(n) => n,
        None => return None,
    };
    let reclaim: u64 = match read_time(tl, "reclaim") {
        Some(t) => t,
        None => return None,
    };
    let contest: u64 = match read_time(tl, "contest") {
        Some(t) => t,
        None => return None,
    };
    let fin: &StrictValue = match member(tl, "finality") {
        Some(fin) => fin,
        None => return None,
    };
    let fin_meed: String = match member_str(fin, "meed") {
        Some(s) => s,
        None => return None,
    };
    let fin_net: String = match member_str(fin, "net") {
        Some(s) => s,
        None => return None,
    };
    let t_lapse: u64 = match t_open.checked_add(reclaim) {
        Some(t) => t,
        None => return None,
    };
    Some(
        TwoLegTerms {
            net_pay_to,
            net_asset,
            net_amount,
            baseline_asset,
            meed_amount,
            contest,
            fin_meed,
            fin_net,
            t_open,
            t_lapse,
        },
    )
}

/// What is answered at once, as a peek at the store came out.
pub open spec fn resumed(p: Peek, r: Result<Option<Receipt>, RedeemError>) -> bool {
    match p {
        Peek::Stored(receipt) => r matches Ok(Some(x)) && x@ == receipt@,
        Peek::Replayed => r == Err::<Option<Receipt>, RedeemError>(RedeemError::Replayed),
        Peek::Fresh => r == Ok::<Option<Receipt>, RedeemError>(None),
    }
}

/// A two-leg payment that a payer presents for an accepted quote. Only
/// [`Merchant::check_two_leg`] makes one.
#[derive(Debug)]
pub struct TwoLegClaim {
    quote: Quote,
    resource: String,
    meed_ref: String,
    net_ref: String,
    record: NonceRecord,
}

impl TwoLegClaim {
    /// The quote.
    pub closed spec fn quoted(&self) -> Quote {
        self.quote
    }

    /// The resource that is served for it.
    pub closed spec fn served(&self) -> Seq<char> {
        self.resource@
    }

    /// The reference of the meed leg.
    pub closed spec fn meed(&self) -> Seq<char> {
        self.meed_ref@
    }

    /// The reference of the net leg.
    pub closed spec fn net(&self) -> Seq<char> {
        self.net_ref@
    }

    /// The decision that it would be recorded under.
    pub closed spec fn recorded(&self) -> NonceRecordView {
        self.record@
    }

    /// What was tested: it is a quote for the resource that is served, the references
    /// can be told apart once they are joined, and the decision binds both of them.
    pub open spec fn wf(&self) -> bool {
        &&& self.quoted().resource@ == self.served()
        &&& !self.meed().contains(PAYMENT_REF_DELIMITER)
        &&& !self.net().contains(PAYMENT_REF_DELIMITER)
        &&& self.recorded() == decision_of(self.quoted(), joined_ref(self.meed(), self.net()))
    }

    /// The quote.
    pub fn quote(&self) -> (q: &Quote)
        ensures
            *q == self.quoted(),
    {
        &self.quote
    }

    /// The decision that it would be recorded under.
    pub fn record(&self) -> (r: &NonceRecord)
        ensures
            r@ == self.recorded(),
    {
        &self.record
    }
}

/// A two-leg payment whose legs and entry were verified. Only
/// [`Merchant::verify_two_leg`] makes one.
pub struct VerifiedTwoLeg {
    claim: TwoLegClaim,
    entry_id: [u8; 32],
    now: u64,
    levels: Ghost<Seq<Seq<char>>>,
    reads: Ghost<TwoLegReads>,
}

impl VerifiedTwoLeg {
    /// The presented payment.
    pub closed spec fn claim(&self) -> TwoLegClaim {
        self.claim
    }

    /// The entry that the meed leg funded.
    pub closed spec fn entry(&self) -> [u8; 32] {
        self.entry_id
    }

    /// When it was verified.
    pub closed spec fn at(&self) -> u64 {
        self.now
    }

    /// The rail's finality levels then.
    pub closed spec fn levels(&self) -> Seq<Seq<char>> {
        self.levels@
    }

    /// What the rail said of the legs then.
    pub closed spec fn reads(&self) -> TwoLegReads {
        self.reads@
    }

    /// What was tested: both legs, their finality and the entry meet the quote's own
    /// terms.
    pub open spec fn wf(&self) -> bool {
        let quote = self.claim().quoted();
        &&& self.claim().wf()
        &&& two_leg_terms(quote) matches Some(terms) && two_leg_refusal(
            quote,
            terms,
            self.entry(),
            self.levels(),
            self.reads(),
            self.at(),
        ) is None
    }

    /// The receipt of the payment, before it is signed.
    pub open spec fn unsigned(&self) -> ReceiptView {
        receipt_of(
            self.claim().quoted(),
            self.claim().meed(),
            self.claim().net(),
            self.entry(),
            self.at(),
        )
    }
}

/// Whether `b` is the receipt `unsigned` with what `sign` gave for it.
pub open spec fn signed_by<F: Fn(&Receipt) -> Vec<u8>>(sign: F, unsigned: ReceiptView, b: Receipt) -> bool {
    exists|x: Receipt, json: Vec<u8>|
        {
            &&& x@ == unsigned
            &&& #[trigger] sign.ensures((&x,), json)
            &&& b@ == (ReceiptView { json: json@, ..unsigned })
        }
}

/// What redeeming a two-leg quote did: only where the entry is released was its nonce
/// consumed, bound to both legs, and the receipt is that of the verified payment; else
/// the store is as it was.
pub open spec fn two_leg_redeemed<S: MerchantStore, F: Fn(&Receipt) -> Vec<u8>>(
    before: S,
    after: S,
    verified: VerifiedTwoLeg,
    posted: bool,
    status: EntryStatus,
    sign: F,
    r: Result<Receipt, RedeemError>,
) -> bool {
    if posted || status is Attested {
        redemption(
            before,
            after,
            verified.claim().quoted().nonce,
            verified.claim().recorded(),
            |b: Receipt| signed_by(sign, verified.unsigned(), b),
            r,
        )
    } else {
        after == before && r == Err::<Receipt, RedeemError>(RedeemError::PaymentUnverified)
    }
}

impl Merchant {
    /// Accepts a presented two-leg payment, to be verified. `quote` is the quote where it
    /// verifies under the merchant's key, `governed` says whether its meed vector is the
    /// governed one, and `seats_ok` whether its offers name net destinations exactly
    /// where they must.
    pub fn check_two_leg(
        quote: Option<Quote>,
        governed: bool,
        seats_ok: bool,
        expected_resource: &String,
        meed_ref: &String,
        net_ref: &String,
    ) -> (r: Result<TwoLegClaim, RedeemError>)
        ensures
            if quote is None || !governed || !seats_ok || (quote->0).resource@ != expected_resource@ {
                r == Err::<TwoLegClaim, RedeemError>(RedeemError::QuoteInvalid)
            } else if meed_ref@.contains(PAYMENT_REF_DELIMITER) || net_ref@.contains(PAYMENT_REF_DELIMITER) {
                r == Err::<TwoLegClaim, RedeemError>(RedeemError::PaymentUnverified)
            } else {
                r matches Ok(claim) && {
                    &&& claim.wf()
                    &&& quote == Some(claim.quoted())
                    &&& claim.served() == expected_resource@
                    &&& claim.meed() == meed_ref@
                    &&& claim.net() == net_ref@
                }
            },
    {
        let q: Quote = match quote {
            Some(q) => q,
            None => return Err(RedeemError::QuoteInvalid),
        };
        if !governed || !seats_ok || q.resource != *expected_resource {
            return Err(RedeemError::QuoteInvalid);
        }
        if has_reserved_ref_delimiter(meed_ref.as_str()) || has_reserved_ref_delimiter(net_ref.as_str()) {
            return Err(RedeemError::PaymentUnverified);
        }
        let joined: String = join_refs(meed_ref, net_ref);
        let record: NonceRecord = record_of(&q, &joined);
        Ok(
            TwoLegClaim {
                quote: q,
                resource: expected_resource.clone(),
                meed_ref: meed_ref.clone(),
                net_ref: net_ref.clone(),
                record,
            },
        )
    }

    /// The stored receipt of an exact retry, before its payment is looked at again:
    /// the entry may have moved on since.
    pub fn resume_two_leg<S: MerchantStore>(store: &S, claim: &TwoLegClaim) -> (r: Result<
        Option<Receipt>,
        RedeemError,
    >)
        requires
            store.wf(),
        ensures
            exists|p: Peek|
                {
                    &&& #[trigger] peeked(
                        store.consumed(),
                        store.used(),
                        claim.quoted().nonce,
                        claim.recorded(),
                        p,
                    )
                    &&& resumed(p, r)
                },
    {
        let p: Peek = store.peek(claim.quote.nonce, &claim.record);
        let ghost seen: Peek = p;
        assert(peeked(
            store.consumed(),
            store.used(),
            claim.quoted().nonce,
            claim.recorded(),
            seen,
        ));
        match p {
            Peek::Stored(receipt) => Ok(Some(*receipt)),
            Peek::Replayed => Err(RedeemError::Replayed),
            Peek::Fresh => Ok(None),
        }
    }

    /// What a two-leg quote asks for.
    pub fn read_two_leg(quote: &Quote) -> (r: Result<TwoLegTerms, RedeemError>)
        ensures
            match two_leg_terms(*quote) {
                Some(terms) => r matches Ok(t) && t@ == terms,
                None => r == Err::<TwoLegTerms, RedeemError>(RedeemError::QuoteInvalid),
            },
    {
        match find_offer(quote, true) {
            Some(offer) => match read_offer(offer, quote.exp, quote.grace) {
                Some(terms) => Ok(terms),
                None => Err(RedeemError::QuoteInvalid),
            },
            None => Err(RedeemError::QuoteInvalid),
        }
    }

    /// Verifies both legs of a presented payment, and the entry, against the quote's own
    /// terms. `entry_id` is the entry that is derived from the quote.
    pub fn verify_two_leg(
        claim: TwoLegClaim,
        entry_id: &[u8; 32],
        levels: &Vec<String>,
        reads: &TwoLegReads,
        now: u64,
    ) -> (r: Result<VerifiedTwoLeg, RedeemError>)
        requires
            claim.wf(),
        ensures
            match two_leg_terms(claim.quoted()) {
                None => r == Err::<VerifiedTwoLeg, RedeemError>(RedeemError::QuoteInvalid),
                Some(terms) => match two_leg_refusal(
                    claim.quoted(),
                    terms,
                    *entry_id,
                    texts(levels@),
                    *reads,
                    now,
                ) {
                    Some(e) => r == Err::<VerifiedTwoLeg, RedeemError>(e),
                    None => r matches Ok(verified) && {
                        &&& verified.wf()
                        &&& verified.claim() == claim
                        &&& verified.entry() == *entry_id
                        &&& verified.at() == now
                        &&& verified.levels() == texts(levels@)
                        &&& verified.reads() == *reads
                    },
                },
            },
    {
        let terms: TwoLegTerms = match Self::read_two_leg(&claim.quote) {
            Ok(terms) => terms,
            Err(e) => return Err(e),
        };
        match check_legs(&claim.quote, &terms, entry_id, levels, reads, now) {
            Some(e) => Err(e),
            None => Ok(
                VerifiedTwoLeg {
                    claim,
                    entry_id: *entry_id,
                    now,
                    levels: Ghost(texts(levels@)),
                    reads: Ghost(*reads),
                },
            ),
        }
    }

    /// Whether a posted attestation took effect: it was taken, or the entry was
    /// released before.
    pub fn attested(posted: bool, status: EntryStatus) -> (r: Result<(), RedeemError>)
        ensures
            r == (if posted || status is Attested {
                Ok::<(), RedeemError>(())
            } else {
                Err(RedeemError::PaymentUnverified)
            }),
    {
        if posted {
            return Ok(());
        }
        match status {
            EntryStatus::Attested => Ok(()),
            _ => Err(RedeemError::PaymentUnverified),
        }
    }

    /// The receipt of a two-leg payment, to be signed: its legs in the order they were
    /// executed, the meed and then the net.
    pub fn two_leg_receipt(
        quote: &Quote,
        meed_ref: &String,
        net_ref: &String,
        entry_id: [u8; 32],
        now: u64,
    ) -> (r: Receipt)
        ensures
            r@ == receipt_of(*quote, meed_ref@, net_ref@, entry_id, now),
    {
        let network: String = match find_offer(quote, true) {
            Some(offer) => match member_str(&offer.accept, "network") {
                Some(network) => network,
                None => "".to_owned(),
            },
            None => "".to_owned(),
        };
        let mut paid: Vec<PaidLeg> = Vec::new();
        paid.push(
            PaidLeg {
                leg: "meed".to_owned(),
                network: quote.baseline.clone(),
                reference: meed_ref.clone(),
            },
        );
        paid.push(PaidLeg { leg: "net".to_owned(), network, reference: net_ref.clone() });
        let r: Receipt = Receipt {
            nonce: quote.nonce,
            idem: copy_bytes(quote.idem.as_slice()),
            resource: quote.resource.clone(),
            paid,
            entry: Some(entry_id),
            ts: now,
            json: Vec::new(),
        };
        assert(r@.paid =~= receipt_of(*quote, meed_ref@, net_ref@, entry_id, now).paid);
        assert(r@.json =~= Seq::empty());
        r
    }

    /// Redeems a two-leg quote whose legs were verified, on a store of any kind: only
    /// where the entry is released does it consume the nonce, bound to both legs,
    /// before anything is delivered. `posted` says whether the rail took the
    /// attestation, `status` what it says of the entry since, and `sign` signs the
    /// receipt.
    pub fn redeem_two_leg_inner<S: MerchantStore, F: Fn(&Receipt) -> Vec<u8>>(
        store: &mut S,
        verified: &VerifiedTwoLeg,
        posted: bool,
        status: EntryStatus,
        sign: F,
    ) -> (r: Result<Receipt, RedeemError>)
        requires
            old(store).wf(),
            verified.wf(),
            forall|x: &Receipt| sign.requires((x,)),
        ensures
            final(store).wf(),
            two_leg_redeemed(*old(store), *final(store), *verified, posted, status, sign, r),
    {
        if let Err(e) = Self::attested(posted, status) {
            return Err(e);
        }
        let claim: &TwoLegClaim = &verified.claim;
        let unsigned: Receipt = Self::two_leg_receipt(
            &claim.quote,
            &claim.meed_ref,
            &claim.net_ref,
            verified.entry_id,
            verified.now,
        );
        let ghost view: ReceiptView = verified.unsigned();
        let build = || -> (b: Receipt)
            ensures
                signed_by(sign, view, b),
            {
                let json: Vec<u8> = sign(&unsigned);
                let mut b: Receipt = unsigned.copy();
                let ghost signature: Vec<u8> = json;
                b.json = json;
                assert(sign.ensures((&unsigned,), signature));
                b
            };
        let r: Result<Receipt, StoreError> = store.consume_nonce(claim.quote.nonce, &claim.record, build);
        proof {
            lemma_built_signed(
                (old(store).consumed(), old(store).used()),
                (store.consumed(), store.used()),
                claim.quote.nonce,
                claim.record@,
                |b: Receipt| build.ensures((), b),
                |b: Receipt| signed_by(sign, view, b),
                r,
            );
        }
        assert(old(store).answered(
            claim.quote.nonce,
            claim.record@,
            |b: Receipt| build.ensures((), b),
            store,
            r,
        ));
        pass_on(r)
    }

    /// Redeems a two-leg quote whose legs were verified. The store is a durable one, so
    /// that a restart forgets no consumed nonce.
    pub fn redeem_two_leg<S: DurableMerchantStore, F: Fn(&Receipt) -> Vec<u8>>(
        store: &mut S,
        verified: &VerifiedTwoLeg,
        posted: bool,
        status: EntryStatus,
        sign: F,
    ) -> (r: Result<Receipt, RedeemError>)
        requires
            old(store).wf(),
            verified.wf(),
            forall|x: &Receipt| sign.requires((x,)),
        ensures
            final(store).wf(),
            two_leg_redeemed(*old(store), *final(store), *verified, posted, status, sign, r),
    {
        Self::redeem_two_leg_inner(store, verified, posted, status, sign)
    }
}

proof fn lemma_built_signed(
    before: (Map<[u8; 32], (NonceRecordView, ReceiptView)>, Set<Seq<char>>),
    after: (Map<[u8; 32], (NonceRecordView, ReceiptView)>, Set<Seq<char>>),
    nonce: [u8; 32],
    record: NonceRecordView,
    built: spec_fn(Receipt) -> bool,
    signed: spec_fn(Receipt) -> bool,
    r: Result<Receipt, StoreError>,
)
    requires
        consumption(before, after, nonce, record, built, r),
        forall|b: Receipt| #[trigger] built(b) ==> signed(b),
    ensures
        consumption(before, after, nonce, record, signed, r),
{
    if let Ok(receipt) = r {
        if !before.0.dom().contains(nonce) {
            let b = choose|b: Receipt| #[trigger] built(b) && b@ == receipt@;
            assert(signed(b));
        }
    }
}

fn check_legs(
    quote: &Quote,
    terms: &TwoLegTerms,
    entry_id: &[u8; 32],
    levels: &Vec<String>,
    reads: &TwoLegReads,
    now: u64,
) -> (r: Option<RedeemError>)
    ensures
        r == two_leg_refusal(*quote, terms@, *entry_id, texts(levels@), *reads, now),
{
    let deadline: u64 = deadline_of(quote);
    let meed_bound: bool = match &reads.meed.info {
        Some(info) => {
            let entry: bool = match &info.funds_entry {
                Some(e) => same_array(e, entry_id),
                None => false,
            };
            let memo: bool = match &info.memo {
                Some(m) => same_array(m, &quote.nonce),
                None => false,
            };
            entry && memo && info.asset == terms.baseline_asset
        },
        None => false,
    };
    if !meed_bound {
        return Some(RedeemError::PaymentUnverified);
    }
    if let Some(e) = check_leg_final(levels, &reads.meed.finality, &terms.fin_meed, deadline, now) {
        return Some(e);
    }
    if !check_entry(reads.entry, reads.latency, now) {
        return Some(RedeemError::PaymentUnverified);
    }
    if let Some(e) = check_leg_final(levels, &reads.net.finality, &terms.fin_net, deadline, now) {
        return Some(e);
    }
    let net_paid: bool = match &reads.net.info {
        Some(info) => {
            let memo: bool = match &info.memo {
                Some(m) => same_array(m, &quote.nonce),
                None => false,
            };
            memo && info.to == terms.net_pay_to && info.asset == terms.net_asset && info.amount
                >= terms.net_amount
        },
        None => false,
    };
    if net_paid {
        None
    } else {
        Some(RedeemError::PaymentUnverified)
    }
}

fn check_entry(status: EntryStatus, latency: u64, now: u64) -> (r: bool)
    ensures
        r == entry_deliverable(status, latency, now),
{
    match status {
        EntryStatus::Funded => true,
        EntryStatus::Attested => true,
        EntryStatus::ReclaimOpen { t_exec } => match t_exec {
            Some(t) => now.saturating_add(latency.saturating_add(latency)) < t,
            None => false,
        },
        EntryStatus::Gone => false,
    }
}

/// A quote is redeemed on the terms it was built with: what is read back of a built
/// offer are the amounts and windows that went in.
pub proof fn law_offer_read_back(offer: Offer, p: TwoLegParams, payout: Seq<char>)
    requires
        offer.two_leg is Some,
        member_text(offer.accept, "asset"@) == Some(p.net_asset@),
        member_text(offer.accept, "maxAmountRequired"@) == Some(digits_of(p.net_amount as nat)),
        member_text(offer.accept, "payTo"@) == Some(payout),
        ({
            let tl = offer.two_leg->0;
            &&& member_text(tl, "asset"@) == Some(p.baseline_asset@)
            &&& member_text(tl, "meed"@) == Some(digits_of(p.meed_amount as nat))
            &&& member_text(tl, "reclaim"@) == Some(digits_of(p.reclaim as nat))
            &&& member_text(tl, "contest"@) == Some(digits_of(p.contest as nat))
            &&& member_of(tl, "finality"@) matches Some(fin) && member_text(fin, "meed"@) == Some(p.fin_meed@)
                && member_text(fin, "net"@) == Some(p.fin_net@)
        }),
        p.reclaim <= MAX_TIME,
        p.contest <= MAX_TIME,
        p.exp + p.grace + p.reclaim <= u64::MAX,
    ensures
        offer_terms(offer, p.exp, p.grace) == Some(
            TwoLegTermsView {
                net_pay_to: payout,
                net_asset: p.net_asset@,
                net_amount: p.net_amount,
                baseline_asset: p.baseline_asset@,
                meed_amount: p.meed_amount,
                contest: p.contest,
                fin_meed: p.fin_meed@,
                fin_net: p.fin_net@,
                t_open: (p.exp + p.grace) as u64,
                t_lapse: (p.exp + p.grace + p.reclaim) as u64,
            },
        ),
{
    law_decimal_read_back(p.net_amount as nat);
    law_decimal_read_back(p.meed_amount as nat);
    law_decimal_read_back(p.reclaim as nat);
    law_decimal_read_back(p.contest as nat);
}

/// A crash between the attestation and the consumption costs the payer nothing: an
/// entry that was released before still redeems.
pub proof fn law_attested_entry_redeems(
    quote: Quote,
    terms: TwoLegTermsView,
    entry_id: [u8; 32],
    levels: Seq<Seq<char>>,
    funded: TwoLegReads,
    released: TwoLegReads,
    now: u64,
)
    requires
        two_leg_refusal(quote, terms, entry_id, levels, funded, now) is None,
        released.meed == funded.meed,
        released.net == funded.net,
        released.entry is Attested,
    ensures
        two_leg_refusal(quote, terms, entry_id, levels, released, now) is None,
{
}

/// A two-leg redemption rests on verified legs: a receipt for a nonce that was not
/// consumed before means that the quote is one for the resource that is served, that the
/// meed leg funded the entry in the baseline asset and the net leg paid the quoted net to
/// the merchant, both bound to the nonce and both at the quoted finality by the deadline,
/// and that the entry was released; and the receipt names both legs, the entry and the
/// time.
pub proof fn law_two_leg_rests_on_verified_legs<S: MerchantStore, F: Fn(&Receipt) -> Vec<u8>>(
    before: S,
    after: S,
    verified: VerifiedTwoLeg,
    posted: bool,
    status: EntryStatus,
    sign: F,
    r: Result<Receipt, RedeemError>,
)
    requires
        verified.wf(),
        two_leg_redeemed(before, after, verified, posted, status, sign, r),
        r is Ok,
        !before.consumed().dom().contains(verified.claim().quoted().nonce),
    ensures
        ({
            let claim = verified.claim();
            let quote = claim.quoted();
            let (meed, net) = (verified.reads().meed, verified.reads().net);
            &&& quote.resource@ == claim.served()
            &&& posted || status is Attested
            &&& two_leg_terms(quote) matches Some(terms) && {
                &&& meed.info matches Some(info) && funds_entry(
                    info,
                    verified.entry(),
                    terms.baseline_asset,
                    quote.nonce,
                )
                &&& net.info matches Some(info) && pays(
                    info,
                    terms.net_pay_to,
                    terms.net_asset,
                    terms.net_amount,
                ) && info.memo == Some(quote.nonce)
                &&& meed.finality matches Some(f) && at_least(verified.levels(), f.level@, terms.fin_meed)
                    && f.time <= honor_deadline(quote)
                &&& net.finality matches Some(f) && at_least(verified.levels(), f.level@, terms.fin_net)
                    && f.time <= honor_deadline(quote)
            }
            &&& (r->Ok_0)@ == (ReceiptView { json: (r->Ok_0)@.json, ..verified.unsigned() })
        }),
{
    let receipt = r->Ok_0;
    let b = choose|b: Receipt| #[trigger] signed_by(sign, verified.unsigned(), b) && b@ == receipt@;
    assert(signed_by(sign, verified.unsigned(), b));
}

/// An exact retry of a redeemed quote gets the stored receipt, and changes nothing: at
/// once, before its payment is looked at, and again where it gets as far as the store.
pub proof fn law_exact_retry_gets_the_stored_receipt<S: MerchantStore, F: Fn(&Receipt) -> Vec<u8>>(
    before: S,
    after: S,
    claim: TwoLegClaim,
    stored: ReceiptView,
    p: Peek,
    at_once: Result<Option<Receipt>, RedeemError>,
    verified: VerifiedTwoLeg,
    posted: bool,
    status: EntryStatus,
    sign: F,
    r: Result<Receipt, RedeemError>,
)
    requires
        before.consumed().contains_pair(claim.quoted().nonce, (claim.recorded(), stored)),
        peeked(before.consumed(), before.used(), claim.quoted().nonce, claim.recorded(), p),
        resumed(p, at_once),
        verified.claim() == claim,
        two_leg_redeemed(before, after, verified, posted, status, sign, r),
    ensures
        at_once matches Ok(Some(x)) && x@ == stored,
        r matches Ok(x) ==> x@ == stored,
        after.consumed() == before.consumed(),
        after.used() == before.used(),
{
}

/// The legs of a purchase redeem its quote exactly where the meed leg funded the entry in the
/// baseline asset, the net leg paid the quoted net or more, of the quoted asset, to the
/// quoted destination, both bound to the quote's nonce, both at the quoted finality or a
/// stronger one by the expiry and its grace, and the entry can still be released, or was.
pub proof fn law_which_legs_redeem(
    quote: Quote,
    terms: TwoLegTermsView,
    entry_id: [u8; 32],
    levels: Seq<Seq<char>>,
    reads: TwoLegReads,
    now: u64,
)
    ensures
        two_leg_refusal(quote, terms, entry_id, levels, reads, now) is None <==> {
            &&& reads.meed.info matches Some(info) && {
                &&& info.funds_entry == Some(entry_id)
                &&& info.asset@ == terms.baseline_asset
                &&& info.memo == Some(quote.nonce)
            }
            &&& reads.net.info matches Some(info) && {
                &&& info.to@ == terms.net_pay_to
                &&& info.asset@ == terms.net_asset
                &&& info.amount >= terms.net_amount
                &&& info.memo == Some(quote.nonce)
            }
            &&& reads.meed.finality matches Some(f) && at_least(levels, f.level@, terms.fin_meed) && f.time
                <= quote.exp + quote.grace
            &&& reads.net.finality matches Some(f) && at_least(levels, f.level@, terms.fin_net) && f.time
                <= quote.exp + quote.grace
            &&& match reads.entry {
                EntryStatus::Funded => true,
                EntryStatus::Attested => true,
                EntryStatus::ReclaimOpen { t_exec } => t_exec matches Some(t) && now + reads.latency
                    + reads.latency < t,
                EntryStatus::Gone => false,
            }
        },
{
}

/// A purchase whose legs do not redeem its quote has expired only where a leg is late: not
/// final enough after the deadline, or final only after it; else it is not verified.
pub proof fn law_a_refused_purchase_is_told_why(
    quote: Quote,
    terms: TwoLegTermsView,
    entry_id: [u8; 32],
    levels: Seq<Seq<char>>,
    reads: TwoLegReads,
    now: u64,
    e: RedeemError,
)
    requires
        two_leg_refusal(quote, terms, entry_id, levels, reads, now) == Some(e),
    ensures
        e == RedeemError::Expired || e == RedeemError::PaymentUnverified,
        e == RedeemError::Expired ==> now > quote.exp + quote.grace || (reads.meed.finality matches Some(f)
            && f.time > quote.exp + quote.grace) || (reads.net.finality matches Some(f) && f.time > quote.exp
            + quote.grace),
{
}

/// What a two-leg quote asks for is what its offer says, under its own names: the net leg's
/// terms beside the meed leg's, each number in decimal, the entry open to reclaim when the
/// quote's grace has passed, and lapsed when the reclaim window has.
pub proof fn law_two_leg_terms_are_the_offers_own(offer: Offer, exp: u64, grace: u64, terms: TwoLegTermsView)
    requires
        offer_terms(offer, exp, grace) == Some(terms),
    ensures
        offer.two_leg matches Some(tl) && {
            &&& member_of(offer.accept, "payTo"@) matches Some(StrictValue::String(s)) && s@
                == terms.net_pay_to
            &&& member_of(offer.accept, "asset"@) matches Some(StrictValue::String(s)) && s@
                == terms.net_asset
            &&& member_of(tl, "asset"@) matches Some(StrictValue::String(s)) && s@ == terms.baseline_asset
            &&& member_of(tl, "meed"@) matches Some(StrictValue::String(s)) && canonical(s@) == Some(
                terms.meed_amount as nat,
            )
            &&& member_of(tl, "contest"@) matches Some(StrictValue::String(s)) && canonical(s@) == Some(
                terms.contest as nat,
            )
            &&& member_of(tl, "reclaim"@) matches Some(StrictValue::String(s)) && canonical(s@) == Some(
                (terms.t_lapse - terms.t_open) as nat,
            )
            &&& terms.t_open == exp + grace
            &&& terms.t_lapse >= terms.t_open
            &&& member_of(tl, "finality"@) matches Some(fin) && {
                &&& member_of(fin, "meed"@) matches Some(StrictValue::String(s)) && s@ == terms.fin_meed
                &&& member_of(fin, "net"@) matches Some(StrictValue::String(s)) && s@ == terms.fin_net
            }
            &&& member_of(offer.accept, "maxAmountRequired"@) matches Some(StrictValue::String(s)) ==> parsed(
                s@,
            ) == Some(terms.net_amount as nat)
            &&& member_of(offer.accept, "maxAmountRequired"@) is None ==> (member_of(
                offer.accept,
                "amount"@,
            ) matches Some(StrictValue::String(s)) && parsed(s@) == Some(terms.net_amount as nat))
        },
{
}

/// The receipt of a two-leg payment names what was bought and how it was paid: the quote's
/// nonce, key and resource, the meed leg on the baseline network and then the net leg, each
/// by its reference, the entry and the time.
pub proof fn law_a_receipt_names_both_legs(
    quote: Quote,
    meed_ref: Seq<char>,
    net_ref: Seq<char>,
    entry_id: [u8; 32],
    now: u64,
)
    ensures
        ({
            let r = receipt_of(quote, meed_ref, net_ref, entry_id, now);
            &&& r.nonce == quote.nonce
            &&& r.idem == quote.idem@
            &&& r.resource == quote.resource@
            &&& r.entry == Some(entry_id)
            &&& r.ts == now
            &&& r.paid.len() == 2
            &&& r.paid[0].leg == "meed"@
            &&& r.paid[0].network == quote.baseline@
            &&& r.paid[0].reference == meed_ref
            &&& r.paid[1].leg == "net"@
            &&& r.paid[1].reference == net_ref
        }),
{
}

/// Two references are joined so that they can be told apart again: where no reference holds
/// the delimiter, a joined one comes from one pair only.
pub proof fn law_joined_references_come_apart(
    meed1: Seq<char>,
    net1: Seq<char>,
    meed2: Seq<char>,
    net2: Seq<char>,
)
    requires
        !meed1.contains('|'),
        !net1.contains('|'),
        !meed2.contains('|'),
        !net2.contains('|'),
        joined_ref(meed1, net1) == joined_ref(meed2, net2),
    ensures
        meed1 == meed2,
        net1 == net2,
{
    let (a, b) = (joined_ref(meed1, net1), joined_ref(meed2, net2));
    if meed1.len() < meed2.len() {
        assert(a[meed1.len() as int] == '|');
        assert(b[meed1.len() as int] == meed2[meed1.len() as int]);
    } else if meed2.len() < meed1.len() {
        assert(b[meed2.len() as int] == '|');
        assert(a[meed2.len() as int] == meed1[meed2.len() as int]);
    } else {
        assert(meed1 =~= a.take(meed1.len() as int));
        assert(meed2 =~= b.take(meed2.len() as int));
        assert(net1 =~= a.skip(meed1.len() as int + 1));
        assert(net2 =~= b.skip(meed2.len() as int + 1));
    }
}

/// A two-leg payment uses up its joined reference and its net leg's own, so that no net leg
/// backs two purchases; a nonce that is consumed under it names both.
pub proof fn law_a_net_leg_backs_one_purchase(meed: Seq<char>, net: Seq<char>, name: Seq<char>)
    requires
        !net.contains('|'),
    ensures
        crate::store::ref_keys(joined_ref(meed, net)).contains(name) <==> name == net || name == joined_ref(
            meed,
            net,
        ),
{
    let whole = joined_ref(meed, net);
    let at = meed.len() as int;
    assert(whole.subrange(whole.len() - net.len(), whole.len() as int) =~= net);
    assert(whole[at] == '|');
    if crate::store::is_net_part(whole, name) && name != net {
        let k = whole.len() - name.len() - 1;
        if k < at {
            assert(name[at - k - 1] == whole[at]);
            assert(name.contains('|'));
        } else if k > at {
            assert(net[k - at - 1] == whole[k]);
            assert(net.contains('|'));
        } else {
            assert(name =~= net);
        }
    }
}

/// The net leg's network on a receipt is that of the quote's first two-leg offer, and empty
/// where that offer names none.
pub proof fn law_a_receipt_names_the_offered_network(
    quote: Quote,
    meed_ref: Seq<char>,
    net_ref: Seq<char>,
    entry_id: [u8; 32],
    now: u64,
    k: int,
)
    requires
        0 <= k < quote.offers@.len(),
        quote.offers@[k].two_leg is Some,
        forall|j: int| 0 <= j < k ==> (#[trigger] quote.offers@[j]).two_leg is None,
    ensures
        ({
            let network = receipt_of(quote, meed_ref, net_ref, entry_id, now).paid[1].network;
            match member_of(quote.offers@[k].accept, "network"@) {
                Some(StrictValue::String(s)) => network == s@,
                _ => network.len() == 0,
            }
        }),
{
    law_the_first_offer_of_a_kind_counts(quote.offers@, true);
    reveal_strlit("");
    if offer_from(quote.offers@, true, 0) is None {
        assert(quote.offers@[k].two_leg is Some != true);
    }
}

} // verus!
