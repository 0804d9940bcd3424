//! One-shot purchases: what a presented quote asks for, whether a payment meets it,
//! and the redemption that settles before it delivers.

use vstd::prelude::*;

use crate::bytes::copy_bytes;
use crate::decimal::{at_most, decimal, digits_of, parse_u128, parsed};
use crate::medium::LogMedium;
use crate::rail::{at_least, finality_reached, texts, Finality, RefInfo, RefRead};
use crate::store::{
    consumption, has_reserved_ref_delimiter, nonce_fresh, receipts_fit, recordable, ref_keys,
    DurableMerchantStore, MerchantStore, NonceRecord, NonceRecordView, Receipt, StoreError,
    WalMerchantStore, PAYMENT_REF_DELIMITER,
};

verus! {

/// Why a quote is not redeemed.
#[derive(Debug, Clone, Copy, PartialEq, Eq)]
pub enum RedeemError {
    /// The quote does not verify, or is not one for this resource.
    QuoteInvalid,
    /// No payment reached the quoted finality in time.
    Expired,
    /// No payment reached the quoted destination at the quoted finality.
    PaymentUnverified,
    /// The nonce was consumed under another decision, or the payment backs another
    /// nonce.
    Replayed,
    /// The consumption could not be recorded; nothing was delivered.
    StoreUnavailable,
}

/// A value of a quote's free-form members, as far as redemption reads it.
#[derive(Debug)]
pub enum StrictValue {
    String(String),
    Object(Vec<(String, StrictValue)>),
    Other,
}

/// One offer of a quote.
#[derive(Debug)]
pub struct Offer {
    /// The payment requirements that the offer mirrors.
    pub accept: StrictValue,
    pub finality: Option<String>,
    /// The merchant's net destination, on a split offer.
    pub merchant_net: Option<String>,
    /// The terms of the meed leg, on a two-leg offer.
    pub two_leg: Option<StrictValue>,
}

/// A quote that verified under the merchant's key.
#[derive(Debug)]
pub struct Quote {
    pub resource: String,
    pub nonce: [u8; 32],
    pub exp: u64,
    pub grace: u64,
    pub idem: Vec<u8>,
    /// The baseline network.
    pub baseline: String,
    pub offers: Vec<Offer>,
    pub signature: Option<[u8; 64]>,
}

/// The value of the first member under `key`, at or after `i`.
pub open spec fn member_from(members: Seq<(String, StrictValue)>, key: Seq<char>, i: int) -> Option<StrictValue>
    decreases members.len() - i,
{
    if i < 0 || i >= members.len() {
        None
    } else if members[i].0@ == key {
        Some(members[i].1)
    } else {
        member_from(members, key, i + 1)
    }
}

/// The member of an object under `key`.
pub open spec fn member_of(v: StrictValue, key: Seq<char>) -> Option<StrictValue> {
    match v {
        StrictValue::Object(m) => member_from(m@, key, 0),
        _ => None,
    }
}

/// The text under `key`.
pub open spec fn member_text(v: StrictValue, key: Seq<char>) -> Option<Seq<char>> {
    match member_of(v, key) {
        Some(StrictValue::String(s)) => Some(s@),
        _ => None,
    }
}

/// The member of an object under `key`.
pub fn member<'a>(v: &'a StrictValue, key: &str) -> (r: Option<&'a StrictValue>)
    ensures
        match r {
            Some(x) => member_of(*v, key@) == Some(*x),
            None => member_of(*v, key@) is None,
        },
{
    match v {
        StrictValue::Object(m) => {
            let name: String = key.to_owned();
            let mut i: usize = 0;
            while i < m.len()
                invariant
                    i <= m@.len(),
                    name@ == key@,
                    member_of(*v, key@) == member_from(m@, key@, i as int),
                decreases m@.len() - i,
            {
                if m[i].0 == name {
                    return Some(&m[i].1);
                }
                i = i + 1;
            }
            None
        },
        _ => None,
    }
}

/// The text under `key`.
pub fn member_str(v: &StrictValue, key: &str) -> (r: Option<String>)
    ensures
        match r {
            Some(s) => member_text(*v, key@) == Some(s@),
            None => member_text(*v, key@) is None,
        },
{
    match member(v, key) {
        Some(StrictValue::String(s)) => Some(s.clone()),
        _ => None,
    }
}

/// The first offer at or after `i` that is a two-leg offer, or is none.
pub open spec fn offer_from(offers: Seq<Offer>, two_leg: bool, i: int) -> Option<Offer>
    decreases offers.len() - i,
{
    if i < 0 || i >= offers.len() {
        None
    } else if offers[i].two_leg is Some == two_leg {
        Some(offers[i])
    } else {
        offer_from(offers, two_leg, i + 1)
    }
}

/// The first offer of a quote that is a two-leg offer, or is none.
pub fn find_offer(quote: &Quote, two_leg: bool) -> (r: Option<&Offer>)
    ensures
        match r {
            Some(o) => offer_from(quote.offers@, two_leg, 0) == Some(*o),
            None => offer_from(quote.offers@, two_leg, 0) is None,
        },
{
    let mut i: usize = 0;
    while i < quote.offers.len()
        invariant
            i <= quote.offers@.len(),
            offer_from(quote.offers@, two_leg, 0) == offer_from(quote.offers@, two_leg, i as int),
        decreases quote.offers@.len() - i,
    {
        if quote.offers[i].two_leg.is_some() == two_leg {
            return Some(&quote.offers[i]);
        }
        i = i + 1;
    }
    None
}

/// What a baseline quote asks for.
#[derive(Debug)]
pub struct BaselineTerms {
    pub pay_to: String,
    pub asset: String,
    pub amount: u128,
    pub finality: String,
}

/// What [`BaselineTerms`] say.
#[verifier::ext_equal]
pub struct BaselineTermsView {
    pub pay_to: Seq<char>,
    pub asset: Seq<char>,
    pub amount: u128,
    pub finality: Seq<char>,
}

impl View for BaselineTerms {
    type V = BaselineTermsView;

    open spec fn view(&self) -> BaselineTermsView {
        BaselineTermsView {
            pay_to: self.pay_to@,
            asset: self.asset@,
            amount: self.amount,
            finality: self.finality@,
        }
    }
}

/// A text as a `u128`.
pub open spec fn text_u128(s: Option<Seq<char>>) -> Option<u128> {
    match s {
        Some(s) => match at_most(parsed(s), u128::MAX as nat) {
            Some(n) => Some(n as u128),
            None => None,
        },
        None => None,
    }
}

/// What a baseline quote asks for: the terms of its first offer that is no two-leg
/// offer.
pub open spec fn baseline_terms(quote: Quote) -> Option<BaselineTermsView> {
    match offer_from(quote.offers@, false, 0) {
        Some(offer) => match (
            member_text(offer.accept, "payTo"@),
            member_text(offer.accept, "asset"@),
            text_u128(member_text(offer.accept, "maxAmountRequired"@)),
            offer.finality,
        ) {
            (Some(pay_to), Some(asset), Some(amount), Some(finality)) => Some(
                BaselineTermsView { pay_to, asset, amount, finality: finality@ },
            ),
            _ => None,
        },
        None => None,
    }
}

/// A payment that a payer presents.
#[derive(Debug)]
pub struct Transfer {
    pub to: String,
    pub asset: String,
    pub amount: u128,
}

/// What a [`Transfer`] says.
#[verifier::ext_equal]
pub struct TransferView {
    pub to: Seq<char>,
    pub asset: Seq<char>,
    pub amount: u128,
}

impl View for Transfer {
    type V = TransferView;

    open spec fn view(&self) -> TransferView {
        TransferView { to: self.to@, asset: self.asset@, amount: self.amount }
    }
}

/// Until when a payment is honored.
pub open spec fn honor_deadline(quote: Quote) -> u64 {
    if quote.exp + quote.grace <= u64::MAX {
        (quote.exp + quote.grace) as u64
    } else {
        u64::MAX
    }
}

/// Until when a payment is honored.
pub fn deadline_of(quote: &Quote) -> (r: u64)
    ensures
        r == honor_deadline(*quote),
{
    quote.exp.saturating_add(quote.grace)
}

/// Why a leg does not count, where it does not: it is not final enough, or became so
/// too late.
pub open spec fn leg_refusal(
    levels: Seq<Seq<char>>,
    finality: Option<Finality>,
    required: Seq<char>,
    deadline: u64,
    now: u64,
) -> Option<RedeemError> {
    match finality {
        None => Some(RedeemError::PaymentUnverified),
        Some(f) => if !at_least(levels, f.level@, required) {
            if now > deadline {
                Some(RedeemError::Expired)
            } else {
                Some(RedeemError::PaymentUnverified)
            }
        } else if f.time > deadline {
            Some(RedeemError::Expired)
        } else {
            None
        },
    }
}

/// Why a leg does not count, where it does not.
pub fn check_leg_final(
    levels: &Vec<String>,
    finality: &Option<Finality>,
    required: &String,
    deadline: u64,
    now: u64,
) -> (r: Option<RedeemError>)
    ensures
        r == leg_refusal(texts(levels@), *finality, required@, deadline, now),
{
    let time: u64 = match finality {
        Some(f) => f.time,
        None => return Some(RedeemError::PaymentUnverified),
    };
    if !finality_reached(levels, finality, required) {
        return if now > deadline {
            Some(RedeemError::Expired)
        } else {
            Some(RedeemError::PaymentUnverified)
        };
    }
    if time > deadline {
        Some(RedeemError::Expired)
    } else {
        None
    }
}

/// Whether a transfer pays `amount` of `asset` to `to`, or more.
pub open spec fn pays(info: RefInfo, to: Seq<char>, asset: Seq<char>, amount: u128) -> bool {
    info.to@ == to && info.asset@ == asset && info.amount >= amount
}

/// Why a settled payment does not redeem a baseline quote, or the payment's one name.
pub open spec fn baseline_payment(
    quote: Quote,
    terms: BaselineTermsView,
    levels: Seq<Seq<char>>,
    read: RefRead,
    now: u64,
) -> Result<Seq<char>, RedeemError> {
    match leg_refusal(levels, read.finality, terms.finality, honor_deadline(quote), now) {
        Some(e) => Err(e),
        None => match read.info {
            Some(info) => if pays(info, terms.pay_to, terms.asset, terms.amount)
                && !info.canonical@.contains(PAYMENT_REF_DELIMITER) {
                Ok(info.canonical@)
            } else {
                Err(RedeemError::PaymentUnverified)
            },
            None => Err(RedeemError::PaymentUnverified),
        },
    }
}

/// Whether a signature is all zeros.
pub open spec fn is_blank(sig: [u8; 64]) -> bool {
    forall|i: int| 0 <= i < 64 ==> #[trigger] sig[i] == 0u8
}

/// What stands for the signature of an unsigned quote: zeros.
pub open spec fn blank_signature() -> [u8; 64] {
    choose|sig: [u8; 64]| is_blank(sig)
}

/// The decision that a nonce is consumed under.
pub open spec fn decision_of(quote: Quote, payment_ref: Seq<char>) -> NonceRecordView {
    NonceRecordView {
        payment_ref,
        idem: quote.idem@,
        resource: quote.resource@,
        quote_sig: match quote.signature {
            Some(sig) => sig,
            None => blank_signature(),
        },
    }
}

/// What a store's refusal is to the payer.
pub open spec fn store_refusal(e: StoreError) -> RedeemError {
    match e {
        StoreError::Replayed => RedeemError::Replayed,
        StoreError::Unavailable => RedeemError::StoreUnavailable,
    }
}

/// The decision that a nonce is consumed under.
pub fn record_of(quote: &Quote, payment_ref: &String) -> (r: NonceRecord)
    ensures
        r@ == decision_of(*quote, payment_ref@),
{
    let quote_sig: [u8; 64] = match quote.signature {
        Some(sig) => sig,
        None => {
            let blank: [u8; 64] = [0u8; 64];
            proof {
                assert(is_blank(blank));
                let other = blank_signature();
                assert forall|i: int| 0 <= i < 64 implies blank[i] == other[i] by {
                    assert(other[i] == 0u8);
                }
                assert(blank =~= other);
            }
            blank
        },
    };
    NonceRecord {
        payment_ref: payment_ref.clone(),
        idem: copy_bytes(quote.idem.as_slice()),
        resource: quote.resource.clone(),
        quote_sig,
    }
}

/// What a store's refusal is to the payer.
pub fn map_store_err(e: StoreError) -> (r: RedeemError)
    ensures
        r == store_refusal(e),
{
    match e {
        StoreError::Replayed => RedeemError::Replayed,
        StoreError::Unavailable => RedeemError::StoreUnavailable,
    }
}

/// What a store's answer is to the payer.
pub open spec fn answer_of(s: Result<Receipt, StoreError>) -> Result<Receipt, RedeemError> {
    match s {
        Ok(receipt) => Ok(receipt),
        Err(e) => Err(store_refusal(e)),
    }
}

/// What redeeming a nonce did: the store was asked to consume it under `record`, and the
/// payer is told what it answered.
pub open spec fn redemption<S: MerchantStore>(
    before: S,
    after: S,
    nonce: [u8; 32],
    record: NonceRecordView,
    built: spec_fn(Receipt) -> bool,
    r: Result<Receipt, RedeemError>,
) -> bool {
    exists|s: Result<Receipt, StoreError>, made: spec_fn(Receipt) -> bool|
        {
            &&& #[trigger] before.answered(nonce, record, made, &after, s)
            &&& forall|b: Receipt| #[trigger] made(b) ==> built(b)
            &&& consumption(
                (before.consumed(), before.used()),
                (after.consumed(), after.used()),
                nonce,
                record,
                built,
                s,
            )
            &&& r == answer_of(s)
        }
}

pub(crate) fn pass_on(s: Result<Receipt, StoreError>) -> (r: Result<Receipt, RedeemError>)
    ensures
        r == answer_of(s),
{
    match s {
        Ok(receipt) => Ok(receipt),
        Err(e) => Err(map_store_err(e)),
    }
}

fn read_baseline(quote: &Quote) -> (r: Option<BaselineTerms>)
    ensures
        match r {
            Some(terms) => baseline_terms(*quote) == Some(terms@),
            None => baseline_terms(*quote) is None,
        },
{
    let offer: &Offer = match find_offer(quote, false) {
        Some(offer) => offer,
        None => return None,
    };
    let amount: Option<u128> = match member_str(&offer.accept, "maxAmountRequired") {
        Some(s) => parse_u128(s.as_str()),
        None => None,
    };
    match (
        member_str(&offer.accept, "payTo"),
        member_str(&offer.accept, "asset"),
        amount,
        &offer.finality,
    ) {
        (Some(pay_to), Some(asset), Some(amount), Some(finality)) => Some(
            BaselineTerms { pay_to, asset, amount, finality: finality.clone() },
        ),
        _ => None,
    }
}

/// A baseline quote that was accepted, with its terms. Only
/// [`Merchant::check_baseline`] makes one.
#[derive(Debug)]
pub struct CheckedQuote {
    quote: Quote,
    terms: BaselineTerms,
    resource: String,
}

impl CheckedQuote {
    /// The quote.
    pub closed spec fn quoted(&self) -> Quote {
        self.quote
    }

    /// What it asks for.
    pub closed spec fn asked(&self) -> BaselineTermsView {
        self.terms@
    }

    /// The resource that is served for it.
    pub closed spec fn served(&self) -> Seq<char> {
        self.resource@
    }

    /// What was tested: the terms are the quote's own, and it is a quote for the
    /// resource that is served.
    pub open spec fn wf(&self) -> bool {
        &&& baseline_terms(self.quoted()) == Some(self.asked())
        &&& self.quoted().resource@ == self.served()
    }

    /// The quote.
    pub fn quote(&self) -> (q: &Quote)
        ensures
            *q == self.quoted(),
    {
        &self.quote
    }

    /// What it asks for.
    pub fn terms(&self) -> (t: &BaselineTerms)
        ensures
            t@ == self.asked(),
    {
        &self.terms
    }
}

/// A payment that may be settled for an accepted quote. Only
/// [`Merchant::check_transfer`] makes one.
#[derive(Debug)]
pub struct BaselineOrder {
    checked: CheckedQuote,
    split: String,
    transfer: Transfer,
}

impl BaselineOrder {
    /// The accepted quote.
    pub closed spec fn checked(&self) -> CheckedQuote {
        self.checked
    }

    /// The split that is derived from it.
    pub closed spec fn split(&self) -> Seq<char> {
        self.split@
    }

    /// The payment that the payer presented.
    pub closed spec fn presented(&self) -> TransferView {
        self.transfer@
    }

    /// What was tested: the quote pays to the split that is derived from it, and the
    /// presented payment pays what the quote asks for, to the same place.
    pub open spec fn wf(&self) -> bool {
        let terms = self.checked().asked();
        &&& self.checked().wf()
        &&& terms.pay_to == self.split()
        &&& self.presented().to == terms.pay_to
        &&& self.presented().asset == terms.asset
        &&& self.presented().amount >= terms.amount
    }
}

/// What redeeming a baseline quote did: only where the rail shows a payment that meets
/// the quote's own terms, at the quoted finality in time, was its nonce consumed, bound
/// to the payment; else the store is as it was.
pub open spec fn baseline_redeemed<S: MerchantStore>(
    before: S,
    after: S,
    order: BaselineOrder,
    levels: Seq<Seq<char>>,
    read: RefRead,
    now: u64,
    built: spec_fn(Receipt) -> bool,
    r: Result<Receipt, RedeemError>,
) -> bool {
    let quote = order.checked().quoted();
    match baseline_payment(quote, order.checked().asked(), levels, read, now) {
        Ok(canonical) => redemption(
            before,
            after,
            quote.nonce,
            decision_of(quote, canonical),
            built,
            r,
        ),
        Err(e) => after == before && r == Err::<Receipt, RedeemError>(e),
    }
}

/// A merchant: its identity key, and where its share is paid out.
#[derive(Debug)]
pub struct Merchant {
    pub key: [u8; 32],
    pub payout: String,
}

/// The payment requirements that a baseline offer mirrors.
#[derive(Debug)]
pub struct PaymentRequirements {
    pub scheme: String,
    pub network: String,
    pub max_amount_required: String,
    pub asset: String,
    pub pay_to: String,
    pub resource: String,
    pub description: String,
    pub mime_type: String,
    pub max_timeout_seconds: u64,
}

impl Merchant {
    /// A merchant.
    pub fn new(key: [u8; 32], payout: String) -> (m: Merchant)
        ensures
            m.key == key,
            m.payout@ == payout@,
    {
        Merchant { key, payout }
    }

    /// The payment requirements of a baseline offer: exactly `amount` of `asset`, to
    /// the split.
    pub fn baseline_requirements(
        network: &String,
        amount: u128,
        asset: &String,
        split_address: &String,
        resource: &String,
        max_timeout_seconds: u64,
    ) -> (r: PaymentRequirements)
        ensures
            r.scheme@ == "exact"@,
            r.network@ == network@,
            r.max_amount_required@ == digits_of(amount as nat),
            r.asset@ == asset@,
            r.pay_to@ == split_address@,
            r.resource@ == resource@,
            r.description@ == ""@,
            r.mime_type@ == "application/json"@,
            r.max_timeout_seconds == max_timeout_seconds,
    {
        PaymentRequirements {
            scheme: "exact".to_owned(),
            network: network.clone(),
            max_amount_required: decimal(amount),
            asset: asset.clone(),
            pay_to: split_address.clone(),
            resource: resource.clone(),
            description: "".to_owned(),
            mime_type: "application/json".to_owned(),
            max_timeout_seconds,
        }
    }

    /// Accepts a presented baseline quote, and reads what it asks for. `quote` is the
    /// quote where it verifies under the merchant's key; `governed` says whether its
    /// meed vector is the governed one.
    pub fn check_baseline(quote: Option<Quote>, governed: bool, expected_resource: &String) -> (r: Result<
        CheckedQuote,
        RedeemError,
    >)
        ensures
            match r {
                Ok(checked) => {
                    &&& checked.wf()
                    &&& governed
                    &&& quote == Some(checked.quoted())
                    &&& checked.served() == expected_resource@
                },
                Err(e) => {
                    &&& e == RedeemError::QuoteInvalid
                    &&& quote is None || !governed || (quote->0).resource@ != expected_resource@
                        || baseline_terms(quote->0) is None
                },
            },
    {
        let q: Quote = match quote {
            Some(q) => q,
            None => return Err(RedeemError::QuoteInvalid),
        };
        if !governed || q.resource != *expected_resource {
            return Err(RedeemError::QuoteInvalid);
        }
        match read_baseline(&q) {
            Some(terms) => Ok(CheckedQuote { quote: q, terms, resource: expected_resource.clone() }),
            None => Err(RedeemError::QuoteInvalid),
        }
    }

    /// Whether a presented payment may be settled for a quote: the quote pays to the
    /// split derived from it, and the payment meets the quote. Tested before anything
    /// is settled.
    pub fn check_transfer(checked: CheckedQuote, split_address: &Option<String>, transfer: &Transfer) -> (r:
        Result<BaselineOrder, RedeemError>)
        requires
            checked.wf(),
        ensures
            ({
                let terms = checked.asked();
                let derived = match *split_address {
                    Some(a) => a@ == terms.pay_to,
                    None => false,
                };
                let meets = transfer.to@ == terms.pay_to && transfer.asset@ == terms.asset
                    && transfer.amount >= terms.amount;
                if !derived {
                    r == Err::<BaselineOrder, RedeemError>(RedeemError::QuoteInvalid)
                } else if !meets {
                    r == Err::<BaselineOrder, RedeemError>(RedeemError::PaymentUnverified)
                } else {
                    r matches Ok(order) && {
                        &&& order.wf()
                        &&& order.checked() == checked
                        &&& order.split() == (split_address->0)@
                        &&& order.presented() == transfer@
                    }
                }
            }),
    {
        let derived: bool = match split_address {
            Some(a) => *a == checked.terms.pay_to,
            None => false,
        };
        if !derived {
            return Err(RedeemError::QuoteInvalid);
        }
        if transfer.to != checked.terms.pay_to || transfer.asset != checked.terms.asset || transfer.amount
            < checked.terms.amount {
            return Err(RedeemError::PaymentUnverified);
        }
        match split_address {
            Some(split) => Ok(
                BaselineOrder {
                    checked,
                    split: split.clone(),
                    transfer: Transfer {
                        to: transfer.to.clone(),
                        asset: transfer.asset.clone(),
                        amount: transfer.amount,
                    },
                },
            ),
            None => Err(RedeemError::QuoteInvalid),
        }
    }

    /// Whether a settled payment redeems a quote, and by what name. `read` is what
    /// the rail says of the payment; nothing where it was not settled.
    pub fn confirm_payment(
        quote: &Quote,
        terms: &BaselineTerms,
        levels: &Vec<String>,
        read: &RefRead,
        now: u64,
    ) -> (r: Result<String, RedeemError>)
        ensures
            match baseline_payment(*quote, terms@, texts(levels@), *read, now) {
                Ok(canonical) => r matches Ok(s) && s@ == canonical,
                Err(e) => r == Err::<String, RedeemError>(e),
            },
    {
        if let Some(e) = check_leg_final(
            levels,
            &read.finality,
            &terms.finality,
            deadline_of(quote),
            now,
        ) {
            return Err(e);
        }
        match &read.info {
            Some(info) => {
                if info.to != terms.pay_to || info.asset != terms.asset || info.amount < terms.amount
                    || has_reserved_ref_delimiter(info.canonical.as_str()) {
                    return Err(RedeemError::PaymentUnverified);
                }
                Ok(info.canonical.clone())
            },
            None => Err(RedeemError::PaymentUnverified),
        }
    }

    /// Redeems a baseline quote whose payment was settled, on a store of any kind: only
    /// a payment that is confirmed consumes the nonce, bound to the payment, before
    /// anything is delivered.
    pub fn redeem_baseline_inner<S: MerchantStore, B: FnOnce() -> Receipt>(
        store: &mut S,
        order: &BaselineOrder,
        levels: &Vec<String>,
        read: &RefRead,
        now: u64,
        build: B,
    ) -> (r: Result<Receipt, RedeemError>)
        requires
            old(store).wf(),
            order.wf(),
            build.requires(()),
        ensures
            final(store).wf(),
            baseline_redeemed(
                *old(store),
                *final(store),
                *order,
                texts(levels@),
                *read,
                now,
                |b: Receipt| build.ensures((), b),
                r,
            ),
    {
        let quote: &Quote = &order.checked.quote;
        let canonical: String = match Self::confirm_payment(
            quote,
            &order.checked.terms,
            levels,
            read,
            now,
        ) {
            Ok(canonical) => canonical,
            Err(e) => return Err(e),
        };
        let record: NonceRecord = record_of(quote, &canonical);
        let s: Result<Receipt, StoreError> = store.consume_nonce(quote.nonce, &record, build);
        assert(old(store).answered(
            quote.nonce,
            record@,
            |b: Receipt| build.ensures((), b),
            store,
            s,
        ));
        pass_on(s)
    }

    /// Redeems a baseline quote whose payment was settled. The store is a durable one, so
    /// that a restart forgets no consumed nonce.
    pub fn redeem_baseline<S: DurableMerchantStore, B: FnOnce() -> Receipt>(
        store: &mut S,
        order: &BaselineOrder,
        levels: &Vec<String>,
        read: &RefRead,
        now: u64,
        build: B,
    ) -> (r: Result<Receipt, RedeemError>)
        requires
            old(store).wf(),
            order.wf(),
            build.requires(()),
        ensures
            final(store).wf(),
            baseline_redeemed(
                *old(store),
                *final(store),
                *order,
                texts(levels@),
                *read,
                now,
                |b: Receipt| build.ensures((), b),
                r,
            ),
    {
        Self::redeem_baseline_inner(store, order, levels, read, now, build)
    }
}

/// Over a healthy log a redemption is answered by what was consumed alone: a fresh nonce
/// is consumed wherever its row can be framed, an exact retry gets the stored receipt, and
/// anything else is a replay; only the first changes the store, and the log stays healthy.
pub proof fn law_healthy_log_redeems<F: LogMedium>(
    before: WalMerchantStore<F>,
    after: WalMerchantStore<F>,
    nonce: [u8; 32],
    record: NonceRecordView,
    built: spec_fn(Receipt) -> bool,
    r: Result<Receipt, RedeemError>,
)
    requires
        before.healthy(),
        recordable(record),
        receipts_fit(built),
        redemption(before, after, nonce, record, built, r),
    ensures
        after.healthy(),
        nonce_fresh(before.consumed(), before.used(), nonce, record) ==> {
            &&& r matches Ok(receipt) && after.consumed() == before.consumed().insert(
                nonce,
                (record, receipt@),
            )
            &&& after.used() == before.used().union(ref_keys(record.payment_ref))
        },
        before.consumed().dom().contains(nonce) && before.consumed()[nonce].0 == record ==> {
            &&& r matches Ok(receipt) && receipt@ == before.consumed()[nonce].1
            &&& after == before
        },
        !nonce_fresh(before.consumed(), before.used(), nonce, record) && !(
        before.consumed().dom().contains(nonce) && before.consumed()[nonce].0 == record) ==> {
            &&& r == Err::<Receipt, RedeemError>(store_refusal(StoreError::Replayed))
            &&& after == before
        },
{
}

/// Settlement precedes delivery: a payment that was not settled, or that the rail does
/// not show, redeems nothing.
pub proof fn law_unsettled_redeems_nothing(
    quote: Quote,
    terms: BaselineTermsView,
    levels: Seq<Seq<char>>,
    read: RefRead,
    now: u64,
)
    requires
        read.finality is None || read.info is None,
    ensures
        baseline_payment(quote, terms, levels, read, now) is Err,
{
}

/// A baseline redemption rests on the quote's own terms: a receipt means that the quote is
/// one for the resource that is served, that it pays to the split derived from it, as the
/// presented payment does, and that the rail shows the quoted amount of the quoted asset
/// there, at the quoted finality by the deadline.
pub proof fn law_baseline_rests_on_the_quote<S: MerchantStore>(
    before: S,
    after: S,
    order: BaselineOrder,
    levels: Seq<Seq<char>>,
    read: RefRead,
    now: u64,
    built: spec_fn(Receipt) -> bool,
    r: Result<Receipt, RedeemError>,
)
    requires
        order.wf(),
        baseline_redeemed(before, after, order, levels, read, now, built, r),
        r is Ok,
    ensures
        ({
            let quote = order.checked().quoted();
            &&& quote.resource@ == order.checked().served()
            &&& baseline_terms(quote) matches Some(terms) && {
                &&& terms.pay_to == order.split()
                &&& order.presented().to == terms.pay_to
                &&& order.presented().asset == terms.asset
                &&& order.presented().amount >= terms.amount
                &&& read.info matches Some(info) && pays(info, terms.pay_to, terms.asset, terms.amount)
                &&& read.finality matches Some(f) && at_least(levels, f.level@, terms.finality) && f.time
                    <= honor_deadline(quote)
            }
        }),
{
}

/// A payment that became final enough in time is honored, however late it is
/// presented.
pub proof fn law_timely_payment_is_honored(
    quote: Quote,
    terms: BaselineTermsView,
    levels: Seq<Seq<char>>,
    read: RefRead,
    now: u64,
)
    requires
        read.finality is Some,
        read.info is Some,
        at_least(levels, (read.finality->0).level@, terms.finality),
        (read.finality->0).time <= honor_deadline(quote),
        pays(read.info->0, terms.pay_to, terms.asset, terms.amount),
        !(read.info->0).canonical@.contains(PAYMENT_REF_DELIMITER),
    ensures
        baseline_payment(quote, terms, levels, read, now) == Ok::<Seq<char>, RedeemError>(
            (read.info->0).canonical@,
        ),
{
}

/// A payment redeems a baseline quote exactly where the rail shows the quoted amount or more,
/// of the quoted asset, at the quoted destination, at the quoted finality or a stronger one,
/// reached no later than the quote's expiry and its grace, under a name that is not a joined
/// one; and the nonce is bound to the rail's own name for it.
pub proof fn law_which_payments_redeem(
    quote: Quote,
    terms: BaselineTermsView,
    levels: Seq<Seq<char>>,
    read: RefRead,
    now: u64,
    name: Seq<char>,
)
    ensures
        baseline_payment(quote, terms, levels, read, now) == Ok::<Seq<char>, RedeemError>(name) <==> {
            &&& read.finality matches Some(f) && {
                &&& at_least(levels, f.level@, terms.finality)
                &&& f.time <= quote.exp + quote.grace
            }
            &&& read.info matches Some(info) && {
                &&& info.to@ == terms.pay_to
                &&& info.asset@ == terms.asset
                &&& info.amount >= terms.amount
                &&& !info.canonical@.contains('|')
                &&& info.canonical@ == name
            }
        },
{
}

/// A leg that does not count is told why: it expired where it became final too late, or is not
/// final enough when the deadline has passed; else it is not verified, and may be yet.
pub proof fn law_a_late_leg_has_expired(
    levels: Seq<Seq<char>>,
    finality: Option<Finality>,
    required: Seq<char>,
    deadline: u64,
    now: u64,
)
    ensures
        leg_refusal(levels, finality, required, deadline, now) is None <==> (finality matches Some(f)
            && at_least(levels, f.level@, required) && f.time <= deadline),
        leg_refusal(levels, finality, required, deadline, now) == Some(RedeemError::Expired) <==> (
        finality matches Some(f) && if at_least(levels, f.level@, required) {
            f.time > deadline
        } else {
            now > deadline
        }),
        leg_refusal(levels, finality, required, deadline, now) == Some(RedeemError::PaymentUnverified)
            <==> (finality matches Some(f) ==> !at_least(levels, f.level@, required) && now <= deadline),
{
}

/// The deadline is the expiry and the grace together; a payment meets it exactly where it is
/// no later than both.
pub proof fn law_the_deadline_is_expiry_and_grace(quote: Quote, time: u64)
    ensures
        time <= honor_deadline(quote) <==> time <= quote.exp + quote.grace,
{
}

proof fn lemma_offer_found(offers: Seq<Offer>, two_leg: bool, i: int)
    requires
        0 <= i <= offers.len(),
    ensures
        match offer_from(offers, two_leg, i) {
            Some(offer) => exists|k: int|
                {
                    &&& i <= k < offers.len()
                    &&& #[trigger] offers[k] == offer
                    &&& offer.two_leg is Some == two_leg
                    &&& forall|j: int| i <= j < k ==> (#[trigger] offers[j]).two_leg is Some != two_leg
                },
            None => forall|j: int| i <= j < offers.len() ==> (#[trigger] offers[j]).two_leg is Some != two_leg,
        },
    decreases offers.len() - i,
{
    if i < offers.len() {
        if offers[i].two_leg is Some == two_leg {
            assert(offers[i] == offer_from(offers, two_leg, i)->0);
        } else {
            lemma_offer_found(offers, two_leg, i + 1);
            if let Some(offer) = offer_from(offers, two_leg, i) {
                let k = choose|k: int|
                    {
                        &&& i + 1 <= k < offers.len()
                        &&& #[trigger] offers[k] == offer
                        &&& offer.two_leg is Some == two_leg
                        &&& forall|j: int|
                            i + 1 <= j < k ==> (#[trigger] offers[j]).two_leg is Some != two_leg
                    };
                assert(offers[k] == offer);
            }
        }
    }
}

/// The offer that counts is the first of its kind: a baseline quote goes by its first offer
/// without a meed leg, a two-leg quote by its first with one.
pub proof fn law_the_first_offer_of_a_kind_counts(offers: Seq<Offer>, two_leg: bool)
    ensures
        match offer_from(offers, two_leg, 0) {
            Some(offer) => exists|k: int|
                {
                    &&& 0 <= k < offers.len()
                    &&& #[trigger] offers[k] == offer
                    &&& offer.two_leg is Some == two_leg
                    &&& forall|j: int| 0 <= j < k ==> (#[trigger] offers[j]).two_leg is Some != two_leg
                },
            None => forall|j: int| 0 <= j < offers.len() ==> (#[trigger] offers[j]).two_leg is Some != two_leg,
        },
{
    lemma_offer_found(offers, two_leg, 0);
}

proof fn lemma_member_found(members: Seq<(String, StrictValue)>, key: Seq<char>, i: int)
    requires
        0 <= i <= members.len(),
    ensures
        match member_from(members, key, i) {
            Some(value) => exists|k: int|
                {
                    &&& i <= k < members.len()
                    &&& (#[trigger] members[k]).0@ == key
                    &&& members[k].1 == value
                    &&& forall|j: int| i <= j < k ==> (#[trigger] members[j]).0@ != key
                },
            None => forall|j: int| i <= j < members.len() ==> (#[trigger] members[j]).0@ != key,
        },
    decreases members.len() - i,
{
    if i < members.len() {
        if members[i].0@ != key {
            lemma_member_found(members, key, i + 1);
            if let Some(value) = member_from(members, key, i) {
                let k = choose|k: int|
                    {
                        &&& i + 1 <= k < members.len()
                        &&& (#[trigger] members[k]).0@ == key
                        &&& members[k].1 == value
                        &&& forall|j: int| i + 1 <= j < k ==> (#[trigger] members[j]).0@ != key
                    };
                assert(members[k].0@ == key);
            }
        } else {
            assert(members[i].0@ == key);
        }
    }
}

/// The value of a member is that of the first member by its name; what is no object has none.
pub proof fn law_the_first_member_of_a_name_counts(members: Vec<(String, StrictValue)>, key: Seq<char>)
    ensures
        match member_of(StrictValue::Object(members), key) {
            Some(value) => exists|k: int|
                {
                    &&& 0 <= k < members@.len()
                    &&& (#[trigger] members@[k]).0@ == key
                    &&& members@[k].1 == value
                    &&& forall|j: int| 0 <= j < k ==> (#[trigger] members@[j]).0@ != key
                },
            None => forall|j: int| 0 <= j < members@.len() ==> (#[trigger] members@[j]).0@ != key,
        },
        member_of(StrictValue::Other, key) is None,
{
    lemma_member_found(members@, key, 0);
}

/// What a baseline quote asks for is what its offer says: the destination, the asset, the
/// amount in decimal, and the finality; a quote that leaves one out asks for nothing.
pub proof fn law_baseline_terms_are_the_offers_own(quote: Quote, terms: BaselineTermsView)
    ensures
        baseline_terms(quote) == Some(terms) <==> (offer_from(quote.offers@, false, 0) matches Some(offer) && {
            &&& member_of(offer.accept, "payTo"@) matches Some(StrictValue::String(s)) && s@ == terms.pay_to
            &&& member_of(offer.accept, "asset"@) matches Some(StrictValue::String(s)) && s@ == terms.asset
            &&& member_of(offer.accept, "maxAmountRequired"@) matches Some(StrictValue::String(s)) && parsed(
                s@,
            ) == Some(terms.amount as nat)
            &&& offer.finality matches Some(s) && s@ == terms.finality
        }),
{
}

/// A nonce is consumed under the payment that redeemed it: what is recorded names the rail's
/// own reference, and the quote's key, resource and signature.
pub proof fn law_a_consumed_nonce_names_its_payment<S: MerchantStore>(
    before: S,
    after: S,
    order: BaselineOrder,
    levels: Seq<Seq<char>>,
    read: RefRead,
    now: u64,
    built: spec_fn(Receipt) -> bool,
    r: Result<Receipt, RedeemError>,
)
    requires
        baseline_redeemed(before, after, order, levels, read, now, built, r),
        r is Ok,
    ensures
        ({
            let quote = order.checked().quoted();
            &&& after.consumed().dom().contains(quote.nonce)
            &&& after.consumed()[quote.nonce].0.payment_ref == (read.info->0).canonical@
            &&& after.consumed()[quote.nonce].0.idem == quote.idem@
            &&& after.consumed()[quote.nonce].0.resource == quote.resource@
            &&& quote.signature matches Some(sig) ==> after.consumed()[quote.nonce].0.quote_sig == sig
            &&& after.consumed()[quote.nonce].1 == (r->Ok_0)@
            &&& forall|nonce: [u8; 32]| #[trigger]
                before.consumed().dom().contains(nonce) ==> after.consumed().dom().contains(nonce)
                    && after.consumed()[nonce] == before.consumed()[nonce]
        }),
{
}

} // verus!
