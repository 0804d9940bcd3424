use paytp_merchant::rail::{Finality, RefInfo, RefRead};
use paytp_merchant::redeem::{
    find_offer, member, member_str, BaselineOrder, CheckedQuote, Merchant, Offer, Quote, RedeemError,
    StrictValue, Transfer,
};
use paytp_merchant::store::{InMemoryStore, PaidLeg, Receipt};
use paytp_merchant::twoleg::{
    entry_window, two_leg_offer, EntryStatus, TwoLegClaim, TwoLegParams, TwoLegReads, TwoLegTerms,
    MAX_TIME,
};

const NONCE: [u8; 32] = [0x11; 32];
const ENTRY: [u8; 32] = [0x22; 32];
const EXP: u64 = 1_000;
const GRACE: u64 = 100;

fn levels() -> Vec<String> {
    vec!["pending".to_string(), "confirmed".to_string(), "final".to_string()]
}

fn text(s: &str) -> StrictValue {
    StrictValue::String(s.to_string())
}

fn object(members: Vec<(&str, StrictValue)>) -> StrictValue {
    StrictValue::Object(members.into_iter().map(|(k, v)| (k.to_string(), v)).collect())
}

fn quote_with(offers: Vec<Offer>) -> Quote {
    Quote {
        resource: "https://example/res".to_string(),
        nonce: NONCE,
        exp: EXP,
        grace: GRACE,
        idem: vec![1, 2, 3],
        baseline: "solana:dev".to_string(),
        offers,
        signature: Some([9; 64]),
    }
}

fn baseline_offer(amount: &str, finality: Option<&str>) -> Offer {
    Offer {
        accept: object(vec![
            ("payTo", text("split")),
            ("asset", text("usdc")),
            ("maxAmountRequired", text(amount)),
        ]),
        finality: finality.map(|f| f.to_string()),
        merchant_net: Some("net".to_string()),
        two_leg: None,
    }
}

fn baseline_quote() -> Quote {
    quote_with(vec![baseline_offer("500", Some("confirmed"))])
}

fn resource() -> String {
    "https://example/res".to_string()
}

fn checked(quote: Quote) -> CheckedQuote {
    Merchant::check_baseline(Some(quote), true, &resource()).unwrap()
}

fn order(quote: Quote) -> BaselineOrder {
    let split = Some("split".to_string());
    Merchant::check_transfer(checked(quote), &split, &transfer("split", "usdc", 500)).unwrap()
}

fn paid(amount: u128, level: &str, time: u64) -> RefRead {
    RefRead {
        info: Some(RefInfo {
            to: "split".to_string(),
            asset: "usdc".to_string(),
            amount,
            memo: None,
            canonical: "canon".to_string(),
            advanced: None,
            funds_entry: None,
        }),
        finality: Some(Finality {
            level: level.to_string(),
            time,
        }),
    }
}

fn receipt(reference: &str) -> Receipt {
    Receipt {
        nonce: NONCE,
        idem: vec![1, 2, 3],
        resource: resource(),
        paid: vec![PaidLeg {
            leg: "split".to_string(),
            network: "solana:dev".to_string(),
            reference: reference.to_string(),
        }],
        entry: None,
        ts: 7,
        json: b"signed".to_vec(),
    }
}

fn transfer(to: &str, asset: &str, amount: u128) -> Transfer {
    Transfer {
        to: to.to_string(),
        asset: asset.to_string(),
        amount,
    }
}

#[test]
fn members_are_found_by_their_first_occurrence() {
    let v = object(vec![("a", StrictValue::Other), ("b", text("x")), ("b", text("y"))]);
    assert_eq!(member_str(&v, "b"), Some("x".to_string()));
    assert_eq!(member_str(&v, "a"), None);
    assert!(matches!(member(&v, "a"), Some(StrictValue::Other)));
    assert!(member(&v, "c").is_none());
    assert!(member(&text("b"), "b").is_none());
}

#[test]
fn a_baseline_quote_says_what_to_pay() {
    let c = checked(baseline_quote());
    let t = c.terms();
    assert_eq!(c.quote().nonce, NONCE);
    assert_eq!(
        (t.pay_to.as_str(), t.asset.as_str(), t.amount, t.finality.as_str()),
        ("split", "usdc", 500, "confirmed")
    );
}

#[test]
fn a_quote_that_is_not_ours_is_invalid() {
    let check = |q: Option<Quote>, governed: bool, resource: &str| {
        Merchant::check_baseline(q, governed, &resource.to_string()).err()
    };
    let invalid = Some(RedeemError::QuoteInvalid);
    assert_eq!(check(None, true, "https://example/res"), invalid);
    assert_eq!(check(Some(baseline_quote()), false, "https://example/res"), invalid);
    assert_eq!(check(Some(baseline_quote()), true, "https://example/other"), invalid);
    assert_eq!(check(Some(quote_with(Vec::new())), true, "https://example/res"), invalid);
    for bad in [
        baseline_offer("500", None),
        baseline_offer("", Some("final")),
        baseline_offer("5x", Some("final")),
        baseline_offer("340282366920938463463374607431768211456", Some("final")),
    ] {
        assert_eq!(check(Some(quote_with(vec![bad])), true, "https://example/res"), invalid);
    }
    // A leading plus or zero is read as a number.
    let lax = quote_with(vec![baseline_offer("+0500", Some("final"))]);
    assert_eq!(check(Some(lax), true, "https://example/res"), None);
}

#[test]
fn a_transfer_is_tested_before_it_is_settled() {
    let split = Some("split".to_string());
    let check = |split: &Option<String>, t: &Transfer| {
        Merchant::check_transfer(checked(baseline_quote()), split, t).err()
    };
    assert_eq!(check(&split, &transfer("split", "usdc", 500)), None);
    assert_eq!(check(&split, &transfer("split", "usdc", 501)), None);
    for bad in [
        transfer("other", "usdc", 500),
        transfer("split", "eur", 500),
        transfer("split", "usdc", 499),
    ] {
        assert_eq!(check(&split, &bad), Some(RedeemError::PaymentUnverified));
    }
    for derived in [None, Some("elsewhere".to_string())] {
        assert_eq!(
            check(&derived, &transfer("split", "usdc", 500)),
            Some(RedeemError::QuoteInvalid)
        );
    }
}

#[test]
fn a_payment_counts_from_its_quoted_finality_on_and_until_the_grace_ends() {
    let confirm = |read: &RefRead, now: u64| {
        let c = checked(baseline_quote());
        Merchant::confirm_payment(c.quote(), c.terms(), &levels(), read, now)
    };
    assert_eq!(confirm(&paid(500, "confirmed", 1_100), 5_000), Ok("canon".to_string()));
    assert_eq!(confirm(&paid(500, "final", 10), 20), Ok("canon".to_string()));
    assert_eq!(confirm(&paid(500, "final", 1_101), 1_102), Err(RedeemError::Expired));
    assert_eq!(confirm(&paid(500, "pending", 10), 1_100), Err(RedeemError::PaymentUnverified));
    assert_eq!(confirm(&paid(500, "pending", 10), 1_101), Err(RedeemError::Expired));
    assert_eq!(confirm(&paid(500, "unheard", 10), 20), Err(RedeemError::PaymentUnverified));
    assert_eq!(confirm(&paid(499, "final", 10), 20), Err(RedeemError::PaymentUnverified));
    let mut unknown = paid(500, "final", 10);
    unknown.info = None;
    assert_eq!(confirm(&unknown, 20), Err(RedeemError::PaymentUnverified));
    unknown.finality = None;
    assert_eq!(confirm(&unknown, 9_999), Err(RedeemError::PaymentUnverified));
    let mut delimited = paid(500, "final", 10);
    delimited.info.as_mut().unwrap().canonical = "a|b".to_string();
    assert_eq!(confirm(&delimited, 20), Err(RedeemError::PaymentUnverified));
}

#[test]
fn a_payment_redeems_one_nonce_and_a_retry_gets_its_receipt() {
    let mut store = InMemoryStore::new();
    let ours = order(baseline_quote());
    let read = paid(500, "final", 10);
    // An unsettled payment redeems nothing.
    let pending = paid(500, "pending", 10);
    assert_eq!(
        Merchant::redeem_baseline_inner(&mut store, &ours, &levels(), &pending, 20, || receipt("r0")).err(),
        Some(RedeemError::PaymentUnverified)
    );
    let first =
        Merchant::redeem_baseline_inner(&mut store, &ours, &levels(), &read, 20, || receipt("r1")).unwrap();
    assert_eq!(first.paid[0].reference, "r1");
    let again = Merchant::redeem_baseline_inner(&mut store, &ours, &levels(), &read, 30, || -> Receipt {
        panic!("built once")
    })
    .unwrap();
    assert_eq!((again.paid[0].reference.as_str(), again.ts), ("r1", 7));
    // The same payment for another nonce.
    let mut other = baseline_quote();
    other.nonce = [0x33; 32];
    assert_eq!(
        Merchant::redeem_baseline_inner(&mut store, &order(other), &levels(), &read, 20, || {
            receipt("r2")
        })
        .err(),
        Some(RedeemError::Replayed)
    );
}

#[test]
fn the_requirements_of_a_baseline_offer() {
    let r = Merchant::baseline_requirements(
        &"solana-devnet".to_string(),
        12_345,
        &"usdc".to_string(),
        &"split".to_string(),
        &resource(),
        60,
    );
    assert_eq!(r.scheme, "exact");
    assert_eq!(r.network, "solana-devnet");
    assert_eq!(r.max_amount_required, "12345");
    assert_eq!(r.asset, "usdc");
    assert_eq!(r.pay_to, "split");
    assert_eq!(r.resource, "https://example/res");
    assert_eq!(r.description, "");
    assert_eq!(r.mime_type, "application/json");
    assert_eq!(r.max_timeout_seconds, 60);
    let m = Merchant::new([3; 32], "payout".to_string());
    assert_eq!((m.key, m.payout.as_str()), ([3; 32], "payout"));
}

// --- two legs ---

fn params() -> TwoLegParams {
    TwoLegParams {
        exp: EXP,
        grace: GRACE,
        net_network: "eip155:1".to_string(),
        net_asset: "eur".to_string(),
        net_amount: 9_900,
        baseline_asset: "usdc".to_string(),
        meed_amount: 100,
        rate: "1.08".to_string(),
        rate_source: "oracle".to_string(),
        reclaim: 3_600,
        contest: 600,
        fin_meed: "final".to_string(),
        fin_net: "confirmed".to_string(),
    }
}

fn two_leg_quote() -> Quote {
    quote_with(vec![
        baseline_offer("500", Some("final")),
        two_leg_offer(&params(), &"payout".to_string()),
    ])
}

fn two_leg_terms() -> TwoLegTerms {
    Merchant::read_two_leg(&two_leg_quote()).unwrap()
}

fn reads(entry: EntryStatus) -> TwoLegReads {
    let mut meed = paid(100, "final", 10);
    let info = meed.info.as_mut().unwrap();
    info.to = "instance".to_string();
    info.memo = Some(NONCE);
    info.funds_entry = Some(ENTRY);
    let mut net = paid(9_900, "confirmed", 20);
    let info = net.info.as_mut().unwrap();
    info.to = "payout".to_string();
    info.asset = "eur".to_string();
    info.memo = Some(NONCE);
    TwoLegReads {
        meed,
        net,
        entry,
        latency: 30,
    }
}

fn claim(net: &str) -> TwoLegClaim {
    Merchant::check_two_leg(
        Some(two_leg_quote()),
        true,
        true,
        &resource(),
        &"m".to_string(),
        &net.to_string(),
    )
    .unwrap()
}

fn verify(reads: &TwoLegReads, now: u64) -> Result<(), RedeemError> {
    Merchant::verify_two_leg(claim("n"), &ENTRY, &levels(), reads, now).map(|_| ())
}

#[test]
fn a_built_offer_is_read_back() {
    assert!(find_offer(&two_leg_quote(), true).unwrap().two_leg.is_some());
    assert!(find_offer(&two_leg_quote(), false).unwrap().two_leg.is_none());
    let t = two_leg_terms();
    assert_eq!(t.net_pay_to, "payout");
    assert_eq!((t.net_asset.as_str(), t.net_amount), ("eur", 9_900));
    assert_eq!((t.baseline_asset.as_str(), t.meed_amount), ("usdc", 100));
    assert_eq!((t.t_open, t.t_lapse, t.contest), (1_100, 4_700, 600));
    assert_eq!((t.fin_meed.as_str(), t.fin_net.as_str()), ("final", "confirmed"));
    assert_eq!(entry_window(EXP, GRACE, 3_600), (1_100, 4_700));
    assert_eq!(entry_window(u64::MAX, 1, 1), (u64::MAX, u64::MAX));
}

fn with_leg(key: &str, value: StrictValue) -> Quote {
    let mut offer = two_leg_offer(&params(), &"payout".to_string());
    if let Some(StrictValue::Object(m)) = &mut offer.two_leg {
        for row in m.iter_mut() {
            if row.0 == key {
                row.1 = StrictValue::Other;
            }
        }
        m.retain(|row| row.0 != key);
        m.push((key.to_string(), value));
    }
    quote_with(vec![offer])
}

#[test]
fn a_two_leg_offer_is_canonical_or_invalid() {
    let read = |q: Quote| Merchant::read_two_leg(&q).err();
    let invalid = Some(RedeemError::QuoteInvalid);
    assert_eq!(read(quote_with(vec![baseline_offer("500", Some("final"))])), invalid);
    assert_eq!(read(with_leg("meed", text("0100"))), invalid);
    assert_eq!(read(with_leg("meed", text("+100"))), invalid);
    assert_eq!(read(with_leg("reclaim", text("9007199254740992"))), invalid);
    assert_eq!(read(with_leg("reclaim", text("9007199254740991"))), None);
    assert_eq!(MAX_TIME, 9_007_199_254_740_991);
    assert_eq!(read(with_leg("contest", StrictValue::Other)), invalid);
    assert_eq!(read(with_leg("finality", text("final"))), invalid);
    let mut late = two_leg_quote();
    late.exp = u64::MAX;
    assert_eq!(read(late), invalid);
    // The older name of the net amount is read where the current one is missing.
    let mut offer = two_leg_offer(&params(), &"payout".to_string());
    if let StrictValue::Object(m) = &mut offer.accept {
        for row in m.iter_mut() {
            if row.0 == "maxAmountRequired" {
                row.0 = "amount".to_string();
            }
        }
    }
    assert_eq!(Merchant::read_two_leg(&quote_with(vec![offer])).unwrap().net_amount, 9_900);
}

#[test]
fn both_legs_and_the_entry_are_verified() {
    assert_eq!(verify(&reads(EntryStatus::Funded), 50), Ok(()));
    assert_eq!(verify(&reads(EntryStatus::Attested), 50), Ok(()));
    assert_eq!(verify(&reads(EntryStatus::Gone), 50), Err(RedeemError::PaymentUnverified));
    let open = |t_exec| reads(EntryStatus::ReclaimOpen { t_exec });
    assert_eq!(verify(&open(Some(111)), 50), Ok(()));
    assert_eq!(verify(&open(Some(110)), 50), Err(RedeemError::PaymentUnverified));
    assert_eq!(verify(&open(None), 50), Err(RedeemError::PaymentUnverified));
    let mut endless = open(Some(u64::MAX));
    endless.latency = u64::MAX;
    assert_eq!(verify(&endless, 50), Err(RedeemError::PaymentUnverified));

    let mut r = reads(EntryStatus::Funded);
    r.meed.info.as_mut().unwrap().funds_entry = Some([0; 32]);
    assert_eq!(verify(&r, 50), Err(RedeemError::PaymentUnverified));
    let mut r = reads(EntryStatus::Funded);
    r.meed.info.as_mut().unwrap().memo = None;
    assert_eq!(verify(&r, 50), Err(RedeemError::PaymentUnverified));
    let mut r = reads(EntryStatus::Funded);
    r.meed.finality.as_mut().unwrap().level = "confirmed".to_string();
    assert_eq!(verify(&r, 50), Err(RedeemError::PaymentUnverified));
    assert_eq!(verify(&r, 1_101), Err(RedeemError::Expired));
    let mut r = reads(EntryStatus::Funded);
    r.net.finality.as_mut().unwrap().time = 1_101;
    assert_eq!(verify(&r, 50), Err(RedeemError::Expired));
    let mut r = reads(EntryStatus::Funded);
    r.net.info.as_mut().unwrap().amount = 9_899;
    assert_eq!(verify(&r, 50), Err(RedeemError::PaymentUnverified));
    let mut r = reads(EntryStatus::Funded);
    r.net.info.as_mut().unwrap().memo = Some([0; 32]);
    assert_eq!(verify(&r, 50), Err(RedeemError::PaymentUnverified));
    let mut r = reads(EntryStatus::Funded);
    r.net.info = None;
    assert_eq!(verify(&r, 50), Err(RedeemError::PaymentUnverified));
}

#[test]
fn a_two_leg_payment_redeems_once_the_entry_is_released() {
    let check = |meed: &str, net: &str, seats: bool| {
        Merchant::check_two_leg(
            Some(two_leg_quote()),
            true,
            seats,
            &resource(),
            &meed.to_string(),
            &net.to_string(),
        )
    };
    assert_eq!(check("m", "n", false).err(), Some(RedeemError::QuoteInvalid));
    assert_eq!(check("m|", "n", true).err(), Some(RedeemError::PaymentUnverified));
    assert_eq!(check("m", "|n", true).err(), Some(RedeemError::PaymentUnverified));
    let ours = check("m", "n", true).unwrap();
    assert_eq!(ours.quote().nonce, NONCE);
    assert_eq!(ours.record().payment_ref, "m|n");
    assert_eq!(ours.record().quote_sig, [9; 64]);

    let mut store = InMemoryStore::new();
    assert!(matches!(Merchant::resume_two_leg(&store, &ours), Ok(None)));
    let funded = reads(EntryStatus::Funded);
    let verified = Merchant::verify_two_leg(ours, &ENTRY, &levels(), &funded, 55).ok().unwrap();
    let sign = |r: &Receipt| format!("signed at {}", r.ts).into_bytes();
    // The rail did not take the attestation, and the entry is not released.
    assert_eq!(
        Merchant::redeem_two_leg_inner(&mut store, &verified, false, EntryStatus::Gone, sign).err(),
        Some(RedeemError::PaymentUnverified)
    );
    assert!(matches!(Merchant::resume_two_leg(&store, &claim("n")), Ok(None)));
    // It was released before: an earlier attempt got as far as that.
    let r = Merchant::redeem_two_leg_inner(&mut store, &verified, false, EntryStatus::Attested, sign)
        .unwrap();
    assert_eq!((r.nonce, r.entry, r.ts), (NONCE, Some(ENTRY), 55));
    assert_eq!(r.json, b"signed at 55".to_vec());
    let legs: Vec<_> = r
        .paid
        .iter()
        .map(|p| (p.leg.as_str(), p.network.as_str(), p.reference.as_str()))
        .collect();
    assert_eq!(legs, vec![("meed", "solana:dev", "m"), ("net", "eip155:1", "n")]);
    // An exact retry gets the stored receipt, at once and at the store.
    match Merchant::resume_two_leg(&store, &claim("n")) {
        Ok(Some(stored)) => assert_eq!(stored.json, b"signed at 55".to_vec()),
        _ => panic!("the receipt is stored"),
    }
    let again = Merchant::redeem_two_leg_inner(&mut store, &verified, true, EntryStatus::Attested, |_| {
        panic!("signed once")
    })
    .unwrap();
    assert_eq!(again.json, b"signed at 55".to_vec());
    // Another payment gets nothing.
    assert_eq!(
        Merchant::resume_two_leg(&store, &claim("n2")).err(),
        Some(RedeemError::Replayed)
    );
}

#[test]
fn a_quote_without_two_leg_terms_verifies_no_legs() {
    let plain = Merchant::check_two_leg(
        Some(baseline_quote()),
        true,
        true,
        &resource(),
        &"m".to_string(),
        &"n".to_string(),
    )
    .unwrap();
    let funded = reads(EntryStatus::Funded);
    assert_eq!(
        Merchant::verify_two_leg(plain, &ENTRY, &levels(), &funded, 55).err(),
        Some(RedeemError::QuoteInvalid)
    );
}

#[test]
fn a_receipt_without_a_network_names_none() {
    let r = Merchant::two_leg_receipt(&baseline_quote(), &"m".to_string(), &"n".to_string(), ENTRY, 1);
    assert_eq!(r.paid[1].network, "");
}
