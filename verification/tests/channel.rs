use paytp_merchant::bignat::BigNat;
use paytp_merchant::channel::{
    chain_terms_preimage, established, ChainSnapshot, ChannelAuth, ChannelDriver, ChannelError,
    CheckpointKey, Established, ImportPlan, Mode, OpenFacts, OpenOutcome, Unsealed, VectorEntry,
};
use paytp_merchant::one_decision::{Decision, InMemoryOneDecision, OneDecisionStore};

const PAYER: [u8; 32] = [1u8; 32];
const MERCHANT: [u8; 32] = [2u8; 32];
const ENC: [u8; 32] = [7u8; 32];
const SEED: [u8; 32] = [0x51; 32];
const CID: [u8; 8] = [0, 0, 0, 0, 0, 0, 0, 7];
const NOW: u64 = 1_700_000_000;

fn id(n: u8) -> [u8; 8] {
    [0, 0, 0, 0, 0, 0, 0, n]
}

fn digest(bytes: &[u8]) -> [u8; 32] {
    let mut out = [0u8; 32];
    for (k, part) in out.chunks_mut(8).enumerate() {
        let mut h: u64 = 0xcbf2_9ce4_8422_2325 ^ (k as u64 + 1);
        for b in bytes {
            h = (h ^ u64::from(*b)).wrapping_mul(0x0100_0000_01b3).rotate_left(k as u32 + 5);
        }
        part.copy_from_slice(&h.to_be_bytes());
    }
    out
}

fn driver() -> ChannelDriver {
    ChannelDriver::new(MERCHANT, ENC, "solana:dev:settle".to_string())
}

fn seat(role: u8, bp: u16, dest: &str) -> VectorEntry {
    VectorEntry {
        role,
        bp,
        dest: dest.to_string(),
    }
}

fn schema01_vector() -> Vec<VectorEntry> {
    vec![
        seat(0x10, 50, "solana:dev:il"),
        seat(0x11, 10, "solana:dev:os"),
        seat(0x12, 30, "solana:dev:wallet"),
        seat(0x13, 10, "solana:dev:fund"),
    ]
}

/// An authorization and the session secret sealed beside it.
struct Open {
    auth: ChannelAuth,
    /// The secret that the authorization commits to.
    committed: [u8; 32],
    /// The secret that was sealed; `None` for a seal that was tampered with.
    sealed: Option<[u8; 32]>,
}

fn payer_open(
    merchant_key: [u8; 32],
    s: [u8; 32],
    channel_id: [u8; 8],
    timestamp: u64,
    predecessor: Option<([u8; 8], [u8; 32])>,
) -> Open {
    Open {
        auth: ChannelAuth {
            payer_key: PAYER,
            channel_id,
            merchant_key,
            denom: "solana:dev/usdc".to_string(),
            mode: Mode::Postpay,
            th_value: 100_000,
            th_time: 3600,
            refund_ptr: None,
            baseline_net: "solana:dev".to_string(),
            baseline_asset: "solana:dev/usdc".to_string(),
            vector: schema01_vector(),
            predecessor: predecessor.map(|(channel, ckpt_ref)| CheckpointKey { channel, ckpt_ref }),
            timestamp,
            fin_meed: "final".to_string(),
            fin_denom: "final".to_string(),
        },
        committed: s,
        sealed: Some(s),
    }
}

/// Whether the vector is the governed one.
fn governed(vector: &[VectorEntry]) -> bool {
    vector.iter().map(|v| (v.role, v.bp)).collect::<Vec<_>>()
        == vec![(0x10, 50), (0x11, 10), (0x12, 30), (0x13, 10)]
}

fn auth_hash(open: &Open) -> [u8; 32] {
    digest(format!("{:?}{:?}", open.auth, open.committed).as_bytes())
}

fn ack_of(open: &Open) -> Vec<u8> {
    let mut ack = b"ack:".to_vec();
    ack.extend_from_slice(&auth_hash(open));
    ack
}

fn terms_fp(auth: &ChannelAuth) -> [u8; 32] {
    digest(&chain_terms_preimage(
        auth.mode,
        &SEED,
        &auth.denom,
        &auth.baseline_net,
        &auth.fin_meed,
        &auth.fin_denom,
        auth.th_value,
        auth.th_time,
    ))
}

#[derive(Debug)]
enum Outcome {
    Established(Box<Established>, Option<(u128, i128)>),
    Retransmit(Vec<u8>),
}

/// Runs an open through the driver, as the endpoint does.
fn open_channel(d: &mut ChannelDriver, open: &Open, now: u64) -> Result<Outcome, ChannelError> {
    open_with(d, &mut None::<InMemoryOneDecision>, open, now)
}

fn open_with<S: OneDecisionStore>(
    d: &mut ChannelDriver,
    store: &mut Option<S>,
    open: &Open,
    now: u64,
) -> Result<Outcome, ChannelError> {
    let facts = OpenFacts {
        verified: true,
        governed: governed(&open.auth.vector),
        auth_hash: Some(auth_hash(open)),
        open_hash: Some(digest(format!("{:?}{:?}", auth_hash(open), open.sealed).as_bytes())),
    };
    let (auth_hash, open_hash) = match d.open_channel(&open.auth, &facts, now)? {
        OpenOutcome::Retransmit(ack) => return Ok(Outcome::Retransmit(ack)),
        OpenOutcome::Fresh { auth_hash, open_hash } => (auth_hash, open_hash),
    };
    let unsealed = match open.sealed {
        None => Unsealed::Invalid,
        Some(s) => Unsealed::Opened {
            committed: s == open.committed,
        },
    };
    ChannelDriver::check_secret(unsealed)?;
    let import: Option<ImportPlan> = match &open.auth.predecessor {
        Some(pred) => Some(d.chained_import(pred, &open.auth, &terms_fp(&open.auth))?),
        None => None,
    };
    let ack = ack_of(open);
    d.establish(store, &open.auth, auth_hash, open_hash, &SEED, &ack)?;
    let position = import.as_ref().map(|p| (p.cum_total, p.imported_balance));
    Ok(Outcome::Established(
        Box::new(established(&open.auth, auth_hash, ack, import)),
        position,
    ))
}

fn fresh(out: Result<Outcome, ChannelError>) -> Established {
    match out.unwrap() {
        Outcome::Established(e, _) => *e,
        Outcome::Retransmit(_) => panic!("expected a fresh establishment, got a retransmit"),
    }
}

fn refused(out: Result<Outcome, ChannelError>, why: ChannelError) {
    match out {
        Err(e) => assert_eq!(e, why),
        Ok(o) => panic!("expected {why:?}, got {o:?}"),
    }
}

fn establish_and_terminate(d: &mut ChannelDriver, channel: [u8; 8], s: [u8; 32]) {
    let open = payer_open(d.key(), s, channel, NOW, None);
    fresh(open_channel(d, &open, NOW));
    d.terminate(&channel);
}

/// The position of a predecessor on which nothing was metered.
fn zero_snapshot(d: &ChannelDriver, channel: &[u8; 8]) -> ChainSnapshot {
    let t = d.settlement_terms(channel).expect("predecessor established");
    ChainSnapshot {
        cum_total: 0,
        accruals: schema01_vector().iter().map(|v| (v.role, BigNat::zero())).collect(),
        opening_settled_r: Vec::new(),
        opening_net_legs: 0,
        opening_funding: 0,
        imported_balance: 0,
        payer_key: PAYER,
        mode: Mode::Postpay,
        terms_fingerprint: digest(&chain_terms_preimage(
            Mode::Postpay,
            &t.seed_instance,
            &t.denom,
            &t.baseline_net,
            &t.fin_meed,
            &t.fin_denom,
            t.th_value,
            t.th_time,
        )),
        established_at: NOW,
    }
}

fn record_zero_snapshot(d: &mut ChannelDriver, channel: [u8; 8], ckpt_ref: [u8; 32]) {
    let snapshot = zero_snapshot(d, &channel);
    d.record_chain_snapshot(CheckpointKey { channel, ckpt_ref }, snapshot);
}

#[test]
fn happy_path_handshake_and_slices() {
    let mut d = driver();
    assert_eq!(d.key(), MERCHANT);
    assert_eq!(d.enc_key(), ENC);
    let open = payer_open(d.key(), [0x5a; 32], CID, NOW, None);
    let est = fresh(open_channel(&mut d, &open, NOW));
    // The acknowledgment answers this authorization.
    assert_eq!(est.auth_hash, auth_hash(&open));
    assert_eq!(est.ack, ack_of(&open));
    assert_eq!(est.channel_id, CID);
    // The settlement thresholds survive the handoff.
    assert_eq!(est.th_value, 100_000);
    assert_eq!(est.th_time, 3600);
    assert_eq!(est.established_at, NOW);
    assert!(est.ledger_openings.is_none());
    assert_eq!(d.payer_key(&CID), Some(PAYER));
    assert_eq!(d.auth_hash(&CID), Some(auth_hash(&open)));
    assert_eq!(d.settlement_terms(&CID).unwrap().settle_ptr, "solana:dev:settle");
}

#[test]
fn open_rejects_nonconformant_meed_vector() {
    let mut d = driver();
    let mut open = payer_open(d.key(), [0x5a; 32], CID, NOW, None);
    open.auth.vector = vec![
        seat(0x10, 50, "solana:dev:il"),
        seat(0x12, 50, "solana:dev:wallet"),
    ];
    refused(open_channel(&mut d, &open, NOW), ChannelError::BadAuth);
}

#[test]
fn an_open_that_does_not_verify_is_refused() {
    let d = driver();
    let open = payer_open(d.key(), [0x5a; 32], CID, NOW, None);
    let mut facts = OpenFacts {
        verified: false,
        governed: true,
        auth_hash: Some([1; 32]),
        open_hash: Some([2; 32]),
    };
    assert!(matches!(d.open_channel(&open.auth, &facts, NOW), Err(ChannelError::BadAuth)));
    facts.verified = true;
    assert!(matches!(
        d.open_channel(&open.auth, &facts, NOW),
        Ok(OpenOutcome::Fresh { auth_hash: [1, ..], open_hash: [2, ..] })
    ));
    facts.auth_hash = None;
    assert!(matches!(d.open_channel(&open.auth, &facts, NOW), Err(ChannelError::BadAuth)));
}

#[test]
fn f5m_replay_suppression() {
    let mut d = driver();
    let mkey = d.key();
    let open = payer_open(mkey, [0x5a; 32], CID, NOW, None);
    let first = fresh(open_channel(&mut d, &open, NOW));

    // An identical retransmission gets the stored acknowledgment, no fresh channel.
    match open_channel(&mut d, &open, NOW).unwrap() {
        Outcome::Retransmit(ack) => assert_eq!(ack, first.ack),
        Outcome::Established(..) => panic!("a retransmit must not initialize the channel again"),
    }

    // The same authorization around another seal is another open.
    let mut resealed = payer_open(mkey, [0x5a; 32], CID, NOW, None);
    resealed.sealed = Some([0xab; 32]);
    refused(open_channel(&mut d, &resealed, NOW), ChannelError::ChannelReplay);

    // Another authorization that reuses the identifier.
    let open2 = payer_open(mkey, [0x6b; 32], CID, NOW, None);
    refused(open_channel(&mut d, &open2, NOW), ChannelError::ChannelReplay);

    // A terminated channel is never initialized again, not even by an identical open.
    d.terminate(&CID);
    refused(open_channel(&mut d, &open, NOW), ChannelError::ChannelReplay);
}

#[test]
fn rejects_bad_inputs() {
    let mut d = driver();
    let mkey = d.key();
    let s = [0x5a; 32];

    let stale = payer_open(mkey, s, CID, NOW - 10_000, None);
    refused(open_channel(&mut d, &stale, NOW), ChannelError::TimestampOutOfWindow);

    let wrong_m = payer_open([0x44; 32], s, id(8), NOW, None);
    refused(open_channel(&mut d, &wrong_m, NOW), ChannelError::WrongMerchant);

    let mut bad_seal = payer_open(mkey, s, id(9), NOW, None);
    bad_seal.sealed = None;
    refused(open_channel(&mut d, &bad_seal, NOW), ChannelError::SealInvalid);

    let mut hs_bad = payer_open(mkey, s, id(10), NOW, None);
    hs_bad.sealed = Some([0x77; 32]);
    refused(open_channel(&mut d, &hs_bad, NOW), ChannelError::HsMismatch);
}

#[test]
fn the_acceptance_window_is_closed_at_both_ends() {
    let mut d = driver();
    let mkey = d.key();
    fresh(open_channel(&mut d, &payer_open(mkey, [1; 32], id(1), NOW - 600, None), NOW));
    fresh(open_channel(&mut d, &payer_open(mkey, [1; 32], id(2), NOW + 600, None), NOW));
    refused(
        open_channel(&mut d, &payer_open(mkey, [1; 32], id(3), NOW - 601, None), NOW),
        ChannelError::TimestampOutOfWindow,
    );
    refused(
        open_channel(&mut d, &payer_open(mkey, [1; 32], id(4), NOW + 601, None), NOW),
        ChannelError::TimestampOutOfWindow,
    );
}

#[test]
fn a_secret_without_a_context_is_refused_like_a_bad_authorization() {
    assert_eq!(ChannelDriver::check_secret(Unsealed::NoContext), Err(ChannelError::BadAuth));
    assert_eq!(ChannelDriver::check_secret(Unsealed::Invalid), Err(ChannelError::SealInvalid));
    assert_eq!(
        ChannelDriver::check_secret(Unsealed::Opened { committed: false }),
        Err(ChannelError::HsMismatch)
    );
    assert_eq!(ChannelDriver::check_secret(Unsealed::Opened { committed: true }), Ok(()));
}

#[test]
fn an_open_off_the_baseline_asset_is_refused() {
    let mut d = driver();
    let mut open = payer_open(d.key(), [0x5a; 32], CID, NOW, None);
    open.auth.denom = "solana:dev/eur".to_string();
    refused(open_channel(&mut d, &open, NOW), ChannelError::OffBaselineUnsupported);
}

#[test]
fn chained_successor_establishes_f6_6() {
    let mut d = driver();
    let mkey = d.key();
    let open = payer_open(mkey, [0x5a; 32], CID, NOW, None);
    let pred = fresh(open_channel(&mut d, &open, NOW));
    d.terminate(&CID);
    let pred_ref = pred.auth_hash;
    record_zero_snapshot(&mut d, CID, pred_ref);

    let succ_id = id(11);
    let succ = payer_open(mkey, [0x8c; 32], succ_id, NOW, Some((CID, pred_ref)));
    match open_channel(&mut d, &succ, NOW).unwrap() {
        Outcome::Established(est, position) => {
            assert_eq!(est.channel_id, succ_id);
            assert_eq!(est.auth_hash, auth_hash(&succ));
            // The position of the predecessor: nothing was metered.
            assert_eq!(position, Some((0, 0)));
            assert!(est.ledger_openings.is_some());
            // The chain keeps the time at which it was established.
            assert_eq!(est.established_at, NOW);
        }
        Outcome::Retransmit(_) => panic!("a fresh successor"),
    }

    // Without a recorded position the chain fails closed.
    let orphan = payer_open(mkey, [0x8d; 32], id(12), NOW, Some((CID, [0xde; 32])));
    refused(open_channel(&mut d, &orphan, NOW), ChannelError::ChainRejected);
}

#[test]
fn a_successor_imports_the_recorded_position_in_the_order_of_its_own_vector() {
    let mut d = driver();
    establish_and_terminate(&mut d, CID, [0x5a; 32]);
    let key = CheckpointKey {
        channel: CID,
        ckpt_ref: [0xa1; 32],
    };
    let mut snapshot = zero_snapshot(&d, &CID);
    snapshot.cum_total = 40_000;
    snapshot.accruals = vec![
        (0x12, BigNat::from_u128(1_200_000)),
        (0x13, BigNat::from_u128(400_000)),
        (0x10, BigNat::from_u128(2_000_000)),
        (0x11, BigNat::from_u128(400_001)),
    ];
    snapshot.opening_net_legs = 11;
    snapshot.opening_funding = 13;
    snapshot.imported_balance = 39_976;
    snapshot.established_at = NOW - 77;
    d.record_chain_snapshot(key, snapshot);
    let succ = payer_open(d.key(), [0x8c; 32], id(11), NOW, Some((CID, [0xa1; 32])));
    let plan = d.chained_import(&key, &succ.auth, &terms_fp(&succ.auth)).unwrap();
    assert_eq!(plan.cum_total, 40_000);
    assert_eq!(plan.imported_balance, 39_976);
    assert_eq!(plan.established_at, NOW - 77);
    assert_eq!((plan.openings.net_legs, plan.openings.funding), (11, 13));
    let accruals: Vec<_> = plan.accruals.iter().map(|n| n.to_u128().unwrap()).collect();
    assert_eq!(accruals, vec![2_000_000, 400_001, 1_200_000, 400_000]);

    // A position that lacks one of the roles cannot be taken over.
    let mut short = zero_snapshot(&d, &CID);
    short.accruals.pop();
    d.record_chain_snapshot(key, short);
    assert!(matches!(
        d.chained_import(&key, &succ.auth, &terms_fp(&succ.auth)),
        Err(ChannelError::ChainRejected)
    ));
}

#[test]
fn a_successor_has_to_share_the_payer_the_mode_and_the_terms() {
    let mut d = driver();
    establish_and_terminate(&mut d, CID, [0x5a; 32]);
    record_zero_snapshot(&mut d, CID, [0xa1; 32]);
    let pred = Some((CID, [0xa1; 32]));

    let mut other_payer = payer_open(d.key(), [1; 32], id(11), NOW, pred);
    other_payer.auth.payer_key = [9; 32];
    refused(open_channel(&mut d, &other_payer, NOW), ChannelError::ChainRejected);

    let mut other_mode = payer_open(d.key(), [1; 32], id(11), NOW, pred);
    other_mode.auth.mode = Mode::Prepay;
    refused(open_channel(&mut d, &other_mode, NOW), ChannelError::ChainRejected);

    let mut other_terms = payer_open(d.key(), [1; 32], id(11), NOW, pred);
    other_terms.auth.th_time = 3601;
    refused(open_channel(&mut d, &other_terms, NOW), ChannelError::ChainRejected);

    // The position is still there for the payer it belongs to.
    fresh(open_channel(&mut d, &payer_open(MERCHANT, [1; 32], id(11), NOW, pred), NOW));
}

#[test]
fn chain_fingerprint_covers_baseline_net() {
    let seed = [7u8; 32];
    let preimage = |net: &str| {
        chain_terms_preimage(Mode::Postpay, &seed, "solana:dev/usdc", net, "final", "final", 1, 2)
    };
    let (a, b) = (preimage("solana:dev"), preimage("eip155:1"));
    assert_ne!(a, b);
    assert_ne!(digest(&a), digest(&b));
}

#[test]
fn stillborn_passthrough_a_to_b_to_c_conserves_value() {
    let mut d = driver();
    // A stillborn channel was never closed, so no position of it was recorded: a
    // successor that names its reference fails closed.
    let b_id = id(11);
    let b_ref = digest(b"synthetic");
    let c = payer_open(d.key(), [0x9e; 32], id(13), NOW, Some((b_id, b_ref)));
    refused(open_channel(&mut d, &c, NOW), ChannelError::ChainRejected);
}

#[test]
fn chaining_reference_consumed_once_keyed_by_channel_and_checkpoint() {
    let mut d = driver();
    let mkey = d.key();
    let (a_id, a_ref) = (CID, [0xa1; 32]);
    establish_and_terminate(&mut d, a_id, [0x5a; 32]);
    record_zero_snapshot(&mut d, a_id, a_ref);

    let b_id = id(11);
    fresh(open_channel(
        &mut d,
        &payer_open(mkey, [0x8c; 32], b_id, NOW, Some((a_id, a_ref))),
        NOW,
    ));
    d.terminate(&b_id);

    // A second successor of the same checkpoint.
    refused(
        open_channel(&mut d, &payer_open(mkey, [0x8d; 32], id(12), NOW, Some((a_id, a_ref))), NOW),
        ChannelError::ChainReplay,
    );

    // The successor's own checkpoint is another reference.
    let ref_b = [0xb2; 32];
    record_zero_snapshot(&mut d, b_id, ref_b);
    fresh(open_channel(
        &mut d,
        &payer_open(mkey, [0x9e; 32], id(13), NOW, Some((b_id, ref_b))),
        NOW,
    ));
    refused(
        open_channel(&mut d, &payer_open(mkey, [0x9f; 32], id(14), NOW, Some((b_id, ref_b))), NOW),
        ChannelError::ChainReplay,
    );
}

#[test]
fn chaining_consumes_nothing_for_unvalidated_or_failed_predecessor() {
    let mut d = driver();
    let mkey = d.key();
    let (a_id, a_ref) = (CID, [0xa1; 32]);
    establish_and_terminate(&mut d, a_id, [0x5a; 32]);
    record_zero_snapshot(&mut d, a_id, a_ref);

    // An open whose secret is not the committed one.
    let mut bad = payer_open(mkey, [0x8c; 32], id(30), NOW, Some((a_id, a_ref)));
    bad.sealed = Some([0x77; 32]);
    refused(open_channel(&mut d, &bad, NOW), ChannelError::HsMismatch);

    // An open that names an unknown predecessor.
    let unknown = payer_open(mkey, [0x42; 32], id(31), NOW, Some(([9; 8], [0xee; 32])));
    refused(open_channel(&mut d, &unknown, NOW), ChannelError::ChainRejected);

    // Neither used the reference up.
    fresh(open_channel(
        &mut d,
        &payer_open(mkey, [0x8c; 32], id(11), NOW, Some((a_id, a_ref))),
        NOW,
    ));
}

#[test]
fn lost_ack_reconnect_recovery_forces_no_settlement() {
    let mut d = driver();
    let mkey = d.key();
    let (a_id, a_ref) = (CID, [0xa1; 32]);
    establish_and_terminate(&mut d, a_id, [0x5a; 32]);
    record_zero_snapshot(&mut d, a_id, a_ref);
    let b_id = id(11);
    let openb = payer_open(mkey, [0x8c; 32], b_id, NOW, Some((a_id, a_ref)));
    let est = fresh(open_channel(&mut d, &openb, NOW));

    // The lost acknowledgment comes again on a retransmission.
    match open_channel(&mut d, &openb, NOW).unwrap() {
        Outcome::Retransmit(ack) => assert_eq!(ack, est.ack),
        Outcome::Established(..) => panic!("a retransmit must not establish the channel again"),
    }
    // The reference stays used up.
    refused(
        open_channel(&mut d, &payer_open(mkey, [0x77; 32], id(20), NOW, Some((a_id, a_ref))), NOW),
        ChannelError::ChainReplay,
    );
    // It can be asked for on another connection.
    assert_eq!(d.serve_ack_request(&b_id, NOW, true, NOW), Some(est.ack));
}

#[test]
fn ack_request_retrieval_is_authenticated() {
    let mut d = driver();
    let open = payer_open(d.key(), [0x5a; 32], CID, NOW, None);
    let est = fresh(open_channel(&mut d, &open, NOW));
    assert_eq!(d.serve_ack_request(&CID, NOW, true, NOW), Some(est.ack));
    // Signed by another key.
    assert!(d.serve_ack_request(&CID, NOW, false, NOW).is_none());
    // Stale.
    assert!(d.serve_ack_request(&CID, NOW, true, NOW + 10_000).is_none());
    // An unknown channel.
    assert!(d.serve_ack_request(&id(99), NOW, true, NOW).is_none());
    // A terminated one.
    d.terminate(&CID);
    assert!(d.serve_ack_request(&CID, NOW, true, NOW).is_none());
}

#[test]
fn close_path_settles_and_bars_reuse() {
    let mut d = driver();
    let open = payer_open(d.key(), [0x5a; 32], CID, NOW, None);
    fresh(open_channel(&mut d, &open, NOW));
    d.terminate(&CID);
    refused(open_channel(&mut d, &open, NOW), ChannelError::ChannelReplay);
    // The payer of a terminated channel is still known.
    assert_eq!(d.payer_key(&CID), Some(PAYER));
}

#[test]
fn a_recorded_acceptance_bars_the_identifier_after_a_restart() {
    let open = payer_open(MERCHANT, [0x5a; 32], CID, NOW, None);
    let mut store = Some(InMemoryOneDecision::new());
    let mut d = driver();
    assert!(matches!(
        open_with(&mut d, &mut store, &open, NOW),
        Ok(Outcome::Established(..))
    ));
    let rows = store.as_ref().unwrap().entries();
    assert_eq!(rows.len(), 1);

    let mut restarted = driver();
    restarted.attach_decisions(&rows).unwrap();
    refused(open_channel(&mut restarted, &open, NOW), ChannelError::ChannelReplay);
    // Another replica that has not read the rows meets the recorded acceptance.
    let mut replica = driver();
    refused(open_with(&mut replica, &mut store, &open, NOW), ChannelError::ChannelReplay);
}

#[test]
fn an_acceptance_that_cannot_be_recorded_is_refused_and_leaves_nothing() {
    let mut d = driver();
    let open = payer_open(d.key(), [0x5a; 32], CID, NOW, None);
    let ack = ack_of(&open);
    assert_eq!(
        d.open_decided(&Decision::Failed, &open.auth, [1; 32], [2; 32], &SEED, &ack),
        Err(ChannelError::StoreUnavailable)
    );
    assert_eq!(d.payer_key(&CID), None);
    fresh(open_channel(&mut d, &open, NOW));
}

#[test]
fn a_corrupt_acceptance_record_fails_the_restore() {
    let mut d = driver();
    let mut key = paytp_merchant::keys::chopen_prefix();
    key.push(1);
    assert!(d.attach_decisions(&vec![(key, Vec::new())]).is_err());
}

#[test]
fn removing_a_snapshot_closes_the_chain() {
    let mut d = driver();
    establish_and_terminate(&mut d, CID, [0x5a; 32]);
    record_zero_snapshot(&mut d, CID, [0xa1; 32]);
    d.remove_chain_snapshot(&CheckpointKey {
        channel: CID,
        ckpt_ref: [0xa1; 32],
    });
    refused(
        open_channel(
            &mut d,
            &payer_open(MERCHANT, [0x8c; 32], id(11), NOW, Some((CID, [0xa1; 32]))),
            NOW,
        ),
        ChannelError::ChainRejected,
    );
}
