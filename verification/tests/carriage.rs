//! The channel plane, driven through an endpoint that plays the metering engine,
//! the payer and the rail.

use std::cell::RefCell;
use std::collections::HashMap;
use std::rc::Rc;

use paytp_merchant::bignat::BigNat;
use paytp_merchant::carriage::checkpoint::{CheckpointRequest, Countersigned};
use paytp_merchant::carriage::close::{Close, CloseStep, DrawFact};
use paytp_merchant::carriage::fingerprint::terms_preimage;
use paytp_merchant::carriage::funding::FundingProof;
use paytp_merchant::carriage::guards::ConsumeOutcome;
use paytp_merchant::carriage::interim::{draw_preimage, DrawOutcome, DrawReceipt, InterimStep};
use paytp_merchant::carriage::open::{imported_balance_f6e, ChainFacts, Stillborn};
use paytp_merchant::carriage::propose::{Conversion, InstanceLeg, ProposalFacts, SettlementPropose};
use paytp_merchant::carriage::routing::{AcceptError, Inbound};
use paytp_merchant::carriage::settle::{ProofFacts, TxLeg};
use paytp_merchant::carriage::{
    Carriage, CarriageError, ConfigError, Effect, Meter, Output, Response, Status,
};
use paytp_merchant::channel::{
    chain_terms_preimage, ChannelAuth, ChannelDriver, ChannelError, CheckpointKey, Mode, OpenFacts,
    OpenOutcome, Unsealed, VectorEntry,
};
use paytp_merchant::disposition::{decode_disp, encode_disp, ChainState};
use paytp_merchant::keys::{chopen_key, disp_key, fund_key, refund_ref_key, refund_reserve_key};
use paytp_merchant::medium::LogMedium;
use paytp_merchant::one_decision::{Decision, InMemoryOneDecision, OneDecisionStore, WalOneDecision};
use paytp_merchant::rail::{AdvanceFact, Finality, RefInfo, RefRead};

const PAYER: [u8; 32] = [1u8; 32];
const MERCHANT: [u8; 32] = [2u8; 32];
const ENC: [u8; 32] = [7u8; 32];
const SEED: [u8; 32] = [0x51; 32];
const CID: [u8; 8] = [0, 0, 0, 0, 0, 0, 0, 7];
const NOW: u64 = 1_700_000_000;
const FINALITY_DELAY: u64 = 100;
const GROSS: u128 = 15_000;
const SETTLE: &str = "solana:dev:settle";
const REFUND: &str = "solana:dev:refund";
const USDC: &str = "solana:dev/usdc";
const ROLES: [(u8, u16, &str); 4] = [
    (0x10, 50, "solana:dev:il"),
    (0x11, 10, "solana:dev:os"),
    (0x12, 30, "solana:dev:wallet"),
    (0x13, 10, "solana:dev:fund"),
];

fn id(n: u8) -> [u8; 8] {
    [0, 0, 0, 0, 0, 0, 0, n]
}

fn digest(bytes: &[u8]) -> [u8; 32] {
    let mut out = [0u8; 32];
    for (k, part) in out.chunks_mut(8).enumerate() {
        let mut h: u64 = 0xcbf2_9ce4_8422_2325 ^ (k as u64 + 1);
        for b in bytes {
            h = (h ^ u64::from(*b)).wrapping_mul(0x0100_0000_01b3).rotate_left(k as u32 + 5);
        }
        part.copy_from_slice(&h.to_be_bytes());
    }
    out
}

fn net_memo(channel: &[u8; 8], ckpt_ref: &[u8; 32]) -> [u8; 32] {
    digest(format!("net{channel:?}{ckpt_ref:?}").as_bytes())
}

// --- the rail ---

#[derive(Clone)]
struct Tx {
    to: String,
    asset: String,
    amount: u128,
    memo: Option<[u8; 32]>,
    time: u64,
    advanced: Option<AdvanceFact>,
    delta: u128,
}

#[derive(Default)]
struct Books {
    clock: u64,
    balances: HashMap<String, u128>,
    txs: Vec<Tx>,
    deployed: bool,
    watermarks: HashMap<[u8; 8], u128>,
    released: HashMap<([u8; 8], [u8; 32]), String>,
}

/// A rail on which a transfer is final after a delay. Clones share its books.
#[derive(Clone, Default)]
struct Rail(Rc<RefCell<Books>>);

fn instance_addr(seed: &[u8; 32]) -> String {
    format!("inst:{:02x}", seed[0])
}

impl Rail {
    fn new() -> Rail {
        Rail::default()
    }

    fn levels() -> Vec<String> {
        vec!["pending".to_string(), "final".to_string()]
    }

    fn balance(&self, account: &str) -> u128 {
        *self.0.borrow().balances.get(account).unwrap_or(&0)
    }

    fn advance_clock(&self, by: u64) {
        self.0.borrow_mut().clock += by;
    }

    fn push(&self, tx: Tx) -> String {
        let mut b = self.0.borrow_mut();
        b.txs.push(tx);
        format!("tx{}", b.txs.len())
    }

    fn submit(&self, to: &str, amount: u128, memo: Option<[u8; 32]>) -> String {
        *self.0.borrow_mut().balances.entry(to.to_string()).or_insert(0) += amount;
        let time = self.0.borrow().clock;
        self.push(Tx {
            to: to.to_string(),
            asset: USDC.to_string(),
            amount,
            memo,
            time,
            advanced: None,
            delta: 0,
        })
    }

    fn tx(&self, reference: &str) -> Option<Tx> {
        let n: usize = reference.strip_prefix("tx")?.parse().ok()?;
        self.0.borrow().txs.get(n.checked_sub(1)?).cloned()
    }

    fn read(&self, reference: &str) -> RefRead {
        let clock = self.0.borrow().clock;
        let tx = self.tx(reference);
        RefRead {
            finality: tx.as_ref().map(|t| Finality {
                level: if clock >= t.time + FINALITY_DELAY { "final" } else { "pending" }.to_string(),
                time: t.time + FINALITY_DELAY,
            }),
            info: tx.map(|t| RefInfo {
                to: t.to,
                asset: t.asset,
                amount: t.amount,
                memo: t.memo,
                canonical: reference.to_string(),
                advanced: t.advanced,
                funds_entry: None,
            }),
        }
    }

    fn deploy(&self) {
        self.0.borrow_mut().deployed = true;
    }

    /// Moves a channel's meed watermark to `target` and distributes the difference.
    fn advance_channel_meed(
        &self,
        from: Option<&str>,
        channel: [u8; 8],
        target: u128,
    ) -> Option<String> {
        let mut b = self.0.borrow_mut();
        if !b.deployed {
            return None;
        }
        let funded = *b.watermarks.get(&channel).unwrap_or(&0);
        let delta = target.saturating_sub(funded);
        if let Some(from) = from {
            let held = *b.balances.get(from).unwrap_or(&0);
            if held < delta {
                return None;
            }
            b.balances.insert(from.to_string(), held - delta);
        }
        for (_, bp, dest) in ROLES {
            *b.balances.entry(dest.to_string()).or_insert(0) += delta * u128::from(bp) / 100;
        }
        b.watermarks.insert(channel, target.max(funded));
        let time = b.clock;
        drop(b);
        Some(self.push(Tx {
            to: instance_addr(&SEED),
            asset: USDC.to_string(),
            amount: delta,
            memo: None,
            time,
            advanced: Some(AdvanceFact {
                channel_id: channel,
                seed_instance: SEED,
                funded_p: target.max(funded),
            }),
            delta,
        }))
    }

    /// Releases an escrowed amount once per channel and checkpoint.
    fn release_keyed(
        &self,
        channel: [u8; 8],
        ckpt_ref: [u8; 32],
        from: &str,
        to: &str,
        amount: u128,
    ) -> Option<String> {
        if let Some(r) = self.0.borrow().released.get(&(channel, ckpt_ref)) {
            return Some(r.clone());
        }
        let held = self.balance(from);
        if held < amount {
            return None;
        }
        self.0.borrow_mut().balances.insert(from.to_string(), held - amount);
        let reference = self.submit(to, amount, None);
        self.0.borrow_mut().released.insert((channel, ckpt_ref), reference.clone());
        Some(reference)
    }

    /// What the four recipients of the meed received.
    fn recipients(&self) -> u128 {
        ROLES.iter().map(|(_, _, dest)| self.balance(dest)).sum()
    }
}

// --- the metering engine ---

struct Engine {
    mode: Mode,
    limit_l: i128,
    limit_e: u128,
    status: Status,
    imported_cum: u128,
    imported_accruals: Vec<(u8, u128)>,
    slices: Vec<(u64, u128)>,
    floor: u64,
    balance: i128,
}

impl Engine {
    fn up_to(&self, seq: u64) -> u128 {
        self.slices.iter().filter(|(s, _)| *s <= seq).map(|(_, a)| *a).sum()
    }

    fn cum(&self) -> u128 {
        self.imported_cum + self.up_to(u64::MAX)
    }

    fn accruals_up_to(&self, seq: u64) -> Vec<(u8, u128)> {
        let metered = self.up_to(seq);
        ROLES
            .iter()
            .zip(self.imported_accruals.iter())
            .map(|((role, bp, _), (_, imported))| (*role, imported + metered * u128::from(*bp)))
            .collect()
    }

    fn last_seq(&self) -> u64 {
        self.slices.iter().map(|(s, _)| *s).max().unwrap_or(0)
    }

    fn accept(&mut self, slices: &[(u64, u128, bool)]) -> Result<(), AcceptError> {
        for (seq, amount, mac) in slices {
            if !mac {
                return Err(AcceptError::BadMac);
            }
            if matches!(self.status, Status::Settling | Status::Closed) {
                return Err(AcceptError::NotOpen);
            }
            if *seq <= self.floor || self.slices.iter().any(|(s, _)| s == seq) {
                return Err(AcceptError::SeqInvalid);
            }
            if self.balance + *amount as i128 > self.limit_l {
                return Err(AcceptError::WindowExceeded);
            }
            let beyond: u128 = self.up_to(u64::MAX) - self.up_to(self.floor);
            if beyond + amount > self.limit_e {
                return Err(AcceptError::EvidenceRequired);
            }
            self.slices.push((*seq, *amount));
            self.balance += *amount as i128;
            if beyond + amount == self.limit_e {
                self.status = Status::PausedEvidence;
            }
        }
        Ok(())
    }

    fn meter(&self) -> Meter {
        Meter {
            mode: self.mode,
            status: self.status,
            cum_total: self.cum(),
            accruals: numbers(&self.accruals_up_to(u64::MAX)),
            balance: self.balance,
            bound_lower: -1_000_000_000,
            bound_upper: self.limit_l,
        }
    }
}

fn numbers(rows: &[(u8, u128)]) -> Vec<(u8, BigNat)> {
    rows.iter().map(|(r, n)| (*r, BigNat::from_u128(*n))).collect()
}

fn plain(rows: &[(u8, BigNat)]) -> Vec<(u8, u128)> {
    rows.iter().map(|(r, n)| (*r, n.to_u128().unwrap())).collect()
}

/// Divides what is owed among the roles: whole units of the carve only.
fn divide(owed: &[(u8, BigNat)]) -> Vec<BigNat> {
    let rows = plain(owed);
    let sum: u128 = rows.iter().map(|(_, n)| *n).sum();
    let mut left = sum % 10_000;
    rows.iter()
        .map(|(_, n)| {
            let off = left.min(*n);
            left -= off;
            BigNat::from_u128(n - off)
        })
        .collect()
}

// --- a disk that outlives a store ---

#[derive(Clone, Default)]
struct Disk {
    bytes: Rc<RefCell<Vec<u8>>>,
    at: usize,
    read_only: bool,
}

impl LogMedium for Disk {
    fn read_all(&mut self) -> Option<Vec<u8>> {
        Some(self.bytes.borrow().clone())
    }

    fn append(&mut self, record: &Vec<u8>) -> bool {
        if self.read_only {
            return false;
        }
        let mut bytes = self.bytes.borrow_mut();
        bytes.truncate(self.at);
        bytes.extend_from_slice(record);
        self.at = bytes.len();
        true
    }

    fn cut(&mut self, len: u64) -> bool {
        if self.read_only {
            return false;
        }
        self.bytes.borrow_mut().truncate(len as usize);
        true
    }

    fn seek(&mut self, at: u64) -> bool {
        self.at = at as usize;
        true
    }
}

fn wal(disk: &Disk) -> WalOneDecision<Disk> {
    WalOneDecision::open(disk.clone()).unwrap()
}

/// One store behind several handles.
#[derive(Clone)]
struct Shared(Rc<RefCell<InMemoryOneDecision>>);

impl OneDecisionStore for Shared {
    fn decide(&mut self, key: &[u8], value: &[u8]) -> Decision {
        self.0.borrow_mut().decide(key, value)
    }

    fn get(&self, key: &[u8]) -> Option<Vec<u8>> {
        self.0.borrow().get(key)
    }

    fn entries(&self) -> Vec<(Vec<u8>, Vec<u8>)> {
        self.0.borrow().entries()
    }
}

// --- the endpoint ---

struct Desk<S: OneDecisionStore> {
    c: Carriage<S>,
    rail: Option<Rail>,
    engines: HashMap<[u8; 8], Engine>,
}

type Plain = Desk<InMemoryOneDecision>;

fn driver() -> ChannelDriver {
    ChannelDriver::new(MERCHANT, ENC, SETTLE.to_string())
}

fn carriage() -> Plain {
    desk(Carriage::demo(driver()), None)
}

fn desk<S: OneDecisionStore>(c: Carriage<S>, rail: Option<Rail>) -> Desk<S> {
    let c = match &rail {
        Some(_) => c.with_rail(Rail::levels()),
        None => c,
    };
    Desk {
        c,
        rail,
        engines: HashMap::new(),
    }
}

fn on_rail(rail: &Rail) -> Plain {
    desk(Carriage::demo(driver()), Some(rail.clone()))
}

/// A checkpoint that the payer proposes.
#[derive(Clone)]
struct Proposed {
    channel: [u8; 8],
    last_seq: u64,
    cum: u128,
    accruals: Vec<(u8, u128)>,
}

impl Proposed {
    fn reference(&self) -> [u8; 32] {
        digest(format!("{:?}{}{}{:?}", self.channel, self.last_seq, self.cum, self.accruals).as_bytes())
    }

    fn encoded(&self) -> Vec<u8> {
        let mut out = b"checkpoint".to_vec();
        out.extend_from_slice(&self.cum.to_be_bytes());
        out.extend_from_slice(&self.last_seq.to_be_bytes());
        out
    }
}

fn synthetic(channel: &[u8; 8], s: &Stillborn) -> [u8; 32] {
    digest(
        format!(
            "synthetic{channel:?}{}{:?}{}{}{}",
            s.prepay,
            plain(&s.accruals),
            s.net_legs_sum,
            s.funding_sum,
            s.timestamp
        )
        .as_bytes(),
    )
}

/// The reference of a channel that was funded and never metered.
fn birth_synthetic_ref(channel: [u8; 8], prepay: bool, funding: u128) -> [u8; 32] {
    synthetic(
        &channel,
        &Stillborn {
            prepay,
            accruals: numbers(&[(0x10, 0), (0x11, 0), (0x12, 0), (0x13, 0)]),
            net_legs_sum: 0,
            funding_sum: funding,
            timestamp: NOW,
        },
    )
}

fn auth_hash(auth: &ChannelAuth) -> [u8; 32] {
    digest(format!("{auth:?}").as_bytes())
}

impl<S: OneDecisionStore> Desk<S> {
    fn sync(&mut self, channel: &[u8; 8]) {
        let meter = self.engines[channel].meter();
        assert!(self.c.refresh(channel, meter));
    }

    fn apply(&mut self, effect: Effect, proposed: Option<&Proposed>) {
        let channel = match effect {
            Effect::Nothing => return,
            Effect::Credit { channel, amount } => {
                self.engines.get_mut(&channel).unwrap().balance -= amount as i128;
                channel
            }
            Effect::Settle { channel, gross } => {
                self.engines.get_mut(&channel).unwrap().balance -= gross as i128;
                channel
            }
            Effect::RaiseFloor { channel } => {
                let e = self.engines.get_mut(&channel).unwrap();
                e.floor = proposed.unwrap().last_seq;
                if e.status == Status::PausedEvidence {
                    e.status = Status::Open;
                }
                channel
            }
            Effect::BeginSettling { channel } => {
                self.engines.get_mut(&channel).unwrap().status = Status::Settling;
                channel
            }
        };
        self.sync(&channel);
    }

    fn open(&mut self, auth: &ChannelAuth) -> Result<Response, CarriageError> {
        self.open_sealed(auth, true, 500_000)
    }

    fn open_sealed(
        &mut self,
        auth: &ChannelAuth,
        committed: bool,
        limit_e: u128,
    ) -> Result<Response, CarriageError> {
        let facts = match &auth.predecessor {
            Some(pred) => ChainFacts {
                synthetic_ref: self.c.stillborn(&pred.channel).map(|s| synthetic(&pred.channel, &s)),
                terms_fp: self
                    .c
                    .chain_preimage(&pred.channel)
                    .map(|p| digest(&p))
                    .unwrap_or([0; 32]),
            },
            None => ChainFacts {
                synthetic_ref: None,
                terms_fp: [0; 32],
            },
        };
        self.c.on_open(auth, &facts)?;
        let hash = auth_hash(auth);
        let open_facts = OpenFacts {
            verified: true,
            governed: true,
            auth_hash: Some(hash),
            open_hash: Some(digest(format!("{hash:?}{committed}").as_bytes())),
        };
        let (auth_hash, open_hash) = match self.c.decide_open(auth, &open_facts, NOW)? {
            OpenOutcome::Retransmit(ack) => return Ok(Carriage::<S>::retransmitted_ack(&ack)),
            OpenOutcome::Fresh { auth_hash, open_hash } => (auth_hash, open_hash),
        };
        if ChannelDriver::check_secret(Unsealed::Opened { committed }).is_err() {
            return Err(CarriageError::Rejected);
        }
        let own_terms = digest(&chain_terms_preimage(
            auth.mode,
            &SEED,
            &auth.denom,
            &auth.baseline_net,
            &auth.fin_meed,
            &auth.fin_denom,
            auth.th_value,
            auth.th_time,
        ));
        let import = self.c.decide_import(auth, &own_terms)?;
        let mut engine = Engine {
            mode: auth.mode,
            limit_l: 1_000_000,
            limit_e,
            status: Status::Open,
            imported_cum: 0,
            imported_accruals: ROLES.iter().map(|(r, _, _)| (*r, 0)).collect(),
            slices: Vec::new(),
            floor: 0,
            balance: 0,
        };
        if let Some(plan) = &import {
            engine.imported_cum = plan.cum_total;
            engine.balance = plan.imported_balance;
            for (row, n) in engine.imported_accruals.iter_mut().zip(plan.accruals.iter()) {
                row.1 = n.to_u128().unwrap();
            }
        }
        let ack = auth_hash.to_vec();
        let r = self.c.install(auth, auth_hash, open_hash, &SEED, ack, engine.meter(), import);
        if r.is_ok() {
            self.engines.insert(auth.channel_id, engine);
        }
        r
    }

    fn batch(
        &mut self,
        channel: [u8; 8],
        slices: &[(u64, u128, bool)],
    ) -> Result<Response, CarriageError> {
        let channel = self.c.batch(&Some(channel), &Some(slices.len()))?;
        let refused = self.engines.get_mut(&channel).unwrap().accept(slices).err();
        self.sync(&channel);
        Carriage::<S>::batch_reply(refused)
    }

    /// Meters slices that authenticate.
    fn meter(&mut self, channel: [u8; 8], slices: &[(u64, u128)]) {
        let sealed: Vec<_> = slices.iter().map(|(s, a)| (*s, *a, true)).collect();
        assert_eq!(self.batch(channel, &sealed), Ok(Response::Accepted));
    }

    fn read(&self, reference: &str) -> RefRead {
        match &self.rail {
            Some(rail) => rail.read(reference),
            None => RefRead {
                info: None,
                finality: None,
            },
        }
    }

    fn fund(
        &mut self,
        channel_id: [u8; 8],
        auth_hash: [u8; 32],
        tx_ref: &str,
        amount: u128,
    ) -> Result<Response, CarriageError> {
        let fp = FundingProof {
            channel_id,
            auth_hash,
            amount,
            tx_ref: tx_ref.to_string(),
        };
        let read = self.read(tx_ref);
        let handled = self.c.on_funding(&fp, true, &read);
        self.apply(handled.effect, None);
        handled.reply
    }

    fn propose_checkpoint(&self, channel: [u8; 8]) -> Proposed {
        let e = &self.engines[&channel];
        Proposed {
            channel,
            last_seq: e.last_seq(),
            cum: e.cum(),
            accruals: e.accruals_up_to(u64::MAX),
        }
    }

    fn request_checkpoint(&mut self, p: &Proposed) -> Result<Response, CarriageError> {
        let e = &self.engines[&p.channel];
        let req = CheckpointRequest {
            channel_id: p.channel,
            cum_total: BigNat::from_u128(p.cum),
            accruals: numbers(&p.accruals),
            verified: true,
            recomputes: p.last_seq >= e.floor
                && p.cum == e.imported_cum + e.up_to(p.last_seq)
                && p.accruals == e.accruals_up_to(p.last_seq)
                && (p.last_seq > e.floor || e.slices.is_empty()),
            countersigned: Some(Countersigned {
                reference: Some(p.reference()),
                encoded: Some(p.encoded()),
            }),
        };
        let handled = self.c.on_checkpoint_request(&req);
        self.apply(handled.effect, Some(p));
        handled.reply
    }

    /// Countersigns what was metered and gives the checkpoint's reference.
    fn checkpoint(&mut self, channel: [u8; 8]) -> [u8; 32] {
        let p = self.propose_checkpoint(channel);
        assert!(matches!(
            self.request_checkpoint(&p),
            Ok(Response::Message(m)) if m[0] == 0x04
        ));
        p.reference()
    }

    fn propose(&mut self, p: &SettlementPropose) -> Result<Response, CarriageError> {
        let facts = ProposalFacts {
            verified: true,
            terms_fp: digest(&terms_preimage(p)),
            proposal_hash: Some(proposal_hash(p)),
            shares: self.c.round_outstanding(&p.channel_id).map(|o| divide(&o)),
        };
        self.c.on_settlement_propose(p, &facts)
    }

    fn prove(&mut self, hash: [u8; 32], legs: &[(u8, &str)]) -> Result<Response, CarriageError> {
        let key = match self.c.locate_round(&CID, true, &hash) {
            Some(key) => key,
            None => return Err(CarriageError::Rejected),
        };
        let txs: Vec<TxLeg> = legs
            .iter()
            .map(|(leg, reference)| TxLeg {
                leg: *leg,
                read: self.read(reference),
            })
            .collect();
        let facts = ProofFacts {
            instance_addr: instance_addr(&SEED),
            net_memo: net_memo(&key.channel, &key.ckpt_ref),
            receipt: Some(b"receipt".to_vec()),
            evidence: format!("{legs:?}").into_bytes(),
        };
        let handled = self.c.on_settlement_proof(&key, &txs, &facts);
        self.apply(handled.effect, None);
        handled.reply
    }

    fn close(
        &mut self,
        channel: [u8; 8],
        ckpt_ref: [u8; 32],
        chain: bool,
    ) -> Result<Response, CarriageError> {
        let close = Close {
            channel_id: channel,
            ckpt_ref,
            accepted: Some(chain),
        };
        let order = match self.c.on_close(&close) {
            CloseStep::Refuse => return Err(CarriageError::Rejected),
            CloseStep::Chain => None,
            CloseStep::Replay => {
                self.draw_carve(&channel);
                None
            }
            CloseStep::First(order) => Some(order),
        };
        if let Some(refund) = order {
            if let (Some(refund), Some(rail)) = (refund, self.rail.clone()) {
                let _ = self.c.reserve_refund(&channel, &ckpt_ref);
                assert_eq!(refund.denom, USDC);
                let released = rail.release_keyed(
                    channel,
                    ckpt_ref,
                    &refund.settle_ptr,
                    &refund.refund_ptr,
                    refund.amount,
                );
                if let Some(reference) = released {
                    let _ = self.c.record_release(&channel, &ckpt_ref, &reference);
                }
            }
            let facts: Vec<DrawFact> = self
                .c
                .open_draws(&channel)
                .iter()
                .map(|d| DrawFact {
                    ckpt_ref: d.ckpt_ref,
                    advanced: d
                        .draw_ref
                        .as_ref()
                        .and_then(|r| self.read(r).info)
                        .and_then(|i| i.advanced),
                })
                .collect();
            self.c.reconcile_close(&channel, &facts)?;
            self.draw_carve(&channel);
        }
        let handled = self.c.finish_close(&channel);
        self.apply(handled.effect, None);
        handled.reply
    }

    fn draw_carve(&mut self, channel: &[u8; 8]) {
        if let Some(order) = self.c.close_draw_order(channel) {
            assert_eq!(order.asset, USDC);
            assert_eq!(order.seed_instance, SEED);
            let drawn = match &self.rail {
                Some(rail) => rail
                    .advance_channel_meed(Some(&order.settle_ptr), *channel, order.target_p)
                    .is_some(),
                None => false,
            };
            self.c.attempt_prepay_close_draw(channel, drawn);
        }
    }

    fn interim_draw(&mut self, channel: &[u8; 8]) -> Option<DrawReceipt> {
        let shares = self.c.round_outstanding(channel).map(|o| divide(&o));
        let fp = match self.c.next_draw(channel) {
            Some((round, target)) => digest(&draw_preimage(&round, target)),
            None => [0; 32],
        };
        match self.c.run_prepay_interim_draw(channel, &shares, &fp) {
            InterimStep::Nothing => None,
            InterimStep::Reissue { round, tx_ref } => {
                let finality = self.read(&tx_ref).finality;
                self.c.reissue_receipt(&round, &finality)
            }
            InterimStep::Recheck { round, tx_ref } => {
                let finality = self.read(&tx_ref).finality;
                self.c.interim_drawn(
                    &round,
                    &DrawOutcome::Drawn {
                        reference: tx_ref,
                        finality,
                    },
                )
            }
            InterimStep::Draw { round, order } => {
                let drawn = self.rail.as_ref().unwrap().advance_channel_meed(
                    Some(&order.settle_ptr),
                    *channel,
                    order.target_p,
                );
                let outcome = match drawn {
                    Some(reference) => DrawOutcome::Drawn {
                        finality: self.read(&reference).finality,
                        reference,
                    },
                    None => DrawOutcome::Failed,
                };
                self.c.interim_drawn(&round, &outcome)
            }
        }
    }

    fn balance(&self, channel: &[u8; 8]) -> i128 {
        self.engines[channel].balance
    }

    fn cum_total(&self, channel: &[u8; 8]) -> u128 {
        self.c.state(channel).unwrap().cum_total
    }

    fn status(&self, channel: &[u8; 8]) -> Status {
        self.c.state(channel).unwrap().status
    }
}

// --- the payer ---

fn payer_open() -> ChannelAuth {
    ChannelAuth {
        payer_key: PAYER,
        channel_id: CID,
        merchant_key: MERCHANT,
        denom: USDC.to_string(),
        mode: Mode::Postpay,
        th_value: 100_000,
        th_time: 3600,
        refund_ptr: None,
        baseline_net: "solana:dev".to_string(),
        baseline_asset: USDC.to_string(),
        vector: ROLES
            .iter()
            .map(|(role, bp, dest)| VectorEntry {
                role: *role,
                bp: *bp,
                dest: dest.to_string(),
            })
            .collect(),
        predecessor: None,
        timestamp: NOW,
        fin_meed: "final".to_string(),
        fin_denom: "final".to_string(),
    }
}

fn prepay_open() -> ChannelAuth {
    let mut auth = payer_open();
    auth.mode = Mode::Prepay;
    auth.refund_ptr = Some(REFUND.to_string());
    auth
}

fn chained(mut auth: ChannelAuth, channel: [u8; 8], pred: ([u8; 8], [u8; 32])) -> ChannelAuth {
    auth.channel_id = channel;
    auth.predecessor = Some(CheckpointKey {
        channel: pred.0,
        ckpt_ref: pred.1,
    });
    auth
}

fn proposal_hash(p: &SettlementPropose) -> [u8; 32] {
    digest(format!("{p:?}").as_bytes())
}

fn opened() -> (Plain, [u8; 32]) {
    open_on(carriage())
}

fn open_on<S: OneDecisionStore>(mut d: Desk<S>) -> (Desk<S>, [u8; 32]) {
    let auth = payer_open();
    let hash = auth_hash(&auth);
    match d.open(&auth).unwrap() {
        Response::Message(m) => {
            assert_eq!(m[0], 0x02);
            assert_eq!(m[1..], hash);
        }
        Response::Accepted => panic!("an open is answered with an acknowledgment"),
    }
    assert_eq!(d.status(&CID), Status::Open);
    (d, hash)
}

fn opened_with_rail(rail: &Rail) -> (Plain, [u8; 32]) {
    open_on(on_rail(rail))
}

fn opened_and_checkpointed() -> (Plain, [u8; 32]) {
    let (mut d, _) = opened();
    d.meter(CID, &[(1, 10_000), (2, 5_000)]);
    let ckpt = d.checkpoint(CID);
    (d, ckpt)
}

fn opened_ckpt_with_ah(rail: &Rail) -> (Plain, [u8; 32], [u8; 32]) {
    let (mut d, ah) = opened_with_rail(rail);
    d.meter(CID, &[(1, 10_000), (2, 5_000)]);
    let ckpt = d.checkpoint(CID);
    (d, ah, ckpt)
}

fn opened_and_checkpointed_on(rail: &Rail) -> (Plain, [u8; 32]) {
    let (d, _, ckpt) = opened_ckpt_with_ah(rail);
    (d, ckpt)
}

/// A round for `cum` units on a ledger on which nothing was settled.
fn round_for(cum: u128) -> (u128, Vec<(u8, u128)>, u128) {
    let p = cum * 100 / 10_000;
    let e_r = ROLES.iter().map(|(r, bp, _)| (*r, cum * u128::from(*bp))).collect();
    (p, e_r, cum - p)
}

fn correct_round() -> (u128, Vec<(u8, u128)>, u128) {
    round_for(GROSS)
}

fn proposal(ckpt_ref: [u8; 32], p: u128, e_r: &[(u8, u128)], net: u128) -> SettlementPropose {
    SettlementPropose {
        channel_id: CID,
        ckpt_ref,
        outputs: vec![Output {
            amount: BigNat::from_u128(net),
            asset: USDC.to_string(),
            dest: SETTLE.to_string(),
        }],
        instance_leg: Some(InstanceLeg {
            amount: BigNat::from_u128(p),
            extinguished: numbers(e_r),
        }),
        conversion: None,
        merchant_signed: false,
    }
}

fn propose_round(
    ckpt_ref: [u8; 32],
    net_override: Option<u128>,
    p_override: Option<u128>,
) -> SettlementPropose {
    let (p, e_r, net) = correct_round();
    proposal(ckpt_ref, p_override.unwrap_or(p), &e_r, net_override.unwrap_or(net))
}

fn confirmed(r: Result<Response, CarriageError>) {
    assert!(matches!(r, Ok(Response::Message(m)) if m[0] == 0x08 && m[1..] == *b"receipt"));
}

/// A rail with one final funding transfer, its memo bound to the authorization.
fn rail_with_funding(
    auth_hash: [u8; 32],
    amount: u128,
    memo: Option<[u8; 32]>,
) -> (Rail, String) {
    let rail = Rail::new();
    let r = rail.submit(SETTLE, amount, memo.or(Some(auth_hash)));
    rail.advance_clock(FINALITY_DELAY);
    (rail, r)
}

/// Opens a prepay channel and funds it.
fn prepay_funded(deposit: u128) -> (Plain, Rail, [u8; 32]) {
    let auth = prepay_open();
    let ah = auth_hash(&auth);
    let (rail, tx) = rail_with_funding(ah, deposit, None);
    let mut d = on_rail(&rail);
    d.open(&auth).unwrap();
    assert_eq!(d.fund(CID, ah, &tx, deposit), Ok(Response::Accepted));
    (d, rail, ah)
}

/// Opens a prepay channel, funds it, meters one slice and countersigns it.
fn drive_prepay_to_operative(
    deposit: u128,
    consumed: u128,
    deploy: bool,
) -> (Plain, Rail, [u8; 32]) {
    let (mut d, rail, _) = prepay_funded(deposit);
    if deploy {
        rail.deploy();
    }
    d.meter(CID, &[(1, consumed)]);
    let ckpt = d.checkpoint(CID);
    (d, rail, ckpt)
}

/// The same over a durable store.
fn drive_prepay_durable(disk: &Disk, deposit: u128, consumed: u128) -> (Desk<WalOneDecision<Disk>>, Rail, [u8; 32]) {
    let auth = prepay_open();
    let ah = auth_hash(&auth);
    let (rail, tx) = rail_with_funding(ah, deposit, None);
    rail.deploy();
    let c = Carriage::demo(driver()).with_decisions(wal(disk));
    let mut d = desk(c, Some(rail.clone()));
    d.open(&auth).unwrap();
    assert_eq!(d.fund(CID, ah, &tx, deposit), Ok(Response::Accepted));
    d.meter(CID, &[(1, consumed)]);
    let ckpt = d.checkpoint(CID);
    (d, rail, ckpt)
}

fn drive_prepay_plain_close(deposit: u128, consumed: u128, deploy: bool) -> Rail {
    let (mut d, rail, ckpt) = drive_prepay_to_operative(deposit, consumed, deploy);
    assert_eq!(d.close(CID, ckpt, false), Ok(Response::Accepted));
    rail
}

fn complete_interim_draw(d: &mut Plain, rail: &Rail) -> DrawReceipt {
    assert!(d.interim_draw(&CID).is_none(), "submitted, and not final yet");
    rail.advance_clock(FINALITY_DELAY);
    d.interim_draw(&CID).expect("the receipt of a final draw")
}

// --- opening and metering ---

#[test]
fn reorgable_finality_channel_refused_on_a_rail() {
    let mut d = on_rail(&Rail::new());
    for (fr, fd) in [("pending", "final"), ("final", "pending"), ("pending", "pending")] {
        let mut bad = payer_open();
        bad.fin_meed = fr.to_string();
        bad.fin_denom = fd.to_string();
        assert_eq!(d.open(&bad), Err(CarriageError::Rejected), "{fr}/{fd}");
    }
    assert!(matches!(d.open(&payer_open()), Ok(Response::Message(_))));
}

#[test]
fn open_then_batch_meters() {
    let (mut d, _) = opened();
    assert_eq!(d.batch(CID, &[(1, 10_000, true), (2, 5_000, true)]), Ok(Response::Accepted));
    assert_eq!(d.cum_total(&CID), 15_000);
}

#[test]
fn off_baseline_open_is_fail_closed() {
    let mut d = carriage();
    let mut auth = payer_open();
    auth.denom = "solana:dev/eur".to_string();
    assert_eq!(d.open(&auth), Err(CarriageError::Rejected));
}

#[test]
fn retransmit_open_does_not_reset_meter() {
    let (mut d, hash) = opened();
    d.meter(CID, &[(1, 30_000)]);
    assert_eq!(d.cum_total(&CID), 30_000);
    match d.open(&payer_open()).unwrap() {
        Response::Message(m) => assert_eq!((m[0], &m[1..]), (0x02, &hash[..])),
        Response::Accepted => panic!("a retransmission gets the stored acknowledgment"),
    }
    assert_eq!(d.cum_total(&CID), 30_000, "the meter was not reset");
}

#[test]
fn ack_retrieval_only_on_ack_resource() {
    let (d, hash) = opened();
    let body = [&[0x0a][..], b"request"].concat();
    assert_eq!(Carriage::<InMemoryOneDecision>::ack(&body), Ok(b"request".to_vec()));
    match d.c.serve_ack(&CID, NOW, true, NOW).unwrap() {
        Response::Message(m) => assert_eq!((m[0], &m[1..]), (0x02, &hash[..])),
        Response::Accepted => panic!("the acknowledgment is a message"),
    }
    assert_eq!(d.c.serve_ack(&CID, NOW, false, NOW), Err(CarriageError::Rejected));
    assert_eq!(
        Carriage::<InMemoryOneDecision>::channel(&body),
        Err(CarriageError::Misrouted)
    );
}

#[test]
fn routing_rejections() {
    type C = Carriage<InMemoryOneDecision>;
    assert_eq!(C::channel(&[]), Err(CarriageError::UnknownType));
    assert_eq!(C::channel(&[0xff, b'x']), Err(CarriageError::UnknownType));
    assert_eq!(C::channel(&[0x08, b'x']), Err(CarriageError::Unsupported));
    assert_eq!(C::ack(&[0x01, b'x']), Err(CarriageError::Misrouted));
    let mut d = carriage();
    assert_eq!(d.fund([9; 8], [0; 32], "t", 1), Err(CarriageError::Rejected));
}

#[test]
fn every_octet_has_its_place() {
    type C = Carriage<InMemoryOneDecision>;
    for (octet, inbound) in [
        (0x01, Inbound::Open),
        (0x03, Inbound::CheckpointRequest),
        (0x05, Inbound::Funding),
        (0x06, Inbound::Propose),
        (0x07, Inbound::Proof),
        (0x09, Inbound::Close),
    ] {
        assert_eq!(C::channel(&[octet, 1, 2]), Ok((inbound, vec![1, 2])));
    }
    assert_eq!(C::channel(&[0x04]), Err(CarriageError::Unsupported));
    assert_eq!(C::channel(&[0x02]), Err(CarriageError::Misrouted));
    assert_eq!(C::ack(&[]), Err(CarriageError::UnknownType));
}

#[test]
fn malformed_slice_is_channel_independent() {
    let (d, _) = opened();
    assert_eq!(d.c.batch(&Some(CID), &None), Err(CarriageError::Malformed));
    assert_eq!(d.c.batch(&Some([9; 8]), &None), Err(CarriageError::Malformed));
    assert_eq!(d.c.batch(&None, &Some(1)), Err(CarriageError::Malformed));
    assert_eq!(d.c.batch(&Some(CID), &Some(0)), Err(CarriageError::Malformed));
    assert_eq!(d.c.batch(&Some([9; 8]), &Some(1)), Err(CarriageError::Rejected));
}

#[test]
fn batch_bound_errors_are_specific_post_mac() {
    let (mut d, _) = opened();
    assert_eq!(d.batch(CID, &[(1, 2_000_000, true)]), Err(CarriageError::WindowExceeded));
    assert_eq!(d.batch(CID, &[(1, 100, false)]), Err(CarriageError::Rejected));
    assert_eq!(d.batch(CID, &[(1, 600_000, true)]), Err(CarriageError::EvidenceRequired));
    assert_eq!(d.batch(CID, &[(0, 1, true)]), Err(CarriageError::SeqInvalid));
}

// --- funding ---

#[test]
fn funding_credits_and_reopens() {
    let (mut d, ah) = opened();
    d.meter(CID, &[(1, 20_000)]);
    assert_eq!(d.fund(CID, ah, "sig1", 20_000), Ok(Response::Accepted));
    // Only the merchant's net is credited; the carve is owed to the instance.
    assert_eq!(d.balance(&CID), 200);
}

#[test]
fn funding_with_a_failing_durable_store_rejects_and_leaves_the_ref_creditable() {
    // A store whose every append fails.
    let disk = Disk {
        read_only: true,
        ..Disk::default()
    };
    let mut d = desk(Carriage::demo(driver()).with_decisions(wal(&disk)), None);
    let auth = payer_open();
    d.open(&auth).unwrap();
    let ah = auth_hash(&auth);
    d.meter(CID, &[(1, 20_000)]);
    let before = d.balance(&CID);
    assert_eq!(
        d.fund(CID, ah, "sig1", 20_000),
        Err(CarriageError::Rejected),
        "a storage failure on the funding credit path rejects, to be retried"
    );
    assert_eq!(d.balance(&CID), before, "nothing was credited under the failed store");
    assert!(!d.c.ref_consumed(&"sig1".to_string()), "a retry can still be credited");
}

#[test]
fn a_claim_is_taken_over_as_the_store_decided_it() {
    let name = "sig1".to_string();
    let mut c = carriage().c;
    assert_eq!(c.ref_decided(&Decision::Failed, &name), ConsumeOutcome::Failed);
    assert!(!c.ref_consumed(&name));
    assert_eq!(c.ref_decided(&Decision::Fresh, &name), ConsumeOutcome::First);
    assert!(c.ref_consumed(&name));
    let mut c = carriage().c;
    assert_eq!(c.ref_decided(&Decision::AlreadyDecided(Vec::new()), &name), ConsumeOutcome::Duplicate);
    assert!(c.ref_consumed(&name));
}

#[test]
fn a_funding_claim_is_recorded_under_an_empty_value() {
    let disk = Disk::default();
    let mut c = Carriage::demo(driver()).with_decisions(wal(&disk));
    assert_eq!(c.consume_ref(&"sig1".to_string()), ConsumeOutcome::First);
    assert_eq!(c.consume_ref(&"sig1".to_string()), ConsumeOutcome::Duplicate);
    assert_eq!(wal(&disk).get(&fund_key("sig1")), Some(Vec::new()));
}

fn names(refs: &[&str]) -> Vec<String> {
    refs.iter().map(|r| r.to_string()).collect()
}

#[test]
fn transfers_are_claimed_in_turn_up_to_the_first_that_is_taken() {
    let disk = Disk::default();
    let mut c = Carriage::demo(driver()).with_decisions(wal(&disk));
    assert_eq!(c.consume_all(&names(&[])), ConsumeOutcome::First);
    assert_eq!(c.consume_all(&names(&["a", "b"])), ConsumeOutcome::First);
    assert_eq!(c.consume_all(&names(&["c", "b", "d"])), ConsumeOutcome::Duplicate);
    assert!(c.ref_consumed(&"c".to_string()));
    assert!(!c.ref_consumed(&"d".to_string()));
    let recorded = wal(&disk);
    assert_eq!(recorded.get(&fund_key("c")), Some(Vec::new()));
    assert_eq!(recorded.get(&fund_key("d")), None);

    let mut plain = carriage().c;
    assert_eq!(plain.consume_all(&names(&["a", "b"])), ConsumeOutcome::First);
    assert_eq!(plain.consume_all(&names(&["c", "c"])), ConsumeOutcome::Duplicate);
    assert_eq!(plain.consume_all(&names(&["d", "a"])), ConsumeOutcome::Duplicate);
    assert!(plain.ref_consumed(&"d".to_string()));
}

#[test]
fn a_healthy_log_credits_a_transfer_once_across_restarts() {
    let disk = Disk::default();
    let open = |disk: &Disk| {
        let mut d = desk(Carriage::demo(driver()).with_decisions(wal(disk)), None);
        d.open(&payer_open()).unwrap();
        d.meter(CID, &[(1, 20_000)]);
        d
    };
    let ah = auth_hash(&payer_open());
    let mut d = open(&disk);
    assert_eq!(d.fund(CID, ah, "sig1", 20_000), Ok(Response::Accepted));
    assert_eq!(d.balance(&CID), 200);
    let mut d = open(&disk);
    assert!(d.fund(CID, ah, "sig1", 20_000).is_err(), "the restart knows the transfer");
    assert_eq!(d.balance(&CID), 20_000);
    assert_eq!(d.fund(CID, ah, "sig2", 20_000), Ok(Response::Accepted));
    assert_eq!(d.balance(&CID), 200);
}

#[test]
fn only_a_carriage_that_moves_money_records_an_acceptance() {
    let disk = Disk::default();
    let mut d = desk(Carriage::demo(driver()).with_decisions(wal(&disk)), None);
    d.open(&payer_open()).unwrap();
    assert!(wal(&disk).entries().is_empty());

    let c = Carriage::durable(driver(), Rail::levels(), wal(&disk)).unwrap();
    let mut d = desk(c, Some(Rail::default()));
    d.open(&payer_open()).unwrap();
    assert_eq!(wal(&disk).get(&chopen_key(&CID)), Some(Vec::new()));
    // The identifier is not accepted a second time, after a restart.
    let c = Carriage::durable(driver(), Rail::levels(), wal(&disk)).unwrap();
    let mut d = desk(c, Some(Rail::default()));
    assert!(d.open(&payer_open()).is_err());
}

#[test]
fn a_claim_that_cannot_be_recorded_claims_nothing() {
    let disk = Disk {
        read_only: true,
        ..Disk::default()
    };
    let mut c = Carriage::demo(driver()).with_decisions(wal(&disk));
    assert_eq!(c.consume_ref(&"sig1".to_string()), ConsumeOutcome::Failed);
    assert!(!c.ref_consumed(&"sig1".to_string()));
}

#[test]
fn funding_replay_is_refused() {
    let (mut d, ah) = opened();
    d.meter(CID, &[(1, 40_000)]);
    assert_eq!(d.fund(CID, ah, "sig1", 20_000), Ok(Response::Accepted));
    assert_eq!(d.fund(CID, ah, "sig1", 20_000), Err(CarriageError::Rejected));
    assert_eq!(d.balance(&CID), 20_000, "the replay credited nothing");
    assert_eq!(d.fund(CID, [0; 32], "sig2", 20_000), Err(CarriageError::Rejected));
}

#[test]
fn rail_funding_verified_and_credited() {
    let auth = payer_open();
    let ah = auth_hash(&auth);
    let (rail, tx) = rail_with_funding(ah, 20_000, None);
    let mut d = on_rail(&rail);
    d.open(&auth).unwrap();
    d.meter(CID, &[(1, 20_000)]);
    assert_eq!(d.fund(CID, ah, &tx, 20_000), Ok(Response::Accepted));
    assert_eq!(d.balance(&CID), 200);
}

#[test]
fn rail_funding_wrong_memo_or_unfinalized_rejected() {
    let auth = payer_open();
    let ah = auth_hash(&auth);
    let (rail, tx) = rail_with_funding(ah, 20_000, Some([0xbe; 32]));
    let mut d = on_rail(&rail);
    d.open(&auth).unwrap();
    assert_eq!(d.fund(CID, ah, &tx, 20_000), Err(CarriageError::Rejected));

    let rail2 = Rail::new();
    let r = rail2.submit(SETTLE, 20_000, Some(ah));
    let mut d2 = on_rail(&rail2);
    d2.open(&auth).unwrap();
    assert_eq!(d2.fund(CID, ah, &r, 20_000), Err(CarriageError::Rejected));
    // An amount that the transfer does not have.
    rail2.advance_clock(FINALITY_DELAY);
    assert_eq!(d2.fund(CID, ah, &r, 20_001), Err(CarriageError::Rejected));
    assert_eq!(d2.fund(CID, ah, "tx9", 20_000), Err(CarriageError::Rejected));
}

#[test]
fn postpay_late_funding_after_plain_close_is_credited() {
    let rail = Rail::new();
    let (mut d, ah, ckpt) = opened_ckpt_with_ah(&rail);
    d.close(CID, ckpt, false).unwrap();
    let tx = rail.submit(SETTLE, 5_000, Some(ah));
    rail.advance_clock(FINALITY_DELAY);
    assert_eq!(d.fund(CID, ah, &tx, 5_000), Ok(Response::Accepted));
}

#[test]
fn a_closed_prepay_channel_takes_no_funding() {
    let (mut d, rail, ah) = prepay_funded(1_000);
    assert!(d.c.funding_admissible(&CID));
    d.close(CID, [0; 32], false).unwrap();
    assert!(!d.c.funding_admissible(&CID));
    let tx = rail.submit(SETTLE, 5_000, Some(ah));
    rail.advance_clock(FINALITY_DELAY);
    assert_eq!(d.fund(CID, ah, &tx, 5_000), Err(CarriageError::Rejected));
}

// --- checkpoints ---

#[test]
fn checkpoint_countersign_and_close_anchors_to_it() {
    let (mut d, _) = opened();
    d.meter(CID, &[(1, 10_000), (2, 5_000)]);
    let p = d.propose_checkpoint(CID);
    match d.request_checkpoint(&p).unwrap() {
        Response::Message(m) => {
            assert_eq!(m[0], 0x04);
            assert_eq!(m[1..], p.encoded()[..]);
        }
        Response::Accepted => panic!("the countersigned checkpoint comes back"),
    }
    // A close has to name the operative checkpoint.
    assert_eq!(d.close(CID, [0xab; 32], false), Err(CarriageError::Rejected));
    assert_eq!(d.close(CID, p.reference(), false), Ok(Response::Accepted));
    assert_eq!(d.status(&CID), Status::Settling);
}

#[test]
fn checkpoint_mismatch_is_rejected() {
    let (mut d, _) = opened();
    d.meter(CID, &[(1, 10_000)]);
    let mut p = d.propose_checkpoint(CID);
    p.cum = 999_999;
    assert!(matches!(d.request_checkpoint(&p), Err(CarriageError::StateMismatch(_))));
}

#[test]
fn a_mismatch_is_answered_with_the_merchants_own_checkpoint() {
    let (mut d, _) = opened();
    d.meter(CID, &[(1, 10_000)]);
    let mut wrong = d.propose_checkpoint(CID);
    wrong.cum = 999_999;
    assert_eq!(d.request_checkpoint(&wrong), Err(CarriageError::StateMismatch(None)));
    let own = d.propose_checkpoint(CID);
    d.request_checkpoint(&own).unwrap();
    let status = d.status(&CID);
    assert_eq!(
        d.request_checkpoint(&wrong),
        Err(CarriageError::StateMismatch(Some(own.encoded())))
    );
    assert_eq!(d.status(&CID), status);
    // The operative checkpoint is still the one before.
    assert_eq!(d.close(CID, own.reference(), false), Ok(Response::Accepted));
}

#[test]
fn checkpoint_releases_evidence_pause() {
    let mut d = carriage();
    d.open_sealed(&payer_open(), true, 10_000).unwrap();
    d.meter(CID, &[(1, 10_000)]);
    assert_eq!(d.status(&CID), Status::PausedEvidence);
    d.checkpoint(CID);
    assert_eq!(d.status(&CID), Status::Open);
}

#[test]
fn checkpoint_retry_returns_countersigned_idempotently() {
    let (mut d, _) = opened();
    d.meter(CID, &[(1, 10_000), (2, 5_000)]);
    let p = d.propose_checkpoint(CID);
    let first = d.request_checkpoint(&p);
    assert!(matches!(&first, Ok(Response::Message(_))));
    assert_eq!(d.request_checkpoint(&p), first);
}

#[test]
fn newer_slice_does_not_fail_a_correct_checkpoint_and_is_not_lost() {
    let (mut d, _) = opened();
    d.meter(CID, &[(1, 10_000)]);
    let p1 = d.propose_checkpoint(CID);
    d.meter(CID, &[(2, 5_000)]);
    assert!(matches!(d.request_checkpoint(&p1), Ok(Response::Message(m)) if m[1..] == p1.encoded()[..]));
    assert_eq!((p1.cum, p1.last_seq), (10_000, 1));
    let p2 = d.propose_checkpoint(CID);
    assert!(matches!(d.request_checkpoint(&p2), Ok(Response::Message(m)) if m[1..] == p2.encoded()[..]));
    assert_eq!((p2.cum, p2.last_seq), (15_000, 2));
}

#[test]
fn a_checkpoint_that_cannot_be_signed_or_named_is_malformed() {
    let (mut d, _) = opened();
    d.meter(CID, &[(1, 10_000)]);
    let p = d.propose_checkpoint(CID);
    let req = |verified: bool, countersigned: Option<Countersigned>| CheckpointRequest {
        channel_id: CID,
        cum_total: BigNat::from_u128(p.cum),
        accruals: numbers(&p.accruals),
        verified,
        recomputes: true,
        countersigned,
    };
    let signed = |reference: Option<[u8; 32]>| Countersigned {
        reference,
        encoded: Some(vec![1]),
    };
    let handled = d.c.on_checkpoint_request(&req(false, Some(signed(Some([1; 32])))));
    assert_eq!(handled.reply, Err(CarriageError::Rejected));
    assert_eq!(handled.effect, Effect::Nothing);
    let handled = d.c.on_checkpoint_request(&req(true, None));
    assert_eq!(handled.reply, Err(CarriageError::Malformed));
    assert_eq!(handled.effect, Effect::Nothing);
    // The engine's floor moves before the reference is formed.
    let handled = d.c.on_checkpoint_request(&req(true, Some(signed(None))));
    assert_eq!(handled.reply, Err(CarriageError::Malformed));
    assert_eq!(handled.effect, Effect::RaiseFloor { channel: CID });
    assert!(d.c.round_outstanding(&CID).is_none(), "no checkpoint became operative");
}

// --- closing and chaining ---

#[test]
fn close_moves_to_settling_and_bars_slices() {
    let (mut d, _) = opened();
    assert_eq!(d.close(CID, [0xcc; 32], true), Ok(Response::Accepted));
    assert_eq!(d.status(&CID), Status::Settling);
    assert_eq!(d.batch(CID, &[(1, 100, true)]), Err(CarriageError::Closed));
}

#[test]
fn a_close_that_is_not_accepted_is_refused() {
    let (mut d, _) = opened();
    let close = Close {
        channel_id: CID,
        ckpt_ref: [0; 32],
        accepted: None,
    };
    assert!(matches!(d.c.on_close(&close), CloseStep::Refuse));
    assert_eq!(d.close([9; 8], [0; 32], false), Err(CarriageError::Rejected));
}

#[test]
fn chained_successor_imports_the_reconciled_position_and_conserves() {
    let (mut d, _) = opened();
    d.meter(CID, &[(1, 40_000), (2, 20_000)]);
    assert_eq!(d.cum_total(&CID), 60_000);
    let pred_accruals = plain(&d.c.state(&CID).unwrap().accruals);
    assert!(pred_accruals.iter().any(|(_, a)| *a > 0));
    let ckpt = d.checkpoint(CID);
    assert_eq!(d.close(CID, ckpt, true), Ok(Response::Accepted));
    assert_eq!(d.c.disposition(&CID), Some(ChainState::Pending));

    let succ_id = id(11);
    assert!(matches!(
        d.open(&chained(payer_open(), succ_id, (CID, ckpt))),
        Ok(Response::Message(_))
    ));
    assert_eq!(d.cum_total(&succ_id), 60_000);
    assert_eq!(plain(&d.c.state(&succ_id).unwrap().accruals), pred_accruals);
    assert_eq!(d.balance(&succ_id), 60_000);
    assert_eq!(
        d.c.disposition(&CID),
        Some(ChainState::Committed { successor: succ_id })
    );
    assert_eq!(d.c.resolve_chain_tip(CID), succ_id);
    d.meter(succ_id, &[(1, 10_000)]);
    assert_eq!(d.cum_total(&succ_id), 70_000);
}

fn fresh_meter() -> Meter {
    Meter {
        mode: Mode::Postpay,
        status: Status::Open,
        cum_total: 0,
        accruals: numbers(&ROLES.map(|(role, _, _)| (role, 0))),
        balance: 0,
        bound_lower: -10,
        bound_upper: 10,
    }
}

/// Installs a channel that has no predecessor.
fn install_fresh(d: &mut Plain, meter: Meter) -> Result<Response, CarriageError> {
    let auth = payer_open();
    d.c.install(&auth, [1; 32], [2; 32], &SEED, vec![3], meter, None)
}

#[test]
fn a_fresh_channel_starts_at_nothing() {
    let mut d = carriage();
    let elsewhere = [
        Meter { cum_total: 1, ..fresh_meter() },
        Meter { balance: 1, ..fresh_meter() },
        Meter { accruals: numbers(&[(0x10, 1)]), ..fresh_meter() },
        Meter { mode: Mode::Prepay, ..fresh_meter() },
        Meter { bound_lower: 11, ..fresh_meter() },
    ];
    for meter in elsewhere {
        assert_eq!(install_fresh(&mut d, meter), Err(CarriageError::Rejected));
        assert!(d.c.state(&CID).is_none());
    }
    assert_eq!(install_fresh(&mut d, fresh_meter()), Ok(Response::Message(vec![0x02, 3])));
    assert_eq!(d.cum_total(&CID), 0);
}

#[test]
fn a_chained_channel_starts_at_the_imported_position() {
    let (mut d, _) = opened();
    d.meter(CID, &[(1, 40_000), (2, 20_000)]);
    let ckpt = d.checkpoint(CID);
    assert_eq!(d.close(CID, ckpt, true), Ok(Response::Accepted));
    let auth = chained(payer_open(), id(11), (CID, ckpt));
    let own_terms = digest(&d.c.chain_preimage(&CID).unwrap());
    let facts = ChainFacts {
        synthetic_ref: None,
        terms_fp: own_terms,
    };
    d.c.on_open(&auth, &facts).unwrap();
    let position = d.engines[&CID].accruals_up_to(u64::MAX);
    let start = || Meter {
        cum_total: 60_000,
        accruals: numbers(&position),
        balance: 60_000,
        ..fresh_meter()
    };
    let mut short = position.clone();
    short[0].1 -= 1;
    let mut swapped = position.clone();
    swapped.swap(0, 1);
    let elsewhere = [
        fresh_meter(),
        Meter { cum_total: 59_999, ..start() },
        Meter { balance: 59_999, ..start() },
        Meter { accruals: numbers(&short), ..start() },
        Meter { accruals: numbers(&position[1..]), ..start() },
    ];
    for meter in elsewhere {
        let import = d.c.decide_import(&auth, &own_terms).unwrap();
        assert_eq!(import.as_ref().unwrap().imported_balance, 60_000);
        let r = d.c.install(&auth, [1; 32], [2; 32], &SEED, vec![3], meter, import);
        assert_eq!(r, Err(CarriageError::Rejected));
        assert!(d.c.state(&id(11)).is_none());
        assert_eq!(d.c.disposition(&CID), Some(ChainState::Pending));
    }
    // The position is one per role, in whatever order the engine keeps them.
    let import = d.c.decide_import(&auth, &own_terms).unwrap();
    let meter = Meter { accruals: numbers(&swapped), ..start() };
    let r = d.c.install(&auth, [1; 32], [2; 32], &SEED, vec![3], meter, import);
    assert_eq!(r, Ok(Response::Message(vec![0x02, 3])));
    assert_eq!(d.cum_total(&id(11)), 60_000);
    assert_eq!(d.c.disposition(&CID), Some(ChainState::Committed { successor: id(11) }));
}

#[test]
fn late_predecessor_funding_credits_the_successor() {
    let rail = Rail::new();
    let (mut d, ah, ckpt) = opened_ckpt_with_ah(&rail);
    d.close(CID, ckpt, true).unwrap();
    let succ_id = id(13);
    d.open(&chained(payer_open(), succ_id, (CID, ckpt))).unwrap();
    let owed_before = d.balance(&succ_id);
    let tx = rail.submit(SETTLE, 5_000, Some(ah));
    rail.advance_clock(FINALITY_DELAY);
    assert_eq!(d.fund(CID, ah, &tx, 5_000), Ok(Response::Accepted));
    assert!(d.balance(&succ_id) <= owed_before - 5_000);
    assert_eq!(d.cum_total(&CID), 15_000);
}

#[test]
fn stale_snapshot_not_imported_after_synthetic_ref_moves() {
    let (mut d, rail, ah) = prepay_funded(100_000);
    let r1 = birth_synthetic_ref(CID, true, 100_000);
    d.close(CID, r1, true).unwrap();
    // A successor whose secret is not the committed one leaves a snapshot behind.
    assert_eq!(
        d.open_sealed(&chained(prepay_open(), id(21), (CID, r1)), false, 500_000),
        Err(CarriageError::Rejected)
    );
    // Late funding moves the reference.
    let tx2 = rail.submit(SETTLE, 50_000, Some(ah));
    rail.advance_clock(FINALITY_DELAY);
    assert_eq!(d.fund(CID, ah, &tx2, 50_000), Ok(Response::Accepted));
    assert_eq!(
        d.open(&chained(prepay_open(), id(22), (CID, r1))),
        Err(CarriageError::Rejected)
    );
    let r2 = birth_synthetic_ref(CID, true, 150_000);
    assert!(matches!(
        d.open(&chained(prepay_open(), id(23), (CID, r2))),
        Ok(Response::Message(_))
    ));
    assert_eq!(d.balance(&id(23)), -150_000);
}

#[test]
fn redirected_funding_to_a_reconciled_postpay_tip_is_credited() {
    let rail = Rail::new();
    let (mut d, ah, ckpt) = opened_ckpt_with_ah(&rail);
    d.close(CID, ckpt, true).unwrap();
    let succ_id = id(24);
    d.open(&chained(payer_open(), succ_id, (CID, ckpt))).unwrap();
    d.close(succ_id, [0; 32], false).unwrap();
    let tx = rail.submit(SETTLE, 5_000, Some(ah));
    rail.advance_clock(FINALITY_DELAY);
    assert_eq!(d.fund(CID, ah, &tx, 5_000), Ok(Response::Accepted));
}

#[test]
fn chain_intent_close_rejected_while_a_round_is_in_flight() {
    let (mut d, ckpt) = opened_and_checkpointed_on(&Rail::new());
    assert_eq!(d.propose(&propose_round(ckpt, None, None)), Ok(Response::Accepted));
    assert!(d.c.has_open_round(&CID, &None));
    assert_eq!(d.close(CID, ckpt, true), Err(CarriageError::Rejected));
    assert_eq!(d.close(CID, ckpt, false), Ok(Response::Accepted));
}

#[test]
fn prepay_close_refunds_unconsumed_deposit() {
    let deposit = 1_000_000;
    let (mut d, rail, ckpt) = drive_prepay_to_operative(deposit, 400_000, false);
    assert_eq!(rail.balance(SETTLE), deposit);
    assert_eq!(d.close(CID, ckpt, false), Ok(Response::Accepted));
    assert_eq!(rail.balance(REFUND), 600_000);
    assert_eq!(rail.balance(SETTLE), 400_000);
}

#[test]
fn prepay_chained_close_rolls_forward_without_refund() {
    let (mut d, rail, _) = prepay_funded(1_000_000);
    d.close(CID, [0; 32], true).unwrap();
    assert_eq!(rail.balance(REFUND), 0);
    assert_eq!(rail.balance(SETTLE), 1_000_000);
}

#[test]
fn prepay_replayed_close_does_not_double_refund() {
    let (mut d, rail, _) = prepay_funded(1_000_000);
    // Deposits of other channels at the same pointer.
    rail.submit(SETTLE, 2_000_000, None);
    assert_eq!(d.close(CID, [0; 32], false), Ok(Response::Accepted));
    assert_eq!(rail.balance(REFUND), 1_000_000);
    assert_eq!(rail.balance(SETTLE), 2_000_000);
    assert_eq!(d.close(CID, [0; 32], false), Ok(Response::Accepted));
    assert_eq!(rail.balance(REFUND), 1_000_000);
    assert_eq!(rail.balance(SETTLE), 2_000_000);
}

/// A prepay successor that imported 60_000 of consumption and has no checkpoint.
fn imported_prepay_successor(succ_id: [u8; 8]) -> (Plain, Rail) {
    let (mut d, rail, ckpt) = drive_prepay_to_operative(1_000_000, 60_000, true);
    d.close(CID, ckpt, true).unwrap();
    assert!(matches!(
        d.open(&chained(prepay_open(), succ_id, (CID, ckpt))),
        Ok(Response::Message(_))
    ));
    assert_eq!(d.cum_total(&succ_id), 60_000);
    (d, rail)
}

#[test]
fn imported_successor_plain_close_refunds_against_imported_cum() {
    let (mut d, rail) = imported_prepay_successor(id(21));
    assert_eq!(d.close(id(21), [0; 32], false), Ok(Response::Accepted));
    assert_eq!(rail.balance(REFUND), 940_000);
}

#[test]
fn imported_prepay_successor_plain_close_draws_the_imported_carve() {
    let (mut d, rail) = imported_prepay_successor(id(22));
    assert_eq!(d.close(id(22), [0; 32], false), Ok(Response::Accepted));
    let carve = 600;
    assert_eq!(rail.balance(REFUND), 940_000);
    assert_eq!(rail.recipients(), carve);
    assert_eq!(rail.balance(SETTLE), 60_000 - carve);
}

#[test]
fn imported_stillborn_chain_close_rejected_fail_fast() {
    let (mut d, _) = opened();
    d.meter(CID, &[(1, 60_000)]);
    let ckpt = d.checkpoint(CID);
    d.close(CID, ckpt, true).unwrap();
    let succ_id = id(22);
    d.open(&chained(payer_open(), succ_id, (CID, ckpt))).unwrap();
    assert_eq!(d.cum_total(&succ_id), 60_000);
    assert_eq!(d.close(succ_id, [0; 32], true), Err(CarriageError::Rejected));
    assert_eq!(d.close(succ_id, [0; 32], false), Ok(Response::Accepted));
}

#[test]
fn chain_intent_close_without_successor_traps_deposit() {
    let (mut d, rail, _) = prepay_funded(1_000_000);
    d.close(CID, [0; 32], true).unwrap();
    assert_eq!(rail.balance(REFUND), 0);
    d.close(CID, [0; 32], false).unwrap();
    assert!(rail.balance(REFUND) > 0, "the intent to chain is no waiver");
    assert_eq!(rail.balance(REFUND), 1_000_000);
}

#[test]
fn chain_close_requires_checkpoint_before_chain() {
    let rail = Rail::new();
    let (mut d, _, ckpt) = opened_ckpt_with_ah(&rail);
    let checkpoint_cum = d.cum_total(&CID);
    d.meter(CID, &[(3, 4_000)]);
    let live_cum = d.cum_total(&CID);
    assert!(live_cum > checkpoint_cum);
    assert_eq!(d.close(CID, ckpt, true), Err(CarriageError::Rejected));
    let ckpt2 = d.checkpoint(CID);
    assert_eq!(d.cum_total(&CID), live_cum);
    assert_eq!(d.close(CID, ckpt2, true), Ok(Response::Accepted));
    let succ_id = id(12);
    d.open(&chained(payer_open(), succ_id, (CID, ckpt2))).unwrap();
    assert_eq!(d.cum_total(&succ_id), live_cum);
}

#[test]
fn close_refund_reads_named_not_live_checkpoint() {
    let (mut d, rail, ckpt) = drive_prepay_to_operative(1_000_000, 300_000, false);
    d.meter(CID, &[(2, 100_000)]);
    d.close(CID, ckpt, false).unwrap();
    assert_eq!(rail.balance(REFUND), 700_000);
}

#[test]
fn plain_close_admits_final_settlement_round() {
    let rail = Rail::new();
    let (mut d, _, ckpt) = opened_ckpt_with_ah(&rail);
    d.close(CID, ckpt, false).unwrap();
    assert!(!d.c.bars_new_round(&CID));
    assert_eq!(d.propose(&propose_round(ckpt, None, None)), Ok(Response::Accepted));
}

#[test]
fn a_chain_intent_bars_a_new_round() {
    let (mut d, ckpt) = opened_and_checkpointed();
    d.close(CID, ckpt, true).unwrap();
    assert!(d.c.bars_new_round(&CID));
    assert_eq!(d.propose(&propose_round(ckpt, None, None)), Err(CarriageError::Rejected));
}

#[test]
fn a_reconciled_position_is_never_imported() {
    let (mut d, ckpt) = opened_and_checkpointed();
    d.close(CID, ckpt, true).unwrap();
    d.close(CID, ckpt, false).unwrap();
    assert_eq!(
        d.open(&chained(payer_open(), id(11), (CID, ckpt))),
        Err(CarriageError::Rejected)
    );
}

#[test]
fn a_position_is_imported_once() {
    let (mut d, ckpt) = opened_and_checkpointed();
    d.close(CID, ckpt, true).unwrap();
    d.open(&chained(payer_open(), id(11), (CID, ckpt))).unwrap();
    assert_eq!(
        d.open(&chained(payer_open(), id(12), (CID, ckpt))),
        Err(CarriageError::Rejected)
    );
}

// --- the carve of a prepay channel ---

#[test]
fn prepay_close_draws_the_carve_to_the_instance() {
    let deposit = 1_000_000u128;
    let consumed = 100_000u128;
    let carve = consumed / 100;
    let rail = drive_prepay_plain_close(deposit, consumed, true);
    assert_eq!(rail.balance(REFUND), deposit - consumed);
    assert_eq!(rail.recipients(), carve);
    assert_eq!(rail.balance(SETTLE), consumed - carve);
    assert_eq!(rail.balance(REFUND) + rail.recipients() + rail.balance(SETTLE), deposit);
}

#[test]
fn a_proof_that_cannot_be_recorded_changes_nothing() {
    let rail = Rail::new();
    rail.deploy();
    let disk = Disk {
        read_only: true,
        ..Disk::default()
    };
    let c = Carriage::demo(driver()).with_decisions(wal(&disk));
    let (mut d, _) = open_on(desk(c, Some(rail.clone())));
    d.meter(CID, &[(1, 10_000), (2, 5_000)]);
    let ckpt = d.checkpoint(CID);
    let (p, _, net) = correct_round();
    let prop = propose_round(ckpt, None, None);
    assert_eq!(d.propose(&prop), Ok(Response::Accepted));
    let meed = rail.advance_channel_meed(None, CID, p).unwrap();
    let net_ref = rail.submit(SETTLE, net, Some(net_memo(&CID, &ckpt)));
    rail.advance_clock(FINALITY_DELAY);
    let legs = [(0x01, meed.as_str()), (0x02, net_ref.as_str())];
    let before = d.balance(&CID);
    // The refusal can be repeated: the transfer stays unclaimed, and the round open.
    for _ in 0..2 {
        assert_eq!(d.prove(proposal_hash(&prop), &legs), Err(CarriageError::Rejected));
        assert_eq!(d.balance(&CID), before);
        assert!(d.c.find_open_round(&CID, &None).is_some());
    }
}

#[test]
fn a_first_close_records_the_draw_that_it_pins() {
    let disk = Disk::default();
    let (mut d, _, ckpt) = drive_prepay_durable(&disk, 1_000_000, 100_000);
    assert_eq!(d.close(CID, ckpt, false), Ok(Response::Accepted));
    let pinned = ChainState::Reconciled {
        pending_draw: Some((ckpt, 1_000)),
    };
    assert_eq!(wal(&disk).get(&disp_key(&CID)), Some(encode_disp(&pinned)));
}

#[test]
fn prepay_close_conservation_sweep() {
    for &(deposit, consumed) in &[
        (1_000_000u128, 100_000u128),
        (500_000, 250_000),
        (1_000_000, 99_999),
        (1_000_000, 1),
        (600_000, 400_000),
    ] {
        let carve = consumed / 100;
        // Each recipient gets whole units; what is left stays with the instance.
        let er = carve * 50 / 100 + carve * 10 / 100 + carve * 30 / 100 + carve * 10 / 100;
        let rail = drive_prepay_plain_close(deposit, consumed, true);
        let refund = rail.balance(REFUND);
        let settle = rail.balance(SETTLE);
        assert_eq!(refund, deposit - consumed, "refund (d={deposit}, c={consumed})");
        assert_eq!(settle, consumed - carve, "net (d={deposit}, c={consumed})");
        assert_eq!(refund + carve + settle, deposit, "conservation (d={deposit}, c={consumed})");
        assert_eq!(rail.recipients(), er);
        if carve > 0 {
            assert!(rail.recipients() > 0);
        }
    }
}

#[test]
fn prepay_close_draw_is_retryable_after_transient_failure() {
    let deposit = 1_000_000u128;
    let consumed = 100_000u128;
    let carve = consumed / 100;
    let (mut d, rail, ckpt) = drive_prepay_to_operative(deposit, consumed, false);
    d.close(CID, ckpt, false).unwrap();
    assert_eq!(rail.balance(REFUND), deposit - consumed);
    assert_eq!(rail.recipients(), 0);
    assert_eq!(rail.balance(SETTLE), consumed);
    assert_eq!(
        d.c.disposition(&CID),
        Some(ChainState::Reconciled {
            pending_draw: Some((ckpt, carve))
        })
    );
    rail.deploy();
    d.close(CID, ckpt, false).unwrap();
    assert_eq!(rail.balance(REFUND), deposit - consumed);
    assert_eq!(rail.recipients(), carve);
    assert_eq!(rail.balance(SETTLE), consumed - carve);
    assert_eq!(
        d.c.disposition(&CID),
        Some(ChainState::Reconciled { pending_draw: None })
    );
}

#[test]
fn prepay_close_draw_is_pinned_against_a_later_operative_advance() {
    let (mut d, rail, ckpt_1) = drive_prepay_to_operative(1_000_000, 100_000, false);
    d.meter(CID, &[(2, 50_000)]);
    d.close(CID, ckpt_1, false).unwrap();
    assert_eq!(rail.recipients(), 0);
    // A checkpoint that completes while the channel settles.
    d.checkpoint(CID);
    rail.deploy();
    d.close(CID, ckpt_1, false).unwrap();
    assert_eq!(rail.recipients(), 1_000);
    assert_eq!(rail.balance(REFUND), 900_000);
    assert_eq!(rail.balance(SETTLE), 100_000 - 1_000);
}

#[test]
fn prepay_settlement_propose_is_barred() {
    let (mut d, _, ckpt) = drive_prepay_to_operative(1_000_000, 100_000, false);
    assert_eq!(d.propose(&propose_round(ckpt, None, None)), Err(CarriageError::Rejected));
}

#[test]
fn o27c_imported_balance_preserves_small_diff_between_huge_operands() {
    let m = 1u128 << 127;
    let b = imported_balance_f6e(Mode::Postpay, m + 100, &Vec::new(), 0, m, i128::MIN, i128::MAX);
    assert_eq!(b, 100);
}

#[test]
fn an_imported_balance_is_clamped_to_its_bounds() {
    let settled = numbers(&[(0x10, 50_000), (0x12, 50_001)]);
    let balance = |mode, cum, funding, lower, upper| {
        imported_balance_f6e(mode, cum, &settled, 3, funding, lower, upper)
    };
    // The settled carve is ten units; the net legs are three.
    assert_eq!(balance(Mode::Postpay, 100, 20, i128::MIN, i128::MAX), 67);
    assert_eq!(balance(Mode::Postpay, 100, 20, 0, 50), 50);
    assert_eq!(balance(Mode::Prepay, 100, 250, i128::MIN, i128::MAX), -150);
    assert_eq!(balance(Mode::Prepay, 100, 250, -90, 0), -90);
}

#[test]
fn reconciliation_dust_is_zero_for_a_first_generation_channel() {
    let (d, _) = opened_and_checkpointed();
    assert_eq!(d.c.reconciliation_dust(&CID), 0);
}

#[test]
fn reconciliation_dust_formula_is_bounded_by_one_per_hop() {
    let carve = |x: u128| BigNat::from_u128(x).over(10_000).to_u128().unwrap();
    for &(whole, imported) in &[
        (2_500_000u128, 0u128),
        (1_511_000, 755_000),
        (2_500_000, 1_500_000),
        (1_000_005, 500_004),
        (9_999, 5_000),
        (u32::MAX as u128, u32::MAX as u128 / 3),
    ] {
        let dust = carve(whole)
            .saturating_sub(carve(imported))
            .saturating_sub(carve(whole - imported));
        assert!(dust <= 1, "dust {dust} for whole={whole} imported={imported}");
    }
}

#[test]
fn a_chain_that_settled_before_it_moved_leaves_at_most_one_unit() {
    // 15_100 and then 30_200 units, of which 7_550 and 15_110 are the carve's
    // hundredths: the predecessor settles 151 units, the successor 150.
    let rail = Rail::new();
    rail.deploy();
    let (mut d, _) = opened_with_rail(&rail);
    d.meter(CID, &[(1, 15_150)]);
    let ckpt = d.checkpoint(CID);
    let (p, e_r, net) = (151, vec![(0x10, 752_500), (0x11, 151_500), (0x12, 454_500), (0x13, 151_500)], 14_999);
    let prop = proposal(ckpt, p, &e_r, net);
    assert_eq!(d.propose(&prop), Ok(Response::Accepted));
    let meed = rail.advance_channel_meed(None, CID, p).unwrap();
    let paid = rail.submit(SETTLE, net, Some(net_memo(&CID, &ckpt)));
    rail.advance_clock(FINALITY_DELAY);
    confirmed(d.prove(proposal_hash(&prop), &[(0x01, &meed), (0x02, &paid)]));
    d.close(CID, ckpt, true).unwrap();
    let succ_id = id(11);
    d.open(&chained(payer_open(), succ_id, (CID, ckpt))).unwrap();
    d.meter(succ_id, &[(1, 14_960)]);
    d.checkpoint(succ_id);
    assert!(d.c.reconciliation_dust(&succ_id) <= 1);
}

// --- the merchant's own draws ---

#[test]
fn interim_draw_settles_carve_keeps_channel_live_and_folds() {
    let carve = 100_000 / 100;
    let (mut d, rail, ckpt) = drive_prepay_to_operative(1_000_000, 100_000, true);
    assert!(d.interim_draw(&CID).is_none());
    assert_eq!(rail.recipients(), carve);
    rail.advance_clock(FINALITY_DELAY);
    let receipt = d.interim_draw(&CID).expect("receipt on finality");
    assert_eq!(receipt.channel_id, CID);
    assert_eq!(receipt.ckpt_ref, ckpt);
    assert_eq!(receipt.amount, carve);
    assert_eq!(receipt.seed_instance, SEED);
    assert_eq!(receipt.rail, "solana:dev");
    assert_eq!(receipt.finality, "final");
    assert!(matches!(
        d.status(&CID),
        Status::Open | Status::PausedWindow | Status::PausedEvidence
    ));
    let again = d.interim_draw(&CID).expect("the receipt again, no second draw");
    assert_eq!(again.ckpt_ref, ckpt);
    assert_eq!(again.amount, carve);
    assert_eq!(again.rail, "solana:dev");
    assert_eq!(rail.recipients(), carve);
}

#[test]
fn interim_draw_is_locked_before_the_rail_and_retryable() {
    let deposit = 1_000_000;
    let carve = 1_000;
    let (mut d, rail, ckpt) = drive_prepay_to_operative(deposit, 100_000, false);
    assert!(d.interim_draw(&CID).is_none());
    assert_eq!(rail.recipients(), 0);
    // More accrues before the retry.
    d.meter(CID, &[(2, 100_000)]);
    d.checkpoint(CID);
    rail.deploy();
    assert!(d.interim_draw(&CID).is_none());
    rail.advance_clock(FINALITY_DELAY);
    let receipt = d.interim_draw(&CID).expect("the locked round completes");
    assert_eq!(receipt.ckpt_ref, ckpt);
    assert_eq!(receipt.amount, carve);
    assert_eq!(rail.recipients(), carve);
    assert_eq!(rail.balance(SETTLE), deposit - carve);
}

#[test]
fn interim_draws_across_checkpoints_conserve() {
    let deposit = 1_000_000u128;
    let c1 = 100_000u128;
    let c2 = 150_000u128;
    let (mut d, rail, _) = drive_prepay_to_operative(deposit, c1, true);
    let r1 = complete_interim_draw(&mut d, &rail);
    assert_eq!(r1.amount, c1 / 100);
    assert_eq!(rail.recipients(), c1 / 100);
    d.meter(CID, &[(2, c2)]);
    let ckpt2 = d.checkpoint(CID);
    let r2 = complete_interim_draw(&mut d, &rail);
    assert_eq!(r2.ckpt_ref, ckpt2);
    assert_eq!(r2.amount, (c1 + c2) / 100);
    assert_eq!(rail.recipients(), (c1 + c2) / 100);
    assert_eq!(rail.balance(SETTLE), deposit - (c1 + c2) / 100);
}

#[test]
fn interim_draw_conservation_sweep() {
    for &(deposit, consumed) in &[
        (1_000_000u128, 100_000u128),
        (500_000, 250_000),
        (1_000_000, 99_999),
        (600_000, 400_000),
    ] {
        let carve = consumed / 100;
        let er = carve * 50 / 100 + carve * 10 / 100 + carve * 30 / 100 + carve * 10 / 100;
        let (mut d, rail, _) = drive_prepay_to_operative(deposit, consumed, true);
        let _ = complete_interim_draw(&mut d, &rail);
        assert_eq!(rail.balance(SETTLE), deposit - carve, "(d={deposit}, c={consumed})");
        assert_eq!(rail.recipients(), er, "(d={deposit}, c={consumed})");
    }
}

#[test]
fn interim_draw_in_flight_then_close_no_double_draw() {
    let deposit = 1_000_000u128;
    let consumed = 100_000u128;
    let carve = consumed / 100;
    let (mut d, rail, ckpt) = drive_prepay_to_operative(deposit, consumed, false);
    assert!(d.interim_draw(&CID).is_none());
    assert_eq!(rail.recipients(), 0);
    rail.deploy();
    d.close(CID, ckpt, false).unwrap();
    assert_eq!(rail.recipients(), carve);
    assert_eq!(rail.balance(REFUND), deposit - consumed);
    assert_eq!(rail.balance(SETTLE), consumed - carve);
    assert_eq!(rail.balance(REFUND) + rail.recipients() + rail.balance(SETTLE), deposit);
}

#[test]
fn completed_interim_then_close_draws_only_residual() {
    let deposit = 1_000_000u128;
    let consumed = 100_000u128;
    let carve = consumed / 100;
    let (mut d, rail, ckpt) = drive_prepay_to_operative(deposit, consumed, true);
    let _ = complete_interim_draw(&mut d, &rail);
    assert_eq!(rail.recipients(), carve);
    d.close(CID, ckpt, false).unwrap();
    assert_eq!(rail.recipients(), carve);
    assert_eq!(rail.balance(REFUND), deposit - consumed);
    assert_eq!(rail.balance(REFUND) + rail.recipients() + rail.balance(SETTLE), deposit);
}

#[test]
fn interim_draw_barred_after_close_and_when_in_flight_bars_chain_close() {
    let (mut d, rail, ckpt) = drive_prepay_to_operative(1_000_000, 100_000, false);
    assert!(d.interim_draw(&CID).is_none());
    assert!(d.close(CID, ckpt, true).is_err());
    rail.deploy();
    d.close(CID, ckpt, false).unwrap();
    assert!(d.interim_draw(&CID).is_none());
}

#[test]
fn interim_submitted_then_checkpoint_then_close_draws_carve_once() {
    let deposit = 1_000_000u128;
    let c1 = 100_000u128;
    let c2 = 150_000u128;
    let (mut d, rail, _) = drive_prepay_to_operative(deposit, c1, true);
    assert!(d.interim_draw(&CID).is_none());
    assert_eq!(rail.recipients(), c1 / 100);
    d.meter(CID, &[(2, c2)]);
    let ckpt2 = d.checkpoint(CID);
    d.close(CID, ckpt2, false).unwrap();
    let total_carve = (c1 + c2) / 100;
    assert_eq!(rail.recipients(), total_carve);
    assert_eq!(rail.balance(SETTLE), (c1 + c2) - total_carve);
    assert_eq!(rail.balance(REFUND), deposit - (c1 + c2));
    assert_eq!(rail.balance(SETTLE) + rail.recipients() + rail.balance(REFUND), deposit);
}

#[test]
fn completed_interim_draw_receipt_is_reemitted_idempotently() {
    let deposit = 1_000_000u128;
    let consumed = 100_000u128;
    let carve = consumed / 100;
    let (mut d, rail, ckpt) = drive_prepay_to_operative(deposit, consumed, true);
    let first = complete_interim_draw(&mut d, &rail);
    let again = d.interim_draw(&CID).expect("the receipt again");
    assert_eq!(again.ckpt_ref, ckpt);
    assert_eq!(again.ckpt_ref, first.ckpt_ref);
    assert_eq!(again.amount, first.amount);
    assert_eq!(again.seed_instance, first.seed_instance);
    assert_eq!(again.tx_ref, first.tx_ref);
    assert_eq!(plain(&again.extinguished), plain(&first.extinguished));
    assert_eq!(rail.recipients(), carve);
    assert_eq!(rail.balance(SETTLE), deposit - carve);
}

#[test]
fn a_complete_draw_is_given_again_and_changes_nothing() {
    let (mut d, rail, ckpt) = drive_prepay_to_operative(1_000_000, 100_000, true);
    let first = complete_interim_draw(&mut d, &rail);
    let owed = plain(&d.c.round_outstanding(&CID).unwrap());
    let shares = d.c.round_outstanding(&CID).map(|o| divide(&o));
    for _ in 0..2 {
        let round = match d.c.run_prepay_interim_draw(&CID, &shares, &[1; 32]) {
            InterimStep::Reissue { round, tx_ref } => {
                assert_eq!(tx_ref, first.tx_ref);
                round
            }
            other => panic!("expected the receipt again, got {other:?}"),
        };
        assert_eq!(round, CheckpointKey { channel: CID, ckpt_ref: ckpt });
        assert!(!d.c.has_open_round(&CID, &None));
        let again = d.c.reissue_receipt(&round, &None).unwrap();
        assert_eq!(again.amount, first.amount);
        assert_eq!(again.rail, first.rail);
        assert_eq!(again.tx_ref, first.tx_ref);
        assert_eq!(plain(&again.extinguished), plain(&first.extinguished));
        assert_eq!(again.finality, "");
        assert_eq!(plain(&d.c.round_outstanding(&CID).unwrap()), owed);
    }
}

#[test]
fn a_draw_without_a_reference_still_enters_the_ledger_once() {
    let (mut d, rail, ckpt) = drive_prepay_to_operative(1_000_000, 100_000, true);
    let shares = d.c.round_outstanding(&CID).map(|o| divide(&o));
    let round = match d.c.run_prepay_interim_draw(&CID, &shares, &[1; 32]) {
        InterimStep::Draw { round, order } => {
            assert_eq!(order.target_p, 1_000);
            round
        }
        other => panic!("expected a draw, got {other:?}"),
    };
    assert_eq!(round.ckpt_ref, ckpt);
    rail.advance_channel_meed(Some(SETTLE), CID, 1_000).unwrap();
    assert!(d.c.interim_drawn(&round, &DrawOutcome::NoReference).is_none());
    assert!(!d.c.has_open_round(&CID, &None));
    // Nothing is owed any more.
    let owed = plain(&d.c.round_outstanding(&CID).unwrap());
    assert!(owed.iter().all(|(_, n)| *n == 0));
}

// --- settlement rounds ---

#[test]
fn settlement_propose_verifies_economics_against_checkpoint() {
    let (mut d, ckpt) = opened_and_checkpointed();
    assert_eq!(d.propose(&propose_round(ckpt, None, None)), Ok(Response::Accepted));
    assert_eq!(d.propose(&propose_round(ckpt, None, None)), Ok(Response::Accepted));
}

#[test]
fn settlement_understated_round_rejected() {
    let (mut d, ckpt) = opened_and_checkpointed();
    assert_eq!(d.propose(&propose_round(ckpt, Some(1), None)), Err(CarriageError::Rejected));
    let (mut d2, ckpt2) = opened_and_checkpointed();
    assert_eq!(d2.propose(&propose_round(ckpt2, None, Some(1))), Err(CarriageError::Rejected));
}

#[test]
fn settlement_propose_with_extra_sig_merchant_rejected() {
    let (mut d, ckpt) = opened_and_checkpointed();
    let mut both = propose_round(ckpt, None, None);
    both.merchant_signed = true;
    assert_eq!(d.propose(&both), Err(CarriageError::Rejected));
    assert!(d.propose(&propose_round(ckpt, None, None)).is_ok());
}

#[test]
fn settlement_propose_rejections() {
    let (mut d, ckpt) = opened_and_checkpointed();
    // Not the operative checkpoint.
    assert_eq!(
        d.propose(&propose_round([0xab; 32], None, None)),
        Err(CarriageError::Rejected)
    );
    // A destination that was not bound at establishment.
    let mut unbound = propose_round(ckpt, None, None);
    unbound.outputs[0].dest = "solana:dev:attacker".to_string();
    assert_eq!(d.propose(&unbound), Err(CarriageError::Rejected));
    // Another asset.
    let mut wrong_asset = propose_round(ckpt, None, None);
    wrong_asset.outputs[0].asset = "solana:dev/attacoin".to_string();
    assert_eq!(d.propose(&wrong_asset), Err(CarriageError::Rejected));
    // A conversion where none is needed.
    let mut with_conv = propose_round(ckpt, None, None);
    with_conv.conversion = Some(Conversion {
        rate: "1".to_string(),
        rate_time: NOW,
        rate_exp: NOW + 3600,
        rate_grace: 60,
    });
    assert_eq!(d.propose(&with_conv), Err(CarriageError::Malformed));
    // A proof of a round that was never accepted.
    assert_eq!(d.prove([0x99; 32], &[(0x01, "x")]), Err(CarriageError::Rejected));
}

#[test]
fn a_round_keeps_the_terms_it_was_accepted_with() {
    let (mut d, ckpt) = opened_and_checkpointed();
    assert_eq!(d.propose(&propose_round(ckpt, None, None)), Ok(Response::Accepted));
    assert_eq!(d.propose(&propose_round(ckpt, Some(14_849), None)), Err(CarriageError::Rejected));
    assert_eq!(
        d.c.find_open_round(&CID, &None),
        Some(CheckpointKey {
            channel: CID,
            ckpt_ref: ckpt
        })
    );
    assert_eq!(d.c.find_open_round(&CID, &Some(ckpt)), None);
}

#[test]
fn a_proof_without_a_rail_is_kept() {
    let (mut d, ckpt) = opened_and_checkpointed();
    let prop = propose_round(ckpt, None, None);
    d.propose(&prop).unwrap();
    assert_eq!(
        d.prove(proposal_hash(&prop), &[(0x01, "x"), (0x02, "y")]),
        Ok(Response::Accepted)
    );
    assert_eq!(d.balance(&CID), 15_000, "nothing was settled");
}

#[test]
fn rail_settlement_full_correlation_confirms() {
    let rail = Rail::new();
    rail.deploy();
    let (mut d, ckpt) = opened_and_checkpointed_on(&rail);
    let (p, _, net) = correct_round();
    assert_eq!((p, net), (150, 14_850));
    let prop = propose_round(ckpt, None, None);
    assert_eq!(d.propose(&prop), Ok(Response::Accepted));
    let meed = rail.advance_channel_meed(None, CID, p).unwrap();
    assert_eq!(rail.recipients(), p);
    let net_ref = rail.submit(SETTLE, net, Some(net_memo(&CID, &ckpt)));
    rail.advance_clock(FINALITY_DELAY);
    let legs = [(0x01, meed.as_str()), (0x02, net_ref.as_str())];
    confirmed(d.prove(proposal_hash(&prop), &legs));
    // The round took the gross amount from the balance.
    assert_eq!(d.balance(&CID), 0);
    // The same proof again: the same receipt, and nothing settled twice.
    confirmed(d.prove(proposal_hash(&prop), &legs));
    assert_eq!(d.balance(&CID), 0);

    // The meed leg alone is credited on its own, and confirms nothing.
    let rail2 = Rail::new();
    rail2.deploy();
    let (mut d2, ckpt2) = opened_and_checkpointed_on(&rail2);
    let prop2 = propose_round(ckpt2, None, None);
    d2.propose(&prop2).unwrap();
    let meed2 = rail2.advance_channel_meed(None, CID, p).unwrap();
    rail2.advance_clock(FINALITY_DELAY);
    assert_eq!(
        d2.prove(proposal_hash(&prop2), &[(0x01, &meed2)]),
        Ok(Response::Accepted)
    );
}

#[test]
fn net_leg_hijack_foreign_round_memo_rejected_then_bound_confirms() {
    let rail = Rail::new();
    rail.deploy();
    let (mut d, ckpt) = opened_and_checkpointed_on(&rail);
    let (p, _, net) = correct_round();
    let prop = propose_round(ckpt, None, None);
    d.propose(&prop).unwrap();
    let meed = rail.advance_channel_meed(None, CID, p).unwrap();
    let foreign = rail.submit(SETTLE, net, Some(net_memo(&[0x99; 8], &ckpt)));
    rail.advance_clock(FINALITY_DELAY);
    assert_eq!(
        d.prove(proposal_hash(&prop), &[(0x01, &meed), (0x02, &foreign)]),
        Err(CarriageError::Rejected)
    );
    let bound = rail.submit(SETTLE, net, Some(net_memo(&CID, &ckpt)));
    rail.advance_clock(FINALITY_DELAY);
    confirmed(d.prove(proposal_hash(&prop), &[(0x01, &meed), (0x02, &bound)]));
}

#[test]
fn meed_leg_credited_independently_of_delayed_net() {
    let rail = Rail::new();
    rail.deploy();
    let (mut d, ckpt) = opened_and_checkpointed_on(&rail);
    let (p, _, net) = correct_round();
    let prop = propose_round(ckpt, None, None);
    d.propose(&prop).unwrap();
    let ph = proposal_hash(&prop);
    let meed = rail.advance_channel_meed(None, CID, p).unwrap();
    rail.advance_clock(FINALITY_DELAY);
    assert_eq!(d.prove(ph, &[(0x01, &meed)]), Ok(Response::Accepted));
    assert_eq!(rail.recipients(), p);
    let net_ref = rail.submit(SETTLE, net, Some(net_memo(&CID, &ckpt)));
    rail.advance_clock(FINALITY_DELAY);
    confirmed(d.prove(ph, &[(0x02, &net_ref)]));
    assert_eq!(rail.recipients(), p);
    assert_eq!(d.balance(&CID), 0);
}

#[test]
fn zero_owed_round_confirms_not_bricked() {
    let rail = Rail::new();
    let (mut d, _) = opened_with_rail(&rail);
    let ckpt = d.checkpoint(CID);
    let zero = SettlementPropose {
        channel_id: CID,
        ckpt_ref: ckpt,
        outputs: Vec::new(),
        instance_leg: None,
        conversion: None,
        merchant_signed: false,
    };
    assert_eq!(d.propose(&zero), Ok(Response::Accepted));
    confirmed(d.prove(proposal_hash(&zero), &[]));
}

#[test]
fn funding_race_strands_finalized_net_leg() {
    let rail = Rail::new();
    rail.deploy();
    let (mut d, ah, ckpt) = opened_ckpt_with_ah(&rail);
    let (p, _, net) = correct_round();
    let owed_before = d.balance(&CID);
    let prop = propose_round(ckpt, None, None);
    d.propose(&prop).unwrap();
    let meed = rail.advance_channel_meed(None, CID, p).unwrap();
    let net_ref = rail.submit(SETTLE, net, Some(net_memo(&CID, &ckpt)));
    rail.advance_clock(FINALITY_DELAY);
    let fund_ref = rail.submit(SETTLE, 1_000, Some(ah));
    rail.advance_clock(FINALITY_DELAY);
    assert_eq!(d.fund(CID, ah, &fund_ref, 1_000), Ok(Response::Accepted));
    let _ = d.prove(proposal_hash(&prop), &[(0x01, &meed), (0x02, &net_ref)]);
    assert!(d.balance(&CID) <= owed_before - (net as i128));
}

#[test]
fn serialized_second_round_rejected_while_first_in_flight() {
    let rail = Rail::new();
    let (mut d, _, ckpt_a) = opened_ckpt_with_ah(&rail);
    let prop_a = propose_round(ckpt_a, None, None);
    assert_eq!(d.propose(&prop_a), Ok(Response::Accepted));
    assert_eq!(d.propose(&prop_a), Ok(Response::Accepted));
    d.meter(CID, &[(3, 10_000), (4, 5_000)]);
    let ckpt_b = d.checkpoint(CID);
    let (p, e_r, net) = round_for(30_000);
    assert_eq!(
        d.propose(&proposal(ckpt_b, p, &e_r, net)),
        Err(CarriageError::Rejected)
    );
}

#[test]
fn meed_leg_confirms_on_plain_transfer_without_distribution() {
    let rail = Rail::new();
    rail.deploy();
    let (mut d, ckpt) = opened_and_checkpointed_on(&rail);
    let (p, _, net) = correct_round();
    let prop = propose_round(ckpt, None, None);
    d.propose(&prop).unwrap();
    // A plain transfer to the instance distributes nothing.
    let forged = rail.submit(&instance_addr(&SEED), p, Some([0x3c; 32]));
    let net_ref = rail.submit(SETTLE, net, Some(net_memo(&CID, &ckpt)));
    rail.advance_clock(FINALITY_DELAY);
    assert_eq!(
        d.prove(proposal_hash(&prop), &[(0x01, &forged), (0x02, &net_ref)]),
        Err(CarriageError::Rejected)
    );
    assert_eq!(rail.recipients(), 0);
    let meed = rail.advance_channel_meed(None, CID, p).unwrap();
    let net_ref2 = rail.submit(SETTLE, net, Some(net_memo(&CID, &ckpt)));
    rail.advance_clock(FINALITY_DELAY);
    confirmed(d.prove(proposal_hash(&prop), &[(0x01, &meed), (0x02, &net_ref2)]));
    assert_eq!(rail.recipients(), p);
}

#[test]
fn postpay_in_flight_round_survives_a_plain_close() {
    let rail = Rail::new();
    rail.deploy();
    let (mut d, ckpt) = opened_and_checkpointed_on(&rail);
    let (p, _, net) = correct_round();
    let prop = propose_round(ckpt, None, None);
    d.propose(&prop).unwrap();
    d.close(CID, ckpt, false).unwrap();
    let meed = rail.advance_channel_meed(None, CID, p).unwrap();
    let net_ref = rail.submit(SETTLE, net, Some(net_memo(&CID, &ckpt)));
    rail.advance_clock(FINALITY_DELAY);
    confirmed(d.prove(proposal_hash(&prop), &[(0x01, &meed), (0x02, &net_ref)]));
}

#[test]
fn postpay_settlement_across_checkpoints_advances_watermark_once() {
    let rail = Rail::new();
    rail.deploy();
    let (mut d, ckpt1) = opened_and_checkpointed_on(&rail);
    let (p1, _, net1) = correct_round();
    let prop1 = propose_round(ckpt1, None, None);
    assert_eq!(d.propose(&prop1), Ok(Response::Accepted));
    let meed1 = rail.advance_channel_meed(None, CID, p1).unwrap();
    let net1_ref = rail.submit(SETTLE, net1, Some(net_memo(&CID, &ckpt1)));
    rail.advance_clock(FINALITY_DELAY);
    confirmed(d.prove(proposal_hash(&prop1), &[(0x01, &meed1), (0x02, &net1_ref)]));
    assert_eq!(rail.recipients(), p1);

    d.meter(CID, &[(3, 10_000)]);
    let ckpt2 = d.checkpoint(CID);
    // The leg names the whole channel's target; the rest is this round's own.
    let target_p2 = 250;
    let (_, e_r2, net2) = round_for(10_000);
    let prop2 = proposal(ckpt2, target_p2, &e_r2, net2);
    assert_eq!(d.propose(&prop2), Ok(Response::Accepted));
    let meed2 = rail.advance_channel_meed(None, CID, target_p2).unwrap();
    let net2_ref = rail.submit(SETTLE, net2, Some(net_memo(&CID, &ckpt2)));
    rail.advance_clock(FINALITY_DELAY);
    confirmed(d.prove(proposal_hash(&prop2), &[(0x01, &meed2), (0x02, &net2_ref)]));
    assert_eq!(rail.recipients(), target_p2);
    let tx = rail.tx(&meed2).unwrap();
    assert_eq!(tx.advanced.unwrap().funded_p, target_p2);
    assert_eq!(tx.delta, target_p2 - p1);
}

#[test]
fn a_net_leg_that_is_final_before_the_meed_leg_is_refused() {
    let rail = Rail::new();
    rail.deploy();
    let (mut d, ckpt) = opened_and_checkpointed_on(&rail);
    let (p, _, net) = correct_round();
    let prop = propose_round(ckpt, None, None);
    d.propose(&prop).unwrap();
    let net_ref = rail.submit(SETTLE, net, Some(net_memo(&CID, &ckpt)));
    rail.advance_clock(1);
    let meed = rail.advance_channel_meed(None, CID, p).unwrap();
    rail.advance_clock(FINALITY_DELAY);
    assert_eq!(
        d.prove(proposal_hash(&prop), &[(0x01, &meed), (0x02, &net_ref)]),
        Err(CarriageError::Rejected)
    );
}

// --- restarts and replicas ---

#[test]
fn durable_one_decision_store_replays_the_guards_across_a_restart() {
    let disk = Disk::default();
    let reconciled = ChainState::Reconciled {
        pending_draw: Some(([9u8; 32], 150)),
    };
    let mut store = wal(&disk);
    assert_eq!(store.decide(&fund_key("canon-1"), b""), Decision::Fresh);
    assert_eq!(store.decide(&disp_key(&CID), &encode_disp(&reconciled)), Decision::Fresh);
    drop(store);

    let c = Carriage::demo(driver()).with_decisions(wal(&disk));
    assert!(c.ref_consumed(&"canon-1".to_string()));
    assert!(!c.ref_consumed(&"canon-2".to_string()));
    assert_eq!(c.disposition(&CID), Some(reconciled));
}

#[test]
fn prepay_close_records_the_disposition_durably_and_the_refund_is_idempotent() {
    let disk = Disk::default();
    let deposit = 1_000_000u128;
    let consumed = 100_000u128;
    let (mut d, rail, ckpt) = drive_prepay_durable(&disk, deposit, consumed);
    d.close(CID, ckpt, false).unwrap();
    assert_eq!(rail.balance(REFUND), deposit - consumed);
    let c2 = Carriage::demo(driver()).with_decisions(wal(&disk));
    assert!(matches!(c2.disposition(&CID), Some(ChainState::Reconciled { .. })));
    let before = rail.balance(REFUND);
    rail.release_keyed(CID, ckpt, SETTLE, REFUND, deposit - consumed).unwrap();
    assert_eq!(rail.balance(REFUND), before);
}

#[test]
fn shared_store_gates_the_one_decision_across_replicas() {
    let shared = Shared(Rc::new(RefCell::new(InMemoryOneDecision::new())));
    let mut a = Carriage::demo(driver()).with_decisions(shared.clone());
    let mut b = Carriage::demo(driver()).with_decisions(shared.clone());
    assert_eq!(a.consume_ref(&"canon-R".to_string()), ConsumeOutcome::First);
    assert_eq!(b.consume_ref(&"canon-R".to_string()), ConsumeOutcome::Duplicate);
    let reconciled = ChainState::Reconciled { pending_draw: None };
    let _ = a.record_disposition(&CID, &reconciled);
    assert_eq!(
        shared.get(&disp_key(&CID)).and_then(|v| decode_disp(&v)),
        Some(reconciled)
    );
}

#[test]
fn close_refund_reserves_before_submit_and_is_crash_idempotent() {
    let disk = Disk::default();
    let deposit = 1_000_000u128;
    let consumed = 100_000u128;
    let (mut d, rail, ckpt) = drive_prepay_durable(&disk, deposit, consumed);
    d.close(CID, ckpt, false).unwrap();
    assert_eq!(rail.balance(REFUND), deposit - consumed);
    let store = wal(&disk);
    assert!(store.get(&refund_reserve_key(&CID, &ckpt)).is_some());
    let persisted = store.get(&refund_ref_key(&CID, &ckpt)).expect("the release's reference");
    let before = rail.balance(REFUND);
    let again = rail.release_keyed(CID, ckpt, SETTLE, REFUND, deposit - consumed).unwrap();
    assert_eq!(again.as_bytes(), persisted.as_slice());
    assert_eq!(rail.balance(REFUND), before);
}

fn proof_carriage(disk: &Disk) -> Desk<WalOneDecision<Disk>> {
    let rail = Rail::new();
    let c = match Carriage::durable(driver(), Rail::levels(), wal(disk)) {
        Ok(c) => c,
        Err(e) => panic!("the carriage builds: {e:?}"),
    };
    Desk {
        c,
        rail: Some(rail),
        engines: HashMap::new(),
    }
}

#[test]
fn proof_carriage_tombstones_a_channel_open_across_restart() {
    let disk = Disk::default();
    let mut d = proof_carriage(&disk);
    assert!(matches!(d.open(&payer_open()), Ok(Response::Message(_))));
    drop(d);

    let mut d2 = proof_carriage(&disk);
    assert_eq!(d2.open(&payer_open()), Err(CarriageError::Rejected));
    assert_eq!(d2.fund(CID, [0; 32], "whatever", 1), Err(CarriageError::Rejected));
}

#[test]
fn proof_carriage_replays_the_funding_and_disposition_guards_across_restart() {
    let disk = Disk::default();
    let reconciled = ChainState::Reconciled { pending_draw: None };
    let mut store = wal(&disk);
    assert_eq!(store.decide(&fund_key("canon-Z"), b""), Decision::Fresh);
    assert_eq!(store.decide(&disp_key(&CID), &encode_disp(&reconciled)), Decision::Fresh);
    drop(store);
    let d = proof_carriage(&disk);
    assert!(d.c.ref_consumed(&"canon-Z".to_string()));
    assert_eq!(d.c.disposition(&CID), Some(reconciled));
}

fn fails_closed(key: Vec<u8>, value: &[u8]) {
    let disk = Disk::default();
    assert_eq!(wal(&disk).decide(&key, value), Decision::Fresh);
    assert!(matches!(
        Carriage::durable(driver(), Rail::levels(), wal(&disk)),
        Err(ConfigError::DecisionLog)
    ));
}

#[test]
fn proof_construction_fails_closed_on_a_corrupt_durable_log() {
    fails_closed(disp_key(&CID), &[0xFF]);
}

#[test]
fn proof_construction_fails_closed_on_a_padded_disposition() {
    fails_closed(disp_key(&CID), &[0x02, 0xFF]);
}

#[test]
fn proof_construction_fails_closed_on_a_nonempty_fund_value() {
    fails_closed(fund_key("canon-x"), b"garbage");
}

#[test]
fn construction_fails_closed_on_a_corrupt_acceptance() {
    let disk = Disk::default();
    let mut key = paytp_merchant::keys::chopen_prefix();
    key.push(1);
    assert_eq!(wal(&disk).decide(&key, b""), Decision::Fresh);
    assert!(matches!(
        Carriage::durable(driver(), Rail::levels(), wal(&disk)),
        Err(ConfigError::Retention(_))
    ));
}

#[test]
fn a_corrupt_acceptance_is_told_before_a_corrupt_guard() {
    let disk = Disk::default();
    let mut key = paytp_merchant::keys::chopen_prefix();
    key.push(1);
    let mut store = wal(&disk);
    assert_eq!(store.decide(&fund_key("canon-x"), b"garbage"), Decision::Fresh);
    assert_eq!(store.decide(&key, b""), Decision::Fresh);
    assert!(matches!(
        Carriage::durable(driver(), Rail::levels(), wal(&disk)),
        Err(ConfigError::Retention(ChannelError::StoreUnavailable))
    ));
}

#[test]
fn a_close_after_a_recorded_import_refunds_nothing() {
    let (mut d, rail, ckpt) = drive_prepay_to_operative(1_000_000, 100_000, true);
    let close = Close {
        channel_id: CID,
        ckpt_ref: ckpt,
        accepted: Some(false),
    };
    // Another replica recorded that a successor took the position over.
    let stored = Some(ChainState::Committed { successor: id(11) });
    assert!(matches!(d.c.begin_close(&close, &stored), CloseStep::Replay));
    assert_eq!(rail.balance(REFUND), 0);
    // Nothing recorded: the unconsumed deposit is due.
    match d.c.begin_close(&close, &None) {
        CloseStep::First(Some(order)) => assert_eq!(order.amount, 900_000),
        other => panic!("expected a refund, got {other:?}"),
    }
}
