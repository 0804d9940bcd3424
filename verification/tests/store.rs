use paytp_merchant::medium::MemoryLog;
use paytp_merchant::store::{
    decode_record, encode_record, has_reserved_ref_delimiter, InMemoryStore, MerchantStore, NonceLog,
    NonceRecord, OpenError, PaidLeg, Peek, Receipt, StoreError, WalMerchantStore,
};

fn record(reference: &str) -> NonceRecord {
    NonceRecord {
        payment_ref: reference.to_string(),
        idem: vec![1, 2, 3],
        resource: "https://example/res".to_string(),
        quote_sig: [9u8; 64],
    }
}

/// A receipt whose JSON names its nonce and reference.
fn receipt(nonce: [u8; 32], reference: &str) -> Receipt {
    Receipt {
        nonce,
        idem: vec![1, 2, 3],
        resource: "https://example/res".to_string(),
        paid: vec![PaidLeg {
            leg: "split".to_string(),
            network: "solana:dev".to_string(),
            reference: reference.to_string(),
        }],
        entry: None,
        ts: 100,
        json: json_of(nonce, reference),
    }
}

fn json_of(nonce: [u8; 32], reference: &str) -> Vec<u8> {
    let mut json = vec![b'R'];
    json.extend_from_slice(&nonce);
    json.extend_from_slice(reference.as_bytes());
    json
}

/// Reads a receipt back from its JSON, as a signature check would.
fn verified(json: Vec<u8>) -> Option<Receipt> {
    if json.len() < 33 || json[0] != b'R' {
        return None;
    }
    let mut nonce = [0u8; 32];
    nonce.copy_from_slice(&json[1..33]);
    let reference = String::from_utf8(json[33..].to_vec()).ok()?;
    Some(receipt(nonce, &reference))
}

fn try_open(bytes: Vec<u8>, read_only: bool) -> Result<WalMerchantStore<MemoryLog>, OpenError> {
    let log = NonceLog::read(MemoryLog::new(bytes, read_only))?;
    let receipts = (0..log.len()).map(|i| verified(log.receipt_json(i))).collect();
    WalMerchantStore::open(log, receipts)
}

fn open(bytes: Vec<u8>) -> WalMerchantStore<MemoryLog> {
    match try_open(bytes, false) {
        Ok(s) => s,
        Err(e) => panic!("open: {e:?}"),
    }
}

fn bytes_of(s: WalMerchantStore<MemoryLog>) -> Vec<u8> {
    s.into_medium().into_bytes()
}

fn frame(out: &mut Vec<u8>, data: &[u8]) {
    paytp_merchant::framing::frame(out, data);
}

#[test]
fn wal_replays_consumed_nonces_across_restart() {
    let nonce = [0x11u8; 32];
    let rec = record("txA");
    let mut store = open(Vec::new());
    let r = store.consume_nonce(nonce, &rec, || receipt(nonce, "txA")).unwrap();
    assert_eq!(r.paid[0].reference, "txA");

    let mut store2 = open(bytes_of(store));
    match store2.peek(nonce, &rec) {
        Peek::Stored(r) => assert_eq!(r.paid[0].reference, "txA"),
        other => panic!("expected Stored, got {other:?}"),
    }
    let r = store2
        .consume_nonce(nonce, &rec, || -> Receipt { panic!("must not rebuild") })
        .unwrap();
    assert_eq!(r.paid[0].reference, "txA");
    // Another nonce that reuses the payment is a replay.
    assert_eq!(
        store2
            .consume_nonce([0x22u8; 32], &record("txA"), || receipt([0x22u8; 32], "txA"))
            .err(),
        Some(StoreError::Replayed)
    );
}

#[test]
fn delimiter_ambiguous_combined_ref_does_not_bypass_net_ref_dedup() {
    let mut store = InMemoryStore::new();
    store
        .consume_nonce([0x21u8; 32], &record("meed|evil|net"), || {
            receipt([0x21u8; 32], "meed|evil|net")
        })
        .unwrap();
    assert_eq!(
        store
            .consume_nonce([0x22u8; 32], &record("other-meed|net"), || {
                receipt([0x22u8; 32], "other-meed|net")
            })
            .err(),
        Some(StoreError::Replayed)
    );
}

#[test]
fn used_refs_survive_a_torn_tail_no_ref_without_nonce() {
    let nonce = [0x33u8; 32];
    let mut store = open(Vec::new());
    store.consume_nonce(nonce, &record("txB"), || receipt(nonce, "txB")).unwrap();
    let mut bytes = bytes_of(store);
    bytes.extend_from_slice(&(999u32).to_be_bytes());
    bytes.extend_from_slice(b"tp");
    let mut store2 = open(bytes);
    assert!(matches!(store2.peek(nonce, &record("txB")), Peek::Stored(_)));
    assert_eq!(
        store2
            .consume_nonce([0x44u8; 32], &record("txB"), || receipt([0x44u8; 32], "txB"))
            .err(),
        Some(StoreError::Replayed)
    );
}

#[test]
fn a_complete_but_corrupt_record_fails_the_open_closed() {
    let mut buf = Vec::new();
    frame(&mut buf, &[0x55u8; 32]);
    frame(&mut buf, &encode_record(&record("txC")).unwrap());
    frame(&mut buf, b"{not a receipt}");
    assert!(matches!(try_open(buf, false), Err(OpenError::Corrupt)));
}

#[test]
fn a_receipt_not_matching_its_record_fails_the_open_closed() {
    let mut buf = Vec::new();
    frame(&mut buf, &[0x55u8; 32]);
    frame(&mut buf, &encode_record(&record("txC")).unwrap());
    frame(&mut buf, &json_of([0x66u8; 32], "txC"));
    assert!(matches!(try_open(buf, false), Err(OpenError::Corrupt)));
}

#[test]
fn a_failed_append_whose_recovery_fails_poisons_and_refuses() {
    let mut s = open(Vec::new());
    s.consume_nonce([0x66u8; 32], &record("seed"), || receipt([0x66u8; 32], "seed")).unwrap();
    let mut ro = match try_open(bytes_of(s), true) {
        Ok(s) => s,
        Err(e) => panic!("open: {e:?}"),
    };
    assert_eq!(
        ro.consume_nonce([0x77u8; 32], &record("fresh"), || receipt([0x77u8; 32], "fresh")).err(),
        Some(StoreError::Unavailable)
    );
    assert!(ro.is_poisoned());
    assert!(matches!(ro.peek([0x77u8; 32], &record("fresh")), Peek::Fresh));
}

#[test]
fn a_success_and_a_replay_leave_a_healthy_log() {
    let nonce = [0x21u8; 32];
    let mut s = open(Vec::new());
    let first = s.consume_nonce(nonce, &record("txA"), || receipt(nonce, "txA")).unwrap();
    assert!(!s.is_poisoned());
    // An exact retry gets the stored receipt, and builds none.
    let again = s.consume_nonce(nonce, &record("txA"), || panic!("built again")).unwrap();
    assert_eq!(again.json, first.json);
    let replayed = s.consume_nonce([0x22u8; 32], &record("txA"), || panic!("built")).err();
    assert_eq!(replayed, Some(StoreError::Replayed));
    assert!(!s.is_poisoned());
    let other = [0x23u8; 32];
    assert!(s.consume_nonce(other, &record("txB"), || receipt(other, "txB")).is_ok());
    let mut log = Vec::new();
    for (n, reference) in [(nonce, "txA"), (other, "txB")] {
        frame(&mut log, &n);
        frame(&mut log, &encode_record(&record(reference)).unwrap());
        frame(&mut log, &json_of(n, reference));
    }
    assert_eq!(bytes_of(s), log);
}

#[test]
fn a_record_round_trips_and_its_bytes_are_framed() {
    let rec = record("tx");
    let bytes = encode_record(&rec).unwrap();
    assert_eq!(bytes[..6], [0, 0, 0, 2, b't', b'x']);
    let back = decode_record(&bytes).unwrap();
    assert_eq!(back.payment_ref, "tx");
    assert_eq!(back.idem, vec![1, 2, 3]);
    assert_eq!(back.resource, "https://example/res");
    assert_eq!(back.quote_sig, [9u8; 64]);
    let mut padded = bytes.clone();
    padded.push(0);
    assert!(decode_record(&padded).is_none());
    // A reference that is not UTF-8.
    let mut broken = bytes;
    broken[4] = 0xff;
    assert!(decode_record(&broken).is_none());
}

#[test]
fn a_fresh_nonce_with_a_new_payment_is_consumed_once() {
    let mut store = InMemoryStore::new();
    assert!(matches!(store.peek([1; 32], &record("a|b")), Peek::Fresh));
    store.consume_nonce([1; 32], &record("a|b"), || receipt([1; 32], "a|b")).unwrap();
    assert!(matches!(store.peek([1; 32], &record("a|b")), Peek::Stored(_)));
    // The same nonce under another decision.
    assert!(matches!(store.peek([1; 32], &record("c")), Peek::Replayed));
    // The net leg alone is used up too, the meed leg is not.
    assert!(matches!(store.peek([2; 32], &record("b")), Peek::Replayed));
    assert!(matches!(store.peek([2; 32], &record("a")), Peek::Fresh));
    assert!(has_reserved_ref_delimiter("a|b"));
    assert!(!has_reserved_ref_delimiter("ab"));
}

#[test]
fn a_sound_log_opens_unless_a_torn_row_cannot_be_cut_off() {
    let mut s = open(Vec::new());
    s.consume_nonce([0x66u8; 32], &record("seed"), || receipt([0x66u8; 32], "seed")).unwrap();
    let whole = bytes_of(s);
    assert!(try_open(whole.clone(), true).is_ok());
    let mut torn = whole.clone();
    torn.push(9);
    assert_eq!(try_open(torn.clone(), true).err(), Some(OpenError::Io));
    assert_eq!(bytes_of(open(torn)), whole);
}
