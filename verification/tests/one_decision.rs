use paytp_merchant::medium::MemoryLog;
use paytp_merchant::one_decision::{
    Decision, InMemoryOneDecision, OneDecisionStore, WalOneDecision,
};

fn wal(bytes: Vec<u8>) -> WalOneDecision<MemoryLog> {
    WalOneDecision::open(MemoryLog::new(bytes, false)).unwrap()
}

fn read_only(bytes: Vec<u8>) -> WalOneDecision<MemoryLog> {
    WalOneDecision::open(MemoryLog::new(bytes, true)).unwrap()
}

fn bytes_of(s: WalOneDecision<MemoryLog>) -> Vec<u8> {
    s.into_medium().into_bytes()
}

fn first_wins<S: OneDecisionStore>(mut s: S) {
    assert_eq!(s.decide(b"k", b"v1"), Decision::Fresh);
    assert_eq!(s.decide(b"k", b"v2"), Decision::AlreadyDecided(b"v1".to_vec()));
    assert_eq!(s.get(b"k"), Some(b"v1".to_vec()));
    assert_eq!(s.get(b"absent"), None);
}

fn empty_value<S: OneDecisionStore>(mut s: S) {
    assert_eq!(s.get(b"fund:ref9"), None);
    assert_eq!(s.decide(b"fund:ref9", b""), Decision::Fresh);
    assert_eq!(s.decide(b"fund:ref9", b""), Decision::AlreadyDecided(Vec::new()));
    assert_eq!(s.get(b"fund:ref9"), Some(Vec::new()));
}

#[test]
fn fresh_then_already_decided_returns_the_first_value() {
    first_wins(InMemoryOneDecision::new());
    first_wins(wal(Vec::new()));
}

#[test]
fn empty_value_is_a_present_absent_guard() {
    empty_value(InMemoryOneDecision::new());
    empty_value(wal(Vec::new()));
}

#[test]
fn wal_replays_decisions_across_a_reopen_restart() {
    let mut s = wal(Vec::new());
    assert_eq!(s.decide(b"disp:chanA", b"committed"), Decision::Fresh);
    assert_eq!(s.decide(b"refund:chanB", b""), Decision::Fresh);
    assert_eq!(s.decide(b"fund:refX", b""), Decision::Fresh);

    let mut s2 = wal(bytes_of(s));
    assert_eq!(
        s2.decide(b"disp:chanA", b"reconciled"),
        Decision::AlreadyDecided(b"committed".to_vec()),
        "the close disposition survived the restart"
    );
    assert_eq!(
        s2.decide(b"refund:chanB", b""),
        Decision::AlreadyDecided(Vec::new()),
        "the refund decision survived"
    );
    assert_eq!(s2.get(b"fund:refX"), Some(Vec::new()));
    assert_eq!(s2.decide(b"fund:refY", b""), Decision::Fresh);

    let mut keys: Vec<_> = s2.entries().into_iter().map(|(k, _)| k).collect();
    keys.sort();
    assert_eq!(
        keys,
        vec![
            b"disp:chanA".to_vec(),
            b"fund:refX".to_vec(),
            b"fund:refY".to_vec(),
            b"refund:chanB".to_vec()
        ]
    );
}

#[test]
fn wal_truncates_a_torn_trailing_record_and_replays_the_rest() {
    let mut s = wal(Vec::new());
    assert_eq!(s.decide(b"refund:done", b""), Decision::Fresh);
    let mut bytes = bytes_of(s);
    // A length that promises more bytes than were written before the crash.
    bytes.extend_from_slice(&(99u32).to_be_bytes());
    bytes.extend_from_slice(b"tp");
    let mut s2 = wal(bytes);
    assert_eq!(s2.get(b"refund:done"), Some(Vec::new()));
    assert_eq!(s2.entries().len(), 1, "only the complete record survives");
    assert_eq!(s2.decide(b"refund:torn", b""), Decision::Fresh);
    let mut s3 = wal(bytes_of(s2));
    assert_eq!(s3.decide(b"refund:torn", b""), Decision::AlreadyDecided(Vec::new()));
}

#[test]
fn concurrent_decide_across_shared_store_admits_one_winner() {
    let mut s = wal(Vec::new());
    let mut fresh = 0;
    for _ in 0..8 {
        if s.decide(b"refund:race", b"") == Decision::Fresh {
            fresh += 1;
        }
    }
    assert_eq!(fresh, 1, "exactly one caller wins the one-decision race");
}

#[test]
fn decide_reports_failed_on_a_write_error_not_a_phantom_duplicate() {
    let mut s = wal(Vec::new());
    assert_eq!(s.decide(b"funded", b""), Decision::Fresh);
    let mut ro = read_only(bytes_of(s));
    assert_eq!(ro.get(b"funded"), Some(Vec::new()));
    assert_eq!(ro.decide(b"fresh-ref", b""), Decision::Failed);
    assert_eq!(ro.get(b"fresh-ref"), None);
    let mut rw = wal(bytes_of(ro));
    assert_eq!(rw.decide(b"fresh-ref", b""), Decision::Fresh);
}

#[test]
fn a_failed_append_whose_recovery_fails_poisons_the_log() {
    let mut s = wal(Vec::new());
    assert_eq!(s.decide(b"valid-1", b""), Decision::Fresh);
    let mut ro = read_only(bytes_of(s));
    assert!(!ro.is_poisoned(), "not poisoned until a recovery fails");
    assert_eq!(ro.decide(b"would-corrupt", b""), Decision::Failed);
    assert!(ro.is_poisoned());
    assert_eq!(ro.decide(b"also-refused", b""), Decision::Failed);
    assert_eq!(ro.get(b"valid-1"), Some(Vec::new()));
}

#[test]
fn a_log_row_is_two_frames() {
    let mut s = wal(Vec::new());
    assert_eq!(s.decide(b"k", b"vv"), Decision::Fresh);
    assert_eq!(bytes_of(s), vec![0, 0, 0, 1, b'k', 0, 0, 0, 2, b'v', b'v']);
}

#[test]
fn the_first_row_under_a_key_counts() {
    let bytes = vec![0, 0, 0, 1, b'k', 0, 0, 0, 1, b'a', 0, 0, 0, 1, b'k', 0, 0, 0, 1, b'b'];
    let s = wal(bytes);
    assert_eq!(s.get(b"k"), Some(b"a".to_vec()));
}

#[test]
fn a_torn_record_is_cut_off_only_where_the_medium_takes_it() {
    let mut s = wal(Vec::new());
    assert_eq!(s.decide(b"k", b"v"), Decision::Fresh);
    let whole = bytes_of(s);
    assert!(WalOneDecision::open(MemoryLog::new(whole.clone(), true)).is_some());
    let mut torn = whole.clone();
    torn.push(7);
    assert!(WalOneDecision::open(MemoryLog::new(torn.clone(), true)).is_none());
    assert_eq!(bytes_of(wal(torn)), whole);
}

#[test]
fn every_key_is_listed_once() {
    // A log that holds two rows under one key.
    let mut s = wal(Vec::new());
    assert_eq!(s.decide(b"k", b"v1"), Decision::Fresh);
    let mut bytes = bytes_of(s);
    let mut t = wal(Vec::new());
    assert_eq!(t.decide(b"k", b"v2"), Decision::Fresh);
    bytes.extend_from_slice(&bytes_of(t));
    let s = wal(bytes);
    assert_eq!(s.entries(), vec![(b"k".to_vec(), b"v1".to_vec())]);
    let mut m = InMemoryOneDecision::new();
    assert_eq!(m.decide(b"k", b"v1"), Decision::Fresh);
    assert_eq!(m.decide(b"k", b"v2"), Decision::AlreadyDecided(b"v1".to_vec()));
    assert_eq!(m.entries(), vec![(b"k".to_vec(), b"v1".to_vec())]);
}
