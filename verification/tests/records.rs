use paytp_merchant::bytes::{be_decode, be_encode, copy_array, copy_range, same_bytes};
use paytp_merchant::disposition::{decode_disp, encode_disp, ChainState};
use paytp_merchant::framing::{frame, read_field};
use paytp_merchant::keys::{
    chopen_key, disp_key, fund_key, fund_prefix, refund_ref_key, refund_reserve_key, strip_prefix,
};
use paytp_merchant::log::read_rows;
use paytp_merchant::rail::{finality_is_irreversible, finality_reached, Finality};
use paytp_merchant::table::{Table, TextSet};
use paytp_merchant::text::{holds_char, last_position, text_bytes};

#[test]
fn a_disposition_round_trips_in_its_exact_bytes() {
    let committed = ChainState::Committed { successor: [3; 8] };
    assert_eq!(encode_disp(&committed), vec![1, 3, 3, 3, 3, 3, 3, 3, 3]);
    assert_eq!(decode_disp(&encode_disp(&committed)), Some(committed));
    let plain = ChainState::Reconciled { pending_draw: None };
    assert_eq!(encode_disp(&plain), vec![2]);
    assert_eq!(decode_disp(&[2]), Some(plain));
    let owed = ChainState::Reconciled {
        pending_draw: Some(([9; 32], 150)),
    };
    let bytes = encode_disp(&owed);
    assert_eq!(bytes.len(), 49);
    assert_eq!(bytes[0], 3);
    assert_eq!(bytes[33..], 150u128.to_be_bytes());
    assert_eq!(decode_disp(&bytes), Some(owed));
    // The intent to chain can be revoked, and is never recorded.
    assert!(encode_disp(&ChainState::Pending).is_empty());
    for bad in [&[][..], &[0xff], &[2, 0], &[1, 2, 3], &bytes[..48]] {
        assert_eq!(decode_disp(bad), None);
    }
}

#[test]
fn keys_live_in_their_own_namespaces() {
    assert_eq!(fund_key("abc"), b"fund:abc".to_vec());
    assert_eq!(disp_key(&[1; 8])[..5], b"disp:"[..]);
    let (a, b) = (refund_reserve_key(&[1; 8], &[2; 32]), refund_ref_key(&[1; 8], &[2; 32]));
    assert_ne!(a, b);
    assert_ne!(disp_key(&[1; 8]), chopen_key(&[1; 8]));
    assert_eq!(strip_prefix(&fund_key("abc"), &fund_prefix()), Some(b"abc".to_vec()));
    assert_eq!(strip_prefix(&disp_key(&[1; 8]), &fund_prefix()), None);
}

#[test]
fn fields_are_read_as_they_were_framed() {
    let mut out = Vec::new();
    frame(&mut out, b"ab");
    frame(&mut out, b"");
    assert_eq!(out, vec![0, 0, 0, 2, b'a', b'b', 0, 0, 0, 0]);
    let mut off = 0;
    assert_eq!(read_field(&out, &mut off), Some(b"ab".to_vec()));
    assert_eq!(off, 6);
    assert_eq!(read_field(&out, &mut off), Some(Vec::new()));
    assert_eq!(read_field(&out, &mut off), None);
    assert_eq!(off, 10);
    // Two fields a row: the torn one is left out.
    out.extend_from_slice(&[0, 0, 0, 9, 1]);
    let (rows, end) = read_rows(&out, 2);
    assert_eq!(rows, vec![vec![b"ab".to_vec(), Vec::new()]]);
    assert_eq!(end, 10);
}

#[test]
fn numbers_are_written_most_significant_first() {
    assert_eq!(be_encode(0x0102, 4), vec![0, 0, 1, 2]);
    assert_eq!(be_decode(&[9, 1, 2, 9], 1, 3), 0x0102);
    assert_eq!(copy_array::<2>(&[1, 2, 3], 1), [2, 3]);
    assert_eq!(copy_range(&[1, 2, 3], 0, 2), vec![1, 2]);
    assert!(same_bytes(b"a", b"a"));
    assert!(!same_bytes(b"a", b"ab"));
}

#[test]
fn text_is_kept_in_utf8() {
    assert_eq!(text_bytes("a\u{e9}"), vec![b'a', 0xc3, 0xa9]);
    assert!(holds_char("a|b", '|'));
    assert!(!holds_char("ab", '|'));
    assert_eq!(last_position("a|b|c", '|'), Some(3));
    assert_eq!(last_position("abc", '|'), None);
}

#[test]
fn a_table_keeps_one_value_per_key() {
    let mut t: Table<[u8; 8], bool> = Table::new();
    t.insert([1; 8], true);
    t.insert([2; 8], true);
    t.insert([1; 8], false);
    assert_eq!(t.count(), 2);
    assert_eq!(t.get(&[1; 8]), Some(&false));
    assert!(!t.contains(&[3; 8]));
    assert_eq!(t.remove(&[1; 8]), Some(false));
    assert_eq!(t.remove(&[1; 8]), None);
    assert_eq!(t.count(), 1);
    let mut s = TextSet::new();
    assert!(s.insert("a".to_string()));
    assert!(!s.insert("a".to_string()));
    assert!(s.contains(&"a".to_string()));
}

#[test]
fn levels_are_ordered_as_the_rail_declares_them() {
    let levels: Vec<String> = ["seen", "likely", "final"].iter().map(|s| s.to_string()).collect();
    let at = |level: &str| {
        Some(Finality {
            level: level.to_string(),
            time: 1,
        })
    };
    let reached = |f: &Option<Finality>, required: &str| finality_reached(&levels, f, &required.to_string());
    assert!(reached(&at("final"), "likely"));
    assert!(reached(&at("likely"), "likely"));
    assert!(!reached(&at("seen"), "likely"));
    assert!(!reached(&at("unknown"), "seen"));
    assert!(!reached(&at("final"), "unknown"));
    assert!(!reached(&None, "seen"));
    let (fin, likely) = ("final".to_string(), "likely".to_string());
    assert!(finality_is_irreversible(Some(&levels), &fin, &fin));
    assert!(!finality_is_irreversible(Some(&levels), &fin, &likely));
    assert!(!finality_is_irreversible(Some(&Vec::new()), &fin, &fin));
    assert!(finality_is_irreversible(None, &likely, &fin));
}
