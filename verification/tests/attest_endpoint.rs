use paytp_merchant::attest_endpoint::AttestationEndpoint;

#[test]
fn serve_and_retrieve_attestation_unauthenticated() {
    let mut ep = AttestationEndpoint::new();
    let (nonce, entry) = ([0x11; 32], [0x22; 32]);
    // Nothing before it exists.
    assert!(ep.get(&entry, &nonce).is_none());
    ep.post(&entry, &nonce, b"attestation".to_vec());
    let bytes = ep.get(&entry, &nonce).expect("served");
    assert_eq!(bytes, b"attestation".to_vec());
    // Another query finds nothing.
    assert!(ep.get(&[0x33; 32], &nonce).is_none());
    assert!(ep.get(&nonce, &entry).is_none());
    // Nothing once the windows have passed.
    ep.prune(&entry, &nonce);
    assert!(ep.get(&entry, &nonce).is_none());
}

#[test]
fn posting_again_replaces_and_pruning_leaves_the_others() {
    let mut ep = AttestationEndpoint::new();
    ep.post(&[1; 32], &[2; 32], vec![1]);
    ep.post(&[1; 32], &[3; 32], vec![2]);
    ep.post(&[1; 32], &[2; 32], vec![3]);
    assert_eq!(ep.get(&[1; 32], &[2; 32]), Some(vec![3]));
    ep.prune(&[1; 32], &[2; 32]);
    assert_eq!(ep.get(&[1; 32], &[2; 32]), None);
    assert_eq!(ep.get(&[1; 32], &[3; 32]), Some(vec![2]));
}
