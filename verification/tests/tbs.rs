use minimint::hash::sha3_digest;
use minimint::tbs::{
    blind_message, combine_valid_shares, dealer_keygen, sign_blinded_msg, unblind_signature,
    try_unblind_signature, verify, verify_blind_share, Aggregatable, BlindedSignature,
    BlindedSignatureShare, Message,
};

#[test]
fn test_keygen() {
    let (pk, pks, _sks) = dealer_keygen(5, 15);
    assert_eq!(pks.len(), 15);

    let pka = pks.aggregate(5);
    assert_eq!(pka, pk);
}

#[test]
fn test_roundtrip() {
    let msg = Message::from_bytes(b"Hello World!");
    let threshold = 5;

    let (bkey, bmsg) = blind_message(msg);

    let (pk, _pks, sks) = dealer_keygen(threshold, 15);

    let mut sigs: Vec<(usize, BlindedSignatureShare)> = sks
        .iter()
        .enumerate()
        .map(|(idx, sk)| (idx, sign_blinded_msg(bmsg, *sk)))
        .collect();

    // All sig shards available
    let bsig = combine_valid_shares(&sigs, threshold);
    let sig = unblind_signature(bkey, bsig);
    assert!(verify(msg, sig, pk));

    // Missing sig shards
    for _ in 0..5 {
        sigs.pop();
    }
    let bsig = combine_valid_shares(&sigs, threshold);
    let sig = unblind_signature(bkey, bsig);
    assert!(verify(msg, sig, pk));

    let new_order = [9, 5, 4, 7, 8, 6, 0, 1, 3, 2];
    let shuffle_sigs: Vec<_> = new_order.iter().map(|idx| sigs[*idx].clone()).collect();
    let bsig = combine_valid_shares(&shuffle_sigs, threshold);
    let sig = unblind_signature(bkey, bsig);
    assert!(verify(msg, sig, pk));
}

#[test]
fn subset_independence() {
    let msg = Message::from_bytes(b"subset independence");
    let (pk, _pks, sks) = dealer_keygen(5, 15);
    let (bkey, bmsg) = blind_message(msg);
    let sigs: Vec<(usize, BlindedSignatureShare)> = sks
        .iter()
        .enumerate()
        .map(|(idx, sk)| (idx, sign_blinded_msg(bmsg, *sk)))
        .collect();

    let first_five: Vec<_> = sigs[0..5].to_vec();
    let next_five: Vec<_> = sigs[5..10].to_vec();
    let sig_a = unblind_signature(bkey, combine_valid_shares(&first_five, 5));
    let sig_b = unblind_signature(bkey, combine_valid_shares(&next_five, 5));
    assert_eq!(sig_a, sig_b);
    assert!(verify(msg, sig_a, pk));
    assert!(verify(msg, sig_b, pk));
}

#[test]
fn permutation_invariance() {
    let msg = Message::from_bytes(b"order does not matter");
    let (_pk, _pks, sks) = dealer_keygen(3, 5);
    let (_bkey, bmsg) = blind_message(msg);
    let sigs: Vec<(usize, BlindedSignatureShare)> = sks
        .iter()
        .enumerate()
        .map(|(idx, sk)| (idx, sign_blinded_msg(bmsg, *sk)))
        .collect();

    let forward: Vec<_> = vec![sigs[0], sigs[1], sigs[2]];
    let backward: Vec<_> = vec![sigs[2], sigs[1], sigs[0]];
    let a = combine_valid_shares(&forward, 3);
    let b = combine_valid_shares(&backward, 3);
    assert_eq!(a, b);
}

#[test]
fn unblinding_inverts_blinding() {
    let msg = Message::from_bytes(b"unblind of blind is the identity");
    let (bkey, bmsg) = blind_message(msg);
    // Blinding moves the point.
    assert_ne!(bmsg.0, msg.0);
    // Treat the blinded point as a blinded signature: unblinding with the
    // same key gives the original point back.
    let back = unblind_signature(bkey, BlindedSignature(bmsg.0));
    assert_eq!(back.0, msg.0);

    let checked = try_unblind_signature(bkey, BlindedSignature(bmsg.0)).unwrap();
    assert_eq!(checked.0, msg.0);
}

#[test]
fn domain_separation() {
    let data = b"domain separation probe";
    let digest = sha3_digest(data);
    let tagged = Message::from_bytes(data);
    let untagged = Message::from_hash(&digest);
    assert_ne!(tagged.0, untagged.0);
}

#[test]
fn sha3_known_vector() {
    let digest = sha3_digest(b"abc");
    assert_eq!(
        digest,
        hex::decode("3a985da74fe225b2045c172d6bd390bd855f086e3e9d525b46bfe24511431532").unwrap()
    );
}

#[test]
fn too_few_shares_do_not_verify() {
    let msg = Message::from_bytes(b"four shares are not five");
    let (pk, _pks, sks) = dealer_keygen(5, 15);
    let (bkey, bmsg) = blind_message(msg);
    let four: Vec<(usize, BlindedSignatureShare)> = sks
        .iter()
        .enumerate()
        .take(4)
        .map(|(idx, sk)| (idx, sign_blinded_msg(bmsg, *sk)))
        .collect();
    // The combiner accepts fewer shares than the threshold; the result is a
    // point unrelated to the secret and fails verification.
    let bsig = combine_valid_shares(&four, 5);
    let sig = unblind_signature(bkey, bsig);
    assert!(!verify(msg, sig, pk));
}

#[test]
fn share_verification() {
    let msg = Message::from_bytes(b"share check");
    let (_pk, pks, sks) = dealer_keygen(2, 3);
    let (_bkey, bmsg) = blind_message(msg);
    let share0 = sign_blinded_msg(bmsg, sks[0]);
    assert!(verify_blind_share(bmsg, share0, pks[0]));
    // A share verified against the wrong holder's key fails.
    assert!(!verify_blind_share(bmsg, share0, pks[1]));
}

#[test]
fn compressed_encoding_is_48_bytes_and_point_specific() {
    let a = Message::from_bytes(b"first point");
    let b = Message::from_bytes(b"second point");
    let ea = a.encode_compressed();
    let eb = b.encode_compressed();
    assert_eq!(ea.len(), 48);
    assert_eq!(eb.len(), 48);
    assert_ne!(ea, eb);
}
