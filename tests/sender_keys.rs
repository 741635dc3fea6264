use lockframe::sender_keys::{
    decrypt_message, derive_sender_key_seed, encrypt_message, sender_key_info, SenderKeyError,
    SenderKeyStore, SymmetricRatchet,
};

fn secret(fill: u8) -> Vec<u8> {
    (0..32u8).map(|i| i ^ fill).collect()
}

#[test]
fn sender_key_info_layout() {
    let info = sender_key_info(1000, 7);
    assert_eq!(&info[..23], b"lockframe/sender-key/v1");
    assert_eq!(&info[23..31], &1000u64.to_be_bytes());
    assert_eq!(&info[31..39], &7u64.to_be_bytes());
    assert_eq!(info.len(), 39);
}

#[test]
fn seeds_are_isolated_per_sender_and_epoch() {
    let s = secret(0x55);
    let a = derive_sender_key_seed(&s, 1000, 1);
    assert_eq!(a, derive_sender_key_seed(&s, 1000, 1));
    assert_ne!(a, derive_sender_key_seed(&s, 2000, 1));
    assert_ne!(a, derive_sender_key_seed(&s, 1000, 2));
    assert_ne!(&a[..], &s[..]);
}

#[test]
fn ratchet_keys_differ_and_count_up() {
    let mut r = SymmetricRatchet::new(derive_sender_key_seed(&secret(1), 1, 0));
    let k0 = r.next_message_key().unwrap();
    let k1 = r.next_message_key().unwrap();
    assert_eq!(k0.counter, 0);
    assert_eq!(k1.counter, 1);
    assert_ne!(k0.key, k1.key);
    assert_eq!(r.counter(), 2);
}

#[test]
fn round_trip_and_tamper_detection() {
    let mut r = SymmetricRatchet::new(derive_sender_key_seed(&secret(2), 1000, 3));
    let key = r.next_message_key().unwrap();
    let ad = b"header bytes".to_vec();
    let pt = b"Hello from Alice!".to_vec();
    let msg = encrypt_message(&key, 3, 1000, [7u8; 8], &pt, &ad);
    assert_eq!(msg.ciphertext.len(), pt.len() + 16);
    assert_ne!(&msg.ciphertext[..pt.len()], &pt[..]);
    assert_eq!(&msg.nonce[12..16], &0u32.to_be_bytes());
    assert_eq!(&msg.nonce[16..], &[7u8; 8]);
    assert_eq!(decrypt_message(&key, &msg, &ad), Ok(pt.clone()));

    for bit in [0usize, 5, 8 * 10 + 3, 8 * (pt.len() + 15) + 7] {
        let mut bad = msg.clone();
        bad.ciphertext[bit / 8] ^= 1 << (bit % 8);
        assert_eq!(decrypt_message(&key, &bad, &ad), Err(SenderKeyError::DecryptionFailed));
    }
    let mut bad = msg.clone();
    bad.nonce[20] ^= 0x01;
    assert_eq!(decrypt_message(&key, &bad, &ad), Err(SenderKeyError::DecryptionFailed));
    let mut bad_ad = ad.clone();
    bad_ad[0] ^= 0x80;
    assert_eq!(decrypt_message(&key, &msg, &bad_ad), Err(SenderKeyError::DecryptionFailed));
}

#[test]
fn stores_exchange_messages() {
    let mut alice = SenderKeyStore::new(secret(9), 4, 1000);
    let mut bob = SenderKeyStore::new(secret(9), 4, 2000);
    let ad = b"ad".to_vec();

    let m = alice.encrypt(b"Hello from Alice!", &ad, [1u8; 8]).unwrap();
    assert_eq!(m.sender_id, 1000);
    assert_eq!(bob.decrypt(&m, &ad), Ok(b"Hello from Alice!".to_vec()));
    // A key is used once.
    assert_eq!(bob.decrypt(&m, &ad), Err(SenderKeyError::StaleMessage));

    let r = bob.encrypt(b"Hello from Bob!", &ad, [2u8; 8]).unwrap();
    assert_eq!(alice.decrypt(&r, &ad), Ok(b"Hello from Bob!".to_vec()));
}

#[test]
fn out_of_order_within_window() {
    let mut alice = SenderKeyStore::new(secret(3), 1, 1);
    let mut bob = SenderKeyStore::new(secret(3), 1, 2);
    let ad = Vec::new();
    let m0 = alice.encrypt(b"zero", &ad, [0u8; 8]).unwrap();
    let m1 = alice.encrypt(b"one", &ad, [0u8; 8]).unwrap();
    let m2 = alice.encrypt(b"two", &ad, [0u8; 8]).unwrap();
    assert_eq!(bob.decrypt(&m2, &ad), Ok(b"two".to_vec()));
    assert_eq!(bob.decrypt(&m0, &ad), Ok(b"zero".to_vec()));
    assert_eq!(bob.decrypt(&m1, &ad), Ok(b"one".to_vec()));
    assert_eq!(bob.decrypt(&m1, &ad), Err(SenderKeyError::StaleMessage));
}

#[test]
fn counters_below_the_window_are_stale() {
    let mut alice = SenderKeyStore::new(secret(4), 1, 1);
    let mut bob = SenderKeyStore::new(secret(4), 1, 2);
    let ad = Vec::new();
    let first = alice.encrypt(b"old", &ad, [0u8; 8]).unwrap();
    let mut last = first.clone();
    for _ in 0..1100 {
        last = alice.encrypt(b"x", &ad, [0u8; 8]).unwrap();
    }
    assert_eq!(bob.decrypt(&last, &ad), Ok(b"x".to_vec()));
    assert_eq!(bob.decrypt(&first, &ad), Err(SenderKeyError::StaleMessage));
}

#[test]
fn epoch_advance_forgets_the_old_epoch() {
    let mut alice = SenderKeyStore::new(secret(5), 1, 1);
    let mut bob = SenderKeyStore::new(secret(5), 1, 2);
    let ad = Vec::new();
    let old = alice.encrypt(b"before", &ad, [0u8; 8]).unwrap();
    bob.advance_epoch(secret(6), 2);
    assert_eq!(bob.current_epoch(), 2);
    assert_eq!(
        bob.decrypt(&old, &ad),
        Err(SenderKeyError::EpochMismatch { expected: 2, actual: 1 })
    );
    // Re-labelling the old ciphertext with the new epoch does not help:
    // the keys now derive from the new secret.
    let mut relabelled = old.clone();
    relabelled.epoch = 2;
    assert_eq!(bob.decrypt(&relabelled, &ad), Err(SenderKeyError::DecryptionFailed));

    alice.advance_epoch(secret(6), 2);
    let fresh = alice.encrypt(b"after", &ad, [0u8; 8]).unwrap();
    assert_eq!(fresh.counter, 0);
    assert_eq!(bob.decrypt(&fresh, &ad), Ok(b"after".to_vec()));
}

#[test]
fn forged_message_consumes_no_key() {
    let mut alice = SenderKeyStore::new(secret(8), 1, 1);
    let mut bob = SenderKeyStore::new(secret(8), 1, 2);
    let ad = b"hdr".to_vec();
    let genuine = alice.encrypt(b"real", &ad, [3u8; 8]).unwrap();
    let mut forged = genuine.clone();
    forged.ciphertext[0] ^= 0xff;
    assert_eq!(bob.decrypt(&forged, &ad), Err(SenderKeyError::DecryptionFailed));
    assert_eq!(bob.decrypt(&genuine, &ad), Ok(b"real".to_vec()));
    // A forged message at a later counter burns no key either.
    let next = alice.encrypt(b"later", &ad, [3u8; 8]).unwrap();
    let mut forged_next = next.clone();
    forged_next.nonce[23] ^= 1;
    assert_eq!(bob.decrypt(&forged_next, &ad), Err(SenderKeyError::DecryptionFailed));
    assert_eq!(bob.decrypt(&next, &ad), Ok(b"later".to_vec()));
}
