use phantom::crypto::cipher::{nonce_from, OneNonceSequence, PhantomCipher, NONCE_LEN, TAG_LEN};
use phantom::crypto::key_rotation::{key_from, KeyRotator};

fn pair() -> (PhantomCipher, PhantomCipher) {
    (
        PhantomCipher::from_keys([1; 32], [2; 32]),
        PhantomCipher::from_keys([2; 32], [1; 32]),
    )
}

#[test]
fn one_side_reads_what_the_other_wrote() {
    let (ours, theirs) = pair();
    let sealed = ours.encrypt(b"attack at dawn").unwrap();
    assert_eq!(sealed.len(), NONCE_LEN + 14 + TAG_LEN);
    assert_eq!(theirs.decrypt(&sealed).unwrap(), b"attack at dawn".to_vec());
    let answer = theirs.encrypt(b"").unwrap();
    assert_eq!(answer.len(), 28);
    assert_eq!(ours.decrypt(&answer).unwrap(), Vec::<u8>::new());
}

#[test]
fn encryption_is_the_published_algorithm() {
    // Key, nonce and plaintext of zeros, no associated data.
    let cipher = PhantomCipher::from_keys([0; 32], [0; 32]);
    let sealed = cipher.encrypt_with_nonce([0; 12], &[0; 16]).unwrap();
    assert_eq!(sealed[..12], [0; 12]);
    assert_eq!(
        sealed[12..],
        [
            0x9f, 0x07, 0xe7, 0xbe, 0x55, 0x51, 0x38, 0x7a, 0x98, 0xba, 0x97, 0x7c, 0x73, 0x2d,
            0x08, 0x0d, 0xc3, 0x4a, 0x88, 0x04, 0x73, 0x20, 0xf5, 0x2a, 0xa2, 0xc6, 0x68, 0x3e,
            0xf8, 0x08, 0x4d, 0x2f,
        ]
    );
    assert_eq!(cipher.decrypt(&sealed).unwrap(), vec![0; 16]);
}

#[test]
fn two_encryptions_use_two_nonces() {
    let (ours, _) = pair();
    let a = ours.encrypt(b"same").unwrap();
    let b = ours.encrypt(b"same").unwrap();
    assert_ne!(a[..12], b[..12]);
}

#[test]
fn a_changed_byte_is_refused() {
    let (ours, theirs) = pair();
    let mut sealed = ours.encrypt(b"payload").unwrap();
    let last = sealed.len() - 1;
    sealed[last] ^= 1;
    let e = theirs.decrypt(&sealed).unwrap_err();
    assert_eq!(e.to_text(), "Crypto error: decryption failed: ring::error::Unspecified");
}

#[test]
fn the_wrong_key_is_refused() {
    let (ours, _) = pair();
    let sealed = ours.encrypt(b"payload").unwrap();
    assert!(ours.decrypt(&sealed).is_err());
}

#[test]
fn a_short_ciphertext_is_refused() {
    let (ours, _) = pair();
    let e = ours.decrypt(&[0; 11]).unwrap_err();
    assert_eq!(e.to_text(), "Crypto error: ciphertext too short to contain nonce");
    assert!(ours.decrypt(&[0; 27]).is_err());
    let e = ours.decrypt(&[0; 12]).unwrap_err();
    assert_eq!(e.to_text(), "Crypto error: decryption failed: ring::error::Unspecified");
}

#[test]
fn a_nonce_is_given_once() {
    let mut nonces = OneNonceSequence::new([7; 12]);
    assert_eq!(nonces.advance(), Some([7; 12]));
    assert_eq!(nonces.advance(), None);
    assert_eq!(nonces.advance(), None);
}

#[test]
fn a_cipher_is_always_made() {
    assert!(PhantomCipher::new([0; 32], [0; 32]).is_ok());
}

#[test]
fn rotation_falls_due_after_the_interval() {
    let rotator = KeyRotator::with_keys(2, [1; 32], [2; 32], 5_000_000);
    assert!(!rotator.should_rotate(5_000_000));
    assert!(!rotator.should_rotate(124_999_999));
    assert!(rotator.should_rotate(125_000_000));
    assert!(!rotator.should_rotate(0));
    assert_eq!(rotator.exit_pubkey(), None);
}

#[test]
fn an_interval_of_zero_is_always_due() {
    assert!(KeyRotator::new(0, 9).should_rotate(9));
}

#[test]
fn rotation_takes_the_new_keys() {
    let mut rotator = KeyRotator::with_keys(1, [1; 32], [2; 32], 0);
    let peer = PhantomCipher::from_keys([2; 32], [1; 32]);
    let before = rotator.get_cipher().encrypt(b"x").unwrap();
    assert!(peer.decrypt(&before).is_ok());
    assert!(rotator.finish_rotation([3; 32], [4; 32], Ok(()), 60_000_000).is_ok());
    let after = rotator.get_cipher().encrypt(b"x").unwrap();
    assert!(peer.decrypt(&after).is_err());
    let new_peer = PhantomCipher::from_keys([4; 32], [3; 32]);
    assert_eq!(new_peer.decrypt(&after).unwrap(), b"x".to_vec());
    assert!(!rotator.should_rotate(60_000_001));
    assert!(rotator.should_rotate(120_000_000));
}

#[test]
fn generated_keys_differ() {
    let (a, b) = KeyRotator::generate_keypair();
    assert_ne!(a, b);
    assert_ne!(a, [0; 32]);
}

#[test]
fn a_failed_announcement_is_reported() {
    let mut rotator = KeyRotator::with_keys(1, [1; 32], [2; 32], 0);
    let why = Err("link down".to_string());
    let e = rotator.finish_rotation([3; 32], [4; 32], why, 60_000_000).unwrap_err();
    assert_eq!(e.to_text(), "Crypto error: key rotation send failed: link down");
    let peer = PhantomCipher::from_keys([2; 32], [1; 32]);
    let kept = rotator.get_cipher().encrypt(b"x").unwrap();
    assert_eq!(peer.decrypt(&kept).unwrap(), b"x".to_vec());
    assert!(rotator.should_rotate(60_000_000));
}

#[test]
fn a_draw_gives_its_nonce_or_its_reason() {
    assert_eq!(nonce_from(Ok([9; 12])).ok(), Some([9; 12]));
    let e = nonce_from(Err("no entropy".to_string())).err().unwrap();
    assert_eq!(e.to_text(), "Crypto error: failed to generate nonce: no entropy");
}

#[test]
fn a_draw_gives_its_key_or_zeros() {
    assert_eq!(key_from(Ok([9; 32])), [9; 32]);
    assert_eq!(key_from(Err("no entropy".to_string())), [0; 32]);
}
