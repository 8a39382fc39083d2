use oauthmux::{SealError, Sealer, XChaChaSealer};

#[test]
fn round_trip_rotation_and_tamper_rejection() {
    let old = [1_u8; 32];
    let new = [2_u8; 32];
    let old_sealer = XChaChaSealer::new(&old, None).unwrap();
    let token = old_sealer.seal(b"secret", b"resource").unwrap();
    let rotated = XChaChaSealer::new(&new, Some(&old)).ok().unwrap();
    assert_eq!(rotated.unseal(&token, b"resource").unwrap(), b"secret");
    assert!(rotated.unseal(&token, b"other").is_err());
    let mut tampered = token.into_bytes();
    *tampered.last_mut().unwrap() ^= 1;
    assert!(rotated
        .unseal(&String::from_utf8(tampered).unwrap(), b"resource")
        .is_err());
}

#[test]
fn rejects_wrong_key_length() {
    assert!(XChaChaSealer::new(&[0; 31], None).is_err());
    assert!(XChaChaSealer::new(&[0; 32], Some(&[0; 31])).is_err());
}

#[test]
fn envelopes_start_with_their_version() {
    let sealer = XChaChaSealer::new(&[7; 32], None).unwrap();
    let envelope = sealer.seal(b"payload", b"").unwrap();
    assert!(envelope.starts_with("v1."));
    // 24 bytes of nonce, 7 of message and 16 of tag, in base64 without padding.
    assert_eq!(envelope.len(), 3 + 63);
    assert_eq!(sealer.unseal(&envelope, b"").unwrap(), b"payload");
}

#[test]
fn envelopes_have_a_fixed_layout() {
    let sealer = XChaChaSealer::new(&[7; 32], None).unwrap();
    for length in 0..70_usize {
        let message = vec![3_u8; length];
        for associated_data in [&b""[..], &b"a much longer associated text"[..]] {
            let envelope = sealer.seal(&message, associated_data).unwrap();
            assert_eq!(envelope.len(), 3 + (4 * (length + 40) + 2) / 3);
            assert!(envelope[3..]
                .chars()
                .all(|c| c.is_ascii_alphanumeric() || c == '-' || c == '_'));
            assert_eq!(sealer.unseal(&envelope, associated_data).unwrap(), message);
        }
    }
}

#[test]
fn only_the_current_key_seals() {
    let rotated = XChaChaSealer::new(&[2; 32], Some(&[1; 32])).unwrap();
    let envelope = rotated.seal(b"message", b"a").unwrap();
    let other_previous = XChaChaSealer::new(&[2; 32], Some(&[9; 32])).unwrap();
    assert_eq!(other_previous.unseal(&envelope, b"a").unwrap(), b"message");
    let old = XChaChaSealer::new(&[1; 32], None).unwrap();
    assert_eq!(old.unseal(&envelope, b"a").err().unwrap(), SealError::InvalidEnvelope);
}

#[test]
fn a_nonce_fixes_the_envelope() {
    let sealer = XChaChaSealer::new(&[7; 32], None).unwrap();
    let first = sealer.seal_with_nonce(&[9; 24], b"payload", b"key").unwrap();
    let second = sealer.seal_with_nonce(&[9; 24], b"payload", b"key").unwrap();
    assert_eq!(first, second);
    assert!(first.starts_with("v1.CQkJCQkJCQkJCQkJCQkJCQkJCQkJCQkJ"));
    let other = sealer.seal_with_nonce(&[8; 24], b"payload", b"key").unwrap();
    assert_ne!(first, other);
    assert_eq!(sealer.unseal(&first, b"key").unwrap(), b"payload");
}

#[test]
fn envelopes_differ_from_one_another() {
    let sealer = XChaChaSealer::new(&[7; 32], None).unwrap();
    assert_ne!(sealer.seal(b"x", b"").unwrap(), sealer.seal(b"x", b"").unwrap());
}

#[test]
fn the_current_key_comes_first() {
    let alone = XChaChaSealer::new(&[1; 32], None).unwrap();
    let envelope = alone.seal(b"message", b"a").unwrap();
    let rotated = XChaChaSealer::new(&[1; 32], Some(&[2; 32])).unwrap();
    assert_eq!(rotated.unseal(&envelope, b"a").unwrap(), b"message");
    let retired = XChaChaSealer::new(&[2; 32], None).unwrap();
    assert!(retired.unseal(&envelope, b"a").is_err());
}

#[test]
fn malformed_envelopes_are_refused() {
    let sealer = XChaChaSealer::new(&[7; 32], None).unwrap();
    for bad in ["", "v1.", "v2.AAAA", "v1.!!!!", "v1.AAAA", "AAAA"] {
        assert_eq!(sealer.unseal(bad, b"").err().unwrap(), SealError::InvalidEnvelope, "{bad}");
    }
    assert_eq!(
        sealer.unseal_bytes(&[0; 24], b"").err().unwrap(),
        SealError::InvalidEnvelope,
    );
    assert_eq!(
        sealer.unseal_bytes(&[0; 64], b"").err().unwrap(),
        SealError::InvalidEnvelope,
    );
    assert_eq!(SealError::InvalidEnvelope.message(), "invalid sealed envelope");
    assert_eq!(SealError::InvalidKey.message(), "invalid sealing key: expected 32 bytes");
}

#[test]
fn empty_messages_can_be_sealed() {
    let sealer = XChaChaSealer::new(&[7; 32], None).unwrap();
    let envelope = sealer.seal(b"", b"bound").unwrap();
    assert_eq!(sealer.unseal(&envelope, b"bound").unwrap(), b"");
}
