use slashing_protection::hex::{bytes_to_hex, hex_to_bytes};
use slashing_protection::pubkey::PublicKey;
use slashing_protection::secret_hash::SecretHash;

#[test]
fn hex_encodes_lowercase_pairs() {
    assert_eq!(bytes_to_hex(&[]), Vec::<u8>::new());
    assert_eq!(bytes_to_hex(&[0x00, 0xAB, 0x0F]), b"00ab0f".to_vec());
    assert_eq!(bytes_to_hex(&[0xFF]), b"ff".to_vec());
}

#[test]
fn hex_decodes_what_it_encodes() {
    let bytes = vec![0u8, 1, 2, 0x7F, 0x80, 0xFF];
    let hex = bytes_to_hex(&bytes);
    assert_eq!(hex_to_bytes(&hex), Some(bytes));
}

#[test]
fn hex_rejects_bad_input() {
    assert_eq!(hex_to_bytes(b"abc"), None);
    assert_eq!(hex_to_bytes(b"0g"), None);
    assert_eq!(hex_to_bytes(b"AB"), None);
    assert_eq!(hex_to_bytes(b""), Some(vec![]));
}

#[test]
fn pubkey_hex_round_trip() {
    let mut bytes = [0u8; 48];
    let mut i = 0usize;
    while i < 48 {
        bytes[i] = (i as u8).wrapping_mul(5);
        i += 1;
    }
    let key = PublicKey::from_bytes(bytes);
    let hex = key.to_hex();
    assert_eq!(hex.len(), 96);
    let back = PublicKey::from_hex(&hex).unwrap();
    assert_eq!(back, key);
}

#[test]
fn pubkey_from_hex_rejects_wrong_length() {
    assert_eq!(PublicKey::from_hex(b"00ab"), None);
    let hex = bytes_to_hex(&[0x11; 47]);
    assert_eq!(PublicKey::from_hex(&hex), None);
}

#[test]
fn pubkey_lexicographic_order() {
    let a = PublicKey::from_bytes([1; 48]);
    let mut higher = [1u8; 48];
    higher[47] = 2;
    let b = PublicKey::from_bytes(higher);
    assert!(a.lex_lt(&b));
    assert!(!b.lex_lt(&a));
    assert!(!a.lex_lt(&a));
}

#[test]
fn secret_hash_holds_and_wipes_bytes() {
    let mut secret = SecretHash::from([0x5A; 32]);
    assert_eq!(secret.as_bytes(), &[0x5A; 32]);
    secret.as_mut_bytes()[0] = 0x11;
    assert_eq!(secret.as_bytes()[0], 0x11);
    secret.zeroize();
    assert_eq!(secret.as_bytes(), &[0u8; 32]);
    let zeroed = SecretHash::zero();
    assert_eq!(zeroed.as_bytes(), &[0u8; 32]);
}
