use anchor_lang::solana_program::keccak;
use tilt_poker::bignum::to_fixed32;
use tilt_poker::cipher::{verify_encryption, EncryptedCard, EphemeralPubkey};
use tilt_poker::game::GameState;

fn key(k: u8) -> EphemeralPubkey {
    let mut data = [0u8; 32];
    data[31] = k;
    EphemeralPubkey { data }
}

fn hex32(s: &str) -> [u8; 32] {
    let mut out = [0u8; 32];
    for i in 0..32 {
        out[i] = u8::from_str_radix(&s[2 * i..2 * i + 2], 16).unwrap();
    }
    out
}

#[test]
fn encrypt_card_is_exact_modpow() {
    // (10 + 2)^5 = 248832
    let c = GameState::encrypt_card(10, &key(5));
    assert_eq!(c.data, hex32("000000000000000000000000000000000000000000000000000000000003cc00"));
    let twice = GameState::encrypt_card_bytes(&c.data, &key(7));
    assert_eq!(twice.data, hex32("000000000000000000000000000000002c6fdb364c25e6c00000000000000000"));
}

#[test]
fn layers_commute_and_verify() {
    for card in [0u8, 10, 51] {
        let a = GameState::encrypt_card_bytes(&GameState::encrypt_card(card, &key(5)).data, &key(7));
        let b = GameState::encrypt_card_bytes(&GameState::encrypt_card(card, &key(7)).data, &key(5));
        assert_eq!(a, b);
        assert!(verify_encryption(card, &a, &key(5), &key(7)));
        assert!(verify_encryption(card, &b, &key(5), &key(7)));
        assert!(!verify_encryption(card + 1, &a, &key(5), &key(7)));
    }
}

#[test]
fn out_of_range_keys_never_verify() {
    let c = GameState::encrypt_card_bytes(&GameState::encrypt_card(3, &key(1)).data, &key(7));
    assert!(!verify_encryption(3, &c, &key(1), &key(7)));
    let zero = EphemeralPubkey::zero();
    assert!(!verify_encryption(3, &c, &zero, &key(7)));
    // p itself is out of range
    let mut p = [0xffu8; 32];
    p[31] = 0x43;
    assert!(!verify_encryption(3, &c, &EphemeralPubkey { data: p }, &key(7)));
    // p - 1 is the largest usable key
    p[31] = 0x42;
    let big = EphemeralPubkey { data: p };
    let c2 = GameState::encrypt_card_bytes(&GameState::encrypt_card(3, &big).data, &key(7));
    assert!(verify_encryption(3, &c2, &big, &key(7)));
}

#[test]
fn decrypt_undoes_encrypt() {
    let mut sk = [0u8; 32];
    sk[31] = 5;
    for card in [0u8, 17, 51] {
        let c = GameState::encrypt_card(card, &key(5));
        assert_eq!(GameState::decrypt_card(&c, &sk), Some(card));
    }
    // 3 divides p - 1, so it has no inverse there
    let mut bad = [0u8; 32];
    bad[31] = 3;
    let c = GameState::encrypt_card(9, &key(3));
    assert_eq!(GameState::decrypt_card(&c, &bad), None);
    // a value that is no card's message
    let mut one = [0u8; 32];
    one[31] = 1;
    assert_eq!(GameState::decrypt_card(&EncryptedCard { data: [7u8; 32] }, &one), None);
}

#[test]
fn to_fixed32_pads_and_truncates() {
    assert_eq!(to_fixed32(&vec![1, 2])[30..], [1, 2]);
    assert_eq!(to_fixed32(&vec![1, 2])[..30], [0u8; 30]);
    let mut long = vec![9u8];
    long.extend_from_slice(&[5u8; 32]);
    assert_eq!(to_fixed32(&long), [5u8; 32]);
}

fn h(data: &[u8]) -> [u8; 32] {
    keccak::hash(data).to_bytes()
}

fn node(a: &[u8; 32], b: &[u8; 32]) -> [u8; 32] {
    let mut d = [0u8; 64];
    d[..32].copy_from_slice(a);
    d[32..].copy_from_slice(b);
    h(&d)
}

#[test]
fn merkle_proof_round_trip() {
    let leaves: Vec<EncryptedCard> = (0u8..4).map(|i| EncryptedCard { data: [i + 1; 32] }).collect();
    let hashes: Vec<[u8; 32]> = leaves.iter().map(|l| h(&l.data)).collect();
    let n01 = node(&hashes[0], &hashes[1]);
    let n23 = node(&hashes[2], &hashes[3]);
    let root = node(&n01, &n23);
    assert!(GameState::verify_merkle_proof(&leaves[0], &[hashes[1], n23], &root, 0));
    assert!(GameState::verify_merkle_proof(&leaves[1], &[hashes[0], n23], &root, 1));
    assert!(GameState::verify_merkle_proof(&leaves[2], &[hashes[3], n01], &root, 2));
    assert!(GameState::verify_merkle_proof(&leaves[3], &[hashes[2], n01], &root, 3));
    // wrong index, flipped bits in the proof or the root
    assert!(!GameState::verify_merkle_proof(&leaves[0], &[hashes[1], n23], &root, 1));
    let mut bad = hashes[1];
    bad[0] ^= 1;
    assert!(!GameState::verify_merkle_proof(&leaves[0], &[bad, n23], &root, 0));
    let mut bad_root = root;
    bad_root[31] ^= 0x80;
    assert!(!GameState::verify_merkle_proof(&leaves[0], &[hashes[1], n23], &bad_root, 0));
    // an empty proof checks the leaf hash itself
    assert!(GameState::verify_merkle_proof(&leaves[2], &[], &hashes[2], 7));
}
