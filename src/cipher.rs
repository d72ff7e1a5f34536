//! The commutative Pohlig–Hellman card cipher over `Z_p`, `p = 2^256 - 189`:
//! a card `c` is the message `c + 2`, and a key `k` encrypts `m` as
//! `m^k mod p`, so that two layers commute.
use vstd::prelude::*;
use vstd::arithmetic::power::{pow, lemma_pow_mod_noop, lemma_pow_multiplies};
use vstd::arithmetic::div_mod::{lemma_fundamental_div_mod_converse, lemma_mul_mod_noop_left, lemma_mul_mod_noop_right, lemma_small_mod};
use vstd::arithmetic::mul::lemma_mul_is_associative;
use core::cmp::Ordering;
use crate::bignum::{be_value, two_256, pow256, cmp_be, modpow_be, modinv_be, to_fixed32, lemma_be_bound, lemma_be_concat};
use crate::game::GameState;

verus! {

/// A card under one or two layers of encryption: a big-endian element of `Z_p`.
#[derive(Clone, Copy, PartialEq, Eq, Debug)]
pub struct EncryptedCard {
    pub data: [u8; 32],
}

/// A player's per-hand encryption exponent, big-endian.
#[derive(Clone, Copy, PartialEq, Eq, Debug)]
pub struct EphemeralPubkey {
    pub data: [u8; 32],
}

/// Whether every byte is zero.
pub open spec fn all_zero(b: Seq<u8>) -> bool {
    forall|i: int| 0 <= i < b.len() ==> #[trigger] b[i] == 0
}

/// Whether every byte is zero.
pub fn is_zero_bytes(b: &[u8; 32]) -> (r: bool)
    ensures
        r == all_zero(b@),
{
    let mut i: usize = 0;
    while i < 32
        invariant
            i <= 32,
            forall|j: int| 0 <= j < i ==> #[trigger] b@[j] == 0,
        decreases 32 - i,
    {
        if b[i] != 0 {
            return false;
        }
        i = i + 1;
    }
    true
}

impl EncryptedCard {
    /// The all-zero value, which stands for "not set".
    pub fn zero() -> (r: EncryptedCard)
        ensures
            all_zero(r.data@),
    {
        EncryptedCard { data: [0u8; 32] }
    }
}

impl EphemeralPubkey {
    /// The all-zero value, which stands for "not set".
    pub fn zero() -> (r: EphemeralPubkey)
        ensures
            all_zero(r.data@),
    {
        EphemeralPubkey { data: [0u8; 32] }
    }
}

/// The field prime `2^256 - 189`.
pub open spec fn prime() -> nat {
    (two_256() - 189) as nat
}

/// A key is usable when it lies in `[2, p - 1]`.
pub open spec fn valid_key(k: Seq<u8>) -> bool {
    2 <= be_value(k) < prime()
}

/// One layer of encryption: `m^k mod p`.
pub open spec fn encrypt_value(m: nat, k: nat) -> nat {
    (pow(m as int, k) % (prime() as int)) as nat
}

/// The message that stands for a card.
pub open spec fn card_message(card: u8) -> nat {
    card as nat + 2
}

/// Whether `c` is `card` under `k1` and then `k2`, both keys being usable.
pub open spec fn card_matches(card: u8, c: Seq<u8>, k1: Seq<u8>, k2: Seq<u8>) -> bool {
    &&& valid_key(k1)
    &&& valid_key(k2)
    &&& encrypt_value(encrypt_value(card_message(card), be_value(k1)), be_value(k2)) == be_value(c)
}

/// The `x` in `[0, m)` with `k * x ≡ 1 (mod m)`, when there is one.
pub open spec fn has_inverse(k: nat, m: nat) -> bool {
    exists|x: nat| x < m && #[trigger] (((k * x) as int) % (m as int)) == 1int % (m as int)
}

pub open spec fn inverse(k: nat, m: nat) -> nat {
    choose|x: nat| x < m && #[trigger] (((k * x) as int) % (m as int)) == 1int % (m as int)
}

/// What decrypting `c` with the private exponent `k` gives: the card whose
/// message is `c^(k^-1 mod (p - 1)) mod p`, if that is a card's message.
pub open spec fn decrypt_value(c: nat, k: nat) -> Option<u8> {
    if has_inverse(k, (prime() - 1) as nat) {
        let v = encrypt_value(c, inverse(k, (prime() - 1) as nat));
        if 2 <= v <= 53 {
            Some((v - 2) as u8)
        } else {
            None
        }
    } else {
        None
    }
}

/// `n` bytes of `0xFF` hold `256^n - 1`.
proof fn lemma_be_all_ff(n: nat)
    ensures
        be_value(Seq::new(n, |_i: int| 0xFFu8)) == pow256(n) - 1,
    decreases n,
{
    if n > 0 {
        let s = Seq::new(n, |_i: int| 0xFFu8);
        assert(s.drop_last() =~= Seq::new((n - 1) as nat, |_i: int| 0xFFu8));
        lemma_be_all_ff((n - 1) as nat);
    }
}

/// 31 bytes of `0xFF` followed by `last`.
proof fn lemma_be_ff_then(s: Seq<u8>, last: u8)
    requires
        s =~= Seq::new(31, |_i: int| 0xFFu8).push(last),
    ensures
        be_value(s) == two_256() - 256 + last,
{
    assert(s.drop_last() =~= Seq::new(31, |_i: int| 0xFFu8));
    lemma_be_all_ff(31);
    assert(pow256(32) == 256 * pow256(31));
}

fn prime_bytes() -> (r: [u8; 32])
    ensures
        be_value(r@) == prime(),
{
    let r: [u8; 32] = [0xFF, 0xFF, 0xFF, 0xFF, 0xFF, 0xFF, 0xFF, 0xFF, 0xFF, 0xFF, 0xFF, 0xFF, 0xFF, 0xFF, 0xFF, 0xFF, 0xFF, 0xFF, 0xFF, 0xFF, 0xFF, 0xFF, 0xFF, 0xFF, 0xFF, 0xFF, 0xFF, 0xFF, 0xFF, 0xFF, 0xFF, 0x43];
    proof {
        lemma_be_ff_then(r@, 0x43);
        lemma_prime_fits();
    }
    r
}

fn prime_minus_one_bytes() -> (r: [u8; 32])
    ensures
        be_value(r@) == prime() - 1,
{
    let r: [u8; 32] = [0xFF, 0xFF, 0xFF, 0xFF, 0xFF, 0xFF, 0xFF, 0xFF, 0xFF, 0xFF, 0xFF, 0xFF, 0xFF, 0xFF, 0xFF, 0xFF, 0xFF, 0xFF, 0xFF, 0xFF, 0xFF, 0xFF, 0xFF, 0xFF, 0xFF, 0xFF, 0xFF, 0xFF, 0xFF, 0xFF, 0xFF, 0x42];
    proof {
        lemma_be_ff_then(r@, 0x42);
        lemma_prime_fits();
    }
    r
}

proof fn lemma_prime_fits()
    ensures
        prime() < two_256(),
        prime() > 2,
        two_256() > 256,
{
    crate::bignum::lemma_pow256_monotone(2, 32);
    assert(pow256(2) == 65536) by {
        assert(pow256(1) == 256 * pow256(0));
    }
}

/// One byte string: `[x]`.
fn byte(x: u8) -> (r: [u8; 1])
    ensures
        be_value(r@) == x,
{
    let r: [u8; 1] = [x];
    proof {
        assert(r@.drop_last() =~= Seq::<u8>::empty());
        assert(be_value(r@.drop_last()) == 0);
        assert(r@.last() == x);
    }
    r
}

/// The message of a card, as two big-endian bytes.
fn message_bytes(card: u8) -> (r: [u8; 2])
    ensures
        be_value(r@) == card_message(card),
{
    let m: u16 = card as u16 + 2;
    let r: [u8; 2] = [(m / 256) as u8, (m % 256) as u8];
    proof {
        assert(r@.drop_last().drop_last() =~= Seq::<u8>::empty());
        assert(be_value(r@.drop_last().drop_last()) == 0);
        assert(be_value(r@.drop_last()) == r@[0]);
        assert(be_value(r@) == r@[0] * 256 + r@[1]);
    }
    r
}

/// Whether a key lies in `[2, p - 1]`.
fn key_is_valid(k: &[u8; 32], p: &[u8; 32]) -> (r: bool)
    requires
        be_value(p@) == prime(),
    ensures
        r == valid_key(k@),
{
    let two = byte(2);
    let below_two = matches!(cmp_be(k, &two), Ordering::Less);
    let below_p = matches!(cmp_be(k, p), Ordering::Less);
    !below_two && below_p
}

/// One layer of encryption of a big-endian value, written in 32 bytes.
fn encrypt_layer(m: &[u8], key: &[u8]) -> (r: EncryptedCard)
    ensures
        be_value(r.data@) == encrypt_value(be_value(m@), be_value(key@)),
{
    let p = prime_bytes();
    proof {
        lemma_prime_fits();
    }
    let v = modpow_be(m, key, &p);
    proof {
        lemma_fundamental_div_mod_converse(be_value(v@) as int, two_256() as int, 0, be_value(v@) as int);
    }
    EncryptedCard { data: to_fixed32(&v) }
}

/// Whether `c` is the plaintext `card` encrypted under `k1` and then `k2`;
/// out-of-range keys never verify.
pub fn verify_encryption(card: u8, c: &EncryptedCard, k1: &EphemeralPubkey, k2: &EphemeralPubkey) -> (r: bool)
    ensures
        r == card_matches(card, c.data@, k1.data@, k2.data@),
{
    let p = prime_bytes();
    if !key_is_valid(&k1.data, &p) || !key_is_valid(&k2.data, &p) {
        return false;
    }
    let m = message_bytes(card);
    let once = modpow_be(&m, &k1.data, &p);
    let twice = modpow_be(&once, &k2.data, &p);
    matches!(cmp_be(&twice, &c.data), Ordering::Equal)
}

proof fn lemma_inverse_unique(k: nat, m: nat, x: nat, y: nat)
    requires
        m > 1,
        x < m,
        y < m,
        ((k * x) as int) % (m as int) == 1,
        ((k * y) as int) % (m as int) == 1,
    ensures
        x == y,
{
    let (ki, mi, xi, yi) = (k as int, m as int, x as int, y as int);
    lemma_mul_mod_noop_right(xi, ki * yi, mi);
    lemma_mul_is_associative(xi, ki, yi);
    assert(xi * ki == ki * xi) by (nonlinear_arith);
    lemma_mul_mod_noop_left(ki * xi, yi, mi);
    lemma_small_mod(x, m);
    lemma_small_mod(y, m);
    assert(xi * 1 == xi);
    assert(1 * yi == yi);
}

/// The two layers of encryption commute: `(x^a mod p)^b mod p` equals
/// `(x^b mod p)^a mod p`.
pub proof fn lemma_layers_commute(x: nat, a: nat, b: nat)
    ensures
        encrypt_value(encrypt_value(x, a), b) == encrypt_value(encrypt_value(x, b), a),
{
    lemma_prime_fits();
    let p = prime() as int;
    lemma_pow_mod_noop(pow(x as int, a), b, p);
    lemma_pow_mod_noop(pow(x as int, b), a, p);
    lemma_pow_multiplies(x as int, a, b);
    lemma_pow_multiplies(x as int, b, a);
    assert(a * b == b * a) by (nonlinear_arith);
}

/// A card that player 2's key and then player 1's key encrypted verifies
/// as well as one encrypted in the other order, for usable keys.
pub proof fn lemma_either_order_verifies(card: u8, c: Seq<u8>, k1: Seq<u8>, k2: Seq<u8>)
    requires
        valid_key(k1),
        valid_key(k2),
        be_value(c) == encrypt_value(encrypt_value(card_message(card), be_value(k2)), be_value(k1)),
    ensures
        card_matches(card, c, k1, k2),
{
    lemma_layers_commute(card_message(card), be_value(k1), be_value(k2));
}

impl GameState {
    /// Whether `encrypted` is `plaintext_card` under both players' keys
    /// (first player 1's, then player 2's).
    pub fn verify_card(&self, plaintext_card: u8, encrypted: &EncryptedCard) -> (r: bool)
        ensures
            r == card_matches(
                plaintext_card,
                encrypted.data@,
                self.player1_ephemeral_pubkey.data@,
                self.player2_ephemeral_pubkey.data@,
            ),
    {
        verify_encryption(plaintext_card, encrypted, &self.player1_ephemeral_pubkey, &self.player2_ephemeral_pubkey)
    }

    /// Encrypts a card under one key: `(card + 2)^key mod p`.
    pub fn encrypt_card(card: u8, public_key: &EphemeralPubkey) -> (r: EncryptedCard)
        ensures
            be_value(r.data@) == encrypt_value(card_message(card), be_value(public_key.data@)),
    {
        let m = message_bytes(card);
        encrypt_layer(&m, &public_key.data)
    }

    /// Adds a layer of encryption to an encrypted value: `c^key mod p`.
    pub fn encrypt_card_bytes(encrypted_bytes: &[u8; 32], public_key: &EphemeralPubkey) -> (r: EncryptedCard)
        ensures
            be_value(r.data@) == encrypt_value(be_value(encrypted_bytes@), be_value(public_key.data@)),
    {
        encrypt_layer(encrypted_bytes, &public_key.data)
    }

    /// Removes the layer that the private exponent `private_key` put on a
    /// card: raises it to `private_key^-1 mod (p - 1)`.
    pub fn decrypt_card(encrypted: &EncryptedCard, private_key: &[u8; 32]) -> (r: Option<u8>)
        ensures
            r == decrypt_value(be_value(encrypted.data@), be_value(private_key@)),
    {
        let p = prime_bytes();
        let pm1 = prime_minus_one_bytes();
        let ghost k = be_value(private_key@);
        let ghost m = (prime() - 1) as nat;
        proof {
            lemma_prime_fits();
        }
        match modinv_be(private_key, &pm1) {
            None => {
                proof {
                    if has_inverse(k, m) {
                        let x = choose|x: nat| x < m && #[trigger] (((k * x) as int) % (m as int)) == 1int % (m as int);
                        assert((((k * x) as int) % (m as int)) != 1int % (m as int));
                    }
                }
                None
            },
            Some(inv) => {
                proof {
                    lemma_small_mod(1, m);
                    assert(has_inverse(k, m));
                    let y = inverse(k, m);
                    lemma_inverse_unique(k, m, be_value(inv@), y);
                }
                let plain = encrypt_layer(&encrypted.data, inv.as_slice());
                proof {
                    lemma_prime_fits();
                }
                let lo = byte(2);
                let hi = byte(54);
                if matches!(cmp_be(&plain.data, &lo), Ordering::Less) || !matches!(cmp_be(&plain.data, &hi), Ordering::Less) {
                    return None;
                }
                let last = plain.data[31];
                proof {
                    let s = plain.data@;
                    assert(s =~= s.subrange(0, 31) + s.subrange(31, 32));
                    lemma_be_concat(s.subrange(0, 31), s.subrange(31, 32));
                    assert(s.subrange(31, 32).drop_last() =~= Seq::<u8>::empty());
                    assert(be_value(s.subrange(31, 32)) == last);
                    let q = be_value(s.subrange(0, 31));
                    assert(pow256(1) == 256 * pow256(0));
                    assert(q == 0) by (nonlinear_arith)
                        requires
                            q * 256 + last < 54,
                            q >= 0,
                    ;
                }
                Some(last - 2)
            },
        }
    }
}

} // verus!
