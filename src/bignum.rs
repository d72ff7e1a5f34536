//! Unsigned integers held as big-endian byte strings, and the arithmetic on
//! them that `num_bigint` performs.
use vstd::prelude::*;
use vstd::arithmetic::power::pow;
use vstd::arithmetic::div_mod::lemma_fundamental_div_mod_converse;
use num_bigint::BigUint;
use core::cmp::Ordering;

verus! {

/// `256^n`.
pub open spec fn pow256(n: nat) -> nat
    decreases n,
{
    if n == 0 {
        1
    } else {
        256 * pow256((n - 1) as nat)
    }
}

/// The value of a big-endian byte string.
pub open spec fn be_value(b: Seq<u8>) -> nat
    decreases b.len(),
{
    if b.len() == 0 {
        0
    } else {
        (be_value(b.drop_last()) * 256 + b.last()) as nat
    }
}

/// `2^256`, the bound of a 32-byte value.
pub open spec fn two_256() -> nat {
    pow256(32)
}

pub proof fn lemma_pow256_positive(n: nat)
    ensures
        pow256(n) >= 1,
    decreases n,
{
    if n > 0 {
        lemma_pow256_positive((n - 1) as nat);
    }
}

pub proof fn lemma_pow256_adds(a: nat, b: nat)
    ensures
        pow256(a + b) == pow256(a) * pow256(b),
    decreases b,
{
    if b > 0 {
        lemma_pow256_adds(a, (b - 1) as nat);
        let x = pow256(a);
        let y = pow256((b - 1) as nat);
        assert(((a + b) - 1) as nat == a + (b - 1) as nat);
        assert(pow256(b) == 256 * y);
        assert(pow256(a + b) == 256 * pow256(((a + b) - 1) as nat));
        assert(pow256(a + (b - 1) as nat) == x * y);
        assert(256 * (x * y) == x * (256 * y)) by (nonlinear_arith);
        assert(pow256(a + b) == x * pow256(b));
    } else {
        assert(pow256(b) == 1);
        assert(a + b == a);
    }
}

pub proof fn lemma_pow256_monotone(a: nat, b: nat)
    requires
        a <= b,
    ensures
        pow256(a) <= pow256(b),
{
    lemma_pow256_adds(a, (b - a) as nat);
    lemma_pow256_positive((b - a) as nat);
    lemma_pow256_positive(a);
    let x = pow256(a);
    let y = pow256((b - a) as nat);
    assert(x <= x * y) by (nonlinear_arith)
        requires
            y >= 1,
            x >= 1,
    ;
}

/// A byte string of `n` bytes holds less than `256^n`.
pub proof fn lemma_be_bound(b: Seq<u8>)
    ensures
        be_value(b) < pow256(b.len()),
    decreases b.len(),
{
    if b.len() > 0 {
        lemma_be_bound(b.drop_last());
        let v = be_value(b.drop_last());
        let p = pow256((b.len() - 1) as nat);
        let l = b.last() as int;
        assert(v * 256 + l < 256 * p) by (nonlinear_arith)
            requires
                v < p,
                0 <= l < 256,
        ;
    }
}

/// Value of a concatenation.
pub proof fn lemma_be_concat(a: Seq<u8>, b: Seq<u8>)
    ensures
        be_value(a + b) == be_value(a) * pow256(b.len()) + be_value(b),
    decreases b.len(),
{
    if b.len() == 0 {
        assert(a + b =~= a);
        assert(be_value(b) == 0);
        assert(pow256(b.len()) == 1);
        assert(be_value(a) * 1 == be_value(a));
    } else {
        lemma_be_concat(a, b.drop_last());
        assert((a + b).drop_last() =~= a + b.drop_last());
        let x = be_value(a);
        let y = pow256((b.len() - 1) as nat);
        let z = be_value(b.drop_last());
        assert(pow256(b.len()) == 256 * y);
        assert((a + b).last() == b.last());
        assert(be_value(a + b) == be_value(a + b.drop_last()) * 256 + b.last());
        assert(be_value(a + b.drop_last()) == x * y + z);
        assert(be_value(b) == z * 256 + b.last());
        assert((x * y + z) * 256 == x * (256 * y) + z * 256) by (nonlinear_arith);
        assert(be_value(a + b) == x * pow256(b.len()) + be_value(b));
    }
}

/// A byte string of zeros holds 0.
pub proof fn lemma_be_zeros(n: nat)
    ensures
        be_value(Seq::new(n, |_i: int| 0u8)) == 0,
    decreases n,
{
    if n > 0 {
        let s = Seq::new(n, |_i: int| 0u8);
        assert(s.drop_last() =~= Seq::new((n - 1) as nat, |_i: int| 0u8));
        lemma_be_zeros((n - 1) as nat);
    }
}

/// The value of the last `k` bytes is the value modulo `256^k`.
pub proof fn lemma_be_suffix(b: Seq<u8>, k: nat)
    requires
        k <= b.len(),
    ensures
        be_value(b.subrange(b.len() - k, b.len() as int)) == (be_value(b) as int) % (pow256(k) as int),
{
    let head = b.subrange(0, b.len() - k);
    let tail = b.subrange(b.len() - k, b.len() as int);
    assert(b =~= head + tail);
    lemma_be_concat(head, tail);
    lemma_be_bound(tail);
    lemma_fundamental_div_mod_converse(
        be_value(b) as int,
        pow256(k) as int,
        be_value(head) as int,
        be_value(tail) as int,
    );
}

/// Relies on `Ord for num_bigint::BigUint`, with both operands read by
/// `BigUint::from_bytes_be`: compares the numbers two big-endian byte
/// strings hold.
#[verifier::external_body]
pub(crate) fn cmp_be(a: &[u8], b: &[u8]) -> (r: Ordering)
    ensures
        (r == Ordering::Less) <==> be_value(a@) < be_value(b@),
        (r == Ordering::Equal) <==> be_value(a@) == be_value(b@),
        (r == Ordering::Greater) <==> be_value(a@) > be_value(b@),
{
    BigUint::from_bytes_be(a).cmp(&BigUint::from_bytes_be(b))
}

/// Relies on `num_bigint::BigUint::modpow`, which returns
/// `(base ^ exponent) % modulus` and panics on a zero modulus; the operands
/// are read by `BigUint::from_bytes_be` and the result written by
/// `BigUint::to_bytes_be`.
#[verifier::external_body]
pub(crate) fn modpow_be(base: &[u8], exponent: &[u8], modulus: &[u8]) -> (r: Vec<u8>)
    requires
        be_value(modulus@) > 0,
    ensures
        be_value(r@) == pow(be_value(base@) as int, be_value(exponent@)) % (be_value(
            modulus@,
        ) as int),
{
    let b = BigUint::from_bytes_be(base);
    let e = BigUint::from_bytes_be(exponent);
    let m = BigUint::from_bytes_be(modulus);
    b.modpow(&e, &m).to_bytes_be()
}

/// Relies on `num_bigint::BigUint::modinv`: the `x` in `[0, modulus)` with
/// `a * x ≡ 1 (mod modulus)` when there is one, else `None`; it panics on a
/// zero modulus. The operands are read by `BigUint::from_bytes_be` and the
/// result written by `BigUint::to_bytes_be`.
#[verifier::external_body]
pub(crate) fn modinv_be(a: &[u8], modulus: &[u8]) -> (r: Option<Vec<u8>>)
    requires
        be_value(modulus@) > 0,
    ensures
        r matches Some(x) ==> be_value(x@) < be_value(modulus@) && ((be_value(a@) * be_value(x@)) as int)
            % (be_value(modulus@) as int) == 1int % (be_value(modulus@) as int),
        r is None ==> forall|x: nat|
            x < be_value(modulus@) ==> #[trigger] (((be_value(a@) * x) as int) % (be_value(modulus@) as int))
                != 1int % (be_value(modulus@) as int),
{
    let x = BigUint::from_bytes_be(a);
    let m = BigUint::from_bytes_be(modulus);
    match x.modinv(&m) {
        Some(inv) => Some(inv.to_bytes_be()),
        None => None,
    }
}

/// The low 32 bytes of a big-endian number, left-padded with zeros.
pub fn to_fixed32(v: &Vec<u8>) -> (r: [u8; 32])
    ensures
        be_value(r@) == (be_value(v@) as int) % (two_256() as int),
{
    let mut r: [u8; 32] = [0u8; 32];
    let n = v.len();
    if n <= 32 {
        let off = 32 - n;
        let mut i: usize = 0;
        while i < n
            invariant
                n == v.len(),
                n <= 32,
                off == 32 - n,
                i <= n,
                r@ =~= Seq::new(off as nat, |_j: int| 0u8) + v@.subrange(0, i as int) + Seq::new(
                    (n - i) as nat,
                    |_j: int| 0u8,
                ),
            decreases n - i,
        {
            r[off + i] = v[i];
            i = i + 1;
            assert(r@ =~= Seq::new(off as nat, |_j: int| 0u8) + v@.subrange(0, i as int) + Seq::new(
                (n - i) as nat,
                |_j: int| 0u8,
            ));
        }
        proof {
            let zeros = Seq::new(off as nat, |_j: int| 0u8);
            assert(r@ =~= zeros + v@);
            lemma_be_concat(zeros, v@);
            lemma_be_zeros(off as nat);
            lemma_be_bound(v@);
            lemma_pow256_monotone(n as nat, 32);
            lemma_fundamental_div_mod_converse(
                be_value(v@) as int,
                two_256() as int,
                0,
                be_value(v@) as int,
            );
        }
    } else {
        let start = n - 32;
        let mut i: usize = 0;
        while i < 32
            invariant
                n == v.len(),
                n > 32,
                start == n - 32,
                i <= 32,
                r@ =~= v@.subrange(start as int, start + i) + Seq::new(
                    (32 - i) as nat,
                    |_j: int| 0u8,
                ),
            decreases 32 - i,
        {
            r[i] = v[start + i];
            i = i + 1;
            assert(r@ =~= v@.subrange(start as int, start + i) + Seq::new(
                (32 - i) as nat,
                |_j: int| 0u8,
            ));
        }
        proof {
            assert(r@ =~= v@.subrange(v.len() - 32, v.len() as int));
            lemma_be_suffix(v@, 32);
        }
    }
    r
}

} // verus!
