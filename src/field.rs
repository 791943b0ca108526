//! Base-field elements of BLS12-381, held as 48 big-endian bytes.
use ark_bls12_381::Fq;
use ark_ff::{BigInteger, PrimeField};
use ark_serialize::CanonicalDeserialize;
use vstd::prelude::*;

verus! {

/// Width in bytes of one base-field element.
pub const FQ_BYTES: usize = 48;

/// The integer that a big-endian byte string denotes.
pub open spec fn be_value(s: Seq<u8>) -> nat
    decreases s.len(),
{
    if s.len() == 0 {
        0
    } else {
        be_value(s.drop_last()) * 256 + s.last() as nat
    }
}

/// The characteristic q of the base field.
pub open spec fn fq_modulus() -> nat {
    let b: nat = 0x1_0000_0000 * 0x1_0000_0000;
    0xb9feffffffffaaab + b * (0x1eabfffeb153ffff + b * (0x6730d2a0f6b0f624 + b * (
    0x64774b84f38512bf + b * (0x4b1ba7b6434bacd7 + b * 0x1a0111ea397fe69a))))
}

/// A canonical base-field element: 48 bytes whose value is below q.
pub open spec fn is_fq(s: Seq<u8>) -> bool {
    s.len() == 48 && be_value(s) < fq_modulus()
}

/// `y` is the larger of `y` and `-y`, as integers below q.
pub open spec fn fq_largest(s: Seq<u8>) -> bool {
    2 * be_value(s) > fq_modulus()
}

/// The product of two field elements' values, reduced.
pub open spec fn fq_mul_value(a: Seq<u8>, b: Seq<u8>) -> nat {
    (be_value(a) * be_value(b)) % fq_modulus()
}

/// Relies on ark_ff's `CanonicalDeserialize` for `Fp`, which reads a little-endian
/// integer and accepts it exactly when it is below the modulus.
#[verifier::external_body]
pub(crate) fn fq_is_canonical(b: &[u8]) -> (r: bool)
    requires
        b@.len() == 48,
    ensures
        r == (be_value(b@) < fq_modulus()),
{
    let mut le = b.to_vec();
    le.reverse();
    Fq::deserialize_uncompressed(&le[..]).is_ok()
}

/// Relies on ark_ff's `Ord` and `Neg` for `Fp`: `y > -y` compares the canonical
/// integers, and `-y` is `q - y` (or `0` for `y = 0`).
#[verifier::external_body]
pub(crate) fn fq_is_largest(y: &[u8]) -> (r: bool)
    requires
        is_fq(y@),
    ensures
        r == fq_largest(y@),
{
    let f = Fq::from_be_bytes_mod_order(y);
    f > -f
}

/// Relies on ark_ff's `Neg` for `Fp`: the additive inverse, written back as 48
/// big-endian bytes by `BigInteger::to_bytes_be`.
#[verifier::external_body]
pub(crate) fn fq_neg(y: &[u8]) -> (r: Vec<u8>)
    requires
        is_fq(y@),
    ensures
        is_fq(r@),
        (be_value(r@) + be_value(y@)) % fq_modulus() == 0,
{
    (-Fq::from_be_bytes_mod_order(y)).into_bigint().to_bytes_be()
}

/// Relies on ark_ff's `Mul` for `Fp`: the product modulo q, written back as 48
/// big-endian bytes by `BigInteger::to_bytes_be`.
#[verifier::external_body]
pub(crate) fn fq_mul(a: &[u8], b: &[u8]) -> (r: Vec<u8>)
    requires
        is_fq(a@),
        is_fq(b@),
    ensures
        is_fq(r@),
        be_value(r@) == fq_mul_value(a@, b@),
{
    (Fq::from_be_bytes_mod_order(a) * Fq::from_be_bytes_mod_order(b)).into_bigint().to_bytes_be()
}

} // verus!

verus! {

/// `n` zero bytes.
pub open spec fn zeros(n: nat) -> Seq<u8> {
    Seq::new(n, |i: int| 0u8)
}

/// 256 to the power `n`.
pub open spec fn pow256(n: nat) -> nat
    decreases n,
{
    if n == 0 {
        1
    } else {
        256 * pow256((n - 1) as nat)
    }
}

/// The leading byte weighs at least its share of a big-endian value.
pub proof fn lemma_be_lower(s: Seq<u8>)
    requires
        s.len() >= 1,
    ensures
        be_value(s) >= s[0] as nat * pow256((s.len() - 1) as nat),
    decreases s.len(),
{
    if s.len() > 1 {
        let t = s.drop_last();
        lemma_be_lower(t);
        assert(t[0] == s[0]);
        let a = be_value(t);
        let p = pow256((t.len() - 1) as nat);
        assert(pow256((s.len() - 1) as nat) == 256 * p);
        assert(a * 256 >= (s[0] as nat * p) * 256) by (nonlinear_arith)
            requires
                a >= s[0] as nat * p,
        ;
        assert((s[0] as nat * p) * 256 == s[0] as nat * (256 * p)) by (nonlinear_arith);
        assert(be_value(s) == a * 256 + s.last() as nat);
        assert(be_value(s) >= (s[0] as nat * p) * 256);
        assert(s[0] as nat * (256 * p) == s[0] as nat * pow256((s.len() - 1) as nat));
        assert(be_value(s) >= s[0] as nat * pow256((s.len() - 1) as nat));
    } else {
        assert(s.drop_last().len() == 0);
        assert(be_value(s.drop_last()) == 0);
        assert(s.last() == s[0]);
        assert(pow256(0) == 1);
        assert(be_value(s) == be_value(s.drop_last()) * 256 + s.last() as nat);
        assert(be_value(s) == s[0] as nat);
    }
}

/// q is below 2^381, the weight of bit 5 of a 48-byte string's first byte.
pub proof fn lemma_modulus_below_top_bits()
    ensures
        0 < pow256(47) < 26 * pow256(47) <= fq_modulus() <= 32 * pow256(47),
{
    reveal_with_fuel(pow256, 9);
    let b: nat = 0x1_0000_0000 * 0x1_0000_0000;
    assert(pow256(8) == b);
    lemma_pow256_add(8, 8);
    lemma_pow256_add(16, 16);
    lemma_pow256_add(32, 8);
    lemma_pow256_add(40, 7);
    assert(pow256(7) == 0x100_0000_0000_0000);
    assert(pow256(16) == b * b);
    assert(pow256(32) == (b * b) * (b * b));
    assert(pow256(40) == ((b * b) * (b * b)) * b);
    assert(pow256(47) == (((b * b) * (b * b)) * b) * 0x100_0000_0000_0000);
    let w = pow256(47);
    let q = fq_modulus();
    assert(0 < w < 26 * w <= q <= 32 * w) by (nonlinear_arith)
        requires
            b == 0x1_0000_0000 * 0x1_0000_0000,
            w == (((b * b) * (b * b)) * b) * 0x100_0000_0000_0000,
            q == 0xb9feffffffffaaab + b * (0x1eabfffeb153ffff + b * (0x6730d2a0f6b0f624 + b * (
            0x64774b84f38512bf + b * (0x4b1ba7b6434bacd7 + b * 0x1a0111ea397fe69a)))),
    ;
}

/// Powers of 256 multiply by adding exponents.
pub proof fn lemma_pow256_add(m: nat, n: nat)
    ensures
        pow256(m + n) == pow256(m) * pow256(n),
    decreases m,
{
    if m > 0 {
        lemma_pow256_add((m - 1) as nat, n);
        assert(pow256(m + n) == 256 * pow256((m - 1 + n) as nat));
        assert(256 * (pow256((m - 1) as nat) * pow256(n)) == (256 * pow256((m - 1) as nat))
            * pow256(n)) by (nonlinear_arith);
        assert(pow256(m) == 256 * pow256((m - 1) as nat));
        assert(pow256((m - 1 + n) as nat) == pow256((m - 1) as nat) * pow256(n));
    } else {
        assert(pow256(0) == 1);
        assert(m + n == n);
    }
}

/// A big-endian value stays below the next step of its leading byte.
pub proof fn lemma_be_upper(s: Seq<u8>)
    requires
        s.len() >= 1,
    ensures
        be_value(s) < (s[0] as nat + 1) * pow256((s.len() - 1) as nat),
    decreases s.len(),
{
    if s.len() > 1 {
        let t = s.drop_last();
        lemma_be_upper(t);
        assert(t[0] == s[0]);
        let a = be_value(t);
        let p = pow256((t.len() - 1) as nat);
        let c = s[0] as nat + 1;
        assert(pow256((s.len() - 1) as nat) == 256 * p);
        assert(be_value(s) == a * 256 + s.last() as nat);
        assert(a * 256 + 255 < c * (256 * p)) by (nonlinear_arith)
            requires
                a < c * p,
        ;
    } else {
        assert(be_value(s.drop_last()) == 0);
        assert(be_value(s) == be_value(s.drop_last()) * 256 + s.last() as nat);
        assert(pow256(0) == 1);
    }
}

/// 48 bytes whose first byte is below q's (`0x1a`) are a canonical element.
pub proof fn lemma_leading_zero_canonical(s: Seq<u8>)
    requires
        s.len() == 48,
        s[0] < 26,
    ensures
        is_fq(s),
{
    lemma_be_upper(s);
    lemma_modulus_below_top_bits();
    assert((s[0] as nat + 1) * pow256(47) <= 26 * pow256(47)) by (nonlinear_arith)
        requires
            s[0] < 26,
    ;
}

/// Two values below `q` whose sum is a multiple of `q` add up to `0` or `q`.
pub proof fn lemma_mod_sum_zero(u: int, v: int, q: int)
    requires
        q > 0,
        0 <= u < q,
        0 <= v < q,
        (u + v) % q == 0,
    ensures
        u + v == 0 || u + v == q,
{
    let k = (u + v) / q;
    vstd::arithmetic::div_mod::lemma_fundamental_div_mod(u + v, q);
    assert(0 <= k < 2) by (nonlinear_arith)
        requires
            u + v == q * k,
            0 <= u + v < 2 * q,
            q > 0,
    ;
    assert(u + v == 0 || u + v == q) by (nonlinear_arith)
        requires
            u + v == q * k,
            0 <= k < 2,
    ;
}

/// The additive inverse of a canonical element is unique.
pub proof fn lemma_neg_unique(u: Seq<u8>, w: Seq<u8>, v: Seq<u8>)
    requires
        is_fq(u),
        is_fq(w),
        is_fq(v),
        (be_value(u) + be_value(v)) % fq_modulus() == 0,
        (be_value(w) + be_value(v)) % fq_modulus() == 0,
    ensures
        u == w,
{
    lemma_mod_sum_zero(be_value(u) as int, be_value(v) as int, fq_modulus() as int);
    lemma_mod_sum_zero(be_value(w) as int, be_value(v) as int, fq_modulus() as int);
    lemma_be_injective(u, w);
}

/// A canonical element leaves the three top bits of its first byte clear.
pub proof fn lemma_fq_top_bits_clear(s: Seq<u8>)
    requires
        is_fq(s),
    ensures
        s[0] < 32,
{
    lemma_be_lower(s);
    lemma_modulus_below_top_bits();
    if s[0] >= 32 {
        assert(s[0] as nat * pow256(47) >= 32 * pow256(47)) by (nonlinear_arith)
            requires
                s[0] >= 32,
        ;
    }
}

/// Two byte strings of one length with one big-endian value are equal.
pub proof fn lemma_be_injective(s: Seq<u8>, t: Seq<u8>)
    requires
        s.len() == t.len(),
        be_value(s) == be_value(t),
    ensures
        s == t,
    decreases s.len(),
{
    if s.len() > 0 {
        let a = be_value(s.drop_last());
        let b = be_value(t.drop_last());
        let sl = s.last() as int;
        let tl = t.last() as int;
        assert(a * 256 + sl == b * 256 + tl);
        assert(a == b);
        lemma_be_injective(s.drop_last(), t.drop_last());
        assert(s =~= s.drop_last().push(s.last()));
        assert(t =~= t.drop_last().push(t.last()));
    } else {
        assert(s =~= t);
    }
}

/// The value of `n` zero bytes is zero.
pub proof fn lemma_be_zeros(n: nat)
    ensures
        be_value(zeros(n)) == 0,
    decreases n,
{
    if n > 0 {
        assert(zeros(n).drop_last() =~= zeros((n - 1) as nat));
        lemma_be_zeros((n - 1) as nat);
    }
}

/// The canonical zero element.
pub fn fq_zero() -> (r: Vec<u8>)
    ensures
        r@ == zeros(48),
        is_fq(r@),
{
    let mut r: Vec<u8> = Vec::new();
    let mut i: usize = 0;
    while i < FQ_BYTES
        invariant
            i <= 48,
            r@ == zeros(i as nat),
        decreases 48 - i,
    {
        r.push(0u8);
        i = i + 1;
        assert(r@ =~= zeros(i as nat));
    }
    proof {
        lemma_be_zeros(48);
        lemma_modulus_below_top_bits();
    }
    r
}

/// The bytes `src[start..end]` as a new vector.
pub fn copy_range(src: &[u8], start: usize, end: usize) -> (r: Vec<u8>)
    requires
        start <= end <= src@.len(),
    ensures
        r@ == src@.subrange(start as int, end as int),
{
    let mut r: Vec<u8> = Vec::new();
    let mut i: usize = start;
    while i < end
        invariant
            start <= i <= end,
            end <= src@.len(),
            r@ == src@.subrange(start as int, i as int),
        decreases end - i,
    {
        r.push(src[i]);
        i = i + 1;
        assert(r@ =~= src@.subrange(start as int, i as int));
    }
    r
}

/// Appends the bytes of `src` to `dst`.
pub fn extend_bytes(dst: &mut Vec<u8>, src: &[u8])
    ensures
        final(dst)@ == old(dst)@ + src@,
{
    let mut i: usize = 0;
    while i < src.len()
        invariant
            i <= src@.len(),
            dst@ == old(dst)@ + src@.subrange(0, i as int),
        decreases src@.len() - i,
    {
        dst.push(src[i]);
        i = i + 1;
        assert(dst@ =~= old(dst)@ + src@.subrange(0, i as int));
    }
    assert(src@.subrange(0, src@.len() as int) =~= src@);
}

/// Whether two byte strings are equal.
pub fn bytes_eq(a: &[u8], b: &[u8]) -> (r: bool)
    ensures
        r == (a@ == b@),
{
    if a.len() != b.len() {
        return false;
    }
    let mut i: usize = 0;
    while i < a.len()
        invariant
            i <= a@.len(),
            a@.len() == b@.len(),
            forall|j: int| 0 <= j < i ==> a@[j] == b@[j],
        decreases a@.len() - i,
    {
        if a[i] != b[i] {
            return false;
        }
        i = i + 1;
    }
    assert(a@ =~= b@);
    true
}

} // verus!

verus! {

/// Every byte from `start` on is zero.
pub open spec fn zero_from(b: Seq<u8>, start: int) -> bool {
    forall|i: int| start <= i < b.len() ==> b[i] == 0
}

/// Whether every byte of `b` from `start` on is zero.
pub fn is_zero_from(b: &[u8], start: usize) -> (r: bool)
    ensures
        r == zero_from(b@, start as int),
{
    let mut i: usize = start;
    while i < b.len()
        invariant
            start <= i,
            forall|j: int| start <= j < i && j < b@.len() ==> b@[j] == 0,
        decreases b@.len() - i,
    {
        if b[i] != 0 {
            return false;
        }
        i = i + 1;
    }
    true
}

} // verus!
