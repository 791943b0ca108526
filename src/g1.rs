//! Points of G1, the curve `y^2 = x^3 + 4` over the base field: canonical
//! encoding and decoding, the subgroup check and cofactor clearing.
use crate::engine::{self, bytes_list, g1_list_decoded, g1_msm_of, msm_operands_valid};
use crate::error::Error;
use crate::pairing::{encode_g1_list, g1_all_wf};
use crate::field::{
    be_value, bytes_eq, copy_range, extend_bytes, fq_is_canonical, fq_is_largest, fq_largest,
    fq_modulus, fq_mul, fq_mul_value, fq_neg, fq_zero, is_fq, is_zero_from, zero_from, lemma_be_injective,
    lemma_fq_top_bits_clear, lemma_leading_zero_canonical, lemma_neg_unique, zeros, FQ_BYTES,
};
use crate::flags::{bit_set, flag_bits, lemma_flags_round_trip, EncodingFlags};
use ark_bls12_381::{Fq, G1Affine};
use ark_ec::{AffineRepr, CurveGroup};
use ark_ff::{BigInteger, PrimeField};
use vstd::prelude::*;

verus! {

/// Bytes of a compressed G1 point; an uncompressed one takes twice as many.
pub const G1_SERIALIZED_SIZE: usize = 48;

/// The absolute value of the curve family's parameter `x`.
pub const X: u64 = 0xd201000000010000;

/// The parameter `x` is negative.
pub const X_IS_NEGATIVE: bool = true;

/// An affine point of G1: its coordinates as canonical base-field elements, and
/// whether it is the point at infinity (whose coordinates carry no meaning).
#[derive(Debug)]
pub struct G1Point {
    pub x: Vec<u8>,
    pub y: Vec<u8>,
    pub infinity: bool,
}

/// The mathematical content of a G1 point: `(x, y, infinity)`.
pub type G1View = (Seq<u8>, Seq<u8>, bool);

impl View for G1Point {
    type V = G1View;

    open spec fn view(&self) -> G1View {
        (self.x@, self.y@, self.infinity)
    }
}

/// Both coordinates are canonical base-field elements.
pub open spec fn g1_wf(p: G1View) -> bool {
    is_fq(p.0) && is_fq(p.1)
}

/// The point at infinity in its canonical form.
pub open spec fn g1_identity() -> G1View {
    (zeros(48), zeros(48), true)
}

/// A finite point `(x, y)` satisfies `y^2 = x^3 + 4` modulo q.
pub open spec fn g1_on_curve_xy(x: Seq<u8>, y: Seq<u8>) -> bool {
    (be_value(y) * be_value(y)) % fq_modulus() == (be_value(x) * be_value(x) * be_value(x) + 4)
        % fq_modulus()
}

/// The point is at infinity or satisfies the curve equation.
pub open spec fn g1_on_curve(p: G1View) -> bool {
    p.2 || g1_on_curve_xy(p.0, p.1)
}

/// `y` is the root of the curve equation at `x` that the sign flag `greatest`
/// selects (a zero root is the only one and goes with either flag).
pub open spec fn g1_root(x: Seq<u8>, y: Seq<u8>, greatest: bool) -> bool {
    is_fq(y) && g1_on_curve_xy(x, y) && (fq_largest(y) == greatest || be_value(y) == 0)
}

/// The `y` that decompression finds for `x` and a sign flag, if any.
pub open spec fn g1_y_for(x: Seq<u8>, greatest: bool) -> Option<Seq<u8>> {
    if exists|y: Seq<u8>| g1_root(x, y, greatest) {
        Some(choose|y: Seq<u8>| g1_root(x, y, greatest))
    } else {
        None
    }
}

/// Equality of points as group elements: all points at infinity are equal.
pub open spec fn g1_eq(a: G1View, b: G1View) -> bool {
    (a.2 && b.2) || (!a.2 && !b.2 && a.0 == b.0 && a.1 == b.1)
}

/// The flags that encode a point.
pub open spec fn g1_flags(p: G1View, compress: bool) -> EncodingFlags {
    EncodingFlags {
        is_compressed: compress,
        is_infinity: p.2,
        is_lexographically_largest: fq_largest(p.1),
    }
}

/// The canonical encoding: `x` (then `y` when uncompressed), zero for the point
/// at infinity, with the flag bits in the first byte.
pub open spec fn g1_encoding(p: G1View, compress: bool) -> Seq<u8> {
    let x = if p.2 { zeros(48) } else { p.0 };
    let y = if p.2 { zeros(48) } else { p.1 };
    let body = if compress { x } else { x + y };
    body.update(0, body[0] | flag_bits(g1_flags(p, compress)))
}

/// The `x` coordinate of an encoding, with the flag bits masked away.
pub open spec fn g1_masked_x(b: Seq<u8>) -> Seq<u8> {
    b.subrange(0, 48).update(0, b[0] & 0x1f)
}

/// What decoding `b` gives, before any subgroup check.
pub open spec fn g1_decoding(b: Seq<u8>, compress: bool) -> Result<G1View, Error> {
    if b.len() != (if compress { 48int } else { 96int }) {
        Err(Error::MalformedEncoding)
    } else if bit_set(b[0], 7) != compress {
        Err(Error::MalformedEncoding)
    } else if !compress && bit_set(b[0], 5) {
        Err(Error::MalformedEncoding)
    } else if bit_set(b[0], 6) {
        if b[0] & 0x3f == 0 && zero_from(b, 1) {
            Ok(g1_identity())
        } else {
            Err(Error::MalformedEncoding)
        }
    } else if !is_fq(g1_masked_x(b)) {
        Err(Error::MalformedEncoding)
    } else if compress {
        match g1_y_for(g1_masked_x(b), bit_set(b[0], 5)) {
            Some(y) => Ok((g1_masked_x(b), y, false)),
            None => Err(Error::NotOnCurve),
        }
    } else if !is_fq(b.subrange(48, 96)) {
        Err(Error::MalformedEncoding)
    } else if !g1_on_curve_xy(g1_masked_x(b), b.subrange(48, 96)) {
        Err(Error::NotOnCurve)
    } else {
        Ok((g1_masked_x(b), b.subrange(48, 96), false))
    }
}

/// What decoding `b` gives, with the subgroup check when `validate` is set.
pub open spec fn g1_deserialization(b: Seq<u8>, compress: bool, validate: bool) -> Result<
    G1View,
    Error,
> {
    match g1_decoding(b, compress) {
        Ok(p) => if validate && !g1_in_subgroup(p) {
            Err(Error::NotInSubgroup)
        } else {
            Ok(p)
        },
        Err(e) => Err(e),
    }
}

/// `[k]p`, as the curve library computes it.
pub uninterp spec fn g1_mul_of(p: G1View, k: u64) -> G1View;

/// The base-field element `beta`, a non-trivial cube root of unity.
pub open spec fn beta_bytes() -> Seq<u8> {
    seq![
        0u8, 0, 0, 0, 0, 0, 0, 0, 95, 25, 103, 47, 223, 118, 206, 81, 186, 105, 198, 7, 106, 15,
        119, 234, 221, 179, 169, 59, 230, 248, 150, 136, 222, 23, 216, 19, 98, 10, 0, 2, 46, 1,
        255, 255, 255, 254, 255, 254,
    ]
}

/// `-a == endomorphism(p)`, where `-(x, y) = (x, -y)` and
/// `endomorphism(x, y) = (beta * x, y)`.
pub open spec fn g1_neg_eq_endo(a: G1View, p: G1View) -> bool {
    (a.2 && p.2) || (!a.2 && !p.2 && be_value(a.0) == fq_mul_value(p.0, beta_bytes()) && (
    be_value(a.1) + be_value(p.1)) % fq_modulus() == 0)
}

/// The subgroup test on an on-curve point: `[x]p != p` unless `p` is at
/// infinity, and `-[x^2]p` equals the endomorphism of `p`.
pub open spec fn g1_in_subgroup(p: G1View) -> bool {
    let xp = g1_mul_of(p, X);
    !(g1_eq(xp, p) && !p.2) && g1_neg_eq_endo(g1_mul_of(xp, X), p)
}

/// Relies on ark_ec's `Affine::get_point_from_x_unchecked` for BLS12-381's G1:
/// it returns the root of `x^3 + 4` that the flag asks for (the larger of `y`
/// and `-y` when `greatest`, else the smaller), or `None` when there is none.
#[verifier::external_body]
fn g1_y_from_x(x: &[u8], greatest: bool) -> (r: Option<Vec<u8>>)
    requires
        is_fq(x@),
    ensures
        match r {
            Some(y) => g1_y_for(x@, greatest) == Some(y@),
            None => g1_y_for(x@, greatest) is None,
        },
{
    G1Affine::get_point_from_x_unchecked(Fq::from_be_bytes_mod_order(x), greatest)
        .map(|p| p.y.into_bigint().to_bytes_be())
}

/// Relies on ark_ec's `Affine::is_on_curve` for BLS12-381's G1: for a finite
/// point it tests `y^2 == x^3 + 4` in the base field.
#[verifier::external_body]
fn g1_is_on_curve(x: &[u8], y: &[u8]) -> (r: bool)
    requires
        is_fq(x@),
        is_fq(y@),
    ensures
        r == g1_on_curve_xy(x@, y@),
{
    G1Affine::new_unchecked(Fq::from_be_bytes_mod_order(x), Fq::from_be_bytes_mod_order(y)).is_on_curve()
}

/// Relies on ark_ec's `AffineRepr::mul_bigint` and `CurveGroup::into_affine`:
/// the multiple `[k]p` in normalised affine form (the point at infinity with
/// zero coordinates), written back as big-endian bytes.
#[verifier::external_body]
fn g1_mul_bigint(p: &G1Point, k: u64) -> (r: G1Point)
    requires
        g1_wf(p@),
    ensures
        r@ == g1_mul_of(p@, k),
        g1_wf(r@),
        r.infinity ==> r@ == g1_identity(),
        p.infinity ==> r.infinity,
{
    let a = G1Affine {
        x: Fq::from_be_bytes_mod_order(&p.x),
        y: Fq::from_be_bytes_mod_order(&p.y),
        infinity: p.infinity,
    };
    let m = a.mul_bigint([k]).into_affine();
    G1Point {
        x: m.x.into_bigint().to_bytes_be(),
        y: m.y.into_bigint().to_bytes_be(),
        infinity: m.infinity,
    }
}



/// Reads a coordinate at `offset`, masking the flag bits away when `mask`.
pub(crate) fn read_fq_with_offset(bytes: &[u8], offset: usize, mask: bool) -> (r: Result<Vec<u8>, Error>)
    requires
        bytes@.len() >= 48 * (offset + 1),
    ensures
        ({
            let raw = bytes@.subrange(48 * offset, 48 * (offset + 1));
            let c = if mask {
                raw.update(0, raw[0] & 0x1f)
            } else {
                raw
            };
            match r {
                Ok(v) => v@ == c && is_fq(c),
                Err(e) => e == Error::MalformedEncoding && !is_fq(c),
            }
        }),
{
    assert(48 * (offset + 1) <= bytes.len());
    let mut tmp = copy_range(bytes, offset * FQ_BYTES, FQ_BYTES * (offset + 1));
    if mask {
        let b0 = tmp[0] & 0x1fu8;
        tmp.set(0, b0);
    }
    if fq_is_canonical(&tmp) {
        Ok(tmp)
    } else {
        Err(Error::MalformedEncoding)
    }
}

/// Decodes a compressed point: the `x` coordinate and a sign flag.
fn read_g1_compressed(bytes: &[u8]) -> (r: Result<G1Point, Error>)
    ensures
        match r {
            Ok(p) => g1_decoding(bytes@, true) == Ok::<G1View, Error>(p@) && g1_wf(p@),
            Err(e) => g1_decoding(bytes@, true) == Err::<G1View, Error>(e),
        },
{
    if bytes.len() != G1_SERIALIZED_SIZE {
        return Err(Error::MalformedEncoding);
    }
    let flags = EncodingFlags::get_flags(bytes);
    if !flags.is_compressed {
        return Err(Error::MalformedEncoding);
    }
    if flags.is_infinity {
        if bytes[0] & 0x3fu8 != 0 || !is_zero_from(bytes, 1) {
            return Err(Error::MalformedEncoding);
        }
        return Ok(G1Point { x: fq_zero(), y: fq_zero(), infinity: true });
    }
    let x = read_fq_with_offset(bytes, 0, true)?;
    match g1_y_from_x(&x, flags.is_lexographically_largest) {
        Some(y) => {
            proof {
                assert(g1_root(x@, choose|y: Seq<u8>| g1_root(x@, y, bit_set(bytes@[0], 5)),
                    bit_set(bytes@[0], 5)));
            }
            Ok(G1Point { x, y, infinity: false })
        },
        None => Err(Error::NotOnCurve),
    }
}

/// Decodes an uncompressed point: both coordinates.
fn read_g1_uncompressed(bytes: &[u8]) -> (r: Result<G1Point, Error>)
    ensures
        match r {
            Ok(p) => g1_decoding(bytes@, false) == Ok::<G1View, Error>(p@) && g1_wf(p@),
            Err(e) => g1_decoding(bytes@, false) == Err::<G1View, Error>(e),
        },
{
    if bytes.len() != 2 * G1_SERIALIZED_SIZE {
        return Err(Error::MalformedEncoding);
    }
    let flags = EncodingFlags::get_flags(bytes);
    if flags.is_compressed || flags.is_lexographically_largest {
        return Err(Error::MalformedEncoding);
    }
    if flags.is_infinity {
        if bytes[0] & 0x3fu8 != 0 || !is_zero_from(bytes, 1) {
            return Err(Error::MalformedEncoding);
        }
        return Ok(G1Point { x: fq_zero(), y: fq_zero(), infinity: true });
    }
    let x = read_fq_with_offset(bytes, 0, true)?;
    let y = read_fq_with_offset(bytes, 1, false)?;
    if !g1_is_on_curve(&x, &y) {
        return Err(Error::NotOnCurve);
    }
    Ok(G1Point { x, y, infinity: false })
}


/// Whether two points are equal as group elements.
pub fn points_eq(a: &G1Point, b: &G1Point) -> (r: bool)
    ensures
        r == g1_eq(a@, b@),
{
    if a.infinity || b.infinity {
        a.infinity && b.infinity
    } else {
        bytes_eq(&a.x, &b.x) && bytes_eq(&a.y, &b.y)
    }
}

/// The negation `(x, -y)`; the point at infinity is its own negation.
pub fn neg(p: &G1Point) -> (r: G1Point)
    requires
        g1_wf(p@),
    ensures
        g1_wf(r@),
        r.x@ == p.x@,
        r.infinity == p.infinity,
        p.infinity ==> r.y@ == p.y@,
        !p.infinity ==> (be_value(r.y@) + be_value(p.y@)) % fq_modulus() == 0,
{
    let y = if p.infinity {
        copy_range(&p.y, 0, FQ_BYTES)
    } else {
        fq_neg(&p.y)
    };
    assert(p.x@.subrange(0, 48) =~= p.x@);
    assert(p.y@.subrange(0, 48) =~= p.y@);
    G1Point { x: copy_range(&p.x, 0, FQ_BYTES), y, infinity: p.infinity }
}

/// The `x` coordinate of the standard generator of G1.
pub open spec fn generator_x_bytes() -> Seq<u8> {
    seq![
        23u8, 241, 211, 167, 49, 151, 215, 148, 38, 149, 99, 140, 79, 169, 172, 15, 195, 104, 140,
        79, 151, 116, 185, 5, 161, 78, 58, 63, 23, 27, 172, 88, 108, 85, 232, 63, 249, 122, 26,
        239, 251, 58, 240, 10, 219, 34, 198, 187,
    ]
}

/// The `y` coordinate of the standard generator of G1.
pub open spec fn generator_y_bytes() -> Seq<u8> {
    seq![
        8u8, 179, 244, 129, 227, 170, 160, 241, 160, 158, 48, 237, 116, 29, 138, 228, 252, 245,
        224, 149, 213, 208, 10, 246, 0, 219, 24, 203, 44, 4, 179, 237, 208, 60, 199, 68, 162, 136,
        138, 228, 12, 170, 35, 41, 70, 197, 231, 225,
    ]
}

/// The `x` coordinate of the standard generator of G1, as bytes.
pub fn generator_x() -> (r: Vec<u8>)
    ensures
        r@ == generator_x_bytes(),
        is_fq(r@),
{
    let r: Vec<u8> = vec![
        23u8, 241, 211, 167, 49, 151, 215, 148, 38, 149, 99, 140, 79, 169, 172, 15, 195, 104, 140,
        79, 151, 116, 185, 5, 161, 78, 58, 63, 23, 27, 172, 88, 108, 85, 232, 63, 249, 122, 26,
        239, 251, 58, 240, 10, 219, 34, 198, 187,
    ];
    assert(r@ =~= generator_x_bytes());
    proof {
        lemma_leading_zero_canonical(r@);
    }
    r
}

/// The `y` coordinate of the standard generator of G1, as bytes.
pub fn generator_y() -> (r: Vec<u8>)
    ensures
        r@ == generator_y_bytes(),
        is_fq(r@),
{
    let r: Vec<u8> = vec![
        8u8, 179, 244, 129, 227, 170, 160, 241, 160, 158, 48, 237, 116, 29, 138, 228, 252, 245,
        224, 149, 213, 208, 10, 246, 0, 219, 24, 203, 44, 4, 179, 237, 208, 60, 199, 68, 162, 136,
        138, 228, 12, 170, 35, 41, 70, 197, 231, 225,
    ];
    assert(r@ =~= generator_y_bytes());
    proof {
        lemma_leading_zero_canonical(r@);
    }
    r
}

/// The standard generator of G1.
pub fn generator() -> (r: G1Point)
    ensures
        r@ == (generator_x_bytes(), generator_y_bytes(), false),
        g1_wf(r@),
{
    G1Point { x: generator_x(), y: generator_y(), infinity: false }
}

/// The constant `beta`, a non-trivial cube root of unity, as bytes.
pub fn beta() -> (r: Vec<u8>)
    ensures
        r@ == beta_bytes(),
        is_fq(r@),
{
    let r: Vec<u8> = vec![
        0u8, 0, 0, 0, 0, 0, 0, 0, 95, 25, 103, 47, 223, 118, 206, 81, 186, 105, 198, 7, 106, 15,
        119, 234, 221, 179, 169, 59, 230, 248, 150, 136, 222, 23, 216, 19, 98, 10, 0, 2, 46, 1,
        255, 255, 255, 254, 255, 254,
    ];
    assert(r@ =~= beta_bytes());
    proof {
        lemma_beta_canonical();
    }
    r
}

/// `beta` is a canonical base-field element.
proof fn lemma_beta_canonical()
    ensures
        is_fq(beta_bytes()),
{
    lemma_leading_zero_canonical(beta_bytes());
}

/// The endomorphism `(x, y) -> (beta * x, y)` of G1.
pub fn endomorphism(p: &G1Point) -> (r: G1Point)
    requires
        g1_wf(p@),
    ensures
        g1_wf(r@),
        be_value(r.x@) == fq_mul_value(p.x@, beta_bytes()),
        r.y@ == p.y@,
        r.infinity == p.infinity,
{
    let b = beta();
    let x = fq_mul(&p.x, &b);
    assert(p.y@.subrange(0, 48) =~= p.y@);
    G1Point { x, y: copy_range(&p.y, 0, FQ_BYTES), infinity: p.infinity }
}


/// `1 - x`, the effective cofactor of G1, as an integer.
pub open spec fn h_eff() -> int {
    1 - (if X_IS_NEGATIVE { -(X as int) } else { X as int })
}

/// The effective cofactor `1 - x`: since `x` is negative this is `|x| + 1`.
pub fn one_minus_x() -> (r: u64)
    ensures
        r as int == h_eff(),
{
    X + 1
}



/// The compressed encodings of a list of points.
pub open spec fn g1_compressed_list(a: Seq<G1Point>) -> Seq<Seq<u8>> {
    Seq::new(a.len(), |i: int| g1_encoding(a[i]@, true))
}

/// The G1 curve of BLS12-381 with its encoding and subgroup rules.
pub struct Parameters;

impl Parameters {
    /// The number of bytes of an encoding.
    pub fn serialized_size(compress: bool) -> (r: usize)
        ensures
            r == (if compress { 48usize } else { 96usize }),
    {
        if compress {
            G1_SERIALIZED_SIZE
        } else {
            G1_SERIALIZED_SIZE * 2
        }
    }

    /// Encodes a point canonically, compressed or not.
    pub fn serialize_with_mode(item: &G1Point, compress: bool) -> (r: Vec<u8>)
        requires
            g1_wf(item@),
        ensures
            r@ == g1_encoding(item@, compress),
            r@.len() == (if compress { 48int } else { 96int }),
    {
        let encoding = EncodingFlags {
            is_compressed: compress,
            is_infinity: item.infinity,
            is_lexographically_largest: fq_is_largest(&item.y),
        };
        let x_bytes = if encoding.is_infinity {
            fq_zero()
        } else {
            copy_range(&item.x, 0, FQ_BYTES)
        };
        let mut bytes = x_bytes;
        if !compress {
            let y_bytes = if encoding.is_infinity {
                fq_zero()
            } else {
                copy_range(&item.y, 0, FQ_BYTES)
            };
            extend_bytes(&mut bytes, &y_bytes);
        }
        assert(item.x@.subrange(0, 48) =~= item.x@);
        assert(item.y@.subrange(0, 48) =~= item.y@);
        encoding.encode_flags(&mut bytes);
        bytes
    }

    /// Decodes a point, compressed or not; with `validate`, a point outside the
    /// prime-order subgroup is refused.
    pub fn deserialize_with_mode(bytes: &[u8], compress: bool, validate: bool) -> (r: Result<
        G1Point,
        Error,
    >)
        ensures
            match r {
                Ok(p) => g1_deserialization(bytes@, compress, validate) == Ok::<G1View, Error>(p@)
                    && g1_wf(p@),
                Err(e) => g1_deserialization(bytes@, compress, validate) == Err::<G1View, Error>(e),
            },
    {
        let p = if compress {
            read_g1_compressed(bytes)?
        } else {
            read_g1_uncompressed(bytes)?
        };
        if validate && !Self::is_in_correct_subgroup_assuming_on_curve(&p) {
            return Err(Error::NotInSubgroup);
        }
        Ok(p)
    }

    /// Whether an on-curve point lies in the prime-order subgroup: checks that the
    /// endomorphism of `p` equals `-[x^2]p`, after the early refusal of a finite
    /// point with `[x]p == p`.
    pub fn is_in_correct_subgroup_assuming_on_curve(p: &G1Point) -> (r: bool)
        requires
            g1_wf(p@),
        ensures
            r == g1_in_subgroup(p@),
    {
        let x_times_p = g1_mul_bigint(p, X);
        if points_eq(&x_times_p, p) && !p.infinity {
            return false;
        }
        let x_squared_times_p = g1_mul_bigint(&x_times_p, X);
        let minus_x_squared_times_p = neg(&x_squared_times_p);
        let endomorphism_p = endomorphism(p);
        let r = points_eq(&minus_x_squared_times_p, &endomorphism_p);
        proof {
            let a = x_squared_times_p@;
            if !a.2 && !p.infinity {
                if r {
                    assert(be_value(a.0) == fq_mul_value(p.x@, beta_bytes()));
                    assert(be_value(minus_x_squared_times_p.y@) == be_value(p.y@));
                } else if g1_neg_eq_endo(a, p@) {
                    lemma_neg_unique(minus_x_squared_times_p.y@, p.y@, a.1);
                    lemma_be_injective(a.0, endomorphism_p.x@);
                }
            }
        }
        r
    }

    /// Maps an on-curve point into the prime-order subgroup by multiplying it by
    /// the effective cofactor `1 - x` rather than the full cofactor `(x - 1)^2 / 3`.
    pub fn clear_cofactor(p: &G1Point) -> (r: G1Point)
        requires
            g1_wf(p@),
        ensures
            r@ == g1_mul_of(p@, h_eff() as u64),
            g1_wf(r@),
    {
        let h_eff = one_minus_x();
        g1_mul_bigint(p, h_eff)
    }

    /// `sum_i [bigints_i] bases_i`: the bases go compressed and the scalars (32
    /// bytes each, little-endian) as they are to the multi-scalar engine, whose
    /// compressed answer is decoded without the subgroup check.
    pub fn msm_bigint(bases: &Vec<G1Point>, bigints: Vec<Vec<u8>>) -> (r: Result<G1Point, Error>)
        requires
            g1_all_wf(bases@),
        ensures
            ({
                let enc = g1_compressed_list(bases@);
                let s = bytes_list(bigints@);
                let sum = g1_encoding(g1_msm_of(g1_list_decoded(enc), s), true);
                match r {
                    Ok(p) => msm_operands_valid(enc, s) && g1_decoding(sum, true) == Ok::<
                        G1View,
                        Error,
                    >(p@) && g1_wf(p@),
                    Err(e) => !msm_operands_valid(enc, s) || g1_decoding(sum, true) == Err::<
                        G1View,
                        Error,
                    >(e),
                }
            }),
    {
        let encoded = encode_g1_list(bases);
        assert(bytes_list(encoded@) =~= g1_compressed_list(bases@));
        let result = engine::msm_g1(encoded, bigints)?;
        Self::deserialize_with_mode(&result, true, false)
    }

    /// Multiplies by the curve coefficient `a`, which is zero for this curve.
    pub fn mul_by_a(_elem: &[u8]) -> (r: Vec<u8>)
        ensures
            r@ == zeros(48),
    {
        fq_zero()
    }
}

/// The point that an encoding stands for: the point at infinity in canonical form.
pub open spec fn g1_normalized(p: G1View) -> G1View {
    if p.2 {
        g1_identity()
    } else {
        p
    }
}

/// What the encoding of a point looks like in its first 48 bytes and flags.
proof fn lemma_g1_encoding_shape(p: G1View, compress: bool)
    requires
        g1_wf(p),
    ensures
        ({
            let e = g1_encoding(p, compress);
            let x = g1_normalized(p).0;
            &&& e.len() == (if compress { 48int } else { 96int })
            &&& bit_set(e[0], 7) == compress
            &&& bit_set(e[0], 6) == p.2
            &&& bit_set(e[0], 5) == (compress && !p.2 && fq_largest(p.1))
            &&& (p.2 ==> e[0] & 0x3f == 0 && zero_from(e, 1))
            &&& g1_masked_x(e) == x
            &&& is_fq(x)
            &&& !compress ==> e.subrange(48, 96) == g1_normalized(p).1
        }),
{
    let x = g1_normalized(p).0;
    let y = g1_normalized(p).1;
    if p.2 {
        assert(zeros(48)[0] == 0);
        lemma_leading_zero_canonical(zeros(48));
    }
    lemma_fq_top_bits_clear(x);
    let f = g1_flags(p, compress);
    lemma_flags_round_trip(x[0], f);
    let e = g1_encoding(p, compress);
    assert(g1_masked_x(e) =~= x);
    if p.2 {
        assert(x[0] == 0);
    }
    if !compress {
        assert(e.subrange(48, 96) =~= y);
    }
}

/// Encoding an on-curve point without compression and decoding it gives the
/// point back (the point at infinity in canonical form), and the subgroup
/// check, when asked for, decides the result.
pub proof fn lemma_g1_round_trip_uncompressed(p: G1View, validate: bool)
    requires
        g1_wf(p),
        g1_on_curve(p),
    ensures
        g1_decoding(g1_encoding(p, false), false) == Ok::<G1View, Error>(g1_normalized(p)),
        g1_deserialization(g1_encoding(p, false), false, validate) == (if validate
            && !g1_in_subgroup(g1_normalized(p)) {
            Err::<G1View, Error>(Error::NotInSubgroup)
        } else {
            Ok::<G1View, Error>(g1_normalized(p))
        }),
{
    lemma_g1_encoding_shape(p, false);
}

/// Encoding an on-curve point compressed and decoding it gives the point at
/// infinity back as such, and a finite point back as `(x, y2)` where `y2` is a
/// root of the curve equation at `x` with the sign flag of `y`.
pub proof fn lemma_g1_round_trip_compressed(p: G1View)
    requires
        g1_wf(p),
        g1_on_curve(p),
    ensures
        p.2 ==> g1_decoding(g1_encoding(p, true), true) == Ok::<G1View, Error>(g1_identity()),
        !p.2 ==> exists|y2: Seq<u8>|
            g1_decoding(g1_encoding(p, true), true) == Ok::<G1View, Error>((p.0, y2, false))
                && g1_root(p.0, y2, fq_largest(p.1)),
{
    lemma_g1_encoding_shape(p, true);
    if !p.2 {
        assert(g1_root(p.0, p.1, fq_largest(p.1)));
        let y2 = choose|y: Seq<u8>| g1_root(p.0, y, fq_largest(p.1));
        assert(g1_decoding(g1_encoding(p, true), true) == Ok::<G1View, Error>((p.0, y2, false)));
    }
}

} // verus!
