//! Points of G2, the twist `y^2 = x^3 + 4(1 + u)` over the quadratic extension
//! `Fq2 = Fq[u] / (u^2 + 1)`: canonical encoding and decoding.
use crate::error::Error;
use crate::field::{
    be_value, bytes_eq, copy_range, extend_bytes, fq_is_largest, fq_largest, fq_modulus,
    fq_zero, is_fq, is_zero_from, zero_from, lemma_be_injective, lemma_be_zeros, lemma_fq_top_bits_clear,
    lemma_leading_zero_canonical, zeros, FQ_BYTES,
};
use crate::flags::{bit_set, flag_bits, lemma_flags_round_trip, EncodingFlags};
use crate::g1::read_fq_with_offset;
use ark_bls12_381::{Fq, Fq2, G2Affine};
use ark_ec::AffineRepr;
use ark_ff::{BigInteger, PrimeField};
use vstd::prelude::*;

verus! {

/// Bytes of a compressed G2 point; an uncompressed one takes twice as many.
pub const G2_SERIALIZED_SIZE: usize = 96;

/// An affine point of G2. Each coordinate `c0 + c1 * u` is held as 96 bytes:
/// `c1` then `c0`, each a canonical base-field element.
#[derive(Debug)]
pub struct G2Point {
    pub x: Vec<u8>,
    pub y: Vec<u8>,
    pub infinity: bool,
}

/// The mathematical content of a G2 point: `(x, y, infinity)`.
pub type G2View = (Seq<u8>, Seq<u8>, bool);

impl View for G2Point {
    type V = G2View;

    open spec fn view(&self) -> G2View {
        (self.x@, self.y@, self.infinity)
    }
}

/// The `c1` part of an Fq2 element.
pub open spec fn c1(s: Seq<u8>) -> Seq<u8> {
    s.subrange(0, 48)
}

/// The `c0` part of an Fq2 element.
pub open spec fn c0(s: Seq<u8>) -> Seq<u8> {
    s.subrange(48, 96)
}

/// A canonical Fq2 element: 96 bytes, both parts canonical.
pub open spec fn is_fq2(s: Seq<u8>) -> bool {
    s.len() == 96 && is_fq(c1(s)) && is_fq(c0(s))
}

/// `y > -y` in the order of Fq2, which compares `c1` first and then `c0`.
pub open spec fn fq2_largest(s: Seq<u8>) -> bool {
    if be_value(c1(s)) == 0 {
        fq_largest(c0(s))
    } else {
        fq_largest(c1(s))
    }
}

/// Both coordinates are canonical Fq2 elements.
pub open spec fn g2_wf(p: G2View) -> bool {
    is_fq2(p.0) && is_fq2(p.1)
}

/// The point at infinity in its canonical form.
pub open spec fn g2_identity() -> G2View {
    (zeros(96), zeros(96), true)
}

/// A finite point `(x, y)` satisfies `y^2 = x^3 + 4(1 + u)`, written out on the
/// two parts with `u^2 = -1`.
pub open spec fn g2_on_curve_xy(x: Seq<u8>, y: Seq<u8>) -> bool {
    let q = fq_modulus() as int;
    let x0 = be_value(c0(x)) as int;
    let x1 = be_value(c1(x)) as int;
    let y0 = be_value(c0(y)) as int;
    let y1 = be_value(c1(y)) as int;
    &&& (y0 * y0 - y1 * y1) % q == (x0 * x0 * x0 - 3 * x0 * x1 * x1 + 4) % q
    &&& (2 * y0 * y1) % q == (3 * x0 * x0 * x1 - x1 * x1 * x1 + 4) % q
}

/// The point is at infinity or satisfies the curve equation.
pub open spec fn g2_on_curve(p: G2View) -> bool {
    p.2 || g2_on_curve_xy(p.0, p.1)
}

/// `y` is the root of the curve equation at `x` that the sign flag selects (a
/// zero root is the only one and goes with either flag).
pub open spec fn g2_root(x: Seq<u8>, y: Seq<u8>, greatest: bool) -> bool {
    is_fq2(y) && g2_on_curve_xy(x, y) && (fq2_largest(y) == greatest || y == zeros(96))
}

/// The `y` that decompression finds for `x` and a sign flag, if any.
pub open spec fn g2_y_for(x: Seq<u8>, greatest: bool) -> Option<Seq<u8>> {
    if exists|y: Seq<u8>| g2_root(x, y, greatest) {
        Some(choose|y: Seq<u8>| g2_root(x, y, greatest))
    } else {
        None
    }
}

/// The canonical encoding: `x` (then `y` when uncompressed), zero for the point
/// at infinity, with the flag bits in the first byte.
pub open spec fn g2_encoding(p: G2View, compress: bool) -> Seq<u8> {
    let x = if p.2 { zeros(96) } else { p.0 };
    let y = if p.2 { zeros(96) } else { p.1 };
    let body = if compress { x } else { x + y };
    let f = EncodingFlags {
        is_compressed: compress,
        is_infinity: p.2,
        is_lexographically_largest: fq2_largest(p.1),
    };
    body.update(0, body[0] | flag_bits(f))
}

/// The `x` coordinate of an encoding, with the flag bits masked away.
pub open spec fn g2_masked_x(b: Seq<u8>) -> Seq<u8> {
    b.subrange(0, 96).update(0, b[0] & 0x1f)
}

/// Membership of an on-curve point in G2's prime-order subgroup, as the curve
/// library decides it.
pub uninterp spec fn g2_in_subgroup_of(p: G2View) -> bool;

/// What decoding `b` gives, before any subgroup check.
pub open spec fn g2_decoding(b: Seq<u8>, compress: bool) -> Result<G2View, Error> {
    if b.len() != (if compress { 96int } else { 192int }) {
        Err(Error::MalformedEncoding)
    } else if bit_set(b[0], 7) != compress {
        Err(Error::MalformedEncoding)
    } else if !compress && bit_set(b[0], 5) {
        Err(Error::MalformedEncoding)
    } else if bit_set(b[0], 6) {
        if b[0] & 0x3f == 0 && zero_from(b, 1) {
            Ok(g2_identity())
        } else {
            Err(Error::MalformedEncoding)
        }
    } else if !is_fq2(g2_masked_x(b)) {
        Err(Error::MalformedEncoding)
    } else if compress {
        match g2_y_for(g2_masked_x(b), bit_set(b[0], 5)) {
            Some(y) => Ok((g2_masked_x(b), y, false)),
            None => Err(Error::NotOnCurve),
        }
    } else if !is_fq2(b.subrange(96, 192)) {
        Err(Error::MalformedEncoding)
    } else if !g2_on_curve_xy(g2_masked_x(b), b.subrange(96, 192)) {
        Err(Error::NotOnCurve)
    } else {
        Ok((g2_masked_x(b), b.subrange(96, 192), false))
    }
}

/// What decoding `b` gives, with the subgroup check when `validate` is set.
pub open spec fn g2_deserialization(b: Seq<u8>, compress: bool, validate: bool) -> Result<
    G2View,
    Error,
> {
    match g2_decoding(b, compress) {
        Ok(p) => if validate && !g2_in_subgroup_of(p) {
            Err(Error::NotInSubgroup)
        } else {
            Ok(p)
        },
        Err(e) => Err(e),
    }
}

/// Relies on ark_ec's `Affine::get_point_from_x_unchecked` for BLS12-381's G2:
/// it returns the root of `x^3 + 4(1 + u)` that the flag asks for (the larger of
/// `y` and `-y` in Fq2's order when `greatest`, else the smaller), or `None`.
#[verifier::external_body]
fn g2_y_from_x(x: &[u8], greatest: bool) -> (r: Option<Vec<u8>>)
    requires
        is_fq2(x@),
    ensures
        match r {
            Some(y) => g2_y_for(x@, greatest) == Some(y@),
            None => g2_y_for(x@, greatest) is None,
        },
{
    let x = Fq2::new(Fq::from_be_bytes_mod_order(&x[48..]), Fq::from_be_bytes_mod_order(&x[..48]));
    G2Affine::get_point_from_x_unchecked(x, greatest).map(
        |p| [p.y.c1.into_bigint().to_bytes_be(), p.y.c0.into_bigint().to_bytes_be()].concat(),
    )
}

/// Relies on ark_ec's `Affine::is_on_curve` for BLS12-381's G2: for a finite
/// point it tests `y^2 == x^3 + 4(1 + u)` in Fq2, whose parts are the two
/// congruences of `g2_on_curve_xy`.
#[verifier::external_body]
fn g2_is_on_curve(x: &[u8], y: &[u8]) -> (r: bool)
    requires
        is_fq2(x@),
        is_fq2(y@),
    ensures
        r == g2_on_curve_xy(x@, y@),
{
    let f = Fq::from_be_bytes_mod_order;
    G2Affine::new_unchecked(Fq2::new(f(&x[48..]), f(&x[..48])), Fq2::new(f(&y[48..]), f(&y[..48])))
        .is_on_curve()
}

/// Relies on ark_bls12_381's `is_in_correct_subgroup_assuming_on_curve` for G2.
#[verifier::external_body]
fn g2_subgroup_check(p: &G2Point) -> (r: bool)
    requires
        g2_wf(p@),
    ensures
        r == g2_in_subgroup_of(p@),
{
    let x = Fq2::new(Fq::from_be_bytes_mod_order(&p.x[48..]), Fq::from_be_bytes_mod_order(&p.x[..48]));
    let y = Fq2::new(Fq::from_be_bytes_mod_order(&p.y[48..]), Fq::from_be_bytes_mod_order(&p.y[..48]));
    G2Affine { x, y, infinity: p.infinity }.is_in_correct_subgroup_assuming_on_curve()
}

/// The canonical zero of Fq2.
fn fq2_zero() -> (r: Vec<u8>)
    ensures
        r@ == zeros(96),
        is_fq2(r@),
{
    let mut r = fq_zero();
    let z = fq_zero();
    extend_bytes(&mut r, &z);
    assert(r@ =~= zeros(96));
    assert(c1(r@) =~= zeros(48));
    assert(c0(r@) =~= zeros(48));
    r
}

/// Whether `y` is the larger of `y` and `-y` in Fq2's order.
pub fn fq2_is_largest(y: &[u8]) -> (r: bool)
    requires
        is_fq2(y@),
    ensures
        r == fq2_largest(y@),
{
    let hi = copy_range(y, 0, FQ_BYTES);
    let lo = copy_range(y, FQ_BYTES, 2 * FQ_BYTES);
    let z = fq_zero();
    proof {
        lemma_be_zeros(48);
        if be_value(hi@) == 0 {
            lemma_be_injective(hi@, zeros(48));
        }
    }
    if bytes_eq(&hi, &z) {
        fq_is_largest(&lo)
    } else {
        fq_is_largest(&hi)
    }
}



/// Reads the Fq2 element at `offset` (in units of 96 bytes), masking the flag
/// bits of its first byte away when `mask`.
fn read_fq2_with_offset(bytes: &[u8], offset: usize, mask: bool) -> (r: Result<Vec<u8>, Error>)
    requires
        bytes@.len() >= 96 * (offset + 1),
    ensures
        ({
            let raw = bytes@.subrange(96 * offset, 96 * (offset + 1));
            let c = if mask {
                raw.update(0, raw[0] & 0x1f)
            } else {
                raw
            };
            match r {
                Ok(v) => v@ == c && is_fq2(c),
                Err(e) => e == Error::MalformedEncoding && !is_fq2(c),
            }
        }),
{
    assert(96 * (offset + 1) <= bytes.len());
    let ghost raw = bytes@.subrange(96 * offset, 96 * (offset + 1));
    let hi = read_fq_with_offset(bytes, 2 * offset, mask);
    let lo = read_fq_with_offset(bytes, 2 * offset + 1, false);
    let ghost c = if mask {
        raw.update(0, raw[0] & 0x1f)
    } else {
        raw
    };
    assert(c1(c) =~= (if mask {
        bytes@.subrange(48 * (2 * offset), 48 * (2 * offset + 1)).update(
            0,
            bytes@.subrange(48 * (2 * offset), 48 * (2 * offset + 1))[0] & 0x1f,
        )
    } else {
        bytes@.subrange(48 * (2 * offset), 48 * (2 * offset + 1))
    }));
    assert(c0(c) =~= bytes@.subrange(48 * (2 * offset + 1), 48 * (2 * offset + 1 + 1)));
    match (hi, lo) {
        (Ok(mut h), Ok(l)) => {
            extend_bytes(&mut h, &l);
            assert(h@ =~= c);
            Ok(h)
        },
        _ => Err(Error::MalformedEncoding),
    }
}

/// Decodes a compressed point: the `x` coordinate and a sign flag.
fn read_g2_compressed(bytes: &[u8]) -> (r: Result<G2Point, Error>)
    ensures
        match r {
            Ok(p) => g2_decoding(bytes@, true) == Ok::<G2View, Error>(p@) && g2_wf(p@),
            Err(e) => g2_decoding(bytes@, true) == Err::<G2View, Error>(e),
        },
{
    if bytes.len() != G2_SERIALIZED_SIZE {
        return Err(Error::MalformedEncoding);
    }
    let flags = EncodingFlags::get_flags(bytes);
    if !flags.is_compressed {
        return Err(Error::MalformedEncoding);
    }
    if flags.is_infinity {
        if bytes[0] & 0x3fu8 != 0 || !is_zero_from(bytes, 1) {
            return Err(Error::MalformedEncoding);
        }
        return Ok(G2Point { x: fq2_zero(), y: fq2_zero(), infinity: true });
    }
    let x = read_fq2_with_offset(bytes, 0, true)?;
    match g2_y_from_x(&x, flags.is_lexographically_largest) {
        Some(y) => {
            proof {
                assert(g2_root(x@, choose|y: Seq<u8>| g2_root(x@, y, bit_set(bytes@[0], 5)),
                    bit_set(bytes@[0], 5)));
            }
            Ok(G2Point { x, y, infinity: false })
        },
        None => Err(Error::NotOnCurve),
    }
}

/// Decodes an uncompressed point: both coordinates.
fn read_g2_uncompressed(bytes: &[u8]) -> (r: Result<G2Point, Error>)
    ensures
        match r {
            Ok(p) => g2_decoding(bytes@, false) == Ok::<G2View, Error>(p@) && g2_wf(p@),
            Err(e) => g2_decoding(bytes@, false) == Err::<G2View, Error>(e),
        },
{
    if bytes.len() != 2 * G2_SERIALIZED_SIZE {
        return Err(Error::MalformedEncoding);
    }
    let flags = EncodingFlags::get_flags(bytes);
    if flags.is_compressed || flags.is_lexographically_largest {
        return Err(Error::MalformedEncoding);
    }
    if flags.is_infinity {
        if bytes[0] & 0x3fu8 != 0 || !is_zero_from(bytes, 1) {
            return Err(Error::MalformedEncoding);
        }
        return Ok(G2Point { x: fq2_zero(), y: fq2_zero(), infinity: true });
    }
    let x = read_fq2_with_offset(bytes, 0, true)?;
    let y = read_fq2_with_offset(bytes, 1, false)?;
    if !g2_is_on_curve(&x, &y) {
        return Err(Error::NotOnCurve);
    }
    Ok(G2Point { x, y, infinity: false })
}


/// The compressed encodings of a list of points.
pub open spec fn g2_compressed_list(b: Seq<G2Point>) -> Seq<Seq<u8>> {
    Seq::new(b.len(), |i: int| g2_encoding(b[i]@, true))
}

/// The G2 curve of BLS12-381 with its encoding rules.
pub struct Parameters;

impl Parameters {
    /// The number of bytes of an encoding.
    pub fn serialized_size(compress: bool) -> (r: usize)
        ensures
            r == (if compress { 96usize } else { 192usize }),
    {
        if compress {
            G2_SERIALIZED_SIZE
        } else {
            G2_SERIALIZED_SIZE * 2
        }
    }

    /// Encodes a point canonically, compressed or not.
    pub fn serialize_with_mode(item: &G2Point, compress: bool) -> (r: Vec<u8>)
        requires
            g2_wf(item@),
        ensures
            r@ == g2_encoding(item@, compress),
            r@.len() == (if compress { 96int } else { 192int }),
    {
        let encoding = EncodingFlags {
            is_compressed: compress,
            is_infinity: item.infinity,
            is_lexographically_largest: fq2_is_largest(&item.y),
        };
        let x_bytes = if encoding.is_infinity {
            fq2_zero()
        } else {
            copy_range(&item.x, 0, 2 * FQ_BYTES)
        };
        let mut bytes = x_bytes;
        if !compress {
            let y_bytes = if encoding.is_infinity {
                fq2_zero()
            } else {
                copy_range(&item.y, 0, 2 * FQ_BYTES)
            };
            extend_bytes(&mut bytes, &y_bytes);
        }
        assert(item.x@.subrange(0, 96) =~= item.x@);
        assert(item.y@.subrange(0, 96) =~= item.y@);
        encoding.encode_flags(&mut bytes);
        bytes
    }

    /// Decodes a point, compressed or not; with `validate`, a point outside the
    /// prime-order subgroup is refused.
    pub fn deserialize_with_mode(bytes: &[u8], compress: bool, validate: bool) -> (r: Result<
        G2Point,
        Error,
    >)
        ensures
            match r {
                Ok(p) => g2_deserialization(bytes@, compress, validate) == Ok::<G2View, Error>(p@)
                    && g2_wf(p@),
                Err(e) => g2_deserialization(bytes@, compress, validate) == Err::<G2View, Error>(e),
            },
    {
        let p = if compress {
            read_g2_compressed(bytes)?
        } else {
            read_g2_uncompressed(bytes)?
        };
        if validate && !g2_subgroup_check(&p) {
            return Err(Error::NotInSubgroup);
        }
        Ok(p)
    }
}

/// The point that an encoding stands for: the point at infinity in canonical form.
pub open spec fn g2_normalized(p: G2View) -> G2View {
    if p.2 {
        g2_identity()
    } else {
        p
    }
}

/// Encoding a point without compression and decoding it gives the point back
/// (the point at infinity in canonical form), and the subgroup check, when
/// asked for, decides the result.
pub proof fn lemma_g2_round_trip_uncompressed(p: G2View, validate: bool)
    requires
        g2_wf(p),
        g2_on_curve(p),
    ensures
        g2_decoding(g2_encoding(p, false), false) == Ok::<G2View, Error>(g2_normalized(p)),
        g2_deserialization(g2_encoding(p, false), false, validate) == (if validate
            && !g2_in_subgroup_of(g2_normalized(p)) {
            Err::<G2View, Error>(Error::NotInSubgroup)
        } else {
            Ok::<G2View, Error>(g2_normalized(p))
        }),
{
    let x = g2_normalized(p).0;
    let y = g2_normalized(p).1;
    if p.2 {
        assert(c1(zeros(96)) =~= zeros(48));
        assert(c0(zeros(96)) =~= zeros(48));
        assert(zeros(48)[0] == 0);
        lemma_leading_zero_canonical(zeros(48));
    }
    assert(x[0] == c1(x)[0]);
    lemma_fq_top_bits_clear(c1(x));
    let f = EncodingFlags {
        is_compressed: false,
        is_infinity: p.2,
        is_lexographically_largest: fq2_largest(p.1),
    };
    lemma_flags_round_trip(x[0], f);
    let e = g2_encoding(p, false);
    assert(g2_masked_x(e) =~= x);
    if p.2 {
        assert(x[0] == 0);
    }
    assert(e.subrange(96, 192) =~= y);
}

/// Encoding an on-curve point compressed and decoding it gives the point at
/// infinity back as such, and a finite point back as `(x, y2)` where `y2` is a
/// root of the curve equation at `x` with the sign flag of `y`.
pub proof fn lemma_g2_round_trip_compressed(p: G2View)
    requires
        g2_wf(p),
        g2_on_curve(p),
    ensures
        p.2 ==> g2_decoding(g2_encoding(p, true), true) == Ok::<G2View, Error>(g2_identity()),
        !p.2 ==> exists|y2: Seq<u8>|
            g2_decoding(g2_encoding(p, true), true) == Ok::<G2View, Error>((p.0, y2, false))
                && g2_root(p.0, y2, fq2_largest(p.1)),
{
    let x = g2_normalized(p).0;
    if p.2 {
        assert(c1(zeros(96)) =~= zeros(48));
        assert(c0(zeros(96)) =~= zeros(48));
        assert(zeros(48)[0] == 0);
        lemma_leading_zero_canonical(zeros(48));
    }
    assert(x[0] == c1(x)[0]);
    lemma_fq_top_bits_clear(c1(x));
    let f = EncodingFlags {
        is_compressed: true,
        is_infinity: p.2,
        is_lexographically_largest: fq2_largest(p.1),
    };
    lemma_flags_round_trip(x[0], f);
    let e = g2_encoding(p, true);
    assert(g2_masked_x(e) =~= x);
    if p.2 {
        assert(x[0] == 0);
    }
    if !p.2 {
        assert(g2_root(p.0, p.1, fq2_largest(p.1)));
        let y2 = choose|y: Seq<u8>| g2_root(p.0, y, fq2_largest(p.1));
        assert(g2_decoding(e, true) == Ok::<G2View, Error>((p.0, y2, false)));
    }
}

} // verus!
