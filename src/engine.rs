//! A pairing engine over compressed operand encodings, computed with the
//! arkworks BLS12-381 implementation.
use crate::error::Error;
use crate::field::{fq_is_canonical, is_fq};
use crate::g1::{self, g1_decoding, g1_encoding, g1_identity, g1_wf, G1Point, G1View};
use crate::g2::{self, g2_decoding, g2_wf, G2Point, G2View};
use ark_bls12_381::{Bls12_381, Fq, Fq12, Fq2, G1Affine, G1Projective, G2Affine};
use ark_ec::pairing::{MillerLoopOutput, Pairing};
use ark_ec::{CurveGroup, VariableBaseMSM};
use ark_ff::{BigInteger, BigInteger256, PrimeField};
use ark_serialize::{CanonicalDeserialize, CanonicalSerialize, Compress, Validate};
use vstd::prelude::*;

verus! {

/// Bytes of a compressed target-field element.
pub const F12_COMPRESSED_SIZE: usize = 576;

/// The Miller loop over index-wise pairs of `a` and `b`, encoded compressed, as
/// the arkworks BLS12-381 pairing computes it.
pub uninterp spec fn miller_loop_of(a: Seq<G1View>, b: Seq<G2View>) -> Seq<u8>;

/// The final exponentiation of an encoded target-field element, as the arkworks
/// BLS12-381 pairing computes it; `None` when it refuses the input.
pub uninterp spec fn final_exponentiation_of(f: Seq<u8>) -> Option<Seq<u8>>;

/// The `i`-th base-field component of a compressed target-field element,
/// which is written little-endian, turned to big-endian.
pub open spec fn fq12_component(s: Seq<u8>, i: int) -> Seq<u8> {
    Seq::new(48, |j: int| s[48 * i + 47 - j])
}

/// A canonical compressed target-field element: 576 bytes holding twelve
/// base-field components, each below q.
pub open spec fn is_fq12(s: Seq<u8>) -> bool {
    s.len() == 576 && forall|i: int| 0 <= i < 12 ==> is_fq(#[trigger] fq12_component(s, i))
}

/// Whether `s` is a canonical compressed target-field element.
pub fn fq12_is_canonical(s: &[u8]) -> (r: bool)
    ensures
        r == is_fq12(s@),
{
    if s.len() != F12_COMPRESSED_SIZE {
        return false;
    }
    let mut i: usize = 0;
    while i < 12
        invariant
            i <= 12,
            s@.len() == 576,
            forall|k: int| 0 <= k < i ==> is_fq(#[trigger] fq12_component(s@, k)),
        decreases 12 - i,
    {
        let mut chunk: Vec<u8> = Vec::new();
        let mut j: usize = 0;
        while j < 48
            invariant
                i < 12,
                j <= 48,
                s@.len() == 576,
                chunk@.len() == j,
                forall|m: int| 0 <= m < j ==> chunk@[m] == s@[48 * i + 47 - m],
            decreases 48 - j,
        {
            chunk.push(s[48 * i + 47 - j]);
            j = j + 1;
        }
        assert(chunk@ =~= fq12_component(s@, i as int));
        if !fq_is_canonical(&chunk) {
            return false;
        }
        i = i + 1;
    }
    true
}

/// The contents of a list of buffers.
pub open spec fn bytes_list(a: Seq<Vec<u8>>) -> Seq<Seq<u8>> {
    a.map_values(|v: Vec<u8>| v@)
}

/// Every buffer decodes as a compressed G1 point.
pub open spec fn g1_list_decodes(a: Seq<Seq<u8>>) -> bool {
    forall|i: int| 0 <= i < a.len() ==> g1_decoding(#[trigger] a[i], true) is Ok
}

/// The points that the buffers decode to.
pub open spec fn g1_list_decoded(a: Seq<Seq<u8>>) -> Seq<G1View> {
    Seq::new(a.len(), |i: int| g1_decoding(a[i], true)->Ok_0)
}

/// Every buffer decodes as a compressed G2 point.
pub open spec fn g2_list_decodes(b: Seq<Seq<u8>>) -> bool {
    forall|i: int| 0 <= i < b.len() ==> g2_decoding(#[trigger] b[i], true) is Ok
}

/// The points that the buffers decode to.
pub open spec fn g2_list_decoded(b: Seq<Seq<u8>>) -> Seq<G2View> {
    Seq::new(b.len(), |i: int| g2_decoding(b[i], true)->Ok_0)
}

/// The engine accepts the operand lists: equally many, all decodable.
pub open spec fn operands_valid(a: Seq<Seq<u8>>, b: Seq<Seq<u8>>) -> bool {
    a.len() == b.len() && g1_list_decodes(a) && g2_list_decodes(b)
}

/// The error for operand lists that the engine does not accept.
pub open spec fn operands_error(a: Seq<Seq<u8>>, b: Seq<Seq<u8>>, e: Error) -> bool {
    ||| (exists|i: int| 0 <= i < a.len() && g1_decoding(a[i], true) == Err::<G1View, Error>(e))
    ||| (exists|i: int| 0 <= i < b.len() && g2_decoding(b[i], true) == Err::<G2View, Error>(e))
    ||| (a.len() != b.len() && e == Error::EngineFailure)
}

/// The MSM engine accepts its operands: equally many, every base decodable and
/// every scalar 32 bytes.
pub open spec fn msm_operands_valid(bases: Seq<Seq<u8>>, scalars: Seq<Seq<u8>>) -> bool {
    &&& bases.len() == scalars.len()
    &&& g1_list_decodes(bases)
    &&& forall|i: int| 0 <= i < scalars.len() ==> (#[trigger] scalars[i]).len() == 32
}

/// `sum_i [s_i] b_i` over G1, each scalar a 32-byte little-endian integer, as
/// the arkworks multi-scalar multiplication computes it.
pub uninterp spec fn g1_msm_of(bases: Seq<G1View>, scalars: Seq<Seq<u8>>) -> G1View;

/// Relies on ark_ec's `Pairing::multi_miller_loop` for `Bls12_381`, and on
/// `CanonicalSerialize` for the 576-byte compressed form of its `Fq12` output.
#[verifier::external_body]
fn ark_multi_miller_loop(a: &Vec<G1Point>, b: &Vec<G2Point>) -> (r: Vec<u8>)
    requires
        a@.len() == b@.len(),
        forall|i: int| 0 <= i < a@.len() ==> g1_wf(#[trigger] a@[i]@),
        forall|i: int| 0 <= i < b@.len() ==> g2_wf(#[trigger] b@[i]@),
    ensures
        r@ == miller_loop_of(a@.map_values(|p: G1Point| p@), b@.map_values(|p: G2Point| p@)),
        r@.len() == 576,
{
    let f = Fq::from_be_bytes_mod_order;
    let g1 = a.iter().map(|p| G1Affine { x: f(&p.x), y: f(&p.y), infinity: p.infinity });
    let g2 = b.iter().map(|p| G2Affine {
        x: Fq2::new(f(&p.x[48..]), f(&p.x[..48])),
        y: Fq2::new(f(&p.y[48..]), f(&p.y[..48])),
        infinity: p.infinity,
    });
    let mut out = Vec::new();
    Bls12_381::multi_miller_loop(g1, g2).0.serialize_compressed(&mut out).unwrap();
    out
}

/// Relies on ark_ec's `Pairing::final_exponentiation` for `Bls12_381`, reading
/// its input with `CanonicalDeserialize` (compressed, unvalidated) and writing
/// its output in the 576-byte compressed form.
#[verifier::external_body]
fn ark_final_exponentiation(f12: &[u8]) -> (r: Option<Vec<u8>>)
    ensures
        match r {
            Some(v) => final_exponentiation_of(f12@) == Some(v@) && v@.len() == 576,
            None => final_exponentiation_of(f12@) is None,
        },
{
    let f = Fq12::deserialize_with_mode(f12, Compress::Yes, Validate::No).ok()?;
    let res = Bls12_381::final_exponentiation(MillerLoopOutput(f))?;
    let mut out = Vec::new();
    res.0.serialize_compressed(&mut out).ok()?;
    Some(out)
}

/// Decodes compressed G1 points, without the subgroup check.
pub fn decode_g1_list(a: &Vec<Vec<u8>>) -> (r: Result<Vec<G1Point>, Error>)
    ensures
        match r {
            Ok(v) => v@.len() == a@.len() && g1_list_decodes(bytes_list(a@)) && v@.map_values(|p: G1Point| p@) == g1_list_decoded(bytes_list(a@))
                && forall|i: int| 0 <= i < v@.len() ==> g1_wf(#[trigger] v@[i]@),
            Err(e) => exists|i: int|
                0 <= i < a@.len() && g1_decoding(bytes_list(a@)[i], true) == Err::<G1View, Error>(e),
        },
{
    let mut out: Vec<G1Point> = Vec::new();
    let mut i: usize = 0;
    while i < a.len()
        invariant
            i <= a@.len(),
            out@.len() == i,
            forall|j: int|
                0 <= j < i ==> g1_decoding(a@[j]@, true) == Ok::<G1View, Error>(
                    #[trigger] out@[j]@,
                ) && g1_wf(out@[j]@),
        decreases a@.len() - i,
    {
        match g1::Parameters::deserialize_with_mode(&a[i], true, false) {
            Ok(p) => out.push(p),
            Err(e) => {
                assert(bytes_list(a@)[i as int] == a@[i as int]@);
                return Err(e);
            },
        }
        i = i + 1;
    }
    assert forall|j: int| 0 <= j < a@.len() implies g1_decoding(#[trigger] bytes_list(a@)[j], true) is Ok by {
        assert(g1_decoding(a@[j]@, true) == Ok::<G1View, Error>(out@[j]@));
    }
    assert(out@.map_values(|p: G1Point| p@) =~= g1_list_decoded(bytes_list(a@)));
    Ok(out)
}

/// Decodes compressed G2 points, without the subgroup check.
pub fn decode_g2_list(b: &Vec<Vec<u8>>) -> (r: Result<Vec<G2Point>, Error>)
    ensures
        match r {
            Ok(v) => v@.len() == b@.len() && g2_list_decodes(bytes_list(b@)) && v@.map_values(|p: G2Point| p@) == g2_list_decoded(bytes_list(b@))
                && forall|i: int| 0 <= i < v@.len() ==> g2_wf(#[trigger] v@[i]@),
            Err(e) => exists|i: int|
                0 <= i < b@.len() && g2_decoding(bytes_list(b@)[i], true) == Err::<G2View, Error>(e),
        },
{
    let mut out: Vec<G2Point> = Vec::new();
    let mut i: usize = 0;
    while i < b.len()
        invariant
            i <= b@.len(),
            out@.len() == i,
            forall|j: int|
                0 <= j < i ==> g2_decoding(b@[j]@, true) == Ok::<G2View, Error>(
                    #[trigger] out@[j]@,
                ) && g2_wf(out@[j]@),
        decreases b@.len() - i,
    {
        match g2::Parameters::deserialize_with_mode(&b[i], true, false) {
            Ok(p) => out.push(p),
            Err(e) => {
                assert(bytes_list(b@)[i as int] == b@[i as int]@);
                return Err(e);
            },
        }
        i = i + 1;
    }
    assert forall|j: int| 0 <= j < b@.len() implies g2_decoding(#[trigger] bytes_list(b@)[j], true) is Ok by {
        assert(g2_decoding(b@[j]@, true) == Ok::<G2View, Error>(out@[j]@));
    }
    assert(out@.map_values(|p: G2Point| p@) =~= g2_list_decoded(bytes_list(b@)));
    Ok(out)
}

/// The Miller loop over compressed G1 and G2 encodings, paired by index; the
/// result is a 576-byte compressed target-field element.
pub fn multi_miller_loop(a_vec: Vec<Vec<u8>>, b_vec: Vec<Vec<u8>>) -> (r: Result<Vec<u8>, Error>)
    ensures
        match r {
            Ok(v) => operands_valid(bytes_list(a_vec@), bytes_list(b_vec@)) && v@ == miller_loop_of(
                g1_list_decoded(bytes_list(a_vec@)),
                g2_list_decoded(bytes_list(b_vec@)),
            ) && v@.len() == 576,
            Err(e) => !operands_valid(bytes_list(a_vec@), bytes_list(b_vec@)) && operands_error(bytes_list(a_vec@), bytes_list(b_vec@), e),
        },
{
    let g1 = decode_g1_list(&a_vec)?;
    let g2 = decode_g2_list(&b_vec)?;
    if a_vec.len() != b_vec.len() {
        return Err(Error::EngineFailure);
    }
    Ok(ark_multi_miller_loop(&g1, &g2))
}

/// The final exponentiation of a 576-byte compressed target-field element.
pub fn final_exponentiation(f12: &[u8]) -> (r: Result<Vec<u8>, Error>)
    ensures
        match r {
            Ok(v) => f12@.len() == 576 && final_exponentiation_of(f12@) == Some(v@) && v@.len()
                == 576,
            Err(e) => e == Error::EngineFailure && (f12@.len() != 576
                || final_exponentiation_of(f12@) is None),
        },
{
    if f12.len() != F12_COMPRESSED_SIZE {
        return Err(Error::EngineFailure);
    }
    match ark_final_exponentiation(f12) {
        Some(v) => Ok(v),
        None => Err(Error::EngineFailure),
    }
}

/// The product of the pairings of index-wise pairs: the final exponentiation
/// of their Miller loop.
pub fn multi_pairing(vec_a: Vec<Vec<u8>>, vec_b: Vec<Vec<u8>>) -> (r: Result<Vec<u8>, Error>)
    ensures
        match r {
            Ok(v) => v@.len() == 576 && operands_valid(bytes_list(vec_a@), bytes_list(vec_b@)) && final_exponentiation_of(
                miller_loop_of(g1_list_decoded(bytes_list(vec_a@)), g2_list_decoded(bytes_list(vec_b@))),
            ) == Some(v@),
            Err(e) => (!operands_valid(bytes_list(vec_a@), bytes_list(vec_b@)) && operands_error(bytes_list(vec_a@), bytes_list(vec_b@), e)) || (
            operands_valid(bytes_list(vec_a@), bytes_list(vec_b@)) && e == Error::EngineFailure && final_exponentiation_of(
                miller_loop_of(g1_list_decoded(bytes_list(vec_a@)), g2_list_decoded(bytes_list(vec_b@))),
            ) is None),
        },
{
    let f = multi_miller_loop(vec_a, vec_b)?;
    final_exponentiation(&f)
}

/// Relies on ark_ec's `VariableBaseMSM::msm_bigint` for BLS12-381's G1 and on
/// `CurveGroup::into_affine`: the sum in normalised affine form, written back as
/// big-endian bytes. Each scalar is read as a `BigInteger256` (32 bytes,
/// little-endian limbs) by `CanonicalDeserialize`.
#[verifier::external_body]
fn ark_msm_g1(bases: &Vec<G1Point>, scalars: &Vec<Vec<u8>>) -> (r: G1Point)
    requires
        forall|i: int| 0 <= i < scalars@.len() ==> (#[trigger] scalars@[i])@.len() == 32,
    ensures
        r@ == g1_msm_of(bases@.map_values(|p: G1Point| p@), bytes_list(scalars@)),
        g1_wf(r@),
        r.infinity ==> r@ == g1_identity(),
{
    let f = Fq::from_be_bytes_mod_order;
    let b: Vec<G1Affine> = bases.iter().map(|p| G1Affine { x: f(&p.x), y: f(&p.y), infinity: p.infinity }).collect();
    let s: Vec<BigInteger256> = scalars.iter().map(|v| BigInteger256::deserialize_compressed(&v[..]).unwrap()).collect();
    let m = G1Projective::msm_bigint(&b, &s).into_affine();
    G1Point { x: m.x.into_bigint().to_bytes_be(), y: m.y.into_bigint().to_bytes_be(), infinity: m.infinity }
}

/// Multi-scalar multiplication over compressed G1 encodings and 32-byte
/// little-endian scalars, paired by index; the sum comes back compressed.
pub fn msm_g1(bases: Vec<Vec<u8>>, scalars: Vec<Vec<u8>>) -> (r: Result<Vec<u8>, Error>)
    ensures
        match r {
            Ok(v) => msm_operands_valid(bytes_list(bases@), bytes_list(scalars@)) && v@
                == g1_encoding(
                g1_msm_of(g1_list_decoded(bytes_list(bases@)), bytes_list(scalars@)),
                true,
            ),
            Err(e) => !msm_operands_valid(bytes_list(bases@), bytes_list(scalars@)) && (
            e == Error::EngineFailure || exists|i: int|
                0 <= i < bases@.len() && g1_decoding(bytes_list(bases@)[i], true) == Err::<
                    G1View,
                    Error,
                >(e)),
        },
{
    let points = decode_g1_list(&bases)?;
    if bases.len() != scalars.len() {
        return Err(Error::EngineFailure);
    }
    let mut i: usize = 0;
    while i < scalars.len()
        invariant
            i <= scalars@.len(),
            forall|j: int| 0 <= j < i ==> (#[trigger] scalars@[j])@.len() == 32,
        decreases scalars@.len() - i,
    {
        if scalars[i].len() != 32 {
            assert(bytes_list(scalars@)[i as int] == scalars@[i as int]@);
            return Err(Error::EngineFailure);
        }
        i = i + 1;
    }
    let sum = ark_msm_g1(&points, &scalars);
    Ok(g1::Parameters::serialize_with_mode(&sum, true))
}

} // verus!
