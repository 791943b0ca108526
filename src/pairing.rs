//! Pairings over an injected engine: operands are encoded compressed, handed
//! to the engine in input order, and its output is checked for size.
use crate::engine::{
    self, bytes_list, final_exponentiation_of, fq12_is_canonical, g1_list_decoded,
    g2_list_decoded, is_fq12, miller_loop_of, operands_error, operands_valid,
    F12_COMPRESSED_SIZE,
};
use crate::error::Error;
use crate::g1::{self, g1_compressed_list, g1_encoding, g1_wf, G1Point};
use crate::g2::{self, g2_compressed_list, g2_encoding, g2_wf, G2Point};
use vstd::prelude::*;

verus! {

/// The engine that performs the Miller loop and the final exponentiation on
/// encoded operands.
pub trait HostFunctions {
    /// The Miller loop over compressed G1 and G2 encodings paired by index.
    fn multi_miller_loop(&self, a_vec: Vec<Vec<u8>>, b_vec: Vec<Vec<u8>>) -> Result<
        Vec<u8>,
        Error,
    >;

    /// The final exponentiation of a 576-byte compressed target-field element.
    fn final_exponentiation(&self, f12: &[u8]) -> Result<Vec<u8>, Error>;
}

/// The engine computed in-process with the arkworks BLS12-381 pairing.
pub struct Host;

impl HostFunctions for Host {
    fn multi_miller_loop(&self, a_vec: Vec<Vec<u8>>, b_vec: Vec<Vec<u8>>) -> Result<
        Vec<u8>,
        Error,
    > {
        engine::multi_miller_loop(a_vec, b_vec)
    }

    fn final_exponentiation(&self, f12: &[u8]) -> Result<Vec<u8>, Error> {
        engine::final_exponentiation(f12)
    }
}

/// Pairings on BLS12-381 computed through the engine `host`.
pub struct Bls12<H: HostFunctions> {
    pub host: H,
}

/// Pairings with the in-process arkworks engine.
pub type Bls12_381 = Bls12<Host>;

/// All points are well formed.
pub open spec fn g1_all_wf(a: Seq<G1Point>) -> bool {
    forall|i: int| 0 <= i < a.len() ==> g1_wf(#[trigger] a[i]@)
}

/// All points are well formed.
pub open spec fn g2_all_wf(b: Seq<G2Point>) -> bool {
    forall|i: int| 0 <= i < b.len() ==> g2_wf(#[trigger] b[i]@)
}

/// The compressed encodings of G1 points, in order.
pub fn encode_g1_list(a: &Vec<G1Point>) -> (r: Vec<Vec<u8>>)
    requires
        g1_all_wf(a@),
    ensures
        r@.len() == a@.len(),
        forall|i: int| 0 <= i < a@.len() ==> #[trigger] r@[i]@ == g1_encoding(a@[i]@, true),
{
    let mut out: Vec<Vec<u8>> = Vec::new();
    let mut i: usize = 0;
    while i < a.len()
        invariant
            i <= a@.len(),
            g1_all_wf(a@),
            out@.len() == i,
            forall|j: int| 0 <= j < i ==> #[trigger] out@[j]@ == g1_encoding(a@[j]@, true),
        decreases a@.len() - i,
    {
        out.push(g1::Parameters::serialize_with_mode(&a[i], true));
        i = i + 1;
    }
    out
}

/// The compressed encodings of G2 points, in order.
pub fn encode_g2_list(b: &Vec<G2Point>) -> (r: Vec<Vec<u8>>)
    requires
        g2_all_wf(b@),
    ensures
        r@.len() == b@.len(),
        forall|i: int| 0 <= i < b@.len() ==> #[trigger] r@[i]@ == g2_encoding(b@[i]@, true),
{
    let mut out: Vec<Vec<u8>> = Vec::new();
    let mut i: usize = 0;
    while i < b.len()
        invariant
            i <= b@.len(),
            g2_all_wf(b@),
            out@.len() == i,
            forall|j: int| 0 <= j < i ==> #[trigger] out@[j]@ == g2_encoding(b@[j]@, true),
        decreases b@.len() - i,
    {
        out.push(g2::Parameters::serialize_with_mode(&b[i], true));
        i = i + 1;
    }
    out
}

/// Accepts what the engine returned only when it reads as a target-field
/// element: 576 bytes whose twelve base-field components are all below q.
pub fn check_target(res: Vec<u8>) -> (r: Result<Vec<u8>, Error>)
    ensures
        match r {
            Ok(v) => is_fq12(res@) && v@ == res@,
            Err(e) => !is_fq12(res@) && e == Error::EngineFailure,
        },
{
    if fq12_is_canonical(&res) {
        Ok(res)
    } else {
        Err(Error::EngineFailure)
    }
}

impl<H: HostFunctions> Bls12<H> {
    /// A pairing computation over the engine `host`.
    pub fn new(host: H) -> (r: Self)
        ensures
            r.host == host,
    {
        Bls12 { host }
    }

    /// The Miller loop over index-wise pairs of `a` and `b`: the points are
    /// encoded compressed in input order and handed to the engine, whose answer
    /// is accepted only as a 576-byte target-field element.
    pub fn multi_miller_loop(&self, a: &Vec<G1Point>, b: &Vec<G2Point>) -> (r: Result<
        Vec<u8>,
        Error,
    >)
        requires
            g1_all_wf(a@),
            g2_all_wf(b@),
        ensures
            r matches Ok(v) ==> is_fq12(v@),
    {
        let a_vec = encode_g1_list(a);
        let b_vec = encode_g2_list(b);
        let res = self.host.multi_miller_loop(a_vec, b_vec)?;
        check_target(res)
    }

    /// The final exponentiation of a Miller-loop output, through the engine;
    /// its answer is accepted only as a 576-byte target-field element.
    pub fn final_exponentiation(&self, f: &[u8]) -> (r: Result<Vec<u8>, Error>)
        ensures
            r matches Ok(v) ==> is_fq12(v@),
            f@.len() != 576 ==> r == Err::<Vec<u8>, Error>(Error::MalformedEncoding),
    {
        if f.len() != F12_COMPRESSED_SIZE {
            return Err(Error::MalformedEncoding);
        }
        let res = self.host.final_exponentiation(f)?;
        check_target(res)
    }

    /// The product of the pairings of index-wise pairs of `a` and `b`.
    pub fn multi_pairing(&self, a: &Vec<G1Point>, b: &Vec<G2Point>) -> (r: Result<Vec<u8>, Error>)
        requires
            g1_all_wf(a@),
            g2_all_wf(b@),
        ensures
            r matches Ok(v) ==> is_fq12(v@),
    {
        let f = self.multi_miller_loop(a, b)?;
        self.final_exponentiation(&f)
    }

    /// The pairing of one G1 point with one G2 point.
    pub fn pairing(&self, p: G1Point, q: G2Point) -> (r: Result<Vec<u8>, Error>)
        requires
            g1_wf(p@),
            g2_wf(q@),
        ensures
            r matches Ok(v) ==> is_fq12(v@),
    {
        let a = vec![p];
        let b = vec![q];
        self.multi_pairing(&a, &b)
    }
}

} // verus!

verus! {

/// Whether G2 is a multiplicative or a divisive twist of the curve.
#[derive(Clone, Copy, Debug, PartialEq, Eq, Structural)]
pub enum TwistType {
    M,
    D,
}

/// The BLS12-381 instance of the curve family: its parameter `x` (negative),
/// its twist, and its pairing steps computed through the in-process engine.
pub struct Parameters;

impl Parameters {
    /// The kind of twist that G2 is: multiplicative.
    pub fn twist_type() -> (r: TwistType)
        ensures
            r == TwistType::M,
    {
        TwistType::M
    }

    /// The Miller loop over index-wise pairs, through the in-process engine:
    /// the points go to it compressed, in input order.
    pub fn multi_miller_loop(a_vec: &Vec<G1Point>, b_vec: &Vec<G2Point>) -> (r: Result<
        Vec<u8>,
        Error,
    >)
        requires
            g1_all_wf(a_vec@),
            g2_all_wf(b_vec@),
        ensures
            ({
                let e1 = g1_compressed_list(a_vec@);
                let e2 = g2_compressed_list(b_vec@);
                match r {
                    Ok(v) => operands_valid(e1, e2) && v@ == miller_loop_of(
                        g1_list_decoded(e1),
                        g2_list_decoded(e2),
                    ) && v@.len() == 576,
                    Err(e) => !operands_valid(e1, e2) && operands_error(e1, e2, e),
                }
            }),
    {
        let a = encode_g1_list(a_vec);
        let b = encode_g2_list(b_vec);
        assert(bytes_list(a@) =~= g1_compressed_list(a_vec@));
        assert(bytes_list(b@) =~= g2_compressed_list(b_vec@));
        engine::multi_miller_loop(a, b)
    }

    /// The final exponentiation of a Miller-loop output, through the
    /// in-process engine.
    pub fn final_exponentiation(f12: &[u8]) -> (r: Result<Vec<u8>, Error>)
        ensures
            match r {
                Ok(v) => f12@.len() == 576 && final_exponentiation_of(f12@) == Some(v@) && v@.len()
                    == 576,
                Err(e) => e == Error::EngineFailure && (f12@.len() != 576
                    || final_exponentiation_of(f12@) is None),
            },
    {
        engine::final_exponentiation(f12)
    }
}

} // verus!
