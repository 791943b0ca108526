use ark_bls12_381::{Bls12_381, Fq, Fq12, Fr, G1Affine, G2Affine};
use ark_ec::pairing::Pairing;
use ark_ec::{AffineRepr, CurveGroup};
use ark_ff::{BigInteger, Field, PrimeField, UniformRand};
use ark_serialize::{CanonicalDeserialize, CanonicalSerialize};
use ark_std::rand::Rng;
use bls12_host::engine;
use bls12_host::error::Error;
use bls12_host::g1::{self, G1Point};
use bls12_host::g2::{self, G2Point};
use bls12_host::pairing::{self, Bls12, Host, HostFunctions};

fn fq_bytes(f: &Fq) -> Vec<u8> {
    f.into_bigint().to_bytes_be()
}

fn to_g1(p: &G1Affine) -> G1Point {
    G1Point { x: fq_bytes(&p.x), y: fq_bytes(&p.y), infinity: p.infinity }
}

fn to_g2(p: &G2Affine) -> G2Point {
    G2Point {
        x: [fq_bytes(&p.x.c1), fq_bytes(&p.x.c0)].concat(),
        y: [fq_bytes(&p.y.c1), fq_bytes(&p.y.c0)].concat(),
        infinity: p.infinity,
    }
}

fn from_g1(p: &G1Point) -> G1Affine {
    G1Affine {
        x: Fq::from_be_bytes_mod_order(&p.x),
        y: Fq::from_be_bytes_mod_order(&p.y),
        infinity: p.infinity,
    }
}

fn same_g1(a: &G1Point, b: &G1Point) -> bool {
    a.x == b.x && a.y == b.y && a.infinity == b.infinity
}

fn sample_unchecked() -> G1Affine {
    let mut rng = ark_std::test_rng();
    loop {
        let x = Fq::rand(&mut rng);
        let greatest = rng.gen();
        if let Some(p) = G1Affine::get_point_from_x_unchecked(x, greatest) {
            return p;
        }
    }
}

fn random_points(n: usize) -> Vec<G1Affine> {
    let mut rng = ark_std::test_rng();
    let mut out = Vec::new();
    while out.len() < n {
        let x = Fq::rand(&mut rng);
        let greatest = rng.gen();
        if let Some(p) = G1Affine::get_point_from_x_unchecked(x, greatest) {
            out.push(p);
        }
    }
    out
}

/// (0, 2) lies on `y^2 = x^3 + 4` and has order 3, so it is outside the subgroup.
fn order_three_point() -> G1Point {
    let mut y = vec![0u8; 48];
    y[47] = 2;
    G1Point { x: vec![0u8; 48], y, infinity: false }
}

const G1_GENERATOR_COMPRESSED: &str = "97f1d3a73197d7942695638c4fa9ac0fc3688c4f9774b905a14e3a3f171bac586c55e83ff97a1aeffb3af00adb22c6bb";

fn hex_bytes(s: &str) -> Vec<u8> {
    (0..s.len() / 2).map(|i| u8::from_str_radix(&s[2 * i..2 * i + 2], 16).unwrap()).collect()
}

#[test]
fn test_cofactor_clearing() {
    const SAMPLES: usize = 100;
    for p in random_points(SAMPLES) {
        let p = g1::Parameters::clear_cofactor(&to_g1(&p));
        assert!(from_g1(&p).is_on_curve());
        assert!(g1::Parameters::is_in_correct_subgroup_assuming_on_curve(&p));
    }
}

#[test]
fn cofactor_clearing_matches_the_curve_library() {
    let p = sample_unchecked();
    let ours = g1::Parameters::clear_cofactor(&to_g1(&p));
    let theirs = p.mul_bigint([0xd201000000010001u64]).into_affine();
    assert!(same_g1(&ours, &to_g1(&theirs)));
    assert!(!same_g1(&ours, &to_g1(&p)));
}

#[test]
fn cofactor_clearing_is_idempotent_up_to_subgroup() {
    for p in random_points(5) {
        let once = g1::Parameters::clear_cofactor(&to_g1(&p));
        let twice = g1::Parameters::clear_cofactor(&once);
        assert!(g1::Parameters::is_in_correct_subgroup_assuming_on_curve(&once));
        assert!(g1::Parameters::is_in_correct_subgroup_assuming_on_curve(&twice));
    }
}

#[test]
fn one_minus_x_is_the_effective_cofactor() {
    assert_eq!(g1::one_minus_x(), 0xd201000000010001u64);
    assert_eq!(g1::one_minus_x(), g1::X + 1);
}

#[test]
fn generator_encodes_to_the_published_bytes() {
    let g = to_g1(&G1Affine::generator());
    let enc = g1::Parameters::serialize_with_mode(&g, true);
    assert_eq!(enc, hex_bytes(G1_GENERATOR_COMPRESSED));
    let back = g1::Parameters::deserialize_with_mode(&enc, true, true).unwrap();
    assert!(same_g1(&back, &g));
    let mut ark = Vec::new();
    G1Affine::generator().serialize_compressed(&mut ark).unwrap();
    assert_eq!(enc, ark);
}

#[test]
fn g1_round_trips_both_forms() {
    let mut points = random_points(10);
    points.push(G1Affine::generator());
    for p in points {
        let p = to_g1(&p);
        for compress in [true, false] {
            let enc = g1::Parameters::serialize_with_mode(&p, compress);
            assert_eq!(enc.len(), g1::Parameters::serialized_size(compress));
            let back = g1::Parameters::deserialize_with_mode(&enc, compress, false).unwrap();
            assert!(same_g1(&back, &p));
        }
    }
}

#[test]
fn g1_uncompressed_matches_the_curve_library() {
    let p = (G1Affine::generator() * Fr::from(7u64)).into_affine();
    let enc = g1::Parameters::serialize_with_mode(&to_g1(&p), false);
    let mut ark = Vec::new();
    p.serialize_uncompressed(&mut ark).unwrap();
    assert_eq!(enc, ark);
}

#[test]
fn sign_flag_follows_the_larger_root() {
    let p = G1Affine::generator();
    let minus = -p;
    let a = g1::Parameters::serialize_with_mode(&to_g1(&p), true);
    let b = g1::Parameters::serialize_with_mode(&to_g1(&minus), true);
    assert_eq!(a[0] & 0x20, 0);
    assert_eq!(b[0] & 0x20, 0x20);
    assert_eq!(a[1..], b[1..]);
    let back = g1::Parameters::deserialize_with_mode(&b, true, true).unwrap();
    assert!(same_g1(&back, &to_g1(&minus)));
}

#[test]
fn infinity_encodes_as_flags_and_zeros() {
    let p = G1Point { x: vec![7u8; 48], y: vec![9u8; 48], infinity: true };
    let c = g1::Parameters::serialize_with_mode(&p, true);
    assert_eq!(c[0], 0xc0);
    assert!(c[1..].iter().all(|b| *b == 0));
    let u = g1::Parameters::serialize_with_mode(&p, false);
    assert_eq!(u.len(), 96);
    assert_eq!(u[0], 0x40);
    assert!(u[1..].iter().all(|b| *b == 0));
    let back = g1::Parameters::deserialize_with_mode(&c, true, false).unwrap();
    assert!(back.infinity);
    assert_eq!(back.x, vec![0u8; 48]);
}

#[test]
fn serialized_sizes() {
    assert_eq!(g1::Parameters::serialized_size(true), 48);
    assert_eq!(g1::Parameters::serialized_size(false), 96);
    assert_eq!(g2::Parameters::serialized_size(true), 96);
    assert_eq!(g2::Parameters::serialized_size(false), 192);
    let g = to_g2(&G2Affine::generator());
    assert_eq!(g2::Parameters::serialize_with_mode(&g, true).len(), 96);
    assert_eq!(g2::Parameters::serialize_with_mode(&g, false).len(), 192);
}

#[test]
fn wrong_length_is_malformed() {
    let enc = hex_bytes(G1_GENERATOR_COMPRESSED);
    assert_eq!(g1::Parameters::deserialize_with_mode(&enc[..47], true, false).err(), Some(Error::MalformedEncoding));
    assert_eq!(g1::Parameters::deserialize_with_mode(&enc, false, false).err(), Some(Error::MalformedEncoding));
    assert_eq!(g1::Parameters::deserialize_with_mode(&[], true, false).err(), Some(Error::MalformedEncoding));
    assert_eq!(g2::Parameters::deserialize_with_mode(&enc, true, false).err(), Some(Error::MalformedEncoding));
}

#[test]
fn compression_flag_mismatch_is_malformed() {
    let mut enc = hex_bytes(G1_GENERATOR_COMPRESSED);
    enc[0] &= 0x7f;
    assert_eq!(g1::Parameters::deserialize_with_mode(&enc, true, false).err(), Some(Error::MalformedEncoding));
}

#[test]
fn non_canonical_coordinate_is_malformed() {
    let mut enc = vec![0xffu8; 48];
    enc[0] = 0x9f;
    assert_eq!(g1::Parameters::deserialize_with_mode(&enc, true, false).err(), Some(Error::MalformedEncoding));
}

#[test]
fn x_without_root_is_not_on_curve() {
    let mut rng = ark_std::test_rng();
    loop {
        let x = Fq::rand(&mut rng);
        if G1Affine::get_point_from_x_unchecked(x, true).is_none() {
            let mut enc = fq_bytes(&x);
            enc[0] |= 0x80;
            assert_eq!(g1::Parameters::deserialize_with_mode(&enc, true, false).err(), Some(Error::NotOnCurve));
            return;
        }
    }
}

#[test]
fn subgroup_check_on_generator_and_multiples() {
    let g = G1Affine::generator();
    assert!(g1::Parameters::is_in_correct_subgroup_assuming_on_curve(&to_g1(&g)));
    for k in [2u64, 3, 12345, 0xd201000000010000] {
        let p = (g * Fr::from(k)).into_affine();
        assert!(g1::Parameters::is_in_correct_subgroup_assuming_on_curve(&to_g1(&p)));
    }
    let inf = G1Point { x: vec![0u8; 48], y: vec![0u8; 48], infinity: true };
    assert!(g1::Parameters::is_in_correct_subgroup_assuming_on_curve(&inf));
}

#[test]
fn subgroup_check_refuses_order_three_point() {
    let p = order_three_point();
    assert!(from_g1(&p).is_on_curve());
    assert!(!g1::Parameters::is_in_correct_subgroup_assuming_on_curve(&p));
    let enc = g1::Parameters::serialize_with_mode(&p, true);
    assert_eq!(g1::Parameters::deserialize_with_mode(&enc, true, true).err(), Some(Error::NotInSubgroup));
    assert!(g1::Parameters::deserialize_with_mode(&enc, true, false).is_ok());
}

#[test]
fn subgroup_check_agrees_with_the_curve_library() {
    for p in random_points(5) {
        assert_eq!(
            g1::Parameters::is_in_correct_subgroup_assuming_on_curve(&to_g1(&p)),
            p.is_in_correct_subgroup_assuming_on_curve()
        );
    }
}

#[test]
fn endomorphism_multiplies_x_by_beta() {
    let g = G1Affine::generator();
    let e = g1::endomorphism(&to_g1(&g));
    let beta = Fq::from_be_bytes_mod_order(&[
        0u8, 0, 0, 0, 0, 0, 0, 0, 95, 25, 103, 47, 223, 118, 206, 81, 186, 105, 198, 7, 106, 15,
        119, 234, 221, 179, 169, 59, 230, 248, 150, 136, 222, 23, 216, 19, 98, 10, 0, 2, 46, 1,
        255, 255, 255, 254, 255, 254,
    ]);
    assert_eq!(beta.pow([3u64]), Fq::ONE);
    assert_eq!(e.x, fq_bytes(&(g.x * beta)));
    assert_eq!(e.y, fq_bytes(&g.y));
    assert!(from_g1(&e).is_on_curve());
}

#[test]
fn negation_and_point_equality() {
    let g = to_g1(&G1Affine::generator());
    let n = g1::neg(&g);
    assert_eq!(n.y, fq_bytes(&(-G1Affine::generator()).y));
    assert!(!g1::points_eq(&g, &n));
    assert!(g1::points_eq(&g, &g1::neg(&n)));
    let a = G1Point { x: vec![1u8; 48], y: vec![0u8; 48], infinity: true };
    let b = G1Point { x: vec![0u8; 48], y: vec![0u8; 48], infinity: true };
    assert!(g1::points_eq(&a, &b));
    assert_eq!(g1::Parameters::mul_by_a(&g.x), vec![0u8; 48]);
}

#[test]
fn g2_round_trips_both_forms() {
    let g = G2Affine::generator();
    for p in [g, -g, (g * Fr::from(5u64)).into_affine()] {
        let ours = to_g2(&p);
        for compress in [true, false] {
            let enc = g2::Parameters::serialize_with_mode(&ours, compress);
            let mut ark = Vec::new();
            p.serialize_with_mode(&mut ark, if compress {
                ark_serialize::Compress::Yes
            } else {
                ark_serialize::Compress::No
            })
            .unwrap();
            assert_eq!(enc, ark);
            let back = g2::Parameters::deserialize_with_mode(&enc, compress, true).unwrap();
            assert_eq!(back.x, ours.x);
            assert_eq!(back.y, ours.y);
            assert!(!back.infinity);
        }
    }
}

#[test]
fn g2_largest_compares_c1_first() {
    let g = to_g2(&G2Affine::generator());
    let n = to_g2(&(-G2Affine::generator()));
    assert_ne!(g2::fq2_is_largest(&g.y), g2::fq2_is_largest(&n.y));
}

#[test]
fn g2_decoding_errors() {
    let g = to_g2(&G2Affine::generator());
    let mut enc = g2::Parameters::serialize_with_mode(&g, true);
    enc[0] &= 0x7f;
    assert_eq!(g2::Parameters::deserialize_with_mode(&enc, true, false).err(), Some(Error::MalformedEncoding));
    let mut rng = ark_std::test_rng();
    loop {
        let x = ark_bls12_381::Fq2::rand(&mut rng);
        if G2Affine::get_point_from_x_unchecked(x, true).is_none() {
            let mut enc = [fq_bytes(&x.c1), fq_bytes(&x.c0)].concat();
            enc[0] |= 0x80;
            assert_eq!(g2::Parameters::deserialize_with_mode(&enc, true, false).err(), Some(Error::NotOnCurve));
            break;
        }
    }
    loop {
        let x = ark_bls12_381::Fq2::rand(&mut rng);
        if let Some(p) = G2Affine::get_point_from_x_unchecked(x, true) {
            if !p.is_in_correct_subgroup_assuming_on_curve() {
                let enc = g2::Parameters::serialize_with_mode(&to_g2(&p), true);
                assert_eq!(g2::Parameters::deserialize_with_mode(&enc, true, true).err(), Some(Error::NotInSubgroup));
                return;
            }
        }
    }
}

fn fq12(bytes: &[u8]) -> Fq12 {
    Fq12::deserialize_compressed(bytes).unwrap()
}

fn g1_compressed(p: &G1Affine) -> Vec<u8> {
    let mut v = Vec::new();
    p.serialize_compressed(&mut v).unwrap();
    v
}

fn g2_compressed(p: &G2Affine) -> Vec<u8> {
    let mut v = Vec::new();
    p.serialize_compressed(&mut v).unwrap();
    v
}

#[test]
fn multi_pairing_works() {
    let [a, b] = [G1Affine::generator(), G1Affine::generator()];
    let [c, d] = [G2Affine::generator(), G2Affine::generator()];
    let a_serialized = g1_compressed(&a);
    let b_serialized = g1_compressed(&b);
    let c_serialized = g2_compressed(&c);
    let d_serialized = g2_compressed(&d);
    assert_eq!(a_serialized.len(), 48);
    assert_eq!(c_serialized.len(), 96);
    let result_1 = engine::multi_pairing(
        vec![a_serialized, b_serialized],
        vec![c_serialized, d_serialized],
    )
    .unwrap();
    let result_1 = fq12(&result_1);
    let result_2 = Bls12_381::multi_pairing([a, b], [c, d]);
    assert_eq!(result_1, result_2.0);
}

#[test]
fn pairing_is_bilinear() {
    let p = G1Affine::generator();
    let q = G2Affine::generator();
    let (a, b) = (Fr::from(6u64), Fr::from(11u64));
    let ap = (p * a).into_affine();
    let bq = (q * b).into_affine();
    let lhs = engine::multi_pairing(vec![g1_compressed(&ap)], vec![g2_compressed(&bq)]).unwrap();
    let base = engine::multi_pairing(vec![g1_compressed(&p)], vec![g2_compressed(&q)]).unwrap();
    assert_eq!(fq12(&lhs), fq12(&base).pow((a * b).into_bigint()));
}

#[test]
fn multi_pairing_is_the_product_of_pairings() {
    let pa = G1Affine::generator();
    let pb = (pa * Fr::from(3u64)).into_affine();
    let qa = G2Affine::generator();
    let qb = (qa * Fr::from(5u64)).into_affine();
    let both = engine::multi_pairing(
        vec![g1_compressed(&pa), g1_compressed(&pb)],
        vec![g2_compressed(&qa), g2_compressed(&qb)],
    )
    .unwrap();
    let e1 = engine::multi_pairing(vec![g1_compressed(&pa)], vec![g2_compressed(&qa)]).unwrap();
    let e2 = engine::multi_pairing(vec![g1_compressed(&pb)], vec![g2_compressed(&qb)]).unwrap();
    assert_eq!(fq12(&both), fq12(&e1) * fq12(&e2));
}

#[test]
fn miller_loop_then_final_exponentiation() {
    let a = vec![g1_compressed(&G1Affine::generator())];
    let b = vec![g2_compressed(&G2Affine::generator())];
    let f = engine::multi_miller_loop(a.clone(), b.clone()).unwrap();
    assert_eq!(f.len(), 576);
    let e = engine::final_exponentiation(&f).unwrap();
    assert_eq!(e.len(), 576);
    assert_eq!(e, engine::multi_pairing(a, b).unwrap());
    assert_ne!(e, f);
    let empty = engine::multi_miller_loop(vec![], vec![]).unwrap();
    assert_eq!(fq12(&empty), Fq12::ONE);
}

#[test]
fn engine_errors() {
    let a = vec![g1_compressed(&G1Affine::generator())];
    assert_eq!(engine::multi_miller_loop(a.clone(), vec![]).err(), Some(Error::EngineFailure));
    assert_eq!(
        engine::multi_pairing(vec![vec![0u8; 47]], vec![g2_compressed(&G2Affine::generator())]).err(),
        Some(Error::MalformedEncoding)
    );
    assert_eq!(engine::final_exponentiation(&[0u8; 100]).err(), Some(Error::EngineFailure));
}

#[test]
fn orchestrated_pairing_matches_the_engine() {
    let bls = Bls12::new(Host);
    let p = G1Affine::generator();
    let q = G2Affine::generator();
    let ours = bls.multi_pairing(&vec![to_g1(&p), to_g1(&p)], &vec![to_g2(&q), to_g2(&q)]).unwrap();
    let direct = Bls12_381::multi_pairing([p, p], [q, q]);
    assert_eq!(fq12(&ours), direct.0);
    let single = bls.pairing(to_g1(&p), to_g2(&q)).unwrap();
    assert_eq!(fq12(&single), Bls12_381::pairing(p, q).0);
    assert_eq!(bls.final_exponentiation(&[1u8; 3]).err(), Some(Error::MalformedEncoding));
}

fn scalar_bytes(k: u64) -> Vec<u8> {
    let mut v = Vec::new();
    Fr::from(k).into_bigint().serialize_compressed(&mut v).unwrap();
    v
}

#[test]
fn msm_is_the_weighted_sum() {
    let g = G1Affine::generator();
    let g2x = (g * Fr::from(2u64)).into_affine();
    let bases = vec![to_g1(&g), to_g1(&g2x)];
    let sum = g1::Parameters::msm_bigint(&bases, vec![scalar_bytes(3), scalar_bytes(5)]).unwrap();
    let expected = (g * Fr::from(13u64)).into_affine();
    assert!(same_g1(&sum, &to_g1(&expected)));
    let none = g1::Parameters::msm_bigint(&vec![], vec![]).unwrap();
    assert!(none.infinity);
}

#[test]
fn msm_refuses_bad_operands() {
    let g = to_g1(&G1Affine::generator());
    assert_eq!(
        g1::Parameters::msm_bigint(&vec![g], vec![]).err(),
        Some(Error::EngineFailure)
    );
    let g = to_g1(&G1Affine::generator());
    assert_eq!(
        g1::Parameters::msm_bigint(&vec![g], vec![vec![1u8; 31]]).err(),
        Some(Error::EngineFailure)
    );
    assert_eq!(
        engine::msm_g1(vec![vec![0u8; 48]], vec![scalar_bytes(1)]).err(),
        Some(Error::MalformedEncoding)
    );
}

#[test]
fn infinity_flag_with_payload_is_malformed() {
    let mut c = vec![0u8; 48];
    c[0] = 0xc0;
    c[47] = 1;
    assert_eq!(g1::Parameters::deserialize_with_mode(&c, true, false).err(), Some(Error::MalformedEncoding));
    let mut c = vec![0u8; 48];
    c[0] = 0xe0;
    assert_eq!(g1::Parameters::deserialize_with_mode(&c, true, false).err(), Some(Error::MalformedEncoding));
    let mut u = vec![0u8; 96];
    u[0] = 0x40;
    u[60] = 3;
    assert_eq!(g1::Parameters::deserialize_with_mode(&u, false, false).err(), Some(Error::MalformedEncoding));
    let mut c2 = vec![0u8; 96];
    c2[0] = 0xc0;
    c2[95] = 1;
    assert_eq!(g2::Parameters::deserialize_with_mode(&c2, true, false).err(), Some(Error::MalformedEncoding));
    let mut ok = vec![0u8; 48];
    ok[0] = 0xc0;
    assert!(g1::Parameters::deserialize_with_mode(&ok, true, false).unwrap().infinity);
}

#[test]
fn sign_flag_on_uncompressed_is_malformed() {
    let g = to_g1(&G1Affine::generator());
    let mut u = g1::Parameters::serialize_with_mode(&g, false);
    u[0] |= 0x20;
    assert_eq!(g1::Parameters::deserialize_with_mode(&u, false, false).err(), Some(Error::MalformedEncoding));
    let h = to_g2(&G2Affine::generator());
    let mut u2 = g2::Parameters::serialize_with_mode(&h, false);
    u2[0] |= 0x20;
    assert_eq!(g2::Parameters::deserialize_with_mode(&u2, false, false).err(), Some(Error::MalformedEncoding));
}

#[test]
fn off_curve_uncompressed_is_not_on_curve() {
    let zeros = vec![0u8; 96];
    assert_eq!(g1::Parameters::deserialize_with_mode(&zeros, false, false).err(), Some(Error::NotOnCurve));
    let g = to_g1(&G1Affine::generator());
    let mut u = g1::Parameters::serialize_with_mode(&g, false);
    u[95] ^= 1;
    assert_eq!(g1::Parameters::deserialize_with_mode(&u, false, false).err(), Some(Error::NotOnCurve));
    let h = to_g2(&G2Affine::generator());
    let mut u2 = g2::Parameters::serialize_with_mode(&h, false);
    u2[191] ^= 1;
    assert_eq!(g2::Parameters::deserialize_with_mode(&u2, false, false).err(), Some(Error::NotOnCurve));
    assert_eq!(g2::Parameters::deserialize_with_mode(&vec![0u8; 192], false, false).err(), Some(Error::NotOnCurve));
}

#[test]
fn generator_and_beta_constants() {
    let g = g1::generator();
    assert!(same_g1(&g, &to_g1(&G1Affine::generator())));
    assert_eq!(g1::generator_x(), fq_bytes(&G1Affine::generator().x));
    assert_eq!(g1::generator_y(), fq_bytes(&G1Affine::generator().y));
    let beta = Fq::from_be_bytes_mod_order(&g1::beta());
    assert_eq!(beta.pow([3u64]), Fq::ONE);
    assert_ne!(beta, Fq::ONE);
}

#[test]
fn curve_parameters_run_the_engine() {
    let p = G1Affine::generator();
    let q = G2Affine::generator();
    let f = pairing::Parameters::multi_miller_loop(&vec![to_g1(&p)], &vec![to_g2(&q)]).unwrap();
    let direct = engine::multi_miller_loop(vec![g1_compressed(&p)], vec![g2_compressed(&q)]).unwrap();
    assert_eq!(f, direct);
    let e = pairing::Parameters::final_exponentiation(&f).unwrap();
    assert_eq!(fq12(&e), Bls12_381::pairing(p, q).0);
    assert_eq!(pairing::Parameters::final_exponentiation(&[0u8; 5]).err(), Some(Error::EngineFailure));
    assert_eq!(
        pairing::Parameters::multi_miller_loop(&vec![to_g1(&p)], &vec![]).err(),
        Some(Error::EngineFailure)
    );
    assert_eq!(pairing::Parameters::twist_type(), pairing::TwistType::M);
}

struct NonCanonicalHost;

impl HostFunctions for NonCanonicalHost {
    fn multi_miller_loop(&self, _a: Vec<Vec<u8>>, _b: Vec<Vec<u8>>) -> Result<Vec<u8>, Error> {
        Ok(vec![0xffu8; 576])
    }

    fn final_exponentiation(&self, _f12: &[u8]) -> Result<Vec<u8>, Error> {
        Ok(vec![0u8; 575])
    }
}

#[test]
fn engine_answers_that_are_not_target_elements_are_refused() {
    let bls = Bls12::new(NonCanonicalHost);
    let p = to_g1(&G1Affine::generator());
    let q = to_g2(&G2Affine::generator());
    assert_eq!(bls.multi_miller_loop(&vec![p], &vec![q]).err(), Some(Error::EngineFailure));
    assert_eq!(bls.final_exponentiation(&[0u8; 576]).err(), Some(Error::EngineFailure));
    let mut one = vec![0u8; 576];
    one[0] = 1;
    assert_eq!(pairing::check_target(one.clone()).unwrap(), one);
}
