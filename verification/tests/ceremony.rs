use ark_ec::AffineRepr;
use ark_ec::CurveGroup;
use ark_serialize::CanonicalDeserialize;
use ark_serialize::CanonicalSerialize;
use ark_std::UniformRand;

use powersoftau::cli::curve_from_str;
use powersoftau::cli::contribution_mode_from_str;
use powersoftau::cli::proving_system_from_str;
use powersoftau::cli::CurveKind;
use powersoftau::cli::ProvingSystem;
use powersoftau::errors::Error;
use powersoftau::group::g1_eq;
use powersoftau::group::g1_generator;
use powersoftau::group::g1_mul;
use powersoftau::group::g2_generator;
use powersoftau::group::scalar_from_u64;
use powersoftau::keypair::generate_keypair;
use powersoftau::params::CeremonyParams;
use powersoftau::params::CheckForCorrectness;
use powersoftau::params::ContributionMode;
use powersoftau::params::CurveParams;
use powersoftau::params::ElementType;
use powersoftau::params::UseCompression;
use powersoftau::phase1::combine;
use powersoftau::phase1::contribute;
use powersoftau::phase1::decompress;
use powersoftau::phase1::decompress_buffer_g1;
use powersoftau::phase1::decompress_buffer_g2;
use powersoftau::phase1::init;
use powersoftau::phase1::verify_pok_and_correctness;
use powersoftau::phase1::verify_ratios;

type G1 = ark_bls12_377::G1Affine;
type G2 = ark_bls12_377::G2Affine;
type Fr = ark_bls12_377::Fr;

fn full_params(power: usize) -> CeremonyParams {
    CeremonyParams::new_full(CurveParams::bls12_377(), power, 4)
}

fn g1_bytes(p: &G1, compressed: bool) -> Vec<u8> {
    let mut v = Vec::new();
    let mode = if compressed { ark_serialize::Compress::Yes } else { ark_serialize::Compress::No };
    p.serialize_with_mode(&mut v, mode).unwrap();
    v
}

fn g2_bytes(p: &G2, compressed: bool) -> Vec<u8> {
    let mut v = Vec::new();
    let mode = if compressed { ark_serialize::Compress::Yes } else { ark_serialize::Compress::No };
    p.serialize_with_mode(&mut v, mode).unwrap();
    v
}

#[test]
fn params_sizes() {
    let cases = [
        (CurveParams::bls12_377(), 96, 192, 48, 96),
        (CurveParams::bls12_381(), 96, 192, 48, 96),
        (CurveParams::bw6_761(), 192, 192, 96, 96),
    ];
    for (p, g1, g2, g1c, g2c) in cases {
        assert_eq!(p.g1, g1);
        assert_eq!(p.g2, g2);
        assert_eq!(p.g1_compressed, g1c);
        assert_eq!(p.g2_compressed, g2c);
    }
    // The engine sizes agree with the curve library.
    assert_eq!(G1::generator().uncompressed_size(), 96);
    assert_eq!(G1::generator().compressed_size(), 48);
    assert_eq!(G2::generator().uncompressed_size(), 192);
    assert_eq!(G2::generator().compressed_size(), 96);
}

#[test]
fn test_decompress_buffer() {
    let mut rng = ark_std::test_rng();
    let num_els = 10usize;

    let elements: Vec<G1> = (0..num_els)
        .map(|_| ark_bls12_377::G1Projective::rand(&mut rng).into_affine())
        .collect();
    let mut input = Vec::new();
    for e in &elements {
        input.extend_from_slice(&g1_bytes(e, true));
    }
    let mut out = vec![0u8; num_els * 96];
    decompress_buffer_g1(&mut out, &input, 0, num_els, CheckForCorrectness::No).unwrap();
    for (i, e) in elements.iter().enumerate() {
        let decoded = G1::deserialize_uncompressed(&out[i * 96..(i + 1) * 96]).unwrap();
        assert_eq!(&decoded, e);
    }

    let elements: Vec<G2> = (0..num_els)
        .map(|_| ark_bls12_377::G2Projective::rand(&mut rng).into_affine())
        .collect();
    let mut input = Vec::new();
    for e in &elements {
        input.extend_from_slice(&g2_bytes(e, true));
    }
    let mut out = vec![0u8; num_els * 192];
    decompress_buffer_g2(&mut out, &input, 0, num_els, CheckForCorrectness::No).unwrap();
    for (i, e) in elements.iter().enumerate() {
        let decoded = G2::deserialize_uncompressed(&out[i * 192..(i + 1) * 192]).unwrap();
        assert_eq!(&decoded, e);
    }
}

#[test]
fn init_then_verify_ratios() {
    let params = full_params(3);
    // 64 + 15*96 + 8*192 + 8*96 + 8*96 + 192 bytes uncompressed.
    let expected = 64 + 15 * 96 + 8 * 192 + 8 * 96 + 8 * 96 + 192;
    assert_eq!(params.get_length(UseCompression::No), expected);
    let mut acc = vec![0xAAu8; expected];
    init(&mut acc, &params, UseCompression::No);
    // The digest prefix is zeroed.
    assert!(acc[..64].iter().all(|b| *b == 0));
    // TauG1[0] is the generator.
    assert_eq!(&acc[64..64 + 96], g1_bytes(&G1::generator(), false).as_slice());
    verify_ratios(&acc, UseCompression::No, CheckForCorrectness::Both, &params).unwrap();
}

fn one_contribution(
    params: &CeremonyParams,
    challenge: &[u8],
    tau: u64,
    alpha: u64,
    beta: u64,
    sigma: u64,
) -> (Vec<u8>, powersoftau::keypair::PublicKey) {
    let digest = vec![0u8; 64];
    let (pk, sk) = generate_keypair(
        &digest,
        scalar_from_u64(tau),
        scalar_from_u64(alpha),
        scalar_from_u64(beta),
        &scalar_from_u64(sigma),
        &scalar_from_u64(sigma + 1),
        &scalar_from_u64(sigma + 2),
    );
    let mut response = vec![0u8; params.get_length(UseCompression::Yes)];
    contribute(
        challenge,
        UseCompression::No,
        CheckForCorrectness::No,
        &mut response,
        UseCompression::Yes,
        &sk,
        params,
    )
    .unwrap();
    (response, pk)
}

#[test]
fn contribute_then_verify() {
    let params = full_params(3);
    let mut challenge = vec![0u8; params.get_length(UseCompression::No)];
    init(&mut challenge, &params, UseCompression::No);
    let (response, pk) = one_contribution(&params, &challenge, 6, 7, 8, 100);

    // TauG1[1] of the response is g1 * tau.
    let tau_point = (G1::generator() * Fr::from(6u64)).into_affine();
    assert_eq!(&response[64 + 48..64 + 2 * 48], g1_bytes(&tau_point, true).as_slice());

    let digest = vec![0u8; 64];
    verify_pok_and_correctness(
        &challenge,
        UseCompression::No,
        CheckForCorrectness::No,
        &response,
        UseCompression::Yes,
        CheckForCorrectness::Both,
        &pk,
        &digest,
        &params,
    )
    .unwrap();
}

#[test]
fn two_contributions_multiply_beta() {
    let params = full_params(3);
    let mut challenge = vec![0u8; params.get_length(UseCompression::No)];
    init(&mut challenge, &params, UseCompression::No);
    let (r1, _) = one_contribution(&params, &challenge, 2, 3, 5, 100);
    let mut c1 = vec![0u8; params.get_length(UseCompression::No)];
    decompress(&r1, CheckForCorrectness::No, &mut c1, &params).unwrap();
    let (r2, _) = one_contribution(&params, &c1, 7, 11, 13, 200);

    // The BetaG2 singleton is g2 * (5 * 13) after the two contributions.
    let beta_point = (G2::generator() * Fr::from(65u64)).into_affine();
    let beta_off = r2.len() - 96;
    assert_eq!(&r2[beta_off..], g2_bytes(&beta_point, true).as_slice());
}

#[test]
fn decompressed_response_passes_ratio_check() {
    let params = full_params(3);
    let mut challenge = vec![0u8; params.get_length(UseCompression::No)];
    init(&mut challenge, &params, UseCompression::No);
    let (response, _) = one_contribution(&params, &challenge, 6, 7, 8, 100);
    let mut decompressed = vec![0u8; params.get_length(UseCompression::No)];
    decompress(&response, CheckForCorrectness::No, &mut decompressed, &params).unwrap();
    verify_ratios(&decompressed, UseCompression::No, CheckForCorrectness::Both, &params).unwrap();
}

#[test]
fn tampered_response_is_rejected() {
    let params = full_params(3);
    let mut challenge = vec![0u8; params.get_length(UseCompression::No)];
    init(&mut challenge, &params, UseCompression::No);
    let (response, pk) = one_contribution(&params, &challenge, 6, 7, 8, 100);
    let mut decompressed = vec![0u8; params.get_length(UseCompression::No)];
    decompress(&response, CheckForCorrectness::No, &mut decompressed, &params).unwrap();

    // Flip one byte in the middle of TauG1[5] (a coordinate byte).
    let mut tampered = decompressed.clone();
    tampered[64 + 5 * 96 + 17] ^= 0x40;
    let digest = vec![0u8; 64];
    let r = verify_pok_and_correctness(
        &challenge,
        UseCompression::No,
        CheckForCorrectness::No,
        &tampered,
        UseCompression::No,
        CheckForCorrectness::Both,
        &pk,
        &digest,
        &params,
    );
    match r {
        Err(Error::IncorrectSubgroup(ElementType::TauG1))
        | Err(Error::SerializationFailed(ElementType::TauG1))
        | Err(Error::InvalidRatio(ElementType::TauG1)) => (),
        other => panic!("tampered accumulator was not rejected as expected: {:?}", other),
    }
}

#[test]
fn wrong_digest_fails_proof_of_knowledge() {
    let params = full_params(3);
    let mut challenge = vec![0u8; params.get_length(UseCompression::No)];
    init(&mut challenge, &params, UseCompression::No);
    let (response, pk) = one_contribution(&params, &challenge, 6, 7, 8, 100);
    let other_digest = vec![1u8; 64];
    let r = verify_pok_and_correctness(
        &challenge,
        UseCompression::No,
        CheckForCorrectness::No,
        &response,
        UseCompression::Yes,
        CheckForCorrectness::Both,
        &pk,
        &other_digest,
        &params,
    );
    assert!(matches!(r, Err(Error::InvalidProofOfKnowledge(_))));
}

#[test]
fn combine_matches_full_initialization() {
    // power 3: 15 TauG1 elements, chunk size 4 -> 4 chunks.
    let full = CeremonyParams::new_full(CurveParams::bls12_377(), 3, 4);
    let mut expected = vec![0u8; full.get_length(UseCompression::No)];
    init(&mut expected, &full, UseCompression::No);

    let mut chunks: Vec<Vec<u8>> = Vec::new();
    for k in 0..4usize {
        let params_k = CeremonyParams::new_chunked(k, 4, CurveParams::bls12_377(), 3, 4);
        let (g1c, oc) = params_k.chunk_element_sizes();
        let len = 64 + g1c * 96 + oc * (192 + 2 * 96) + 192;
        let mut chunk = vec![0u8; len];
        init(&mut chunk, &params_k, UseCompression::No);
        chunks.push(chunk);
    }
    let chunked = CeremonyParams::new_chunked(0, 4, CurveParams::bls12_377(), 3, 4);
    let mut combined = vec![0u8; full.get_length(UseCompression::No)];
    combine(
        &chunks,
        UseCompression::No,
        CheckForCorrectness::No,
        &mut combined,
        UseCompression::No,
        &chunked,
    )
    .unwrap();
    // Element data is byte-identical to the full-mode initialization.
    assert_eq!(&combined[64..], &expected[64..]);
}

#[test]
fn chunked_contributions_combine_to_full_run() {
    // power 5, chunk size 8, responses compressed as in a real ceremony.
    let full = CeremonyParams::new_full(CurveParams::bls12_377(), 5, 8);
    let mut challenge = vec![0u8; full.get_length(UseCompression::No)];
    init(&mut challenge, &full, UseCompression::No);
    let (full_response, _) = one_contribution(&full, &challenge, 6, 7, 8, 100);
    let mut expected = vec![0u8; full.get_length(UseCompression::No)];
    decompress(&full_response, CheckForCorrectness::No, &mut expected, &full).unwrap();

    // Build per-chunk challenges from the full challenge and contribute per chunk.
    let digest = vec![0u8; 64];
    let (_, sk) = generate_keypair(
        &digest,
        scalar_from_u64(6),
        scalar_from_u64(7),
        scalar_from_u64(8),
        &scalar_from_u64(100),
        &scalar_from_u64(101),
        &scalar_from_u64(102),
    );
    let mut responses: Vec<Vec<u8>> = Vec::new();
    for k in 0..8usize {
        let params_k = CeremonyParams::new_chunked(k, 8, CurveParams::bls12_377(), 5, 8);
        let (g1c, oc) = params_k.chunk_element_sizes();
        // Slice this chunk out of the full challenge.
        let mut chunk_challenge = vec![0u8; 64 + g1c * 96 + oc * (192 + 2 * 96) + 192];
        let mut pos = 64usize;
        let start = k * 8;
        chunk_challenge[pos..pos + g1c * 96]
            .copy_from_slice(&challenge[64 + start * 96..64 + (start + g1c) * 96]);
        pos += g1c * 96;
        let t2 = 64 + 63 * 96;
        let al = t2 + 32 * 192;
        let bt = al + 32 * 96;
        if oc > 0 {
            chunk_challenge[pos..pos + oc * 192]
                .copy_from_slice(&challenge[t2 + start * 192..t2 + (start + oc) * 192]);
            pos += oc * 192;
            chunk_challenge[pos..pos + oc * 96]
                .copy_from_slice(&challenge[al + start * 96..al + (start + oc) * 96]);
            pos += oc * 96;
            chunk_challenge[pos..pos + oc * 96]
                .copy_from_slice(&challenge[bt + start * 96..bt + (start + oc) * 96]);
            pos += oc * 96;
        }
        let bg2 = bt + 32 * 96;
        chunk_challenge[pos..pos + 192].copy_from_slice(&challenge[bg2..bg2 + 192]);

        let mut response = vec![0u8; 64 + g1c * 48 + oc * (96 + 2 * 48) + 96];
        contribute(
            &chunk_challenge,
            UseCompression::No,
            CheckForCorrectness::No,
            &mut response,
            UseCompression::Yes,
            &sk,
            &params_k,
        )
        .unwrap();
        responses.push(response);
    }
    let chunked = CeremonyParams::new_chunked(0, 8, CurveParams::bls12_377(), 5, 8);
    let mut combined = vec![0u8; full.get_length(UseCompression::No)];
    combine(
        &responses,
        UseCompression::Yes,
        CheckForCorrectness::No,
        &mut combined,
        UseCompression::No,
        &chunked,
    )
    .unwrap();
    assert_eq!(&combined[64..], &expected[64..]);
}

#[test]
fn flag_parsers() {
    assert!(matches!(curve_from_str("bls12_381"), Ok(CurveKind::Bls12_381)));
    assert!(matches!(curve_from_str("BLS12_377"), Ok(CurveKind::Bls12_377)));
    assert!(matches!(curve_from_str("bw6"), Ok(CurveKind::BW6)));
    assert!(matches!(curve_from_str("bn254"), Ok(CurveKind::Bn254)));
    assert!(curve_from_str("secp256k1").is_err());
    assert!(matches!(proving_system_from_str("Groth16"), Ok(ProvingSystem::Groth16)));
    assert!(proving_system_from_str("plonk").is_err());
    assert!(matches!(contribution_mode_from_str("full"), Ok(ContributionMode::Full)));
    assert!(matches!(contribution_mode_from_str("Chunked"), Ok(ContributionMode::Chunked)));
    assert!(contribution_mode_from_str("sharded").is_err());
}

fn trivial_phase2() -> powersoftau::phase2::Phase2Parameters {
    // A trivial single-constraint system: every query is the generator and
    // delta starts at one.
    powersoftau::phase2::Phase2Parameters {
        h_query: Vec::new(),
        l_query: vec![g1_generator()],
        a_query: vec![g1_generator()],
        b_g1_query: vec![g1_generator()],
        b_g2_query: vec![g2_generator()],
        alpha_g1: g1_generator(),
        beta_g1: g1_generator(),
        beta_g2: g2_generator(),
        delta_g1: g1_generator(),
        delta_g2: g2_generator(),
        cs_hash: vec![0u8; 64],
        contributions: Vec::new(),
    }
}

#[test]
fn phase2_contribute_verify_combine() {
    let digest = vec![0u8; 64];
    let before = trivial_phase2();
    let mut after = trivial_phase2();
    powersoftau::phase2::contribute(&mut after, &digest, scalar_from_u64(2), &scalar_from_u64(9))
        .unwrap();
    let hashes = powersoftau::phase2::verify(&before, &after, &digest).unwrap();
    assert_eq!(hashes.len(), 1);
    assert_eq!(hashes[0], digest);

    let combined = powersoftau::phase2::combine(trivial_phase2(), vec![after]).unwrap();
    assert_eq!(combined.contributions.len(), 1);
    let two_g1 = g1_mul(&g1_generator(), &scalar_from_u64(2));
    assert!(g1_eq(&combined.delta_g1, &two_g1));
}

#[test]
fn phase2_new_trivial_system() {
    // A phase-1 accumulator for power 3, deserialized into memory.
    let params = full_params(3);
    let mut challenge = vec![0u8; params.get_length(UseCompression::No)];
    init(&mut challenge, &params, UseCompression::No);
    let srs = powersoftau::phase1::deserialize(
        &challenge,
        UseCompression::No,
        CheckForCorrectness::Both,
        &params,
    )
    .unwrap();

    // The trivial single-constraint system: A = B = C = I_1, one variable.
    let a = vec![vec![(1u64, 0usize)]];
    let b = vec![vec![(1u64, 0usize)]];
    let c = vec![vec![(1u64, 0usize)]];
    let initial = powersoftau::phase2::phase2_new(&srs, &a, &b, &c, 1, 1).unwrap();
    assert_eq!(initial.h_query.len(), 0);
    assert_eq!(initial.contributions.len(), 0);
    assert!(g1_eq(&initial.delta_g1, &g1_generator()));
    // With p = 1 the single Lagrange basis polynomial is the constant one,
    // so every query element is the first element of its source array: g1.
    assert!(g1_eq(&initial.a_query[0], &g1_generator()));
    assert!(g1_eq(&initial.l_query[0], &g1_mul(&g1_generator(), &scalar_from_u64(3))));

    // new -> contribute(delta = 2) -> combine; a single contribution hash is
    // reported and the final delta is 2 * g1.
    let digest = vec![7u8; 64];
    let mut response = powersoftau::phase2::phase2_new(&srs, &a, &b, &c, 1, 1).unwrap();
    powersoftau::phase2::contribute(&mut response, &digest, scalar_from_u64(2), &scalar_from_u64(9))
        .unwrap();
    let hashes = powersoftau::phase2::verify(&initial, &response, &digest).unwrap();
    assert_eq!(hashes.len(), 1);
    let combined = powersoftau::phase2::combine(initial, vec![response]).unwrap();
    assert_eq!(combined.contributions.len(), 1);
    let two_g1 = g1_mul(&g1_generator(), &scalar_from_u64(2));
    assert!(g1_eq(&combined.delta_g1, &two_g1));
}

#[test]
fn phase2_zero_delta_is_rejected() {
    let digest = vec![0u8; 64];
    let mut p = trivial_phase2();
    assert!(powersoftau::phase2::contribute(&mut p, &digest, scalar_from_u64(0), &scalar_from_u64(9)).is_err());
}

#[test]
fn phase2_file_roundtrip() {
    // A non-trivial accumulator (tau != 1), so that no stored query point is
    // the point at infinity, which the reader's validity check rejects.
    let params = full_params(3);
    let mut challenge = vec![0u8; params.get_length(UseCompression::No)];
    init(&mut challenge, &params, UseCompression::No);
    let (r1, _) = one_contribution(&params, &challenge, 6, 7, 8, 100);
    let mut acc = vec![0u8; params.get_length(UseCompression::No)];
    decompress(&r1, CheckForCorrectness::No, &mut acc, &params).unwrap();
    let srs = powersoftau::phase1::deserialize(
        &acc,
        UseCompression::No,
        CheckForCorrectness::No,
        &params,
    )
    .unwrap();
    // Every variable appears in each matrix, so every query entry is a
    // non-zero combination.
    let a = vec![vec![(1u64, 0usize), (2u64, 1usize), (1u64, 2usize)]];
    let b = vec![vec![(1u64, 0usize), (1u64, 1usize), (3u64, 2usize)]];
    let c = vec![vec![(2u64, 0usize), (1u64, 1usize), (1u64, 2usize)]];
    let mut p2 = powersoftau::phase2::phase2_new(&srs, &a, &b, &c, 4, 3).unwrap();
    let digest = vec![5u8; 64];
    powersoftau::phase2::contribute(&mut p2, &digest, scalar_from_u64(2), &scalar_from_u64(9))
        .unwrap();

    let bytes = powersoftau::phase2::write_phase2(&p2).unwrap();
    let back = powersoftau::phase2::read_phase2(&bytes).unwrap();
    assert_eq!(back.cs_hash, p2.cs_hash);
    assert_eq!(back.h_query.len(), p2.h_query.len());
    assert_eq!(back.l_query.len(), p2.l_query.len());
    assert_eq!(back.a_query.len(), p2.a_query.len());
    assert_eq!(back.b_g1_query.len(), p2.b_g1_query.len());
    assert_eq!(back.b_g2_query.len(), p2.b_g2_query.len());
    for (x, y) in back.h_query.iter().zip(p2.h_query.iter()) {
        assert!(g1_eq(x, y));
    }
    for (x, y) in back.l_query.iter().zip(p2.l_query.iter()) {
        assert!(g1_eq(x, y));
    }
    for (x, y) in back.a_query.iter().zip(p2.a_query.iter()) {
        assert!(g1_eq(x, y));
    }
    for (x, y) in back.b_g1_query.iter().zip(p2.b_g1_query.iter()) {
        assert!(g1_eq(x, y));
    }
    assert!(g1_eq(&back.alpha_g1, &p2.alpha_g1));
    assert!(g1_eq(&back.beta_g1, &p2.beta_g1));
    assert!(g1_eq(&back.delta_g1, &p2.delta_g1));
    assert_eq!(back.contributions.len(), 1);
    assert_eq!(back.contributions[0].transcript, p2.contributions[0].transcript);
    assert!(g1_eq(&back.contributions[0].delta_after_g1, &p2.contributions[0].delta_after_g1));
    assert!(g1_eq(&back.contributions[0].s, &p2.contributions[0].s));
    assert!(g1_eq(&back.contributions[0].s_delta, &p2.contributions[0].s_delta));

    // A corrupted stored point and a truncated file are both rejected.
    let mut bad = bytes.clone();
    bad[130] ^= 0xff;
    assert!(powersoftau::phase2::read_phase2(&bad).is_err());
    assert!(powersoftau::phase2::read_phase2(&bytes[..bytes.len() - 1]).is_err());
}

#[test]
fn deserialize_serialize_roundtrip() {
    let params = full_params(3);
    let mut challenge = vec![0u8; params.get_length(UseCompression::No)];
    init(&mut challenge, &params, UseCompression::No);
    let (response, _) = one_contribution(&params, &challenge, 6, 7, 8, 100);
    let elements = powersoftau::phase1::deserialize(
        &response,
        UseCompression::Yes,
        CheckForCorrectness::Both,
        &params,
    )
    .unwrap();
    let mut rewritten = vec![0u8; params.get_length(UseCompression::Yes)];
    powersoftau::phase1::serialize(&elements, &mut rewritten, UseCompression::Yes, &params);
    // The element data is reproduced byte for byte.
    assert_eq!(&rewritten[64..], &response[64..]);
}
