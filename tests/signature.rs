use amcl_wrapper::field_elem::FieldElement;
use amcl_wrapper::group_elem::GroupElement;
use amcl_wrapper::group_elem_g1::G1;
use amcl_wrapper::group_elem_g2::G2;
use coconut::algebra::{G1Elem, G2Elem, Scalar};
use coconut::lagrange::{lagrange_basis_at_0, Polynomial};
use coconut::signature::{
    CoconutError, Params, Sigkey, Signature, SignatureRequest, SignatureRequestPoK, Verkey,
};

fn fe(s: &Scalar) -> FieldElement {
    FieldElement::from_bytes(&s.bytes).unwrap()
}

fn scalar(f: &FieldElement) -> Scalar {
    Scalar { bytes: f.to_bytes() }
}

fn random_scalar() -> Scalar {
    scalar(&FieldElement::random())
}

fn random_scalars(n: usize) -> Vec<Scalar> {
    (0..n).map(|_| random_scalar()).collect()
}

fn g1_times(p: &G1Elem, s: &Scalar) -> G1Elem {
    let q = G1::from_bytes(&p.bytes).unwrap() * fe(s);
    G1Elem { bytes: q.to_bytes(false) }
}

fn g2_times(p: &G2Elem, s: &Scalar) -> G2Elem {
    let q = G2::from_bytes(&p.bytes).unwrap() * fe(s);
    G2Elem { bytes: q.to_bytes(false) }
}

/// A dealer that shares `x` and each `y_i` with polynomials of degree
/// `threshold - 1`; signer `i` (from 1) gets the evaluations at `i`.
fn trusted_party_keygen(
    threshold: usize,
    total: usize,
    params: &Params,
) -> (Scalar, Vec<Scalar>, Vec<(usize, Sigkey, Verkey)>) {
    let msg_count = params.msg_count();
    let x_poly = Polynomial::random(threshold - 1);
    let y_polys: Vec<Polynomial> =
        (0..msg_count).map(|_| Polynomial::random(threshold - 1)).collect();
    let secret_x = x_poly.coefficients[0].clone();
    let secret_y: Vec<Scalar> = y_polys.iter().map(|p| p.coefficients[0].clone()).collect();
    let mut keys = vec![];
    for id in 1..=total {
        let x = x_poly.eval(id);
        let y: Vec<Scalar> = y_polys.iter().map(|p| p.eval(id)).collect();
        let vk = Verkey {
            X_tilde: g2_times(&params.g2, &x),
            Y_tilde: y.iter().map(|y_i| g2_times(&params.g2, y_i)).collect(),
        };
        keys.push((id, Sigkey { x, y }, vk));
    }
    (secret_x, secret_y, keys)
}

fn elgamal_keygen(params: &Params) -> (Scalar, G1Elem) {
    let sk = random_scalar();
    let pk = g1_times(&params.g1, &sk);
    (sk, pk)
}

fn challenge_for(pok: &SignatureRequestPoK) -> Scalar {
    scalar(&FieldElement::from_msg_hash(&pok.to_bytes()))
}

#[test]
fn test_verkey_aggregation() {
    let threshold = 3;
    let total = 5;
    let msg_count = 7;
    let params = Params::new(msg_count, "test".as_bytes());
    let (secret_x, secret_y, keys) = trusted_party_keygen(threshold, total, &params);

    let aggr_vk = Verkey::aggregate(
        threshold,
        keys.iter().take(threshold).map(|k| (k.0, &k.2)).collect::<Vec<(usize, &Verkey)>>(),
    )
    .unwrap();

    let expected_X_tilde = g2_times(&params.g2, &secret_x);
    assert_eq!(expected_X_tilde, aggr_vk.X_tilde);

    for i in 0..msg_count {
        let expected_Y_tilde_i = g2_times(&params.g2, &secret_y[i]);
        assert_eq!(expected_Y_tilde_i, aggr_vk.Y_tilde[i]);
    }
}

/// Runs issuance with the signers at `signers` (indices into the keys) and
/// checks the aggregate against the verkey aggregated from `verifiers`.
fn issue_and_verify(
    msg_count: usize,
    count_hidden: usize,
    threshold: usize,
    total: usize,
    signers: &[usize],
    verifiers: &[usize],
) {
    let params = Params::new(msg_count, "test".as_bytes());
    let (_, _, keys) = trusted_party_keygen(threshold, total, &params);

    let msgs = random_scalars(msg_count);
    let (elg_sk, elg_pk) = elgamal_keygen(&params);

    let (sig_req, randomness) =
        SignatureRequest::new(&msgs, count_hidden, &elg_pk, &params).unwrap();

    let sig_req_pok = SignatureRequestPoK::init(&sig_req, &elg_pk, &params);
    let challenge = challenge_for(&sig_req_pok);
    let hidden_msgs: Vec<Scalar> = msgs.iter().take(count_hidden).cloned().collect();
    let sig_req_proof =
        sig_req_pok.gen_proof(&hidden_msgs, randomness, &elg_sk, &challenge).unwrap();

    let mut blinded_sigs = vec![];
    for &i in signers {
        assert!(sig_req_proof.verify(&sig_req, &elg_pk, &challenge, &params).unwrap());
        blinded_sigs.push(Signature::new_blinded(&sig_req, &keys[i].1));
    }

    let mut unblinded_sigs = vec![];
    for &i in signers {
        let unblinded_sig = Signature::new_unblinded(blinded_sigs.remove(0), &elg_sk);
        assert!(unblinded_sig.verify(&msgs, &keys[i].2, &params));
        unblinded_sigs.push((keys[i].0, unblinded_sig));
    }

    let aggr_sig = Signature::aggregate(threshold, unblinded_sigs).unwrap();

    let aggr_vk = Verkey::aggregate(
        threshold,
        verifiers.iter().map(|&i| (keys[i].0, &keys[i].2)).collect::<Vec<(usize, &Verkey)>>(),
    )
    .unwrap();

    assert!(aggr_sig.verify(&msgs, &aggr_vk, &params));
}

#[test]
fn test_sign_verify() {
    issue_and_verify(6, 2, 3, 5, &[0, 1, 2], &[0, 1, 2, 3, 4]);
}

#[test]
fn test_verkey_aggregation_gaps_in_ids() {
    let threshold = 3;
    let total = 5;
    let msg_count = 7;
    let params = Params::new(msg_count, "test".as_bytes());
    let (secret_x, secret_y, keys) = trusted_party_keygen(threshold, total, &params);

    let mut keys_to_aggr = vec![];
    keys_to_aggr.push((keys[0].0, &keys[0].2));
    keys_to_aggr.push((keys[2].0, &keys[2].2));
    keys_to_aggr.push((keys[4].0, &keys[4].2));

    let aggr_vk = Verkey::aggregate(threshold, keys_to_aggr).unwrap();

    let expected_X_tilde = g2_times(&params.g2, &secret_x);
    assert_eq!(expected_X_tilde, aggr_vk.X_tilde);

    for i in 0..msg_count {
        let expected_Y_tilde_i = g2_times(&params.g2, &secret_y[i]);
        assert_eq!(expected_Y_tilde_i, aggr_vk.Y_tilde[i]);
    }
}

#[test]
fn test_sign_verify_1() {
    // Signers {1, 3, 5} sign; the verkey is aggregated over signers {2, 4, 6}.
    issue_and_verify(6, 2, 3, 6, &[0, 2, 4], &[1, 3, 5]);
}

#[test]
fn all_attributes_public() {
    issue_and_verify(7, 0, 3, 5, &[0, 1, 2], &[0, 1, 2]);
}

#[test]
fn all_attributes_hidden() {
    issue_and_verify(4, 4, 2, 3, &[2, 0], &[1, 2]);
}

#[test]
fn corrupted_response_is_rejected() {
    let msg_count = 6;
    let count_hidden = 2;
    let params = Params::new(msg_count, "test".as_bytes());
    let msgs = random_scalars(msg_count);
    let (elg_sk, elg_pk) = elgamal_keygen(&params);
    let (sig_req, randomness) =
        SignatureRequest::new(&msgs, count_hidden, &elg_pk, &params).unwrap();
    let pok = SignatureRequestPoK::init(&sig_req, &elg_pk, &params);
    let challenge = challenge_for(&pok);
    let hidden: Vec<Scalar> = msgs.iter().take(count_hidden).cloned().collect();
    let mut proof = pok.gen_proof(&hidden, randomness, &elg_sk, &challenge).unwrap();
    assert!(proof.verify(&sig_req, &elg_pk, &challenge, &params).unwrap());

    let good = proof.proof_commitment.responses[2].clone();
    proof.proof_commitment.responses[2] = random_scalar();
    assert!(!proof.verify(&sig_req, &elg_pk, &challenge, &params).unwrap());
    proof.proof_commitment.responses[2] = good;

    // A flipped bit in a prover commitment.
    proof.proof_elgamal_sk.commitment.bytes[20] ^= 1;
    assert!(!proof.verify(&sig_req, &elg_pk, &challenge, &params).unwrap());
    proof.proof_elgamal_sk.commitment.bytes[20] ^= 1;
    assert!(proof.verify(&sig_req, &elg_pk, &challenge, &params).unwrap());

    // The response for hidden message 0 differs between the commitment and
    // the ciphertext proof.
    proof.proof_ciphertexts[0].1.responses[1] = random_scalar();
    assert!(!proof.verify(&sig_req, &elg_pk, &challenge, &params).unwrap());
}

#[test]
fn tampered_commitment_is_rejected() {
    let params = Params::new(3, "test".as_bytes());
    let msgs = random_scalars(3);
    let (elg_sk, elg_pk) = elgamal_keygen(&params);
    let (mut sig_req, randomness) = SignatureRequest::new(&msgs, 2, &elg_pk, &params).unwrap();
    let pok = SignatureRequestPoK::init(&sig_req, &elg_pk, &params);
    let challenge = challenge_for(&pok);
    let hidden: Vec<Scalar> = msgs.iter().take(2).cloned().collect();
    let proof = pok.gen_proof(&hidden, randomness, &elg_sk, &challenge).unwrap();
    sig_req.commitment = g1_times(&params.g1, &random_scalar());
    assert!(!proof.verify(&sig_req, &elg_pk, &challenge, &params).unwrap());
}

#[test]
fn pok_bytes_layout() {
    let params = Params::new(4, "test".as_bytes());
    let msgs = random_scalars(4);
    let (_, elg_pk) = elgamal_keygen(&params);
    let (sig_req, _) = SignatureRequest::new(&msgs, 2, &elg_pk, &params).unwrap();
    let pok = SignatureRequestPoK::init(&sig_req, &elg_pk, &params);
    let bytes = pok.to_bytes();
    // Six compressed points: T_d, T_C and a pair for each of two ciphertexts.
    assert_eq!(bytes.len(), 6 * 49);
    let t_d = G1::from_bytes(&pok.pok_vc_elgamal_sk.commitment.bytes).unwrap().to_bytes(true);
    assert_eq!(&bytes[0..49], &t_d[..]);
    let t_b1 =
        G1::from_bytes(&pok.pok_vc_ciphertext[1].1.commitment.bytes).unwrap().to_bytes(true);
    assert_eq!(&bytes[5 * 49..], &t_b1[..]);
}

#[test]
fn tampered_statement_is_rejected() {
    let msg_count = 3;
    let count_hidden = 1;
    let params = Params::new(msg_count, "test".as_bytes());
    let msgs = random_scalars(msg_count);
    let (elg_sk, elg_pk) = elgamal_keygen(&params);
    let (mut sig_req, randomness) =
        SignatureRequest::new(&msgs, count_hidden, &elg_pk, &params).unwrap();
    let pok = SignatureRequestPoK::init(&sig_req, &elg_pk, &params);
    let challenge = challenge_for(&pok);
    let hidden: Vec<Scalar> = msgs.iter().take(count_hidden).cloned().collect();
    let proof = pok.gen_proof(&hidden, randomness, &elg_sk, &challenge).unwrap();
    let other = g1_times(&params.g1, &random_scalar());
    sig_req.ciphertexts[0].0 = other.clone();
    assert!(!proof.verify(&sig_req, &elg_pk, &challenge, &params).unwrap());
    let wrong_challenge = random_scalar();
    sig_req.ciphertexts[0].0 = g1_times(&params.g1, &random_scalar());
    assert!(!proof.verify(&sig_req, &elg_pk, &wrong_challenge, &params).unwrap());
}

#[test]
fn proof_shape_mismatch_is_an_error() {
    let params = Params::new(3, "test".as_bytes());
    let msgs = random_scalars(3);
    let (elg_sk, elg_pk) = elgamal_keygen(&params);
    let (sig_req, randomness) = SignatureRequest::new(&msgs, 1, &elg_pk, &params).unwrap();
    let pok = SignatureRequestPoK::init(&sig_req, &elg_pk, &params);
    let challenge = challenge_for(&pok);
    let hidden: Vec<Scalar> = msgs.iter().take(1).cloned().collect();
    let mut proof = pok.gen_proof(&hidden, randomness, &elg_sk, &challenge).unwrap();
    proof.proof_commitment.responses.pop();
    assert_eq!(
        proof.verify(&sig_req, &elg_pk, &challenge, &params),
        Err(CoconutError::ShapeError)
    );
}

#[test]
fn gen_proof_shape_mismatch_is_an_error() {
    let params = Params::new(3, "test".as_bytes());
    let msgs = random_scalars(3);
    let (elg_sk, elg_pk) = elgamal_keygen(&params);
    let (sig_req, randomness) = SignatureRequest::new(&msgs, 1, &elg_pk, &params).unwrap();
    let pok = SignatureRequestPoK::init(&sig_req, &elg_pk, &params);
    let challenge = challenge_for(&pok);
    let r = pok.gen_proof(&msgs, randomness, &elg_sk, &challenge);
    assert!(matches!(r, Err(CoconutError::ShapeError)));
}

#[test]
fn request_shape_errors() {
    let params = Params::new(3, "test".as_bytes());
    let (_, elg_pk) = elgamal_keygen(&params);
    let msgs = random_scalars(3);
    assert!(matches!(
        SignatureRequest::new(&msgs, 4, &elg_pk, &params),
        Err(CoconutError::ShapeError)
    ));
    let fewer = random_scalars(2);
    assert!(matches!(
        SignatureRequest::new(&fewer, 1, &elg_pk, &params),
        Err(CoconutError::ShapeError)
    ));
    let rnd = random_scalars(1);
    assert!(matches!(
        SignatureRequest::new_with_randomness(&msgs, 1, &elg_pk, &params, &rnd),
        Err(CoconutError::ShapeError)
    ));
}

#[test]
fn request_matches_its_randomness() {
    let params = Params::new(3, "test".as_bytes());
    let (_, elg_pk) = elgamal_keygen(&params);
    let msgs = random_scalars(3);
    let rnd = random_scalars(3);
    let req = SignatureRequest::new_with_randomness(&msgs, 2, &elg_pk, &params, &rnd).unwrap();
    assert_eq!(req.known_messages, vec![msgs[2].clone()]);
    assert_eq!(req.ciphertexts.len(), 2);
    assert_eq!(req.ciphertexts[1].0, g1_times(&params.g1, &rnd[2]));
    let expected = G1::from_bytes(&params.h[0].bytes).unwrap() * fe(&msgs[0])
        + G1::from_bytes(&params.h[1].bytes).unwrap() * fe(&msgs[1])
        + G1::from_bytes(&params.g1.bytes).unwrap() * fe(&rnd[0]);
    assert_eq!(req.commitment.bytes, expected.to_bytes(false));
}

#[test]
fn aggregation_below_threshold() {
    let params = Params::new(2, "test".as_bytes());
    let (_, _, keys) = trusted_party_keygen(3, 5, &params);
    let sigs = vec![
        (1, Signature { sigma_1: params.g1.clone(), sigma_2: params.g1.clone() }),
        (2, Signature { sigma_1: params.g1.clone(), sigma_2: params.g1.clone() }),
    ];
    assert!(matches!(Signature::aggregate(3, sigs), Err(CoconutError::ThresholdNotMet)));
    let vks = keys.iter().take(2).map(|k| (k.0, &k.2)).collect::<Vec<(usize, &Verkey)>>();
    assert!(matches!(Verkey::aggregate(3, vks), Err(CoconutError::ThresholdNotMet)));
}

#[test]
fn aggregation_rejects_bad_ids() {
    let params = Params::new(2, "test".as_bytes());
    let (_, _, keys) = trusted_party_keygen(2, 3, &params);
    let dup = vec![(1, &keys[0].2), (1, &keys[1].2)];
    assert!(matches!(Verkey::aggregate(2, dup), Err(CoconutError::DuplicateSignerId)));
    let zero = vec![(0, &keys[0].2), (1, &keys[1].2)];
    assert!(matches!(Verkey::aggregate(2, zero), Err(CoconutError::InvalidSignerId)));
    let s = Signature { sigma_1: params.g1.clone(), sigma_2: params.g1.clone() };
    let sigs = vec![(2, s.clone()), (2, s.clone()), (3, s)];
    assert!(matches!(Signature::aggregate(2, sigs), Err(CoconutError::DuplicateSignerId)));
    let short = Verkey { X_tilde: params.g2.clone(), Y_tilde: vec![] };
    let mixed = vec![(1, &keys[0].2), (2, &short)];
    assert!(matches!(Verkey::aggregate(2, mixed), Err(CoconutError::ShapeError)));
}

#[test]
fn identity_sigma_1_is_rejected() {
    let params = Params::new(2, "test".as_bytes());
    let (_, _, keys) = trusted_party_keygen(1, 1, &params);
    let msgs = random_scalars(2);
    let identity = G1Elem { bytes: G1::identity().to_bytes(false) };
    let forged = Signature { sigma_1: identity.clone(), sigma_2: params.g1.clone() };
    assert!(!forged.verify(&msgs, &keys[0].2, &params));
    let forged = Signature { sigma_1: params.g1.clone(), sigma_2: identity };
    assert!(!forged.verify(&msgs, &keys[0].2, &params));
}

#[test]
fn group_element_round_trip() {
    let params = Params::new(2, "test".as_bytes());
    let p = G1::from_bytes(&params.h[1].bytes).unwrap();
    assert_eq!(p.to_bytes(false), params.h[1].bytes);
    let compressed = p.to_bytes(true);
    assert_eq!(G1::from_bytes(&compressed).unwrap().to_bytes(false), params.h[1].bytes);
    let q = G2::from_bytes(&params.g2.bytes).unwrap();
    assert_eq!(q.to_bytes(false), params.g2.bytes);
    let s = random_scalar();
    assert_eq!(scalar(&fe(&s)), s);
}

#[test]
fn params_use_the_domain_tags() {
    let params = Params::new(12, "label".as_bytes());
    assert_eq!(params.msg_count(), 12);
    assert_eq!(params.g1.bytes, G1::from_msg_hash("label : g1".as_bytes()).to_bytes(false));
    assert_eq!(params.g2.bytes, G2::from_msg_hash("label : g2".as_bytes()).to_bytes(false));
    assert_eq!(params.h[0].bytes, G1::from_msg_hash("label : y0".as_bytes()).to_bytes(false));
    assert_eq!(params.h[11].bytes, G1::from_msg_hash("label : y11".as_bytes()).to_bytes(false));
    assert_ne!(params.h[1], params.h[11]);
}

#[test]
fn decimal_rendering() {
    assert_eq!(coconut::signature::decimal_bytes(0), b"0".to_vec());
    assert_eq!(coconut::signature::decimal_bytes(7), b"7".to_vec());
    assert_eq!(coconut::signature::decimal_bytes(10), b"10".to_vec());
    assert_eq!(coconut::signature::decimal_bytes(4096), b"4096".to_vec());
}

#[test]
fn lagrange_basis_values() {
    // Over {1, 2, 3}: l_1 = 3, l_2 = -3, l_3 = 1.
    let ids = vec![1usize, 2, 3];
    assert_eq!(fe(&lagrange_basis_at_0(&ids, 1)), FieldElement::from(3u64));
    assert_eq!(fe(&lagrange_basis_at_0(&ids, 2)), FieldElement::from(3u64).negation());
    assert_eq!(fe(&lagrange_basis_at_0(&ids, 3)), FieldElement::one());
    // The order of the ids does not matter.
    let shuffled = vec![3usize, 1, 2];
    assert_eq!(lagrange_basis_at_0(&shuffled, 2), lagrange_basis_at_0(&ids, 2));
    // Over {1, 3}: l_1 = 3/2, l_3 = -1/2.
    let sparse = vec![1usize, 3];
    let two_inv = FieldElement::from(2u64).inverse();
    assert_eq!(fe(&lagrange_basis_at_0(&sparse, 1)), FieldElement::from(3u64) * &two_inv);
    assert_eq!(fe(&lagrange_basis_at_0(&sparse, 3)), two_inv.negation());
}

#[test]
fn polynomial_evaluation() {
    // 5 + 2x + 3x^2 at x = 4 is 61.
    let p = Polynomial {
        coefficients: vec![
            scalar(&FieldElement::from(5u64)),
            scalar(&FieldElement::from(2u64)),
            scalar(&FieldElement::from(3u64)),
        ],
    };
    assert_eq!(fe(&p.eval(4)), FieldElement::from(61u64));
    assert_eq!(fe(&p.eval(0)), FieldElement::from(5u64));
}

#[test]
fn unblinded_signature_matches_direct_signing() {
    // sigma_2 = h * (x + sum y_j m_j), whether message 0 was hidden or not.
    for count_hidden in 0..2 {
        unblind_matches(count_hidden);
    }
}

fn unblind_matches(count_hidden: usize) {
    let params = Params::new(2, "test".as_bytes());
    let (_, _, keys) = trusted_party_keygen(1, 1, &params);
    let sk = &keys[0].1;
    let msgs = random_scalars(2);
    let (elg_sk, elg_pk) = elgamal_keygen(&params);
    let (req, _) = SignatureRequest::new(&msgs, count_hidden, &elg_pk, &params).unwrap();
    let blind = Signature::new_blinded(&req, sk);
    let sig = Signature::new_unblinded(blind, &elg_sk);
    let e = fe(&sk.x) + fe(&sk.y[0]) * fe(&msgs[0]) + fe(&sk.y[1]) * fe(&msgs[1]);
    assert_eq!(sig.sigma_2, g1_times(&sig.sigma_1, &scalar(&e)));
    assert!(sig.verify(&msgs, &keys[0].2, &params));
    let mut other = msgs.clone();
    other[1] = random_scalar();
    assert!(!sig.verify(&other, &keys[0].2, &params));
}
