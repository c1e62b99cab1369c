//! Keys, blind issuance with its proof of knowledge, unblinding, threshold
//! aggregation and verification of signatures.

#![allow(non_snake_case)]

use crate::algebra::{
    all_g1_wf, all_g2_wf, all_wf, ate_2_pairing_is_one, ate_2_pairing_is_one_of, bytes_eq, fr_add, fr_add_spec, fr_mul,
    fr_mul_spec, fr_neg, fr_neg_spec, fr_random, g1_compress, g1_compress_of, g1_hash,
    g1_hash_of, g1_is_identity, g1_is_identity_of, g1_msm_ct, g1_msm_ct_of, g1_msm_vt,
    g1_msm_vt_of, g1_mul, g1_mul_of, g1_neg, g1_neg_of, g1_sub, g1_sub_of, g1s, g2_add,
    g2_add_of, g2_hash, g2_hash_of, g2_msm_vt, g2_msm_vt_of, g2s, vals, G1Elem, G2Elem, Scalar,
};
use crate::lagrange::{lagrange_basis_at_0, lagrange_spec, valid_ids, MAX_SIGNER_ID};
use vstd::prelude::*;

verus! {

/// What can go wrong in issuance, proof checking and aggregation.
#[derive(Clone, Copy, Debug, PartialEq, Eq)]
pub enum CoconutError {
    /// Lengths of vectors disagree.
    ShapeError,
    /// Fewer entries than the threshold were given to an aggregation.
    ThresholdNotMet,
    /// The same signer id occurs twice among the entries aggregated.
    DuplicateSignerId,
    /// A signer id is zero, or too large to be used as an evaluation point.
    InvalidSignerId,
}

/// Generators shared by all signers and users.
#[derive(Clone, Debug)]
pub struct Params {
    pub g1: G1Elem,
    pub g2: G2Elem,
    pub h: Vec<G1Elem>,
}

/// One signer's secret share.
#[derive(Clone, Debug)]
pub struct Sigkey {
    pub x: Scalar,
    pub y: Vec<Scalar>,
}

/// One signer's (or the aggregated) public verification key.
#[derive(Clone, Debug)]
pub struct Verkey {
    pub X_tilde: G2Elem,
    pub Y_tilde: Vec<G2Elem>,
}

/// What a user sends to the signers: the known messages in clear, a
/// commitment to the hidden ones and an ElGamal encryption of each.
#[derive(Debug)]
pub struct SignatureRequest {
    pub known_messages: Vec<Scalar>,
    pub commitment: G1Elem,
    pub ciphertexts: Vec<(G1Elem, G1Elem)>,
}

/// A partial signature on encrypted messages, from one signer.
#[derive(Debug)]
pub struct BlindSignature {
    pub h: G1Elem,
    pub blinded: (G1Elem, G1Elem),
}

/// A signature `(sigma_1, sigma_2)`, unblinded or aggregated.
#[derive(Clone, Debug)]
pub struct Signature {
    pub sigma_1: G1Elem,
    pub sigma_2: G1Elem,
}

/// The prover's first move of a Schnorr proof of knowledge of the opening of
/// `sum_i bases[i] * secrets[i]`: the blindings and `commitment = sum_i
/// bases[i] * blindings[i]`.
#[derive(Clone, Debug)]
pub struct ProverCommittedSignatureGroup {
    pub bases: Vec<G1Elem>,
    pub blindings: Vec<Scalar>,
    pub commitment: G1Elem,
}

/// A Schnorr proof: the prover's commitment and one response per secret.
#[derive(Clone, Debug)]
pub struct ProofSignatureGroup {
    pub commitment: G1Elem,
    pub responses: Vec<Scalar>,
}

/// The first move of the proof of knowledge that goes with a signature
/// request.
#[derive(Debug)]
pub struct SignatureRequestPoK {
    pub pok_vc_elgamal_sk: ProverCommittedSignatureGroup,
    pub pok_vc_commitment: ProverCommittedSignatureGroup,
    pub pok_vc_ciphertext: Vec<(ProverCommittedSignatureGroup, ProverCommittedSignatureGroup)>,
}

/// The proof of knowledge that goes with a signature request.
#[derive(Debug)]
pub struct SignatureRequestProof {
    pub proof_elgamal_sk: ProofSignatureGroup,
    pub proof_commitment: ProofSignatureGroup,
    pub proof_ciphertexts: Vec<(ProofSignatureGroup, ProofSignatureGroup)>,
}

// ---------------------------------------------------------------------------
// Byte strings for hashing.
// ---------------------------------------------------------------------------

/// `" : g1"`
pub open spec fn g1_tag() -> Seq<u8> {
    seq![32u8, 58u8, 32u8, 103u8, 49u8]
}

/// `" : g2"`
pub open spec fn g2_tag() -> Seq<u8> {
    seq![32u8, 58u8, 32u8, 103u8, 50u8]
}

/// `" : y"`
pub open spec fn y_tag() -> Seq<u8> {
    seq![32u8, 58u8, 32u8, 121u8]
}

/// The ASCII decimal digits of `n`, without leading zeros.
pub open spec fn decimal(n: nat) -> Seq<u8>
    decreases n,
{
    if n < 10 {
        seq![(48 + n) as u8]
    } else {
        decimal(n / 10).push((48 + n % 10) as u8)
    }
}

/// The ASCII decimal digits of `n`, without leading zeros.
pub fn decimal_bytes(n: usize) -> (r: Vec<u8>)
    ensures
        r@ == decimal(n as nat),
    decreases n,
{
    if n < 10 {
        let mut v: Vec<u8> = Vec::new();
        v.push((48 + n) as u8);
        assert(v@ =~= decimal(n as nat));
        v
    } else {
        let mut v = decimal_bytes(n / 10);
        v.push((48 + n % 10) as u8);
        v
    }
}

/// `a` followed by `b`.
fn concat(a: &[u8], b: &[u8]) -> (r: Vec<u8>)
    ensures
        r@ == a@ + b@,
{
    let mut r: Vec<u8> = Vec::new();
    let mut i: usize = 0;
    while i < a.len()
        invariant
            i <= a@.len(),
            r@ == a@.subrange(0, i as int),
        decreases a.len() - i,
    {
        r.push(a[i]);
        i = i + 1;
        assert(r@ =~= a@.subrange(0, i as int));
    }
    let mut j: usize = 0;
    while j < b.len()
        invariant
            i == a@.len(),
            j <= b@.len(),
            r@ == a@ + b@.subrange(0, j as int),
        decreases b.len() - j,
    {
        r.push(b[j]);
        j = j + 1;
        assert(r@ =~= a@ + b@.subrange(0, j as int));
    }
    assert(b@.subrange(0, b@.len() as int) =~= b@);
    assert(a@.subrange(0, a@.len() as int) =~= a@);
    r
}

// ---------------------------------------------------------------------------
// Setup.
// ---------------------------------------------------------------------------

impl Params {
    pub open spec fn wf(self) -> bool {
        &&& self.g1.wf()
        &&& self.g2.wf()
        &&& all_g1_wf(self.h@)
    }

    /// The generators derived from `label`: `g1`, `g2` and one `h` per message.
    pub open spec fn derived_from(self, msg_count: nat, label: Seq<u8>) -> bool {
        &&& self.g1@ == g1_hash_of(label + g1_tag())
        &&& self.g2@ == g2_hash_of(label + g2_tag())
        &&& self.h@.len() == msg_count
        &&& forall|i: int|
            0 <= i < msg_count ==> (#[trigger] self.h@[i])@ == g1_hash_of(
                label + y_tag() + decimal(i as nat),
            )
    }

    /// Generate g1, g2 and one h for each message, shared by all signers and
    /// users.
    pub fn new(msg_count: usize, label: &[u8]) -> (r: Self)
        ensures
            r.wf(),
            r.derived_from(msg_count as nat, label@),
    {
        let mut t1: Vec<u8> = Vec::new();
        t1.push(32u8);
        t1.push(58u8);
        t1.push(32u8);
        t1.push(103u8);
        let mut t2 = t1.clone();
        t1.push(49u8);
        t2.push(50u8);
        assert(t1@ =~= g1_tag());
        assert(t2@ =~= g2_tag());
        let g1 = g1_hash(concat(label, t1.as_slice()).as_slice());
        let g2 = g2_hash(concat(label, t2.as_slice()).as_slice());
        let mut ty: Vec<u8> = Vec::new();
        ty.push(32u8);
        ty.push(58u8);
        ty.push(32u8);
        ty.push(121u8);
        assert(ty@ =~= y_tag());
        let prefix = concat(label, ty.as_slice());
        let mut h: Vec<G1Elem> = Vec::new();
        let mut i: usize = 0;
        while i < msg_count
            invariant
                i <= msg_count,
                prefix@ == label@ + y_tag(),
                h@.len() == i,
                all_g1_wf(h@),
                forall|k: int|
                    0 <= k < i ==> (#[trigger] h@[k])@ == g1_hash_of(
                        label@ + y_tag() + decimal(k as nat),
                    ),
            decreases msg_count - i,
        {
            let d = decimal_bytes(i);
            h.push(g1_hash(concat(prefix.as_slice(), d.as_slice()).as_slice()));
            i = i + 1;
        }
        Params { g1, g2, h }
    }

    pub fn msg_count(&self) -> (r: usize)
        ensures
            r == self.h@.len(),
    {
        self.h.len()
    }
}

// ---------------------------------------------------------------------------
// Small vectors of points and scalars.
// ---------------------------------------------------------------------------

fn one_g1(a: &G1Elem) -> (r: Vec<G1Elem>)
    ensures
        g1s(r@) == seq![a@],
        r@.len() == 1,
        a.wf() ==> all_g1_wf(r@),
{
    let mut r: Vec<G1Elem> = Vec::new();
    r.push(a.copy());
    assert(g1s(r@) =~= seq![a@]);
    r
}

fn two_g1(a: &G1Elem, b: &G1Elem) -> (r: Vec<G1Elem>)
    ensures
        g1s(r@) == seq![a@, b@],
        r@.len() == 2,
        a.wf() && b.wf() ==> all_g1_wf(r@),
{
    let mut r: Vec<G1Elem> = Vec::new();
    r.push(a.copy());
    r.push(b.copy());
    assert(g1s(r@) =~= seq![a@, b@]);
    r
}

fn one_scalar(a: &Scalar) -> (r: Vec<Scalar>)
    requires
        a.wf(),
    ensures
        vals(r@) == seq![a.val()],
        all_wf(r@),
        r@.len() == 1,
{
    let mut r: Vec<Scalar> = Vec::new();
    r.push(a.copy());
    assert(vals(r@) =~= seq![a.val()]);
    r
}

fn two_scalars(a: &Scalar, b: &Scalar) -> (r: Vec<Scalar>)
    requires
        a.wf(),
        b.wf(),
    ensures
        vals(r@) == seq![a.val(), b.val()],
        all_wf(r@),
        r@.len() == 2,
{
    let mut r: Vec<Scalar> = Vec::new();
    r.push(a.copy());
    r.push(b.copy());
    assert(vals(r@) =~= seq![a.val(), b.val()]);
    r
}

/// The first `n` points of `v`, followed by `last`.
fn prefix_g1(v: &Vec<G1Elem>, n: usize, last: &G1Elem) -> (r: Vec<G1Elem>)
    requires
        n <= v@.len(),
    ensures
        g1s(r@) == g1s(v@.take(n as int)).push(last@),
        r@.len() == n + 1,
        all_g1_wf(v@) && last.wf() ==> all_g1_wf(r@),
{
    let mut r: Vec<G1Elem> = Vec::new();
    let mut i: usize = 0;
    while i < n
        invariant
            i <= n <= v@.len(),
            r@.len() == i,
            forall|k: int| 0 <= k < i ==> (#[trigger] r@[k])@ == v@[k]@,
            forall|k: int| 0 <= k < i ==> (#[trigger] r@[k]).wf() == v@[k].wf(),
        decreases n - i,
    {
        r.push(v[i].copy());
        i = i + 1;
    }
    r.push(last.copy());
    assert(g1s(r@) =~= g1s(v@.take(n as int)).push(last@));
    r
}

/// The scalars of `v` from `lo` up to `hi`, followed by `last` if one is given.
fn slice_scalars(v: &Vec<Scalar>, lo: usize, hi: usize, last: Option<&Scalar>) -> (r: Vec<Scalar>)
    requires
        lo <= hi <= v@.len(),
        all_wf(v@),
        last matches Some(l) ==> l.wf(),
    ensures
        all_wf(r@),
        last is None ==> r@.len() == hi - lo,
        last is Some ==> r@.len() == hi - lo + 1,
        last is None ==> vals(r@) == vals(v@.subrange(lo as int, hi as int)),
        last matches Some(l) ==> vals(r@) == vals(v@.subrange(lo as int, hi as int)).push(l.val()),
{
    let mut r: Vec<Scalar> = Vec::new();
    let mut i: usize = lo;
    while i < hi
        invariant
            lo <= i <= hi <= v@.len(),
            all_wf(v@),
            r@.len() == i - lo,
            all_wf(r@),
            forall|k: int| 0 <= k < i - lo ==> (#[trigger] r@[k]).bytes@ == v@[lo + k].bytes@,
        decreases hi - i,
    {
        assert(v@[i as int].wf());
        r.push(v[i].copy());
        i = i + 1;
    }
    assert(vals(r@) =~= vals(v@.subrange(lo as int, hi as int)));
    match last {
        Some(l) => {
            r.push(l.copy());
            assert(vals(r@) =~= vals(v@.subrange(lo as int, hi as int)).push(l.val()));
        },
        None => {},
    }
    r
}

/// The point `h` of an issuance session, hashed from the commitment's
/// compressed encoding.
pub open spec fn session_h(commitment: Seq<u8>) -> Seq<u8> {
    g1_hash_of(g1_compress_of(commitment))
}

fn h_of_commitment(commitment: &G1Elem) -> (r: G1Elem)
    requires
        commitment.wf(),
    ensures
        r@ == session_h(commitment@),
        r.wf(),
{
    let b = g1_compress(commitment);
    g1_hash(b.as_slice())
}

/// The first components of a sequence of ciphertexts.
pub open spec fn firsts(c: Seq<(G1Elem, G1Elem)>) -> Seq<Seq<u8>> {
    c.map_values(|p: (G1Elem, G1Elem)| p.0@)
}

/// The second components of a sequence of ciphertexts.
pub open spec fn seconds(c: Seq<(G1Elem, G1Elem)>) -> Seq<Seq<u8>> {
    c.map_values(|p: (G1Elem, G1Elem)| p.1@)
}

// ---------------------------------------------------------------------------
// The signature request.
// ---------------------------------------------------------------------------

impl Verkey {
    pub open spec fn wf(self) -> bool {
        &&& self.X_tilde.wf()
        &&& all_g2_wf(self.Y_tilde@)
    }
}

impl BlindSignature {
    pub open spec fn wf(self) -> bool {
        &&& self.h.wf()
        &&& self.blinded.0.wf()
        &&& self.blinded.1.wf()
    }
}

impl Signature {
    pub open spec fn wf(self) -> bool {
        &&& self.sigma_1.wf()
        &&& self.sigma_2.wf()
    }
}

impl SignatureRequest {
    pub open spec fn wf(self) -> bool {
        &&& self.commitment.wf()
        &&& all_wf(self.known_messages@)
        &&& forall|i: int|
            0 <= i < self.ciphertexts@.len() ==> (#[trigger] self.ciphertexts@[i]).0.wf()
                && self.ciphertexts@[i].1.wf()
    }

    /// The request that hides the first `k` of `messages`, built with the
    /// commitment randomness `randomness[0]` and the encryption randomness
    /// `randomness[i + 1]` of hidden message `i`.
    pub open spec fn built_from(
        self,
        messages: Seq<Scalar>,
        k: nat,
        elgamal_pubkey: Seq<u8>,
        params: Params,
        randomness: Seq<Scalar>,
    ) -> bool {
        let h = session_h(self.commitment@);
        &&& self.commitment@ == g1_msm_ct_of(
            g1s(params.h@.take(k as int)).push(params.g1@),
            vals(messages.take(k as int)).push(randomness[0].val()),
        )
        &&& all_wf(self.known_messages@)
        &&& vals(self.known_messages@) == vals(messages.skip(k as int))
        &&& self.ciphertexts@.len() == k
        &&& forall|i: int|
            0 <= i < k ==> {
                &&& (#[trigger] self.ciphertexts@[i]).0@ == g1_mul_of(
                    params.g1@,
                    randomness[i + 1].val(),
                )
                &&& self.ciphertexts@[i].1@ == g1_msm_ct_of(
                    seq![elgamal_pubkey, h],
                    seq![randomness[i + 1].val(), messages[i].val()],
                )
            }
    }

    /// The lengths that a request needs: no more hidden messages than
    /// messages, one message per generator, one randomness for the
    /// commitment and one per hidden message.
    pub open spec fn shape_ok(
        messages_len: nat,
        count_hidden: nat,
        params: Params,
        randomness_len: nat,
    ) -> bool {
        &&& count_hidden <= messages_len
        &&& messages_len == params.h@.len()
        &&& randomness_len == count_hidden + 1
    }

    /// "PrepareBlindSign" with the randomness given: the first `count_hidden`
    /// messages are committed to and encrypted under `elgamal_pubkey`.
    pub fn new_with_randomness(
        messages: &Vec<Scalar>,
        count_hidden: usize,
        elgamal_pubkey: &G1Elem,
        params: &Params,
        randomness: &Vec<Scalar>,
    ) -> (r: Result<Self, CoconutError>)
        requires
            all_wf(messages@),
            all_wf(randomness@),
            elgamal_pubkey.wf(),
            params.wf(),
        ensures
            r is Err <==> !Self::shape_ok(
                messages@.len(),
                count_hidden as nat,
                *params,
                randomness@.len(),
            ),
            r matches Err(e) ==> e == CoconutError::ShapeError,
            r matches Ok(req) ==> req.wf() && req.built_from(
                messages@,
                count_hidden as nat,
                elgamal_pubkey@,
                *params,
                randomness@,
            ),
    {
        if count_hidden > messages.len() || messages.len() != params.h.len() || randomness.len()
            == 0 || randomness.len() - 1 != count_hidden {
            return Err(CoconutError::ShapeError);
        }
        assert(randomness@[0].wf());
        let bases = prefix_g1(&params.h, count_hidden, &params.g1);
        let exps = slice_scalars(messages, 0, count_hidden, Some(&randomness[0]));
        assert(messages@.subrange(0, count_hidden as int) =~= messages@.take(count_hidden as int));
        let commitment = g1_msm_ct(&bases, &exps);
        let h = h_of_commitment(&commitment);
        let mut ciphertexts: Vec<(G1Elem, G1Elem)> = Vec::new();
        let mut i: usize = 0;
        while i < count_hidden
            invariant
                i <= count_hidden <= messages@.len(),
                randomness@.len() == count_hidden + 1,
                all_wf(messages@),
                all_wf(randomness@),
                h@ == session_h(commitment@),
                h.wf(),
                elgamal_pubkey.wf(),
                params.wf(),
                ciphertexts@.len() == i,
                forall|k: int|
                    0 <= k < i ==> (#[trigger] ciphertexts@[k]).0.wf() && ciphertexts@[k].1.wf(),
                forall|k: int|
                    0 <= k < i ==> {
                        &&& (#[trigger] ciphertexts@[k]).0@ == g1_mul_of(
                            params.g1@,
                            randomness@[k + 1].val(),
                        )
                        &&& ciphertexts@[k].1@ == g1_msm_ct_of(
                            seq![elgamal_pubkey@, h@],
                            seq![randomness@[k + 1].val(), messages@[k].val()],
                        )
                    },
            decreases count_hidden - i,
        {
            assert(randomness@[i + 1].wf());
            assert(messages@[i as int].wf());
            let a = g1_mul(&params.g1, &randomness[i + 1]);
            let b_bases = two_g1(elgamal_pubkey, &h);
            let b_exps = two_scalars(&randomness[i + 1], &messages[i]);
            let b = g1_msm_ct(&b_bases, &b_exps);
            ciphertexts.push((a, b));
            i = i + 1;
        }
        let known_messages = slice_scalars(messages, count_hidden, messages.len(), None);
        assert(messages@.subrange(count_hidden as int, messages@.len() as int)
            =~= messages@.skip(count_hidden as int));
        Ok(SignatureRequest { known_messages, commitment, ciphertexts })
    }

    /// "PrepareBlindSign": the first `count_hidden` messages are hidden from
    /// the signers and encrypted under `elgamal_pubkey`. Returns the request
    /// and the randomness used, `[r, k_0, ..., k_{count_hidden - 1}]`.
    pub fn new(
        messages: &Vec<Scalar>,
        count_hidden: usize,
        elgamal_pubkey: &G1Elem,
        params: &Params,
    ) -> (r: Result<(Self, Vec<Scalar>), CoconutError>)
        requires
            all_wf(messages@),
            messages@.len() < usize::MAX,
            elgamal_pubkey.wf(),
            params.wf(),
        ensures
            r is Err <==> !Self::shape_ok(
                messages@.len(),
                count_hidden as nat,
                *params,
                count_hidden as nat + 1,
            ),
            r matches Err(e) ==> e == CoconutError::ShapeError,
            r matches Ok((req, randomness)) ==> {
                &&& randomness@.len() == count_hidden + 1
                &&& all_wf(randomness@)
                &&& req.wf()
                &&& req.built_from(
                    messages@,
                    count_hidden as nat,
                    elgamal_pubkey@,
                    *params,
                    randomness@,
                )
            },
    {
        if count_hidden > messages.len() || messages.len() != params.h.len() {
            return Err(CoconutError::ShapeError);
        }
        let randomness = random_scalars(count_hidden + 1);
        match Self::new_with_randomness(messages, count_hidden, elgamal_pubkey, params, &randomness) {
            Ok(req) => Ok((req, randomness)),
            Err(e) => Err(e),
        }
    }
}

/// `n` freshly drawn scalars.
fn random_scalars(n: usize) -> (r: Vec<Scalar>)
    ensures
        r@.len() == n,
        all_wf(r@),
{
    let mut r: Vec<Scalar> = Vec::new();
    let mut i: usize = 0;
    while i < n
        invariant
            i <= n,
            r@.len() == i,
            all_wf(r@),
        decreases n - i,
    {
        r.push(fr_random());
        i = i + 1;
    }
    r
}

// ---------------------------------------------------------------------------
// Schnorr proofs of knowledge of an opening of a multi-exponentiation.
// ---------------------------------------------------------------------------

impl ProverCommittedSignatureGroup {
    pub open spec fn wf(self) -> bool {
        &&& self.bases@.len() == self.blindings@.len()
        &&& all_wf(self.blindings@)
        &&& all_g1_wf(self.bases@)
        &&& self.commitment.wf()
        &&& self.commitment@ == g1_msm_ct_of(g1s(self.bases@), vals(self.blindings@))
    }

    /// Well formed, over these bases and with these blindings.
    pub open spec fn commits_to(self, bases: Seq<Seq<u8>>, blindings: Seq<int>) -> bool {
        &&& self.wf()
        &&& g1s(self.bases@) == bases
        &&& vals(self.blindings@) == blindings
    }

    /// Commit to the blindings: `commitment = sum_i bases[i] * blindings[i]`.
    pub fn new(bases: Vec<G1Elem>, blindings: Vec<Scalar>) -> (r: Self)
        requires
            bases@.len() == blindings@.len(),
            all_wf(blindings@),
            all_g1_wf(bases@),
        ensures
            r.wf(),
            r.bases@ == bases@,
            r.blindings@ == blindings@,
    {
        let commitment = g1_msm_ct(&bases, &blindings);
        ProverCommittedSignatureGroup { bases, blindings, commitment }
    }

    /// The responses `blindings[i] + challenge * secrets[i]`.
    pub fn gen_proof(&self, challenge: &Scalar, secrets: &Vec<Scalar>) -> (r: Result<
        ProofSignatureGroup,
        CoconutError,
    >)
        requires
            self.wf(),
            challenge.wf(),
            all_wf(secrets@),
        ensures
            r is Err <==> secrets@.len() != self.blindings@.len(),
            r matches Err(e) ==> e == CoconutError::ShapeError,
            r matches Ok(p) ==> p.responds(*self, challenge.val(), vals(secrets@)),
    {
        if secrets.len() != self.blindings.len() {
            return Err(CoconutError::ShapeError);
        }
        let mut responses: Vec<Scalar> = Vec::new();
        let mut i: usize = 0;
        while i < secrets.len()
            invariant
                self.wf(),
                challenge.wf(),
                all_wf(secrets@),
                secrets@.len() == self.blindings@.len(),
                i <= secrets@.len(),
                responses@.len() == i,
                all_wf(responses@),
                forall|k: int|
                    0 <= k < i ==> (#[trigger] responses@[k]).val() == fr_add_spec(
                        self.blindings@[k].val(),
                        fr_mul_spec(challenge.val(), secrets@[k].val()),
                    ),
            decreases secrets.len() - i,
        {
            assert(secrets@[i as int].wf());
            assert(self.blindings@[i as int].wf());
            let cs = fr_mul(challenge, &secrets[i]);
            responses.push(fr_add(&self.blindings[i], &cs));
            i = i + 1;
        }
        Ok(ProofSignatureGroup { commitment: self.commitment.copy(), responses })
    }
}

impl ProofSignatureGroup {
    /// The responses of `committed` to challenge `c` for these secrets.
    pub open spec fn responds(
        self,
        committed: ProverCommittedSignatureGroup,
        c: int,
        secrets: Seq<int>,
    ) -> bool {
        &&& self.commitment@ == committed.commitment@
        &&& self.responses@.len() == secrets.len()
        &&& all_wf(self.responses@)
        &&& forall|i: int|
            0 <= i < secrets.len() ==> (#[trigger] self.responses@[i]).val() == fr_add_spec(
                committed.blindings@[i].val(),
                fr_mul_spec(c, secrets[i]),
            )
    }

    /// The verifier's equation: `sum_i bases[i] * responses[i] - statement * c`
    /// equals the prover's commitment.
    pub open spec fn holds_for(self, bases: Seq<Seq<u8>>, statement: Seq<u8>, c: int) -> bool {
        g1_msm_vt_of(bases.push(statement), vals(self.responses@).push(fr_neg_spec(c)))
            == self.commitment@
    }

    /// Check the proof for `statement = sum_i bases[i] * secrets[i]`.
    pub fn verify(&self, bases: &Vec<G1Elem>, statement: &G1Elem, challenge: &Scalar) -> (r:
        Result<bool, CoconutError>)
        requires
            all_wf(self.responses@),
            challenge.wf(),
            all_g1_wf(bases@),
            statement.wf(),
        ensures
            r is Err <==> bases@.len() != self.responses@.len(),
            r matches Err(e) ==> e == CoconutError::ShapeError,
            r matches Ok(b) ==> b == self.holds_for(g1s(bases@), statement@, challenge.val()),
    {
        if bases.len() != self.responses.len() {
            return Err(CoconutError::ShapeError);
        }
        let all_bases = prefix_g1(bases, bases.len(), statement);
        assert(bases@.take(bases@.len() as int) =~= bases@);
        let neg_c = fr_neg(challenge);
        let exps = slice_scalars(&self.responses, 0, self.responses.len(), Some(&neg_c));
        assert(self.responses@.subrange(0, self.responses@.len() as int) =~= self.responses@);
        let t = g1_msm_vt(&all_bases, &exps);
        Ok(bytes_eq(&t.bytes, &self.commitment.bytes))
    }
}

// ---------------------------------------------------------------------------
// The proof of knowledge that goes with a signature request.
// ---------------------------------------------------------------------------

/// The compressed commitments of the ciphertext proofs, in order.
pub open spec fn ciphertext_commitment_bytes(
    s: Seq<(ProverCommittedSignatureGroup, ProverCommittedSignatureGroup)>,
) -> Seq<u8>
    decreases s.len(),
{
    if s.len() == 0 {
        Seq::empty()
    } else {
        ciphertext_commitment_bytes(s.drop_last()) + g1_compress_of(s.last().0.commitment@)
            + g1_compress_of(s.last().1.commitment@)
    }
}

impl SignatureRequestPoK {
    /// Every sub-proof is well formed, with one secret for the ElGamal key,
    /// `k + 1` for the commitment, and one and two for each of the `k`
    /// ciphertexts.
    pub open spec fn wf(self) -> bool {
        let k = self.pok_vc_ciphertext@.len();
        &&& self.pok_vc_elgamal_sk.wf()
        &&& self.pok_vc_elgamal_sk.blindings@.len() == 1
        &&& self.pok_vc_commitment.wf()
        &&& self.pok_vc_commitment.blindings@.len() == k + 1
        &&& forall|i: int|
            0 <= i < k ==> {
                &&& (#[trigger] self.pok_vc_ciphertext@[i]).0.wf()
                &&& self.pok_vc_ciphertext@[i].0.blindings@.len() == 1
                &&& self.pok_vc_ciphertext@[i].1.wf()
                &&& self.pok_vc_ciphertext@[i].1.blindings@.len() == 2
            }
    }

    /// The first move for `sig_req`, with `blindings = [rho_d, beta_0, ...,
    /// beta_{k-1}, rho_r, rho_0, ..., rho_{k-1}]`: `beta_i` blinds hidden
    /// message `i` both in the commitment and in ciphertext `i`.
    pub open spec fn committed_for(
        self,
        sig_req: SignatureRequest,
        elgamal_pk: Seq<u8>,
        params: Params,
        blindings: Seq<Scalar>,
    ) -> bool {
        let k = sig_req.ciphertexts@.len();
        let h = session_h(sig_req.commitment@);
        let b = vals(blindings);
        &&& self.pok_vc_elgamal_sk.commits_to(seq![params.g1@], seq![b[0]])
        &&& self.pok_vc_commitment.commits_to(
            g1s(params.h@.take(k as int)).push(params.g1@),
            b.subrange(1, k + 2 as int),
        )
        &&& self.pok_vc_ciphertext@.len() == k
        &&& forall|i: int|
            0 <= i < k ==> {
                &&& (#[trigger] self.pok_vc_ciphertext@[i]).0.commits_to(
                    seq![params.g1@],
                    seq![b[k + 2 + i]],
                )
                &&& self.pok_vc_ciphertext@[i].1.commits_to(
                    seq![elgamal_pk, h],
                    seq![b[k + 2 + i], b[1 + i]],
                )
            }
    }

    /// The first move of the proof for `sig_req`, with the blindings given.
    pub fn init_with_blindings(
        sig_req: &SignatureRequest,
        elgamal_pk: &G1Elem,
        params: &Params,
        blindings: &Vec<Scalar>,
    ) -> (r: SignatureRequestPoK)
        requires
            sig_req.known_messages@.len() + sig_req.ciphertexts@.len() == params.h@.len(),
            blindings@.len() == 2 * sig_req.ciphertexts@.len() + 2,
            all_wf(blindings@),
            sig_req.wf(),
            elgamal_pk.wf(),
            params.wf(),
        ensures
            r.wf(),
            r.committed_for(*sig_req, elgamal_pk@, *params, blindings@),
    {
        let k = sig_req.ciphertexts.len();
        let n_blindings = blindings.len();
        assert(n_blindings == 2 * k + 2);
        let pok_vc_elgamal_sk = ProverCommittedSignatureGroup::new(
            one_g1(&params.g1),
            slice_scalars(blindings, 0, 1, None),
        );
        assert(vals(blindings@.subrange(0, 1)) =~= seq![vals(blindings@)[0]]);
        let pok_vc_commitment = ProverCommittedSignatureGroup::new(
            prefix_g1(&params.h, k, &params.g1),
            slice_scalars(blindings, 1, k + 2, None),
        );
        assert(vals(blindings@.subrange(1, k + 2)) =~= vals(blindings@).subrange(1, k + 2));
        let h = h_of_commitment(&sig_req.commitment);
        let mut pok_vc_ciphertext: Vec<
            (ProverCommittedSignatureGroup, ProverCommittedSignatureGroup),
        > = Vec::new();
        let mut i: usize = 0;
        while i < k
            invariant
                k == sig_req.ciphertexts@.len(),
                blindings@.len() == 2 * k + 2,
                2 * k + 2 <= usize::MAX,
                all_wf(blindings@),
                h@ == session_h(sig_req.commitment@),
                h.wf(),
                elgamal_pk.wf(),
                params.wf(),
                i <= k,
                pok_vc_ciphertext@.len() == i,
                forall|j: int|
                    0 <= j < i ==> {
                        &&& (#[trigger] pok_vc_ciphertext@[j]).0.commits_to(
                            seq![params.g1@],
                            seq![vals(blindings@)[k + 2 + j]],
                        )
                        &&& pok_vc_ciphertext@[j].0.blindings@.len() == 1
                        &&& pok_vc_ciphertext@[j].1.commits_to(
                            seq![elgamal_pk@, h@],
                            seq![vals(blindings@)[k + 2 + j], vals(blindings@)[1 + j]],
                        )
                        &&& pok_vc_ciphertext@[j].1.blindings@.len() == 2
                    },
            decreases k - i,
        {
            assert(blindings@[k + 2 + i].wf());
            assert(blindings@[1 + i as int].wf());
            let c1 = ProverCommittedSignatureGroup::new(
                one_g1(&params.g1),
                one_scalar(&blindings[k + 2 + i]),
            );
            let c2 = ProverCommittedSignatureGroup::new(
                two_g1(elgamal_pk, &h),
                two_scalars(&blindings[k + 2 + i], &blindings[1 + i]),
            );
            pok_vc_ciphertext.push((c1, c2));
            i = i + 1;
        }
        SignatureRequestPoK { pok_vc_elgamal_sk, pok_vc_commitment, pok_vc_ciphertext }
    }

    /// The first move of the proof of knowledge for `sig_req`, with freshly
    /// drawn blindings.
    pub fn init(sig_req: &SignatureRequest, elgamal_pk: &G1Elem, params: &Params) -> (r:
        SignatureRequestPoK)
        requires
            sig_req.known_messages@.len() + sig_req.ciphertexts@.len() == params.h@.len(),
            2 * sig_req.ciphertexts@.len() + 2 <= usize::MAX,
            sig_req.wf(),
            elgamal_pk.wf(),
            params.wf(),
        ensures
            r.wf(),
            exists|blindings: Seq<Scalar>|
                blindings.len() == 2 * sig_req.ciphertexts@.len() + 2 && all_wf(blindings)
                    && r.committed_for(*sig_req, elgamal_pk@, *params, blindings),
    {
        let blindings = random_scalars(2 * sig_req.ciphertexts.len() + 2);
        Self::init_with_blindings(sig_req, elgamal_pk, params, &blindings)
    }

    /// The compressed commitments, in the order `T_d, T_C, T_a0, T_b0, ...`,
    /// for hashing into the challenge.
    pub open spec fn bytes_spec(self) -> Seq<u8> {
        g1_compress_of(self.pok_vc_elgamal_sk.commitment@) + g1_compress_of(
            self.pok_vc_commitment.commitment@,
        ) + ciphertext_commitment_bytes(self.pok_vc_ciphertext@)
    }

    pub fn to_bytes(&self) -> (r: Vec<u8>)
        requires
            self.wf(),
        ensures
            r@ == self.bytes_spec(),
    {
        let d = g1_compress(&self.pok_vc_elgamal_sk.commitment);
        let c = g1_compress(&self.pok_vc_commitment.commitment);
        let mut bytes = concat(d.as_slice(), c.as_slice());
        let mut i: usize = 0;
        while i < self.pok_vc_ciphertext.len()
            invariant
                self.wf(),
                i <= self.pok_vc_ciphertext@.len(),
                bytes@ == g1_compress_of(self.pok_vc_elgamal_sk.commitment@) + g1_compress_of(
                    self.pok_vc_commitment.commitment@,
                ) + ciphertext_commitment_bytes(self.pok_vc_ciphertext@.take(i as int)),
            decreases self.pok_vc_ciphertext.len() - i,
        {
            let a = g1_compress(&self.pok_vc_ciphertext[i].0.commitment);
            let b = g1_compress(&self.pok_vc_ciphertext[i].1.commitment);
            let with_a = concat(bytes.as_slice(), a.as_slice());
            bytes = concat(with_a.as_slice(), b.as_slice());
            proof {
                let s = self.pok_vc_ciphertext@.take(i as int + 1);
                assert(s.drop_last() =~= self.pok_vc_ciphertext@.take(i as int));
                assert(bytes@ =~= g1_compress_of(self.pok_vc_elgamal_sk.commitment@)
                    + g1_compress_of(self.pok_vc_commitment.commitment@)
                    + ciphertext_commitment_bytes(s));
            }
            i = i + 1;
        }
        assert(self.pok_vc_ciphertext@.take(self.pok_vc_ciphertext@.len() as int)
            =~= self.pok_vc_ciphertext@);
        bytes
    }
}

impl SignatureRequestPoK {
    /// The responses to `challenge` with the ElGamal secret key, the hidden
    /// messages and the randomness `[r, k_0, ..., k_{k-1}]` of the request.
    pub fn gen_proof(
        self,
        hidden_messages: &Vec<Scalar>,
        randomness: Vec<Scalar>,
        elgamal_sk: &Scalar,
        challenge: &Scalar,
    ) -> (r: Result<SignatureRequestProof, CoconutError>)
        requires
            self.wf(),
            all_wf(hidden_messages@),
            all_wf(randomness@),
            elgamal_sk.wf(),
            challenge.wf(),
        ensures
            r is Err <==> (hidden_messages@.len() != self.pok_vc_ciphertext@.len()
                || randomness@.len() != self.pok_vc_ciphertext@.len() + 1),
            r matches Err(e) ==> e == CoconutError::ShapeError,
            r matches Ok(p) ==> p.proves(
                self,
                challenge.val(),
                vals(hidden_messages@),
                vals(randomness@),
                elgamal_sk.val(),
            ),
    {
        let k = self.pok_vc_ciphertext.len();
        if hidden_messages.len() != k || randomness.len() == 0 || randomness.len() - 1 != k {
            return Err(CoconutError::ShapeError);
        }
        let proof_elgamal_sk = match self.pok_vc_elgamal_sk.gen_proof(
            challenge,
            &one_scalar(elgamal_sk),
        ) {
            Ok(p) => p,
            Err(e) => return Err(e),
        };
        assert(randomness@[0].wf());
        let secrets_commitment = slice_scalars(hidden_messages, 0, k, Some(&randomness[0]));
        assert(hidden_messages@.subrange(0, k as int) =~= hidden_messages@);
        let proof_commitment = match self.pok_vc_commitment.gen_proof(
            challenge,
            &secrets_commitment,
        ) {
            Ok(p) => p,
            Err(e) => return Err(e),
        };
        let mut proof_ciphertexts: Vec<(ProofSignatureGroup, ProofSignatureGroup)> = Vec::new();
        let mut i: usize = 0;
        while i < k
            invariant
                self.wf(),
                k == self.pok_vc_ciphertext@.len(),
                hidden_messages@.len() == k,
                randomness@.len() == k + 1,
                all_wf(hidden_messages@),
                all_wf(randomness@),
                challenge.wf(),
                i <= k,
                proof_ciphertexts@.len() == i,
                forall|j: int|
                    0 <= j < i ==> {
                        &&& (#[trigger] proof_ciphertexts@[j]).0.responds(
                            self.pok_vc_ciphertext@[j].0,
                            challenge.val(),
                            seq![vals(randomness@)[j + 1]],
                        )
                        &&& proof_ciphertexts@[j].1.responds(
                            self.pok_vc_ciphertext@[j].1,
                            challenge.val(),
                            seq![vals(randomness@)[j + 1], vals(hidden_messages@)[j]],
                        )
                    },
            decreases k - i,
        {
            assert(randomness@[i + 1].wf());
            assert(hidden_messages@[i as int].wf());
            assert(self.pok_vc_ciphertext@[i as int].0.wf());
            let p1 = match self.pok_vc_ciphertext[i].0.gen_proof(
                challenge,
                &one_scalar(&randomness[i + 1]),
            ) {
                Ok(p) => p,
                Err(e) => return Err(e),
            };
            let p2 = match self.pok_vc_ciphertext[i].1.gen_proof(
                challenge,
                &two_scalars(&randomness[i + 1], &hidden_messages[i]),
            ) {
                Ok(p) => p,
                Err(e) => return Err(e),
            };
            proof_ciphertexts.push((p1, p2));
            i = i + 1;
        }
        Ok(SignatureRequestProof { proof_elgamal_sk, proof_commitment, proof_ciphertexts })
    }
}

impl SignatureRequestProof {
    /// The responses of `pok` to challenge `c` for the ElGamal secret key
    /// `sk`, the hidden messages and the request's randomness.
    pub open spec fn proves(
        self,
        pok: SignatureRequestPoK,
        c: int,
        hidden: Seq<int>,
        randomness: Seq<int>,
        sk: int,
    ) -> bool {
        let k = pok.pok_vc_ciphertext@.len();
        &&& self.proof_elgamal_sk.responds(pok.pok_vc_elgamal_sk, c, seq![sk])
        &&& self.proof_commitment.responds(pok.pok_vc_commitment, c, hidden.push(randomness[0]))
        &&& self.proof_ciphertexts@.len() == k
        &&& forall|i: int|
            0 <= i < k ==> {
                &&& (#[trigger] self.proof_ciphertexts@[i]).0.responds(
                    pok.pok_vc_ciphertext@[i].0,
                    c,
                    seq![randomness[i + 1]],
                )
                &&& self.proof_ciphertexts@[i].1.responds(
                    pok.pok_vc_ciphertext@[i].1,
                    c,
                    seq![randomness[i + 1], hidden[i]],
                )
            }
    }

    /// Every response is a well-formed scalar.
    pub open spec fn responses_wf(self) -> bool {
        &&& all_wf(self.proof_elgamal_sk.responses@)
        &&& all_wf(self.proof_commitment.responses@)
        &&& forall|i: int|
            0 <= i < self.proof_ciphertexts@.len() ==> {
                &&& all_wf((#[trigger] self.proof_ciphertexts@[i]).0.responses@)
                &&& all_wf(self.proof_ciphertexts@[i].1.responses@)
            }
    }

    /// The lengths agree with the request: one response for the ElGamal key,
    /// `k + 1` for the commitment, one and two for each of the `k`
    /// ciphertexts, and no more hidden messages than generators.
    pub open spec fn shape_ok(self, sig_req: SignatureRequest, params: Params) -> bool {
        let k = sig_req.ciphertexts@.len();
        &&& k <= params.h@.len()
        &&& self.proof_ciphertexts@.len() == k
        &&& self.proof_elgamal_sk.responses@.len() == 1
        &&& self.proof_commitment.responses@.len() == k + 1
        &&& forall|i: int|
            0 <= i < k ==> {
                &&& (#[trigger] self.proof_ciphertexts@[i]).0.responses@.len() == 1
                &&& self.proof_ciphertexts@[i].1.responses@.len() == 2
            }
    }

    /// The checks of ciphertext `i`: the response for hidden message `i` is
    /// the one in the commitment proof, and both equations hold.
    pub open spec fn ciphertext_holds(
        self,
        i: int,
        sig_req: SignatureRequest,
        elgamal_pk: Seq<u8>,
        c: int,
        params: Params,
    ) -> bool {
        let h = session_h(sig_req.commitment@);
        &&& self.proof_ciphertexts@[i].1.responses@[1].bytes@
            == self.proof_commitment.responses@[i].bytes@
        &&& self.proof_ciphertexts@[i].0.holds_for(
            seq![params.g1@],
            sig_req.ciphertexts@[i].0@,
            c,
        )
        &&& self.proof_ciphertexts@[i].1.holds_for(
            seq![elgamal_pk, h],
            sig_req.ciphertexts@[i].1@,
            c,
        )
    }

    /// Every equation of the proof holds for `sig_req` and challenge `c`.
    pub open spec fn accepts(
        self,
        sig_req: SignatureRequest,
        elgamal_pk: Seq<u8>,
        c: int,
        params: Params,
    ) -> bool {
        let k = sig_req.ciphertexts@.len();
        &&& self.proof_elgamal_sk.holds_for(seq![params.g1@], elgamal_pk, c)
        &&& self.proof_commitment.holds_for(
            g1s(params.h@.take(k as int)).push(params.g1@),
            sig_req.commitment@,
            c,
        )
        &&& forall|i: int|
            0 <= i < k ==> #[trigger] self.ciphertext_holds(i, sig_req, elgamal_pk, c, params)
    }

    /// Check the proof against the request it goes with.
    pub fn verify(
        &self,
        sig_req: &SignatureRequest,
        elgamal_pk: &G1Elem,
        challenge: &Scalar,
        params: &Params,
    ) -> (r: Result<bool, CoconutError>)
        requires
            self.responses_wf(),
            challenge.wf(),
            sig_req.wf(),
            elgamal_pk.wf(),
            params.wf(),
        ensures
            r is Err <==> !self.shape_ok(*sig_req, *params),
            r matches Err(e) ==> e == CoconutError::ShapeError,
            r matches Ok(b) ==> b == self.accepts(*sig_req, elgamal_pk@, challenge.val(), *params),
    {
        let k = sig_req.ciphertexts.len();
        if k > params.h.len() || self.proof_ciphertexts.len() != k
            || self.proof_elgamal_sk.responses.len() != 1 || self.proof_commitment.responses.len()
            == 0 || self.proof_commitment.responses.len() - 1 != k {
            return Err(CoconutError::ShapeError);
        }
        let mut i: usize = 0;
        while i < k
            invariant
                k == sig_req.ciphertexts@.len(),
                self.proof_ciphertexts@.len() == k,
                i <= k,
                forall|j: int|
                    0 <= j < i ==> {
                        &&& (#[trigger] self.proof_ciphertexts@[j]).0.responses@.len() == 1
                        &&& self.proof_ciphertexts@[j].1.responses@.len() == 2
                    },
            decreases k - i,
        {
            if self.proof_ciphertexts[i].0.responses.len() != 1
                || self.proof_ciphertexts[i].1.responses.len() != 2 {
                return Err(CoconutError::ShapeError);
            }
            i = i + 1;
        }
        match self.proof_elgamal_sk.verify(&one_g1(&params.g1), elgamal_pk, challenge) {
            Ok(true) => {},
            _ => return Ok(false),
        }
        let bases = prefix_g1(&params.h, k, &params.g1);
        match self.proof_commitment.verify(&bases, &sig_req.commitment, challenge) {
            Ok(true) => {},
            _ => return Ok(false),
        }
        let h = h_of_commitment(&sig_req.commitment);
        let mut i: usize = 0;
        while i < k
            invariant
                k == sig_req.ciphertexts@.len(),
                self.shape_ok(*sig_req, *params),
                self.responses_wf(),
                challenge.wf(),
                sig_req.wf(),
                elgamal_pk.wf(),
                params.wf(),
                h.wf(),
                h@ == session_h(sig_req.commitment@),
                self.proof_elgamal_sk.holds_for(seq![params.g1@], elgamal_pk@, challenge.val()),
                self.proof_commitment.holds_for(
                    g1s(params.h@.take(k as int)).push(params.g1@),
                    sig_req.commitment@,
                    challenge.val(),
                ),
                i <= k,
                forall|j: int|
                    0 <= j < i ==> #[trigger] self.ciphertext_holds(
                        j,
                        *sig_req,
                        elgamal_pk@,
                        challenge.val(),
                        *params,
                    ),
            decreases k - i,
        {
            let proof_1 = &self.proof_ciphertexts[i].0;
            let proof_2 = &self.proof_ciphertexts[i].1;
            assert(self.proof_ciphertexts@[i as int].0.responses@.len() == 1);
            assert(all_wf(self.proof_ciphertexts@[i as int].0.responses@));
            assert(all_wf(self.proof_ciphertexts@[i as int].1.responses@));
            if !bytes_eq(&proof_2.responses[1].bytes, &self.proof_commitment.responses[i].bytes) {
                assert(!self.ciphertext_holds(
                    i as int,
                    *sig_req,
                    elgamal_pk@,
                    challenge.val(),
                    *params,
                ));
                return Ok(false);
            }
            match proof_1.verify(&one_g1(&params.g1), &sig_req.ciphertexts[i].0, challenge) {
                Ok(true) => {},
                _ => {
                    assert(!self.ciphertext_holds(
                        i as int,
                        *sig_req,
                        elgamal_pk@,
                        challenge.val(),
                        *params,
                    ));
                    return Ok(false);
                },
            }
            match proof_2.verify(&two_g1(elgamal_pk, &h), &sig_req.ciphertexts[i].1, challenge) {
                Ok(true) => {},
                _ => {
                    assert(!self.ciphertext_holds(
                        i as int,
                        *sig_req,
                        elgamal_pk@,
                        challenge.val(),
                        *params,
                    ));
                    return Ok(false);
                },
            }
            i = i + 1;
        }
        Ok(true)
    }
}

// ---------------------------------------------------------------------------
// Signer ids and their Lagrange coefficients.
// ---------------------------------------------------------------------------

/// No signer id occurs twice.
pub open spec fn distinct_ids(ids: Seq<usize>) -> bool {
    forall|i: int, j: int| 0 <= i < j < ids.len() ==> ids[i] != ids[j]
}

/// The Lagrange basis at zero of each id, over the set of all of them.
pub open spec fn lagrange_vals(ids: Seq<usize>) -> Seq<int> {
    Seq::new(ids.len(), |i: int| lagrange_spec(ids, ids[i]) % crate::algebra::fr_modulus())
}

/// `Err(InvalidSignerId)` if an id is zero or too large, else
/// `Err(DuplicateSignerId)` if an id occurs twice, else `Ok`.
fn check_signer_ids(ids: &Vec<usize>) -> (r: Result<(), CoconutError>)
    ensures
        !valid_ids(ids@) ==> r == Err::<(), CoconutError>(CoconutError::InvalidSignerId),
        valid_ids(ids@) && !distinct_ids(ids@) ==> r == Err::<(), CoconutError>(
            CoconutError::DuplicateSignerId,
        ),
        valid_ids(ids@) && distinct_ids(ids@) ==> r is Ok,
{
    let mut i: usize = 0;
    while i < ids.len()
        invariant
            i <= ids@.len(),
            forall|k: int| 0 <= k < i ==> 0 < #[trigger] ids@[k] as int <= MAX_SIGNER_ID as int,
        decreases ids.len() - i,
    {
        if ids[i] == 0 || ids[i] as u64 > MAX_SIGNER_ID {
            return Err(CoconutError::InvalidSignerId);
        }
        i = i + 1;
    }
    let mut i: usize = 0;
    while i < ids.len()
        invariant
            valid_ids(ids@),
            i <= ids@.len(),
            forall|a: int, b: int| 0 <= a < b < ids@.len() && a < i ==> ids@[a] != ids@[b],
        decreases ids.len() - i,
    {
        let mut j: usize = i + 1;
        while j < ids.len()
            invariant
                valid_ids(ids@),
                i < ids@.len(),
                i + 1 <= j <= ids@.len(),
                forall|a: int, b: int| 0 <= a < b < ids@.len() && a < i ==> ids@[a] != ids@[b],
                forall|b: int| i < b < j ==> ids@[i as int] != ids@[b],
            decreases ids.len() - j,
        {
            if ids[i] == ids[j] {
                return Err(CoconutError::DuplicateSignerId);
            }
            j = j + 1;
        }
        i = i + 1;
    }
    Ok(())
}

/// The Lagrange basis at zero of each id, over the set of all of them.
fn lagrange_coefficients(ids: &Vec<usize>) -> (r: Vec<Scalar>)
    requires
        valid_ids(ids@),
    ensures
        all_wf(r@),
        vals(r@) == lagrange_vals(ids@),
        r@.len() == ids@.len(),
{
    let mut r: Vec<Scalar> = Vec::new();
    let mut i: usize = 0;
    while i < ids.len()
        invariant
            valid_ids(ids@),
            i <= ids@.len(),
            r@.len() == i,
            all_wf(r@),
            forall|k: int|
                0 <= k < i ==> (#[trigger] r@[k]).val() == lagrange_spec(ids@, ids@[k])
                    % crate::algebra::fr_modulus(),
        decreases ids.len() - i,
    {
        assert(ids@.contains(ids@[i as int]));
        r.push(lagrange_basis_at_0(ids, ids[i]));
        i = i + 1;
    }
    assert(vals(r@) =~= lagrange_vals(ids@));
    r
}

// ---------------------------------------------------------------------------
// Blind signing, unblinding, aggregation and verification.
// ---------------------------------------------------------------------------

/// `x + sum_{j < n} y[k + j] * known[j]` in the field, summed in order.
pub open spec fn known_exponent(x: int, y: Seq<int>, known: Seq<int>, k: int, n: nat) -> int
    decreases n,
{
    if n == 0 {
        x
    } else {
        fr_add_spec(
            known_exponent(x, y, known, k, (n - 1) as nat),
            fr_mul_spec(y[k + n - 1], known[n - 1]),
        )
    }
}

/// The ids of a sequence of signatures.
pub open spec fn sig_ids(s: Seq<(usize, Signature)>) -> Seq<usize> {
    s.map_values(|p: (usize, Signature)| p.0)
}

/// The second components of a sequence of signatures.
pub open spec fn sigma_2s(s: Seq<(usize, Signature)>) -> Seq<Seq<u8>> {
    s.map_values(|p: (usize, Signature)| p.1.sigma_2@)
}

/// The ids of a sequence of verification keys.
pub open spec fn key_ids(s: Seq<(usize, &Verkey)>) -> Seq<usize> {
    s.map_values(|p: (usize, &Verkey)| p.0)
}

/// The `X_tilde` of a sequence of verification keys.
pub open spec fn x_tildes(s: Seq<(usize, &Verkey)>) -> Seq<Seq<u8>> {
    s.map_values(|p: (usize, &Verkey)| p.1.X_tilde@)
}

/// The `Y_tilde[j]` of a sequence of verification keys.
pub open spec fn y_tildes(s: Seq<(usize, &Verkey)>, j: int) -> Seq<Seq<u8>> {
    s.map_values(|p: (usize, &Verkey)| p.1.Y_tilde@[j]@)
}

impl Signature {
    /// "BlindSign": the signer's partial signature on the request, with
    /// `h` recomputed from the commitment.
    pub fn new_blinded(sig_request: &SignatureRequest, sigkey: &Sigkey) -> (r: BlindSignature)
        requires
            sig_request.ciphertexts@.len() + sig_request.known_messages@.len()
                == sigkey.y@.len(),
            sigkey.x.wf(),
            all_wf(sigkey.y@),
            sig_request.wf(),
        ensures
            r.wf(),
            r.h@ == session_h(sig_request.commitment@),
            r.blinded.0@ == g1_msm_ct_of(
                firsts(sig_request.ciphertexts@),
                vals(sigkey.y@).take(sig_request.ciphertexts@.len() as int),
            ),
            r.blinded.1@ == g1_msm_ct_of(
                seconds(sig_request.ciphertexts@).push(r.h@),
                vals(sigkey.y@).take(sig_request.ciphertexts@.len() as int).push(
                    known_exponent(
                        sigkey.x.val(),
                        vals(sigkey.y@),
                        vals(sig_request.known_messages@),
                        sig_request.ciphertexts@.len() as int,
                        sig_request.known_messages@.len(),
                    ),
                ),
            ),
    {
        let k = sig_request.ciphertexts.len();
        let h = h_of_commitment(&sig_request.commitment);
        let mut c1_bases: Vec<G1Elem> = Vec::new();
        let mut c2_bases: Vec<G1Elem> = Vec::new();
        let mut i: usize = 0;
        while i < k
            invariant
                k == sig_request.ciphertexts@.len(),
                i <= k,
                c1_bases@.len() == i,
                c2_bases@.len() == i,
                sig_request.wf(),
                all_g1_wf(c1_bases@),
                all_g1_wf(c2_bases@),
                forall|j: int|
                    0 <= j < i ==> (#[trigger] c1_bases@[j])@ == sig_request.ciphertexts@[j].0@,
                forall|j: int|
                    0 <= j < i ==> (#[trigger] c2_bases@[j])@ == sig_request.ciphertexts@[j].1@,
            decreases k - i,
        {
            c1_bases.push(sig_request.ciphertexts[i].0.copy());
            c2_bases.push(sig_request.ciphertexts[i].1.copy());
            i = i + 1;
        }
        assert(g1s(c1_bases@) =~= firsts(sig_request.ciphertexts@));
        let c1_exps = slice_scalars(&sigkey.y, 0, k, None);
        assert(vals(sigkey.y@.subrange(0, k as int)) =~= vals(sigkey.y@).take(k as int));
        let n = sig_request.known_messages.len();
        let y_len = sigkey.y.len();
        let mut exp = sigkey.x.copy();
        let mut j: usize = 0;
        while j < n
            invariant
                k + n == sigkey.y@.len(),
                y_len == sigkey.y@.len(),
                n == sig_request.known_messages@.len(),
                all_wf(sigkey.y@),
                all_wf(sig_request.known_messages@),
                j <= n,
                exp.wf(),
                exp.val() == known_exponent(
                    sigkey.x.val(),
                    vals(sigkey.y@),
                    vals(sig_request.known_messages@),
                    k as int,
                    j as nat,
                ),
            decreases n - j,
        {
            assert(sigkey.y@[k + j].wf());
            assert(sig_request.known_messages@[j as int].wf());
            let t = fr_mul(&sigkey.y[k + j], &sig_request.known_messages[j]);
            exp = fr_add(&exp, &t);
            j = j + 1;
        }
        let c2_exps = slice_scalars(&sigkey.y, 0, k, Some(&exp));
        c2_bases.push(h.copy());
        assert(g1s(c2_bases@) =~= seconds(sig_request.ciphertexts@).push(h@));
        let c_tilde_1 = g1_msm_ct(&c1_bases, &c1_exps);
        let c_tilde_2 = g1_msm_ct(&c2_bases, &c2_exps);
        BlindSignature { h, blinded: (c_tilde_1, c_tilde_2) }
    }

    /// "Unblind": remove the ElGamal layer with the secret key.
    pub fn new_unblinded(sig: BlindSignature, elgamal_sk: &Scalar) -> (r: Signature)
        requires
            elgamal_sk.wf(),
            sig.wf(),
        ensures
            r.wf(),
            r.sigma_1@ == sig.h@,
            r.sigma_2@ == g1_sub_of(sig.blinded.1@, g1_mul_of(sig.blinded.0@, elgamal_sk.val())),
    {
        let a_sk = g1_mul(&sig.blinded.0, elgamal_sk);
        let sigma_2 = g1_sub(&sig.blinded.1, &a_sk);
        Signature { sigma_1: sig.h, sigma_2 }
    }

    /// "AggCred": combine the first `threshold` partial signatures, weighting
    /// each by the Lagrange basis at zero of its signer id.
    pub fn aggregate(threshold: usize, sigs: Vec<(usize, Signature)>) -> (r: Result<
        Signature,
        CoconutError,
    >)
        requires
            threshold >= 1,
            forall|i: int| 0 <= i < sigs@.len() ==> (#[trigger] sigs@[i]).1.wf(),
        ensures
            sigs@.len() < threshold ==> r == Err::<Signature, CoconutError>(
                CoconutError::ThresholdNotMet,
            ),
            sigs@.len() >= threshold && !valid_ids(sig_ids(sigs@.take(threshold as int)))
                ==> r == Err::<Signature, CoconutError>(CoconutError::InvalidSignerId),
            sigs@.len() >= threshold && valid_ids(sig_ids(sigs@.take(threshold as int)))
                && !distinct_ids(sig_ids(sigs@.take(threshold as int))) ==> r == Err::<
                Signature,
                CoconutError,
            >(CoconutError::DuplicateSignerId),
            sigs@.len() >= threshold && valid_ids(sig_ids(sigs@.take(threshold as int)))
                && distinct_ids(sig_ids(sigs@.take(threshold as int))) ==> (r matches Ok(s) && {
                &&& s.wf()
                &&& s.sigma_1@ == sigs@[0].1.sigma_1@
                &&& s.sigma_2@ == g1_msm_ct_of(
                    sigma_2s(sigs@.take(threshold as int)),
                    lagrange_vals(sig_ids(sigs@.take(threshold as int))),
                )
            }),
    {
        if sigs.len() < threshold {
            return Err(CoconutError::ThresholdNotMet);
        }
        let mut ids: Vec<usize> = Vec::new();
        let mut bases: Vec<G1Elem> = Vec::new();
        let mut i: usize = 0;
        while i < threshold
            invariant
                threshold <= sigs@.len(),
                i <= threshold,
                ids@.len() == i,
                bases@.len() == i,
                forall|j: int| 0 <= j < sigs@.len() ==> (#[trigger] sigs@[j]).1.wf(),
                all_g1_wf(bases@),
                forall|j: int| 0 <= j < i ==> #[trigger] ids@[j] == sigs@[j].0,
                forall|j: int| 0 <= j < i ==> (#[trigger] bases@[j])@ == sigs@[j].1.sigma_2@,
            decreases threshold - i,
        {
            ids.push(sigs[i].0);
            bases.push(sigs[i].1.sigma_2.copy());
            i = i + 1;
        }
        assert(ids@ =~= sig_ids(sigs@.take(threshold as int)));
        assert(g1s(bases@) =~= sigma_2s(sigs@.take(threshold as int)));
        match check_signer_ids(&ids) {
            Ok(()) => {},
            Err(e) => return Err(e),
        }
        let exps = lagrange_coefficients(&ids);
        let sigma_2 = g1_msm_ct(&bases, &exps);
        Ok(Signature { sigma_1: sigs[0].1.sigma_1.copy(), sigma_2 })
    }

    /// The pairing check of the signature on `messages` under `vk`.
    pub open spec fn verify_spec(self, messages: Seq<Scalar>, vk: Verkey, params: Params) -> bool {
        let Y_m = g2_add_of(vk.X_tilde@, g2_msm_vt_of(g2s(vk.Y_tilde@), vals(messages)));
        &&& !g1_is_identity_of(self.sigma_1@)
        &&& !g1_is_identity_of(self.sigma_2@)
        &&& ate_2_pairing_is_one_of(self.sigma_1@, Y_m, g1_neg_of(self.sigma_2@), params.g2@)
    }

    /// Verify a signature, unblinded from one signer or aggregated:
    /// `e(sigma_1, X + sum_i Y_i * m_i) * e(-sigma_2, g2) == 1`, with neither
    /// component the identity.
    pub fn verify(&self, messages: &Vec<Scalar>, vk: &Verkey, params: &Params) -> (r: bool)
        requires
            messages@.len() == vk.Y_tilde@.len(),
            all_wf(messages@),
            self.wf(),
            vk.wf(),
            params.wf(),
        ensures
            r == self.verify_spec(messages@, *vk, *params),
    {
        if g1_is_identity(&self.sigma_1) || g1_is_identity(&self.sigma_2) {
            return false;
        }
        let m = g2_msm_vt(&vk.Y_tilde, messages);
        let Y_m = g2_add(&vk.X_tilde, &m);
        let neg_sigma_2 = g1_neg(&self.sigma_2);
        ate_2_pairing_is_one(&self.sigma_1, &Y_m, &neg_sigma_2, &params.g2)
    }
}

impl Verkey {
    /// Combine the first `threshold` verification keys, weighting each by
    /// the Lagrange basis at zero of its signer id.
    pub fn aggregate(threshold: usize, keys: Vec<(usize, &Verkey)>) -> (r: Result<
        Verkey,
        CoconutError,
    >)
        requires
            threshold >= 1,
            forall|i: int| 0 <= i < keys@.len() ==> (#[trigger] keys@[i]).1.wf(),
        ensures
            keys@.len() < threshold ==> r == Err::<Verkey, CoconutError>(
                CoconutError::ThresholdNotMet,
            ),
            keys@.len() >= threshold && !same_lengths(keys@) ==> r == Err::<
                Verkey,
                CoconutError,
            >(CoconutError::ShapeError),
            keys@.len() >= threshold && same_lengths(keys@) && !valid_ids(
                key_ids(keys@.take(threshold as int)),
            ) ==> r == Err::<Verkey, CoconutError>(CoconutError::InvalidSignerId),
            keys@.len() >= threshold && same_lengths(keys@) && valid_ids(
                key_ids(keys@.take(threshold as int)),
            ) && !distinct_ids(key_ids(keys@.take(threshold as int))) ==> r == Err::<
                Verkey,
                CoconutError,
            >(CoconutError::DuplicateSignerId),
            keys@.len() >= threshold && same_lengths(keys@) && valid_ids(
                key_ids(keys@.take(threshold as int)),
            ) && distinct_ids(key_ids(keys@.take(threshold as int))) ==> (r matches Ok(vk) && {
                let ks = keys@.take(threshold as int);
                let ls = lagrange_vals(key_ids(ks));
                &&& vk.wf()
                &&& vk.X_tilde@ == g2_msm_vt_of(x_tildes(ks), ls)
                &&& vk.Y_tilde@.len() == keys@[0].1.Y_tilde@.len()
                &&& forall|j: int|
                    0 <= j < vk.Y_tilde@.len() ==> (#[trigger] vk.Y_tilde@[j])@ == g2_msm_vt_of(
                        y_tildes(ks, j),
                        ls,
                    )
            }),
    {
        if keys.len() < threshold {
            return Err(CoconutError::ThresholdNotMet);
        }
        let q = keys[0].1.Y_tilde.len();
        let mut i: usize = 1;
        while i < keys.len()
            invariant
                threshold <= keys@.len(),
                1 <= i <= keys@.len(),
                q == keys@[0].1.Y_tilde@.len(),
                forall|j: int| 0 <= j < i ==> (#[trigger] keys@[j]).1.Y_tilde@.len() == q,
            decreases keys.len() - i,
        {
            if keys[i].1.Y_tilde.len() != q {
                return Err(CoconutError::ShapeError);
            }
            i = i + 1;
        }
        let mut ids: Vec<usize> = Vec::new();
        let mut x_bases: Vec<G2Elem> = Vec::new();
        let mut i: usize = 0;
        while i < threshold
            invariant
                threshold <= keys@.len(),
                i <= threshold,
                ids@.len() == i,
                x_bases@.len() == i,
                forall|j: int| 0 <= j < keys@.len() ==> (#[trigger] keys@[j]).1.wf(),
                all_g2_wf(x_bases@),
                forall|j: int| 0 <= j < i ==> #[trigger] ids@[j] == keys@[j].0,
                forall|j: int| 0 <= j < i ==> (#[trigger] x_bases@[j])@ == keys@[j].1.X_tilde@,
            decreases threshold - i,
        {
            ids.push(keys[i].0);
            x_bases.push(keys[i].1.X_tilde.copy());
            i = i + 1;
        }
        assert(ids@ =~= key_ids(keys@.take(threshold as int)));
        assert(g2s(x_bases@) =~= x_tildes(keys@.take(threshold as int)));
        match check_signer_ids(&ids) {
            Ok(()) => {},
            Err(e) => return Err(e),
        }
        let ls = lagrange_coefficients(&ids);
        let X_tilde = g2_msm_vt(&x_bases, &ls);
        let mut Y_tilde: Vec<G2Elem> = Vec::new();
        let mut j: usize = 0;
        while j < q
            invariant
                threshold <= keys@.len(),
                same_lengths(keys@),
                q == keys@[0].1.Y_tilde@.len(),
                ls@.len() == threshold,
                all_wf(ls@),
                j <= q,
                Y_tilde@.len() == j,
                forall|m: int| 0 <= m < keys@.len() ==> (#[trigger] keys@[m]).1.wf(),
                all_g2_wf(Y_tilde@),
                X_tilde.wf(),
                forall|m: int|
                    0 <= m < j ==> (#[trigger] Y_tilde@[m])@ == g2_msm_vt_of(
                        y_tildes(keys@.take(threshold as int), m),
                        vals(ls@),
                    ),
            decreases q - j,
        {
            let mut y_bases: Vec<G2Elem> = Vec::new();
            let mut i: usize = 0;
            while i < threshold
                invariant
                    threshold <= keys@.len(),
                    same_lengths(keys@),
                    q == keys@[0].1.Y_tilde@.len(),
                    j < q,
                    i <= threshold,
                    y_bases@.len() == i,
                    forall|m: int| 0 <= m < keys@.len() ==> (#[trigger] keys@[m]).1.wf(),
                    all_g2_wf(y_bases@),
                    forall|n: int|
                        0 <= n < i ==> (#[trigger] y_bases@[n])@ == keys@[n].1.Y_tilde@[j as int]@,
                decreases threshold - i,
            {
                assert(keys@[i as int].1.Y_tilde@.len() == q);
                assert(keys@[i as int].1.wf());
                assert(keys@[i as int].1.Y_tilde@[j as int].wf());
                y_bases.push(keys[i].1.Y_tilde[j].copy());
                i = i + 1;
            }
            assert(g2s(y_bases@) =~= y_tildes(keys@.take(threshold as int), j as int));
            Y_tilde.push(g2_msm_vt(&y_bases, &ls));
            j = j + 1;
        }
        Ok(Verkey { X_tilde, Y_tilde })
    }
}

/// Every key has as many `Y_tilde` as the first.
pub open spec fn same_lengths(keys: Seq<(usize, &Verkey)>) -> bool {
    forall|i: int|
        0 <= i < keys.len() ==> (#[trigger] keys[i]).1.Y_tilde@.len() == keys[0].1.Y_tilde@.len()
}

// ---------------------------------------------------------------------------
// Laws.
// ---------------------------------------------------------------------------

/// A signature whose `sigma_1` is the identity of G1 is rejected, whatever
/// the messages, key and parameters.
pub proof fn lemma_identity_sigma_1_rejected(
    sig: Signature,
    messages: Seq<Scalar>,
    vk: Verkey,
    params: Params,
)
    requires
        g1_is_identity_of(sig.sigma_1@),
    ensures
        !sig.verify_spec(messages, vk, params),
{
}

/// An honest proof passes the check that links each ciphertext to the
/// commitment: when the first move was made for the request with any
/// blindings, and the responses were computed from it for any challenge,
/// secret key, hidden messages and randomness, the response for hidden
/// message `i` in the proof for ciphertext `i` is, byte for byte, the one in
/// the proof for the commitment.
pub proof fn lemma_honest_proof_links_ciphertexts(
    sig_req: SignatureRequest,
    elgamal_pk: Seq<u8>,
    params: Params,
    blindings: Seq<Scalar>,
    pok: SignatureRequestPoK,
    proof: SignatureRequestProof,
    c: int,
    hidden: Seq<int>,
    randomness: Seq<int>,
    sk: int,
)
    requires
        blindings.len() == 2 * sig_req.ciphertexts@.len() + 2,
        all_wf(blindings),
        pok.committed_for(sig_req, elgamal_pk, params, blindings),
        hidden.len() == sig_req.ciphertexts@.len(),
        randomness.len() == sig_req.ciphertexts@.len() + 1,
        proof.proves(pok, c, hidden, randomness, sk),
    ensures
        forall|i: int|
            0 <= i < sig_req.ciphertexts@.len() ==> (#[trigger] proof.proof_ciphertexts@[i]).1.responses@[1].bytes@
                == proof.proof_commitment.responses@[i].bytes@,
{
    let k = sig_req.ciphertexts@.len();
    assert forall|i: int| 0 <= i < k implies (#[trigger] proof.proof_ciphertexts@[i]).1.responses@[1].bytes@
        == proof.proof_commitment.responses@[i].bytes@ by {
        let b = vals(blindings);
        let pc = pok.pok_vc_ciphertext@[i].1;
        assert(vals(pc.blindings@) == seq![b[k + 2 + i], b[1 + i]]);
        assert(vals(pc.blindings@)[1] == pc.blindings@[1].val());
        assert(vals(pok.pok_vc_commitment.blindings@) == b.subrange(1, k + 2 as int));
        assert(vals(pok.pok_vc_commitment.blindings@).len() == k + 1);
        assert(pok.pok_vc_commitment.blindings@.len() == k + 1);
        assert(vals(pok.pok_vc_commitment.blindings@)[i]
            == pok.pok_vc_commitment.blindings@[i].val());
        assert(hidden.push(randomness[0])[i] == hidden[i]);
        let x = proof.proof_ciphertexts@[i].1.responses@[1];
        let y = proof.proof_commitment.responses@[i];
        assert(x.wf());
        assert(y.wf());
        crate::algebra::lemma_scalar_val_determines_bytes(x, y);
    }
}

} // verus!
