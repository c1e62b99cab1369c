//! Scalars of the curve's prime field and points of the two source groups,
//! held as byte strings, with the operations the protocol needs.
//!
//! Field arithmetic is stated exactly, over the integer a scalar encodes.
//! Group operations are performed by `amcl_wrapper`; their results are named
//! by spec functions over the byte encodings of their inputs.

use amcl_wrapper::extension_field_gt::GT;
use amcl_wrapper::field_elem::FieldElement;
use amcl_wrapper::group_elem::{GroupElement, GroupElementVector};
use amcl_wrapper::group_elem_g1::{G1Vector, G1};
use amcl_wrapper::group_elem_g2::{G2Vector, G2};
use vstd::prelude::*;

verus! {

/// Number of bytes of a scalar's big-endian encoding.
pub const FR_BYTES: usize = 48;

/// Number of bytes of a G1 point's uncompressed encoding.
pub const G1_BYTES: usize = 97;

/// Number of bytes of a G2 point's uncompressed encoding.
pub const G2_BYTES: usize = 193;

/// The order of both source groups of BLS12-381.
pub open spec fn fr_modulus() -> int {
    let w = 0x1_0000_0000int * 0x1_0000_0000int;
    ((0x73eda753299d7d48u64 as int * w + 0x3339d80809a1d805u64 as int) * w
        + 0x53bda402fffe5bfeu64 as int) * w + 0xffffffff00000001u64 as int
}

/// The integer that a big-endian byte string encodes.
pub open spec fn be_int(s: Seq<u8>) -> int
    decreases s.len(),
{
    if s.len() == 0 {
        0
    } else {
        be_int(s.drop_last()) * 256 + s.last() as int
    }
}

/// The multiplicative inverse modulo the group order (zero for zero).
pub open spec fn fr_inv(a: int) -> int {
    vstd::arithmetic::power::pow(a, (fr_modulus() - 2) as nat) % fr_modulus()
}

/// A scalar of the prime field, as its 48-byte big-endian encoding.
#[derive(Clone, Debug, PartialEq, Eq)]
pub struct Scalar {
    pub bytes: Vec<u8>,
}

impl Scalar {
    pub open spec fn val(self) -> int {
        be_int(self.bytes@)
    }

    pub open spec fn wf(self) -> bool {
        &&& self.bytes@.len() == FR_BYTES
        &&& self.val() < fr_modulus()
    }
}

/// A point of the group G1, as its uncompressed encoding.
#[derive(Clone, Debug, PartialEq, Eq)]
pub struct G1Elem {
    pub bytes: Vec<u8>,
}

/// A point of the group G2, as its uncompressed encoding.
#[derive(Clone, Debug, PartialEq, Eq)]
pub struct G2Elem {
    pub bytes: Vec<u8>,
}

impl Scalar {
    /// A copy of the scalar.
    pub fn copy(&self) -> (r: Scalar)
        ensures
            r.bytes@ == self.bytes@,
    {
        let bytes = self.bytes.clone();
        assert(bytes@ =~= self.bytes@);
        Scalar { bytes }
    }
}

impl G1Elem {
    pub open spec fn view(self) -> Seq<u8> {
        self.bytes@
    }

    pub open spec fn wf(self) -> bool {
        self.bytes@.len() == G1_BYTES
    }

    /// A copy of the point.
    pub fn copy(&self) -> (r: G1Elem)
        ensures
            r.bytes@ == self.bytes@,
    {
        let bytes = self.bytes.clone();
        assert(bytes@ =~= self.bytes@);
        G1Elem { bytes }
    }
}

impl G2Elem {
    pub open spec fn view(self) -> Seq<u8> {
        self.bytes@
    }

    pub open spec fn wf(self) -> bool {
        self.bytes@.len() == G2_BYTES
    }

    /// A copy of the point.
    pub fn copy(&self) -> (r: G2Elem)
        ensures
            r.bytes@ == self.bytes@,
    {
        let bytes = self.bytes.clone();
        assert(bytes@ =~= self.bytes@);
        G2Elem { bytes }
    }
}

/// Two byte strings of the same length that encode the same integer are
/// equal.
pub proof fn lemma_be_int_injective(s: Seq<u8>, t: Seq<u8>)
    requires
        s.len() == t.len(),
        be_int(s) == be_int(t),
    ensures
        s == t,
    decreases s.len(),
{
    if s.len() > 0 {
        lemma_be_int_nonneg(s.drop_last());
        lemma_be_int_nonneg(t.drop_last());
        vstd::arithmetic::div_mod::lemma_fundamental_div_mod_converse(
            be_int(s),
            256,
            be_int(s.drop_last()),
            s.last() as int,
        );
        vstd::arithmetic::div_mod::lemma_fundamental_div_mod_converse(
            be_int(t),
            256,
            be_int(t.drop_last()),
            t.last() as int,
        );
        lemma_be_int_injective(s.drop_last(), t.drop_last());
        assert(s =~= s.drop_last().push(s.last()));
        assert(t =~= t.drop_last().push(t.last()));
    } else {
        assert(s =~= t);
    }
}

/// The integer a byte string encodes is not negative.
pub proof fn lemma_be_int_nonneg(s: Seq<u8>)
    ensures
        be_int(s) >= 0,
    decreases s.len(),
{
    if s.len() > 0 {
        lemma_be_int_nonneg(s.drop_last());
    }
}

/// Two well-formed scalars with the same value have the same encoding.
pub proof fn lemma_scalar_val_determines_bytes(a: Scalar, b: Scalar)
    requires
        a.wf(),
        b.wf(),
        a.val() == b.val(),
    ensures
        a.bytes@ == b.bytes@,
{
    lemma_be_int_injective(a.bytes@, b.bytes@);
}

/// Whether two byte strings are equal.
pub fn bytes_eq(a: &Vec<u8>, b: &Vec<u8>) -> (r: bool)
    ensures
        r == (a@ == b@),
{
    if a.len() != b.len() {
        return false;
    }
    let mut i: usize = 0;
    while i < a.len()
        invariant
            a@.len() == b@.len(),
            i <= a@.len(),
            forall|k: int| 0 <= k < i ==> a@[k] == b@[k],
        decreases a.len() - i,
    {
        if a[i] != b[i] {
            return false;
        }
        i = i + 1;
    }
    assert(a@ =~= b@);
    true
}

/// The values of a sequence of scalars.
pub open spec fn vals(s: Seq<Scalar>) -> Seq<int> {
    s.map_values(|x: Scalar| x.val())
}

/// Every scalar of a sequence is well formed.
pub open spec fn all_wf(s: Seq<Scalar>) -> bool {
    forall|i: int| 0 <= i < s.len() ==> #[trigger] s[i].wf()
}

/// Every G1 point of a sequence is well formed.
pub open spec fn all_g1_wf(s: Seq<G1Elem>) -> bool {
    forall|i: int| 0 <= i < s.len() ==> #[trigger] s[i].wf()
}

/// Every G2 point of a sequence is well formed.
pub open spec fn all_g2_wf(s: Seq<G2Elem>) -> bool {
    forall|i: int| 0 <= i < s.len() ==> #[trigger] s[i].wf()
}

/// The encodings of a sequence of G1 points.
pub open spec fn g1s(s: Seq<G1Elem>) -> Seq<Seq<u8>> {
    s.map_values(|p: G1Elem| p.bytes@)
}

/// The encodings of a sequence of G2 points.
pub open spec fn g2s(s: Seq<G2Elem>) -> Seq<Seq<u8>> {
    s.map_values(|p: G2Elem| p.bytes@)
}

pub open spec fn fr_add_spec(a: int, b: int) -> int {
    (a + b) % fr_modulus()
}

pub open spec fn fr_mul_spec(a: int, b: int) -> int {
    (a * b) % fr_modulus()
}

pub open spec fn fr_sub_spec(a: int, b: int) -> int {
    (a - b) % fr_modulus()
}

pub open spec fn fr_neg_spec(a: int) -> int {
    (0 - a) % fr_modulus()
}

// ---------------------------------------------------------------------------
// Names for what the pairing library computes on points.
// ---------------------------------------------------------------------------

/// The point that `G1::from_msg_hash` maps a message to.
pub uninterp spec fn g1_hash_of(msg: Seq<u8>) -> Seq<u8>;

/// The point that `G2::from_msg_hash` maps a message to.
pub uninterp spec fn g2_hash_of(msg: Seq<u8>) -> Seq<u8>;

/// The compressed encoding of a G1 point.
pub uninterp spec fn g1_compress_of(p: Seq<u8>) -> Seq<u8>;

/// The difference of two G1 points.
pub uninterp spec fn g1_sub_of(p: Seq<u8>, q: Seq<u8>) -> Seq<u8>;

/// The negation of a G1 point.
pub uninterp spec fn g1_neg_of(p: Seq<u8>) -> Seq<u8>;

/// A G1 point times a scalar.
pub uninterp spec fn g1_mul_of(p: Seq<u8>, k: int) -> Seq<u8>;

/// The sum of two G2 points.
pub uninterp spec fn g2_add_of(p: Seq<u8>, q: Seq<u8>) -> Seq<u8>;

/// Whether a G1 point is the identity.
pub uninterp spec fn g1_is_identity_of(p: Seq<u8>) -> bool;

/// `sum_i bases[i] * exps[i]` in G1, computed in constant time.
pub uninterp spec fn g1_msm_ct_of(bases: Seq<Seq<u8>>, exps: Seq<int>) -> Seq<u8>;

/// `sum_i bases[i] * exps[i]` in G1, computed in variable time.
pub uninterp spec fn g1_msm_vt_of(bases: Seq<Seq<u8>>, exps: Seq<int>) -> Seq<u8>;

/// `sum_i bases[i] * exps[i]` in G2, computed in variable time.
pub uninterp spec fn g2_msm_vt_of(bases: Seq<Seq<u8>>, exps: Seq<int>) -> Seq<u8>;

/// Whether `e(p1, q1) * e(p2, q2)` is the unit of the target group.
pub uninterp spec fn ate_2_pairing_is_one_of(
    p1: Seq<u8>,
    q1: Seq<u8>,
    p2: Seq<u8>,
    q2: Seq<u8>,
) -> bool;

// ---------------------------------------------------------------------------
// Field arithmetic.
// ---------------------------------------------------------------------------

/// Relies on `FieldElement::random`: a uniformly drawn non-zero element,
/// reduced modulo the group order.
#[verifier::external_body]
pub(crate) fn fr_random() -> (r: Scalar)
    ensures
        r.wf(),
{
    Scalar { bytes: FieldElement::random().to_bytes() }
}

/// Relies on `FieldElement::from(u64)`: the integer itself, which is below
/// the limb size of the underlying big number.
#[verifier::external_body]
pub(crate) fn fr_from_u64(x: u64) -> (r: Scalar)
    requires
        x < 0x400_0000_0000_0000,
    ensures
        r.wf(),
        r.val() == x as int,
{
    Scalar { bytes: FieldElement::from(x).to_bytes() }
}

/// Relies on `FieldElement::plus`: addition modulo the group order.
#[verifier::external_body]
pub(crate) fn fr_add(a: &Scalar, b: &Scalar) -> (r: Scalar)
    requires
        a.wf(),
        b.wf(),
    ensures
        r.wf(),
        r.val() == fr_add_spec(a.val(), b.val()),
{
    let x = FieldElement::from_bytes(&a.bytes).unwrap();
    let y = FieldElement::from_bytes(&b.bytes).unwrap();
    Scalar { bytes: x.plus(&y).to_bytes() }
}

/// Relies on `FieldElement::minus`: subtraction modulo the group order.
#[verifier::external_body]
pub(crate) fn fr_sub(a: &Scalar, b: &Scalar) -> (r: Scalar)
    requires
        a.wf(),
        b.wf(),
    ensures
        r.wf(),
        r.val() == fr_sub_spec(a.val(), b.val()),
{
    let x = FieldElement::from_bytes(&a.bytes).unwrap();
    let y = FieldElement::from_bytes(&b.bytes).unwrap();
    Scalar { bytes: x.minus(&y).to_bytes() }
}

/// Relies on `FieldElement::multiply`: multiplication modulo the group order.
#[verifier::external_body]
pub(crate) fn fr_mul(a: &Scalar, b: &Scalar) -> (r: Scalar)
    requires
        a.wf(),
        b.wf(),
    ensures
        r.wf(),
        r.val() == fr_mul_spec(a.val(), b.val()),
{
    let x = FieldElement::from_bytes(&a.bytes).unwrap();
    let y = FieldElement::from_bytes(&b.bytes).unwrap();
    Scalar { bytes: x.multiply(&y).to_bytes() }
}

/// Relies on `FieldElement::negation`: the additive inverse modulo the group
/// order.
#[verifier::external_body]
pub(crate) fn fr_neg(a: &Scalar) -> (r: Scalar)
    requires
        a.wf(),
    ensures
        r.wf(),
        r.val() == fr_neg_spec(a.val()),
{
    Scalar { bytes: FieldElement::from_bytes(&a.bytes).unwrap().negation().to_bytes() }
}

/// Relies on `FieldElement::inverse`: the inverse modulo the (prime) group
/// order, and zero for zero.
#[verifier::external_body]
pub(crate) fn fr_inverse(a: &Scalar) -> (r: Scalar)
    requires
        a.wf(),
    ensures
        r.wf(),
        r.val() == fr_inv(a.val()),
{
    Scalar { bytes: FieldElement::from_bytes(&a.bytes).unwrap().inverse().to_bytes() }
}

// ---------------------------------------------------------------------------
// Group operations.
// ---------------------------------------------------------------------------

/// Relies on `G1::from_msg_hash`: hashing a message onto G1.
#[verifier::external_body]
pub(crate) fn g1_hash(msg: &[u8]) -> (r: G1Elem)
    ensures
        r.wf(),
        r@ == g1_hash_of(msg@),
{
    G1Elem { bytes: G1::from_msg_hash(msg).to_bytes(false) }
}

/// Relies on `G2::from_msg_hash`: hashing a message onto G2.
#[verifier::external_body]
pub(crate) fn g2_hash(msg: &[u8]) -> (r: G2Elem)
    ensures
        r.wf(),
        r@ == g2_hash_of(msg@),
{
    G2Elem { bytes: G2::from_msg_hash(msg).to_bytes(false) }
}

/// Relies on `G1::to_bytes` with compression: the canonical compressed form.
#[verifier::external_body]
pub(crate) fn g1_compress(p: &G1Elem) -> (r: Vec<u8>)
    requires
        p.wf(),
    ensures
        r@ == g1_compress_of(p@),
{
    G1::from_bytes(&p.bytes).unwrap().to_bytes(true)
}

/// Relies on `G1::minus`: the difference of two points.
#[verifier::external_body]
pub(crate) fn g1_sub(p: &G1Elem, q: &G1Elem) -> (r: G1Elem)
    requires
        p.wf(),
        q.wf(),
    ensures
        r.wf(),
        r@ == g1_sub_of(p@, q@),
{
    let x = G1::from_bytes(&p.bytes).unwrap();
    let y = G1::from_bytes(&q.bytes).unwrap();
    G1Elem { bytes: x.minus(&y).to_bytes(false) }
}

/// Relies on `G1::negation`: the additive inverse of a point.
#[verifier::external_body]
pub(crate) fn g1_neg(p: &G1Elem) -> (r: G1Elem)
    requires
        p.wf(),
    ensures
        r.wf(),
        r@ == g1_neg_of(p@),
{
    G1Elem { bytes: G1::from_bytes(&p.bytes).unwrap().negation().to_bytes(false) }
}

/// Relies on `G1::scalar_mul_const_time`: a point times a scalar.
#[verifier::external_body]
pub(crate) fn g1_mul(p: &G1Elem, k: &Scalar) -> (r: G1Elem)
    requires
        p.wf(),
        k.wf(),
    ensures
        r.wf(),
        r@ == g1_mul_of(p@, k.val()),
{
    let x = G1::from_bytes(&p.bytes).unwrap();
    let e = FieldElement::from_bytes(&k.bytes).unwrap();
    G1Elem { bytes: x.scalar_mul_const_time(&e).to_bytes(false) }
}

/// Relies on `G2::plus`: the sum of two points.
#[verifier::external_body]
pub(crate) fn g2_add(p: &G2Elem, q: &G2Elem) -> (r: G2Elem)
    requires
        p.wf(),
        q.wf(),
    ensures
        r.wf(),
        r@ == g2_add_of(p@, q@),
{
    let x = G2::from_bytes(&p.bytes).unwrap();
    let y = G2::from_bytes(&q.bytes).unwrap();
    G2Elem { bytes: x.plus(&y).to_bytes(false) }
}

/// Relies on `G1::is_identity`.
#[verifier::external_body]
pub(crate) fn g1_is_identity(p: &G1Elem) -> (r: bool)
    requires
        p.wf(),
    ensures
        r == g1_is_identity_of(p@),
{
    G1::from_bytes(&p.bytes).unwrap().is_identity()
}

/// Relies on `G1Vector::multi_scalar_mul_const_time`, which fails only on
/// vectors of different lengths.
#[verifier::external_body]
pub(crate) fn g1_msm_ct(bases: &Vec<G1Elem>, exps: &Vec<Scalar>) -> (r: G1Elem)
    requires
        all_g1_wf(bases@),
        bases.len() == exps.len(),
        all_wf(exps@),
    ensures
        r.wf(),
        r@ == g1_msm_ct_of(g1s(bases@), vals(exps@)),
{
    let b: Vec<G1> = bases.iter().map(|p| G1::from_bytes(&p.bytes).unwrap()).collect();
    let e: Vec<FieldElement> =
        exps.iter().map(|s| FieldElement::from_bytes(&s.bytes).unwrap()).collect();
    G1Elem { bytes: G1Vector::from(b).multi_scalar_mul_const_time(&e).unwrap().to_bytes(false) }
}

/// Relies on `G1Vector::multi_scalar_mul_var_time`, which fails only on
/// vectors of different lengths.
#[verifier::external_body]
pub(crate) fn g1_msm_vt(bases: &Vec<G1Elem>, exps: &Vec<Scalar>) -> (r: G1Elem)
    requires
        all_g1_wf(bases@),
        bases.len() == exps.len(),
        all_wf(exps@),
    ensures
        r.wf(),
        r@ == g1_msm_vt_of(g1s(bases@), vals(exps@)),
{
    let b: Vec<G1> = bases.iter().map(|p| G1::from_bytes(&p.bytes).unwrap()).collect();
    let e: Vec<FieldElement> =
        exps.iter().map(|s| FieldElement::from_bytes(&s.bytes).unwrap()).collect();
    G1Elem { bytes: G1Vector::from(b).multi_scalar_mul_var_time(&e).unwrap().to_bytes(false) }
}

/// Relies on `G2Vector::multi_scalar_mul_var_time`, which fails only on
/// vectors of different lengths.
#[verifier::external_body]
pub(crate) fn g2_msm_vt(bases: &Vec<G2Elem>, exps: &Vec<Scalar>) -> (r: G2Elem)
    requires
        all_g2_wf(bases@),
        bases.len() == exps.len(),
        all_wf(exps@),
    ensures
        r.wf(),
        r@ == g2_msm_vt_of(g2s(bases@), vals(exps@)),
{
    let b: Vec<G2> = bases.iter().map(|p| G2::from_bytes(&p.bytes).unwrap()).collect();
    let e: Vec<FieldElement> =
        exps.iter().map(|s| FieldElement::from_bytes(&s.bytes).unwrap()).collect();
    G2Elem { bytes: G2Vector::from(b).multi_scalar_mul_var_time(&e).unwrap().to_bytes(false) }
}

/// Relies on `GT::ate_2_pairing` and `GT::is_one`: whether the product of the
/// two reduced pairings is the unit.
#[verifier::external_body]
pub(crate) fn ate_2_pairing_is_one(p1: &G1Elem, q1: &G2Elem, p2: &G1Elem, q2: &G2Elem) -> (r:
    bool)
    requires
        p1.wf(),
        q1.wf(),
        p2.wf(),
        q2.wf(),
    ensures
        r == ate_2_pairing_is_one_of(p1@, q1@, p2@, q2@),
{
    let a = G1::from_bytes(&p1.bytes).unwrap();
    let b = G2::from_bytes(&q1.bytes).unwrap();
    let c = G1::from_bytes(&p2.bytes).unwrap();
    let d = G2::from_bytes(&q2.bytes).unwrap();
    GT::ate_2_pairing(&a, &b, &c, &d).is_one()
}

} // verus!
