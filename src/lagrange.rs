//! Shamir secret sharing over the scalar field: polynomials evaluated at
//! signer ids, and the Lagrange basis at zero over a set of ids.

use crate::algebra::{
    all_wf, fr_add, fr_add_spec, fr_from_u64, fr_inv, fr_inverse, fr_modulus, fr_mul, fr_mul_spec,
    fr_neg, fr_neg_spec, fr_random, fr_sub, fr_sub_spec, Scalar,
};
use vstd::prelude::*;

verus! {

/// Largest signer id that maps to a scalar directly.
pub const MAX_SIGNER_ID: u64 = 0x3ff_ffff_ffff_ffff;

/// The factor that id `k` contributes to the basis polynomial of id `j`:
/// `(-k) / (j - k)`.
pub open spec fn lagrange_term(j: int, k: int) -> int {
    fr_mul_spec(fr_neg_spec(k), fr_inv(fr_sub_spec(j, k)))
}

/// `prod_{k in ids, k != j} (-k) / (j - k)`, taken over the ids in order.
pub open spec fn lagrange_spec(ids: Seq<usize>, j: usize) -> int
    decreases ids.len(),
{
    if ids.len() == 0 {
        1
    } else {
        let rest = lagrange_spec(ids.drop_last(), j);
        let k = ids.last();
        if k == j {
            rest
        } else {
            fr_mul_spec(rest, lagrange_term(j as int, k as int))
        }
    }
}

/// Every id is non-zero and small enough to map to a scalar directly.
pub open spec fn valid_ids(ids: Seq<usize>) -> bool {
    forall|i: int| 0 <= i < ids.len() ==> 0 < #[trigger] ids[i] as int <= MAX_SIGNER_ID as int
}

/// Horner evaluation of the polynomial with coefficients `c` (constant term
/// first) at `x`, in the field.
pub open spec fn horner(c: Seq<int>, x: int) -> int
    decreases c.len(),
{
    if c.len() == 0 {
        0
    } else {
        fr_add_spec(fr_mul_spec(horner(c.drop_first(), x), x), c[0])
    }
}

/// The Lagrange basis polynomial of id `j` over the set `ids`, evaluated at 0.
pub fn lagrange_basis_at_0(ids: &Vec<usize>, j: usize) -> (r: Scalar)
    requires
        ids@.contains(j),
        valid_ids(ids@),
    ensures
        r.wf(),
        r.val() == lagrange_spec(ids@, j) % fr_modulus(),
{
    let jf = fr_from_u64(j as u64);
    let mut acc = fr_from_u64(1);
    let mut i: usize = 0;
    proof {
        assert(lagrange_spec(ids@.subrange(0, 0), j) == 1);
        vstd::arithmetic::div_mod::lemma_small_mod(1, fr_modulus() as nat);
    }
    while i < ids.len()
        invariant
            0 <= i <= ids.len(),
            valid_ids(ids@),
            jf.wf(),
            jf.val() == j as int,
            acc.wf(),
            acc.val() == lagrange_spec(ids@.subrange(0, i as int), j) % fr_modulus(),
        decreases ids.len() - i,
    {
        let k = ids[i];
        assert(ids@.subrange(0, i as int + 1).drop_last() =~= ids@.subrange(0, i as int));
        if k != j {
            let kf = fr_from_u64(k as u64);
            let neg_k = fr_neg(&kf);
            let diff = fr_sub(&jf, &kf);
            let inv = fr_inverse(&diff);
            let term = fr_mul(&neg_k, &inv);
            acc = fr_mul(&acc, &term);
            proof {
                let rest = lagrange_spec(ids@.subrange(0, i as int), j);
                assert(0 <= rest % fr_modulus() < fr_modulus()) by {
                    if rest >= 0 {
                    } else {
                    }
                }
                vstd::arithmetic::div_mod::lemma_mul_mod_noop_left(
                    rest,
                    lagrange_term(j as int, k as int),
                    fr_modulus(),
                );
                vstd::arithmetic::div_mod::lemma_mod_twice(
                    rest * lagrange_term(j as int, k as int),
                    fr_modulus(),
                );
            }
        } else {
            proof {
                vstd::arithmetic::div_mod::lemma_mod_twice(
                    lagrange_spec(ids@.subrange(0, i as int), j),
                    fr_modulus(),
                );
            }
        }
        i = i + 1;
    }
    assert(ids@.subrange(0, ids.len() as int) =~= ids@);
    acc
}

/// The factor that id `k` contributes to the basis polynomial of id `j`,
/// one for `j` itself.
pub open spec fn lagrange_factor(j: usize, k: usize) -> int {
    if k == j {
        1
    } else {
        lagrange_term(j as int, k as int)
    }
}

proof fn lemma_lagrange_step(ids: Seq<usize>, j: usize)
    requires
        ids.len() > 0,
    ensures
        lagrange_spec(ids, j) % fr_modulus() == (lagrange_spec(ids.drop_last(), j) % fr_modulus()
            * lagrange_factor(j, ids.last())) % fr_modulus(),
{
    let rest = lagrange_spec(ids.drop_last(), j);
    let f = lagrange_factor(j, ids.last());
    vstd::arithmetic::div_mod::lemma_mul_mod_noop_left(rest, f, fr_modulus());
    if ids.last() == j {
        assert(rest * 1 == rest);
    } else {
        vstd::arithmetic::div_mod::lemma_mod_twice(rest * f, fr_modulus());
    }
}

proof fn lemma_mul_mod_swap(x: int, y: int, z: int)
    ensures
        ((x * y) % fr_modulus() * z) % fr_modulus() == ((x * z) % fr_modulus() * y)
            % fr_modulus(),
{
    vstd::arithmetic::div_mod::lemma_mul_mod_noop_left(x * y, z, fr_modulus());
    vstd::arithmetic::div_mod::lemma_mul_mod_noop_left(x * z, y, fr_modulus());
    assert(x * y * z == x * z * y) by (nonlinear_arith);
}

/// Taking the id at `m` out of the set divides its factor out of the basis.
proof fn lemma_lagrange_remove(ids: Seq<usize>, j: usize, m: int)
    requires
        0 <= m < ids.len(),
    ensures
        lagrange_spec(ids, j) % fr_modulus() == (lagrange_spec(ids.remove(m), j) % fr_modulus()
            * lagrange_factor(j, ids[m])) % fr_modulus(),
    decreases ids.len(),
{
    lemma_lagrange_step(ids, j);
    if m == ids.len() - 1 {
        assert(ids.remove(m) =~= ids.drop_last());
    } else {
        let r = ids.remove(m);
        assert(ids.drop_last().remove(m) =~= r.drop_last());
        assert(r.last() == ids.last());
        lemma_lagrange_remove(ids.drop_last(), j, m);
        lemma_lagrange_step(r, j);
        lemma_mul_mod_swap(
            lagrange_spec(r.drop_last(), j) % fr_modulus(),
            lagrange_factor(j, ids[m]),
            lagrange_factor(j, ids.last()),
        );
    }
}

/// The Lagrange basis at zero does not depend on the order in which the set
/// of ids is listed: two listings without repeats, each id of one found in
/// the other, give the same value.
pub proof fn lemma_lagrange_order_invariant(ids: Seq<usize>, other: Seq<usize>, j: usize)
    requires
        ids.no_duplicates(),
        other.no_duplicates(),
        ids.len() == other.len(),
        forall|i: int| 0 <= i < other.len() ==> ids.contains(#[trigger] other[i]),
    ensures
        lagrange_spec(ids, j) % fr_modulus() == lagrange_spec(other, j) % fr_modulus(),
    decreases other.len(),
{
    if other.len() > 0 {
        let x = other.last();
        assert(other[other.len() - 1] == x);
        let m = choose|m: int| 0 <= m < ids.len() && ids[m] == x;
        let rest = ids.remove(m);
        let other_rest = other.drop_last();
        assert forall|i: int| 0 <= i < other_rest.len() implies rest.contains(
            #[trigger] other_rest[i],
        ) by {
            assert(other[i] == other_rest[i]);
            assert(ids.contains(other[i]));
            let n = choose|n: int| 0 <= n < ids.len() && ids[n] == other[i];
            assert(other[i] != x);
            assert(n != m);
            if n < m {
                assert(rest[n] == ids[n]);
            } else {
                assert(rest[n - 1] == ids[n]);
            }
        }
        assert forall|a: int, b: int| 0 <= a < b < rest.len() implies rest[a] != rest[b] by {
            let a2 = if a < m { a } else { a + 1 };
            let b2 = if b < m { b } else { b + 1 };
            assert(rest[a] == ids[a2]);
            assert(rest[b] == ids[b2]);
        }
        assert(rest.no_duplicates());
        assert forall|a: int, b: int|
            0 <= a < b < other_rest.len() implies other_rest[a] != other_rest[b] by {
            assert(other_rest[a] == other[a]);
            assert(other_rest[b] == other[b]);
        }
        lemma_lagrange_order_invariant(rest, other_rest, j);
        lemma_lagrange_remove(ids, j, m);
        lemma_lagrange_step(other, j);
    } else {
        assert(ids =~= other);
    }
}

/// A polynomial over the scalar field, constant term first.
#[derive(Clone, Debug)]
pub struct Polynomial {
    pub coefficients: Vec<Scalar>,
}

impl Polynomial {
    pub open spec fn wf(self) -> bool {
        all_wf(self.coefficients@)
    }

    pub open spec fn coeff_vals(self) -> Seq<int> {
        self.coefficients@.map_values(|s: Scalar| s.val())
    }

    /// A polynomial with `degree + 1` random coefficients.
    pub fn random(degree: usize) -> (r: Polynomial)
        requires
            degree < usize::MAX,
        ensures
            r.wf(),
            r.coefficients@.len() == degree + 1,
    {
        let mut coefficients: Vec<Scalar> = Vec::new();
        let mut i: usize = 0;
        while i <= degree
            invariant
                degree < usize::MAX,
                i <= degree + 1,
                coefficients@.len() == i,
                all_wf(coefficients@),
            decreases degree + 1 - i,
        {
            coefficients.push(fr_random());
            i = i + 1;
        }
        Polynomial { coefficients }
    }

    /// The value of the polynomial at the signer id `x`.
    pub fn eval(&self, x: usize) -> (r: Scalar)
        requires
            self.wf(),
            x as int <= MAX_SIGNER_ID as int,
        ensures
            r.wf(),
            r.val() == horner(self.coeff_vals(), x as int),
    {
        let xf = fr_from_u64(x as u64);
        let mut acc = fr_from_u64(0);
        let n = self.coefficients.len();
        let mut i: usize = n;
        while i > 0
            invariant
                n == self.coefficients@.len(),
                i <= n,
                self.wf(),
                xf.wf(),
                xf.val() == x as int,
                acc.wf(),
                acc.val() == horner(self.coeff_vals().subrange(i as int, n as int), x as int),
            decreases i,
        {
            i = i - 1;
            assert(self.coefficients@[i as int].wf());
            let t = fr_mul(&acc, &xf);
            acc = fr_add(&t, &self.coefficients[i]);
            assert(self.coeff_vals().subrange(i as int, n as int).drop_first()
                =~= self.coeff_vals().subrange(i as int + 1, n as int));
        }
        assert(self.coeff_vals().subrange(0, n as int) =~= self.coeff_vals());
        acc
    }
}

} // verus!
