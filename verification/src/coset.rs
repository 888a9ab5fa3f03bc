use crate::field::{
    f_mul, f_pow, f_wf, lemma_f_mul_assoc, lemma_f_mul_comm, lemma_f_mul_one, lemma_f_mul_wf,
    lemma_f_pow_wf, Mersenne61Ext, FIELD_MOD,
};
use crate::polynomial::{
    all_wf, copy_elems, is_power_of_two, log2_exact, pow2, pow2_usize, uni_eval,
};
use vstd::prelude::*;

verus! {

/// A multiplicative coset `{ shift * generator^i }` of the subgroup of order
/// `2^log_size` generated by `generator`, used as an evaluation domain.
/// The companion fields hold the elementwise claimed inverses, computed from
/// the fixed root of unity and the field's inverse-power formula.
pub struct Coset {
    pub log_size: usize,
    pub shift: Mersenne61Ext,
    pub shift_inv: Mersenne61Ext,
    pub generator: Mersenne61Ext,
    pub generator_inv: Mersenne61Ext,
    pub size_inv: Mersenne61Ext,
    pub elements: Vec<Mersenne61Ext>,
    pub element_inverses: Vec<Mersenne61Ext>,
}

/// The exponent of the inverse-power formula: `x^(p^2 - 2)` inverts `x`.
pub open spec fn inv_exp() -> nat {
    ((FIELD_MOD as int) * (FIELD_MOD as int) - 2) as nat
}

pub open spec fn coset_wf(c: Coset) -> bool {
    &&& f_wf(c.shift)
    &&& f_wf(c.shift_inv)
    &&& f_wf(c.generator)
    &&& f_wf(c.generator_inv)
    &&& f_wf(c.size_inv)
    &&& c.log_size < 30
    &&& c.elements@.len() == pow2(c.log_size as nat)
    &&& c.element_inverses@.len() == pow2(c.log_size as nat)
    &&& all_wf(c.elements@)
    &&& all_wf(c.element_inverses@)
    &&& forall|i: int|
        0 <= i < c.elements@.len() ==> c.elements@[i] == f_mul(
            c.shift,
            f_pow(c.generator, i as nat),
        )
    &&& forall|i: int|
        0 <= i < c.element_inverses@.len() ==> c.element_inverses@[i] == f_mul(
            c.shift_inv,
            f_pow(c.generator_inv, i as nat),
        )
}

/// The table `base * step^i` for `i` below `len`.
fn power_table(base: Mersenne61Ext, step: Mersenne61Ext, len: usize) -> (r: Vec<Mersenne61Ext>)
    requires
        f_wf(base),
        f_wf(step),
    ensures
        r@.len() == len,
        all_wf(r@),
        forall|i: int| 0 <= i < len ==> r@[i] == f_mul(base, f_pow(step, i as nat)),
{
    let mut r: Vec<Mersenne61Ext> = Vec::new();
    let mut cur = base;
    proof {
        lemma_f_mul_one(base);
        lemma_f_mul_comm(base, crate::field::f_one());
        assert(f_pow(step, 0) == crate::field::f_one());
    }
    let mut i: usize = 0;
    while i < len
        invariant
            i <= len,
            f_wf(base),
            f_wf(step),
            f_wf(cur),
            cur == f_mul(base, f_pow(step, i as nat)),
            r@.len() == i,
            all_wf(r@),
            forall|k: int| 0 <= k < i ==> r@[k] == f_mul(base, f_pow(step, k as nat)),
        decreases len - i,
    {
        r.push(cur);
        cur = cur.mul(step);
        proof {
            lemma_f_mul_assoc(base, f_pow(step, i as nat), step);
            lemma_f_mul_comm(f_pow(step, i as nat), step);
            assert(f_pow(step, (i + 1) as nat) == f_mul(step, f_pow(step, i as nat)));
        }
        i += 1;
    }
    r
}

impl Coset {
    /// Builds the coset of the given power-of-two `size`, shifted by
    /// `shift`. The generator is the `2^62 / size` power of the library's
    /// root of unity; inverses come from the inverse-power formula.
    pub fn new(size: usize, shift: Mersenne61Ext) -> (r: Coset)
        requires
            is_power_of_two(size as nat),
            size <= 0x20000000,
            f_wf(shift),
        ensures
            coset_wf(r),
            r.elements@.len() == size,
            r.shift == shift,
            r.shift_inv == f_pow(shift, inv_exp()),
            r.generator == f_pow(
                crate::field::f_root_of_unity(),
                pow2((62 - r.log_size) as nat),
            ),
            r.generator_inv == f_pow(r.generator, inv_exp()),
            pow2(r.log_size as nat) == size,
    {
        let log_size = log2_exact(size);
        proof {
            vstd::arithmetic::power2::lemma2_to64();
            if log_size >= 30 {
                vstd::arithmetic::power2::lemma_pow2_strictly_increases(29, log_size as nat);
            }
            assert(log_size < 30);
            assert(FIELD_MOD > 0x20000000);
        }
        let exp = pow2_u64(62 - log_size as u64);
        let generator = Mersenne61Ext::root_of_unity().pow(exp);
        let generator_inv = generator.inverse();
        let shift_inv = shift.inverse();
        let size_inv = Mersenne61Ext::from_int(size as u64).inverse();
        let elements = power_table(shift, generator, size);
        let element_inverses = power_table(shift_inv, generator_inv, size);
        Coset {
            log_size,
            shift,
            shift_inv,
            generator,
            generator_inv,
            size_inv,
            elements,
            element_inverses,
        }
    }

    /// The coset of the `e`-th powers of this one's members, for a
    /// power-of-two `e`: generator and shift are both raised to `e`, and the
    /// domain shrinks accordingly.
    pub fn pow(&self, e: usize) -> (r: Coset)
        requires
            coset_wf(*self),
            is_power_of_two(e as nat),
        ensures
            coset_wf(r),
            r.generator == f_pow(self.generator, e as nat),
            r.generator_inv == f_pow(self.generator_inv, e as nat),
            r.shift == f_pow(self.shift, e as nat),
            r.shift_inv == f_pow(self.shift_inv, e as nat),
            pow2(r.log_size as nat) == r.elements@.len(),
            r.log_size == if log2(e as nat) <= self.log_size {
                self.log_size - log2(e as nat)
            } else {
                0int
            },
    {
        let log_e = log2_exact(e);
        let new_log = if log_e <= self.log_size {
            self.log_size - log_e
        } else {
            0
        };
        proof {
            lemma_log2_of_pow2(log_e as nat, e as nat);
            vstd::arithmetic::power2::lemma_pow2_pos(self.log_size as nat);
            vstd::arithmetic::power2::lemma2_to64();
        }
        let generator = self.generator.pow(e as u64);
        let generator_inv = self.generator_inv.pow(e as u64);
        let shift = self.shift.pow(e as u64);
        let shift_inv = self.shift_inv.pow(e as u64);
        let size = pow2_usize(new_log);
        let size_inv = Mersenne61Ext::from_int(size as u64).inverse();
        proof {
            vstd::arithmetic::power2::lemma2_to64();
            vstd::arithmetic::power2::lemma_pow2_strictly_increases(new_log as nat, 30);
            assert(FIELD_MOD > 0x40000000);
        }
        let elements = power_table(shift, generator, size);
        let element_inverses = power_table(shift_inv, generator_inv, size);
        Coset {
            log_size: new_log,
            shift,
            shift_inv,
            generator,
            generator_inv,
            size_inv,
            elements,
            element_inverses,
        }
    }

    pub fn size(&self) -> (r: usize)
        requires
            coset_wf(*self),
        ensures
            r == self.elements@.len(),
    {
        self.elements.len()
    }

    pub fn shift(&self) -> (r: Mersenne61Ext)
        ensures
            r == self.shift,
    {
        self.shift
    }

    /// All members of the coset, in generator-power order.
    pub fn all_elements(&self) -> (r: Vec<Mersenne61Ext>)
        ensures
            r@ == self.elements@,
    {
        copy_elems(&self.elements)
    }

    pub fn element_at(&self, i: usize) -> (r: Mersenne61Ext)
        requires
            i < self.elements@.len(),
        ensures
            r == self.elements@[i as int],
    {
        self.elements[i]
    }

    /// The claimed inverse of the `i`-th member: built from the inverse
    /// shift and inverse generator.
    pub fn element_inv_at(&self, i: usize) -> (r: Mersenne61Ext)
        requires
            i < self.element_inverses@.len(),
        ensures
            r == self.element_inverses@[i as int],
    {
        self.element_inverses[i]
    }

    /// Evaluates the polynomial with coefficients `coeff` on every member
    /// of the coset, by direct evaluation.
    pub fn fft(&self, coeff: &Vec<Mersenne61Ext>) -> (r: Vec<Mersenne61Ext>)
        requires
            coset_wf(*self),
            all_wf(coeff@),
        ensures
            r@.len() == self.elements@.len(),
            all_wf(r@),
            forall|i: int|
                0 <= i < r@.len() ==> r@[i] == uni_eval(coeff@, self.elements@[i]),
    {
        let mut r: Vec<Mersenne61Ext> = Vec::new();
        let mut i: usize = 0;
        let n = self.elements.len();
        while i < n
            invariant
                i <= n,
                n == self.elements@.len(),
                coset_wf(*self),
                all_wf(coeff@),
                r@.len() == i,
                all_wf(r@),
                forall|k: int| 0 <= k < i ==> r@[k] == uni_eval(coeff@, self.elements@[k]),
            decreases n - i,
        {
            r.push(crate::polynomial::horner_eval(coeff, self.elements[i]));
            i += 1;
        }
        r
    }

    /// Interpolation over the coset by the inverse-transform formula:
    /// coefficient `j` is `size_inv * shift_inv^j * sum_i evals[i] *
    /// generator_inv^(i*j)`.
    pub fn ifft(&self, evals: &Vec<Mersenne61Ext>) -> (r: Vec<Mersenne61Ext>)
        requires
            coset_wf(*self),
            all_wf(evals@),
            evals@.len() == self.elements@.len(),
        ensures
            r@.len() == evals@.len(),
            all_wf(r@),
            forall|j: int|
                0 <= j < r@.len() ==> r@[j] == f_mul(
                    self.size_inv,
                    f_mul(
                        f_pow(self.shift_inv, j as nat),
                        ifft_sum(evals@, self.generator_inv, j as nat, evals@.len() as int),
                    ),
                ),
    {
        let n = evals.len();
        proof {
            vstd::arithmetic::power2::lemma2_to64();
            vstd::arithmetic::power2::lemma_pow2_strictly_increases(self.log_size as nat, 30);
        }
        let mut r: Vec<Mersenne61Ext> = Vec::new();
        let mut j: usize = 0;
        while j < n
            invariant
                j <= n,
                n < 0x40000000,
                n == evals@.len(),
                n == self.elements@.len(),
                coset_wf(*self),
                all_wf(evals@),
                r@.len() == j,
                all_wf(r@),
                forall|k: int|
                    0 <= k < j ==> r@[k] == f_mul(
                        self.size_inv,
                        f_mul(
                            f_pow(self.shift_inv, k as nat),
                            ifft_sum(evals@, self.generator_inv, k as nat, n as int),
                        ),
                    ),
            decreases n - j,
        {
            let mut acc = Mersenne61Ext::from_int(0);
            let mut i: usize = 0;
            while i < n
                invariant
                    i <= n,
                    j < n,
                    n == evals@.len(),
                    n < 0x40000000,
                    coset_wf(*self),
                    all_wf(evals@),
                    f_wf(acc),
                    acc == ifft_sum(evals@, self.generator_inv, j as nat, i as int),
                decreases n - i,
            {
                proof {
                    vstd::arithmetic::mul::lemma_mul_upper_bound(
                        i as int,
                        0x3FFFFFFF,
                        j as int,
                        0x3FFFFFFF,
                    );
                }
                let p = self.generator_inv.pow((i as u64) * (j as u64));
                acc = acc.add(evals[i].mul(p));
                i += 1;
            }
            let c = self.size_inv.mul(self.shift_inv_pow(j).mul(acc));
            r.push(c);
            j += 1;
        }
        r
    }

    /// `shift_inv^j`, used by the inverse transform.
    fn shift_inv_pow(&self, j: usize) -> (r: Mersenne61Ext)
        requires
            f_wf(self.shift_inv),
        ensures
            r == f_pow(self.shift_inv, j as nat),
            f_wf(r),
    {
        self.shift_inv.pow(j as u64)
    }

    /// A field-for-field copy of this coset.
    pub fn duplicate(&self) -> (r: Coset)
        ensures
            coset_eq(r, *self),
    {
        Coset {
            log_size: self.log_size,
            shift: self.shift,
            shift_inv: self.shift_inv,
            generator: self.generator,
            generator_inv: self.generator_inv,
            size_inv: self.size_inv,
            elements: copy_elems(&self.elements),
            element_inverses: copy_elems(&self.element_inverses),
        }
    }
}

pub open spec fn coset_eq(a: Coset, b: Coset) -> bool {
    &&& a.log_size == b.log_size
    &&& a.shift == b.shift
    &&& a.shift_inv == b.shift_inv
    &&& a.generator == b.generator
    &&& a.generator_inv == b.generator_inv
    &&& a.size_inv == b.size_inv
    &&& a.elements@ == b.elements@
    &&& a.element_inverses@ == b.element_inverses@
}

/// Partial sums of the inverse transform: `sum_{i < k} evals[i] * gi^(i*j)`.
pub open spec fn ifft_sum(evals: Seq<Mersenne61Ext>, gi: Mersenne61Ext, j: nat, k: int) -> Mersenne61Ext
    decreases k,
{
    if k <= 0 {
        crate::field::f_zero()
    } else {
        f_add_alias(
            ifft_sum(evals, gi, j, k - 1),
            f_mul(evals[k - 1], f_pow(gi, ((k - 1) * j) as nat)),
        )
    }
}

/// Spec alias so the sum reads in accumulation order.
pub open spec fn f_add_alias(a: Mersenne61Ext, b: Mersenne61Ext) -> Mersenne61Ext {
    crate::field::f_add(a, b)
}

pub open spec fn log2(n: nat) -> nat
    decreases n,
{
    if n <= 1 {
        0
    } else {
        1 + log2(n / 2)
    }
}

pub proof fn lemma_log2_of_pow2(k: nat, e: nat)
    requires
        e == pow2(k),
    ensures
        log2(e) == k,
    decreases k,
{
    vstd::arithmetic::power2::lemma_pow2_pos(k);
    vstd::arithmetic::power2::lemma2_to64();
    if k > 0 {
        vstd::arithmetic::power2::lemma_pow2_unfold(k);
        vstd::arithmetic::power2::lemma_pow2_pos((k - 1) as nat);
        lemma_log2_of_pow2((k - 1) as nat, pow2((k - 1) as nat));
        assert(pow2(k) == 2 * pow2((k - 1) as nat));
        assert(pow2(k) > 1 && pow2(k) / 2 == pow2((k - 1) as nat));
    } else {
        assert(pow2(0) == 1);
    }
}

/// `2^k` as a u64, for exponents up to 62.
pub fn pow2_u64(k: u64) -> (r: u64)
    requires
        k <= 62,
    ensures
        r == pow2(k as nat),
{
    proof {
        vstd::arithmetic::power2::lemma2_to64();
        vstd::arithmetic::power2::lemma2_to64_rest();
        if (k as nat) < 62 {
            vstd::arithmetic::power2::lemma_pow2_strictly_increases(k as nat, 62);
        }
    }
    let mut r: u64 = 1;
    let mut i: u64 = 0;
    while i < k
        invariant
            i <= k,
            k <= 62,
            r == pow2(i as nat),
            pow2(k as nat) <= 0x4000000000000000,
        decreases k - i,
    {
        proof {
            vstd::arithmetic::power2::lemma_pow2_unfold((i + 1) as nat);
            if i + 1 < k {
                vstd::arithmetic::power2::lemma_pow2_strictly_increases((i + 1) as nat, k as nat);
            }
        }
        r = r * 2;
        i += 1;
    }
    r
}

} // verus!
