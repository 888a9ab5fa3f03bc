use crate::field::{f_add, f_mul, f_pow, f_wf, f_zero, lemma_f_mul_comm, Mersenne61Ext};
use vstd::prelude::*;

verus! {

pub open spec fn all_wf(s: Seq<Mersenne61Ext>) -> bool {
    forall|i: int| 0 <= i < s.len() ==> f_wf(#[trigger] s[i])
}

/// One folding step on a coefficient vector: adjacent pairs are combined by
/// `c'[i] = c[2i] + parameter * c[2i + 1]`, halving the length.
pub open spec fn fold_seq(c: Seq<Mersenne61Ext>, parameter: Mersenne61Ext) -> Seq<Mersenne61Ext> {
    Seq::new((c.len() / 2) as nat, |i: int| f_add(c[2 * i], f_mul(parameter, c[2 * i + 1])))
}

/// The value of the multilinear polynomial with coefficient vector `c` at
/// `point`, defined by repeated folding: binding the first variable to `r`
/// turns the coefficients into `fold_seq(c, r)`.
pub open spec fn ml_eval(c: Seq<Mersenne61Ext>, point: Seq<Mersenne61Ext>) -> Mersenne61Ext
    decreases point.len(),
{
    if point.len() == 0 {
        if c.len() >= 1 {
            c[0]
        } else {
            f_zero()
        }
    } else {
        ml_eval(fold_seq(c, point[0]), point.drop_first())
    }
}

/// Folding by each parameter in turn.
pub open spec fn fold_chain(c: Seq<Mersenne61Ext>, params: Seq<Mersenne61Ext>) -> Seq<
    Mersenne61Ext,
>
    decreases params.len(),
{
    if params.len() == 0 {
        c
    } else {
        fold_chain(fold_seq(c, params[0]), params.drop_first())
    }
}

/// The fold law: evaluating `c` at `(r, rest...)` is the same as folding by
/// `r` first and evaluating the folded polynomial at `rest`.
pub proof fn lemma_folding_evaluate(c: Seq<Mersenne61Ext>, r: Mersenne61Ext, rest: Seq<
    Mersenne61Ext>)
    ensures
        ml_eval(c, seq![r] + rest) == ml_eval(fold_seq(c, r), rest),
{
    let point = seq![r] + rest;
    assert(point[0] == r);
    assert(point.drop_first() =~= rest);
}

/// The fold law, iterated: evaluating `c` at `params + rest` is evaluating
/// the chain-folded polynomial at `rest`.
pub proof fn lemma_fold_chain_evaluate(
    c: Seq<Mersenne61Ext>,
    params: Seq<Mersenne61Ext>,
    rest: Seq<Mersenne61Ext>,
)
    ensures
        ml_eval(c, params + rest) == ml_eval(fold_chain(c, params), rest),
    decreases params.len(),
{
    if params.len() == 0 {
        assert(params + rest =~= rest);
    } else {
        let point = params + rest;
        assert(point[0] == params[0]);
        assert(point.drop_first() =~= params.drop_first() + rest);
        lemma_fold_chain_evaluate(fold_seq(c, params[0]), params.drop_first(), rest);
    }
}

/// Folding by one more parameter extends the chain at its end.
pub proof fn lemma_fold_chain_push(c: Seq<Mersenne61Ext>, params: Seq<Mersenne61Ext>, x: Mersenne61Ext)
    ensures
        fold_chain(c, params.push(x)) == fold_seq(fold_chain(c, params), x),
    decreases params.len(),
{
    let pp = params.push(x);
    assert(pp.len() == params.len() + 1);
    assert(fold_chain(c, pp) == fold_chain(fold_seq(c, pp[0]), pp.drop_first()));
    if params.len() == 0 {
        assert(pp[0] == x);
        assert(pp.drop_first() =~= Seq::<Mersenne61Ext>::empty());
        assert(fold_chain(fold_seq(c, x), Seq::<Mersenne61Ext>::empty()) == fold_seq(c, x));
        assert(fold_chain(c, params) == c);
    } else {
        assert(pp[0] == params[0]);
        assert(pp.drop_first() =~= params.drop_first().push(x));
        lemma_fold_chain_push(fold_seq(c, params[0]), params.drop_first(), x);
        assert(fold_chain(c, params) == fold_chain(fold_seq(c, params[0]), params.drop_first()));
    }
}

/// The value at `x` of the univariate polynomial whose coefficients are `c`,
/// lowest degree first: `c[0] + x * (c[1] + x * (...))`.
pub open spec fn uni_eval(c: Seq<Mersenne61Ext>, x: Mersenne61Ext) -> Mersenne61Ext
    decreases c.len(),
{
    if c.len() == 0 {
        f_zero()
    } else {
        f_add(f_mul(x, uni_eval(c.drop_first(), x)), c.first())
    }
}

/// A dense univariate polynomial, coefficients lowest degree first, with no
/// trailing zero coefficients.
#[derive(Clone, Debug)]
pub struct Polynomial {
    pub coefficients: Vec<Mersenne61Ext>,
}

/// What trimming trailing zero coefficients leaves.
pub open spec fn trim_zeros(c: Seq<Mersenne61Ext>) -> Seq<Mersenne61Ext>
    decreases c.len(),
{
    if c.len() > 0 && c.last() == f_zero() {
        trim_zeros(c.drop_last())
    } else {
        c
    }
}

pub open spec fn poly_wf(p: Polynomial) -> bool {
    all_wf(p.coefficients@)
}

/// Coefficient `i` of the reduction by `x^d - s`: the input coefficient,
/// plus `s` times the reduced coefficient `d` places up while one exists.
pub open spec fn ov_coeff(c: Seq<Mersenne61Ext>, d: nat, s: Mersenne61Ext, i: int) -> Mersenne61Ext
    recommends
        d >= 1,
        0 <= i < c.len(),
    decreases c.len() - i when 0 <= i < c.len() && d >= 1
{
    if i + d < c.len() {
        f_add(c[i], f_mul(s, ov_coeff(c, d, s, i + d)))
    } else {
        c[i]
    }
}

/// Trimming trailing zeros keeps every remaining coefficient well formed.
pub proof fn lemma_trim_all_wf(c: Seq<Mersenne61Ext>)
    requires
        all_wf(c),
    ensures
        all_wf(trim_zeros(c)),
    decreases c.len(),
{
    if c.len() > 0 && c.last() == f_zero() {
        assert(all_wf(c.drop_last()));
        lemma_trim_all_wf(c.drop_last());
    }
}

/// Trimming trailing zeros never lengthens a coefficient vector.
pub proof fn lemma_trim_len(c: Seq<Mersenne61Ext>)
    ensures
        trim_zeros(c).len() <= c.len(),
    decreases c.len(),
{
    if c.len() > 0 && c.last() == f_zero() {
        lemma_trim_len(c.drop_last());
    }
}

impl Polynomial {
    /// Builds a polynomial from coefficients, dropping trailing zeros.
    pub fn new(coefficients: Vec<Mersenne61Ext>) -> (r: Polynomial)
        ensures
            r.coefficients@ == trim_zeros(coefficients@),
    {
        let mut c = coefficients;
        loop
            invariant
                trim_zeros(c@) == trim_zeros(coefficients@),
            ensures
                c@ == trim_zeros(coefficients@),
            decreases c@.len(),
        {
            let n = c.len();
            if n == 0 {
                break;
            }
            let last = c[n - 1];
            if last.is_zero() {
                let ghost before = c@;
                c.pop();
                proof {
                    assert(c@ =~= before.drop_last());
                }
            } else {
                break;
            }
        }
        Polynomial { coefficients: c }
    }

    pub fn coefficients(&self) -> (r: &Vec<Mersenne61Ext>)
        ensures
            r == &self.coefficients,
    {
        &self.coefficients
    }

    /// A polynomial with `degree` coefficients drawn at random.
    pub fn random_polynomial(degree: usize) -> (r: Polynomial)
        ensures
            r.coefficients@.len() == degree,
            poly_wf(r),
    {
        let mut c: Vec<Mersenne61Ext> = Vec::new();
        let mut i: usize = 0;
        while i < degree
            invariant
                i <= degree,
                c@.len() == i,
                all_wf(c@),
            decreases degree - i,
        {
            c.push(Mersenne61Ext::random_element());
            i += 1;
        }
        Polynomial { coefficients: c }
    }

    pub fn degree(&self) -> (r: usize)
        ensures
            r == if self.coefficients@.len() == 0 {
                0int
            } else {
                self.coefficients@.len() - 1
            },
    {
        let n = self.coefficients.len();
        if n == 0 {
            0
        } else {
            n - 1
        }
    }

    /// Evaluates the polynomial at `x` by Horner's rule.
    pub fn evaluation_at(&self, x: Mersenne61Ext) -> (r: Mersenne61Ext)
        requires
            poly_wf(*self),
            f_wf(x),
        ensures
            r == uni_eval(self.coefficients@, x),
            f_wf(r),
    {
        horner_eval(&self.coefficients, x)
    }

    /// Reduces the polynomial by the vanishing polynomial `x^d - s`: the
    /// returned quotient's coefficient `k` is `ov_coeff(c, d, s, d + k)`,
    /// the input coefficient folded with `s` times the quotient
    /// coefficient `d` places up.
    pub fn over_vanish_polynomial(&self, vanishing_polynomial: &VanishingPolynomial) -> (r:
        Polynomial)
        requires
            poly_wf(*self),
            f_wf(vanishing_polynomial.shift),
            vanishing_polynomial.degree >= 1,
        ensures
            r.coefficients@ == trim_zeros(
                Seq::new(
                    if self.coefficients@.len() >= vanishing_polynomial.degree {
                        (self.coefficients@.len() - vanishing_polynomial.degree) as nat
                    } else {
                        0nat
                    },
                    |k: int|
                        ov_coeff(
                            self.coefficients@,
                            vanishing_polynomial.degree as nat,
                            vanishing_polynomial.shift,
                            vanishing_polynomial.degree + k,
                        ),
                ),
            ),
    {
        let degree = vanishing_polynomial.degree;
        let low_term = vanishing_polynomial.shift;
        let ghost c = self.coefficients@;
        let ghost d = vanishing_polynomial.degree as nat;
        let len = self.coefficients.len();
        let mut coeff: Vec<Mersenne61Ext> = Vec::new();
        let mut remnant = copy_elems(&self.coefficients);
        let mut i: usize = len;
        while i > degree
            invariant
                i <= len,
                i >= degree || i == len,
                degree == d,
                d >= 1,
                len == c.len(),
                f_wf(low_term),
                all_wf(c),
                remnant@.len() == c.len(),
                all_wf(remnant@),
                forall|t: int|
                    0 <= t < remnant@.len() ==> #[trigger] remnant@[t] == (if t + d < c.len() && t
                        + d >= i {
                        f_add(c[t], f_mul(low_term, ov_coeff(c, d, low_term, t + d)))
                    } else {
                        c[t]
                    }),
                coeff@.len() == len - i,
                forall|t: int|
                    0 <= t < coeff@.len() ==> #[trigger] coeff@[t] == ov_coeff(
                        c,
                        d,
                        low_term,
                        c.len() - 1 - t,
                    ),
            decreases i,
        {
            i -= 1;
            proof {
                assert(remnant@[i as int] == ov_coeff(c, d, low_term, i as int));
            }
            let tmp = remnant[i].mul(low_term);
            coeff.push(remnant[i]);
            let updated = remnant[i - degree].add(tmp);
            proof {
                assert(remnant@[i - d] == c[i - d]);
                crate::field::lemma_f_mul_comm(ov_coeff(c, d, low_term, i as int), low_term);
            }
            remnant.set(i - degree, updated);
            proof {
                assert forall|t: int| 0 <= t < remnant@.len() implies #[trigger] remnant@[t] == (
                if t + d < c.len() && t + d >= i {
                    f_add(c[t], f_mul(low_term, ov_coeff(c, d, low_term, t + d)))
                } else {
                    c[t]
                }) by {
                    if t == i - d {
                        assert(remnant@[t] == updated);
                        assert(updated == f_add(c[t], f_mul(low_term, ov_coeff(c, d, low_term, i as int))));
                    } else {
                        assert(t + d != i);
                    }
                }
            }
        }
        // restore ascending coefficient order
        let mut ascending: Vec<Mersenne61Ext> = Vec::new();
        let mut k: usize = 0;
        let m = coeff.len();
        while k < m
            invariant
                k <= m,
                m == coeff@.len(),
                m == len - degree || (len <= degree && m == 0),
                degree == d,
                len == c.len(),
                forall|t: int|
                    0 <= t < coeff@.len() ==> #[trigger] coeff@[t] == ov_coeff(
                        c,
                        d,
                        low_term,
                        c.len() - 1 - t,
                    ),
                ascending@.len() == k,
                forall|t: int|
                    0 <= t < k ==> #[trigger] ascending@[t] == ov_coeff(c, d, low_term, d + t),
            decreases m - k,
        {
            proof {
                assert(coeff@[m - 1 - k] == ov_coeff(c, d, low_term, c.len() - 1 - (m - 1 - k)));
            }
            ascending.push(coeff[m - 1 - k]);
            k += 1;
        }
        proof {
            assert(ascending@ =~= Seq::new(
                if c.len() >= d {
                    (c.len() - d) as nat
                } else {
                    0nat
                },
                |t: int| ov_coeff(c, d, low_term, d + t),
            ));
        }
        Polynomial::new(ascending)
    }

    /// Evaluates the polynomial on every member of the coset.
    pub fn evaluation_over_coset(&self, coset: &crate::coset::Coset) -> (r: Vec<Mersenne61Ext>)
        requires
            poly_wf(*self),
            crate::coset::coset_wf(*coset),
        ensures
            r@.len() == coset.elements@.len(),
            forall|i: int|
                0 <= i < r@.len() ==> r@[i] == uni_eval(self.coefficients@, coset.elements@[i]),
    {
        coset.fft(&self.coefficients)
    }
}

/// Evaluates the polynomial with the given coefficient vector at `x`.
pub fn horner_eval(c: &Vec<Mersenne61Ext>, x: Mersenne61Ext) -> (r: Mersenne61Ext)
    requires
        all_wf(c@),
        f_wf(x),
    ensures
        r == uni_eval(c@, x),
        f_wf(r),
{
    let mut res = Mersenne61Ext::from_int(0);
    let mut i: usize = c.len();
    while i > 0
        invariant
            i <= c@.len(),
            all_wf(c@),
            f_wf(x),
            f_wf(res),
            res == uni_eval(c@.skip(i as int), x),
        decreases i,
    {
        i -= 1;
        let ghost tail = c@.skip(i + 1);
        res = res.mul(x).add(c[i]);
        proof {
            lemma_f_mul_comm(uni_eval(tail, x), x);
            assert(c@.skip(i as int).drop_first() =~= tail);
            assert(c@.skip(i as int).first() == c@[i as int]);
        }
    }
    proof {
        assert(c@.skip(0) =~= c@);
    }
    res
}

/// The polynomial `x^degree - shift`, vanishing on a coset of that size.
#[derive(Clone, Debug)]
pub struct VanishingPolynomial {
    pub degree: usize,
    pub shift: Mersenne61Ext,
}

impl VanishingPolynomial {
    /// The polynomial vanishing on the given coset: `x^size - shift^size`.
    pub fn new(coset: &crate::coset::Coset) -> (r: VanishingPolynomial)
        requires
            crate::coset::coset_wf(*coset),
        ensures
            r.degree == coset.elements@.len(),
            r.shift == f_pow(coset.shift, coset.elements@.len() as nat),
            f_wf(r.shift),
    {
        proof {
            vstd::arithmetic::power2::lemma_pow2_strictly_increases(coset.log_size as nat, 64);
            vstd::arithmetic::power2::lemma2_to64_rest();
        }
        let degree = coset.size();
        VanishingPolynomial { degree, shift: coset.shift().pow(degree as u64) }
    }

    /// `x^degree - shift`.
    pub fn evaluation_at(&self, x: Mersenne61Ext) -> (r: Mersenne61Ext)
        requires
            f_wf(x),
            f_wf(self.shift),
        ensures
            r == crate::field::f_sub(f_pow(x, self.degree as nat), self.shift),
            f_wf(r),
    {
        x.pow(self.degree as u64).sub(self.shift)
    }
}

/// A multilinear polynomial over `log2(len)` variables, held as the vector
/// of its `2^v` coefficients.
#[derive(Clone, Debug)]
pub struct MultilinearPolynomial {
    pub coefficients: Vec<Mersenne61Ext>,
}

pub open spec fn is_power_of_two(n: nat) -> bool
    decreases n,
{
    if n == 0 {
        false
    } else if n == 1 {
        true
    } else {
        n % 2 == 0 && is_power_of_two(n / 2)
    }
}

pub open spec fn ml_wf(p: MultilinearPolynomial) -> bool {
    &&& all_wf(p.coefficients@)
    &&& is_power_of_two(p.coefficients@.len())
}

impl MultilinearPolynomial {
    pub fn coefficients(&self) -> (r: &Vec<Mersenne61Ext>)
        ensures
            r == &self.coefficients,
    {
        &self.coefficients
    }

    /// Wraps a coefficient vector whose length is a power of two.
    pub fn new(coefficients: Vec<Mersenne61Ext>) -> (r: MultilinearPolynomial)
        requires
            is_power_of_two(coefficients@.len()),
        ensures
            r.coefficients == coefficients,
    {
        MultilinearPolynomial { coefficients }
    }

    /// A random polynomial over `variable_num` variables.
    pub fn random_polynomial(variable_num: usize) -> (r: MultilinearPolynomial)
        requires
            variable_num < 30,
        ensures
            r.coefficients@.len() == pow2(variable_num as nat),
            ml_wf(r),
    {
        let len = pow2_usize(variable_num);
        let mut c: Vec<Mersenne61Ext> = Vec::new();
        let mut i: usize = 0;
        while i < len
            invariant
                i <= len,
                c@.len() == i,
                all_wf(c@),
            decreases len - i,
        {
            c.push(Mersenne61Ext::random_element());
            i += 1;
        }
        proof {
            lemma_pow2_is_power_of_two(variable_num as nat);
        }
        MultilinearPolynomial { coefficients: c }
    }

    /// One folding step: binds the polynomial's first variable to
    /// `parameter`, halving the coefficient vector.
    pub fn folding(&self, parameter: Mersenne61Ext) -> (r: MultilinearPolynomial)
        requires
            ml_wf(*self),
            self.coefficients@.len() >= 2,
            f_wf(parameter),
        ensures
            r.coefficients@ == fold_seq(self.coefficients@, parameter),
            ml_wf(r),
    {
        let c = folding_vector(&self.coefficients, parameter);
        proof {
            assert(is_power_of_two(self.coefficients@.len() / 2));
        }
        MultilinearPolynomial { coefficients: c }
    }

    /// The number of variables: `log2` of the coefficient count.
    pub fn variable_num(&self) -> (r: usize)
        requires
            ml_wf(*self),
        ensures
            pow2(r as nat) == self.coefficients@.len(),
            r < 64,
    {
        log2_exact(self.coefficients.len())
    }

    /// Evaluates the polynomial at `point` by folding one variable at a
    /// time.
    pub fn evaluate(&self, point: &Vec<Mersenne61Ext>) -> (r: Mersenne61Ext)
        requires
            ml_wf(*self),
            all_wf(point@),
            self.coefficients@.len() == pow2(point@.len()),
        ensures
            r == ml_eval(self.coefficients@, point@),
            f_wf(r),
    {
        let mut cur: Vec<Mersenne61Ext> = copy_elems(&self.coefficients);
        let mut j: usize = 0;
        proof {
            lemma_pow2_pos_general(point@.len());
            assert(point@.skip(0) =~= point@);
        }
        while j < point.len()
            invariant
                j <= point@.len(),
                all_wf(point@),
                all_wf(cur@),
                cur@.len() == pow2((point@.len() - j) as nat),
                ml_eval(self.coefficients@, point@) == ml_eval(cur@, point@.skip(j as int)),
            decreases point@.len() - j,
    {
            let ghost before = cur@;
            proof {
                vstd::arithmetic::power2::lemma_pow2_unfold((point@.len() - j) as nat);
                lemma_pow2_pos_general((point@.len() - j - 1) as nat);
            }
            cur = folding_vector(&cur, point[j]);
            proof {
                assert(point@.skip(j as int).drop_first() =~= point@.skip(j + 1));
                assert(point@.skip(j as int)[0] == point@[j as int]);
                assert(ml_eval(before, point@.skip(j as int)) == ml_eval(
                    fold_seq(before, point@[j as int]),
                    point@.skip(j + 1),
                ));
            }
            j += 1;
        }
        proof {
            assert(point@.skip(point@.len() as int) =~= Seq::<Mersenne61Ext>::empty());
            vstd::arithmetic::power2::lemma2_to64();
            assert(cur@.len() == 1);
        }
        cur[0]
    }

    /// Treats the coefficient vector as a univariate polynomial of degree
    /// `len - 1` and evaluates it at `point`.
    pub fn evaluate_as_polynomial(&self, point: Mersenne61Ext) -> (r: Mersenne61Ext)
        requires
            ml_wf(*self),
            f_wf(point),
        ensures
            r == uni_eval(self.coefficients@, point),
            f_wf(r),
    {
        horner_eval(&self.coefficients, point)
    }
}

/// The running pointwise difference of the first `k` evaluation rows at
/// position `j`: the first row, minus each later row in turn.
pub open spec fn rows_diff(rows: Seq<Vec<Mersenne61Ext>>, k: int, j: int) -> Mersenne61Ext
    decreases k,
{
    if k <= 1 {
        rows[0]@[j]
    } else {
        crate::field::f_sub(rows_diff(rows, k - 1, j), rows[k - 1]@[j])
    }
}

impl MultilinearPolynomial {
    /// Interpolates a polynomial from evaluation rows over the first
    /// domain: the rows are folded into their running difference, which the
    /// domain's inverse transform turns back into coefficients.
    pub fn interpolate(
        evaluations: &Vec<Vec<Mersenne61Ext>>,
        interpolate_coset: &Vec<crate::coset::Coset>,
    ) -> (r: MultilinearPolynomial)
        requires
            evaluations@.len() >= 1,
            interpolate_coset@.len() >= 1,
            crate::coset::coset_wf(interpolate_coset@[0]),
            forall|i: int|
                0 <= i < evaluations@.len() ==> all_wf((#[trigger] evaluations@[i])@)
                    && evaluations@[i]@.len() == interpolate_coset@[0].elements@.len(),
        ensures
            r.coefficients@.len() == interpolate_coset@[0].elements@.len(),
            forall|j: int|
                0 <= j < r.coefficients@.len() ==> r.coefficients@[j] == f_mul(
                    interpolate_coset@[0].size_inv,
                    f_mul(
                        f_pow(interpolate_coset@[0].shift_inv, j as nat),
                        crate::coset::ifft_sum(
                            Seq::new(
                                interpolate_coset@[0].elements@.len(),
                                |t: int| rows_diff(evaluations@, evaluations@.len() as int, t),
                            ),
                            interpolate_coset@[0].generator_inv,
                            j as nat,
                            interpolate_coset@[0].elements@.len() as int,
                        ),
                    ),
                ),
    {
        let coset0 = &interpolate_coset[0];
        let size = coset0.size();
        let mut res: Vec<Mersenne61Ext> = copy_elems(&evaluations[0]);
        let mut i: usize = 1;
        while i < evaluations.len()
            invariant
                1 <= i <= evaluations@.len(),
                size == coset0.elements@.len(),
                crate::coset::coset_wf(*coset0),
                forall|t: int|
                    0 <= t < evaluations@.len() ==> all_wf((#[trigger] evaluations@[t])@)
                        && evaluations@[t]@.len() == size,
                res@.len() == size,
                all_wf(res@),
                forall|j: int|
                    0 <= j < size ==> #[trigger] res@[j] == rows_diff(evaluations@, i as int, j),
            decreases evaluations@.len() - i,
        {
            let row = &evaluations[i];
            let mut next: Vec<Mersenne61Ext> = Vec::new();
            let mut j: usize = 0;
            while j < size
                invariant
                    j <= size,
                    i < evaluations@.len(),
                    size == res@.len(),
                    row@ == evaluations@[i as int]@,
                    row@.len() == size,
                    all_wf(row@),
                    all_wf(res@),
                    next@.len() == j,
                    all_wf(next@),
                    forall|t: int|
                        0 <= t < j ==> #[trigger] next@[t] == crate::field::f_sub(
                            res@[t],
                            row@[t],
                        ),
                decreases size - j,
            {
                next.push(res[j].sub(row[j]));
                j += 1;
            }
            res = next;
            i += 1;
        }
        let coefficients = coset0.ifft(&res);
        proof {
            assert(res@ =~= Seq::new(
                interpolate_coset@[0].elements@.len(),
                |t: int| rows_diff(evaluations@, evaluations@.len() as int, t),
            ));
            crate::polynomial::lemma_pow2_is_power_of_two(coset0.log_size as nat);
        }
        MultilinearPolynomial::new(coefficients)
    }
}

/// One folding step on a vector of coefficients.
pub fn folding_vector(v: &Vec<Mersenne61Ext>, parameter: Mersenne61Ext) -> (r: Vec<Mersenne61Ext>)
    requires
        all_wf(v@),
        f_wf(parameter),
        v@.len() % 2 == 0,
    ensures
        r@ == fold_seq(v@, parameter),
        all_wf(r@),
{
    let mut res: Vec<Mersenne61Ext> = Vec::new();
    let mut i: usize = 0;
    let half = v.len() / 2;
    while i < half
        invariant
            i <= half,
            half == v@.len() / 2,
            v@.len() % 2 == 0,
            v@.len() <= usize::MAX,
            all_wf(v@),
            f_wf(parameter),
            res@.len() == i,
            all_wf(res@),
            forall|k: int|
                0 <= k < i ==> res@[k] == f_add(v@[2 * k], f_mul(parameter, v@[2 * k + 1])),
        decreases half - i,
    {
        proof {
            assert(2 * (v@.len() / 2) == v@.len());
            assert(2 * i + 1 < v@.len());
        }
        res.push(v[2 * i].add(parameter.mul(v[2 * i + 1])));
        i += 1;
    }
    proof {
        assert(res@ =~= fold_seq(v@, parameter));
    }
    res
}

/// Copies a vector of field elements.
pub fn copy_elems(v: &Vec<Mersenne61Ext>) -> (r: Vec<Mersenne61Ext>)
    ensures
        r@ == v@,
{
    let mut res: Vec<Mersenne61Ext> = Vec::new();
    let mut i: usize = 0;
    while i < v.len()
        invariant
            i <= v@.len(),
            res@ =~= v@.take(i as int),
        decreases v@.len() - i,
    {
        res.push(v[i]);
        i += 1;
    }
    proof {
        assert(v@.take(v@.len() as int) =~= v@);
    }
    res
}

pub use vstd::arithmetic::power2::pow2;

/// `2^k` as a machine integer.
pub fn pow2_usize(k: usize) -> (r: usize)
    requires
        k < 30,
    ensures
        r == pow2(k as nat),
        r >= 1,
{
    proof {
        vstd::arithmetic::power2::lemma2_to64();
        vstd::arithmetic::power2::lemma_pow2_strictly_increases(k as nat, 30);
        vstd::arithmetic::power2::lemma_pow2_pos(k as nat);
    }
    let mut r: usize = 1;
    let mut i: usize = 0;
    while i < k
        invariant
            i <= k,
            k < 30,
            r == pow2(i as nat),
            r <= pow2(k as nat),
            pow2(k as nat) < 0x40000000,
        decreases k - i,
    {
        proof {
            vstd::arithmetic::power2::lemma_pow2_unfold((i + 1) as nat);
            if i + 1 < k {
                vstd::arithmetic::power2::lemma_pow2_strictly_increases((i + 1) as nat, k as nat);
            }
        }
        r = r * 2;
        i += 1;
    }
    r
}

/// The exact base-two logarithm of a power of two.
pub fn log2_exact(n: usize) -> (r: usize)
    requires
        is_power_of_two(n as nat),
    ensures
        pow2(r as nat) == n,
        r < 64,
{
    let mut tmp: usize = n;
    let mut r: usize = 0;
    proof {
        vstd::arithmetic::power2::lemma2_to64();
    }
    while tmp > 1
        invariant
            is_power_of_two(tmp as nat),
            tmp * pow2(r as nat) == n,
            tmp >= 1,
            r <= 63,
            pow2(r as nat) <= n,
        decreases tmp,
    {
        proof {
            vstd::arithmetic::power2::lemma_pow2_pos(r as nat);
            vstd::arithmetic::power2::lemma_pow2_unfold((r + 1) as nat);
            assert((tmp / 2) * (2 * pow2(r as nat)) == tmp * pow2(r as nat)) by (nonlinear_arith)
                requires tmp % 2 == 0;
            assert(2 * pow2(r as nat) <= (tmp / 2) * (2 * pow2(r as nat))) by (nonlinear_arith)
                requires tmp / 2 >= 1, pow2(r as nat) >= 1;
            assert(pow2((r + 1) as nat) <= n);
            if r + 1 > 63 {
                vstd::arithmetic::power2::lemma2_to64_rest();
                if r + 1 > 64 {
                    vstd::arithmetic::power2::lemma_pow2_strictly_increases(64, (r + 1) as nat);
                }
                assert(pow2(64) == 0x10000000000000000);
                assert(pow2((r + 1) as nat) >= 0x10000000000000000);
                assert(false);
            }
        }
        tmp = tmp / 2;
        r += 1;
    }
    proof {
        assert(tmp == 1);
        if r >= 64 {
            vstd::arithmetic::power2::lemma2_to64_rest();
            vstd::arithmetic::power2::lemma_pow2_strictly_increases(64, r as nat);
            assert(pow2(64) == 0x10000000000000000);
        }
    }
    r
}

/// Equal powers of two have equal exponents.
pub proof fn lemma_pow2_injective(a: nat, b: nat)
    ensures
        pow2(a) == pow2(b) ==> a == b,
{
    if a < b {
        vstd::arithmetic::power2::lemma_pow2_strictly_increases(a, b);
    } else if b < a {
        vstd::arithmetic::power2::lemma_pow2_strictly_increases(b, a);
    }
}

pub proof fn lemma_pow2_is_power_of_two(k: nat)
    ensures
        is_power_of_two(pow2(k)),
    decreases k,
{
    vstd::arithmetic::power2::lemma2_to64();
    if k > 0 {
        lemma_pow2_is_power_of_two((k - 1) as nat);
        vstd::arithmetic::power2::lemma_pow2_unfold(k);
        vstd::arithmetic::power2::lemma_pow2_pos((k - 1) as nat);
        assert(pow2(k) == 2 * pow2((k - 1) as nat));
        assert(pow2(k) % 2 == 0 && pow2(k) / 2 == pow2((k - 1) as nat));
    } else {
        assert(pow2(0) == 1);
    }
}

proof fn lemma_pow2_pos_general(k: nat)
    ensures
        pow2(k) >= 1,
        is_power_of_two(pow2(k)),
{
    vstd::arithmetic::power2::lemma_pow2_pos(k);
    lemma_pow2_is_power_of_two(k);
}

} // verus!
