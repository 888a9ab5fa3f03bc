use crate::coset::{coset_wf, Coset};
use crate::one2many::checker::{transcript_ok, verifier_wf, One2ManyVerifier};
use crate::polynomial::{all_wf, copy_elems, ml_eval, ml_wf, pow2, MultilinearPolynomial};
use crate::query_result::QueryResult;
use crate::random_oracle::{oracle_wf, RandomOracle};
use vstd::prelude::*;

verus! {

/// One receiving party of the verifiable sharing: its own opening point,
/// the verifier that collects the dealer's commitments, and, once dealt,
/// its share polynomial.
pub struct AvssParty {
    pub verifier: One2ManyVerifier,
    pub open_point: Vec<Mersenne61Ext>,
    pub final_poly: Option<MultilinearPolynomial>,
}

use crate::field::{f_wf, Mersenne61Ext};

pub open spec fn party_wf(p: AvssParty) -> bool {
    &&& verifier_wf(p.verifier)
    &&& all_wf(p.open_point@)
    &&& match p.final_poly {
        Some(poly) => ml_wf(poly) && poly.coefficients@.len() == pow2(
            (p.open_point@.len() - p.verifier.total_round) as nat,
        ) && p.open_point@.len() >= p.verifier.total_round,
        None => true,
    }
}

/// The share a party holds once dealt: its polynomial's coefficients.
pub open spec fn party_share_coeffs(p: AvssParty) -> Seq<Mersenne61Ext> {
    p.final_poly->Some_0.coefficients@
}

impl AvssParty {
    /// A party that will verify openings at the given point.
    pub fn new(
        total_round: usize,
        interpolate_coset: &Vec<Coset>,
        open_point: Vec<Mersenne61Ext>,
        oracle: &RandomOracle,
    ) -> (r: AvssParty)
        requires
            total_round >= 1,
            interpolate_coset@.len() >= total_round + 1,
            oracle_wf(*oracle),
            oracle.total_round == total_round,
            forall|i: int| 0 <= i < interpolate_coset@.len() ==> coset_wf(#[trigger] interpolate_coset@[i]),
            all_wf(open_point@),
        ensures
            party_wf(r),
            r.open_point@ == open_point@,
            r.final_poly is None,
            r.verifier.total_round == total_round,
            r.verifier.function_root@.len() == 0,
            r.verifier.folding_root@.len() == 0,
            r.verifier.log_max_degree == open_point@.len(),
    {
        let n = open_point.len();
        AvssParty {
            verifier: One2ManyVerifier::new_with_default_map(
                total_round,
                n,
                interpolate_coset,
                oracle,
            ),
            open_point,
            final_poly: None,
        }
    }

    /// Whether a share has been installed.
    pub fn has_share(&self) -> (r: bool)
        ensures
            r == (self.final_poly is Some),
    {
        match &self.final_poly {
            Some(_) => true,
            None => false,
        }
    }

    /// Installs this party's share polynomial.
    pub fn set_share(&mut self, final_poly: &MultilinearPolynomial)
        requires
            party_wf(*old(self)),
            ml_wf(*final_poly),
            old(self).open_point@.len() >= old(self).verifier.total_round,
            final_poly.coefficients@.len() == pow2(
                (old(self).open_point@.len() - old(self).verifier.total_round) as nat,
            ),
        ensures
            party_wf(*final(self)),
            final(self).final_poly is Some,
            party_share_coeffs(*final(self)) == final_poly.coefficients@,
            final(self).open_point@ == old(self).open_point@,
            final(self).verifier == old(self).verifier,
    {
        self.final_poly = Some(
            MultilinearPolynomial { coefficients: copy_elems(&final_poly.coefficients) },
        );
    }

    /// This party's opening point.
    pub fn open_point(&self) -> (r: &Vec<Mersenne61Ext>)
        ensures
            r == &self.open_point,
    {
        &self.open_point
    }

    /// This party's share: the share polynomial evaluated at the tail of
    /// the opening point, one coordinate per variable left after folding.
    pub fn share(&self) -> (r: Mersenne61Ext)
        requires
            party_wf(*self),
            self.final_poly is Some,
        ensures
            r == ml_eval(
                party_share_coeffs(*self),
                self.open_point@.skip(self.verifier.total_round as int),
            ),
            f_wf(r),
    {
        let poly = match &self.final_poly {
            Some(p) => p,
            None => {
                proof {
                    assert(false);
                }
                return Mersenne61Ext::from_int(0);
            },
        };
        let variable_num = poly.variable_num();
        let n = self.open_point.len();
        proof {
            crate::polynomial::lemma_pow2_injective(
                variable_num as nat,
                (self.open_point@.len() - self.verifier.total_round) as nat,
            );
            assert(variable_num as nat == (self.open_point@.len()
                - self.verifier.total_round) as nat);
        }
        let mut tail: Vec<Mersenne61Ext> = Vec::new();
        let mut i: usize = n - variable_num;
        proof {
            assert(self.open_point@.skip(self.verifier.total_round as int).len()
                == variable_num);
        }
        while i < n
            invariant
                n - variable_num <= i <= n,
                n == self.open_point@.len(),
                variable_num <= n,
                all_wf(self.open_point@),
                tail@ =~= self.open_point@.subrange(n - variable_num, i as int),
            decreases n - i,
        {
            tail.push(self.open_point[i]);
            i += 1;
        }
        proof {
            assert(tail@ =~= self.open_point@.skip(n - variable_num));
            assert(n - variable_num == self.verifier.total_round);
        }
        poly.evaluate(&tail)
    }

    /// The first coordinate of the evaluation tail, paired with the share.
    pub fn interpolate_share(&self) -> (r: Vec<Mersenne61Ext>)
        requires
            party_wf(*self),
            self.final_poly is Some,
            self.open_point@.len() > self.verifier.total_round,
        ensures
            r@.len() == 2,
            r@[0] == self.open_point@[self.verifier.total_round as int],
            r@[1] == ml_eval(
                party_share_coeffs(*self),
                self.open_point@.skip(self.verifier.total_round as int),
            ),
    {
        let eva = self.share();
        let poly = match &self.final_poly {
            Some(p) => p,
            None => {
                proof {
                    assert(false);
                }
                return Vec::new();
            },
        };
        let variable_num = poly.variable_num();
        proof {
            crate::polynomial::lemma_pow2_injective(
                variable_num as nat,
                (self.open_point@.len() - self.verifier.total_round) as nat,
            );
            assert(variable_num as nat == (self.open_point@.len()
                - self.verifier.total_round) as nat);
        }
        let n = self.open_point.len();
        let first = self.open_point[n - variable_num];
        let mut r: Vec<Mersenne61Ext> = Vec::new();
        r.push(first);
        r.push(eva);
        proof {
            assert(self.open_point@.skip(self.verifier.total_round as int)[0]
                == self.open_point@[self.verifier.total_round as int]);
        }
        r
    }

    /// The whole share polynomial.
    pub fn all_share(&self) -> (r: MultilinearPolynomial)
        requires
            party_wf(*self),
            self.final_poly is Some,
        ensures
            r.coefficients@ == party_share_coeffs(*self),
            ml_wf(r),
    {
        match &self.final_poly {
            Some(p) => MultilinearPolynomial { coefficients: copy_elems(&p.coefficients) },
            None => {
                proof {
                    assert(false);
                }
                MultilinearPolynomial { coefficients: Vec::new() }
            },
        }
    }

    /// Runs the transcript checks with this party's opening parameters and
    /// share polynomial.
    pub fn verify(
        &self,
        folding_proofs: &Vec<QueryResult>,
        function_proofs: &Vec<QueryResult>,
    ) -> (r: bool)
        requires
            party_wf(*self),
            self.final_poly is Some,
        ensures
            r == transcript_ok(
                self.verifier,
                folding_proofs@,
                function_proofs@,
                self.open_point@,
                self.final_poly->Some_0,
            ),
    {
        let poly = match &self.final_poly {
            Some(p) => p,
            None => {
                proof {
                    assert(false);
                }
                return false;
            },
        };
        self.verifier.verify_with_extra_folding(
            folding_proofs,
            function_proofs,
            &self.open_point,
            poly,
        )
    }
}

} // verus!
