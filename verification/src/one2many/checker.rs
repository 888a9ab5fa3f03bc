use crate::coset::{coset_wf, Coset};
use crate::field::{f_add, f_mul, f_sub, f_wf, Mersenne61Ext, FIELD_MOD};
use crate::merkle_tree::{merkle_verify_spec, MerkleTreeVerifier};
use crate::one2many::prover::copy_cosets;
use crate::polynomial::{
    all_wf, horner_eval, is_power_of_two, ml_wf, poly_wf, uni_eval, MultilinearPolynomial,
    Polynomial,
};
use crate::query_result::{qr_leaves, qr_values_present, QueryResult};
use crate::random_oracle::{oracle_wf, RandomOracle};
use vstd::prelude::*;

verus! {

broadcast use vstd::std_specs::hash::group_hash_axioms;

/// The verifying side of the one-to-many folding protocol: the committed
/// roots received round by round, the evaluation domains, the shared
/// oracle, and the residual polynomial of the last round.
pub struct One2ManyVerifier {
    pub total_round: usize,
    pub log_max_degree: usize,
    pub interpolate_cosets: Vec<Coset>,
    pub function_root: Vec<MerkleTreeVerifier>,
    pub folding_root: Vec<MerkleTreeVerifier>,
    pub oracle: RandomOracle,
    pub final_value: Option<Polynomial>,
}

pub open spec fn verifier_wf(v: One2ManyVerifier) -> bool {
    &&& v.total_round >= 1
    &&& v.interpolate_cosets@.len() >= v.total_round + 1
    &&& oracle_wf(v.oracle)
    &&& v.oracle.total_round == v.total_round
    &&& forall|i: int|
        0 <= i < v.interpolate_cosets@.len() ==> coset_wf(#[trigger] v.interpolate_cosets@[i])
    &&& forall|i: int|
        0 <= i < v.function_root@.len() ==> is_power_of_two(
            (#[trigger] v.function_root@[i]).leave_number as nat,
        )
    &&& forall|i: int|
        0 <= i < v.folding_root@.len() ==> is_power_of_two(
            (#[trigger] v.folding_root@[i]).leave_number as nat,
        )
    &&& match v.final_value {
        Some(p) => poly_wf(p) && v.log_max_degree >= v.total_round && v.log_max_degree
            - v.total_round <= 62 && p.coefficients@.len() <= crate::polynomial::pow2(
            (v.log_max_degree - v.total_round) as nat,
        ) + 1,
        None => true,
    }
}

/// The oracle's query positions, each reduced modulo `half`.
pub open spec fn folded_index_seq(q: Seq<usize>, half: nat) -> Seq<usize> {
    Seq::new(q.len(), |k: int| ((q[k] as nat) % half) as usize)
}

/// The authentication conjunct of one round: the opened values are present
/// for every queried pair and check out against the committed root.
pub open spec fn qr_checks(qr: QueryResult, idx: Seq<usize>, mv: MerkleTreeVerifier) -> bool {
    &&& qr_values_present(qr.proof_values@, idx, mv.leave_number)
    &&& merkle_verify_spec(
        mv.merkle_root@,
        mv.leave_number as nat,
        qr.proof_bytes@,
        idx,
        qr_leaves(qr.proof_values@, idx, mv.leave_number),
    )
}

/// What the verifier accepts. It mirrors the checks performed, round by
/// round: authenticated openings, the challenge-fold consistency between
/// consecutive rounds (against the residual polynomial in the last round),
/// and the same fold with the party's own opening parameters against the
/// party's residual polynomial.
pub open spec fn transcript_ok(
    v: One2ManyVerifier,
    folding: Seq<QueryResult>,
    function: Seq<QueryResult>,
    extra_param: Seq<Mersenne61Ext>,
    extra_poly: MultilinearPolynomial,
) -> bool {
    &&& function.len() == v.total_round
    &&& folding.len() == v.total_round - 1
    &&& extra_param.len() >= v.total_round
    &&& v.function_root@.len() == v.total_round
    &&& v.folding_root@.len() >= v.total_round - 1
    &&& forall|i: int| 0 <= i < v.total_round ==> round_ok(v, folding, function, extra_param, extra_poly, i)
}

pub open spec fn round_ok(
    v: One2ManyVerifier,
    folding: Seq<QueryResult>,
    function: Seq<QueryResult>,
    extra_param: Seq<Mersenne61Ext>,
    extra_poly: MultilinearPolynomial,
    i: int,
) -> bool {
    let domain = v.interpolate_cosets@[i].elements@.len();
    let half = domain / 2;
    let idx = folded_index_seq(v.oracle.query_list@, half as nat);
    let src = if i == 0 {
        function[0]
    } else {
        folding[i - 1]
    };
    let src_mv = if i == 0 {
        v.function_root@[0]
    } else {
        v.folding_root@[i - 1]
    };
    &&& half >= 1
    &&& qr_checks(src, idx, src_mv)
    &&& (i != 0 ==> qr_checks(function[i], idx, v.function_root@[i]))
    &&& forall|k: int|
        0 <= k < idx.len() ==> value_ok(
            v,
            folding,
            function,
            extra_param,
            extra_poly,
            i,
            #[trigger] idx[k],
        )
}

/// The per-position checks of one round at queried position `j`.
pub open spec fn value_ok(
    v: One2ManyVerifier,
    folding: Seq<QueryResult>,
    function: Seq<QueryResult>,
    extra_param: Seq<Mersenne61Ext>,
    extra_poly: MultilinearPolynomial,
    i: int,
    j: usize,
) -> bool {
    let domain = v.interpolate_cosets@[i].elements@.len();
    let half = (domain / 2) as usize;
    let inv = v.interpolate_cosets@[i].element_inverses@;
    let ch = v.oracle.folding_challenges@[i];
    let src = if i == 0 {
        function[0]
    } else {
        folding[i - 1]
    };
    let m = src.proof_values@;
    let jh = (j + half) as usize;
    &&& j < half
    &&& j + half <= usize::MAX
    &&& m.contains_key(j)
    &&& m.contains_key(jh)
    &&& f_wf(m[j])
    &&& f_wf(m[jh])
    &&& {
        let x = m[j];
        let nx = m[jh];
        let v0 = f_add(f_add(x, nx), f_mul(f_mul(ch, f_sub(x, nx)), inv[j as int]));
        &&& if i != 0 {
            let mf = function[i].proof_values@;
            &&& mf.contains_key(j)
            &&& mf.contains_key(jh)
            &&& f_wf(mf[j])
            &&& f_wf(mf[jh])
            &&& {
                let fx = mf[j];
                let fnx = mf[jh];
                let v1 = f_add(
                    f_mul(f_add(f_mul(v0, ch), f_add(fx, fnx)), ch),
                    f_mul(f_sub(fx, fnx), inv[j as int]),
                );
                if i == v.total_round - 1 {
                    &&& v.final_value is Some
                    &&& j < v.interpolate_cosets@[i + 1].elements@.len()
                    &&& v1 == uni_eval(
                        v.final_value->Some_0.coefficients@,
                        v.interpolate_cosets@[i + 1].elements@[j as int],
                    )
                } else {
                    &&& folding[i].proof_values@.contains_key(j)
                    &&& v1 == folding[i].proof_values@[j]
                }
            }
        } else {
            folding.len() > 0 ==> {
                &&& folding[0].proof_values@.contains_key(j)
                &&& v0 == folding[0].proof_values@[j]
            }
        }
        &&& {
            let mfn = function[i].proof_values@;
            &&& mfn.contains_key(j)
            &&& mfn.contains_key(jh)
            &&& f_wf(mfn[j])
            &&& f_wf(mfn[jh])
            &&& {
                let ex = mfn[j];
                let enx = mfn[jh];
                let ev = f_add(
                    f_add(ex, enx),
                    f_mul(f_mul(extra_param[i], f_sub(ex, enx)), inv[j as int]),
                );
                if i < v.total_round - 1 {
                    &&& function[i + 1].proof_values@.contains_key(j)
                    &&& f_wf(function[i + 1].proof_values@[j])
                    &&& ev == f_mul(
                        function[i + 1].proof_values@[j],
                        Mersenne61Ext { real: 2, image: 0 },
                    )
                } else {
                    &&& j < v.interpolate_cosets@[i + 1].elements@.len()
                    &&& ev == f_mul(
                        uni_eval(
                            extra_poly.coefficients@,
                            v.interpolate_cosets@[i + 1].elements@[j as int],
                        ),
                        Mersenne61Ext { real: 2, image: 0 },
                    )
                }
            }
        }
    }
}

/// Whether a residual polynomial's degree fits the verifier's bound
/// `2^(log_max_degree - total_round)`.
pub open spec fn residual_degree_ok(v: One2ManyVerifier, p: Polynomial) -> bool {
    &&& v.log_max_degree >= v.total_round
    &&& v.log_max_degree - v.total_round <= 62
    &&& p.coefficients@.len() <= crate::polynomial::pow2(
        (v.log_max_degree - v.total_round) as nat,
    ) + 1
}

impl One2ManyVerifier {
    /// A verifier with no commitments received yet.
    pub fn new_with_default_map(
        total_round: usize,
        log_max_degree: usize,
        coset: &Vec<Coset>,
        oracle: &RandomOracle,
    ) -> (r: One2ManyVerifier)
        requires
            total_round >= 1,
            coset@.len() >= total_round + 1,
            oracle_wf(*oracle),
            oracle.total_round == total_round,
            forall|i: int| 0 <= i < coset@.len() ==> coset_wf(#[trigger] coset@[i]),
        ensures
            verifier_wf(r),
            r.total_round == total_round,
            r.log_max_degree == log_max_degree,
            r.function_root@.len() == 0,
            r.folding_root@.len() == 0,
            r.final_value is None,
            r.oracle.query_list@ == oracle.query_list@,
            r.oracle.folding_challenges@ == oracle.folding_challenges@,
            r.interpolate_cosets@.len() == coset@.len(),
            forall|i: int|
                0 <= i < coset@.len() ==> crate::coset::coset_eq(
                    #[trigger] r.interpolate_cosets@[i],
                    coset@[i],
                ),
    {
        One2ManyVerifier {
            total_round,
            log_max_degree,
            interpolate_cosets: copy_cosets(coset),
            function_root: Vec::new(),
            folding_root: Vec::new(),
            oracle: oracle.duplicate(),
            final_value: None,
        }
    }

    /// Same as `new_with_default_map`.
    pub fn new(
        total_round: usize,
        log_max_degree: usize,
        coset: &Vec<Coset>,
        oracle: &RandomOracle,
    ) -> (r: One2ManyVerifier)
        requires
            total_round >= 1,
            coset@.len() >= total_round + 1,
            oracle_wf(*oracle),
            oracle.total_round == total_round,
            forall|i: int| 0 <= i < coset@.len() ==> coset_wf(#[trigger] coset@[i]),
        ensures
            verifier_wf(r),
            r.total_round == total_round,
            r.log_max_degree == log_max_degree,
            r.function_root@.len() == 0,
            r.folding_root@.len() == 0,
            r.final_value is None,
            r.oracle.query_list@ == oracle.query_list@,
            r.oracle.folding_challenges@ == oracle.folding_challenges@,
            r.interpolate_cosets@.len() == coset@.len(),
            forall|i: int|
                0 <= i < coset@.len() ==> crate::coset::coset_eq(
                    #[trigger] r.interpolate_cosets@[i],
                    coset@[i],
                ),
    {
        One2ManyVerifier::new_with_default_map(total_round, log_max_degree, coset, oracle)
    }

    /// Records the Merkle root of one round's function vector.
    pub fn set_function(&mut self, leave_number: usize, function_root: Vec<u8>)
        requires
            verifier_wf(*old(self)),
            is_power_of_two(leave_number as nat),
        ensures
            verifier_wf(*final(self)),
            final(self).function_root@ == old(self).function_root@.push(
                MerkleTreeVerifier { merkle_root: function_root, leave_number },
            ),
            final(self).folding_root@ == old(self).folding_root@,
            final(self).final_value == old(self).final_value,
            final(self).total_round == old(self).total_round,
            final(self).log_max_degree == old(self).log_max_degree,
            final(self).interpolate_cosets@ == old(self).interpolate_cosets@,
            final(self).oracle.query_list@ == old(self).oracle.query_list@,
            final(self).oracle.folding_challenges@ == old(self).oracle.folding_challenges@,
    {
        self.function_root.push(MerkleTreeVerifier { merkle_root: function_root, leave_number });
    }

    /// Records the Merkle root of one round's folding vector.
    pub fn receive_folding_root(&mut self, leave_number: usize, folding_root: Vec<u8>)
        requires
            verifier_wf(*old(self)),
            is_power_of_two(leave_number as nat),
        ensures
            verifier_wf(*final(self)),
            final(self).folding_root@ == old(self).folding_root@.push(
                MerkleTreeVerifier { merkle_root: folding_root, leave_number },
            ),
            final(self).function_root@ == old(self).function_root@,
            final(self).final_value == old(self).final_value,
            final(self).total_round == old(self).total_round,
            final(self).log_max_degree == old(self).log_max_degree,
            final(self).interpolate_cosets@ == old(self).interpolate_cosets@,
            final(self).oracle.query_list@ == old(self).oracle.query_list@,
            final(self).oracle.folding_challenges@ == old(self).oracle.folding_challenges@,
    {
        self.folding_root.push(MerkleTreeVerifier { merkle_root: folding_root, leave_number });
    }

    /// Installs the residual polynomial of the last round, provided its
    /// degree is at most `2^(log_max_degree - total_round)`; an oversized
    /// polynomial is dropped, which makes every later transcript check
    /// fail.
    pub fn set_final_value(&mut self, value: Polynomial)
        requires
            verifier_wf(*old(self)),
            poly_wf(value),
        ensures
            verifier_wf(*final(self)),
            final(self).final_value == (if residual_degree_ok(*old(self), value) {
                Some(value)
            } else {
                old(self).final_value
            }),
            final(self).function_root@ == old(self).function_root@,
            final(self).folding_root@ == old(self).folding_root@,
            final(self).total_round == old(self).total_round,
            final(self).log_max_degree == old(self).log_max_degree,
            final(self).interpolate_cosets@ == old(self).interpolate_cosets@,
            final(self).oracle.query_list@ == old(self).oracle.query_list@,
            final(self).oracle.folding_challenges@ == old(self).oracle.folding_challenges@,
    {
        if self.log_max_degree < self.total_round {
            return ;
        }
        let k = self.log_max_degree - self.total_round;
        if k > 62 {
            return ;
        }
        let bound = crate::coset::pow2_u64(k as u64);
        proof {
            if value.coefficients@.len() == 0 {
                vstd::arithmetic::power2::lemma_pow2_pos(k as nat);
            }
        }
        let degree = value.degree();
        if degree as u64 <= bound {
            self.final_value = Some(value);
        }
    }

    /// Checks a full transcript, together with the extra fold that ties it
    /// to this party's opening parameters and residual polynomial. Any
    /// missing, unreduced, or mismatching value makes the whole check
    /// false.
    pub fn verify_with_extra_folding(
        &self,
        folding_proofs: &Vec<QueryResult>,
        function_proofs: &Vec<QueryResult>,
        extra_folding_param: &Vec<Mersenne61Ext>,
        extra_final_poly: &MultilinearPolynomial,
    ) -> (r: bool)
        requires
            verifier_wf(*self),
            all_wf(extra_folding_param@),
            ml_wf(*extra_final_poly),
        ensures
            r == transcript_ok(
                *self,
                folding_proofs@,
                function_proofs@,
                extra_folding_param@,
                *extra_final_poly,
            ),
    {
        if function_proofs.len() != self.total_round || folding_proofs.len() != self.total_round
            - 1 || extra_folding_param.len() < self.total_round || self.function_root.len()
            != self.total_round || self.folding_root.len() < self.total_round - 1 {
            return false;
        }
        let mut i: usize = 0;
        while i < self.total_round
            invariant
                i <= self.total_round,
                verifier_wf(*self),
                all_wf(extra_folding_param@),
                ml_wf(*extra_final_poly),
                function_proofs@.len() == self.total_round,
                folding_proofs@.len() == self.total_round - 1,
                extra_folding_param@.len() >= self.total_round,
                self.function_root@.len() == self.total_round,
                self.folding_root@.len() >= self.total_round - 1,
                forall|t: int|
                    0 <= t < i ==> round_ok(
                        *self,
                        folding_proofs@,
                        function_proofs@,
                        extra_folding_param@,
                        *extra_final_poly,
                        t,
                    ),
            decreases self.total_round - i,
        {
            if !self.check_round(folding_proofs, function_proofs, extra_folding_param,
                extra_final_poly, i) {
                return false;
            }
            i += 1;
        }
        true
    }

    /// Performs the checks of one round; its result is the round's
    /// conjunct of the transcript specification.
    fn check_round(
        &self,
        folding_proofs: &Vec<QueryResult>,
        function_proofs: &Vec<QueryResult>,
        extra_folding_param: &Vec<Mersenne61Ext>,
        extra_final_poly: &MultilinearPolynomial,
        i: usize,
    ) -> (r: bool)
        requires
            verifier_wf(*self),
            all_wf(extra_folding_param@),
            ml_wf(*extra_final_poly),
            i < self.total_round,
            function_proofs@.len() == self.total_round,
            folding_proofs@.len() == self.total_round - 1,
            extra_folding_param@.len() >= self.total_round,
            self.function_root@.len() == self.total_round,
            self.folding_root@.len() >= self.total_round - 1,
        ensures
            r == round_ok(
                *self,
                folding_proofs@,
                function_proofs@,
                extra_folding_param@,
                *extra_final_poly,
                i as int,
            ),
    {
        let domain = self.interpolate_cosets[i].size();
        let half = domain / 2;
        if half == 0 {
            return false;
        }
        // the query positions folded into this round's domain
        let mut idx: Vec<usize> = Vec::new();
        let mut k: usize = 0;
        while k < self.oracle.query_list.len()
            invariant
                k <= self.oracle.query_list@.len(),
                half >= 1,
                idx@.len() == k,
                forall|t: int|
                    0 <= t < k ==> #[trigger] idx@[t] == folded_index_seq(
                        self.oracle.query_list@,
                        half as nat,
                    )[t],
            decreases self.oracle.query_list@.len() - k,
        {
            idx.push(self.oracle.query_list[k] % half);
            k += 1;
        }
        proof {
            assert(idx@ =~= folded_index_seq(self.oracle.query_list@, half as nat));
        }

        let src = if i == 0 {
            &function_proofs[0]
        } else {
            &folding_proofs[i - 1]
        };
        let src_mv = if i == 0 {
            &self.function_root[0]
        } else {
            &self.folding_root[i - 1]
        };
        if !src.verify_merkle_tree(&idx, src_mv) {
            return false;
        }
        if i != 0 {
            if !function_proofs[i].verify_merkle_tree(&idx, &self.function_root[i]) {
                return false;
            }
        }
        let challenge = self.oracle.folding_challenges[i];
        let mut k2: usize = 0;
        while k2 < idx.len()
            invariant
                k2 <= idx@.len(),
                half >= 1,
                domain == self.interpolate_cosets@[i as int].elements@.len(),
                half == domain / 2,
                i < self.total_round,
                verifier_wf(*self),
                all_wf(extra_folding_param@),
                ml_wf(*extra_final_poly),
                function_proofs@.len() == self.total_round,
                folding_proofs@.len() == self.total_round - 1,
                extra_folding_param@.len() >= self.total_round,
                self.function_root@.len() == self.total_round,
                self.folding_root@.len() >= self.total_round - 1,
                challenge == self.oracle.folding_challenges@[i as int],
                idx@ == folded_index_seq(self.oracle.query_list@, half as nat),
                forall|t: int|
                    0 <= t < k2 ==> value_ok(
                        *self,
                        folding_proofs@,
                        function_proofs@,
                        extra_folding_param@,
                        *extra_final_poly,
                        i as int,
                        #[trigger] idx@[t],
                    ),
            decreases idx@.len() - k2,
    {
            let j = idx[k2];
            if !self.check_value(folding_proofs, function_proofs, extra_folding_param,
                extra_final_poly, i, j, half, challenge) {
                return false;
            }
            k2 += 1;
        }
        true
    }

    /// Performs the per-position checks at queried position `j`.
    #[verifier::rlimit(30)]
    fn check_value(
        &self,
        folding_proofs: &Vec<QueryResult>,
        function_proofs: &Vec<QueryResult>,
        extra_folding_param: &Vec<Mersenne61Ext>,
        extra_final_poly: &MultilinearPolynomial,
        i: usize,
        j: usize,
        half: usize,
        challenge: Mersenne61Ext,
    ) -> (r: bool)
        requires
            verifier_wf(*self),
            all_wf(extra_folding_param@),
            ml_wf(*extra_final_poly),
            i < self.total_round,
            function_proofs@.len() == self.total_round,
            folding_proofs@.len() == self.total_round - 1,
            extra_folding_param@.len() >= self.total_round,
            self.function_root@.len() == self.total_round,
            self.folding_root@.len() >= self.total_round - 1,
            half == self.interpolate_cosets@[i as int].elements@.len() / 2,
            half >= 1,
            f_wf(challenge),
            challenge == self.oracle.folding_challenges@[i as int],
        ensures
            r == value_ok(
                *self,
                folding_proofs@,
                function_proofs@,
                extra_folding_param@,
                *extra_final_poly,
                i as int,
                j,
            ),
    {
        if j >= half {
            return false;
        }
        if j > usize::MAX - half {
            return false;
        }
        let jh = j + half;
        let src = if i == 0 {
            &function_proofs[0]
        } else {
            &folding_proofs[i - 1]
        };
        let x = match src.proof_values.get(&j) {
            Some(v) => *v,
            None => {
                return false;
            },
        };
        let nx = match src.proof_values.get(&jh) {
            Some(v) => *v,
            None => {
                return false;
            },
        };
        if x.real >= FIELD_MOD || x.image >= FIELD_MOD || nx.real >= FIELD_MOD || nx.image
            >= FIELD_MOD {
            return false;
        }
        proof {
            assert(2 * (self.interpolate_cosets@[i as int].elements@.len() / 2)
                <= self.interpolate_cosets@[i as int].elements@.len() + 1);
            assert(coset_wf(self.interpolate_cosets@[i as int]));
        }
        let inv_j = self.interpolate_cosets[i].element_inv_at(j);
        let v0 = x.add(nx).add(challenge.mul(x.sub(nx)).mul(inv_j));
        if i != 0 {
            let fx = match function_proofs[i].proof_values.get(&j) {
                Some(v) => *v,
                None => {
                    return false;
                },
            };
            let fnx = match function_proofs[i].proof_values.get(&jh) {
                Some(v) => *v,
                None => {
                    return false;
                },
            };
            if fx.real >= FIELD_MOD || fx.image >= FIELD_MOD || fnx.real >= FIELD_MOD || fnx.image
                >= FIELD_MOD {
                return false;
            }
            let v1 = v0.mul(challenge).add(fx.add(fnx)).mul(challenge).add(
                fx.sub(fnx).mul(inv_j),
            );
            if i == self.total_round - 1 {
                let fp = match &self.final_value {
                    Some(p) => p,
                    None => {
                        return false;
                    },
                };
                if j >= self.interpolate_cosets[i + 1].size() {
                    return false;
                }
                let expect = horner_eval(&fp.coefficients, self.interpolate_cosets[i
                    + 1].element_at(j));
                if !(v1 == expect) {
                    return false;
                }
            } else {
                let fold_next = match folding_proofs[i].proof_values.get(&j) {
                    Some(v) => *v,
                    None => {
                        return false;
                    },
                };
                if !(v1 == fold_next) {
                    return false;
                }
            }
        } else {
            if folding_proofs.len() > 0 {
                let fold_next = match folding_proofs[0].proof_values.get(&j) {
                    Some(v) => *v,
                    None => {
                        return false;
                    },
                };
                if !(v0 == fold_next) {
                    return false;
                }
            }
        }
        // the extra fold against this party's opening parameter
        let ex = match function_proofs[i].proof_values.get(&j) {
            Some(v) => *v,
            None => {
                return false;
            },
        };
        let enx = match function_proofs[i].proof_values.get(&jh) {
            Some(v) => *v,
            None => {
                return false;
            },
        };
        if ex.real >= FIELD_MOD || ex.image >= FIELD_MOD || enx.real >= FIELD_MOD || enx.image
            >= FIELD_MOD {
            return false;
        }
        let ev = ex.add(enx).add(extra_folding_param[i].mul(ex.sub(enx)).mul(inv_j));
        let two = Mersenne61Ext { real: 2, image: 0 };
        if i < self.total_round - 1 {
            let next = match function_proofs[i + 1].proof_values.get(&j) {
                Some(v) => *v,
                None => {
                    return false;
                },
            };
            if next.real >= FIELD_MOD || next.image >= FIELD_MOD {
                return false;
            }
            if !(ev == next.mul(two)) {
                return false;
            }
        } else {
            if j >= self.interpolate_cosets[i + 1].size() {
                return false;
            }
            let poly_v = horner_eval(
                &extra_final_poly.coefficients,
                self.interpolate_cosets[i + 1].element_at(j),
            );
            if !(ev == poly_v.mul(two)) {
                return false;
            }
        }
        true
    }
}

} // verus!
