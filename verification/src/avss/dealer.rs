use crate::avss::party::{party_share_coeffs, party_wf, AvssParty};
use crate::coset::{coset_wf, Coset};
use crate::field::{f_wf, Mersenne61Ext};
use crate::one2many::prover::{ci_wf, fri_fold, prover_wf, CosetInterpolate, One2ManyProver};
use crate::polynomial::{
    all_wf, copy_elems, fold_chain, fold_seq, is_power_of_two, ml_wf, pow2, MultilinearPolynomial,
};
use crate::query_result::QueryResult;
use crate::random_oracle::{oracle_wf, RandomOracle};
use vstd::prelude::*;

verus! {

/// The views of the folding-parameter rows.
pub open spec fn rows_view(rows: Seq<Vec<Mersenne61Ext>>) -> Seq<Seq<Mersenne61Ext>> {
    Seq::new(rows.len(), |j: int| rows[j]@)
}

/// The chain of parameters that entry `k` folds with: row `j` contributes
/// its element at position `k` modulo the row length.
pub open spec fn chain_params(rows: Seq<Seq<Mersenne61Ext>>, k: int, cnt: int) -> Seq<
    Mersenne61Ext,
> {
    Seq::new(cnt as nat, |j: int| rows[j][k % rows[j].len() as int])
}

/// The committed transcript vectors follow the dealing rule: the first is
/// the dealt polynomial evaluated on the largest domain, and each later
/// round's vectors are the previous round's, folded with that round's
/// parameters over that round's domain.
pub open spec fn functions_follow(
    funcs: Seq<CosetInterpolate>,
    poly: Seq<Mersenne61Ext>,
    rows: Seq<Seq<Mersenne61Ext>>,
    cosets: Seq<crate::coset::Coset>,
    cnt: int,
) -> bool {
    &&& (cnt > 0 ==> funcs[0].interpolates.len() == 1 && funcs[0].interpolates[0].value@.len()
        == cosets[0].elements@.len() && (forall|p: int|
        0 <= p < funcs[0].interpolates[0].value@.len()
            ==> #[trigger] funcs[0].interpolates[0].value@[p] == crate::polynomial::uni_eval(
            poly,
            cosets[0].elements@[p],
        )))
    &&& (forall|i: int, j: int|
        1 <= i < cnt && 0 <= j < funcs[i].interpolates.len()
            ==> (#[trigger] funcs[i].interpolates[j]).value@ == fri_fold(
            funcs[i - 1].interpolates[j % funcs[i - 1].interpolates.len() as int].value@,
            rows[i - 1][j],
            cosets[i - 1].element_inverses@,
        ))
}

/// The dealing side of the verifiable sharing: the folding prover over the
/// committed evaluation vectors, and each party's share polynomial, which
/// is the dealt polynomial folded by that party's opening parameters.
pub struct Dealer {
    pub prover: One2ManyProver,
    pub evaluations: Vec<MultilinearPolynomial>,
}

pub open spec fn dealer_wf(d: Dealer) -> bool {
    &&& prover_wf(d.prover)
    &&& d.evaluations@.len() >= 1
    &&& forall|k: int| 0 <= k < d.evaluations@.len() ==> ml_wf(#[trigger] d.evaluations@[k])
    &&& forall|k: int|
        0 <= k < d.evaluations@.len() ==> (#[trigger] d.evaluations@[k]).coefficients@.len()
            == d.evaluations@[0].coefficients@.len()
}

impl Dealer {
    /// One folding step of the dealt evaluations: positions `i` and
    /// `i + len/2` are combined with the parameter and halved.
    fn fold(values: &Vec<Mersenne61Ext>, parameter: Mersenne61Ext, coset: &Coset) -> (r: Vec<
        Mersenne61Ext,
    >)
        requires
            all_wf(values@),
            f_wf(parameter),
            values@.len() % 2 == 0,
            coset.element_inverses@.len() >= values@.len() / 2,
            all_wf(coset.element_inverses@),
        ensures
            r@ == fri_fold(values@, parameter, coset.element_inverses@),
            all_wf(r@),
            r@.len() == values@.len() / 2,
    {
        let len = values.len() / 2;
        let inverse_2 = Mersenne61Ext::inverse_2();
        let mut r: Vec<Mersenne61Ext> = Vec::new();
        let mut i: usize = 0;
        proof {
            assert(2 * (values@.len() / 2) == values@.len());
        }
        while i < len
            invariant
                i <= len,
                len == values@.len() / 2,
                2 * len == values@.len(),
                values@.len() <= usize::MAX,
                all_wf(values@),
                f_wf(parameter),
                inverse_2 == (Mersenne61Ext { real: 0x1000000000000000, image: 0 }),
                f_wf(inverse_2),
                coset.element_inverses@.len() >= len,
                all_wf(coset.element_inverses@),
                r@.len() == i,
                all_wf(r@),
                forall|k: int| 0 <= k < i ==> r@[k] == fri_fold(
                    values@,
                    parameter,
                    coset.element_inverses@,
                )[k],
            decreases len - i,
        {
            let x = values[i];
            let nx = values[i + len];
            let new_v = x.add(nx).add(parameter.mul(x.sub(nx)).mul(coset.element_inv_at(i)));
            r.push(new_v.mul(inverse_2));
            i += 1;
        }
        proof {
            assert(r@ =~= fri_fold(values@, parameter, coset.element_inverses@));
        }
        r
    }

    /// Produces the committed transcript vectors of every round, and each
    /// party's share polynomial: the dealt polynomial folded by the chain
    /// of that party's opening parameters.
    fn batch_folding(
        total_round: usize,
        polynomial: &MultilinearPolynomial,
        folding_parameter: &Vec<Vec<Mersenne61Ext>>,
        coset: &Vec<Coset>,
    ) -> (r: (Vec<CosetInterpolate>, Vec<MultilinearPolynomial>))
        requires
            total_round >= 1,
            ml_wf(*polynomial),
            polynomial.coefficients@.len() >= pow2(total_round as nat),
            polynomial.coefficients@.len() < 0x8000000000000000,
            folding_parameter@.len() >= total_round,
            forall|j: int|
                0 <= j < total_round ==> all_wf((#[trigger] folding_parameter@[j])@)
                    && folding_parameter@[j]@.len() >= 1 && is_power_of_two(
                    folding_parameter@[j]@.len(),
                ),
            coset@.len() >= total_round + 1,
            forall|i: int| 0 <= i < coset@.len() ==> coset_wf(#[trigger] coset@[i]),
            forall|i: int|
                1 <= i <= total_round ==> 2 * ((#[trigger] coset@[i]).elements@.len())
                    == coset@[i - 1].elements@.len(),
        ensures
            r.0@.len() == total_round,
            forall|i: int| 0 <= i < total_round ==> ci_wf(#[trigger] r.0@[i]),
            r.0@[0].interpolates@.len() == 1,
            forall|i: int|
                1 <= i < total_round ==> (#[trigger] r.0@[i]).interpolates@.len()
                    == folding_parameter@[i - 1]@.len(),
            forall|i: int|
                0 <= i < total_round ==> (#[trigger] r.0@[i]).interpolates@[0].value@.len()
                    == coset@[i].elements@.len(),
            functions_follow(
                r.0@,
                polynomial.coefficients@,
                rows_view(folding_parameter@),
                coset@,
                total_round as int,
            ),
            r.1@.len() == folding_parameter@[total_round - 1]@.len(),
            forall|k: int|
                0 <= k < r.1@.len() ==> ml_wf(#[trigger] r.1@[k]) && r.1@[k].coefficients@
                    == fold_chain(
                    polynomial.coefficients@,
                    chain_params(rows_view(folding_parameter@), k, total_round as int),
                ) && r.1@[k].coefficients@.len() * pow2(total_round as nat)
                    == polynomial.coefficients@.len(),
    {
        // transcript vectors: evaluate on the largest domain, then fold
        // round by round with each round's parameters
        let mut functions: Vec<CosetInterpolate> = Vec::new();
        let ev0 = coset[0].fft(&polynomial.coefficients);
        proof {
            let c0 = coset@[0];
            assert(coset_wf(c0));
            assert(2 * (coset@[1].elements@.len()) == coset@[1 - 1].elements@.len());
            lemma_half_is_pow2(c0.log_size as nat, coset@[1].log_size as nat, c0.elements@.len(), coset@[1].elements@.len());
        }
        let mut cur: Vec<Vec<Mersenne61Ext>> = Vec::new();
        cur.push(copy_elems(&ev0));
        let mut row0: Vec<Vec<Mersenne61Ext>> = Vec::new();
        row0.push(ev0);
        proof {
            assert(is_power_of_two(1nat));
            assert(row0@[0]@.len() == coset@[0].elements@.len());
        }
        functions.push(CosetInterpolate::new(row0));

        let mut round: usize = 0;
        while round < total_round - 1
            invariant
                round <= total_round - 1,
                total_round >= 1,
                ml_wf(*polynomial),
                folding_parameter@.len() >= total_round,
                forall|j: int|
                    0 <= j < total_round ==> all_wf((#[trigger] folding_parameter@[j])@)
                        && folding_parameter@[j]@.len() >= 1 && is_power_of_two(
                        folding_parameter@[j]@.len(),
                    ),
                coset@.len() >= total_round + 1,
                forall|i: int| 0 <= i < coset@.len() ==> coset_wf(#[trigger] coset@[i]),
                forall|i: int|
                    1 <= i <= total_round ==> 2 * ((#[trigger] coset@[i]).elements@.len())
                        == coset@[i - 1].elements@.len(),
                functions@.len() == round + 1,
                forall|i: int| 0 <= i <= round ==> ci_wf(#[trigger] functions@[i]),
                functions@[0].interpolates@.len() == 1,
                forall|i: int|
                    1 <= i <= round ==> (#[trigger] functions@[i]).interpolates@.len()
                        == folding_parameter@[i - 1]@.len(),
                forall|i: int|
                    0 <= i <= round ==> (#[trigger] functions@[i]).interpolates@[0].value@.len()
                        == coset@[i].elements@.len(),
                cur@.len() == if round == 0 {
                    1int
                } else {
                    folding_parameter@[round - 1]@.len() as int
                },
                cur@.len() >= 1,
                is_power_of_two(cur@.len()),
                forall|t: int|
                    0 <= t < cur@.len() ==> all_wf((#[trigger] cur@[t])@) && cur@[t]@.len()
                        == coset@[round as int].elements@.len(),
                ml_wf(*polynomial),
                functions_follow(
                    functions@,
                    polynomial.coefficients@,
                    rows_view(folding_parameter@),
                    coset@,
                    round + 1,
                ),
                cur@.len() == functions@[round as int].interpolates@.len(),
                forall|t: int|
                    0 <= t < cur@.len() ==> (#[trigger] cur@[t])@
                        == functions@[round as int].interpolates@[t].value@,
            decreases total_round - 1 - round,
        {
            let row = &folding_parameter[round];
            let m = row.len();
            let mut next: Vec<Vec<Mersenne61Ext>> = Vec::new();
            let cur_len = cur.len();
            let mut index: usize = 0;
            proof {
                assert(2 * (coset@[round + 1].elements@.len())
                    == coset@[round + 1 - 1].elements@.len());
            }
            while index < m
                invariant
                    index <= m,
                    round < total_round - 1,
                    m == folding_parameter@[round as int]@.len(),
                    cur_len == cur@.len(),
                    cur@.len() >= 1,
                    row@ == folding_parameter@[round as int]@,
                    all_wf(folding_parameter@[round as int]@),
                    forall|t: int|
                        0 <= t < cur@.len() ==> all_wf((#[trigger] cur@[t])@) && cur@[t]@.len()
                            == coset@[round as int].elements@.len(),
                    coset@.len() >= total_round + 1,
                    forall|i: int| 0 <= i < coset@.len() ==> coset_wf(#[trigger] coset@[i]),
                    2 * coset@[round + 1].elements@.len() == coset@[round as int].elements@.len(),
                    next@.len() == index,
                    forall|t: int|
                        0 <= t < index ==> all_wf((#[trigger] next@[t])@) && next@[t]@.len()
                            == coset@[round + 1].elements@.len(),
                    forall|t: int|
                        0 <= t < index ==> (#[trigger] next@[t])@ == fri_fold(
                            cur@[t % cur_len as int]@,
                            folding_parameter@[round as int]@[t],
                            coset@[round as int].element_inverses@,
                        ),
                decreases m - index,
            {
                let src = &cur[index % cur_len];
                let param = row[index];
                proof {
                    assert(all_wf(folding_parameter@[round as int]@));
                    assert(f_wf(folding_parameter@[round as int]@[index as int]));
                    assert(coset_wf(coset@[round as int]));
                }
                let folded = Dealer::fold(src, param, &coset[round]);
                next.push(folded);
                index += 1;
            }
            proof {
                let c1 = coset@[round + 1];
                assert(coset_wf(c1));
                assert(2 * (coset@[round + 2].elements@.len()) == coset@[round + 2
                    - 1].elements@.len());
                lemma_half_is_pow2(
                    c1.log_size as nat,
                    coset@[round + 2].log_size as nat,
                    c1.elements@.len(),
                    coset@[round + 2].elements@.len(),
                );
            }
            let committed = copy_matrix(&next);
            functions.push(CosetInterpolate::new(committed));
            cur = next;
            round += 1;
        }

        // share polynomials: the dealt polynomial folded by each chain of
        // opening parameters
        let last_row_len = folding_parameter[total_round - 1].len();
        let mut evaluations: Vec<MultilinearPolynomial> = Vec::new();
        let mut k: usize = 0;
        while k < last_row_len
            invariant
                k <= last_row_len,
                total_round >= 1,
                ml_wf(*polynomial),
                polynomial.coefficients@.len() >= pow2(total_round as nat),
                polynomial.coefficients@.len() < 0x8000000000000000,
                folding_parameter@.len() >= total_round,
                last_row_len == folding_parameter@[total_round - 1]@.len(),
                forall|j: int|
                    0 <= j < total_round ==> all_wf((#[trigger] folding_parameter@[j])@)
                        && folding_parameter@[j]@.len() >= 1 && is_power_of_two(
                        folding_parameter@[j]@.len(),
                    ),
                evaluations@.len() == k,
                forall|t: int|
                    0 <= t < k ==> ml_wf(#[trigger] evaluations@[t]) && evaluations@[t].coefficients@
                        == fold_chain(
                        polynomial.coefficients@,
                        chain_params(rows_view(folding_parameter@), t, total_round as int),
                    ) && evaluations@[t].coefficients@.len() * pow2(total_round as nat)
                        == polynomial.coefficients@.len(),
            decreases last_row_len - k,
        {
            let poly_k = Dealer::fold_by_chain(polynomial, folding_parameter, total_round, k);
            evaluations.push(poly_k);
            k += 1;
        }
        (functions, evaluations)
    }

    /// Folds the dealt polynomial once per round, by the parameter that row
    /// assigns to position `k`.
    fn fold_by_chain(
        polynomial: &MultilinearPolynomial,
        folding_parameter: &Vec<Vec<Mersenne61Ext>>,
        total_round: usize,
        k: usize,
    ) -> (r: MultilinearPolynomial)
        requires
            total_round >= 1,
            ml_wf(*polynomial),
            polynomial.coefficients@.len() >= pow2(total_round as nat),
            polynomial.coefficients@.len() < 0x8000000000000000,
            folding_parameter@.len() >= total_round,
            forall|j: int|
                0 <= j < total_round ==> all_wf((#[trigger] folding_parameter@[j])@)
                    && folding_parameter@[j]@.len() >= 1,
        ensures
            ml_wf(r),
            r.coefficients@ == fold_chain(
                polynomial.coefficients@,
                chain_params(rows_view(folding_parameter@), k as int, total_round as int),
            ),
            r.coefficients@.len() * pow2(total_round as nat) == polynomial.coefficients@.len(),
    {
        let mut poly = MultilinearPolynomial { coefficients: copy_elems(&polynomial.coefficients) };
        let mut j: usize = 0;
        proof {
            assert(chain_params(rows_view(folding_parameter@), k as int, 0int)
                =~= Seq::<Mersenne61Ext>::empty());
            vstd::arithmetic::power2::lemma2_to64();
        }
        while j < total_round
            invariant
                j <= total_round,
                ml_wf(*polynomial),
                ml_wf(poly),
                polynomial.coefficients@.len() >= pow2(total_round as nat),
                polynomial.coefficients@.len() < 0x8000000000000000,
                folding_parameter@.len() >= total_round,
                forall|t: int|
                    0 <= t < total_round ==> all_wf((#[trigger] folding_parameter@[t])@)
                        && folding_parameter@[t]@.len() >= 1,
                poly.coefficients@ == fold_chain(
                    polynomial.coefficients@,
                    chain_params(rows_view(folding_parameter@), k as int, j as int),
                ),
                poly.coefficients@.len() * pow2(j as nat) == polynomial.coefficients@.len(),
            decreases total_round - j,
        {
            let row = &folding_parameter[j];
            let param = row[k % row.len()];
            proof {
                assert(f_wf(folding_parameter@[j as int]@[k as int % folding_parameter@[j as int]@.len() as int]));
                lemma_len_big_enough(
                    poly.coefficients@.len() as int,
                    j as nat,
                    total_round as nat,
                    polynomial.coefficients@.len() as int,
                );
            }
            let ghost before = poly.coefficients@;
            let ghost prefix = chain_params(rows_view(folding_parameter@), k as int, j as int);
            poly = poly.folding(param);
            proof {
                crate::polynomial::lemma_fold_chain_push(
                    polynomial.coefficients@,
                    prefix,
                    param,
                );
                assert(prefix.push(param) =~= chain_params(
                    rows_view(folding_parameter@),
                    k as int,
                    j + 1,
                ));
                vstd::arithmetic::power2::lemma_pow2_unfold((j + 1) as nat);
                assert(poly.coefficients@.len() == before.len() / 2);
                assert((before.len() / 2) * (2 * pow2(j as nat)) == before.len() * pow2(j as nat))
                    by (nonlinear_arith)
                    requires before.len() % 2 == 0;
            }
            j += 1;
        }
        poly
    }

    /// Deals a polynomial: commits its evaluations and prepares each
    /// party's share polynomial.
    pub fn new(
        total_round: usize,
        polynomial: &MultilinearPolynomial,
        interpolate_coset: &Vec<Coset>,
        oracle: &RandomOracle,
        folding_parameter: &Vec<Vec<Mersenne61Ext>>,
    ) -> (r: Dealer)
        requires
            total_round >= 1,
            ml_wf(*polynomial),
            polynomial.coefficients@.len() >= pow2(total_round as nat),
            polynomial.coefficients@.len() < 0x8000000000000000,
            folding_parameter@.len() >= total_round,
            forall|j: int|
                0 <= j < total_round ==> all_wf((#[trigger] folding_parameter@[j])@)
                    && folding_parameter@[j]@.len() >= 1 && is_power_of_two(
                    folding_parameter@[j]@.len(),
                ),
            oracle_wf(*oracle),
            oracle.total_round == total_round,
            interpolate_coset@.len() >= total_round + 1,
            forall|i: int|
                0 <= i < interpolate_coset@.len() ==> coset_wf(#[trigger] interpolate_coset@[i]),
            forall|i: int|
                1 <= i <= total_round ==> 2 * ((#[trigger] interpolate_coset@[i]).elements@.len())
                    == interpolate_coset@[i - 1].elements@.len(),
        ensures
            dealer_wf(r),
            r.prover.total_round == total_round,
            r.prover.foldings@.len() == 0,
            r.prover.final_value@.len() == 0,
            r.evaluations@.len() == folding_parameter@[total_round - 1]@.len(),
            r.prover.interpolate_cosets@.len() == interpolate_coset@.len(),
            forall|i: int|
                0 <= i < interpolate_coset@.len()
                    ==> (#[trigger] r.prover.interpolate_cosets@[i]).elements@.len()
                    == interpolate_coset@[i].elements@.len(),
            forall|k: int|
                0 <= k < r.evaluations@.len() ==> (#[trigger] r.evaluations@[k]).coefficients@
                    == fold_chain(
                    polynomial.coefficients@,
                    chain_params(rows_view(folding_parameter@), k, total_round as int),
                ),
            forall|k: int|
                0 <= k < r.evaluations@.len() ==> (#[trigger] r.evaluations@[k]).coefficients@.len()
                    * pow2(total_round as nat) == polynomial.coefficients@.len(),
            functions_follow(
                r.prover.functions@,
                polynomial.coefficients@,
                rows_view(folding_parameter@),
                interpolate_coset@,
                total_round as int,
            ),
    {
        let (functions, evaluations) = Dealer::batch_folding(
            total_round,
            polynomial,
            folding_parameter,
            interpolate_coset,
        );
        proof {
            assert forall|i: int| 0 <= i < total_round implies 2 * ((#[trigger] interpolate_coset@[i + 1]).elements@.len()) == interpolate_coset@[i].elements@.len() by {
                assert(2 * (interpolate_coset@[i + 1].elements@.len()) == interpolate_coset@[i + 1
                    - 1].elements@.len());
            }
            assert forall|k: int|
                0 <= k < evaluations@.len() implies (#[trigger] evaluations@[k]).coefficients@.len()
                == evaluations@[0].coefficients@.len() by {
                let a = evaluations@[k].coefficients@.len() as int;
                let b = evaluations@[0].coefficients@.len() as int;
                let p = pow2(total_round as nat) as int;
                vstd::arithmetic::power2::lemma_pow2_pos(total_round as nat);
                assert(a * p == b * p);
                assert(a == b) by (nonlinear_arith)
                    requires
                        a * p == b * p,
                        p >= 1,
                ;
            }
        }
        let prover = One2ManyProver::new(total_round, interpolate_coset, functions, oracle);
        Dealer { prover, evaluations }
    }

    /// Hands each party its share polynomial, cycling through the prepared
    /// shares.
    pub fn send_evaluations(&self, avss_party: &mut Vec<AvssParty>)
        requires
            dealer_wf(*self),
            forall|i: int|
                0 <= i < old(avss_party)@.len() ==> party_wf(#[trigger] old(avss_party)@[i])
                    && old(avss_party)@[i].open_point@.len()
                    >= old(avss_party)@[i].verifier.total_round && pow2(
                    (old(avss_party)@[i].open_point@.len()
                        - old(avss_party)@[i].verifier.total_round) as nat,
                ) == self.evaluations@[0].coefficients@.len(),
        ensures
            final(avss_party)@.len() == old(avss_party)@.len(),
            forall|i: int|
                0 <= i < final(avss_party)@.len() ==> {
                    &&& party_wf(#[trigger] final(avss_party)@[i])
                    &&& final(avss_party)@[i].final_poly is Some
                    &&& party_share_coeffs(final(avss_party)@[i]) == self.evaluations@[i as int
                        % self.evaluations@.len() as int].coefficients@
                    &&& final(avss_party)@[i].open_point@ == old(avss_party)@[i].open_point@
                    &&& final(avss_party)@[i].verifier == old(avss_party)@[i].verifier
                },
    {
        let e = self.evaluations.len();
        let mut i: usize = 0;
        while i < avss_party.len()
            invariant
                i <= avss_party@.len(),
                e == self.evaluations@.len(),
                dealer_wf(*self),
                avss_party@.len() == old(avss_party)@.len(),
                forall|t: int|
                    i <= t < avss_party@.len() ==> avss_party@[t] == old(avss_party)@[t],
                forall|t: int|
                    0 <= t < old(avss_party)@.len() ==> party_wf(#[trigger] old(avss_party)@[t])
                        && old(avss_party)@[t].open_point@.len()
                        >= old(avss_party)@[t].verifier.total_round && pow2(
                        (old(avss_party)@[t].open_point@.len()
                            - old(avss_party)@[t].verifier.total_round) as nat,
                    ) == self.evaluations@[0].coefficients@.len(),
                forall|t: int|
                    0 <= t < i ==> {
                        &&& party_wf(#[trigger] avss_party@[t])
                        &&& avss_party@[t].final_poly is Some
                        &&& party_share_coeffs(avss_party@[t]) == self.evaluations@[t
                            % self.evaluations@.len() as int].coefficients@
                        &&& avss_party@[t].open_point@ == old(avss_party)@[t].open_point@
                        &&& avss_party@[t].verifier == old(avss_party)@[t].verifier
                    },
            decreases avss_party@.len() - i,
        {
            let mut p = avss_party.remove(i);
            p.set_share(&self.evaluations[i % e]);
            avss_party.insert(i, p);
            i += 1;
        }
    }

    /// Hands every party's verifier, round by round, the root of the
    /// function vector that concerns it: afterwards each verifier holds one
    /// root per round, in round order.
    pub fn commit_functions(&self, avss_party: &mut Vec<AvssParty>)
        requires
            dealer_wf(*self),
            forall|i: int|
                0 <= i < old(avss_party)@.len() ==> party_wf(#[trigger] old(avss_party)@[i]),
        ensures
            final(avss_party)@.len() == old(avss_party)@.len(),
            forall|i: int|
                0 <= i < final(avss_party)@.len() ==> party_wf(#[trigger] final(avss_party)@[i])
                    && party_state_eq(final(avss_party)@[i], old(avss_party)@[i]),
            forall|v: int|
                0 <= v < final(avss_party)@.len() ==> crate::one2many::prover::roots_extended(
                    old(avss_party)@[v].verifier.function_root@,
                    (#[trigger] final(avss_party)@[v]).verifier.function_root@,
                    self.prover.functions@,
                    self.prover.total_round as int,
                    v,
                ) && final(avss_party)@[v].verifier.folding_root@
                    == old(avss_party)@[v].verifier.folding_root@ && final(avss_party)@[v].verifier.final_value == old(avss_party)@[v].verifier.final_value,
    {
        let mut round: usize = 0;
        while round < self.prover.total_round
            invariant
                round <= self.prover.total_round,
                dealer_wf(*self),
                avss_party@.len() == old(avss_party)@.len(),
                forall|i: int|
                    0 <= i < avss_party@.len() ==> party_wf(#[trigger] avss_party@[i])
                        && party_state_eq(avss_party@[i], old(avss_party)@[i]),
                forall|v: int|
                    0 <= v < avss_party@.len() ==> crate::one2many::prover::roots_extended(
                        old(avss_party)@[v].verifier.function_root@,
                        (#[trigger] avss_party@[v]).verifier.function_root@,
                        self.prover.functions@,
                        round as int,
                        v,
                    ) && avss_party@[v].verifier.folding_root@
                        == old(avss_party)@[v].verifier.folding_root@ && avss_party@[v].verifier.final_value
                        == old(avss_party)@[v].verifier.final_value,
            decreases self.prover.total_round - round,
        {
            let mut idx: usize = 0;
            while idx < avss_party.len()
                invariant
                    round < self.prover.total_round,
                    idx <= avss_party@.len(),
                    dealer_wf(*self),
                    avss_party@.len() == old(avss_party)@.len(),
                    forall|i: int|
                        0 <= i < avss_party@.len() ==> party_wf(#[trigger] avss_party@[i])
                            && party_state_eq(avss_party@[i], old(avss_party)@[i]),
                    forall|v: int|
                        0 <= v < avss_party@.len() ==> (#[trigger] avss_party@[v]).verifier.folding_root@
                            == old(avss_party)@[v].verifier.folding_root@
                            && avss_party@[v].verifier.final_value
                            == old(avss_party)@[v].verifier.final_value,
                    forall|v: int|
                        0 <= v < idx ==> crate::one2many::prover::roots_extended(
                            old(avss_party)@[v].verifier.function_root@,
                            (#[trigger] avss_party@[v]).verifier.function_root@,
                            self.prover.functions@,
                            round + 1,
                            v,
                        ),
                    forall|v: int|
                        idx <= v < avss_party@.len() ==> crate::one2many::prover::roots_extended(
                            old(avss_party)@[v].verifier.function_root@,
                            (#[trigger] avss_party@[v]).verifier.function_root@,
                            self.prover.functions@,
                            round as int,
                            v,
                        ),
                decreases avss_party@.len() - idx,
            {
                proof {
                    assert(ci_wf(self.prover.functions@[round as int]));
                    let fs = self.prover.functions@[round as int];
                    assert(crate::one2many::prover::iv_wf(
                        fs.interpolates@[idx as int % fs.interpolates@.len() as int],
                    ));
                }
                let function = self.prover.functions[round].get_interpolation(idx);
                let ln = function.leave_num();
                let root = function.commit();
                let mut p = avss_party.remove(idx);
                let ghost pre_roots = p.verifier.function_root@;
                p.verifier.set_function(ln, root);
                proof {
                    let pre0 = old(avss_party)@[idx as int].verifier.function_root@;
                    let post = p.verifier.function_root@;
                    let fs = self.prover.functions@;
                    assert(post == pre_roots.push(post.last()));
                    assert forall|t: int| 0 <= t < round + 1 implies ((#[trigger] post[pre0.len()
                        + t]).merkle_root@ == fs[t].interpolates[idx as int % fs[t].interpolates.len() as int].merkle_tree.root@ && post[pre0.len()
                        + t].leave_number == fs[t].interpolates[idx as int % fs[t].interpolates.len() as int].value@.len() / 2) by {
                        if t < round as int {
                            assert(post[pre0.len() + t] == pre_roots[pre0.len() + t]);
                        }
                    }
                }
                avss_party.insert(idx, p);
                idx += 1;
            }
            round += 1;
        }
    }

    /// Hands every party's verifier the folding roots of the first
    /// `total_round - 1` rounds, in round order, then its residual
    /// polynomial, degree permitting.
    pub fn commit_foldings(&self, avss_party: &mut Vec<AvssParty>)
        requires
            dealer_wf(*self),
            self.prover.foldings@.len() == self.prover.total_round - 1,
            forall|r: int|
                0 <= r < self.prover.foldings@.len() ==> ci_wf(#[trigger] self.prover.foldings@[r]),
            self.prover.final_value@.len() >= 1,
            forall|j: int|
                0 <= j < self.prover.final_value@.len() ==> crate::polynomial::poly_wf(
                    #[trigger] self.prover.final_value@[j],
                ),
            forall|i: int|
                0 <= i < old(avss_party)@.len() ==> party_wf(#[trigger] old(avss_party)@[i]),
        ensures
            final(avss_party)@.len() == old(avss_party)@.len(),
            forall|i: int|
                0 <= i < final(avss_party)@.len() ==> party_wf(#[trigger] final(avss_party)@[i])
                    && party_state_eq(final(avss_party)@[i], old(avss_party)@[i]),
            forall|v: int|
                0 <= v < final(avss_party)@.len() ==> crate::one2many::prover::roots_extended(
                    old(avss_party)@[v].verifier.folding_root@,
                    (#[trigger] final(avss_party)@[v]).verifier.folding_root@,
                    self.prover.foldings@,
                    self.prover.total_round - 1,
                    v,
                ) && final(avss_party)@[v].verifier.function_root@
                    == old(avss_party)@[v].verifier.function_root@,
            forall|v: int|
                0 <= v < final(avss_party)@.len() ==> {
                    let q = self.prover.final_value@[v % self.prover.final_value@.len() as int];
                    &&& (crate::one2many::checker::residual_degree_ok(
                        old(avss_party)@[v].verifier,
                        q,
                    ) ==> ((#[trigger] final(avss_party)@[v]).verifier.final_value matches Some(fp)
                        && fp.coefficients@ == q.coefficients@))
                    &&& (!crate::one2many::checker::residual_degree_ok(
                        old(avss_party)@[v].verifier,
                        q,
                    ) ==> final(avss_party)@[v].verifier.final_value == old(avss_party)@[v].verifier.final_value)
                },
    {
        let rounds = self.prover.total_round - 1;
        let mut round: usize = 0;
        while round < rounds
            invariant
                round <= rounds,
                rounds == self.prover.total_round - 1,
                dealer_wf(*self),
                self.prover.foldings@.len() == rounds,
                forall|r: int|
                    0 <= r < self.prover.foldings@.len() ==> ci_wf(
                        #[trigger] self.prover.foldings@[r],
                    ),
                avss_party@.len() == old(avss_party)@.len(),
                forall|i: int|
                    0 <= i < avss_party@.len() ==> party_wf(#[trigger] avss_party@[i])
                        && party_state_eq(avss_party@[i], old(avss_party)@[i]),
                forall|v: int|
                    0 <= v < avss_party@.len() ==> crate::one2many::prover::roots_extended(
                        old(avss_party)@[v].verifier.folding_root@,
                        (#[trigger] avss_party@[v]).verifier.folding_root@,
                        self.prover.foldings@,
                        round as int,
                        v,
                    ) && avss_party@[v].verifier.function_root@
                        == old(avss_party)@[v].verifier.function_root@
                        && avss_party@[v].verifier.final_value
                        == old(avss_party)@[v].verifier.final_value
                        && avss_party@[v].verifier.log_max_degree
                        == old(avss_party)@[v].verifier.log_max_degree,
            decreases rounds - round,
        {
            let mut idx: usize = 0;
            while idx < avss_party.len()
                invariant
                    round < rounds,
                    rounds == self.prover.total_round - 1,
                    idx <= avss_party@.len(),
                    dealer_wf(*self),
                    self.prover.foldings@.len() == rounds,
                    forall|r: int|
                        0 <= r < self.prover.foldings@.len() ==> ci_wf(
                            #[trigger] self.prover.foldings@[r],
                        ),
                    avss_party@.len() == old(avss_party)@.len(),
                    forall|i: int|
                        0 <= i < avss_party@.len() ==> party_wf(#[trigger] avss_party@[i])
                            && party_state_eq(avss_party@[i], old(avss_party)@[i]),
                    forall|v: int|
                        0 <= v < avss_party@.len() ==> (#[trigger] avss_party@[v]).verifier.function_root@
                            == old(avss_party)@[v].verifier.function_root@
                            && avss_party@[v].verifier.final_value
                            == old(avss_party)@[v].verifier.final_value
                            && avss_party@[v].verifier.log_max_degree
                            == old(avss_party)@[v].verifier.log_max_degree,
                    forall|v: int|
                        0 <= v < idx ==> crate::one2many::prover::roots_extended(
                            old(avss_party)@[v].verifier.folding_root@,
                            (#[trigger] avss_party@[v]).verifier.folding_root@,
                            self.prover.foldings@,
                            round + 1,
                            v,
                        ),
                    forall|v: int|
                        idx <= v < avss_party@.len() ==> crate::one2many::prover::roots_extended(
                            old(avss_party)@[v].verifier.folding_root@,
                            (#[trigger] avss_party@[v]).verifier.folding_root@,
                            self.prover.foldings@,
                            round as int,
                            v,
                        ),
                decreases avss_party@.len() - idx,
            {
                proof {
                    let fr = self.prover.foldings@[round as int];
                    assert(crate::one2many::prover::iv_wf(
                        fr.interpolates@[idx as int % fr.interpolates@.len() as int],
                    ));
                }
                let interpolation = self.prover.foldings[round].get_interpolation(idx);
                let ln = interpolation.leave_num();
                let root = interpolation.commit();
                let mut p = avss_party.remove(idx);
                let ghost pre_roots = p.verifier.folding_root@;
                p.verifier.receive_folding_root(ln, root);
                proof {
                    let pre0 = old(avss_party)@[idx as int].verifier.folding_root@;
                    let post = p.verifier.folding_root@;
                    let fs = self.prover.foldings@;
                    assert(post == pre_roots.push(post.last()));
                    assert forall|t: int| 0 <= t < round + 1 implies ((#[trigger] post[pre0.len()
                        + t]).merkle_root@ == fs[t].interpolates[idx as int % fs[t].interpolates.len() as int].merkle_tree.root@ && post[pre0.len()
                        + t].leave_number == fs[t].interpolates[idx as int % fs[t].interpolates.len() as int].value@.len() / 2) by {
                        if t < round as int {
                            assert(post[pre0.len() + t] == pre_roots[pre0.len() + t]);
                        }
                    }
                }
                avss_party.insert(idx, p);
                idx += 1;
            }
            round += 1;
        }
        let fv_len = self.prover.final_value.len();
        let mut idx: usize = 0;
        while idx < avss_party.len()
            invariant
                idx <= avss_party@.len(),
                fv_len == self.prover.final_value@.len(),
                fv_len >= 1,
                rounds == self.prover.total_round - 1,
                self.prover.foldings@.len() == rounds,
                forall|j: int|
                    0 <= j < self.prover.final_value@.len() ==> crate::polynomial::poly_wf(
                        #[trigger] self.prover.final_value@[j],
                    ),
                avss_party@.len() == old(avss_party)@.len(),
                forall|i: int|
                    0 <= i < avss_party@.len() ==> party_wf(#[trigger] avss_party@[i])
                        && party_state_eq(avss_party@[i], old(avss_party)@[i]),
                forall|v: int|
                    0 <= v < avss_party@.len() ==> crate::one2many::prover::roots_extended(
                        old(avss_party)@[v].verifier.folding_root@,
                        (#[trigger] avss_party@[v]).verifier.folding_root@,
                        self.prover.foldings@,
                        rounds as int,
                        v,
                    ) && avss_party@[v].verifier.function_root@
                        == old(avss_party)@[v].verifier.function_root@
                        && avss_party@[v].verifier.log_max_degree
                        == old(avss_party)@[v].verifier.log_max_degree
                        && avss_party@[v].verifier.total_round
                        == old(avss_party)@[v].verifier.total_round,
                forall|v: int|
                    idx <= v < avss_party@.len() ==> (#[trigger] avss_party@[v]).verifier.final_value
                        == old(avss_party)@[v].verifier.final_value,
                forall|v: int|
                    0 <= v < idx ==> {
                        let q = self.prover.final_value@[v % fv_len as int];
                        &&& (crate::one2many::checker::residual_degree_ok(
                            old(avss_party)@[v].verifier,
                            q,
                        ) ==> ((#[trigger] avss_party@[v]).verifier.final_value matches Some(fp)
                            && fp.coefficients@ == q.coefficients@))
                        &&& (!crate::one2many::checker::residual_degree_ok(
                            old(avss_party)@[v].verifier,
                            q,
                        ) ==> avss_party@[v].verifier.final_value == old(avss_party)@[v].verifier.final_value)
                    },
            decreases avss_party@.len() - idx,
        {
            let poly = crate::one2many::prover::clone_poly(&self.prover.final_value[idx % fv_len]);
            let mut p = avss_party.remove(idx);
            let ghost pre_v = p.verifier;
            p.verifier.set_final_value(poly);
            proof {
                let q = self.prover.final_value@[idx as int % fv_len as int];
                assert(crate::one2many::checker::residual_degree_ok(pre_v, poly)
                    == crate::one2many::checker::residual_degree_ok(
                    old(avss_party)@[idx as int].verifier,
                    q,
                ));
            }
            avss_party.insert(idx, p);
            idx += 1;
        }
    }

    /// Runs the folding rounds of the proof.
    pub fn prove(&mut self)
        requires
            dealer_wf(*old(self)),
            old(self).prover.foldings@.len() == 0,
            old(self).prover.final_value@.len() == 0,
        ensures
            dealer_wf(*final(self)),
            final(self).evaluations@ == old(self).evaluations@,
            final(self).prover.interpolate_cosets@ == old(self).prover.interpolate_cosets@,
            final(self).prover.total_round == old(self).prover.total_round,
            final(self).prover.foldings@.len() == final(self).prover.total_round - 1,
            forall|r: int|
                0 <= r < final(self).prover.foldings@.len() ==> ci_wf(
                    #[trigger] final(self).prover.foldings@[r],
                ),
            final(self).prover.final_value@.len() >= 1,
            forall|j: int|
                0 <= j < final(self).prover.final_value@.len() ==> crate::polynomial::poly_wf(
                    #[trigger] final(self).prover.final_value@[j],
                ),
            forall|r: int|
                0 <= r < final(self).prover.foldings@.len() ==> (#[trigger] final(self).prover.foldings@[r]).interpolates@.len() == final(self).prover.functions@[r].interpolates@.len() && final(self).prover.foldings@[r].interpolates@[0].value@.len() == final(self).prover.functions@[r].interpolates@[0].value@.len() / 2,
            crate::one2many::prover::foldings_follow(
                final(self).prover,
                final(self).prover.foldings@.len() as int,
            ),
            final(self).prover.interpolate_cosets@[final(self).prover.total_round as int].elements@.len()
                >= pow2(crate::CODE_RATE as nat) ==> forall|j: int|
                0 <= j < final(self).prover.final_value@.len() ==> pow2(crate::CODE_RATE as nat)
                    * ((#[trigger] final(self).prover.final_value@[j]).coefficients@.len())
                    <= final(self).prover.interpolate_cosets@[final(self).prover.total_round as int].elements@.len(),
    {
        proof {
            assert(ci_wf(self.prover.functions@[self.prover.total_round - 1]));
        }
        self.prover.prove();
    }

    /// Opens the committed vectors at the oracle's query positions.
    pub fn query(&self) -> (r: (Vec<Vec<QueryResult>>, Vec<Vec<QueryResult>>))
        requires
            dealer_wf(*self),
            self.prover.foldings@.len() == self.prover.total_round - 1,
            forall|r: int|
                0 <= r < self.prover.foldings@.len() ==> ci_wf(#[trigger] self.prover.foldings@[r])
                    && (#[trigger] self.prover.foldings@[r]).interpolates@.len()
                    == self.prover.functions@[r].interpolates@.len()
                    && self.prover.foldings@[r].interpolates@[0].value@.len()
                    == self.prover.functions@[r].interpolates@[0].value@.len() / 2,
        ensures
            r.0@.len() == self.prover.total_round - 1,
            r.1@.len() == self.prover.total_round,
            r.1@[0]@.len() == 1,
            crate::one2many::prover::opens_iv(
                r.1@[0]@[0],
                self.prover.functions@[0].interpolates@[0],
                crate::one2many::checker::folded_index_seq(
                    self.prover.oracle.query_list@,
                    (self.prover.functions@[0].interpolates@[0].value@.len() / 2) as nat,
                ),
            ),
            forall|i: int|
                1 <= i < self.prover.total_round ==> (#[trigger] r.1@[i])@.len()
                    == self.prover.functions@[i].interpolates@.len() && (forall|j: int|
                    0 <= j < r.1@[i]@.len() ==> crate::one2many::prover::opens_iv(
                        #[trigger] r.1@[i]@[j],
                        self.prover.functions@[i].interpolates@[j],
                        crate::one2many::checker::folded_index_seq(
                            self.prover.oracle.query_list@,
                            (self.prover.functions@[i].interpolates@[0].value@.len() / 2) as nat,
                        ),
                    )),
            forall|i: int|
                1 <= i < self.prover.total_round ==> (#[trigger] r.0@[i - 1])@.len()
                    == self.prover.foldings@[i - 1].interpolates@.len() && (forall|j: int|
                    0 <= j < r.0@[i - 1]@.len() ==> crate::one2many::prover::opens_iv(
                        #[trigger] r.0@[i - 1]@[j],
                        self.prover.foldings@[i - 1].interpolates@[j],
                        crate::one2many::checker::folded_index_seq(
                            self.prover.oracle.query_list@,
                            (self.prover.functions@[i].interpolates@[0].value@.len() / 2) as nat,
                        ),
                    )),
    {
        self.prover.query()
    }
}

/// Everything of a party except its verifier's received commitments.
pub open spec fn party_state_eq(a: AvssParty, b: AvssParty) -> bool {
    &&& a.open_point@ == b.open_point@
    &&& a.final_poly == b.final_poly
    &&& a.verifier.total_round == b.verifier.total_round
    &&& a.verifier.log_max_degree == b.verifier.log_max_degree
    &&& a.verifier.oracle.query_list@ == b.verifier.oracle.query_list@
    &&& a.verifier.oracle.folding_challenges@ == b.verifier.oracle.folding_challenges@
    &&& a.verifier.interpolate_cosets@ == b.verifier.interpolate_cosets@
}

/// Copies a matrix of field elements.
fn copy_matrix(v: &Vec<Vec<Mersenne61Ext>>) -> (r: Vec<Vec<Mersenne61Ext>>)
    ensures
        r@.len() == v@.len(),
        forall|i: int| 0 <= i < v@.len() ==> (#[trigger] r@[i])@ == v@[i]@,
{
    let mut r: Vec<Vec<Mersenne61Ext>> = Vec::new();
    let mut i: usize = 0;
    while i < v.len()
        invariant
            i <= v@.len(),
            r@.len() == i,
            forall|t: int| 0 <= t < i ==> (#[trigger] r@[t])@ == v@[t]@,
        decreases v@.len() - i,
    {
        r.push(copy_elems(&v[i]));
        i += 1;
    }
    r
}

/// A domain that halves into the next one is even with a power-of-two half.
proof fn lemma_half_is_pow2(log_a: nat, log_b: nat, len_a: nat, len_b: nat)
    requires
        len_a == pow2(log_a),
        len_b == pow2(log_b),
        2 * len_b == len_a,
    ensures
        len_a % 2 == 0,
        len_a / 2 == len_b,
        is_power_of_two((len_a / 2) as nat),
{
    vstd::arithmetic::power2::lemma_pow2_pos(log_b);
    crate::polynomial::lemma_pow2_is_power_of_two(log_b);
}

/// Folding a vector of at least `pow2(total - j)` entries, `j` below
/// `total`, still leaves at least two entries.
proof fn lemma_len_big_enough(len: int, j: nat, total: nat, orig: int)
    requires
        j < total,
        len * pow2(j) == orig,
        orig >= pow2(total),
        len >= 0,
    ensures
        len >= 2,
{
    vstd::arithmetic::power2::lemma_pow2_adds((total - j) as nat, j);
    vstd::arithmetic::power2::lemma_pow2_pos(j);
    vstd::arithmetic::power2::lemma_pow2_pos((total - j) as nat);
    assert(pow2(total) == pow2((total - j) as nat) * pow2(j));
    assert(len * pow2(j) >= pow2((total - j) as nat) * pow2(j));
    assert(len >= pow2((total - j) as nat)) by (nonlinear_arith)
        requires
            len * pow2(j) >= pow2((total - j) as nat) * pow2(j),
            pow2(j) >= 1,
            len >= 0,
    ;
    assert(pow2((total - j) as nat) >= 2) by {
        vstd::arithmetic::power2::lemma_pow2_unfold((total - j) as nat);
        vstd::arithmetic::power2::lemma_pow2_pos((total - j - 1) as nat);
    }
}

} // verus!
