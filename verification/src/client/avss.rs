use crate::avss::dealer::{chain_params, dealer_wf, rows_view, Dealer};
use crate::avss::party::{party_share_coeffs, party_wf, AvssParty};
use crate::coset::{coset_wf, Coset};
use crate::field::{f_add, f_wf, f_zero, Mersenne61Ext};
use crate::msg::message::{Message, MessageType};
use crate::polynomial::{
    all_wf, copy_elems, fold_chain, is_power_of_two, lemma_fold_chain_evaluate, ml_eval, ml_wf,
    pow2, pow2_usize, MultilinearPolynomial,
};
use crate::random_oracle::RandomOracle;
use crate::{CODE_RATE, SECURITY_BITS};
use vstd::prelude::*;

verus! {

/// One participant's verifiable-sharing instance: the dealt polynomial, the
/// dealer machinery over it, and the receiving parties, one per structured
/// opening point.
pub struct AvssNode {
    pub id: usize,
    pub log_n: usize,
    pub terminate_round: usize,
    pub polynomial: MultilinearPolynomial,
    pub folding_parameter: Vec<Vec<Mersenne61Ext>>,
    pub dealer: Dealer,
    pub parties: Vec<AvssParty>,
    pub dealt: bool,
}

/// Every party has received its share: the dealt polynomial folded by the
/// leading coordinates of that party's opening point.
pub open spec fn avss_bound(n: AvssNode) -> bool {
    forall|i: int|
        0 <= i < n.parties@.len() ==> (#[trigger] n.parties@[i]).final_poly is Some
            && party_share_coeffs(n.parties@[i]) == fold_chain(
            n.polynomial.coefficients@,
            n.parties@[i].open_point@.take(n.dealer.prover.total_round as int),
        )
}

pub open spec fn avss_wf(n: AvssNode) -> bool {
    &&& dealer_wf(n.dealer)
    &&& ml_wf(n.polynomial)
    &&& n.parties@.len() >= 1
    &&& n.dealer.evaluations@.len() >= 1
    &&& forall|i: int|
        0 <= i < n.parties@.len() ==> party_wf(#[trigger] n.parties@[i])
            && n.parties@[i].verifier.total_round == n.dealer.prover.total_round
            && n.parties@[i].open_point@.len() > n.dealer.prover.total_round && pow2(
            (n.parties@[i].open_point@.len() - n.dealer.prover.total_round) as nat,
        ) == n.dealer.evaluations@[0].coefficients@.len()
            && n.parties@[i].verifier.log_max_degree == n.parties@[i].open_point@.len()
            && n.parties@[i].open_point@.len() - n.dealer.prover.total_round <= 62
    &&& n.dealer.prover.interpolate_cosets@[n.dealer.prover.total_round as int].elements@.len()
        == pow2(crate::CODE_RATE as nat) * n.dealer.evaluations@[0].coefficients@.len()
    &&& forall|i: int|
        0 <= i < n.parties@.len() ==> (#[trigger] n.dealer.evaluations@[i
            % n.dealer.evaluations@.len() as int]).coefficients@ == fold_chain(
            n.polynomial.coefficients@,
            n.parties@[i].open_point@.take(n.dealer.prover.total_round as int),
        )
    &&& (n.dealt ==> avss_bound(n))
    &&& (!n.dealt ==> n.dealer.prover.foldings@.len() == 0 && n.dealer.prover.final_value@.len()
        == 0)
    &&& n.folding_parameter@.len() > n.dealer.prover.total_round
    &&& (forall|j: int|
        0 <= j < n.folding_parameter@.len() ==> (#[trigger] n.folding_parameter@[j])@.len() >= 1
            && all_wf(n.folding_parameter@[j]@))
    &&& (forall|i: int|
        0 <= i < n.parties@.len() ==> (#[trigger] n.parties@[i]).open_point@.len()
            == n.folding_parameter@.len())
    &&& (forall|i: int, j: int|
        0 <= i < n.parties@.len() && 0 <= j < n.folding_parameter@.len()
            ==> (#[trigger] n.parties@[i].open_point@[j]) == n.folding_parameter@[j]@[i
            % n.folding_parameter@[j]@.len() as int])
}

/// The combinatorial shape of the folding schedule of a run over
/// `2^log_n` participants: `log_n - 2` rows drawn from one coset's power
/// domains, doubling in length, then the same lengths again scaled by
/// `2^log_n`, each of those rows constant on blocks of `2^log_n` entries
/// (one entry of the second coset repeated per block).
pub open spec fn schedule_shape(rows: Seq<Vec<Mersenne61Ext>>, log_n: int) -> bool {
    let log_t = log_n - 2;
    let rep = pow2(log_n as nat) as int;
    &&& rows.len() == 2 * log_t
    &&& (forall|j: int|
        0 <= j < log_t ==> (#[trigger] rows[j])@.len() == pow2((log_n - (log_t - 1 - j)) as nat))
    &&& (forall|j: int|
        log_t <= j < 2 * log_t ==> (#[trigger] rows[j])@.len() == pow2(
            (log_n - (log_t - 1 - (j - log_t))) as nat,
        ) * pow2(log_n as nat))
    &&& (forall|j: int, p: int|
        log_t <= j < 2 * log_t && 0 <= p < rows[j]@.len() ==> (#[trigger] rows[j]@[p])
            == rows[j]@[(p / rep) * rep])
}

/// Once dealt, a party's share --- its polynomial evaluated at the tail of
/// its opening point --- equals the dealt polynomial evaluated at the whole
/// opening point: folding commutes with evaluation, coordinate by
/// coordinate.
pub proof fn lemma_share_round_trip(n: AvssNode, i: int)
    requires
        avss_wf(n),
        avss_bound(n),
        0 <= i < n.parties@.len(),
    ensures
        ml_eval(
            party_share_coeffs(n.parties@[i]),
            n.parties@[i].open_point@.skip(n.dealer.prover.total_round as int),
        ) == ml_eval(n.polynomial.coefficients@, n.parties@[i].open_point@),
{
    let r = n.dealer.prover.total_round as int;
    let op = n.parties@[i].open_point@;
    lemma_fold_chain_evaluate(n.polynomial.coefficients@, op.take(r), op.skip(r));
    assert(op.take(r) + op.skip(r) =~= op);
}

/// The running sum of the shares owed to the given dealers: for each listed
/// party, the dealt polynomial evaluated at that party's opening point.
pub open spec fn sum_of_shares(n: AvssNode, dealers: Seq<usize>, k: int) -> Mersenne61Ext
    decreases k,
{
    if k <= 0 {
        f_zero()
    } else {
        f_add(
            sum_of_shares(n, dealers, k - 1),
            ml_eval(n.polynomial.coefficients@, n.parties@[dealers[k - 1] as int].open_point@),
        )
    }
}

impl AvssNode {
    /// Sets up a sharing for `2^log_n` participants: the evaluation
    /// domains, the folding schedule drawn from two shifted cosets, one
    /// party per structured opening point, and the dealer over a random
    /// polynomial.
    #[verifier::rlimit(100)]
    pub fn new(id: usize, log_n: usize, terminate_round: usize) -> (r: AvssNode)
        requires
            3 <= log_n <= 14,
            1 <= terminate_round < 2 * (log_n - 2),
        ensures
            avss_wf(r),
            !r.dealt,
            r.id == id,
            r.log_n == log_n,
            r.terminate_round == terminate_round,
            r.parties@.len() == pow2(2 * log_n as nat),
            schedule_shape(r.folding_parameter@, log_n as int),
    {
        let log_t = log_n - 2;
        let log_d = log_t * 2;
        let total_round = log_d - terminate_round;
        proof {
            vstd::arithmetic::power2::lemma2_to64();
        }
        let oracle = RandomOracle::new(total_round, SECURITY_BITS / CODE_RATE);

        // evaluation domains: the largest, then its squares
        let first_size = pow2_usize(log_d + CODE_RATE);
        proof {
            crate::polynomial::lemma_pow2_is_power_of_two((log_d + CODE_RATE) as nat);
            vstd::arithmetic::power2::lemma_pow2_strictly_increases(
                (log_d + CODE_RATE) as nat,
                30,
            );
        }
        let mut interpolate_cosets: Vec<Coset> = Vec::new();
        interpolate_cosets.push(Coset::new(first_size, Mersenne61Ext::random_element()));
        proof {
            crate::polynomial::lemma_pow2_injective(
                interpolate_cosets@[0].log_size as nat,
                (log_d + CODE_RATE) as nat,
            );
        }
        let mut ci: usize = 1;
        while ci < log_d
            invariant
                1 <= ci <= log_d,
                log_d == 2 * (log_n - 2),
                log_n <= 14,
                interpolate_cosets@.len() == ci,
                forall|t: int|
                    0 <= t < ci ==> coset_wf(#[trigger] interpolate_cosets@[t])
                        && interpolate_cosets@[t].log_size == log_d + CODE_RATE - t
                        && interpolate_cosets@[t].elements@.len() == pow2(
                        (log_d + CODE_RATE - t) as nat,
                    ),
            decreases log_d - ci,
        {
            proof {
                let prev = interpolate_cosets@[ci - 1];
                assert(coset_wf(prev));
                assert(is_power_of_two(1nat));
                assert(is_power_of_two(2nat));
                assert(crate::coset::log2(2nat) == 1 + crate::coset::log2(1nat));
            }
            let next = interpolate_cosets[ci - 1].pow(2);
            proof {
                vstd::arithmetic::power2::lemma2_to64();
            }
            interpolate_cosets.push(next);
            ci += 1;
        }
        proof {
            assert forall|t: int|
                1 <= t <= total_round implies 2 * ((#[trigger] interpolate_cosets@[t]).elements@.len())
                == interpolate_cosets@[t - 1].elements@.len() by {
                vstd::arithmetic::power2::lemma_pow2_unfold((log_d + CODE_RATE - (t - 1)) as nat);
            }
        }

        // the dealt polynomial
        let polynomial = MultilinearPolynomial::random_polynomial(log_d);

        // the folding schedule, drawn from two shifted cosets
        let folding_parameter = folding_schedule(log_n);
        proof {
            assert(folding_parameter@.len() == 2 * (log_n - 2));
        }

        // the dealer over the random polynomial
        proof {
            vstd::arithmetic::power2::lemma_pow2_strictly_increases(
                total_round as nat,
                log_d as nat,
            );
            vstd::arithmetic::power2::lemma_pow2_strictly_increases(log_d as nat, 63);
            vstd::arithmetic::power2::lemma2_to64_rest();
        }
        let dealer = Dealer::new(
            total_round,
            &polynomial,
            &interpolate_cosets,
            &oracle,
            &folding_parameter,
        );

        // one party per structured opening point
        let party_count = pow2_usize(2 * log_n);
        let e = dealer.evaluations.len();
        let mut parties: Vec<AvssParty> = Vec::new();
        let mut i: usize = 0;
        proof {
            vstd::arithmetic::power2::lemma_pow2_adds(
                (log_d - total_round) as nat,
                total_round as nat,
            );
            vstd::arithmetic::power2::lemma_pow2_adds(
                crate::CODE_RATE as nat,
                (log_d - total_round) as nat,
            );
            assert(dealer.prover.interpolate_cosets@[total_round as int].elements@.len()
                == interpolate_cosets@[total_round as int].elements@.len());
        }
        while i < party_count
            invariant
                i <= party_count,
                e == dealer.evaluations@.len(),
                e >= 1,
                e == folding_parameter@[total_round - 1]@.len(),
                schedule_shape(folding_parameter@, log_n as int),
                3 <= log_n,
                1 <= total_round,
                dealer.prover.interpolate_cosets@[total_round as int].elements@.len() == pow2(
                    crate::CODE_RATE as nat,
                ) * pow2((log_d - total_round) as nat),
                dealer_wf(dealer),
                dealer.prover.total_round == total_round,
                total_round < log_d,
                folding_parameter@.len() >= log_d,
                forall|t: int|
                    0 <= t < folding_parameter@.len() ==> all_wf(
                        (#[trigger] folding_parameter@[t])@,
                    ) && folding_parameter@[t]@.len() >= 1,
                crate::random_oracle::oracle_wf(oracle),
                oracle.total_round == total_round,
                interpolate_cosets@.len() == log_d,
                log_d >= total_round + 1,
                forall|t: int|
                    0 <= t < interpolate_cosets@.len() ==> coset_wf(
                        #[trigger] interpolate_cosets@[t],
                    ),
                ml_wf(polynomial),
                polynomial.coefficients@.len() == pow2(log_d as nat),
                forall|k: int|
                    0 <= k < e ==> (#[trigger] dealer.evaluations@[k]).coefficients@ == fold_chain(
                        polynomial.coefficients@,
                        chain_params(rows_view(folding_parameter@), k, total_round as int),
                    ) && dealer.evaluations@[k].coefficients@.len() * pow2(total_round as nat)
                        == polynomial.coefficients@.len(),
                parties@.len() == i,
                forall|t: int|
                    0 <= t < i ==> {
                        &&& party_wf(#[trigger] parties@[t])
                        &&& parties@[t].final_poly is None
                        &&& parties@[t].verifier.total_round == total_round
                        &&& parties@[t].open_point@.len() == log_d
                        &&& parties@[t].verifier.log_max_degree == log_d
                        &&& parties@[t].open_point@.take(total_round as int) == chain_params(
                            rows_view(folding_parameter@),
                            t % e as int,
                            total_round as int,
                        )
                        &&& (forall|w: int|
                            0 <= w < log_d ==> #[trigger] parties@[t].open_point@[w]
                                == folding_parameter@[w]@[t
                                % folding_parameter@[w]@.len() as int])
                    },
            decreases party_count - i,
        {
            let mut open_point: Vec<Mersenne61Ext> = Vec::new();
            let mut j: usize = 0;
            while j < log_d
                invariant
                    j <= log_d,
                    folding_parameter@.len() >= log_d,
                    forall|t: int|
                        0 <= t < folding_parameter@.len() ==> all_wf(
                            (#[trigger] folding_parameter@[t])@,
                        ) && folding_parameter@[t]@.len() >= 1,
                    open_point@.len() == j,
                    all_wf(open_point@),
                    forall|t: int|
                        0 <= t < j ==> open_point@[t] == folding_parameter@[t]@[i as int
                            % folding_parameter@[t]@.len() as int],
                decreases log_d - j,
            {
                let row = &folding_parameter[j];
                let pos = i % row.len();
                open_point.push(row[pos]);
                j += 1;
            }
            proof {
                // the leading coordinates agree with the dealing chain of the
                // reduced index: each early row's length divides the count of
                // dealt evaluations, so the residues coincide
                assert forall|w: int| 0 <= w < total_round implies open_point@[w]
                    == folding_parameter@[w]@[(i as int % e as int)
                    % folding_parameter@[w]@.len() as int] by {
                    lemma_schedule_row_divides(
                        folding_parameter@,
                        log_n as int,
                        w,
                        total_round - 1,
                    );
                    lemma_mod_of_mod(
                        i as int,
                        e as int,
                        folding_parameter@[w]@.len() as int,
                    );
                }
                assert(open_point@.take(total_round as int) =~= chain_params(
                    rows_view(folding_parameter@),
                    i as int % e as int,
                    total_round as int,
                ));
            }
            let party = AvssParty::new(total_round, &interpolate_cosets, open_point, &oracle);
            parties.push(party);
            i += 1;
        }
        proof {
            vstd::arithmetic::power2::lemma_pow2_pos((2 * log_n) as nat);
            vstd::arithmetic::power2::lemma_pow2_pos(total_round as nat);
            vstd::arithmetic::power2::lemma_pow2_adds(
                (log_d - total_round) as nat,
                total_round as nat,
            );
            assert forall|k: int| 0 <= k < e implies (#[trigger] dealer.evaluations@[k]).coefficients@.len()
                == pow2((log_d - total_round) as nat) by {
                let a = dealer.evaluations@[k].coefficients@.len() as int;
                let b = pow2((log_d - total_round) as nat) as int;
                let p = pow2(total_round as nat) as int;
                assert(a * p == b * p);
                assert(a == b) by (nonlinear_arith)
                    requires
                        a * p == b * p,
                        p >= 1,
                ;
            }
        }
        AvssNode {
            id,
            log_n,
            terminate_round,
            polynomial,
            folding_parameter,
            dealer,
            parties,
            dealt: false,
        }
    }

    /// Deals the shares, commits the transcript, and checks the first
    /// party's opening. The returned broadcast announces completion; an
    /// already-dealt node, or a failing check, yields nothing.
    pub fn send_and_verify(&mut self, msg_type: MessageType) -> (r: Option<Message>)
        requires
            avss_wf(*old(self)),
        ensures
            avss_wf(*final(self)),
            final(self).dealt,
            avss_bound(*final(self)),
            !old(self).dealt ==> forall|v: int|
                0 <= v < final(self).parties@.len()
                    ==> (#[trigger] final(self).parties@[v]).verifier.final_value is Some,
            final(self).id == old(self).id,
            final(self).parties@.len() == old(self).parties@.len(),
            final(self).polynomial == old(self).polynomial,
            old(self).dealt ==> r is None && *final(self) == *old(self),
            match r {
                Some(m) => !old(self).dealt && m.sender_id == old(self).id && m.receiver_id@.len()
                    == 0 && m.msg_type == msg_type && m.msg_content@.len() == 0,
                None => true,
            },
    {
        if self.dealt {
            return None;
        }
        let total_round = self.dealer.prover.total_round;
        self.dealer.send_evaluations(&mut self.parties);
        self.dealer.commit_functions(&mut self.parties);
        self.dealer.prove();
        let ghost pre_cf = self.parties@;
        let ghost dealer_now = self.dealer;
        self.dealer.commit_foldings(&mut self.parties);
        proof {
            // the truncated residual fits every party's degree budget, so
            // the committed residual was installed everywhere
            let rr = dealer_now.prover.total_round as int;
            let e0 = old(self).dealer.evaluations@[0].coefficients@.len() as int;
            let rate = pow2(crate::CODE_RATE as nat) as int;
            vstd::arithmetic::power2::lemma_pow2_pos(crate::CODE_RATE as nat);
            assert(pow2(
                (old(self).parties@[0].open_point@.len()
                    - old(self).dealer.prover.total_round) as nat,
            ) == e0);
            vstd::arithmetic::power2::lemma_pow2_pos(
                (old(self).parties@[0].open_point@.len()
                    - old(self).dealer.prover.total_round) as nat,
            );
            assert(rate * e0 >= rate) by (nonlinear_arith)
                requires
                    rate >= 1,
                    e0 >= 1,
            ;
            assert forall|v: int| 0 <= v < self.parties@.len() implies (#[trigger] self.parties@[v]).verifier.final_value is Some by {
                let fvs = dealer_now.prover.final_value@;
                let q = fvs[v % fvs.len() as int];
                assert(rate * q.coefficients@.len() <= rate * e0);
                assert(q.coefficients@.len() <= e0) by (nonlinear_arith)
                    requires
                        rate * q.coefficients@.len() <= rate * e0,
                        rate >= 1,
                ;
                assert(pre_cf[v].verifier.log_max_degree == old(self).parties@[v].open_point@.len());
                assert(pow2(
                    (old(self).parties@[v].open_point@.len()
                        - old(self).dealer.prover.total_round) as nat,
                ) == e0);
                assert(crate::one2many::checker::residual_degree_ok(pre_cf[v].verifier, q));
            }
        }
        self.dealt = true;
        let (folding, function) = self.dealer.query();
        let mut folding0: Vec<crate::query_result::QueryResult> = Vec::new();
        let mut function0: Vec<crate::query_result::QueryResult> = Vec::new();
        let mut i: usize = 0;
        let mut folding_src = folding;
        let mut function_src = function;
        while i < function_src.len()
            invariant
                folding_src@.len() + 1 == function_src@.len() || folding_src@.len()
                    == function_src@.len(),
            decreases function_src@.len() - i,
        {
            if i < folding_src.len() {
                let row = &folding_src[i];
                if row.len() > 0 {
                    folding0.push(row[0].duplicate());
                }
            }
            let frow = &function_src[i];
            if frow.len() > 0 {
                function0.push(frow[0].duplicate());
            }
            i += 1;
        }
        let ok = self.parties[0].verify(&folding0, &function0);
        if !ok {
            return None;
        }
        Message::send_message2all(self.id, msg_type, Vec::new())
    }

    /// One share record per participant: the first tail coordinate and the
    /// share value, which is the dealt polynomial at that party's point.
    pub fn shares(&self) -> (r: Vec<Vec<Mersenne61Ext>>)
        requires
            avss_wf(*self),
            self.dealt,
            self.parties@.len() == pow2(2 * self.log_n as nat),
            self.log_n <= 14,
        ensures
            r@.len() == pow2(self.log_n as nat),
            forall|i: int|
                0 <= i < r@.len() ==> {
                    let p = self.parties@[i * pow2(self.log_n as nat) as int];
                    &&& (#[trigger] r@[i])@.len() == 2
                    &&& r@[i]@[0] == p.open_point@[self.dealer.prover.total_round as int]
                    &&& r@[i]@[1] == ml_eval(self.polynomial.coefficients@, p.open_point@)
                },
    {
        let n = pow2_usize(self.log_n);
        proof {
            vstd::arithmetic::power2::lemma_pow2_adds(self.log_n as nat, self.log_n as nat);
            vstd::arithmetic::power2::lemma_pow2_pos(self.log_n as nat);
        }
        let total_parties = self.parties.len();
        proof {
            assert(total_parties == self.parties@.len());
        }
        let mut shares: Vec<Vec<Mersenne61Ext>> = Vec::new();
        let mut i: usize = 0;
        while i < n
            invariant
                i <= n,
                avss_wf(*self),
                self.dealt,
                n == pow2(self.log_n as nat),
                n >= 1,
                n * n == self.parties@.len(),
                self.parties@.len() <= usize::MAX,
                shares@.len() == i,
                forall|t: int|
                    0 <= t < i ==> {
                        let p = self.parties@[t * n as int];
                        &&& (#[trigger] shares@[t])@.len() == 2
                        &&& shares@[t]@[0] == p.open_point@[self.dealer.prover.total_round as int]
                        &&& shares@[t]@[1] == ml_eval(self.polynomial.coefficients@, p.open_point@)
                    },
            decreases n - i,
        {
            proof {
                vstd::arithmetic::mul::lemma_mul_upper_bound(i as int, n - 1, n as int, n as int);
                vstd::arithmetic::mul::lemma_mul_inequality(0, i as int, n as int);
                assert((n - 1) * n + n == n * n) by (nonlinear_arith);
            }
            let idx = i * n;
            proof {
                lemma_share_round_trip(*self, idx as int);
            }
            shares.push(self.parties[idx].interpolate_share());
            i += 1;
        }
        shares
    }

    /// The sum of this node's shares owed to the listed dealers: for each,
    /// the dealt polynomial evaluated at that party's opening point.
    pub fn sum_and_rec(&self, dealers: &Vec<usize>) -> (r: Mersenne61Ext)
        requires
            avss_wf(*self),
            self.dealt,
            forall|i: int| 0 <= i < dealers@.len() ==> (#[trigger] dealers@[i]) < self.parties@.len(),
        ensures
            r == sum_of_shares(*self, dealers@, dealers@.len() as int),
            f_wf(r),
    {
        let mut sum = Mersenne61Ext::from_int(0);
        let mut i: usize = 0;
        while i < dealers.len()
            invariant
                i <= dealers@.len(),
                avss_wf(*self),
                self.dealt,
                forall|t: int|
                    0 <= t < dealers@.len() ==> (#[trigger] dealers@[t]) < self.parties@.len(),
                f_wf(sum),
                sum == sum_of_shares(*self, dealers@, i as int),
            decreases dealers@.len() - i,
        {
            let d = dealers[i];
            let s = self.parties[d].share();
            proof {
                lemma_share_round_trip(*self, d as int);
            }
            sum = sum.add(s);
            i += 1;
        }
        sum
    }

    /// The constant coefficient of the first party's share polynomial: the
    /// committed secret. Before any share arrives the result is zero.
    pub fn reconstruct(&self) -> (r: Mersenne61Ext)
        requires
            avss_wf(*self),
        ensures
            r == if self.parties@[0].final_poly is Some {
                crate::polynomial::uni_eval(party_share_coeffs(self.parties@[0]), f_zero())
            } else {
                f_zero()
            },
            f_wf(r),
    {
        if self.parties[0].has_share() {
            let poly = self.parties[0].all_share();
            poly.evaluate_as_polynomial(Mersenne61Ext::from_int(0))
        } else {
            Mersenne61Ext::from_int(0)
        }
    }

    /// The dealt polynomial.
    pub fn get_poly(&self) -> (r: MultilinearPolynomial)
        ensures
            r.coefficients@ == self.polynomial.coefficients@,
    {
        MultilinearPolynomial { coefficients: copy_elems(&self.polynomial.coefficients) }
    }
}

/// Bridges the two power-of-two predicates used by the library.
proof fn lemma_is_pow2_bridge(x: usize)
    requires
        crate::is_pow2(x),
    ensures
        is_power_of_two(x as nat),
        x >= 1,
{
    let k = choose|k: nat| k <= 63 && x == pow2(k);
    crate::polynomial::lemma_pow2_is_power_of_two(k);
    vstd::arithmetic::power2::lemma_pow2_pos(k);
}

/// Each schedule row's length divides the length of every row at or after
/// it: the row lengths are powers of two with nondecreasing exponents.
proof fn lemma_schedule_row_divides(rows: Seq<Vec<Mersenne61Ext>>, log_n: int, j: int, r1: int)
    requires
        schedule_shape(rows, log_n),
        3 <= log_n,
        0 <= j <= r1 < rows.len(),
    ensures
        rows[j]@.len() >= 1,
        rows[r1]@.len() as int % rows[j]@.len() as int == 0,
{
    let lt = log_n - 2;
    let ej: nat = if j < lt {
        (log_n - (lt - 1 - j)) as nat
    } else {
        ((log_n - (lt - 1 - (j - lt))) + log_n) as nat
    };
    let er: nat = if r1 < lt {
        (log_n - (lt - 1 - r1)) as nat
    } else {
        ((log_n - (lt - 1 - (r1 - lt))) + log_n) as nat
    };
    if j >= lt {
        vstd::arithmetic::power2::lemma_pow2_adds(
            (log_n - (lt - 1 - (j - lt))) as nat,
            log_n as nat,
        );
    }
    if r1 >= lt {
        vstd::arithmetic::power2::lemma_pow2_adds(
            (log_n - (lt - 1 - (r1 - lt))) as nat,
            log_n as nat,
        );
    }
    assert(rows[j]@.len() == pow2(ej));
    assert(rows[r1]@.len() == pow2(er));
    assert(ej <= er);
    vstd::arithmetic::power2::lemma_pow2_pos(ej);
    vstd::arithmetic::power2::lemma_pow2_adds((er - ej) as nat, ej);
    vstd::arithmetic::div_mod::lemma_mod_multiples_basic(
        pow2((er - ej) as nat) as int,
        pow2(ej) as int,
    );
}

/// Reducing by a multiple of the modulus first does not change a residue.
proof fn lemma_mod_of_mod(x: int, e: int, b: int)
    requires
        e >= 1,
        b >= 1,
        e % b == 0,
    ensures
        (x % e) % b == x % b,
{
    let q = e / b;
    vstd::arithmetic::div_mod::lemma_fundamental_div_mod(e, b);
    assert(e == q * b);
    assert(q >= 1) by (nonlinear_arith)
        requires
            e == q * b,
            e >= 1,
            b >= 1,
    ;
    vstd::arithmetic::div_mod::lemma_mod_mod(x, b, q);
    assert(b * q == e) by (nonlinear_arith)
        requires
            e == q * b,
    ;
}

/// A product of powers of two is a power of two.
proof fn lemma_pot_product(a: nat, b: nat)
    requires
        is_power_of_two(a),
        is_power_of_two(b),
    ensures
        is_power_of_two(a * b),
    decreases a,
{
    if a == 1 {
        assert(1 * b == b) by (nonlinear_arith);
    } else {
        assert(a % 2 == 0 && is_power_of_two(a / 2));
        lemma_pot_product(a / 2, b);
        assert(a * b == 2 * ((a / 2) * b)) by (nonlinear_arith)
            requires
                a % 2 == 0,
        ;
        assert((a * b) / 2 == (a / 2) * b && (a * b) % 2 == 0) by (nonlinear_arith)
            requires
                a * b == 2 * ((a / 2) * b),
        ;
        vstd::arithmetic::mul::lemma_mul_strictly_positive((a / 2) as int, b as int);
        assert(a * b != 1);
    }
}


/// Builds the folding schedule of a run over `2^log_n` participants from
/// two freshly shifted cosets: one power-domain row per entry of the split
/// of `2^(log_n - 2) - 1` over the first coset, then the same rows over the
/// second coset with every element repeated once per member of the largest
/// first-coset row.
#[verifier::rlimit(60)]
fn folding_schedule(log_n: usize) -> (rows: Vec<Vec<Mersenne61Ext>>)
    requires
        3 <= log_n <= 14,
    ensures
        schedule_shape(rows@, log_n as int),
        forall|j: int|
            0 <= j < rows@.len() ==> all_wf((#[trigger] rows@[j])@) && rows@[j]@.len() >= 1
                && is_power_of_two(rows@[j]@.len()),
{
    let log_t = log_n - 2;
        proof {
            vstd::arithmetic::power2::lemma2_to64();
            crate::polynomial::lemma_pow2_is_power_of_two(log_n as nat);
            vstd::arithmetic::power2::lemma_pow2_strictly_increases(log_n as nat, 29);
        }
        let coset_x = Coset::new(pow2_usize(log_n), Mersenne61Ext::random_element());
        let coset_y = Coset::new(pow2_usize(log_n), Mersenne61Ext::random_element());
        proof {
            crate::polynomial::lemma_pow2_injective(coset_x.log_size as nat, log_n as nat);
            crate::polynomial::lemma_pow2_injective(coset_y.log_size as nat, log_n as nat);
        }
        let v = crate::split_n(pow2_usize(log_t) - 1);
        proof {
            crate::lemma_split_of_all_ones(v@, log_t as nat);
            assert(v@.len() == log_t);
        }
        let mut folding_parameter: Vec<Vec<Mersenne61Ext>> = Vec::new();
        let mut xi: usize = 0;
        while xi < v.len()
            invariant
                xi <= v@.len(),
                v@.len() == log_n - 2,
                log_n <= 14,
                coset_wf(coset_x),
                coset_x.log_size == log_n,
                forall|t: int| 0 <= t < v@.len() ==> crate::is_pow2(#[trigger] v@[t]),
                forall|t: int|
                    0 <= t < v@.len() ==> #[trigger] v@[t] == pow2((log_n - 2 - 1 - t) as nat),
                folding_parameter@.len() == xi,
                forall|t: int|
                    0 <= t < xi ==> all_wf((#[trigger] folding_parameter@[t])@)
                        && folding_parameter@[t]@.len() >= 1 && is_power_of_two(
                        folding_parameter@[t]@.len(),
                    ) && folding_parameter@[t]@.len() <= 0x4000
                        && folding_parameter@[t]@.len() == pow2(
                        (log_n - (log_n - 2 - 1 - t)) as nat,
                    ),
            decreases v@.len() - xi,
        {
            proof {
                lemma_is_pow2_bridge(v@[xi as int]);
            }
            let xcoset = coset_x.pow(v[xi]);
            let row = xcoset.all_elements();
            proof {
                crate::coset::lemma_log2_of_pow2((log_n - 2 - 1 - xi) as nat, v@[xi as int] as nat);
                assert(xcoset.log_size == log_n - (log_n - 2 - 1 - xi));
                vstd::arithmetic::power2::lemma_pow2_pos(xcoset.log_size as nat);
                crate::polynomial::lemma_pow2_is_power_of_two(xcoset.log_size as nat);
                if (xcoset.log_size as nat) < 14 {
                    vstd::arithmetic::power2::lemma_pow2_strictly_increases(
                        xcoset.log_size as nat,
                        14,
                    );
                }
                vstd::arithmetic::power2::lemma2_to64();
            }
            folding_parameter.push(row);
            xi += 1;
        }
        let last_len = folding_parameter[folding_parameter.len() - 1].len();
        proof {
            assert(last_len == pow2(log_n as nat));
        }
        let mut yi: usize = 0;
        while yi < v.len()
            invariant
                yi <= v@.len(),
                v@.len() == log_n - 2,
                log_n <= 14,
                coset_wf(coset_y),
                coset_y.log_size == log_n,
                forall|t: int| 0 <= t < v@.len() ==> crate::is_pow2(#[trigger] v@[t]),
                forall|t: int|
                    0 <= t < v@.len() ==> #[trigger] v@[t] == pow2((log_n - 2 - 1 - t) as nat),
                last_len >= 1,
                last_len <= 0x4000,
                last_len == pow2(log_n as nat),
                is_power_of_two(last_len as nat),
                folding_parameter@.len() == v@.len() + yi,
                forall|t: int|
                    0 <= t < folding_parameter@.len() ==> all_wf(
                        (#[trigger] folding_parameter@[t])@,
                    ) && folding_parameter@[t]@.len() >= 1 && is_power_of_two(
                        folding_parameter@[t]@.len(),
                    ),
                forall|t: int|
                    0 <= t < v@.len() ==> (#[trigger] folding_parameter@[t])@.len() == pow2(
                        (log_n - (log_n - 2 - 1 - t)) as nat,
                    ),
                forall|t: int|
                    v@.len() <= t < folding_parameter@.len()
                        ==> (#[trigger] folding_parameter@[t])@.len() == pow2(
                        (log_n - (log_n - 2 - 1 - (t - v@.len()))) as nat,
                    ) * pow2(log_n as nat),
                forall|t: int, p: int|
                    v@.len() <= t < folding_parameter@.len() && 0 <= p
                        < folding_parameter@[t]@.len() ==> (#[trigger] folding_parameter@[t]@[p])
                        == folding_parameter@[t]@[(p / last_len as int) * last_len as int],
            decreases v@.len() - yi,
        {
            proof {
                lemma_is_pow2_bridge(v@[yi as int]);
            }
            let ycoset = coset_y.pow(v[yi]);
            let yrow = ycoset.all_elements();
            proof {
                crate::coset::lemma_log2_of_pow2((log_n - 2 - 1 - yi) as nat, v@[yi as int] as nat);
                assert(ycoset.log_size == log_n - (log_n - 2 - 1 - yi));
                vstd::arithmetic::power2::lemma_pow2_pos(ycoset.log_size as nat);
                crate::polynomial::lemma_pow2_is_power_of_two(ycoset.log_size as nat);
                if (ycoset.log_size as nat) < 14 {
                    vstd::arithmetic::power2::lemma_pow2_strictly_increases(
                        ycoset.log_size as nat,
                        14,
                    );
                }
                vstd::arithmetic::power2::lemma2_to64();
            }
            let mut expanded: Vec<Mersenne61Ext> = Vec::new();
            let mut a: usize = 0;
            proof {
                vstd::arithmetic::mul::lemma_mul_upper_bound(
                    yrow@.len() as int,
                    0x4000,
                    last_len as int,
                    0x4000,
                );
            }
            while a < yrow.len()
                invariant
                    a <= yrow@.len(),
                    yrow@.len() <= 0x4000,
                    last_len <= 0x4000,
                    last_len >= 1,
                    all_wf(yrow@),
                    expanded@.len() == a * last_len,
                    all_wf(expanded@),
                    forall|p: int|
                        0 <= p < expanded@.len() ==> #[trigger] expanded@[p] == yrow@[p
                            / last_len as int],
                decreases yrow@.len() - a,
            {
                let mut b: usize = 0;
                while b < last_len
                    invariant
                        b <= last_len,
                        a < yrow@.len(),
                        yrow@.len() <= 0x4000,
                        last_len <= 0x4000,
                        all_wf(yrow@),
                        expanded@.len() == a * last_len + b,
                        all_wf(expanded@),
                        forall|p: int|
                            0 <= p < expanded@.len() ==> #[trigger] expanded@[p] == yrow@[p
                                / last_len as int],
                    decreases last_len - b,
                {
                    proof {
                        vstd::arithmetic::mul::lemma_mul_upper_bound(
                            a as int,
                            0x4000,
                            last_len as int,
                            0x4000,
                        );
                        assert((a + 1) * last_len == a * last_len + last_len) by (nonlinear_arith);
                        vstd::arithmetic::div_mod::lemma_fundamental_div_mod_converse(
                            (a * last_len + b) as int,
                            last_len as int,
                            a as int,
                            b as int,
                        );
                    }
                    expanded.push(yrow[a]);
                    b += 1;
                }
                proof {
                    assert((a + 1) * last_len == a * last_len + last_len) by (nonlinear_arith);
                }
                a += 1;
            }
            proof {
                lemma_pot_product(yrow@.len(), last_len as nat);
                vstd::arithmetic::mul::lemma_mul_increases(last_len as int, yrow@.len() as int);
                vstd::arithmetic::mul::lemma_mul_is_commutative(
                    yrow@.len() as int,
                    last_len as int,
                );
                assert forall|p: int| 0 <= p < expanded@.len() implies #[trigger] expanded@[p]
                    == expanded@[(p / last_len as int) * last_len as int] by {
                    let q = p / last_len as int;
                    vstd::arithmetic::div_mod::lemma_fundamental_div_mod(p, last_len as int);
                    vstd::arithmetic::div_mod::lemma_div_multiples_vanish(q, last_len as int);
                    assert(0 <= q * last_len <= p);
                    assert(expanded@[q * last_len as int] == yrow@[(q * last_len as int)
                        / last_len as int]);
                }
            }
            folding_parameter.push(expanded);
            yi += 1;
        }
    proof {
        assert(schedule_shape(folding_parameter@, log_n as int));
    }
    folding_parameter
}

} // verus!
