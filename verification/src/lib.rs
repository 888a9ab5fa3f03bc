use vstd::prelude::*;

pub mod decimal;
pub mod field;
pub mod gather;
pub mod merkle_tree;
pub mod avss;
pub mod client;
pub mod coset;
pub mod polynomial;
pub mod query_result;
pub mod random_oracle;
pub mod server;
pub mod msg;
pub mod one2many;
pub mod vec_check;


verus! {

/// Rate parameter of the low-degree encoding: the evaluation domain is
/// `2^CODE_RATE` times larger than the coefficient vector.
pub const CODE_RATE: usize = 3;

/// Target soundness, in bits, of the folding protocol's query phase.
pub const SECURITY_BITS: usize = 100;

pub use vstd::arithmetic::power2::pow2;

/// Splits `n` into its binary decomposition: the distinct powers of two that
/// sum to `n`, sorted by descending number of trailing zero bits (that is,
/// largest power first).
pub fn split_n(n: usize) -> (res: Vec<usize>)
    ensures
        forall|i: int| 0 <= i < res@.len() ==> is_pow2(#[trigger] res@[i]),
        forall|i: int, j: int| 0 <= i < j < res@.len() ==> res@[i] > res@[j],
        sum_seq(res@) == n,
{
    let mut res: Vec<usize> = Vec::new();
    let mut bit: u64 = 1u64 << 63;
    let mut rest: u64 = n as u64;
    let ghost mut bit_log: nat = 63;
    proof {
        assert(1u64 << 63 == 0x8000000000000000u64) by (bit_vector);
        vstd::arithmetic::power2::lemma2_to64_rest();
        assert(pow2(63) == 0x8000000000000000);
    }
    loop
        invariant_except_break
            bit == pow2(bit_log),
            bit_log <= 63,
            rest < 2 * bit,
            rest <= n,
            sum_seq(res@) + rest == n,
            forall|i: int| 0 <= i < res@.len() ==> is_pow2(#[trigger] res@[i]),
            forall|i: int, j: int| 0 <= i < j < res@.len() ==> res@[i] > res@[j],
            forall|i: int| 0 <= i < res@.len() ==> res@[i] > bit,
        ensures
            sum_seq(res@) == n,
            forall|i: int| 0 <= i < res@.len() ==> is_pow2(#[trigger] res@[i]),
            forall|i: int, j: int| 0 <= i < j < res@.len() ==> res@[i] > res@[j],
        decreases bit,
    {
        let ghost res_old = res@;
        if rest >= bit {
            res.push(bit as usize);
            rest -= bit;
            proof {
                assert(res@.drop_last() =~= res_old);
                lemma_pow2_is_pow2(bit_log);
            }
        }
        if bit == 1 {
            break;
        }
        bit = bit / 2;
        proof {
            assert(bit_log > 0) by {
                vstd::arithmetic::power2::lemma2_to64();
            }
            vstd::arithmetic::power2::lemma_pow2_unfold(bit_log);
            bit_log = (bit_log - 1) as nat;
        }
    }
    res
}

pub open spec fn is_pow2(x: usize) -> bool {
    exists|k: nat| k <= 63 && x == pow2(k)
}

/// Runs one dealing end to end, for a domain of `2^log_n` participants:
/// shares are installed, the transcript is committed and proved, and the
/// openings are produced. The dealt instance is returned: every party
/// holds its share of the dealt polynomial.
pub fn avss_deal(log_n: usize, terminate_round: usize) -> (node: client::avss::AvssNode)
    requires
        3 <= log_n <= 14,
        1 <= terminate_round < 2 * (log_n - 2),
    ensures
        client::avss::avss_wf(node),
        node.dealt,
        client::avss::avss_bound(node),
        node.parties@.len() == pow2(2 * log_n as nat),
        forall|v: int|
            0 <= v < node.parties@.len() ==> (#[trigger] node.parties@[v]).verifier.final_value
                is Some,
{
    let mut node = client::avss::AvssNode::new(0, log_n, terminate_round);
    let ghost entry = node;
    node.dealer.send_evaluations(&mut node.parties);
    node.dealer.commit_functions(&mut node.parties);
    node.dealer.prove();
    let ghost pre_cf = node.parties@;
    let ghost dealer_now = node.dealer;
    node.dealer.commit_foldings(&mut node.parties);
    proof {
        // the truncated residual fits every party's degree budget, so the
        // committed residual was installed everywhere
        let e0 = entry.dealer.evaluations@[0].coefficients@.len() as int;
        let rate = pow2(crate::CODE_RATE as nat) as int;
        vstd::arithmetic::power2::lemma_pow2_pos(crate::CODE_RATE as nat);
        assert(pow2(
            (entry.parties@[0].open_point@.len() - entry.dealer.prover.total_round) as nat,
        ) == e0);
        vstd::arithmetic::power2::lemma_pow2_pos(
            (entry.parties@[0].open_point@.len() - entry.dealer.prover.total_round) as nat,
        );
        assert(rate * e0 >= rate) by (nonlinear_arith)
            requires
                rate >= 1,
                e0 >= 1,
        ;
        assert forall|v: int| 0 <= v < node.parties@.len() implies (#[trigger] node.parties@[v]).verifier.final_value is Some by {
            let fvs = dealer_now.prover.final_value@;
            let q = fvs[v % fvs.len() as int];
            assert(rate * q.coefficients@.len() <= rate * e0);
            assert(q.coefficients@.len() <= e0) by (nonlinear_arith)
                requires
                    rate * q.coefficients@.len() <= rate * e0,
                    rate >= 1,
            ;
            assert(pre_cf[v].verifier.log_max_degree == entry.parties@[v].open_point@.len());
            assert(pow2(
                (entry.parties@[v].open_point@.len() - entry.dealer.prover.total_round) as nat,
            ) == e0);
            assert(crate::one2many::checker::residual_degree_ok(pre_cf[v].verifier, q));
        }
    }
    node.dealt = true;
    let _openings = node.dealer.query();
    node
}

proof fn lemma_pow2_is_pow2(k: nat)
    requires
        k <= 63,
        pow2(k) <= usize::MAX,
    ensures
        is_pow2(pow2(k) as usize),
{
    let x = pow2(k) as usize;
    assert(k <= 63 && x == pow2(k));
}

pub open spec fn sum_seq(s: Seq<usize>) -> int
    decreases s.len(),
{
    if s.len() == 0 {
        0
    } else {
        sum_seq(s.drop_last()) + s.last()
    }
}


/// The sum of a sequence of machine integers is not negative.
proof fn lemma_sum_nonneg(s: Seq<usize>)
    ensures
        sum_seq(s) >= 0,
    decreases s.len(),
{
    if s.len() > 0 {
        lemma_sum_nonneg(s.drop_last());
    }
}

/// Splitting off the first element of a sum.
proof fn lemma_sum_drop_first(s: Seq<usize>)
    requires
        s.len() >= 1,
    ensures
        sum_seq(s) == s[0] + sum_seq(s.drop_first()),
    decreases s.len(),
{
    if s.len() == 1 {
        assert(s.drop_first() =~= Seq::<usize>::empty());
        assert(s.drop_last() =~= Seq::<usize>::empty());
    } else {
        lemma_sum_drop_first(s.drop_last());
        assert(s.drop_last().drop_first() =~= s.drop_first().drop_last());
        assert(s.drop_last()[0] == s[0]);
        assert(s.drop_first().last() == s.last());
    }
}

/// A strictly decreasing sequence of powers of two, each below `pow2(a)`,
/// sums to less than `pow2(a)`.
proof fn lemma_desc_pow2_sum_lt(s: Seq<usize>, a: nat)
    requires
        forall|i: int| 0 <= i < s.len() ==> is_pow2(#[trigger] s[i]),
        forall|i: int, j: int| 0 <= i < j < s.len() ==> s[i] > s[j],
        s.len() > 0 ==> s[0] < pow2(a),
    ensures
        sum_seq(s) < pow2(a),
    decreases s.len(),
{
    vstd::arithmetic::power2::lemma_pow2_pos(a);
    if s.len() > 0 {
        let b = choose|b: nat| b <= 63 && s[0] == pow2(b);
        assert(b < a) by {
            if b >= a {
                if b > a {
                    vstd::arithmetic::power2::lemma_pow2_strictly_increases(a, b);
                }
            }
        }
        let rest = s.drop_first();
        assert(forall|i: int| 0 <= i < rest.len() ==> is_pow2(#[trigger] rest[i]));
        assert(forall|i: int, j: int| 0 <= i < j < rest.len() ==> rest[i] > rest[j]);
        if rest.len() > 0 {
            assert(rest[0] == s[1] && s[1] < s[0]);
        }
        lemma_desc_pow2_sum_lt(rest, b);
        lemma_sum_drop_first(s);
        vstd::arithmetic::power2::lemma_pow2_unfold((b + 1) as nat);
        if b + 1 < a {
            vstd::arithmetic::power2::lemma_pow2_strictly_increases((b + 1) as nat, a);
        }
    }
}

/// The binary decomposition of `pow2(t) - 1` is forced: exactly `t` powers
/// of two, descending from `pow2(t - 1)` down to one.
pub proof fn lemma_split_of_all_ones(s: Seq<usize>, t: nat)
    requires
        t <= 63,
        forall|i: int| 0 <= i < s.len() ==> is_pow2(#[trigger] s[i]),
        forall|i: int, j: int| 0 <= i < j < s.len() ==> s[i] > s[j],
        sum_seq(s) == pow2(t) - 1,
    ensures
        s.len() == t,
        forall|k: int| 0 <= k < s.len() ==> s[k] == pow2((t - 1 - k) as nat),
    decreases t,
{
    vstd::arithmetic::power2::lemma_pow2_pos(t);
    if s.len() == 0 {
        // an empty sum is zero, so pow2(t) is one and t is zero
        if t > 0 {
            vstd::arithmetic::power2::lemma_pow2_unfold(t);
            vstd::arithmetic::power2::lemma_pow2_pos((t - 1) as nat);
            assert(false);
        }
    } else {
        assert(is_pow2(s[0]));
        let b = choose|b: nat| b <= 63 && s[0] == pow2(b);
        lemma_sum_drop_first(s);
        lemma_sum_nonneg(s.drop_first());
        vstd::arithmetic::power2::lemma_pow2_pos(b);
        if t == 0 {
            vstd::arithmetic::power2::lemma2_to64();
            assert(pow2(0nat) == 1);
            assert(false);
        }
        // the head is at most the sum, so its exponent is below t
        assert(b < t) by {
            if b >= t {
                if b > t {
                    vstd::arithmetic::power2::lemma_pow2_strictly_increases(t, b);
                }
            }
        }
        // the whole sum is below pow2(b + 1), so the exponent is t - 1
        vstd::arithmetic::power2::lemma_pow2_unfold((b + 1) as nat);
        lemma_desc_pow2_sum_lt(s, (b + 1) as nat);
        assert(b + 1 >= t) by {
            if b + 1 < t {
                vstd::arithmetic::power2::lemma_pow2_strictly_increases((b + 1) as nat, t);
            }
        }
        assert(b == t - 1);
        let rest = s.drop_first();
        vstd::arithmetic::power2::lemma_pow2_unfold(t);
        assert(sum_seq(rest) == pow2((t - 1) as nat) - 1);
        assert(forall|i: int| 0 <= i < rest.len() ==> is_pow2(#[trigger] rest[i]));
        assert(forall|i: int, j: int| 0 <= i < j < rest.len() ==> rest[i] > rest[j]);
        lemma_split_of_all_ones(rest, (t - 1) as nat);
        assert forall|k: int| 0 <= k < s.len() implies s[k] == pow2((t - 1 - k) as nat) by {
            if k > 0 {
                assert(s[k] == rest[k - 1]);
            }
        }
    }
}

} // verus!
