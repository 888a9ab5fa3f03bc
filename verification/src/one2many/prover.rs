use crate::coset::{coset_wf, Coset};
use crate::field::{f_add, f_mul, f_sub, f_wf, pair_to_bytes, u64_le_bytes, Mersenne61Ext};
use crate::merkle_tree::{byte_views, sha256_hex, MerkleTreeProver, MerkleTreeVerifier};
use crate::polynomial::{all_wf, copy_elems, is_power_of_two, Polynomial};
use crate::query_result::QueryResult;
use crate::random_oracle::{oracle_wf, RandomOracle};
use std::collections::HashMap;
use vstd::prelude::*;

verus! {

broadcast use vstd::std_specs::hash::group_hash_axioms;

/// An evaluation vector committed in a Merkle tree whose leaves pair
/// positions `i` and `i + len/2`, so one authenticated leaf feeds one
/// folding step.
pub struct InterpolateValue {
    pub value: Vec<Mersenne61Ext>,
    pub merkle_tree: MerkleTreeProver,
}

pub open spec fn iv_wf(iv: InterpolateValue) -> bool {
    &&& all_wf(iv.value@)
    &&& iv.value@.len() % 2 == 0
    &&& is_power_of_two((iv.value@.len() / 2) as nat)
    &&& crate::merkle_tree::mt_wf(iv.merkle_tree)
    &&& iv.merkle_tree.leaf_hashes@.len() == iv.value@.len() / 2
    &&& forall|i: int|
        0 <= i < iv.value@.len() / 2 ==> (#[trigger] iv.merkle_tree.leaf_hashes@[i])@
            == sha256_hex(
            u64_le_bytes(iv.value@[i].real) + u64_le_bytes(
                iv.value@[i + iv.value@.len() / 2].real,
            ),
        )
}

impl InterpolateValue {
    /// Commits an evaluation vector: leaf `i` holds the encoded pair
    /// `(v[i], v[i + len/2])`.
    pub fn new(value: Vec<Mersenne61Ext>) -> (r: InterpolateValue)
        requires
            all_wf(value@),
            value@.len() % 2 == 0,
            is_power_of_two((value@.len() / 2) as nat),
        ensures
            iv_wf(r),
            r.value@ == value@,
    {
        let half = value.len() / 2;
        let mut leaves: Vec<Vec<u8>> = Vec::new();
        let mut i: usize = 0;
        proof {
            assert(2 * (value@.len() / 2) == value@.len());
        }
        while i < half
            invariant
                i <= half,
                half == value@.len() / 2,
                value@.len() % 2 == 0,
                value@.len() <= usize::MAX,
                leaves@.len() == i,
                forall|k: int|
                    0 <= k < i ==> (#[trigger] leaves@[k])@ == u64_le_bytes(value@[k].real)
                        + u64_le_bytes(value@[k + value@.len() / 2].real),
            decreases half - i,
        {
            proof {
                assert(2 * (value@.len() / 2) == value@.len());
            }
            leaves.push(pair_to_bytes(value[i], value[i + half]));
            i += 1;
        }
        let merkle_tree = MerkleTreeProver::new(leaves);
        InterpolateValue { value, merkle_tree }
    }

    /// The number of committed leaves: half the vector length.
    pub fn leave_num(&self) -> (r: usize)
        requires
            iv_wf(*self),
        ensures
            r == self.value@.len() / 2,
    {
        self.merkle_tree.leave_num()
    }

    /// The Merkle root of the committed vector.
    pub fn commit(&self) -> (r: Vec<u8>)
        ensures
            r@ == self.merkle_tree.root@,
    {
        self.merkle_tree.commit()
    }

    /// Opens the pair leaves at the given positions: the returned map holds
    /// `v[j]` and `v[j + len/2]` for each queried `j`, and the bytes carry
    /// the authentication layer.
    pub fn query(&self, leaf_indices: &Vec<usize>) -> (r: QueryResult)
        requires
            iv_wf(*self),
            forall|k: int|
                0 <= k < leaf_indices@.len() ==> (#[trigger] leaf_indices@[k]) < self.value@.len()
                    / 2,
        ensures
            r.proof_bytes@ == crate::merkle_tree::concat_bytes(
                byte_views(self.merkle_tree.leaf_hashes@),
            ),
            forall|k: int|
                #![trigger leaf_indices@[k]]
                0 <= k < leaf_indices@.len() ==> {
                    let j = leaf_indices@[k];
                    &&& r.proof_values@.contains_key(j)
                    &&& r.proof_values@.contains_key((j + self.value@.len() / 2) as usize)
                    &&& r.proof_values@[j] == self.value@[j as int]
                    &&& r.proof_values@[(j + self.value@.len() / 2) as usize] == self.value@[j
                        + self.value@.len() / 2]
                },
    {
        let len = self.merkle_tree.leave_num();
        let total = self.value.len();
        let mut proof_values: HashMap<usize, Mersenne61Ext> = HashMap::new();
        let mut k: usize = 0;
        proof {
            assert(total == self.value@.len());
            assert(2 * (self.value@.len() / 2) == self.value@.len());
        }
        while k < leaf_indices.len()
            invariant
                k <= leaf_indices@.len(),
                len == self.value@.len() / 2,
                2 * len == self.value@.len(),
                self.value@.len() <= usize::MAX,
                iv_wf(*self),
                forall|t: int|
                    0 <= t < leaf_indices@.len() ==> (#[trigger] leaf_indices@[t])
                        < self.value@.len() / 2,
                forall|t: int|
                    #![trigger leaf_indices@[t]]
                    0 <= t < k ==> {
                        let j = leaf_indices@[t];
                        &&& proof_values@.contains_key(j)
                        &&& proof_values@.contains_key((j + self.value@.len() / 2) as usize)
                        &&& proof_values@[j] == self.value@[j as int]
                        &&& proof_values@[(j + self.value@.len() / 2) as usize] == self.value@[j
                            + self.value@.len() / 2]
                    },
                forall|x: usize, t: int|
                    #![trigger proof_values@.contains_key(x), leaf_indices@[t]]
                    proof_values@.contains_key(x) ==> proof_values@[x] == self.value@[x as int]
                        && x < self.value@.len(),
            decreases leaf_indices@.len() - k,
        {
            let j = leaf_indices[k];
            proof_values.insert(j, self.value[j]);
            proof_values.insert(j + len, self.value[j + len]);
            k += 1;
        }
        let proof_bytes = self.merkle_tree.open(leaf_indices);
        QueryResult { proof_bytes, proof_values }
    }
}

/// The per-round family of committed vectors: one entry per folding
/// parameter that has been applied so far.
pub struct CosetInterpolate {
    pub interpolates: Vec<InterpolateValue>,
}

pub open spec fn ci_wf(c: CosetInterpolate) -> bool {
    &&& c.interpolates@.len() >= 1
    &&& is_power_of_two(c.interpolates@.len())
    &&& forall|i: int| 0 <= i < c.interpolates@.len() ==> iv_wf(#[trigger] c.interpolates@[i])
    &&& forall|i: int|
        0 <= i < c.interpolates@.len() ==> (#[trigger] c.interpolates@[i]).value@.len()
            == c.interpolates@[0].value@.len()
}

impl CosetInterpolate {
    pub fn len(&self) -> (r: usize)
        ensures
            r == self.interpolates@.len(),
    {
        self.interpolates.len()
    }

    /// Commits each vector of one round.
    pub fn new(functions: Vec<Vec<Mersenne61Ext>>) -> (r: CosetInterpolate)
        requires
            functions@.len() >= 1,
            is_power_of_two(functions@.len()),
            forall|i: int| 0 <= i < functions@.len() ==> all_wf((#[trigger] functions@[i])@),
            forall|i: int|
                0 <= i < functions@.len() ==> (#[trigger] functions@[i])@.len()
                    == functions@[0]@.len(),
            functions@[0]@.len() % 2 == 0,
            is_power_of_two((functions@[0]@.len() / 2) as nat),
        ensures
            ci_wf(r),
            r.interpolates@.len() == functions@.len(),
            forall|i: int|
                0 <= i < functions@.len() ==> (#[trigger] r.interpolates@[i]).value@
                    == functions@[i]@,
    {
        let mut interpolates: Vec<InterpolateValue> = Vec::new();
        let mut i: usize = 0;
        let mut fns = functions;
        let n = fns.len();
        while i < n
            invariant
                i <= n,
                n == fns@.len(),
                forall|t: int| 0 <= t < fns@.len() ==> all_wf((#[trigger] fns@[t])@),
                forall|t: int|
                    0 <= t < fns@.len() ==> (#[trigger] fns@[t])@.len() == fns@[0]@.len(),
                fns@[0]@.len() % 2 == 0,
                is_power_of_two((fns@[0]@.len() / 2) as nat),
                interpolates@.len() == i,
                forall|t: int|
                    0 <= t < i ==> iv_wf(#[trigger] interpolates@[t]) && interpolates@[t].value@
                        == fns@[t]@,
            decreases n - i,
        {
            let v = copy_elems(&fns[i]);
            interpolates.push(InterpolateValue::new(v));
            i += 1;
        }
        CosetInterpolate { interpolates }
    }

    /// The length of this round's evaluation vectors.
    pub fn field_size(&self) -> (r: usize)
        requires
            self.interpolates@.len() >= 1,
        ensures
            r == self.interpolates@[0].value@.len(),
    {
        self.interpolates[0].value.len()
    }

    pub fn from_interpolates(interpolates: Vec<InterpolateValue>) -> (r: CosetInterpolate)
        ensures
            r.interpolates == interpolates,
    {
        CosetInterpolate { interpolates }
    }

    /// The vector that party `index` folds from: entries repeat cyclically,
    /// the family size being a power of two.
    pub fn get_interpolation(&self, index: usize) -> (r: &InterpolateValue)
        requires
            self.interpolates@.len() >= 1,
        ensures
            r == &self.interpolates@[index as int % self.interpolates@.len() as int],
    {
        let len = self.interpolates.len();
        &self.interpolates[index % len]
    }
}

/// The one-fold formula of the query phase, before halving the domain:
/// `(v[i] + v[i + half]) + challenge * (v[i] - v[i + half]) * inv[i]`,
/// scaled by one half.
pub open spec fn fri_fold(v: Seq<Mersenne61Ext>, parameter: Mersenne61Ext, inv: Seq<Mersenne61Ext>) -> Seq<
    Mersenne61Ext,
> {
    Seq::new(
        (v.len() / 2) as nat,
        |i: int|
            f_mul(
                f_add(
                    f_add(v[i], v[i + v.len() / 2]),
                    f_mul(f_mul(parameter, f_sub(v[i], v[i + v.len() / 2])), inv[i]),
                ),
                Mersenne61Ext { real: 0x1000000000000000, image: 0 },
            ),
    )
}

/// The unscaled fold used while proving:
/// `(v[i] + v[i + half]) + challenge * (v[i] - v[i + half]) * inv[i]`.
pub open spec fn plain_fold(
    v: Seq<Mersenne61Ext>,
    challenge: Mersenne61Ext,
    inv: Seq<Mersenne61Ext>,
) -> Seq<Mersenne61Ext> {
    Seq::new(
        (v.len() / 2) as nat,
        |i: int|
            f_add(
                f_add(v[i], v[i + v.len() / 2]),
                f_mul(f_mul(challenge, f_sub(v[i], v[i + v.len() / 2])), inv[i]),
            ),
    )
}

/// The round-zero combination used from the second round on, which mixes
/// the round's own function vector into the running fold:
/// `(v * challenge + (x + nx)) * challenge + (x - nx) * inv[i]`.
pub open spec fn mixed_fold(
    folded: Seq<Mersenne61Ext>,
    fv: Seq<Mersenne61Ext>,
    challenge: Mersenne61Ext,
    inv: Seq<Mersenne61Ext>,
) -> Seq<Mersenne61Ext> {
    Seq::new(
        (folded.len() / 2) as nat,
        |i: int|
            {
                let base = f_add(
                    f_add(folded[i], folded[i + folded.len() / 2]),
                    f_mul(
                        f_mul(challenge, f_sub(folded[i], folded[i + folded.len() / 2])),
                        inv[i],
                    ),
                );
                f_add(
                    f_mul(f_add(f_mul(base, challenge), f_add(fv[i], fv[i + folded.len() / 2])), challenge),
                    f_mul(f_sub(fv[i], fv[i + folded.len() / 2]), inv[i]),
                )
            },
    )
}

/// Each committed folding vector is exactly the challenge fold of its
/// source: the shared function vector in the first round, afterwards the
/// previous round's folding mixed with the round's own function vector.
pub open spec fn foldings_follow(p: One2ManyProver, cnt: int) -> bool {
    forall|r: int, j: int|
        0 <= r < cnt && 0 <= j < p.foldings@[r].interpolates@.len() ==> (#[trigger] p.foldings@[r].interpolates@[j]).value@ == (if r == 0 {
            plain_fold(
                p.functions@[0].interpolates@[j % p.functions@[0].interpolates@.len() as int].value@,
                p.oracle.folding_challenges@[0],
                p.interpolate_cosets@[0].element_inverses@,
            )
        } else {
            mixed_fold(
                p.foldings@[r - 1].interpolates@[j % p.foldings@[r
                    - 1].interpolates@.len() as int].value@,
                p.functions@[r].interpolates@[j % p.functions@[r].interpolates@.len() as int].value@,
                p.oracle.folding_challenges@[r],
                p.interpolate_cosets@[r].element_inverses@,
            )
        })
}

/// What one opening of a committed vector shows: the full authentication
/// layer, and both halves of the queried pair at every listed position.
pub open spec fn opens_iv(qr: QueryResult, iv: InterpolateValue, idx: Seq<usize>) -> bool {
    &&& qr.proof_bytes@ == crate::merkle_tree::concat_bytes(
        byte_views(iv.merkle_tree.leaf_hashes@),
    )
    &&& (forall|k: int|
        #![trigger idx[k]]
        0 <= k < idx.len() ==> {
            let j = idx[k];
            &&& qr.proof_values@.contains_key(j)
            &&& qr.proof_values@.contains_key((j + iv.value@.len() / 2) as usize)
            &&& qr.proof_values@[j] == iv.value@[j as int]
            &&& qr.proof_values@[(j + iv.value@.len() / 2) as usize] == iv.value@[j + iv.value@.len()
                / 2]
        })
}

/// The root list after one commit pass: the old entries kept, then, for
/// each round below `cnt`, the Merkle root and leaf count of the vector
/// that concerns verifier `v` in that round's family.
pub open spec fn roots_extended(
    pre: Seq<MerkleTreeVerifier>,
    post: Seq<MerkleTreeVerifier>,
    rounds: Seq<CosetInterpolate>,
    cnt: int,
    v: int,
) -> bool {
    &&& post.len() == pre.len() + cnt
    &&& (forall|t: int| 0 <= t < pre.len() ==> post[t] == pre[t])
    &&& (forall|t: int|
        0 <= t < cnt ==> ((#[trigger] post[pre.len() + t]).merkle_root@
            == rounds[t].interpolates[v % rounds[t].interpolates.len() as int].merkle_tree.root@
            && post[pre.len() + t].leave_number == rounds[t].interpolates[v
            % rounds[t].interpolates.len() as int].value@.len() / 2))
}

/// The prover of the one-to-many folding protocol: it holds the committed
/// per-round function vectors, the challenge-folded vectors produced while
/// proving, and the residual polynomials of the last round.
pub struct One2ManyProver {
    pub total_round: usize,
    pub interpolate_cosets: Vec<Coset>,
    pub functions: Vec<CosetInterpolate>,
    pub foldings: Vec<CosetInterpolate>,
    pub oracle: RandomOracle,
    pub final_value: Vec<Polynomial>,
}

pub open spec fn prover_wf(p: One2ManyProver) -> bool {
    &&& p.functions@.len() == p.total_round
    &&& p.total_round >= 1
    &&& p.interpolate_cosets@.len() >= p.total_round + 1
    &&& oracle_wf(p.oracle)
    &&& p.oracle.total_round == p.total_round
    &&& forall|i: int| 0 <= i < p.functions@.len() ==> ci_wf(#[trigger] p.functions@[i])
    &&& forall|i: int|
        0 <= i < p.interpolate_cosets@.len() ==> coset_wf(#[trigger] p.interpolate_cosets@[i])
    &&& forall|i: int|
        0 <= i < p.total_round ==> (#[trigger] p.functions@[i]).interpolates@[0].value@.len()
            == p.interpolate_cosets@[i].elements@.len()
    &&& forall|i: int|
        0 <= i < p.total_round ==> 2 * p.interpolate_cosets@[i + 1].elements@.len() == (
        #[trigger] p.interpolate_cosets@[i]).elements@.len()
}

impl One2ManyProver {
    /// Wraps the per-round function vectors, committing each.
    pub fn new(
        total_round: usize,
        interpolate_coset: &Vec<Coset>,
        functions: Vec<CosetInterpolate>,
        oracle: &RandomOracle,
    ) -> (r: One2ManyProver)
        requires
            total_round >= 1,
            functions@.len() == total_round,
            interpolate_coset@.len() >= total_round + 1,
            oracle_wf(*oracle),
            oracle.total_round == total_round,
            forall|i: int| 0 <= i < functions@.len() ==> ci_wf(#[trigger] functions@[i]),
            forall|i: int|
                0 <= i < interpolate_coset@.len() ==> coset_wf(#[trigger] interpolate_coset@[i]),
            forall|i: int|
                0 <= i < total_round ==> (#[trigger] functions@[i]).interpolates@[0].value@.len()
                    == interpolate_coset@[i].elements@.len(),
            forall|i: int|
                0 <= i < total_round ==> 2 * interpolate_coset@[i + 1].elements@.len() == (
                #[trigger] interpolate_coset@[i]).elements@.len(),
        ensures
            prover_wf(r),
            r.total_round == total_round,
            r.functions == functions,
            r.foldings@.len() == 0,
            r.final_value@.len() == 0,
            r.oracle.query_list@ == oracle.query_list@,
            r.oracle.folding_challenges@ == oracle.folding_challenges@,
            forall|i: int|
                0 <= i < interpolate_coset@.len() ==> crate::coset::coset_eq(
                    #[trigger] r.interpolate_cosets@[i],
                    interpolate_coset@[i],
                ),
            r.interpolate_cosets@.len() == interpolate_coset@.len(),
    {
        let cosets = copy_cosets(interpolate_coset);
        One2ManyProver {
            total_round,
            interpolate_cosets: cosets,
            functions,
            foldings: Vec::new(),
            oracle: oracle.duplicate(),
            final_value: Vec::new(),
        }
    }

    /// Hands every verifier, round by round, the Merkle root of the
    /// function vector that concerns it.
    pub fn commit_functions(&self, verifiers: &mut Vec<crate::one2many::checker::One2ManyVerifier>)
        requires
            prover_wf(*self),
            forall|v: int|
                0 <= v < old(verifiers)@.len() ==> crate::one2many::checker::verifier_wf(
                    #[trigger] old(verifiers)@[v],
                ),
        ensures
            final(verifiers)@.len() == old(verifiers)@.len(),
            forall|v: int|
                0 <= v < final(verifiers)@.len() ==> crate::one2many::checker::verifier_wf(
                    #[trigger] final(verifiers)@[v],
                ),
            forall|v: int|
                0 <= v < final(verifiers)@.len() ==> roots_extended(
                    old(verifiers)@[v].function_root@,
                    (#[trigger] final(verifiers)@[v]).function_root@,
                    self.functions@,
                    self.total_round as int,
                    v,
                ) && final(verifiers)@[v].folding_root@ == old(verifiers)@[v].folding_root@
                    && final(verifiers)@[v].final_value == old(verifiers)@[v].final_value,
    {
        let mut i: usize = 0;
        while i < self.total_round
            invariant
                i <= self.total_round,
                prover_wf(*self),
                verifiers@.len() == old(verifiers)@.len(),
                forall|v: int|
                    0 <= v < verifiers@.len() ==> crate::one2many::checker::verifier_wf(
                        #[trigger] verifiers@[v],
                    ),
                forall|v: int|
                    0 <= v < verifiers@.len() ==> roots_extended(
                        old(verifiers)@[v].function_root@,
                        (#[trigger] verifiers@[v]).function_root@,
                        self.functions@,
                        i as int,
                        v,
                    ) && verifiers@[v].folding_root@ == old(verifiers)@[v].folding_root@
                        && verifiers@[v].final_value == old(verifiers)@[v].final_value,
            decreases self.total_round - i,
        {
            let mut idx: usize = 0;
            while idx < verifiers.len()
                invariant
                    i < self.total_round,
                    idx <= verifiers@.len(),
                    prover_wf(*self),
                    verifiers@.len() == old(verifiers)@.len(),
                    forall|v: int|
                        0 <= v < verifiers@.len() ==> crate::one2many::checker::verifier_wf(
                            #[trigger] verifiers@[v],
                        ),
                    forall|v: int|
                        0 <= v < verifiers@.len() ==> (#[trigger] verifiers@[v]).folding_root@
                            == old(verifiers)@[v].folding_root@ && verifiers@[v].final_value
                            == old(verifiers)@[v].final_value,
                    forall|v: int|
                        0 <= v < idx ==> roots_extended(
                            old(verifiers)@[v].function_root@,
                            (#[trigger] verifiers@[v]).function_root@,
                            self.functions@,
                            i + 1,
                            v,
                        ),
                    forall|v: int|
                        idx <= v < verifiers@.len() ==> roots_extended(
                            old(verifiers)@[v].function_root@,
                            (#[trigger] verifiers@[v]).function_root@,
                            self.functions@,
                            i as int,
                            v,
                        ),
                decreases verifiers@.len() - idx,
            {
                let function = self.functions[i].get_interpolation(idx);
                let ln = function.leave_num();
                let root = function.commit();
                proof {
                    let fs = self.functions@[i as int];
                    assert(iv_wf(
                        fs.interpolates@[idx as int % fs.interpolates@.len() as int],
                    ));
                }
                let mut v = verifiers.remove(idx);
                let ghost pre_roots = v.function_root@;
                v.set_function(ln, root);
                proof {
                    let pre0 = old(verifiers)@[idx as int].function_root@;
                    let post = v.function_root@;
                    let fs = self.functions@;
                    assert(post == pre_roots.push(post.last()));
                    assert forall|t: int| 0 <= t < i + 1 implies ((#[trigger] post[pre0.len()
                        + t]).merkle_root@ == fs[t].interpolates[idx as int % fs[
                        t
                    ].interpolates.len() as int].merkle_tree.root@ && post[pre0.len()
                        + t].leave_number == fs[t].interpolates[idx as int % fs[
                        t
                    ].interpolates.len() as int].value@.len() / 2) by {
                        if t < i as int {
                            assert(post[pre0.len() + t] == pre_roots[pre0.len() + t]);
                        }
                    }
                }
                verifiers.insert(idx, v);
                idx += 1;
            }
            i += 1;
        }
    }

    /// Hands every verifier the folding roots of the first
    /// `total_round - 1` rounds, in round order, then its residual
    /// polynomial, degree permitting.
    pub fn commit_foldings(&self, verifiers: &mut Vec<crate::one2many::checker::One2ManyVerifier>)
        requires
            prover_wf(*self),
            self.foldings@.len() == self.total_round - 1,
            forall|r: int| 0 <= r < self.foldings@.len() ==> ci_wf(#[trigger] self.foldings@[r]),
            self.final_value@.len() >= 1,
            forall|j: int|
                0 <= j < self.final_value@.len() ==> crate::polynomial::poly_wf(
                    #[trigger] self.final_value@[j],
                ),
            forall|v: int|
                0 <= v < old(verifiers)@.len() ==> crate::one2many::checker::verifier_wf(
                    #[trigger] old(verifiers)@[v],
                ),
        ensures
            final(verifiers)@.len() == old(verifiers)@.len(),
            forall|v: int|
                0 <= v < final(verifiers)@.len() ==> crate::one2many::checker::verifier_wf(
                    #[trigger] final(verifiers)@[v],
                ),
            forall|v: int|
                0 <= v < final(verifiers)@.len() ==> roots_extended(
                    old(verifiers)@[v].folding_root@,
                    (#[trigger] final(verifiers)@[v]).folding_root@,
                    self.foldings@,
                    self.total_round - 1,
                    v,
                ) && final(verifiers)@[v].function_root@ == old(verifiers)@[v].function_root@,
            forall|v: int|
                0 <= v < final(verifiers)@.len() ==> {
                    let q = self.final_value@[v % self.final_value@.len() as int];
                    &&& (crate::one2many::checker::residual_degree_ok(old(verifiers)@[v], q)
                        ==> ((#[trigger] final(verifiers)@[v]).final_value matches Some(fp)
                        && fp.coefficients@ == q.coefficients@))
                    &&& (!crate::one2many::checker::residual_degree_ok(old(verifiers)@[v], q)
                        ==> final(verifiers)@[v].final_value == old(verifiers)@[v].final_value)
                },
    {
        let rounds = self.total_round - 1;
        let mut i: usize = 0;
        while i < rounds
            invariant
                i <= rounds,
                rounds == self.total_round - 1,
                prover_wf(*self),
                self.foldings@.len() == rounds,
                forall|r: int|
                    0 <= r < self.foldings@.len() ==> ci_wf(#[trigger] self.foldings@[r]),
                verifiers@.len() == old(verifiers)@.len(),
                forall|v: int|
                    0 <= v < verifiers@.len() ==> crate::one2many::checker::verifier_wf(
                        #[trigger] verifiers@[v],
                    ),
                forall|v: int|
                    0 <= v < verifiers@.len() ==> roots_extended(
                        old(verifiers)@[v].folding_root@,
                        (#[trigger] verifiers@[v]).folding_root@,
                        self.foldings@,
                        i as int,
                        v,
                    ) && verifiers@[v].function_root@ == old(verifiers)@[v].function_root@
                        && verifiers@[v].final_value == old(verifiers)@[v].final_value
                        && verifiers@[v].log_max_degree == old(verifiers)@[v].log_max_degree
                        && verifiers@[v].total_round == old(verifiers)@[v].total_round,
            decreases rounds - i,
        {
            let mut idx: usize = 0;
            while idx < verifiers.len()
                invariant
                    i < rounds,
                    rounds == self.total_round - 1,
                    idx <= verifiers@.len(),
                    prover_wf(*self),
                    self.foldings@.len() == rounds,
                    forall|r: int|
                        0 <= r < self.foldings@.len() ==> ci_wf(#[trigger] self.foldings@[r]),
                    verifiers@.len() == old(verifiers)@.len(),
                    forall|v: int|
                        0 <= v < verifiers@.len() ==> crate::one2many::checker::verifier_wf(
                            #[trigger] verifiers@[v],
                        ),
                    forall|v: int|
                        0 <= v < verifiers@.len() ==> (#[trigger] verifiers@[v]).function_root@
                            == old(verifiers)@[v].function_root@ && verifiers@[v].final_value
                            == old(verifiers)@[v].final_value && verifiers@[v].log_max_degree
                            == old(verifiers)@[v].log_max_degree && verifiers@[v].total_round
                            == old(verifiers)@[v].total_round,
                    forall|v: int|
                        0 <= v < idx ==> roots_extended(
                            old(verifiers)@[v].folding_root@,
                            (#[trigger] verifiers@[v]).folding_root@,
                            self.foldings@,
                            i + 1,
                            v,
                        ),
                    forall|v: int|
                        idx <= v < verifiers@.len() ==> roots_extended(
                            old(verifiers)@[v].folding_root@,
                            (#[trigger] verifiers@[v]).folding_root@,
                            self.foldings@,
                            i as int,
                            v,
                        ),
                decreases verifiers@.len() - idx,
            {
                let interpolation = self.foldings[i].get_interpolation(idx);
                let ln = interpolation.leave_num();
                let root = interpolation.commit();
                proof {
                    let fs = self.foldings@[i as int];
                    assert(iv_wf(
                        fs.interpolates@[idx as int % fs.interpolates@.len() as int],
                    ));
                }
                let mut v = verifiers.remove(idx);
                let ghost pre_roots = v.folding_root@;
                v.receive_folding_root(ln, root);
                proof {
                    let pre0 = old(verifiers)@[idx as int].folding_root@;
                    let post = v.folding_root@;
                    let fs = self.foldings@;
                    assert(post == pre_roots.push(post.last()));
                    assert forall|t: int| 0 <= t < i + 1 implies ((#[trigger] post[pre0.len()
                        + t]).merkle_root@ == fs[t].interpolates[idx as int % fs[
                        t
                    ].interpolates.len() as int].merkle_tree.root@ && post[pre0.len()
                        + t].leave_number == fs[t].interpolates[idx as int % fs[
                        t
                    ].interpolates.len() as int].value@.len() / 2) by {
                        if t < i as int {
                            assert(post[pre0.len() + t] == pre_roots[pre0.len() + t]);
                        }
                    }
                }
                verifiers.insert(idx, v);
                idx += 1;
            }
            i += 1;
        }
        let mut idx: usize = 0;
        let fv_len = self.final_value.len();
        while idx < verifiers.len()
            invariant
                idx <= verifiers@.len(),
                fv_len == self.final_value@.len(),
                fv_len >= 1,
                rounds == self.total_round - 1,
                self.foldings@.len() == rounds,
                forall|j: int|
                    0 <= j < self.final_value@.len() ==> crate::polynomial::poly_wf(
                        #[trigger] self.final_value@[j],
                    ),
                verifiers@.len() == old(verifiers)@.len(),
                forall|v: int|
                    0 <= v < verifiers@.len() ==> crate::one2many::checker::verifier_wf(
                        #[trigger] verifiers@[v],
                    ),
                forall|v: int|
                    0 <= v < verifiers@.len() ==> roots_extended(
                        old(verifiers)@[v].folding_root@,
                        (#[trigger] verifiers@[v]).folding_root@,
                        self.foldings@,
                        rounds as int,
                        v,
                    ) && verifiers@[v].function_root@ == old(verifiers)@[v].function_root@
                        && verifiers@[v].log_max_degree == old(verifiers)@[v].log_max_degree
                        && verifiers@[v].total_round == old(verifiers)@[v].total_round,
                forall|v: int|
                    idx <= v < verifiers@.len() ==> (#[trigger] verifiers@[v]).final_value == old(
                        verifiers,
                    )@[v].final_value,
                forall|v: int|
                    0 <= v < idx ==> {
                        let q = self.final_value@[v % fv_len as int];
                        &&& (crate::one2many::checker::residual_degree_ok(old(verifiers)@[v], q)
                            ==> ((#[trigger] verifiers@[v]).final_value matches Some(fp)
                            && fp.coefficients@ == q.coefficients@))
                        &&& (!crate::one2many::checker::residual_degree_ok(old(verifiers)@[v], q)
                            ==> verifiers@[v].final_value == old(verifiers)@[v].final_value)
                    },
            decreases verifiers@.len() - idx,
        {
            let poly = clone_poly(&self.final_value[idx % fv_len]);
            let mut v = verifiers.remove(idx);
            let ghost pre_v = v;
            v.set_final_value(poly);
            proof {
                let q = self.final_value@[idx as int % fv_len as int];
                assert(crate::one2many::checker::residual_degree_ok(pre_v, poly)
                    == crate::one2many::checker::residual_degree_ok(
                    old(verifiers)@[idx as int],
                    q,
                ));
            }
            verifiers.insert(idx, v);
            idx += 1;
        }
    }

    /// One folding step of the proof: combines positions `i` and
    /// `i + len/2` of the source vector with the round's challenge; from
    /// the second round on, the round's own function vector is mixed in.
    pub fn evaluation_next_domain(
        &self,
        round: usize,
        rolling_function_index: usize,
        challenge: Mersenne61Ext,
    ) -> (res: Vec<Mersenne61Ext>)
        requires
            prover_wf(*self),
            f_wf(challenge),
            round < self.total_round,
            round >= 1 ==> self.foldings@.len() >= round && ci_wf(
                self.foldings@[round - 1],
            ) && self.foldings@[round - 1].interpolates@[0].value@.len()
                == self.functions@[round as int].interpolates@[0].value@.len(),
        ensures
            res@ == (if round == 0 {
                plain_fold(
                    self.functions@[0].interpolates@[rolling_function_index as int
                        % self.functions@[0].interpolates@.len() as int].value@,
                    challenge,
                    self.interpolate_cosets@[0].element_inverses@,
                )
            } else {
                mixed_fold(
                    self.foldings@[round - 1].interpolates@[rolling_function_index as int
                        % self.foldings@[round - 1].interpolates@.len() as int].value@,
                    self.functions@[round as int].interpolates@[rolling_function_index as int
                        % self.functions@[round as int].interpolates@.len() as int].value@,
                    challenge,
                    self.interpolate_cosets@[round as int].element_inverses@,
                )
            }),
            all_wf(res@),
    {
        let mut res: Vec<Mersenne61Ext> = Vec::new();
        let len = self.functions[round].field_size();
        let half = len / 2;
        let coset = &self.interpolate_cosets[round];
        proof {
            let ghost fs = self.functions@[round as int];
            assert(iv_wf(fs.interpolates@[0]));
            assert(2 * (len as int / 2) == len);
        }
        if round == 0 {
            let src = self.functions[0].get_interpolation(rolling_function_index);
            let ghost sv = src.value@;
            let mut i: usize = 0;
            while i < half
                invariant
                    i <= half,
                    half == sv.len() / 2,
                    2 * half == sv.len(),
                    sv.len() <= usize::MAX,
                    sv == src.value@,
                    iv_wf(*src),
                    f_wf(challenge),
                    coset_wf(*coset),
                    coset.element_inverses@.len() >= half,
                    res@.len() == i,
                    all_wf(res@),
                    forall|k: int|
                        0 <= k < i ==> res@[k] == f_add(
                            f_add(sv[k], sv[k + sv.len() / 2]),
                            f_mul(
                                f_mul(challenge, f_sub(sv[k], sv[k + sv.len() / 2])),
                                coset.element_inverses@[k],
                            ),
                        ),
                decreases half - i,
            {
                let x = src.value[i];
                let nx = src.value[i + half];
                let new_v = x.add(nx).add(challenge.mul(x.sub(nx)).mul(coset.element_inv_at(i)));
                res.push(new_v);
                i += 1;
            }
            proof {
                assert(res@ =~= plain_fold(sv, challenge, coset.element_inverses@));
            }
            res
        } else {
            let src = self.foldings[round - 1].get_interpolation(rolling_function_index);
            let fv = self.functions[round].get_interpolation(rolling_function_index);
            let ghost sv = src.value@;
            let ghost fvv = fv.value@;
            proof {
                let fr = self.foldings@[round - 1];
                assert(iv_wf(
                    fr.interpolates@[rolling_function_index as int
                        % fr.interpolates@.len() as int],
                ));
                let fs = self.functions@[round as int];
                assert(iv_wf(
                    fs.interpolates@[rolling_function_index as int
                        % fs.interpolates@.len() as int],
                ));
            }
            let mut i: usize = 0;
            while i < half
                invariant
                    i <= half,
                    half == sv.len() / 2,
                    2 * half == sv.len(),
                    sv.len() <= usize::MAX,
                    fvv.len() == sv.len(),
                    sv == src.value@,
                    fvv == fv.value@,
                    iv_wf(*src),
                    iv_wf(*fv),
                    f_wf(challenge),
                    coset_wf(*coset),
                    coset.element_inverses@.len() >= half,
                    res@.len() == i,
                    all_wf(res@),
                    forall|k: int|
                        0 <= k < i ==> res@[k] == mixed_fold(
                            sv,
                            fvv,
                            challenge,
                            coset.element_inverses@,
                        )[k],
                decreases half - i,
            {
                let x = src.value[i];
                let nx = src.value[i + half];
                let base = x.add(nx).add(challenge.mul(x.sub(nx)).mul(coset.element_inv_at(i)));
                let fx = fv.value[i];
                let fnx = fv.value[i + half];
                let new_v = base.mul(challenge).add(fx.add(fnx)).mul(challenge).add(
                    fx.sub(fnx).mul(coset.element_inv_at(i)),
                );
                res.push(new_v);
                i += 1;
            }
            proof {
                assert(res@ =~= mixed_fold(sv, fvv, challenge, coset.element_inverses@));
            }
            res
        }
    }

    /// Runs the folding rounds: each of the first `total_round - 1` rounds
    /// commits the challenge-folded vectors; the last round interpolates
    /// each folded vector into a residual polynomial.
    pub fn prove(&mut self)
        requires
            prover_wf(*old(self)),
            old(self).foldings@.len() == 0,
            old(self).final_value@.len() == 0,
        ensures
            prover_wf(*final(self)),
            final(self).total_round == old(self).total_round,
            final(self).functions == old(self).functions,
            final(self).interpolate_cosets@ == old(self).interpolate_cosets@,
            final(self).oracle.query_list@ == old(self).oracle.query_list@,
            final(self).foldings@.len() == final(self).total_round - 1,
            forall|r: int|
                0 <= r < final(self).foldings@.len() ==> ci_wf(#[trigger] final(self).foldings@[r]),
            forall|r: int|
                0 <= r < final(self).foldings@.len() ==> (#[trigger] final(self).foldings@[r]).interpolates@.len() == final(self).functions@[r].interpolates@.len()
                    && final(self).foldings@[r].interpolates@[0].value@.len() == final(self).functions@[r].interpolates@[0].value@.len() / 2,
            final(self).final_value@.len() == final(self).functions@[final(self).total_round
                - 1].interpolates@.len(),
            forall|j: int|
                0 <= j < final(self).final_value@.len() ==> crate::polynomial::poly_wf(
                    #[trigger] final(self).final_value@[j],
                ),
            final(self).oracle.folding_challenges@ == old(self).oracle.folding_challenges@,
            foldings_follow(*final(self), final(self).foldings@.len() as int),
            final(self).interpolate_cosets@[final(self).total_round as int].elements@.len()
                >= crate::polynomial::pow2(crate::CODE_RATE as nat) ==> forall|j: int|
                0 <= j < final(self).final_value@.len() ==> crate::polynomial::pow2(
                    crate::CODE_RATE as nat,
                ) * ((#[trigger] final(self).final_value@[j]).coefficients@.len())
                    <= final(self).interpolate_cosets@[final(self).total_round as int].elements@.len(),
    {
        let total_round = self.total_round;
        let mut i: usize = 0;
        while i < total_round
            invariant
                i <= total_round,
                total_round == self.total_round,
                prover_wf(*self),
                self.functions == old(self).functions,
                self.interpolate_cosets@ == old(self).interpolate_cosets@,
                self.oracle.query_list@ == old(self).oracle.query_list@,
                self.oracle.folding_challenges@ == old(self).oracle.folding_challenges@,
                self.total_round == old(self).total_round,
                i < total_round ==> self.final_value@.len() == 0,
                self.foldings@.len() == if i <= total_round - 1 {
                    i as int
                } else {
                    total_round - 1
                },
                forall|r: int| 0 <= r < self.foldings@.len() ==> ci_wf(#[trigger] self.foldings@[r]),
                forall|r: int|
                    0 <= r < self.foldings@.len() ==> (#[trigger] self.foldings@[r]).interpolates@.len()
                        == self.functions@[r].interpolates@.len()
                        && self.foldings@[r].interpolates@[0].value@.len()
                        == self.functions@[r].interpolates@[0].value@.len() / 2,
                foldings_follow(*self, self.foldings@.len() as int),
                i == total_round ==> self.final_value@.len() == self.functions@[total_round
                    - 1].interpolates@.len(),
                forall|j: int|
                    0 <= j < self.final_value@.len() ==> crate::polynomial::poly_wf(
                        #[trigger] self.final_value@[j],
                    ),
                self.interpolate_cosets@[total_round as int].elements@.len()
                    >= crate::polynomial::pow2(crate::CODE_RATE as nat) ==> forall|j: int|
                    0 <= j < self.final_value@.len() ==> crate::polynomial::pow2(
                        crate::CODE_RATE as nat,
                    ) * ((#[trigger] self.final_value@[j]).coefficients@.len())
                        <= self.interpolate_cosets@[total_round as int].elements@.len(),
            decreases total_round - i,
        {
            let challenge = self.oracle.folding_challenges[i];
            let m = self.functions[i].len();
            proof {
                assert(ci_wf(self.functions@[i as int]));
                assert(iv_wf(self.functions@[i as int].interpolates@[0]));
                if i >= 1 {
                    assert(2 * self.interpolate_cosets@[i as int].elements@.len()
                        == self.interpolate_cosets@[i - 1].elements@.len());
                }
            }
            if i < total_round - 1 {
                let mut interpolates: Vec<InterpolateValue> = Vec::new();
                let mut j: usize = 0;
                while j < m
                    invariant
                        j <= m,
                        i < total_round - 1,
                        total_round == self.total_round,
                        m == self.functions@[i as int].interpolates@.len(),
                        prover_wf(*self),
                        f_wf(challenge),
                        self.functions == old(self).functions,
                        self.interpolate_cosets@ == old(self).interpolate_cosets@,
                        self.oracle.query_list@ == old(self).oracle.query_list@,
                        self.oracle.folding_challenges@ == old(self).oracle.folding_challenges@,
                        self.total_round == old(self).total_round,
                        self.final_value@.len() == 0,
                        self.foldings@.len() == i,
                        forall|r: int|
                            0 <= r < self.foldings@.len() ==> ci_wf(#[trigger] self.foldings@[r]),
                        forall|r: int|
                            0 <= r < self.foldings@.len() ==> (#[trigger] self.foldings@[r]).interpolates@.len()
                                == self.functions@[r].interpolates@.len()
                                && self.foldings@[r].interpolates@[0].value@.len()
                                == self.functions@[r].interpolates@[0].value@.len() / 2,
                        foldings_follow(*self, self.foldings@.len() as int),
                        challenge == self.oracle.folding_challenges@[i as int],
                        interpolates@.len() == j,
                        forall|t: int|
                            0 <= t < j ==> iv_wf(#[trigger] interpolates@[t])
                                && interpolates@[t].value@.len()
                                == self.functions@[i as int].interpolates@[0].value@.len() / 2,
                        forall|t: int|
                            0 <= t < j ==> (#[trigger] interpolates@[t]).value@ == (if i == 0 {
                                plain_fold(
                                    self.functions@[0].interpolates@[t % self.functions@[0].interpolates@.len() as int].value@,
                                    challenge,
                                    self.interpolate_cosets@[0].element_inverses@,
                                )
                            } else {
                                mixed_fold(
                                    self.foldings@[i - 1].interpolates@[t % self.foldings@[i
                                        - 1].interpolates@.len() as int].value@,
                                    self.functions@[i as int].interpolates@[t
                                        % self.functions@[i as int].interpolates@.len() as int].value@,
                                    challenge,
                                    self.interpolate_cosets@[i as int].element_inverses@,
                                )
                            }),
                    decreases m - j,
                {
                    proof {
                        lemma_round_sizes(self, i as int);
                    }
                    let next_evaluation = self.evaluation_next_domain(i, j, challenge);
                    proof {
                        lemma_fold_len_wf(self, i as int, next_evaluation@);
                    }
                    let iv = InterpolateValue::new(next_evaluation);
                    interpolates.push(iv);
                    j += 1;
                }
                let ci = CosetInterpolate::from_interpolates(interpolates);
                proof {
                    assert(m >= 1 && is_power_of_two(m as nat));
                    assert(ci_wf(ci));
                }
                let ghost before = *self;
                self.foldings.push(ci);
                proof {
                    assert(self.foldings@.len() == i + 1);
                    assert forall|r: int, j2: int|
                        0 <= r < i + 1 && 0 <= j2 < self.foldings@[r].interpolates@.len() implies (
                    #[trigger] self.foldings@[r].interpolates@[j2]).value@ == (if r == 0 {
                        plain_fold(
                            self.functions@[0].interpolates@[j2 % self.functions@[0].interpolates@.len() as int].value@,
                            self.oracle.folding_challenges@[0],
                            self.interpolate_cosets@[0].element_inverses@,
                        )
                    } else {
                        mixed_fold(
                            self.foldings@[r - 1].interpolates@[j2 % self.foldings@[r
                                - 1].interpolates@.len() as int].value@,
                            self.functions@[r].interpolates@[j2
                                % self.functions@[r].interpolates@.len() as int].value@,
                            self.oracle.folding_challenges@[r],
                            self.interpolate_cosets@[r].element_inverses@,
                        )
                    }) by {
                        if r < i as int {
                            assert(self.foldings@[r] == before.foldings@[r]);
                            if r >= 1 {
                                assert(self.foldings@[r - 1] == before.foldings@[r - 1]);
                            }
                        } else {
                            assert(self.foldings@[r] == ci);
                            if r >= 1 {
                                assert(self.foldings@[r - 1] == before.foldings@[r - 1]);
                            }
                        }
                    }
                }
            } else {
                let mut j: usize = 0;
                while j < m
                    invariant
                        j <= m,
                        i == total_round - 1,
                        total_round == self.total_round,
                        m == self.functions@[i as int].interpolates@.len(),
                        prover_wf(*self),
                        f_wf(challenge),
                        self.functions == old(self).functions,
                        self.interpolate_cosets@ == old(self).interpolate_cosets@,
                        self.oracle.query_list@ == old(self).oracle.query_list@,
                        self.oracle.folding_challenges@ == old(self).oracle.folding_challenges@,
                        self.total_round == old(self).total_round,
                        self.foldings@.len() == if total_round >= 2 {
                            total_round - 1
                        } else {
                            0int
                        },
                        foldings_follow(*self, self.foldings@.len() as int),
                        forall|r: int|
                            0 <= r < self.foldings@.len() ==> ci_wf(#[trigger] self.foldings@[r]),
                        forall|r: int|
                            0 <= r < self.foldings@.len() ==> (#[trigger] self.foldings@[r]).interpolates@.len()
                                == self.functions@[r].interpolates@.len()
                                && self.foldings@[r].interpolates@[0].value@.len()
                                == self.functions@[r].interpolates@[0].value@.len() / 2,
                        self.final_value@.len() == j,
                        forall|t: int|
                            0 <= t < self.final_value@.len() ==> crate::polynomial::poly_wf(
                                #[trigger] self.final_value@[t],
                            ),
                        self.interpolate_cosets@[total_round as int].elements@.len()
                            >= crate::polynomial::pow2(crate::CODE_RATE as nat) ==> forall|t: int|
                            0 <= t < self.final_value@.len() ==> crate::polynomial::pow2(
                                crate::CODE_RATE as nat,
                            ) * ((#[trigger] self.final_value@[t]).coefficients@.len())
                                <= self.interpolate_cosets@[total_round as int].elements@.len(),
                    decreases m - j,
                {
                    proof {
                        lemma_round_sizes(self, i as int);
                    }
                    let next_evaluation = self.evaluation_next_domain(i, j, challenge);
                    proof {
                        lemma_fold_len_wf(self, i as int, next_evaluation@);
                    }
                    let full = self.interpolate_cosets[i + 1].ifft(&next_evaluation);
                    // keep only the coefficients the code rate allows: the
                    // residual's degree is bounded by the last domain's size
                    // divided by the rate
                    let rate = crate::polynomial::pow2_usize(crate::CODE_RATE);
                    let sz = self.interpolate_cosets[i + 1].size();
                    let cap = sz / rate;
                    let keep: usize = if 1 <= cap && cap <= full.len() {
                        cap
                    } else {
                        full.len()
                    };
                    let mut coefficients: Vec<Mersenne61Ext> = Vec::new();
                    let mut t: usize = 0;
                    while t < keep
                        invariant
                            t <= keep,
                            keep <= full@.len(),
                            all_wf(full@),
                            coefficients@.len() == t,
                            all_wf(coefficients@),
                        decreases keep - t,
                    {
                        coefficients.push(full[t]);
                        t += 1;
                    }
                    proof {
                        crate::polynomial::lemma_trim_all_wf(coefficients@);
                        crate::polynomial::lemma_trim_len(coefficients@);
                        if sz >= rate {
                            vstd::arithmetic::div_mod::lemma_fundamental_div_mod(
                                sz as int,
                                rate as int,
                            );
                            assert(1 <= cap && cap <= full@.len() && rate * cap <= sz)
                                by (nonlinear_arith)
                                requires
                                    sz as int == rate as int * cap as int + (sz as int
                                        % rate as int),
                                    0 <= (sz as int % rate as int),
                                    (sz as int % rate as int) < rate as int,
                                    sz >= rate,
                                    rate >= 1,
                                    full@.len() == sz,
                            ;
                        }
                    }
                    let poly = Polynomial::new(coefficients);
                    proof {
                        if sz >= rate {
                            assert(rate * poly.coefficients@.len() <= sz) by (nonlinear_arith)
                                requires
                                    poly.coefficients@.len() <= cap,
                                    rate * cap <= sz,
                                    rate >= 1,
                            ;
                        }
                    }
                    self.final_value.push(poly);
                    j += 1;
                }
            }
            i += 1;
        }
    }

    /// Opens every committed vector at the oracle's query positions, folded
    /// into each round's domain: the first round opens only the shared
    /// function vector, later rounds open all per-party vectors, and each
    /// round from the second one on also opens the folding vectors.
    pub fn query(&self) -> (r: (Vec<Vec<QueryResult>>, Vec<Vec<QueryResult>>))
        requires
            prover_wf(*self),
            self.foldings@.len() == self.total_round - 1,
            forall|r: int| 0 <= r < self.foldings@.len() ==> ci_wf(#[trigger] self.foldings@[r]),
            forall|r: int|
                0 <= r < self.foldings@.len() ==> (#[trigger] self.foldings@[r]).interpolates@.len()
                    == self.functions@[r].interpolates@.len()
                    && self.foldings@[r].interpolates@[0].value@.len()
                    == self.functions@[r].interpolates@[0].value@.len() / 2,
        ensures
            r.0@.len() == self.total_round - 1,
            r.1@.len() == self.total_round,
            r.1@[0]@.len() == 1,
            opens_iv(
                r.1@[0]@[0],
                self.functions@[0].interpolates@[0],
                crate::one2many::checker::folded_index_seq(
                    self.oracle.query_list@,
                    (self.functions@[0].interpolates@[0].value@.len() / 2) as nat,
                ),
            ),
            forall|i: int|
                1 <= i < self.total_round ==> (#[trigger] r.1@[i])@.len()
                    == self.functions@[i].interpolates@.len() && (forall|j: int|
                    0 <= j < r.1@[i]@.len() ==> opens_iv(
                        #[trigger] r.1@[i]@[j],
                        self.functions@[i].interpolates@[j],
                        crate::one2many::checker::folded_index_seq(
                            self.oracle.query_list@,
                            (self.functions@[i].interpolates@[0].value@.len() / 2) as nat,
                        ),
                    )),
            forall|i: int|
                1 <= i < self.total_round ==> (#[trigger] r.0@[i - 1])@.len()
                    == self.foldings@[i - 1].interpolates@.len() && (forall|j: int|
                    0 <= j < r.0@[i - 1]@.len() ==> opens_iv(
                        #[trigger] r.0@[i - 1]@[j],
                        self.foldings@[i - 1].interpolates@[j],
                        crate::one2many::checker::folded_index_seq(
                            self.oracle.query_list@,
                            (self.functions@[i].interpolates@[0].value@.len() / 2) as nat,
                        ),
                    )),
    {
        let mut folding_res: Vec<Vec<QueryResult>> = Vec::new();
        let mut functions_res: Vec<Vec<QueryResult>> = Vec::new();
        let mut i: usize = 0;
        while i < self.total_round
            invariant
                i <= self.total_round,
                prover_wf(*self),
                self.foldings@.len() == self.total_round - 1,
                forall|r: int|
                    0 <= r < self.foldings@.len() ==> ci_wf(#[trigger] self.foldings@[r]),
                forall|r: int|
                    0 <= r < self.foldings@.len() ==> (#[trigger] self.foldings@[r]).interpolates@.len()
                        == self.functions@[r].interpolates@.len()
                        && self.foldings@[r].interpolates@[0].value@.len()
                        == self.functions@[r].interpolates@[0].value@.len() / 2,
                functions_res@.len() == i,
                folding_res@.len() == if i == 0 {
                    0int
                } else {
                    i - 1
                },
                i >= 1 ==> functions_res@[0]@.len() == 1 && opens_iv(
                    functions_res@[0]@[0],
                    self.functions@[0].interpolates@[0],
                    crate::one2many::checker::folded_index_seq(
                        self.oracle.query_list@,
                        (self.functions@[0].interpolates@[0].value@.len() / 2) as nat,
                    ),
                ),
                forall|t: int|
                    1 <= t < i ==> (#[trigger] functions_res@[t])@.len()
                        == self.functions@[t].interpolates@.len() && (forall|j: int|
                        0 <= j < functions_res@[t]@.len() ==> opens_iv(
                            #[trigger] functions_res@[t]@[j],
                            self.functions@[t].interpolates@[j],
                            crate::one2many::checker::folded_index_seq(
                                self.oracle.query_list@,
                                (self.functions@[t].interpolates@[0].value@.len() / 2) as nat,
                            ),
                        )),
                forall|t: int|
                    1 <= t < i ==> (#[trigger] folding_res@[t - 1])@.len()
                        == self.foldings@[t - 1].interpolates@.len() && (forall|j: int|
                        0 <= j < folding_res@[t - 1]@.len() ==> opens_iv(
                            #[trigger] folding_res@[t - 1]@[j],
                            self.foldings@[t - 1].interpolates@[j],
                            crate::one2many::checker::folded_index_seq(
                                self.oracle.query_list@,
                                (self.functions@[t].interpolates@[0].value@.len() / 2) as nat,
                            ),
                        )),
            decreases self.total_round - i,
        {
            proof {
                assert(ci_wf(self.functions@[i as int]));
                assert(iv_wf(self.functions@[i as int].interpolates@[0]));
            }
            let len = self.functions[i].field_size();
            let half = len / 2;
            proof {
                assert(is_power_of_two((len as int / 2) as nat));
                vstd::arithmetic::power2::lemma_pow2_pos(0);
            }
            let leaf_indices = self.fold_indices(half);
            proof {
                assert(leaf_indices@ =~= crate::one2many::checker::folded_index_seq(
                    self.oracle.query_list@,
                    half as nat,
                ));
            }

            if i == 0 {
                let src = self.functions[0].get_interpolation(0);
                proof {
                    let fs = self.functions@[0];
                    assert(iv_wf(fs.interpolates@[0]));
                }
                let query_result = src.query(&leaf_indices);
                let mut row: Vec<QueryResult> = Vec::new();
                row.push(query_result);
                functions_res.push(row);
            } else {
                let mut row: Vec<QueryResult> = Vec::new();
                let mut j: usize = 0;
                let m = self.functions[i].len();
                while j < m
                    invariant
                        j <= m,
                        i < self.total_round,
                        m == self.functions@[i as int].interpolates@.len(),
                        prover_wf(*self),
                        row@.len() == j,
                        leaf_indices@.len() == self.oracle.query_list@.len(),
                        leaf_indices@ == crate::one2many::checker::folded_index_seq(
                            self.oracle.query_list@,
                            (self.functions@[i as int].interpolates@[0].value@.len() / 2) as nat,
                        ),
                        forall|k: int|
                            0 <= k < leaf_indices@.len() ==> (#[trigger] leaf_indices@[k])
                                < self.functions@[i as int].interpolates@[0].value@.len() / 2,
                        forall|t: int|
                            0 <= t < j ==> opens_iv(
                                #[trigger] row@[t],
                                self.functions@[i as int].interpolates@[t],
                                leaf_indices@,
                            ),
                    decreases m - j,
                {
                    proof {
                        assert(ci_wf(self.functions@[i as int]));
                        let fs = self.functions@[i as int];
                        assert(iv_wf(fs.interpolates@[j as int]));
                    }
                    let qr = self.functions[i].interpolates[j].query(&leaf_indices);
                    row.push(qr);
                    j += 1;
                }
                functions_res.push(row);

                let mut frow: Vec<QueryResult> = Vec::new();
                let mut j2: usize = 0;
                let m2 = self.foldings[i - 1].len();
                proof {
                    assert(ci_wf(self.foldings@[i - 1]));
                    assert(2 * self.interpolate_cosets@[i as int].elements@.len()
                        == self.interpolate_cosets@[i - 1].elements@.len());
                }
                while j2 < m2
                    invariant
                        j2 <= m2,
                        1 <= i < self.total_round,
                        m2 == self.foldings@[i - 1].interpolates@.len(),
                        prover_wf(*self),
                        self.foldings@.len() == self.total_round - 1,
                        forall|r: int|
                            0 <= r < self.foldings@.len() ==> ci_wf(#[trigger] self.foldings@[r]),
                        forall|r: int|
                            0 <= r < self.foldings@.len() ==> (#[trigger] self.foldings@[r]).interpolates@.len()
                                == self.functions@[r].interpolates@.len()
                                && self.foldings@[r].interpolates@[0].value@.len()
                                == self.functions@[r].interpolates@[0].value@.len() / 2,
                        frow@.len() == j2,
                        leaf_indices@.len() == self.oracle.query_list@.len(),
                        leaf_indices@ == crate::one2many::checker::folded_index_seq(
                            self.oracle.query_list@,
                            (self.functions@[i as int].interpolates@[0].value@.len() / 2) as nat,
                        ),
                        forall|k: int|
                            0 <= k < leaf_indices@.len() ==> (#[trigger] leaf_indices@[k])
                                < self.functions@[i as int].interpolates@[0].value@.len() / 2,
                        forall|j: int|
                            0 <= j < j2 ==> opens_iv(
                                #[trigger] frow@[j],
                                self.foldings@[i - 1].interpolates@[j],
                                leaf_indices@,
                            ),
                    decreases m2 - j2,
                {
                    proof {
                        let fr = self.foldings@[i - 1];
                        assert(iv_wf(fr.interpolates@[j2 as int]));
                        assert(fr.interpolates@[j2 as int].value@.len()
                            == self.functions@[i - 1].interpolates@[0].value@.len() / 2);
                        assert(self.functions@[i - 1].interpolates@[0].value@.len()
                            == self.interpolate_cosets@[i - 1].elements@.len());
                        assert(2 * self.interpolate_cosets@[i as int].elements@.len()
                            == self.interpolate_cosets@[i - 1].elements@.len());
                        assert(self.functions@[i as int].interpolates@[0].value@.len()
                            == self.interpolate_cosets@[i as int].elements@.len());
                    }
                    let qr = self.foldings[i - 1].interpolates[j2].query(&leaf_indices);
                    frow.push(qr);
                    j2 += 1;
                }
                folding_res.push(frow);
            }
            i += 1;
        }
        (folding_res, functions_res)
    }

    /// The oracle's query positions, reduced into a domain of `half`
    /// positions.
    fn fold_indices(&self, half: usize) -> (r: Vec<usize>)
        requires
            half >= 1,
        ensures
            r@.len() == self.oracle.query_list@.len(),
            forall|k: int|
                0 <= k < r@.len() ==> #[trigger] r@[k] == self.oracle.query_list@[k] as int % (
                half as int) && r@[k] < half,
    {
        let mut r: Vec<usize> = Vec::new();
        let mut k: usize = 0;
        let q = &self.oracle.query_list;
        while k < q.len()
            invariant
                k <= q@.len(),
                half >= 1,
                q@ == self.oracle.query_list@,
                r@.len() == k,
                forall|t: int|
                    0 <= t < k ==> #[trigger] r@[t] == self.oracle.query_list@[t] as int % (
                    half as int) && r@[t] < half,
            decreases q@.len() - k,
        {
            r.push(q[k] % half);
            k += 1;
        }
        r
    }
}

/// Copies a vector of cosets, field for field.
pub fn copy_cosets(v: &Vec<Coset>) -> (r: Vec<Coset>)
    ensures
        r@.len() == v@.len(),
        forall|i: int| 0 <= i < v@.len() ==> crate::coset::coset_eq(#[trigger] r@[i], v@[i]),
{
    let mut r: Vec<Coset> = Vec::new();
    let mut i: usize = 0;
    while i < v.len()
        invariant
            i <= v@.len(),
            r@.len() == i,
            forall|t: int| 0 <= t < i ==> crate::coset::coset_eq(#[trigger] r@[t], v@[t]),
        decreases v@.len() - i,
    {
        r.push(v[i].duplicate());
        i += 1;
    }
    r
}

/// Copies a univariate polynomial.
pub fn clone_poly(p: &Polynomial) -> (r: Polynomial)
    ensures
        r.coefficients@ == p.coefficients@,
{
    Polynomial { coefficients: copy_elems(&p.coefficients) }
}

/// The source vector of round `i` has the round's domain size, so its fold
/// has half that length and stays well formed for committing.
proof fn lemma_round_sizes(p: &One2ManyProver, i: int)
    requires
        prover_wf(*p),
        0 <= i < p.total_round,
        i >= 1 ==> p.foldings@.len() >= i && ci_wf(p.foldings@[i - 1]) && p.foldings@[i
            - 1].interpolates@[0].value@.len() == p.functions@[i - 1].interpolates@[0].value@.len()
            / 2,
    ensures
        i >= 1 ==> p.foldings@[i - 1].interpolates@[0].value@.len()
            == p.functions@[i].interpolates@[0].value@.len(),
{
    if i >= 1 {
        assert(p.functions@[i - 1].interpolates@[0].value@.len()
            == p.interpolate_cosets@[i - 1].elements@.len());
        assert(p.functions@[i].interpolates@[0].value@.len()
            == p.interpolate_cosets@[i].elements@.len());
        assert(2 * p.interpolate_cosets@[i].elements@.len() == p.interpolate_cosets@[i
            - 1].elements@.len());
    }
}

/// A folded vector is half the round's domain, even, with a power-of-two
/// half, as committing requires.
proof fn lemma_fold_len_wf(p: &One2ManyProver, i: int, v: Seq<Mersenne61Ext>)
    requires
        prover_wf(*p),
        0 <= i < p.total_round,
        v.len() == p.functions@[i].interpolates@[0].value@.len() / 2,
    ensures
        v.len() == p.interpolate_cosets@[i + 1].elements@.len(),
        i + 1 < p.total_round ==> v.len() % 2 == 0 && is_power_of_two((v.len() / 2) as nat),
{
    assert(p.functions@[i].interpolates@[0].value@.len()
        == p.interpolate_cosets@[i].elements@.len());
    assert(2 * p.interpolate_cosets@[i + 1].elements@.len() == p.interpolate_cosets@[i].elements@.len());
    if i + 1 < p.total_round {
        assert(ci_wf(p.functions@[i + 1]));
        assert(iv_wf(p.functions@[i + 1].interpolates@[0]));
        assert(p.functions@[i + 1].interpolates@[0].value@.len()
            == p.interpolate_cosets@[i + 1].elements@.len());
    }
}


} // verus!
