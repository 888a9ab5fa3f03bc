use crate::field::{pair_to_bytes, u64_le_bytes, Mersenne61Ext};
use crate::merkle_tree::{byte_views, merkle_verify_spec, MerkleTreeVerifier};
use crate::polynomial::is_power_of_two;
use std::collections::HashMap;
use vstd::prelude::*;

verus! {

broadcast use vstd::std_specs::hash::group_hash_axioms;

/// One opening of a committed vector: the authentication bytes and the
/// revealed values, keyed by position.
pub struct QueryResult {
    pub proof_bytes: Vec<u8>,
    pub proof_values: HashMap<usize, Mersenne61Ext>,
}

/// Both halves of every queried leaf pair are present in the value map.
pub open spec fn qr_values_present(
    m: Map<usize, Mersenne61Ext>,
    indices: Seq<usize>,
    ln: usize,
) -> bool {
    forall|k: int|
        #![trigger indices[k]]
        0 <= k < indices.len() ==> indices[k] + ln <= usize::MAX && m.contains_key(indices[k])
            && m.contains_key((indices[k] + ln) as usize)
}

/// The leaf bytes reconstructed from the value map: for each queried
/// position, the pair `(v[i], v[i + ln])`, encoded.
pub open spec fn qr_leaves(
    m: Map<usize, Mersenne61Ext>,
    indices: Seq<usize>,
    ln: usize,
) -> Seq<Seq<u8>> {
    Seq::new(
        indices.len(),
        |k: int|
            u64_le_bytes(m[indices[k]].real) + u64_le_bytes(m[(indices[k] + ln) as usize].real),
    )
}

impl QueryResult {
    /// Rebuilds the queried leaf pairs from the revealed values and checks
    /// them, with the authentication bytes, against the committed root.
    pub fn verify_merkle_tree(
        &self,
        leaf_indices: &Vec<usize>,
        merkle_verifier: &MerkleTreeVerifier,
    ) -> (r: bool)
        requires
            is_power_of_two(merkle_verifier.leave_number as nat),
        ensures
            r == (qr_values_present(
                self.proof_values@,
                leaf_indices@,
                merkle_verifier.leave_number,
            ) && merkle_verify_spec(
                merkle_verifier.merkle_root@,
                merkle_verifier.leave_number as nat,
                self.proof_bytes@,
                leaf_indices@,
                qr_leaves(self.proof_values@, leaf_indices@, merkle_verifier.leave_number),
            )),
    {
        let ln = merkle_verifier.leave_number;
        let mut leaves: Vec<Vec<u8>> = Vec::new();
        let mut k: usize = 0;
        while k < leaf_indices.len()
            invariant
                k <= leaf_indices@.len(),
                ln == merkle_verifier.leave_number,
                leaves@.len() == k,
                forall|t: int|
                    #![trigger leaf_indices@[t]]
                    0 <= t < k ==> leaf_indices@[t] + ln <= usize::MAX
                        && self.proof_values@.contains_key(leaf_indices@[t])
                        && self.proof_values@.contains_key((leaf_indices@[t] + ln) as usize),
                forall|t: int|
                    #![trigger leaves@[t]]
                    0 <= t < k ==> leaves@[t]@ == u64_le_bytes(
                        self.proof_values@[leaf_indices@[t]].real,
                    ) + u64_le_bytes(
                        self.proof_values@[(leaf_indices@[t] + ln) as usize].real,
                    ),
            decreases leaf_indices@.len() - k,
        {
            let idx = leaf_indices[k];
            if idx > usize::MAX - ln {
                return false;
            }
            let lo = match self.proof_values.get(&idx) {
                Some(v) => *v,
                None => {
                    return false;
                },
            };
            let hi = match self.proof_values.get(&(idx + ln)) {
                Some(v) => *v,
                None => {
                    return false;
                },
            };
            leaves.push(pair_to_bytes(lo, hi));
            k += 1;
        }
        let ok = merkle_verifier.verify(&self.proof_bytes, leaf_indices, &leaves);
        proof {
            assert(byte_views(leaves@) =~= qr_leaves(
                self.proof_values@,
                leaf_indices@,
                merkle_verifier.leave_number,
            ));
        }
        ok
    }

    /// A field-for-field copy of this opening.
    pub fn duplicate(&self) -> (r: QueryResult)
        ensures
            r.proof_bytes@ == self.proof_bytes@,
            r.proof_values@ == self.proof_values@,
    {
        QueryResult {
            proof_bytes: crate::merkle_tree::copy_bytes(&self.proof_bytes),
            proof_values: self.proof_values.clone(),
        }
    }

    /// The total byte size of this opening: authentication bytes plus the
    /// stored values, sixteen bytes each.
    pub fn proof_size(&self) -> (r: usize)
        requires
            self.proof_bytes@.len() + self.proof_values@.len() * 16 <= usize::MAX,
        ensures
            r == self.proof_bytes@.len() + self.proof_values@.len() * 16,
    {
        self.proof_bytes.len() + self.proof_values.len() * 16
    }
}

} // verus!
