use crate::field::{f_wf, Mersenne61Ext};
use crate::polynomial::{all_wf, copy_elems};
use crate::vec_check::copy_usizes;
use vstd::prelude::*;

verus! {

/// The shared randomness of one protocol run: a folding challenge for each
/// round, and the list of query positions for the low-degree check. Both
/// are drawn once, at setup.
pub struct RandomOracle {
    pub total_round: usize,
    pub folding_challenges: Vec<Mersenne61Ext>,
    pub query_list: Vec<usize>,
}

pub open spec fn oracle_wf(o: RandomOracle) -> bool {
    &&& o.folding_challenges@.len() == o.total_round
    &&& all_wf(o.folding_challenges@)
}

impl RandomOracle {
    /// Draws one challenge per round and `query_num` query positions. The
    /// positions are drawn from a domain wider than any round's; every
    /// consumer folds them into its own round's domain first.
    pub fn new(total_round: usize, query_num: usize) -> (r: RandomOracle)
        ensures
            oracle_wf(r),
            r.total_round == total_round,
            r.query_list@.len() == query_num,
    {
        let mut challenges: Vec<Mersenne61Ext> = Vec::new();
        let mut i: usize = 0;
        while i < total_round
            invariant
                i <= total_round,
                challenges@.len() == i,
                all_wf(challenges@),
            decreases total_round - i,
        {
            challenges.push(Mersenne61Ext::random_element());
            i += 1;
        }
        let mut queries: Vec<usize> = Vec::new();
        let mut j: usize = 0;
        while j < query_num
            invariant
                j <= query_num,
                queries@.len() == j,
            decreases query_num - j,
        {
            queries.push(crate::field::random_u64_below(0x40000000) as usize);
            j += 1;
        }
        RandomOracle { total_round, folding_challenges: challenges, query_list: queries }
    }

    /// A field-for-field copy of the oracle.
    pub fn duplicate(&self) -> (r: RandomOracle)
        ensures
            r.total_round == self.total_round,
            r.folding_challenges@ == self.folding_challenges@,
            r.query_list@ == self.query_list@,
    {
        RandomOracle {
            total_round: self.total_round,
            folding_challenges: copy_elems(&self.folding_challenges),
            query_list: copy_usizes(&self.query_list),
        }
    }
}

} // verus!
