use vstd::prelude::*;

verus! {

/// A participant's terminal record, as the host prints it.
pub struct Result {
    pub id: usize,
    pub users: Vec<usize>,
    pub sk: String,
    pub pk: String,
}

} // verus!
