use vstd::prelude::*;

verus! {

/// The terminal output of one participant's key-generation run: the agreed
/// dealer set, the secret-key share, and the common public key, both keys
/// rendered in decimal.
pub struct AdkgResult {
    pub id: usize,
    pub users: Vec<usize>,
    pub sk: String,
    pub pk: String,
}

} // verus!
