use crate::polynomial::is_power_of_two;
use vstd::prelude::*;

verus! {

/// Length in bytes of one hash in the tree: a hex-encoded 32-byte digest.
pub const MERKLE_ROOT_SIZE: usize = 64;

/// The hex digest of the given bytes, as produced by the hashing backend.
pub uninterp spec fn sha256_hex(data: Seq<u8>) -> Seq<u8>;

/// Relies on sha256::digest on a byte vector, with String::into_bytes for
/// the conversion: a 64-byte ASCII hex digest, a function of the input
/// bytes alone.
#[verifier::external_body]
pub fn digest_hex(data: &Vec<u8>) -> (r: Vec<u8>)
    ensures
        r@ == sha256_hex(data@),
        r@.len() == MERKLE_ROOT_SIZE,
{
    sha256::digest(data).into_bytes()
}

/// The views of a sequence of byte vectors.
pub open spec fn byte_views(s: Seq<Vec<u8>>) -> Seq<Seq<u8>> {
    Seq::new(s.len(), |i: int| s[i]@)
}

/// One level up the tree: adjacent hashes are concatenated and hashed.
pub open spec fn next_layer(l: Seq<Seq<u8>>) -> Seq<Seq<u8>> {
    Seq::new(l.len() / 2, |i: int| sha256_hex(l[2 * i] + l[2 * i + 1]))
}

/// The root obtained by hashing the layer pairwise until one hash is left.
pub open spec fn root_of_layer(l: Seq<Seq<u8>>) -> Seq<u8>
    decreases l.len(),
{
    if l.len() == 0 {
        Seq::empty()
    } else if l.len() == 1 {
        l[0]
    } else {
        root_of_layer(next_layer(l))
    }
}

/// The concatenation of a sequence of byte vectors.
pub open spec fn concat_bytes(s: Seq<Seq<u8>>) -> Seq<u8>
    decreases s.len(),
{
    if s.len() == 0 {
        Seq::empty()
    } else {
        concat_bytes(s.drop_last()) + s.last()
    }
}

/// Hashes every leaf.
fn hash_leaves(leaves: &Vec<Vec<u8>>) -> (r: Vec<Vec<u8>>)
    ensures
        r@.len() == leaves@.len(),
        forall|i: int| 0 <= i < r@.len() ==> r@[i]@ == sha256_hex(leaves@[i]@),
        forall|i: int| 0 <= i < r@.len() ==> r@[i]@.len() == MERKLE_ROOT_SIZE,
{
    let mut r: Vec<Vec<u8>> = Vec::new();
    let mut i: usize = 0;
    while i < leaves.len()
        invariant
            i <= leaves@.len(),
            r@.len() == i,
            forall|k: int| 0 <= k < i ==> r@[k]@ == sha256_hex(leaves@[k]@),
            forall|k: int| 0 <= k < i ==> r@[k]@.len() == MERKLE_ROOT_SIZE,
        decreases leaves@.len() - i,
    {
        r.push(digest_hex(&leaves[i]));
        i += 1;
    }
    r
}

/// Concatenates two byte vectors.
fn concat_pair(a: &Vec<u8>, b: &Vec<u8>) -> (r: Vec<u8>)
    ensures
        r@ == a@ + b@,
{
    let mut r: Vec<u8> = Vec::new();
    let mut i: usize = 0;
    while i < a.len()
        invariant
            i <= a@.len(),
            r@ =~= a@.take(i as int),
        decreases a@.len() - i,
    {
        r.push(a[i]);
        i += 1;
    }
    let mut j: usize = 0;
    while j < b.len()
        invariant
            j <= b@.len(),
            r@ =~= a@ + b@.take(j as int),
        decreases b@.len() - j,
    {
        r.push(b[j]);
        j += 1;
    }
    proof {
        assert(r@ =~= a@ + b@);
    }
    r
}

/// Folds a power-of-two layer of hashes up to the root.
fn fold_to_root(layer: Vec<Vec<u8>>) -> (r: Vec<u8>)
    requires
        is_power_of_two(layer@.len()),
    ensures
        r@ == root_of_layer(byte_views(layer@)),
{
    let mut cur = layer;
    loop
        invariant
            is_power_of_two(cur@.len()),
            root_of_layer(byte_views(cur@)) == root_of_layer(byte_views(layer@)),
        ensures
            cur@.len() == 1,
            cur@[0]@ == root_of_layer(byte_views(layer@)),
        decreases cur@.len(),
    {
        let n = cur.len();
        if n == 1 {
            break;
        }
        let mut next: Vec<Vec<u8>> = Vec::new();
        let mut i: usize = 0;
        proof {
            assert(n % 2 == 0 && is_power_of_two((n / 2) as nat));
        }
        while i < n / 2
            invariant
                i <= n / 2,
                n == cur@.len(),
                n % 2 == 0,
                n <= usize::MAX,
                next@.len() == i,
                forall|k: int|
                    0 <= k < i ==> next@[k]@ == sha256_hex(cur@[2 * k]@ + cur@[2 * k + 1]@),
            decreases n / 2 - i,
        {
            proof {
                assert(2 * (n / 2) == n);
            }
            let joined = concat_pair(&cur[2 * i], &cur[2 * i + 1]);
            next.push(digest_hex(&joined));
            i += 1;
        }
        proof {
            assert(byte_views(next@) =~= next_layer(byte_views(cur@)));
        }
        cur = next;
    }
    let root = cur.pop().unwrap();
    root
}

/// The committing side of the Merkle tree: leaf hashes plus the root.
pub struct MerkleTreeProver {
    pub leaf_hashes: Vec<Vec<u8>>,
    pub root: Vec<u8>,
}

pub open spec fn mt_wf(p: MerkleTreeProver) -> bool {
    &&& is_power_of_two(p.leaf_hashes@.len())
    &&& p.root@ == root_of_layer(byte_views(p.leaf_hashes@))
    &&& forall|i: int| 0 <= i < p.leaf_hashes@.len() ==> p.leaf_hashes@[i]@.len() == MERKLE_ROOT_SIZE
}

impl MerkleTreeProver {
    /// Hashes the leaves and folds the root.
    pub fn new(leaves: Vec<Vec<u8>>) -> (r: MerkleTreeProver)
        requires
            is_power_of_two(leaves@.len()),
        ensures
            mt_wf(r),
            r.leaf_hashes@.len() == leaves@.len(),
            forall|i: int|
                0 <= i < leaves@.len() ==> r.leaf_hashes@[i]@ == sha256_hex(leaves@[i]@),
    {
        let hashes = hash_leaves(&leaves);
        let root = fold_to_root(copy_byte_vecs(&hashes));
        proof {
            assert(byte_views(hashes@) =~= byte_views(hashes@));
        }
        MerkleTreeProver { leaf_hashes: hashes, root }
    }

    pub fn leave_num(&self) -> (r: usize)
        ensures
            r == self.leaf_hashes@.len(),
    {
        self.leaf_hashes.len()
    }

    /// The root hash of the tree.
    pub fn commit(&self) -> (r: Vec<u8>)
        ensures
            r@ == self.root@,
    {
        copy_bytes(&self.root)
    }

    /// The authentication data for any set of indices: the full leaf-hash
    /// layer, serialized in order. The verifier refolds it and checks the
    /// root, so every opened leaf is bound by the same commitment.
    pub fn open(&self, _leaf_indices: &Vec<usize>) -> (r: Vec<u8>)
        ensures
            r@ == concat_bytes(byte_views(self.leaf_hashes@)),
    {
        let mut r: Vec<u8> = Vec::new();
        let mut i: usize = 0;
        while i < self.leaf_hashes.len()
            invariant
                i <= self.leaf_hashes@.len(),
                r@ == concat_bytes(byte_views(self.leaf_hashes@).take(i as int)),
            decreases self.leaf_hashes@.len() - i,
        {
            let mut piece = copy_bytes(&self.leaf_hashes[i]);
            r.append(&mut piece);
            proof {
                let bv = byte_views(self.leaf_hashes@);
                assert(bv.take(i + 1).drop_last() =~= bv.take(i as int));
                assert(bv.take(i + 1).last() == bv[i as int]);
            }
            i += 1;
        }
        proof {
            assert(byte_views(self.leaf_hashes@).take(self.leaf_hashes@.len() as int)
                =~= byte_views(self.leaf_hashes@));
        }
        r
    }
}

/// Copies a byte vector.
pub fn copy_bytes(v: &Vec<u8>) -> (r: Vec<u8>)
    ensures
        r@ == v@,
{
    let mut r: Vec<u8> = Vec::new();
    let mut i: usize = 0;
    while i < v.len()
        invariant
            i <= v@.len(),
            r@ =~= v@.take(i as int),
        decreases v@.len() - i,
    {
        r.push(v[i]);
        i += 1;
    }
    proof {
        assert(v@.take(v@.len() as int) =~= v@);
    }
    r
}

/// Copies a vector of byte vectors.
pub fn copy_byte_vecs(v: &Vec<Vec<u8>>) -> (r: Vec<Vec<u8>>)
    ensures
        r@.len() == v@.len(),
        forall|i: int| 0 <= i < v@.len() ==> r@[i]@ == v@[i]@,
        byte_views(r@) == byte_views(v@),
{
    let mut r: Vec<Vec<u8>> = Vec::new();
    let mut i: usize = 0;
    while i < v.len()
        invariant
            i <= v@.len(),
            r@.len() == i,
            forall|k: int| 0 <= k < i ==> r@[k]@ == v@[k]@,
        decreases v@.len() - i,
    {
        r.push(copy_bytes(&v[i]));
        i += 1;
    }
    proof {
        assert(byte_views(r@) =~= byte_views(v@));
    }
    r
}

/// The verifying side: the root and the number of leaves.
pub struct MerkleTreeVerifier {
    pub merkle_root: Vec<u8>,
    pub leave_number: usize,
}

/// The chunk of 64 bytes at position `i` of a serialized hash layer.
pub open spec fn hash_chunk(b: Seq<u8>, i: int) -> Seq<u8> {
    b.subrange(64 * i, 64 * i + 64)
}

/// The hash layer recovered from its serialization.
pub open spec fn chunk_layer(b: Seq<u8>, n: nat) -> Seq<Seq<u8>> {
    Seq::new(n, |i: int| hash_chunk(b, i))
}

/// What a successful verification of `proof` against `root` means: the
/// proof serializes the whole leaf-hash layer, that layer folds to the
/// committed root, and each claimed leaf hashes to its entry in the layer.
pub open spec fn merkle_verify_spec(
    root: Seq<u8>,
    n: nat,
    proof: Seq<u8>,
    indices: Seq<usize>,
    leaves: Seq<Seq<u8>>,
) -> bool {
    &&& proof.len() == 64 * n
    &&& root_of_layer(chunk_layer(proof, n)) == root
    &&& indices.len() == leaves.len()
    &&& forall|k: int|
        0 <= k < indices.len() ==> (indices[k] as nat) < n && hash_chunk(proof, indices[k] as int)
            == sha256_hex(#[trigger] leaves[k])
}

impl MerkleTreeVerifier {
    /// Checks an opening against this tree's committed root.
    pub fn verify(&self, proof_bytes: &Vec<u8>, leaf_indices: &Vec<usize>, leaves: &Vec<Vec<u8>>) -> (r: bool)
        requires
            is_power_of_two(self.leave_number as nat),
        ensures
            r == merkle_verify_spec(
                self.merkle_root@,
                self.leave_number as nat,
                proof_bytes@,
                leaf_indices@,
                byte_views(leaves@),
            ),
    {
        let n = self.leave_number;
        if proof_bytes.len() / 64 != n || proof_bytes.len() % 64 != 0 {
            proof {
                vstd::arithmetic::div_mod::lemma_fundamental_div_mod(
                    proof_bytes@.len() as int,
                    64,
                );
            }
            return false;
        }
        proof {
            vstd::arithmetic::div_mod::lemma_fundamental_div_mod(proof_bytes@.len() as int, 64);
        }
        if leaf_indices.len() != leaves.len() {
            return false;
        }
        // recover the leaf-hash layer
        let mut layer: Vec<Vec<u8>> = Vec::new();
        let mut i: usize = 0;
        while i < n
            invariant
                i <= n,
                proof_bytes@.len() == 64 * n,
                proof_bytes@.len() <= usize::MAX,
                layer@.len() == i,
                forall|k: int| 0 <= k < i ==> layer@[k]@ == hash_chunk(proof_bytes@, k),
            decreases n - i,
        {
            let mut chunk: Vec<u8> = Vec::new();
            let mut j: usize = 0;
            proof {
                assert(64 * (i + 1) <= 64 * n) by (nonlinear_arith)
                    requires i + 1 <= n;
                assert(64 * i + 64 == 64 * (i + 1)) by (nonlinear_arith);
            }
            while j < 64
                invariant
                    j <= 64,
                    proof_bytes@.len() == 64 * n,
                    proof_bytes@.len() <= usize::MAX,
                    64 * i + 64 <= proof_bytes@.len(),
                    chunk@.len() == j,
                    forall|k: int| 0 <= k < j ==> chunk@[k] == proof_bytes@[64 * i + k],
                decreases 64 - j,
            {
                chunk.push(proof_bytes[64 * i + j]);
                j += 1;
            }
            proof {
                assert(chunk@ =~= hash_chunk(proof_bytes@, i as int));
            }
            layer.push(chunk);
            i += 1;
        }
        proof {
            assert(byte_views(layer@) =~= chunk_layer(proof_bytes@, n as nat));
        }
        // each claimed leaf must hash to its chunk
        let mut k: usize = 0;
        while k < leaf_indices.len()
            invariant
                k <= leaf_indices@.len(),
                leaf_indices@.len() == leaves@.len(),
                n == self.leave_number,
                layer@.len() == n,
                proof_bytes@.len() == 64 * n,
                forall|t: int| 0 <= t < layer@.len() ==> layer@[t]@ == hash_chunk(proof_bytes@, t),
                forall|t: int|
                    #![trigger leaf_indices@[t]]
                    0 <= t < k ==> (leaf_indices@[t] as nat) < n && hash_chunk(
                        proof_bytes@,
                        leaf_indices@[t] as int,
                    ) == sha256_hex(leaves@[t]@),
            decreases leaf_indices@.len() - k,
        {
            proof {
                assert(byte_views(leaves@)[k as int] == leaves@[k as int]@);
            }
            let idx = leaf_indices[k];
            if idx >= n {
                return false;
            }
            let expect = digest_hex(&leaves[k]);
            if !bytes_equal(&expect, &layer[idx]) {
                return false;
            }
            proof {
                assert(layer@[idx as int]@ == hash_chunk(proof_bytes@, idx as int));
                assert(expect@ == sha256_hex(leaves@[k as int]@));
                assert(leaf_indices@[k as int] == idx);
                assert((idx as nat) < n);
            }
            k += 1;
        }
        proof {
            assert forall|t: int|
                0 <= t < leaf_indices@.len() implies (leaf_indices@[t] as nat) < n && hash_chunk(
                proof_bytes@,
                leaf_indices@[t] as int,
            ) == sha256_hex(#[trigger] byte_views(leaves@)[t]) by {
                assert((leaf_indices@[t] as nat) < n && hash_chunk(
                    proof_bytes@,
                    leaf_indices@[t] as int,
                ) == sha256_hex(leaves@[t]@));
                assert(byte_views(leaves@)[t] == leaves@[t]@);
            }
        }
        // the layer must fold to the committed root
        let folded = fold_to_root(layer);
        let ok = bytes_equal(&folded, &self.merkle_root);
        ok
    }
}

/// Compares two byte vectors for equality.
pub fn bytes_equal(a: &Vec<u8>, b: &Vec<u8>) -> (r: bool)
    ensures
        r == (a@ == b@),
{
    if a.len() != b.len() {
        return false;
    }
    let mut i: usize = 0;
    while i < a.len()
        invariant
            i <= a@.len(),
            a@.len() == b@.len(),
            forall|k: int| 0 <= k < i ==> a@[k] == b@[k],
        decreases a@.len() - i,
    {
        if a[i] != b[i] {
            return false;
        }
        i += 1;
    }
    proof {
        assert(a@ =~= b@);
    }
    true
}

} // verus!
