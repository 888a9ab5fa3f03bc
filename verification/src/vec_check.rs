use vstd::prelude::*;

verus! {

/// Reports whether the element `a` occurs in the vector `b`.
pub fn is_invector(a: usize, b: &Vec<usize>) -> (r: bool)
    ensures
        r == b@.contains(a),
{
    let mut i: usize = 0;
    while i < b.len()
        invariant
            i <= b@.len(),
            forall|k: int| 0 <= k < i ==> b@[k] != a,
        decreases b@.len() - i,
    {
        if b[i] == a {
            return true;
        }
        i += 1;
    }
    false
}

/// Reports whether every element of `a` also occurs in `b`.
pub fn is_subset(a: &Vec<usize>, b: &Vec<usize>) -> (r: bool)
    ensures
        r == a@.to_set().subset_of(b@.to_set()),
{
    let mut i: usize = 0;
    while i < a.len()
        invariant
            i <= a@.len(),
            forall|k: int| 0 <= k < i ==> b@.contains(#[trigger] a@[k]),
        decreases a@.len() - i,
    {
        if !is_invector(a[i], b) {
            assert(a@.to_set().contains(a@[i as int]));
            return false;
        }
        i += 1;
    }
    assert forall|x: usize| a@.to_set().contains(x) implies b@.to_set().contains(x) by {
        let k = choose|k: int| 0 <= k < a@.len() && a@[k] == x;
        assert(b@.contains(a@[k]));
    }
    true
}

/// Reports whether `a` and `b` hold the same set of identifiers,
/// ignoring order and duplicates.
pub fn is_equal(a: &Vec<usize>, b: &Vec<usize>) -> (r: bool)
    ensures
        r == (a@.to_set() == b@.to_set()),
{
    let ab = is_subset(a, b);
    let ba = is_subset(b, a);
    if ab && ba {
        assert(a@.to_set() =~= b@.to_set());
        true
    } else {
        false
    }
}

/// Copies a vector of identifiers.
pub fn copy_usizes(v: &Vec<usize>) -> (r: Vec<usize>)
    ensures
        r@ == v@,
{
    let mut r: Vec<usize> = Vec::new();
    let mut i: usize = 0;
    while i < v.len()
        invariant
            i <= v@.len(),
            r@ =~= v@.take(i as int),
        decreases v@.len() - i,
    {
        r.push(v[i]);
        i += 1;
    }
    proof {
        assert(v@.take(v@.len() as int) =~= v@);
    }
    r
}

} // verus!
