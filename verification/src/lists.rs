//! Copying lists of plain values.
use vstd::prelude::*;

verus! {

/// A copy of `v`, element by element.
pub fn copy_list<T: Copy>(v: &Vec<T>) -> (r: Vec<T>)
    ensures
        r@ == v@,
{
    let mut r: Vec<T> = Vec::new();
    let n = v.len();
    for i in 0..n
        invariant
            n == v@.len(),
            r@ == v@.subrange(0, i as int),
    {
        r.push(v[i]);
    }
    assert(r@ == v@);
    r
}

} // verus!
