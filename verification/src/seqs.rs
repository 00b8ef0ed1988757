//! Small helpers on vectors.

use vstd::prelude::*;

verus! {

/// The elements of `v` in the opposite order.
pub fn reversed<T>(v: Vec<T>) -> (r: Vec<T>)
    ensures
        r@ == v@.reverse(),
{
    let mut v = v;
    let ghost all = v@;
    let mut r: Vec<T> = Vec::new();
    while v.len() > 0
        invariant
            v@ == all.take(v.len() as int),
            r@ == all.reverse().take(all.len() - v.len()),
            v.len() <= all.len(),
        decreases v.len(),
    {
        let ghost n = v.len();
        let x = v.pop().unwrap();
        r.push(x);
        proof {
            assert(x == all[n - 1]);
            assert(all.reverse()[all.len() - n] == all[n - 1]);
            assert(v@ =~= all.take(n - 1));
            assert(r@ =~= all.reverse().take(all.len() - n + 1));
        }
    }
    assert(r@ =~= all.reverse());
    r
}

} // verus!
