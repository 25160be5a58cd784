//! Divisor enumeration used by the board layout solver.

use vstd::prelude::*;

verus! {

/// All divisors of `n` in `[1, n]`, in strictly ascending order.
///
/// The three clauses pin the result completely: every element is a divisor,
/// the elements are strictly increasing, and every divisor occurs.
pub fn factors_of(n: u32) -> (r: Vec<u32>)
    ensures
        forall|i: int| 0 <= i < r@.len() ==> 1 <= #[trigger] r@[i] <= n && n % r@[i] == 0,
        forall|i: int, j: int| 0 <= i < j < r@.len() ==> r@[i] < r@[j],
        forall|d: u32| 1 <= d <= n && n % d == 0 ==> r@.contains(d),
{
    let mut r: Vec<u32> = Vec::new();
    let mut x: u64 = 1;
    while x <= n as u64
        invariant
            1 <= x <= n as int + 1,
            forall|i: int| 0 <= i < r@.len() ==> 1 <= #[trigger] r@[i] < x && n % r@[i] == 0,
            forall|i: int, j: int| 0 <= i < j < r@.len() ==> r@[i] < r@[j],
            forall|d: u32| 1 <= d < x && n % d == 0 ==> r@.contains(d),
        decreases n as int + 1 - x,
    {
        let d: u32 = x as u32;
        if n % d == 0 {
            let ghost prev = r@;
            r.push(d);
            proof {
                assert forall|e: u32| 1 <= e < x + 1 && n % e == 0 implies r@.contains(e) by {
                    if e == d {
                        assert(r@[r@.len() - 1] == e);
                    } else {
                        assert(prev.contains(e));
                        let i = choose|i: int| 0 <= i < prev.len() && prev[i] == e;
                        assert(r@[i] == e);
                    }
                }
            }
        }
        x = x + 1;
    }
    r
}

} // verus!
