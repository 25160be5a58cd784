//! Layout solver: the most-square rectangle with a given even area.

use crate::extras::factors_of;
use vstd::arithmetic::div_mod::{lemma_fundamental_div_mod, lemma_mod_multiples_basic};
use vstd::prelude::*;

verus! {

/// Grid dimensions for dealing `2 * n` cards: a pair `[rows, cols]` with
/// `rows <= cols`, `rows * cols == 2 * n`, and `cols - rows` minimal among
/// all factorizations of `2 * n`.  For `n == 0` there is no such rectangle
/// and the degenerate `[0, 0]` is returned.
pub fn squarest_rect_with_even_area(n: u32) -> (r: [u32; 2])
    requires
        2 * n <= u32::MAX,
    ensures
        n == 0 ==> r@ =~= seq![0u32, 0u32],
        n >= 1 ==> r[0] * r[1] == 2 * n,
        n >= 1 ==> 1 <= r[0] <= r[1],
        n >= 1 ==> forall|a: u32, b: u32|
            #[trigger] (a * b) == 2 * n && a <= b ==> r[1] - r[0] <= b - a,
{
    let area: u32 = 2 * n;
    let factors = factors_of(area);

    if factors.is_empty() {
        proof {
            if n >= 1 {
                assert(area % 1 == 0);
                assert(factors@.contains(1u32));
            }
        }
        return [0, 0];
    }

    // The largest divisor whose square does not exceed the area; together
    // with its cofactor it is the most-square factorization.
    let mut best: u32 = 0;
    let mut i: usize = 0;
    while i < factors.len()
        invariant
            0 <= i <= factors@.len(),
            forall|k: int| 0 <= k < factors@.len() ==> 1 <= #[trigger] factors@[k] <= area
                && area % factors@[k] == 0,
            best == 0 || (1 <= best <= area && area % best == 0 && best * best <= area),
            forall|k: int| 0 <= k < i && #[trigger] (factors@[k] * factors@[k]) <= area
                ==> factors@[k] <= best,
        decreases factors@.len() - i,
    {
        let f: u32 = factors[i];
        proof {
            assert(f <= area);
            assert((f as u64) * (f as u64) < u64::MAX) by (nonlinear_arith)
                requires
                    f <= u32::MAX,
            ;
        }
        if (f as u64) * (f as u64) <= area as u64 {
            if f > best {
                best = f;
            }
        }
        i = i + 1;
    }

    proof {
        if area == 0 {
            assert(1 <= factors@[0] <= area);
            assert(false);
        }
        assert(area % 1 == 0);
        assert(factors@.contains(1u32));
        let j = choose|j: int| 0 <= j < factors@.len() && factors@[j] == 1u32;
        assert(factors@[j] * factors@[j] <= area);
        assert(best >= 1);
    }
    let q: u32 = area / best;
    proof {
        lemma_fundamental_div_mod(area as int, best as int);
        assert(best * q == area);
        assert(best <= q) by (nonlinear_arith)
            requires
                best * q == area,
                best * best <= area,
                best >= 1,
                q >= 0,
        ;
        assert forall|a: u32, b: u32| #[trigger] (a * b) == area && a <= b implies q - best <= b
            - a by {
            assert(a >= 1 && b >= 1) by (nonlinear_arith)
                requires
                    a * b == area,
                    area >= 1,
            ;
            lemma_mod_multiples_basic(b as int, a as int);
            assert(area % a == 0) by {
                assert(a as int * b as int == b as int * a as int);
            }
            assert(a * a <= area) by (nonlinear_arith)
                requires
                    a * b == area,
                    a <= b,
                    a >= 1,
            ;
            assert(a <= area) by (nonlinear_arith)
                requires
                    a * b == area,
                    b >= 1,
                    a >= 1,
            ;
            assert(factors@.contains(a));
            let k = choose|k: int| 0 <= k < factors@.len() && factors@[k] == a;
            assert(factors@[k] * factors@[k] <= area);
            assert(a <= best);
            assert(b >= q) by (nonlinear_arith)
                requires
                    a * b == area,
                    best * q == area,
                    1 <= a <= best,
                    q >= 0,
            ;
        }
    }
    [best, q]
}

} // verus!
