//! Index grids.
use vstd::prelude::*;

verus! {

/// All index pairs `(i0, i1)` with `i0 < n0` and `i1 < n1`, row by row
/// (`i1` changes fastest).
pub fn get_usize_grid(n0: usize, n1: usize) -> (r: Vec<(usize, usize)>)
    requires
        n0 * n1 <= usize::MAX,
    ensures
        r@.len() == n0 * n1,
        forall|i0: int, i1: int| 0 <= i0 < n0 && 0 <= i1 < n1 ==> #[trigger] r@[i0 * n1 + i1] == (i0 as usize, i1 as usize),
{
    let mut r: Vec<(usize, usize)> = Vec::new();
    let mut i0: usize = 0;
    while i0 < n0
        invariant
            i0 <= n0,
            n0 * n1 <= usize::MAX,
            r@.len() == i0 * n1,
            forall|a: int, b: int| 0 <= a < i0 && 0 <= b < n1 ==> #[trigger] r@[a * n1 + b] == (a as usize, b as usize),
        decreases n0 - i0,
    {
        let mut i1: usize = 0;
        while i1 < n1
            invariant
                i0 < n0,
                i1 <= n1,
                n0 * n1 <= usize::MAX,
                r@.len() == i0 * n1 + i1,
                forall|a: int, b: int|
                    (0 <= a < i0 && 0 <= b < n1) || (a == i0 && 0 <= b < i1) ==> #[trigger] r@[a * n1 + b]
                        == (a as usize, b as usize),
            decreases n1 - i1,
        {
            proof {
                assert(i0 * n1 + i1 < n0 * n1) by (nonlinear_arith)
                    requires
                        i0 < n0,
                        i1 < n1,
                ;
            }
            r.push((i0, i1));
            proof {
                assert forall|a: int, b: int|
                    (0 <= a < i0 && 0 <= b < n1) || (a == i0 && 0 <= b < i1 + 1) implies #[trigger] r@[a
                    * n1 + b] == (a as usize, b as usize) by {
                    if a == i0 && b == i1 {
                    } else {
                        assert(a * n1 + b < i0 * n1 + i1) by (nonlinear_arith)
                            requires
                                (0 <= a < i0 && 0 <= b < n1) || (a == i0 && 0 <= b < i1),
                        ;
                    }
                }
            }
            i1 += 1;
        }
        proof {
            assert(i0 * n1 + n1 == (i0 + 1) * n1) by (nonlinear_arith);
        }
        i0 += 1;
    }
    r
}

/// The number of spatial dimensions.
pub const NUM_DIM: usize = 3;

/// The axis after `axis`, cycling through the spatial dimensions.
pub fn next_axis(axis: usize) -> (r: usize)
    requires
        axis < usize::MAX,
    ensures
        r == (axis + 1) % (NUM_DIM as int),
{
    (axis + 1) % NUM_DIM
}

/// The last of the items, where there is one.
pub fn last<T>(items: Vec<T>) -> (r: Option<T>)
    ensures
        items@.len() == 0 ==> r is None,
        items@.len() > 0 ==> r == Some(items@.last()),
{
    let mut items = items;
    items.pop()
}

} // verus!
