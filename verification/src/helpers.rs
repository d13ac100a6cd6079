//! The three-point vertex sort used by the triangle rasterizer.

use vstd::prelude::*;
use vstd::multiset::Multiset;

verus! {

/// Three compare-and-swap steps on `(x, y)` pairs keyed by `y`; equal keys
/// keep their order, so the sort is stable and idempotent.
pub open spec fn sort3_s(x0: int, y0: int, x1: int, y1: int, x2: int, y2: int) -> (
    int,
    int,
    int,
    int,
    int,
    int,
) {
    let (ax0, ay0, ax1, ay1) = if y0 > y1 {
        (x1, y1, x0, y0)
    } else {
        (x0, y0, x1, y1)
    };
    let (bx1, by1, bx2, by2) = if ay1 > y2 {
        (x2, y2, ax1, ay1)
    } else {
        (ax1, ay1, x2, y2)
    };
    let (cx0, cy0, cx1, cy1) = if ay0 > by1 {
        (bx1, by1, ax0, ay0)
    } else {
        (ax0, ay0, bx1, by1)
    };
    (cx0, cy0, cx1, cy1, bx2, by2)
}

/// The multiset of the three `(x, y)` pairs.
pub open spec fn pairs3(x0: int, y0: int, x1: int, y1: int, x2: int, y2: int) -> Multiset<
    (int, int),
> {
    Multiset::empty().insert((x0, y0)).insert((x1, y1)).insert((x2, y2))
}

/// Sort vertices by ascending y-coordinate (`y0 <= y1 <= y2`).
pub fn sort_vertices(
    x0: &mut i32,
    y0: &mut i32,
    x1: &mut i32,
    y1: &mut i32,
    x2: &mut i32,
    y2: &mut i32,
)
    ensures
        (
            *final(x0) as int,
            *final(y0) as int,
            *final(x1) as int,
            *final(y1) as int,
            *final(x2) as int,
            *final(y2) as int,
        ) == sort3_s(
            *old(x0) as int,
            *old(y0) as int,
            *old(x1) as int,
            *old(y1) as int,
            *old(x2) as int,
            *old(y2) as int,
        ),
        *final(y0) <= *final(y1) <= *final(y2),
{
    proof {
        lemma_sort3_sorted(
            *x0 as int,
            *y0 as int,
            *x1 as int,
            *y1 as int,
            *x2 as int,
            *y2 as int,
        );
    }
    if *y0 > *y1 {
        let tx: i32 = *x0;
        let ty: i32 = *y0;
        *x0 = *x1;
        *y0 = *y1;
        *x1 = tx;
        *y1 = ty;
    }
    if *y1 > *y2 {
        let tx: i32 = *x1;
        let ty: i32 = *y1;
        *x1 = *x2;
        *y1 = *y2;
        *x2 = tx;
        *y2 = ty;
    }
    if *y0 > *y1 {
        let tx: i32 = *x0;
        let ty: i32 = *y0;
        *x0 = *x1;
        *y0 = *y1;
        *x1 = tx;
        *y1 = ty;
    }
}

/// The sorted triple has ascending y-keys.
pub proof fn lemma_sort3_sorted(x0: int, y0: int, x1: int, y1: int, x2: int, y2: int)
    ensures
        ({
            let (rx0, ry0, rx1, ry1, rx2, ry2) = sort3_s(x0, y0, x1, y1, x2, y2);
            ry0 <= ry1 <= ry2
        }),
{
}

/// Sorting is idempotent: a second application returns its input unchanged.
pub proof fn lemma_sort3_idempotent(x0: int, y0: int, x1: int, y1: int, x2: int, y2: int)
    ensures
        ({
            let (rx0, ry0, rx1, ry1, rx2, ry2) = sort3_s(x0, y0, x1, y1, x2, y2);
            sort3_s(rx0, ry0, rx1, ry1, rx2, ry2) == (rx0, ry0, rx1, ry1, rx2, ry2)
        }),
{
}

/// Sorting permutes the vertices: the multiset of `(x, y)` pairs is kept.
pub proof fn lemma_sort3_permutes(x0: int, y0: int, x1: int, y1: int, x2: int, y2: int)
    ensures
        ({
            let (rx0, ry0, rx1, ry1, rx2, ry2) = sort3_s(x0, y0, x1, y1, x2, y2);
            pairs3(rx0, ry0, rx1, ry1, rx2, ry2) =~= pairs3(x0, y0, x1, y1, x2, y2)
        }),
{
}

} // verus!
