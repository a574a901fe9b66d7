//! Thinning a live chart series to the points worth drawing: the first and
//! last point, and for each bucket of the points between them its lowest
//! and highest (the comparison of values is left to the caller).
use vstd::prelude::*;

verus! {

/// Which points of a series of `len` points to draw for at most
/// `max_points` on screen.
#[derive(Debug, PartialEq, Eq)]
pub enum ChartPlan {
    /// Draw nothing.
    Nothing,
    /// Draw every point.
    Every,
    /// Draw the first and the last point, and the extremes of each bucket
    /// `[start, end)` of the points between.
    Buckets(Vec<(usize, usize)>),
}

/// Buckets for the points between the first and the last: half the budget
/// left after the two ends (at least one).
pub open spec fn bucket_count(max_points: int) -> int {
    if (max_points - 2) / 2 < 1 {
        1
    } else {
        (max_points - 2) / 2
    }
}

/// Points per bucket: the points between the ends shared over the buckets,
/// rounded up.
pub open spec fn bucket_size(len: int, max_points: int) -> int {
    let interior = len - 2;
    let count = bucket_count(max_points);
    interior / count + if interior % count == 0 {
        0int
    } else {
        1int
    }
}

/// The buckets cover the points between the first and the last, in order,
/// each `bucket_size` long but the last, which may be shorter.
pub open spec fn buckets_cover(b: Seq<(usize, usize)>, len: int, size: int) -> bool {
    &&& b.len() >= 1
    &&& b[0].0 == 1
    &&& b.last().1 == len - 1
    &&& forall|i: int| 0 <= i < b.len() ==> (#[trigger] b[i]).0 < b[i].1 && b[i].1 - b[i].0 <= size
    &&& forall|i: int| 0 <= i < b.len() - 1 ==> (#[trigger] b[i]).1 == b[i + 1].0 && b[i].1 - b[i].0 == size
}

proof fn lemma_bucket_size(interior: int, count: int)
    requires
        interior >= 1,
        count >= 1,
    ensures
        ({
            let s = interior / count + if interior % count == 0 {
                0int
            } else {
                1int
            };
            &&& s >= 1
            &&& s * count >= interior
            &&& s <= interior
        }),
{
    let q = interior / count;
    let r = interior % count;
    assert(interior == q * count + r && 0 <= r < count) by (nonlinear_arith)
        requires
            q == interior / count,
            r == interior % count,
            count >= 1,
    ;
    let s = q + if r == 0 {
        0int
    } else {
        1int
    };
    assert(s * count >= interior) by (nonlinear_arith)
        requires
            interior == q * count + r,
            0 <= r < count,
            s == q + if r == 0 {
                0int
            } else {
                1int
            },
    ;
    assert(s >= 1 && s <= interior) by (nonlinear_arith)
        requires
            interior == q * count + r,
            0 <= r < count,
            interior >= 1,
            count >= 1,
            q >= 0,
            s == q + if r == 0 {
                0int
            } else {
                1int
            },
    ;
}

/// Plans which points of a series to draw.
pub fn chart_plan(len: usize, max_points: usize) -> (r: ChartPlan)
    ensures
        (max_points == 0 || len == 0) ==> r == ChartPlan::Nothing,
        (max_points != 0 && len != 0 && (len <= max_points || max_points < 4)) ==> r == ChartPlan::Every,
        (max_points >= 4 && len > max_points) ==> (r matches ChartPlan::Buckets(b) && buckets_cover(
            b@,
            len as int,
            bucket_size(len as int, max_points as int),
        ) && 2 * b@.len() + 2 <= max_points),
{
    if max_points == 0 || len == 0 {
        return ChartPlan::Nothing;
    }
    if len <= max_points || max_points < 4 {
        return ChartPlan::Every;
    }
    let interior = len - 2;
    let count = if (max_points - 2) / 2 < 1 {
        1
    } else {
        (max_points - 2) / 2
    };
    proof {
        lemma_bucket_size(interior as int, count as int);
    }
    let size = interior / count + if interior % count == 0 {
        0
    } else {
        1
    };
    let mut buckets: Vec<(usize, usize)> = Vec::new();
    let mut start: usize = 1;
    assert(start == 1 + buckets@.len() * size) by (nonlinear_arith)
        requires
            buckets@.len() == 0,
            start == 1,
    ;
    while start < len - 1
        invariant
            len > max_points >= 4,
            interior == len - 2,
            count == bucket_count(max_points as int),
            size == bucket_size(len as int, max_points as int),
            size >= 1,
            size <= interior,
            size * count >= interior,
            start <= len - 1,
            start < len - 1 ==> start == 1 + buckets@.len() * size,
            buckets@.len() == 0 ==> start == 1,
            buckets@.len() > 0 ==> buckets@[0].0 == 1 && buckets@.last().1 == start,
            buckets@.len() > 0 ==> (buckets@.len() - 1) * size < interior,
            forall|i: int|
                0 <= i < buckets@.len() ==> (#[trigger] buckets@[i]).0 < buckets@[i].1 && buckets@[i].1
                    - buckets@[i].0 <= size && buckets@[i].0 < len - 1 && (buckets@[i].1 - buckets@[i].0
                    == size || buckets@[i].1 == len - 1),
            forall|i: int|
                0 <= i < buckets@.len() - 1 ==> (#[trigger] buckets@[i]).1 == buckets@[i + 1].0
                    && buckets@[i].1 - buckets@[i].0 == size,
        decreases len - start,
    {
        let end = if size < len - 1 - start {
            start + size
        } else {
            len - 1
        };
        let ghost before = buckets@;
        buckets.push((start, end));
        proof {
            assert(buckets@.len() - 1 == before.len());
            assert(before.len() * size < interior) by (nonlinear_arith)
                requires
                    start == 1 + before.len() * size,
                    start < len - 1,
                    interior == len - 2,
            ;
            if before.len() > 0 {
                assert(before.last().1 == start);
            }
        }
        if size < len - 1 - start {
            proof {
                assert(buckets@.len() * size == before.len() * size + size) by (nonlinear_arith)
                    requires
                        buckets@.len() == before.len() + 1,
                ;
            }
            start = start + size;
        } else {
            start = len - 1;
        }
    }
    proof {
        let n = buckets@.len();
        assert(n >= 1);
        assert(n - 1 < count) by (nonlinear_arith)
            requires
                (n - 1) * size < interior,
                size * count >= interior,
                size >= 1,
                n >= 1,
        ;
        assert(2 * count + 2 <= max_points);
    }
    ChartPlan::Buckets(buckets)
}

} // verus!
