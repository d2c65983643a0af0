//! SeedSampler: picks well-separated seed points by greedy farthest-point
//! selection, an approximation of Poisson-disc sampling.

use vstd::prelude::*;
use crate::map::Position;
use crate::map::spec_square_distance;
use crate::rng::RandomSource;

verus! {

/// Smallest squared distance from `p` to any point of `chosen`.
/// Unused on an empty sequence.
pub open spec fn spec_min_sqdist(p: Position, chosen: Seq<Position>) -> int
    decreases chosen.len(),
{
    if chosen.len() <= 1 {
        spec_square_distance(p, chosen[0])
    } else {
        let rest = spec_min_sqdist(p, chosen.drop_last());
        let last = spec_square_distance(p, chosen.last());
        if last < rest {
            last
        } else {
            rest
        }
    }
}

/// Index of the first candidate whose smallest squared distance to the
/// chosen points is largest.
pub open spec fn spec_first_max_idx(pool: Seq<Position>, chosen: Seq<Position>) -> int
    decreases pool.len(),
{
    if pool.len() <= 1 {
        0
    } else {
        let r = spec_first_max_idx(pool.drop_last(), chosen);
        if spec_min_sqdist(pool.last(), chosen) > spec_min_sqdist(pool[r], chosen) {
            pool.len() - 1
        } else {
            r
        }
    }
}

/// The greedy farthest-point selection itself: `count` times, move the
/// first maximally distant candidate from the pool to the chosen points.
pub open spec fn spec_farthest_points(
    pool: Seq<Position>,
    chosen: Seq<Position>,
    count: nat,
) -> Seq<Position>
    decreases count,
{
    if count == 0 {
        chosen
    } else {
        let k = spec_first_max_idx(pool, chosen);
        spec_farthest_points(pool.remove(k), chosen.push(pool[k]), (count - 1) as nat)
    }
}

proof fn lemma_first_max_idx_bounds(pool: Seq<Position>, chosen: Seq<Position>)
    requires
        pool.len() > 0,
    ensures
        0 <= spec_first_max_idx(pool, chosen) < pool.len(),
    decreases pool.len(),
{
    if pool.len() > 1 {
        lemma_first_max_idx_bounds(pool.drop_last(), chosen);
    }
}

/// Greedy farthest-point selection: starting from the last candidate, moves
/// `count` further candidates over, each time the one whose smallest squared
/// distance to the points already chosen is largest (first such on ties).
/// Later choices are thereby pulled toward empty regions.
pub fn farthest_point_selection(candidates: &Vec<Position>, count: usize) -> (r: Vec<Position>)
    requires
        count + 1 <= candidates@.len(),
        forall|i: int|
            0 <= i < candidates@.len() ==> 0 <= (#[trigger] candidates@[i]).x <= 4096 && 0
                <= candidates@[i].y <= 4096,
    ensures
        r@ == spec_farthest_points(candidates@.drop_last(), seq![candidates@.last()], count as nat),
        r@.len() == count + 1,
        r@[0] == candidates@.last(),
        forall|k: int| 0 <= k < r@.len() ==> candidates@.contains(#[trigger] r@[k]),
        forall|k: int| 1 <= k < r@.len() ==> candidates@.drop_last().contains(#[trigger] r@[k]),
    {
    let mut pool: Vec<Position> = Vec::new();
    let n: usize = candidates.len();
    let mut ci: usize = 0;
    while ci < n - 1
        invariant
            n == candidates@.len(),
            n >= 1,
            ci <= n - 1,
            pool@ =~= candidates@.subrange(0, ci as int),
        decreases n - ci,
    {
        pool.push(candidates[ci]);
        ci = ci + 1;
    }
    let first: Position = candidates[n - 1];
    proof {
        assert(candidates@.last() == first);
        assert(pool@ =~= candidates@.drop_last());
    }

    let ghost pool0 = pool@;
    let mut result: Vec<Position> = Vec::new();
    result.push(first);

    let mut distances: Vec<u64> = Vec::new();
    let mut i: usize = 0;
    while i < pool.len()
        invariant
            pool@ =~= candidates@.drop_last(),
            n == candidates@.len(),
            n >= 1,
            result@ =~= seq![first],
            i <= pool@.len(),
            distances@.len() == i,
            forall|j: int|
                0 <= j < pool@.len() ==> 0 <= (#[trigger] pool@[j]).x <= 4096 && 0 <= pool@[j].y
                    <= 4096,
            0 <= first.x <= 4096 && 0 <= first.y <= 4096,
            forall|j: int|
                0 <= j < i ==> distances@[j] == spec_min_sqdist(pool@[j], result@),
        decreases pool@.len() - i,
    {
        let d = pool[i].square_distance(&first);
        proof {
            assert(spec_min_sqdist(pool@[i as int], result@) == spec_square_distance(
                pool@[i as int],
                first,
            ));
        }
        distances.push(d);
        i = i + 1;
    }

    let mut step: usize = 0;
    while step < count
        invariant
            n == candidates@.len(),
            pool0 == candidates@.drop_last(),
            spec_farthest_points(pool@, result@, (count - step) as nat) == spec_farthest_points(
                pool0,
                seq![first],
                count as nat,
            ),
            first == candidates@.last(),
            step <= count,
            count + 1 <= n,
            result@.len() == step + 1,
            result@[0] == candidates@.last(),
            pool@.len() == n - 1 - step,
            distances@.len() == pool@.len(),
            forall|j: int|
                0 <= j < pool@.len() ==> 0 <= (#[trigger] pool@[j]).x <= 4096 && 0 <= pool@[j].y
                    <= 4096,
            forall|j: int|
                0 <= j < result@.len() ==> 0 <= (#[trigger] result@[j]).x <= 4096 && 0
                    <= result@[j].y <= 4096,
            forall|j: int|
                0 <= j < pool@.len() ==> candidates@.drop_last().contains(#[trigger] pool@[j]),
            forall|k: int| 0 <= k < result@.len() ==> candidates@.contains(#[trigger] result@[k]),
            forall|k: int|
                1 <= k < result@.len() ==> candidates@.drop_last().contains(#[trigger] result@[k]),
            forall|j: int|
                0 <= j < distances@.len() ==> distances@[j] == spec_min_sqdist(
                    pool@[j],
                    result@,
                ),
        decreases count - step,
    {
        let mut pick: usize = 0;
        let mut best: u64 = distances[0];
        let mut scan: usize = 1;
        while scan < distances.len()
            invariant
                distances@.len() == pool@.len(),
                pool@.len() >= 1,
                scan <= distances@.len(),
                pick < scan,
                best == distances@[pick as int],
                forall|j: int| 0 <= j < scan ==> distances@[j] <= best,
                forall|j: int|
                    0 <= j < distances@.len() ==> distances@[j] == spec_min_sqdist(
                        pool@[j],
                        result@,
                    ),
                pick as int == spec_first_max_idx(pool@.take(scan as int), result@),
            decreases distances@.len() - scan,
        {
            proof {
                assert(pool@.take(scan + 1).drop_last() =~= pool@.take(scan as int));
                assert(pool@.take(scan + 1).last() == pool@[scan as int]);
            }
            if distances[scan] > best {
                pick = scan;
                best = distances[scan];
            }
            scan = scan + 1;
        }
        proof {
            assert(pool@.take(pool@.len() as int) =~= pool@);
            lemma_first_max_idx_bounds(pool@, result@);
        }

        let ghost pool_before = pool@;
        let ghost dist_before = distances@;
        let ghost res_before = result@;
        let chosen: Position = pool.remove(pick);
        let _ = distances.remove(pick);
        result.push(chosen);

        proof {
            assert(spec_farthest_points(pool_before, res_before, (count - step) as nat)
                == spec_farthest_points(
                pool_before.remove(pick as int),
                res_before.push(pool_before[pick as int]),
                (count - step - 1) as nat,
            ));
            assert(pool@ == pool_before.remove(pick as int));
            assert(result@ == res_before.push(chosen));
            assert(result@.drop_last() =~= res_before);
            assert(candidates@.drop_last().contains(chosen)) by {
                assert(pool_before[pick as int] == chosen);
            }
            assert(candidates@.contains(chosen)) by {
                let j = choose|j: int|
                    0 <= j < candidates@.drop_last().len() && candidates@.drop_last()[j] == chosen;
                assert(candidates@[j] == chosen);
            }
            assert forall|j: int| 0 <= j < pool@.len() implies (0 <= (#[trigger] pool@[j]).x
                <= 4096 && 0 <= pool@[j].y <= 4096 && candidates@.drop_last().contains(pool@[j])
                && distances@[j] == spec_min_sqdist(pool@[j], res_before)) by {
                if j < pick {
                    assert(pool@[j] == pool_before[j]);
                    assert(distances@[j] == dist_before[j]);
                } else {
                    assert(pool@[j] == pool_before[j + 1]);
                    assert(distances@[j] == dist_before[j + 1]);
                }
            }
        }

        let mut u: usize = 0;
        while u < pool.len()
            invariant
                u <= pool@.len(),
                distances@.len() == pool@.len(),
                result@.len() >= 2,
                result@.last() == chosen,
                forall|j: int|
                    0 <= j < pool@.len() ==> 0 <= (#[trigger] pool@[j]).x <= 4096 && 0
                        <= pool@[j].y <= 4096,
                0 <= chosen.x <= 4096 && 0 <= chosen.y <= 4096,
                forall|j: int|
                    0 <= j < u ==> distances@[j] == spec_min_sqdist(pool@[j], result@),
                forall|j: int|
                    u <= j < pool@.len() ==> distances@[j] == spec_min_sqdist(
                        pool@[j],
                        result@.drop_last(),
                    ),
            decreases pool@.len() - u,
        {
            let d = pool[u].square_distance(&chosen);
            proof {
                assert(spec_min_sqdist(pool@[u as int], result@) == (if spec_square_distance(
                    pool@[u as int],
                    result@.last(),
                ) < spec_min_sqdist(pool@[u as int], result@.drop_last()) {
                    spec_square_distance(pool@[u as int], result@.last())
                } else {
                    spec_min_sqdist(pool@[u as int], result@.drop_last())
                }));
            }
            if d < distances[u] {
                distances.set(u, d);
            }
            u = u + 1;
        }

        step = step + 1;
    }
    proof {
        assert(result@ == spec_farthest_points(pool@, result@, 0nat));
        assert(result@ == spec_farthest_points(pool0, seq![first], count as nat));
    }
    result
}

/// Draws three candidates per requested point uniformly over the grid and
/// keeps `count + 1` of them by farthest-point selection.
pub fn poisson_sample_points(
    rng: &mut RandomSource,
    width: i32,
    height: i32,
    count: usize,
) -> (r: Vec<Position>)
    requires
        1 <= count <= 1000,
        0 < width <= 4096,
        0 < height <= 4096,
    ensures
        r@.len() == count + 1,
        forall|k: int|
            0 <= k < r@.len() ==> 0 <= (#[trigger] r@[k]).x < width && 0 <= r@[k].y < height,
{
    let total: usize = count * 3;
    let mut candidates: Vec<Position> = Vec::new();
    let mut i: usize = 0;
    while i < total
        invariant
            i <= total,
            candidates@.len() == i,
            0 < width <= 4096,
            0 < height <= 4096,
            forall|k: int|
                0 <= k < candidates@.len() ==> 0 <= (#[trigger] candidates@[k]).x < width && 0
                    <= candidates@[k].y < height,
        decreases total - i,
    {
        let x = rng.range(0, width);
        let y = rng.range(0, height);
        candidates.push(Position { x, y });
        i = i + 1;
    }
    let r = farthest_point_selection(&candidates, count);
    proof {
        assert forall|k: int| 0 <= k < r@.len() implies 0 <= (#[trigger] r@[k]).x < width && 0
            <= r@[k].y < height by {
            assert(candidates@.contains(r@[k]));
            let j = choose|j: int| 0 <= j < candidates@.len() && candidates@[j] == r@[k];
            assert(candidates@[j] == r@[k]);
        }
    }
    r
}

} // verus!
