//! The landmark buffer's shape and how its lanes are dispatched between the
//! block (vector) path and the scalar path.

use vstd::prelude::*;

verus! {

/// Number of hand landmarks in a batch buffer.
pub const LANDMARKS: usize = 21;

/// Coordinates per landmark.
pub const COORDS: usize = 3;

/// Number of lanes: one per coordinate of each landmark.
pub const LANES: usize = 63;

/// Width of the block path: lanes handled by one vector step.
pub const BLOCK: usize = 8;

/// A buffer handed to the batch filter did not have `LANDMARKS` rows of
/// `COORDS` columns.
#[derive(Clone, Copy, Debug, PartialEq, Eq, Structural)]
pub struct ShapeError {
    pub expected_rows: usize,
    pub expected_cols: usize,
    pub rows: usize,
    pub cols: usize,
}

/// The error reported for a buffer of `rows` by `cols`.
pub open spec fn shape_error(rows: usize, cols: usize) -> ShapeError {
    ShapeError { expected_rows: LANDMARKS, expected_cols: COORDS, rows, cols }
}

/// Accepts exactly the landmark shape; any other shape names what was
/// expected and what was given.
pub fn check_shape(rows: usize, cols: usize) -> (r: Result<(), ShapeError>)
    ensures
        r is Ok <==> (rows == LANDMARKS && cols == COORDS),
        r matches Err(e) ==> e == shape_error(rows, cols),
{
    if rows == LANDMARKS && cols == COORDS {
        Ok(())
    } else {
        Err(ShapeError { expected_rows: LANDMARKS, expected_cols: COORDS, rows, cols })
    }
}

/// Which routine handles a run of lanes.
#[derive(Clone, Copy, Debug, PartialEq, Eq, Structural)]
pub enum Path {
    Block,
    Scalar,
}

/// A run of `len` lanes starting at `start`, all handled by `path`.
#[derive(Clone, Copy, Debug, PartialEq, Eq, Structural)]
pub struct Segment {
    pub start: usize,
    pub len: usize,
    pub path: Path,
}

pub open spec fn seg_end(s: Segment) -> int {
    s.start + s.len
}

pub open spec fn in_segment(s: Segment, lane: int) -> bool {
    s.start <= lane < seg_end(s)
}

/// The segments are non-empty, follow one another without gap or overlap,
/// and run from lane 0 to lane `n`.
pub open spec fn tiles(plan: Seq<Segment>, n: int) -> bool {
    &&& forall|k: int| 0 <= k < plan.len() ==> #[trigger] plan[k].len > 0
    &&& plan.len() == 0 ==> n == 0
    &&& plan.len() > 0 ==> plan[0].start == 0 && seg_end(plan.last()) == n
    &&& forall|k: int| 0 < k < plan.len() ==> #[trigger] plan[k].start == seg_end(plan[k - 1])
}

proof fn lemma_ends_before(plan: Seq<Segment>, n: int, j: int, k: int)
    requires
        tiles(plan, n),
        0 <= j < k < plan.len(),
    ensures
        seg_end(plan[j]) <= plan[k].start,
    decreases k - j,
{
    assert(plan[j + 1].start == seg_end(plan[j]));
    if j + 1 < k {
        assert(plan[j + 1].len > 0);
        lemma_ends_before(plan, n, j + 1, k);
    }
}

proof fn lemma_lane_found(plan: Seq<Segment>, n: int, lane: int, k: int)
    requires
        tiles(plan, n),
        0 <= k < plan.len(),
        plan[k].start <= lane < n,
    ensures
        exists|i: int| 0 <= i < plan.len() && #[trigger] in_segment(plan[i], lane),
    decreases plan.len() - k,
{
    if lane < seg_end(plan[k]) {
        assert(in_segment(plan[k], lane));
    } else {
        assert(plan[k + 1].start == seg_end(plan[k]));
        lemma_lane_found(plan, n, lane, k + 1);
    }
}

/// In a tiling of `n` lanes, every lane below `n` lies in exactly one run.
/// Whichever path a plan chooses, each lane is therefore filtered exactly
/// once per frame.
pub proof fn lemma_each_lane_once(plan: Seq<Segment>, n: int, lane: int)
    requires
        tiles(plan, n),
        0 <= lane < n,
    ensures
        exists|k: int| 0 <= k < plan.len() && #[trigger] in_segment(plan[k], lane),
        forall|j: int, k: int|
            0 <= j < plan.len() && 0 <= k < plan.len() && #[trigger] in_segment(plan[j], lane)
                && #[trigger] in_segment(plan[k], lane) ==> j == k,
{
    assert(plan[0].start == 0);
    lemma_lane_found(plan, n, lane, 0);
    assert forall|j: int, k: int|
        0 <= j < plan.len() && 0 <= k < plan.len() && #[trigger] in_segment(plan[j], lane)
            && #[trigger] in_segment(plan[k], lane) implies j == k by {
        if j < k {
            lemma_ends_before(plan, n, j, k);
        } else if k < j {
            lemma_ends_before(plan, n, k, j);
        }
    }
}

/// `s` is the `k`-th complete group of `width` lanes, on the block path.
pub open spec fn is_block_group(s: Segment, k: int, width: int) -> bool {
    s.start == k * width && s.len == width && s.path == Path::Block
}

/// Splits `lanes` lanes into runs. With the block path available, every
/// complete group of `width` lanes is one block run, in order, and the
/// remainder is one scalar run; without it, all lanes form one scalar run.
pub fn dispatch_plan(lanes: usize, width: usize, block_available: bool) -> (r: Vec<Segment>)
    requires
        width > 0,
    ensures
        tiles(r@, lanes as int),
        forall|k: int| 0 <= k < r@.len() && #[trigger] r@[k].path == Path::Block
            ==> block_available && r@[k].len == width,
        block_available ==> forall|k: int| 0 <= k < lanes / width
            ==> #[trigger] is_block_group(r@[k], k, width as int),
        block_available ==> r@.len() == lanes / width + (if lanes % width == 0 { 0int } else { 1 }),
        block_available && lanes % width != 0 ==> r@.last() == (Segment {
            start: (lanes - lanes % width) as usize,
            len: lanes % width,
            path: Path::Scalar,
        }),
        !block_available ==> r@.len() == (if lanes == 0 { 0int } else { 1 }),
        !block_available ==> forall|k: int| 0 <= k < r@.len() ==> #[trigger] r@[k].path == Path::Scalar,
{
    let mut plan: Vec<Segment> = Vec::new();
    if !block_available {
        if lanes > 0 {
            plan.push(Segment { start: 0, len: lanes, path: Path::Scalar });
        }
        return plan;
    }
    let groups: usize = lanes / width;
    let mut g: usize = 0;
    let mut start: usize = 0;
    while g < groups
        invariant
            groups == lanes / width,
            width > 0,
            g <= groups,
            start == g * width,
            plan@.len() == g,
            forall|k: int| 0 <= k < g ==> #[trigger] is_block_group(plan@[k], k, width as int),
        decreases groups - g,
    {
        proof {
            assert((g + 1) * width <= groups * width) by (nonlinear_arith)
                requires g < groups;
            assert(groups * width <= lanes) by (nonlinear_arith)
                requires groups == lanes / width, width > 0;
            assert((g + 1) * width == g * width + width) by (nonlinear_arith);
        }
        plan.push(Segment { start, len: width, path: Path::Block });
        start = start + width;
        g = g + 1;
    }
    proof {
        assert(lanes == groups * width + lanes % width) by (nonlinear_arith)
            requires groups == lanes / width, width > 0;
    }
    let ghost blocks = plan@;
    if start < lanes {
        plan.push(Segment { start, len: lanes - start, path: Path::Scalar });
    }
    proof {
        assert forall|k: int| 0 <= k < groups implies #[trigger] is_block_group(plan@[k], k, width as int) by {
            assert(plan@[k] == blocks[k]);
        }
        assert forall|k: int| 0 < k < plan@.len() implies #[trigger] plan@[k].start == seg_end(plan@[k - 1]) by {
            assert((k - 1) * width + width == k * width) by (nonlinear_arith);
            assert(is_block_group(plan@[k - 1], k - 1, width as int));
            if k < groups {
                assert(is_block_group(plan@[k], k, width as int));
            } else {
                assert(plan@[k].start == start);
            }
        }
        assert forall|k: int| 0 <= k < plan@.len() implies #[trigger] plan@[k].len > 0
            && (plan@[k].path == Path::Block ==> plan@[k].len == width) by {
            if k < groups {
                assert(is_block_group(plan@[k], k, width as int));
            }
        }
        if plan@.len() > 0 {
            if groups > 0 {
                assert(is_block_group(plan@[0], 0, width as int));
                assert(0 * width == 0) by (nonlinear_arith);
            }
            if start < lanes {
                assert(seg_end(plan@.last()) == lanes);
            } else {
                assert(is_block_group(plan@[groups - 1], groups - 1, width as int));
                assert((groups - 1) * width + width == groups * width) by (nonlinear_arith);
            }
        }
        if groups == 0 && plan@.len() > 0 {
            assert(plan@[0].start == 0);
        }
    }
    plan
}

} // verus!
