use vstd::prelude::*;

verus! {

/// Number of lanes in each block of a one-dimensional launch.
pub const BLOCK_LANES: u32 = 1024;

/// How many parallel lanes one kernel invocation spawns: a grid of blocks,
/// each block a box of lanes.
#[derive(Clone, Copy, Debug, PartialEq, Eq)]
pub struct LaunchShape {
    pub grid_dim: (u32, u32, u32),
    pub block_dim: (u32, u32, u32),
    pub shared_mem_bytes: u32,
}

/// Side of the square tile of lanes that a matrix multiply launches per block.
pub const TILE: u32 = 32;

/// `n / d` rounded up.
pub open spec fn ceil_div(n: int, d: int) -> int {
    (n + d - 1) / d
}

/// Lane `(tx, ty)` of block `(bx, by)` exists in `shape`.
pub open spec fn lane_in(shape: LaunchShape, bx: int, by: int, tx: int, ty: int) -> bool {
    &&& 0 <= bx < shape.grid_dim.0
    &&& 0 <= by < shape.grid_dim.1
    &&& 0 <= tx < shape.block_dim.0
    &&& 0 <= ty < shape.block_dim.1
}

/// The global column index of a lane: `blockIdx.x * blockDim.x + threadIdx.x`.
pub open spec fn lane_col(shape: LaunchShape, bx: int, tx: int) -> int {
    bx * shape.block_dim.0 + tx
}

/// The global row index of a lane: `blockIdx.y * blockDim.y + threadIdx.y`.
pub open spec fn lane_row(shape: LaunchShape, by: int, ty: int) -> int {
    by * shape.block_dim.1 + ty
}

/// Some lane of `shape` sits on cell `(r, c)`.
pub open spec fn has_lane(shape: LaunchShape, r: int, c: int) -> bool {
    exists|bx: int, by: int, tx: int, ty: int|
        #[trigger] lane_in(shape, bx, by, tx, ty) && lane_row(shape, by, ty) == r && lane_col(
            shape,
            bx,
            tx,
        ) == c
}

/// Every cell of a `rows` by `cols` output has a lane of `shape` on it.
pub open spec fn covers(shape: LaunchShape, rows: int, cols: int) -> bool {
    forall|r: int, c: int| 0 <= r < rows && 0 <= c < cols ==> #[trigger] has_lane(shape, r, c)
}

/// The shape of a matrix multiply: square tiles of `TILE` lanes, and as many
/// tiles as it takes to cover a `rows` by `cols` output.
pub open spec fn tiled(rows: int, cols: int) -> LaunchShape {
    LaunchShape {
        grid_dim: (ceil_div(cols, TILE as int) as u32, ceil_div(rows, TILE as int) as u32, 1u32),
        block_dim: (TILE, TILE, 1u32),
        shared_mem_bytes: 0,
    }
}

/// The shape of an elementwise kernel over `n` elements.
pub open spec fn linear(n: int) -> LaunchShape {
    LaunchShape {
        grid_dim: (ceil_div(n, BLOCK_LANES as int) as u32, 1u32, 1u32),
        block_dim: (BLOCK_LANES, 1u32, 1u32),
        shared_mem_bytes: 0,
    }
}

/// Launch shape of a matrix multiply with a `rows` by `cols` output.
pub fn tiled_shape(rows: u32, cols: u32) -> (r: LaunchShape)
    requires
        rows <= u32::MAX - TILE,
        cols <= u32::MAX - TILE,
    ensures
        r == tiled(rows as int, cols as int),
{
    LaunchShape {
        grid_dim: ((cols + (TILE - 1)) / TILE, (rows + (TILE - 1)) / TILE, 1),
        block_dim: (TILE, TILE, 1),
        shared_mem_bytes: 0,
    }
}

/// Launch shape of an elementwise kernel over `n` elements.
pub fn linear_shape(n: u32) -> (r: LaunchShape)
    requires
        n <= u32::MAX - BLOCK_LANES,
    ensures
        r == linear(n as int),
{
    for_num_elems(n)
}

/// A tiled launch reaches every cell of the output, however many tiles that takes.
pub proof fn lemma_tiled_covers(rows: int, cols: int)
    requires
        0 <= rows <= u32::MAX - TILE,
        0 <= cols <= u32::MAX - TILE,
    ensures
        covers(tiled(rows, cols), rows, cols),
{
    let shape = tiled(rows, cols);
    assert forall|r: int, c: int| 0 <= r < rows && 0 <= c < cols implies #[trigger] has_lane(shape, r, c) by {
        lemma_block_of(r, rows, 32);
        lemma_block_of(c, cols, 32);
        assert(lane_in(shape, c / 32, r / 32, c % 32, r % 32));
    }
}

/// A one-dimensional launch reaches every element.
pub proof fn lemma_linear_covers(n: int)
    requires
        0 <= n <= u32::MAX - BLOCK_LANES,
    ensures
        covers(linear(n), 1, n),
{
    let shape = linear(n);
    assert forall|r: int, c: int| 0 <= r < 1 && 0 <= c < n implies #[trigger] has_lane(shape, r, c) by {
        lemma_block_of(c, n, 1024);
        assert(lane_in(shape, c / 1024, 0, c % 1024, 0));
    }
}

/// No block of a tiled launch lies wholly outside the output: the grid is
/// the smallest that covers it.
pub proof fn lemma_tiled_minimal(rows: int, cols: int)
    requires
        1 <= rows <= u32::MAX - TILE,
        1 <= cols <= u32::MAX - TILE,
    ensures
        (tiled(rows, cols).grid_dim.0 - 1) * TILE < cols,
        (tiled(rows, cols).grid_dim.1 - 1) * TILE < rows,
{
    lemma_block_of(rows - 1, rows, 32);
    lemma_block_of(cols - 1, cols, 32);
    assert((ceil_div(rows, 32) - 1) * 32 < rows) by (nonlinear_arith)
        requires
            ceil_div(rows, 32) == (rows - 1) / 32 + 1,
            (rows - 1) / 32 * 32 <= rows - 1,
    ;
    assert((ceil_div(cols, 32) - 1) * 32 < cols) by (nonlinear_arith)
        requires
            ceil_div(cols, 32) == (cols - 1) / 32 + 1,
            (cols - 1) / 32 * 32 <= cols - 1,
    ;
}

/// Two distinct lanes of a launch sit on distinct cells.
pub proof fn lemma_lanes_distinct(
    shape: LaunchShape,
    bx1: int,
    by1: int,
    tx1: int,
    ty1: int,
    bx2: int,
    by2: int,
    tx2: int,
    ty2: int,
)
    requires
        lane_in(shape, bx1, by1, tx1, ty1),
        lane_in(shape, bx2, by2, tx2, ty2),
        (bx1, by1, tx1, ty1) != (bx2, by2, tx2, ty2),
    ensures
        (lane_row(shape, by1, ty1), lane_col(shape, bx1, tx1)) != (lane_row(shape, by2, ty2),
        lane_col(shape, bx2, tx2)),
{
    let w = shape.block_dim.0 as int;
    let h = shape.block_dim.1 as int;
    if lane_col(shape, bx1, tx1) == lane_col(shape, bx2, tx2) {
        vstd::arithmetic::div_mod::lemma_fundamental_div_mod_converse(
            lane_col(shape, bx1, tx1),
            w,
            bx1,
            tx1,
        );
        vstd::arithmetic::div_mod::lemma_fundamental_div_mod_converse(
            lane_col(shape, bx2, tx2),
            w,
            bx2,
            tx2,
        );
    }
    if lane_row(shape, by1, ty1) == lane_row(shape, by2, ty2) {
        vstd::arithmetic::div_mod::lemma_fundamental_div_mod_converse(
            lane_row(shape, by1, ty1),
            h,
            by1,
            ty1,
        );
        vstd::arithmetic::div_mod::lemma_fundamental_div_mod_converse(
            lane_row(shape, by2, ty2),
            h,
            by2,
            ty2,
        );
    }
}

/// Index `i < n` lies in block `i / t` of `ceil_div(n, t)` blocks, at lane `i % t`.
proof fn lemma_block_of(i: int, n: int, t: int)
    requires
        0 <= i < n,
        t >= 1,
    ensures
        0 <= i / t < ceil_div(n, t),
        0 <= i % t < t,
        (i / t) * t + i % t == i,
        ceil_div(n, t) == (n - 1) / t + 1,
{
    vstd::arithmetic::div_mod::lemma_fundamental_div_mod(i, t);
    vstd::arithmetic::div_mod::lemma_div_is_ordered(i, n - 1, t);
    vstd::arithmetic::div_mod::lemma_div_plus_one(n - 1, t);
    vstd::arithmetic::div_mod::lemma_div_pos_is_pos(i, t);
    vstd::arithmetic::mul::lemma_mul_is_commutative(i / t, t);
}

/// Relies on cudarc's `LaunchConfig::for_num_elems`: one block of 1024 lanes
/// for every started 1024 elements.
#[verifier::external_body]
fn for_num_elems(n: u32) -> (r: LaunchShape)
    requires
        n <= u32::MAX - BLOCK_LANES,
    ensures
        r == linear(n as int),
{
    let c = cudarc::driver::LaunchConfig::for_num_elems(n);
    LaunchShape { grid_dim: c.grid_dim, block_dim: c.block_dim, shared_mem_bytes: c.shared_mem_bytes }
}

} // verus!
