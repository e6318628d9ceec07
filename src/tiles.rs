//! Division of the image into equal-width column tiles.

use vstd::prelude::*;

verus! {

/// The columns `[column_start, column_end)` of the image, over its full height.
#[derive(Clone, Copy, Debug, PartialEq, Eq, Structural)]
pub struct Tile {
    pub id: u32,
    pub column_start: u32,
    pub column_end: u32,
}

/// Why an image cannot be split into equal column tiles.
#[derive(Clone, Copy, Debug, PartialEq, Eq, Structural)]
pub enum PartitionError {
    /// No worker was asked for.
    NoWorkers,
    /// The width is not a multiple of the number of workers.
    Indivisible,
}

/// Tile `i` of `threads` equal tiles of an image `width` columns wide.
pub open spec fn tile_spec(width: u32, threads: u32, i: int) -> Tile {
    let w = width / threads;
    Tile { id: i as u32, column_start: (i * w) as u32, column_end: ((i + 1) * w) as u32 }
}

/// The columns of a tile.
pub open spec fn tile_width(t: Tile) -> int {
    t.column_end - t.column_start
}

/// Whether column `x` belongs to tile `t`.
pub open spec fn in_tile(x: int, t: Tile) -> bool {
    t.column_start <= x < t.column_end
}

/// Splits `width` columns into `threads` tiles of `width / threads` columns, in order.
pub fn partition(width: u32, threads: u32) -> (r: Result<Vec<Tile>, PartitionError>)
    ensures
        r == Err::<Vec<Tile>, PartitionError>(PartitionError::NoWorkers) <==> threads == 0,
        r == Err::<Vec<Tile>, PartitionError>(PartitionError::Indivisible) <==> (threads > 0
            && width % threads != 0),
        r is Ok <==> (threads > 0 && width % threads == 0),
        r matches Ok(v) ==> v@.len() == threads && forall|i: int|
            0 <= i < threads ==> #[trigger] v@[i] == tile_spec(width, threads, i),
{
    if threads == 0 {
        return Err(PartitionError::NoWorkers);
    }
    if width % threads != 0 {
        return Err(PartitionError::Indivisible);
    }
    let w: u32 = width / threads;
    let mut v: Vec<Tile> = Vec::new();
    let mut i: u32 = 0;
    while i < threads
        invariant
            0 < threads,
            i <= threads,
            w == width / threads,
            width % threads == 0,
            v@.len() == i,
            forall|j: int| 0 <= j < i ==> #[trigger] v@[j] == tile_spec(width, threads, j),
        decreases threads - i,
    {
        proof {
            assert((i + 1) * w <= threads * w) by (nonlinear_arith)
                requires i < threads;
            assert(threads * w == width) by (nonlinear_arith)
                requires w == (width / threads) as int, width % threads == 0, threads > 0;
            assert(i * w <= (i + 1) * w) by (nonlinear_arith);
        }
        v.push(Tile { id: i, column_start: i * w, column_end: (i + 1) * w });
        i = i + 1;
    }
    Ok(v)
}

/// Every column of the image lies in exactly one of the tiles of an even split:
/// the one numbered `x / (width / threads)`.
pub proof fn lemma_tiles_cover(width: u32, threads: u32, x: int)
    requires
        threads > 0,
        width % threads == 0,
        0 <= x < width,
    ensures
        0 <= x / ((width / threads) as int) < threads,
        in_tile(x, tile_spec(width, threads, x / ((width / threads) as int))),
        forall|i: int|
            0 <= i < threads && in_tile(x, #[trigger] tile_spec(width, threads, i)) ==> i == x
                / ((width / threads) as int),
{
    let w = (width / threads) as int;
    let k = x / w;
    assert(threads * w == width) by (nonlinear_arith)
        requires w == (width / threads) as int, width % threads == 0, threads > 0;
    assert(w > 0) by (nonlinear_arith)
        requires threads * w == width, x < width, 0 <= x, threads > 0;
    assert(k * w <= x < (k + 1) * w) by (nonlinear_arith)
        requires k == x / w, w > 0, x >= 0;
    assert(0 <= k < threads) by (nonlinear_arith)
        requires k * w <= x, x < width, threads * w == width, w > 0, x >= 0, k == x / w;
    assert(k * w + w <= threads * w) by (nonlinear_arith)
        requires k < threads, w > 0;
    assert(k * w <= u32::MAX && (k + 1) * w <= u32::MAX) by (nonlinear_arith)
        requires k * w + w <= threads * w, threads * w == width, width <= u32::MAX, k >= 0, w > 0;
    assert forall|i: int|
        0 <= i < threads && in_tile(x, #[trigger] tile_spec(width, threads, i)) implies i == k by {
        assert(i * w + w <= threads * w) by (nonlinear_arith)
            requires i < threads, w > 0;
        assert(i * w >= 0 && (i + 1) * w <= u32::MAX) by (nonlinear_arith)
            requires i * w + w <= threads * w, threads * w == width, width <= u32::MAX, i >= 0, w > 0;
        assert(i * w <= x < (i + 1) * w);
        assert(i == k) by (nonlinear_arith)
            requires i * w <= x < (i + 1) * w, k * w <= x < (k + 1) * w, w > 0;
    }
}

} // verus!
