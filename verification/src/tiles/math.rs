use vstd::prelude::*;

verus! {

/// Maximum number of tiles to fetch/render per frame.
/// Beyond this, the map degrades to partial rendering — better than blocking on HTTP fanout.
pub const MAX_VISIBLE_TILES: usize = 16;

#[derive(Debug, Clone, Copy, PartialEq, Eq, Structural, Hash)]
pub struct TileCoord {
    pub z: u32,
    pub x: u32,
    pub y: u32,
}

/// The tiles of column `x` from row `y_lo` to row `y_hi`, top to bottom.
pub open spec fn tile_column(z: u32, x: u32, y_lo: int, y_hi: int) -> Seq<TileCoord> {
    Seq::new(
        if y_hi >= y_lo {
            (y_hi - y_lo + 1) as nat
        } else {
            0
        },
        |k: int| TileCoord { z, x, y: (y_lo + k) as u32 },
    )
}

/// The tiles of the inclusive rectangle of columns `x_lo..=x_hi` and rows
/// `y_lo..=y_hi` at zoom `z`, column by column.
pub open spec fn tile_range(z: u32, x_lo: int, x_hi: int, y_lo: int, y_hi: int) -> Seq<TileCoord>
    decreases x_hi - x_lo + 1,
{
    if x_hi < x_lo {
        Seq::empty()
    } else {
        tile_range(z, x_lo, x_hi - 1, y_lo, y_hi) + tile_column(z, x_hi as u32, y_lo, y_hi)
    }
}

/// Enumerates the tiles of the inclusive rectangle `x_min..=x_max` by
/// `y_min..=y_max` at `zoom`: for each column from left to right, its rows
/// from top to bottom. An empty range on either axis gives no tile.
pub fn tiles_in_range(zoom: u32, x_min: u32, x_max: u32, y_min: u32, y_max: u32) -> (tiles: Vec<
    TileCoord,
>)
    ensures
        tiles@ == tile_range(zoom, x_min as int, x_max as int, y_min as int, y_max as int),
{
    let mut tiles: Vec<TileCoord> = Vec::new();
    let mut x: u64 = x_min as u64;
    while x <= x_max as u64
        invariant
            x_min <= x,
            x <= x_max as u64 + 1 || x == x_min,
            tiles@ == tile_range(zoom, x_min as int, x - 1, y_min as int, y_max as int),
        decreases x_max as u64 + 1 - x,
    {
        let ghost before = tiles@;
        let mut y: u64 = y_min as u64;
        while y <= y_max as u64
            invariant
                x <= x_max,
                y_min <= y,
                y <= y_max as u64 + 1 || y == y_min,
                tiles@ == before + tile_column(zoom, x as u32, y_min as int, y - 1),
            decreases y_max as u64 + 1 - y,
        {
            let ghost prev = tiles@;
            tiles.push(TileCoord { z: zoom, x: x as u32, y: y as u32 });
            assert(tiles@ =~= before + tile_column(zoom, x as u32, y_min as int, y as int)) by {
                assert(prev =~= before + tile_column(zoom, x as u32, y_min as int, y - 1));
            }
            y = y + 1;
        }
        assert(tile_column(zoom, x as u32, y_min as int, y - 1) =~= tile_column(
            zoom,
            x as u32,
            y_min as int,
            y_max as int,
        ));
        x = x + 1;
    }
    tiles
}

/// The tiles of the rectangle, cut to the first `MAX_VISIBLE_TILES`.
pub fn capped_tiles_in_range(zoom: u32, x_min: u32, x_max: u32, y_min: u32, y_max: u32) -> (tiles:
    Vec<TileCoord>)
    ensures
        tiles@ == if tile_range(zoom, x_min as int, x_max as int, y_min as int, y_max as int).len()
            <= MAX_VISIBLE_TILES {
            tile_range(zoom, x_min as int, x_max as int, y_min as int, y_max as int)
        } else {
            tile_range(zoom, x_min as int, x_max as int, y_min as int, y_max as int).take(
                MAX_VISIBLE_TILES as int,
            )
        },
{
    let mut tiles = tiles_in_range(zoom, x_min, x_max, y_min, y_max);
    tiles.truncate(MAX_VISIBLE_TILES);
    tiles
}

/// A tile lies in the range exactly when its zoom is the range's and its
/// column and row fall within the bounds.
pub open spec fn in_range(t: TileCoord, z: u32, x_lo: int, x_hi: int, y_lo: int, y_hi: int) -> bool {
    t.z == z && x_lo <= t.x <= x_hi && y_lo <= t.y <= y_hi
}

/// Every tile of the rectangle is enumerated, nothing outside it is, and no
/// tile is enumerated twice.
pub proof fn lemma_tile_range_exact(z: u32, x_lo: int, x_hi: int, y_lo: int, y_hi: int)
    requires
        0 <= x_lo,
        x_hi <= u32::MAX,
        0 <= y_lo,
        y_hi <= u32::MAX,
    ensures
        forall|t: TileCoord|
            tile_range(z, x_lo, x_hi, y_lo, y_hi).contains(t) <==> in_range(t, z, x_lo, x_hi, y_lo, y_hi),
        tile_range(z, x_lo, x_hi, y_lo, y_hi).no_duplicates(),
    decreases x_hi - x_lo + 1,
{
    if x_hi < x_lo {
        assert forall|t: TileCoord| !tile_range(z, x_lo, x_hi, y_lo, y_hi).contains(t) by {}
    } else {
        lemma_tile_range_exact(z, x_lo, x_hi - 1, y_lo, y_hi);
        let prev = tile_range(z, x_lo, x_hi - 1, y_lo, y_hi);
        let col = tile_column(z, x_hi as u32, y_lo, y_hi);
        let all = tile_range(z, x_lo, x_hi, y_lo, y_hi);
        assert(all == prev + col);
        assert forall|t: TileCoord| all.contains(t) <==> in_range(t, z, x_lo, x_hi, y_lo, y_hi) by {
            if all.contains(t) {
                let k = choose|k: int| 0 <= k < all.len() && all[k] == t;
                if k >= prev.len() {
                    assert(col[k - prev.len()] == t);
                    assert(t.x == x_hi);
                    assert(t.y == y_lo + (k - prev.len()));
                } else {
                    assert(prev[k] == t);
                    assert(prev.contains(t));
                    assert(in_range(t, z, x_lo, x_hi - 1, y_lo, y_hi));
                }
            }
            if in_range(t, z, x_lo, x_hi, y_lo, y_hi) {
                if t.x == x_hi {
                    let k = t.y - y_lo;
                    assert(col[k] == t);
                    assert(all[prev.len() + k] == t);
                } else {
                    assert(in_range(t, z, x_lo, x_hi - 1, y_lo, y_hi));
                    assert(prev.contains(t));
                    let k = choose|k: int| 0 <= k < prev.len() && prev[k] == t;
                    assert(all[k] == t);
                }
            }
        }
        assert forall|i: int, j: int| 0 <= i < all.len() && 0 <= j < all.len() && i != j implies all[i]
            != all[j] by {
            if i < prev.len() && j < prev.len() {
                assert(all[i] == prev[i]);
                assert(all[j] == prev[j]);
            } else if i >= prev.len() && j >= prev.len() {
                assert(all[i] == col[i - prev.len()]);
                assert(all[j] == col[j - prev.len()]);
            } else if i < prev.len() {
                assert(all[i] == prev[i]);
                assert(prev.contains(prev[i]));
                assert(in_range(prev[i], z, x_lo, x_hi - 1, y_lo, y_hi));
                assert(all[j] == col[j - prev.len()]);
            } else {
                assert(all[j] == prev[j]);
                assert(prev.contains(prev[j]));
                assert(in_range(prev[j], z, x_lo, x_hi - 1, y_lo, y_hi));
                assert(all[i] == col[i - prev.len()]);
            }
        }
    }
}

/// The rectangle holds as many tiles as its width times its height.
pub proof fn lemma_tile_range_len(z: u32, x_lo: int, x_hi: int, y_lo: int, y_hi: int)
    ensures
        tile_range(z, x_lo, x_hi, y_lo, y_hi).len() == (if x_hi >= x_lo {
            x_hi - x_lo + 1
        } else {
            0
        }) * (if y_hi >= y_lo {
            y_hi - y_lo + 1
        } else {
            0
        }),
    decreases x_hi - x_lo + 1,
{
    if x_hi >= x_lo {
        lemma_tile_range_len(z, x_lo, x_hi - 1, y_lo, y_hi);
        let h = if y_hi >= y_lo {
            y_hi - y_lo + 1
        } else {
            0
        };
        assert((x_hi - x_lo) * h + h == (x_hi - x_lo + 1) * h) by (nonlinear_arith);
    }
}

} // verus!
