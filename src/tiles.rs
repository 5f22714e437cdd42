//! Tile pyramid arithmetic on the slippy-map grid.
//!
//! Geographic positions reach this module already projected onto the world
//! grid: a square of `2^WORLD_ZOOM` units per side with its origin at the
//! north-west corner, `x` growing eastward and `y` growing southward. A tile
//! coordinate at zoom `z` is the world coordinate divided by
//! `2^(WORLD_ZOOM - z)`.

use vstd::prelude::*;
use vstd::arithmetic::power2::*;
use vstd::arithmetic::div_mod::*;

verus! {

/// Resolution of the world grid, in zoom levels.
pub const WORLD_ZOOM: u32 = 30;

/// A tile of the slippy-map grid.
#[derive(Clone, Copy, Debug, PartialEq, Eq, Structural)]
pub struct TileCoordinate {
    pub x: u64,
    pub y: u64,
    pub z: u64,
}

/// A bounding box whose corners are projected onto the world grid.
///
/// `west`/`east` are the world `x` of the box's minimum and maximum longitude,
/// `north`/`south` the world `y` of its maximum and minimum latitude.
#[derive(Clone, Copy, Debug, PartialEq, Eq, Structural)]
pub struct BoundingBox {
    pub west: u64,
    pub north: u64,
    pub east: u64,
    pub south: u64,
}

/// Why a bounding box cannot be turned into tiles.
#[derive(Clone, Copy, Debug, PartialEq, Eq, Structural)]
pub enum BboxError {
    /// The box's minimum lies beyond its maximum on some axis.
    Inverted,
    /// A corner lies outside the world grid.
    OutsideWorld,
    /// The zoom level is deeper than the world grid's resolution.
    ZoomTooDeep,
}

/// An inclusive rectangle of tiles at one zoom level.
#[derive(Clone, Copy, Debug, PartialEq, Eq, Structural)]
pub struct TileRange {
    pub zoom: u64,
    pub min_x: u64,
    pub max_x: u64,
    pub min_y: u64,
    pub max_y: u64,
}

pub open spec fn world_size() -> nat {
    pow2(WORLD_ZOOM as nat)
}

/// The coordinate at zoom `zoom` of the tile holding world coordinate `w`.
pub open spec fn tile_coord(w: nat, zoom: nat) -> nat {
    w / pow2((WORLD_ZOOM - zoom) as nat)
}

pub open spec fn bbox_in_world(b: BoundingBox) -> bool {
    b.east < world_size() && b.south < world_size()
}

pub open spec fn bbox_ordered(b: BoundingBox) -> bool {
    b.west <= b.east && b.north <= b.south
}

/// The outcome owed for a box at a zoom level, errors checked in this order.
pub open spec fn bbox_check(zoom: nat, b: BoundingBox) -> Option<BboxError> {
    if zoom > WORLD_ZOOM {
        Some(BboxError::ZoomTooDeep)
    } else if !bbox_ordered(b) {
        Some(BboxError::Inverted)
    } else if !bbox_in_world(b) {
        Some(BboxError::OutsideWorld)
    } else {
        None
    }
}

pub open spec fn bbox_usable(zoom: nat, b: BoundingBox) -> bool {
    bbox_check(zoom, b) is None
}

/// The tiles covering the box at `zoom`: north-west corner to south-east corner.
pub open spec fn spec_tile_range(zoom: nat, b: BoundingBox) -> TileRange {
    TileRange {
        zoom: zoom as u64,
        min_x: tile_coord(b.west as nat, zoom) as u64,
        max_x: tile_coord(b.east as nat, zoom) as u64,
        min_y: tile_coord(b.north as nat, zoom) as u64,
        max_y: tile_coord(b.south as nat, zoom) as u64,
    }
}

pub open spec fn range_width(r: TileRange) -> nat {
    (r.max_x - r.min_x + 1) as nat
}

pub open spec fn range_height(r: TileRange) -> nat {
    (r.max_y - r.min_y + 1) as nat
}

pub open spec fn range_count(r: TileRange) -> nat {
    range_width(r) * range_height(r)
}

/// The tiles of column `x` of the range, by ascending `y`.
pub open spec fn range_column(r: TileRange, x: nat) -> Seq<TileCoordinate> {
    Seq::new(range_height(r), |j: int| TileCoordinate { x: x as u64, y: (r.min_y + j) as u64, z: r.zoom })
}

/// The first `n` columns of the range, by ascending `x`.
pub open spec fn range_columns(r: TileRange, n: nat) -> Seq<TileCoordinate>
    decreases n,
{
    if n == 0 {
        Seq::empty()
    } else {
        range_columns(r, (n - 1) as nat) + range_column(r, (r.min_x + n - 1) as nat)
    }
}

/// Every tile of the range, by ascending `x` then ascending `y`.
pub open spec fn range_tiles(r: TileRange) -> Seq<TileCoordinate> {
    range_columns(r, range_width(r))
}

pub open spec fn spec_tiles_in_range(zoom: nat, b: BoundingBox) -> Seq<TileCoordinate> {
    range_tiles(spec_tile_range(zoom, b))
}

/// The tiles of every zoom level from `0` to `max_zoom`, by ascending zoom.
pub open spec fn spec_tiles_across_zooms(max_zoom: nat, b: BoundingBox) -> Seq<TileCoordinate>
    decreases max_zoom,
{
    if max_zoom == 0 {
        spec_tiles_in_range(0, b)
    } else {
        spec_tiles_across_zooms((max_zoom - 1) as nat, b) + spec_tiles_in_range(max_zoom, b)
    }
}

pub open spec fn spec_count_tiles(zoom: nat, b: BoundingBox) -> nat {
    range_count(spec_tile_range(zoom, b))
}

/// The ancestor at zoom `zoom` of a tile of a deeper zoom.
pub open spec fn ancestor(t: TileCoordinate, zoom: nat) -> TileCoordinate {
    TileCoordinate {
        x: (t.x as nat / pow2((t.z - zoom) as nat)) as u64,
        y: (t.y as nat / pow2((t.z - zoom) as nat)) as u64,
        z: zoom as u64,
    }
}

pub open spec fn range_contains(r: TileRange, t: TileCoordinate) -> bool {
    t.z == r.zoom && r.min_x <= t.x <= r.max_x && r.min_y <= t.y <= r.max_y
}

proof fn lemma_pow2_bound(e: nat)
    requires
        e <= 62,
    ensures
        0 < pow2(e) <= pow2(62),
        pow2(62) == 0x4000000000000000,
{
    lemma2_to64();
    lemma2_to64_rest();
    lemma_pow2_pos(e);
    if e < 62 {
        lemma_pow2_strictly_increases(e, 62);
    }
}

/// `2^e` as a machine integer.
fn pow2_u64(e: u32) -> (r: u64)
    requires
        e <= 62,
    ensures
        r as nat == pow2(e as nat),
{
    let mut r: u64 = 1;
    let mut i: u32 = 0;
    proof {
        lemma2_to64();
    }
    while i < e
        invariant
            i <= e <= 62,
            r as nat == pow2(i as nat),
        decreases e - i,
    {
        proof {
            lemma_pow2_unfold((i + 1) as nat);
            lemma_pow2_bound((i + 1) as nat);
        }
        r = r * 2;
        i = i + 1;
    }
    r
}

proof fn lemma_tile_coord_bound(w: nat, zoom: nat)
    requires
        zoom <= WORLD_ZOOM,
        w < world_size(),
    ensures
        tile_coord(w, zoom) < pow2(zoom),
        tile_coord(w, zoom) <= w,
{
    let k = (WORLD_ZOOM - zoom) as nat;
    lemma_pow2_adds(zoom, k);
    lemma_pow2_pos(k);
    lemma_pow2_pos(zoom);
    lemma_div_is_ordered_by_denominator(w as int, 1, pow2(k) as int);
    lemma_div_by_multiple_is_strongly_ordered(w as int, (pow2(zoom) * pow2(k)) as int, pow2(zoom) as int, pow2(k) as int);
    lemma_div_by_multiple(pow2(zoom) as int, pow2(k) as int);
    lemma_div_basics_1(w as int);
}

proof fn lemma_tile_coord_monotonic(a: nat, b: nat, zoom: nat)
    requires
        a <= b,
        zoom <= WORLD_ZOOM,
    ensures
        tile_coord(a, zoom) <= tile_coord(b, zoom),
{
    let k = (WORLD_ZOOM - zoom) as nat;
    lemma_pow2_pos(k);
    lemma_div_is_ordered(a as int, b as int, pow2(k) as int);
}

/// The tile rectangle covering `bbox` at `zoom`.
pub fn tile_range(zoom: u64, bbox: BoundingBox) -> (r: Result<TileRange, BboxError>)
    ensures
        match r {
            Ok(range) => bbox_usable(zoom as nat, bbox) && range == spec_tile_range(zoom as nat, bbox),
            Err(e) => bbox_check(zoom as nat, bbox) == Some(e),
        },
        r is Ok ==> range_width(r->Ok_0) * range_height(r->Ok_0) <= pow2(2 * zoom as nat),
        r is Ok ==> r->Ok_0.min_x <= r->Ok_0.max_x && r->Ok_0.min_y <= r->Ok_0.max_y,
        r is Ok ==> r->Ok_0.max_x < pow2(zoom as nat) && r->Ok_0.max_y < pow2(zoom as nat),
{
    if zoom > WORLD_ZOOM as u64 {
        return Err(BboxError::ZoomTooDeep);
    }
    if !(bbox.west <= bbox.east && bbox.north <= bbox.south) {
        return Err(BboxError::Inverted);
    }
    let size = pow2_u64(WORLD_ZOOM);
    if !(bbox.east < size && bbox.south < size) {
        return Err(BboxError::OutsideWorld);
    }
    let d = pow2_u64(WORLD_ZOOM - zoom as u32);
    proof {
        let z = zoom as nat;
        lemma_pow2_pos((WORLD_ZOOM - z) as nat);
        lemma_tile_coord_bound(bbox.east as nat, z);
        lemma_tile_coord_bound(bbox.south as nat, z);
        lemma_tile_coord_monotonic(bbox.west as nat, bbox.east as nat, z);
        lemma_tile_coord_monotonic(bbox.north as nat, bbox.south as nat, z);
    }
    let range = TileRange {
        zoom,
        min_x: bbox.west / d,
        max_x: bbox.east / d,
        min_y: bbox.north / d,
        max_y: bbox.south / d,
    };
    proof {
        let z = zoom as nat;
        let w = range_width(range);
        let h = range_height(range);
        assert(w <= pow2(z) && h <= pow2(z));
        lemma_pow2_adds(z, z);
        assert(2 * z == z + z);
        assert(w * h <= pow2(z) * pow2(z)) by (nonlinear_arith)
            requires w <= pow2(z), h <= pow2(z);
    }
    Ok(range)
}

/// Appends the tiles of `r` to `out`, by ascending `x` then ascending `y`.
fn push_range_tiles(out: &mut Vec<TileCoordinate>, r: TileRange)
    requires
        r.min_x <= r.max_x < 0x4000000000000000,
        r.min_y <= r.max_y < 0x4000000000000000,
    ensures
        final(out)@ == old(out)@ + range_tiles(r),
{
    let ghost start = out@;
    let mut x: u64 = r.min_x;
    while x <= r.max_x
        invariant
            r.min_x <= x <= r.max_x + 1,
            r.min_y <= r.max_y < 0x4000000000000000,
            r.max_x < 0x4000000000000000,
            out@ == start + range_columns(r, (x - r.min_x) as nat),
        decreases r.max_x + 1 - x,
    {
        let ghost before = out@;
        let mut y: u64 = r.min_y;
        while y <= r.max_y
            invariant
                r.min_y <= y <= r.max_y + 1,
                r.max_y < 0x4000000000000000,
                r.min_x <= x <= r.max_x,
                out@ == before + range_column(r, x as nat).take((y - r.min_y) as int),
            decreases r.max_y + 1 - y,
        {
            out.push(TileCoordinate { x, y, z: r.zoom });
            proof {
                assert(range_column(r, x as nat).take((y + 1 - r.min_y) as int)
                    =~= range_column(r, x as nat).take((y - r.min_y) as int).push(
                    TileCoordinate { x, y, z: r.zoom },
                ));
            }
            y = y + 1;
        }
        proof {
            let n = (x - r.min_x) as nat;
            assert(range_column(r, x as nat).take((y - r.min_y) as int) =~= range_column(r, x as nat));
            assert(range_columns(r, n + 1) == range_columns(r, n) + range_column(r, x as nat));
            assert(out@ =~= start + range_columns(r, n + 1));
        }
        x = x + 1;
    }
}

/// Every tile covering `bbox` at `zoom`, inclusive on both ends, by
/// ascending `x` then ascending `y`.
pub fn tiles_in_range(zoom: u64, bbox: BoundingBox) -> (r: Result<Vec<TileCoordinate>, BboxError>)
    ensures
        match r {
            Ok(tiles) => bbox_usable(zoom as nat, bbox) && tiles@ == spec_tiles_in_range(zoom as nat, bbox),
            Err(e) => bbox_check(zoom as nat, bbox) == Some(e),
        },
{
    match tile_range(zoom, bbox) {
        Err(e) => Err(e),
        Ok(range) => {
            proof {
                lemma_pow2_bound(zoom as nat);
            }
            let mut tiles: Vec<TileCoordinate> = Vec::new();
            push_range_tiles(&mut tiles, range);
            assert(tiles@ =~= spec_tiles_in_range(zoom as nat, bbox));
            Ok(tiles)
        },
    }
}

/// The number of tiles covering `bbox` at `zoom`, without listing them.
pub fn count_tiles(zoom: u64, bbox: BoundingBox) -> (r: Result<u64, BboxError>)
    ensures
        match r {
            Ok(n) => bbox_usable(zoom as nat, bbox) && n as nat == spec_count_tiles(zoom as nat, bbox),
            Err(e) => bbox_check(zoom as nat, bbox) == Some(e),
        },
{
    match tile_range(zoom, bbox) {
        Err(e) => Err(e),
        Ok(range) => {
            proof {
                let z = zoom as nat;
                lemma_pow2_bound(z);
                lemma_pow2_strictly_increases(2 * z, 64);
                lemma2_to64_rest();
            }
            let width = range.max_x - range.min_x + 1;
            let height = range.max_y - range.min_y + 1;
            Ok(width * height)
        },
    }
}

/// Every tile covering `bbox` at each zoom level from `0` to `max_zoom`, by
/// ascending zoom, then ascending `x`, then ascending `y`.
pub fn get_tiles_to_invalidate(max_zoom: u64, bbox: BoundingBox) -> (r: Result<Vec<TileCoordinate>, BboxError>)
    ensures
        match r {
            Ok(tiles) => bbox_usable(max_zoom as nat, bbox) && tiles@ == spec_tiles_across_zooms(max_zoom as nat, bbox),
            Err(e) => bbox_check(max_zoom as nat, bbox) == Some(e),
        },
{
    if max_zoom > WORLD_ZOOM as u64 {
        return Err(BboxError::ZoomTooDeep);
    }
    let mut tiles: Vec<TileCoordinate> = Vec::new();
    let mut zoom: u64 = 0;
    while zoom <= max_zoom
        invariant
            max_zoom <= WORLD_ZOOM,
            zoom <= max_zoom + 1,
            zoom == 0 ==> tiles@.len() == 0,
            zoom > 0 ==> bbox_usable(max_zoom as nat, bbox),
            zoom > 0 ==> tiles@ == spec_tiles_across_zooms((zoom - 1) as nat, bbox),
        decreases max_zoom + 1 - zoom,
    {
        match tiles_in_range(zoom, bbox) {
            Err(e) => {
                return Err(e);
            },
            Ok(level) => {
                let mut level = level;
                let ghost before = tiles@;
                tiles.append(&mut level);
                proof {
                    if zoom == 0 {
                        assert(tiles@ =~= spec_tiles_across_zooms(0, bbox));
                    } else {
                        assert(tiles@ =~= before + spec_tiles_in_range(zoom as nat, bbox));
                        assert(spec_tiles_across_zooms(zoom as nat, bbox)
                            == spec_tiles_across_zooms((zoom - 1) as nat, bbox)
                                + spec_tiles_in_range(zoom as nat, bbox));
                    }
                }
            },
        }
        zoom = zoom + 1;
    }
    Ok(tiles)
}

proof fn lemma_columns_len(r: TileRange, n: nat)
    ensures
        range_columns(r, n).len() == n * range_height(r),
    decreases n,
{
    if n > 0 {
        lemma_columns_len(r, (n - 1) as nat);
        let h = range_height(r);
        let m = (n - 1) as nat;
        assert(range_column(r, (r.min_x + n - 1) as nat).len() == h);
        assert(m * h + h == n * h) by (nonlinear_arith)
            requires m + 1 == n;
        assert(range_columns(r, n) == range_columns(r, m) + range_column(r, (r.min_x + n - 1) as nat));
    } else {
        assert(0 * range_height(r) == 0);
    }
}

/// For every usable box and zoom, listing the tiles yields exactly as many
/// tiles as counting them reports.
pub proof fn lemma_count_matches_listing(zoom: nat, bbox: BoundingBox)
    requires
        bbox_usable(zoom, bbox),
    ensures
        spec_tiles_in_range(zoom, bbox).len() == spec_count_tiles(zoom, bbox),
{
    lemma_columns_len(spec_tile_range(zoom, bbox), range_width(spec_tile_range(zoom, bbox)));
}

/// Dividing a tile coordinate by `2^(z2 - z1)` gives the coordinate at `z1`.
proof fn lemma_tile_coord_shift(w: nat, z1: nat, z2: nat)
    requires
        z1 <= z2 <= WORLD_ZOOM,
    ensures
        tile_coord(w, z2) / pow2((z2 - z1) as nat) == tile_coord(w, z1),
{
    let c = pow2((WORLD_ZOOM - z2) as nat);
    let d = pow2((z2 - z1) as nat);
    lemma_pow2_pos((WORLD_ZOOM - z2) as nat);
    lemma_pow2_pos((z2 - z1) as nat);
    lemma_pow2_adds((WORLD_ZOOM - z2) as nat, (z2 - z1) as nat);
    assert((WORLD_ZOOM - z2) as nat + (z2 - z1) as nat == (WORLD_ZOOM - z1) as nat);
    lemma_div_denominator(w as int, c as int, d as int);
}

proof fn lemma_div_spread(a: nat, b: nat, d: nat)
    requires
        b <= a,
        d > 0,
    ensures
        b / d <= a / d,
        a / d - b / d <= a - b,
{
    lemma_div_is_ordered(b as int, a as int, d as int);
    lemma_fundamental_div_mod(a as int, d as int);
    lemma_fundamental_div_mod(b as int, d as int);
    lemma_mod_bound(a as int, d as int);
    lemma_mod_bound(b as int, d as int);
    let qa = a / d;
    let qb = b / d;
    let ra = a % d;
    let rb = b % d;
    let k = qa - qb;
    assert(a - b == d * k + ra - rb) by (nonlinear_arith)
        requires
            a == d * qa + ra,
            b == d * qb + rb,
            k == qa - qb;
    if k >= 1 {
        assert(d * k - d + 1 >= k) by (nonlinear_arith)
            requires d >= 1, k >= 1;
    }
}

/// Zooming in never loses coverage: the ancestor at a shallower zoom `z1` of
/// any tile covering the box at a deeper zoom `z2` covers the box at `z1`,
/// and the box covers at least as many tiles at `z2` as at `z1`.
pub proof fn lemma_zoom_in_refines(z1: nat, z2: nat, bbox: BoundingBox, t: TileCoordinate)
    requires
        z1 < z2,
        bbox_usable(z2, bbox),
        range_contains(spec_tile_range(z2, bbox), t),
    ensures
        range_contains(spec_tile_range(z1, bbox), ancestor(t, z1)),
        spec_count_tiles(z1, bbox) <= spec_count_tiles(z2, bbox),
{
    lemma_count_grows(z1, z2, bbox);
    let d = pow2((z2 - z1) as nat);
    lemma_pow2_pos((z2 - z1) as nat);
    lemma_tile_coord_shift(bbox.west as nat, z1, z2);
    lemma_tile_coord_shift(bbox.east as nat, z1, z2);
    lemma_tile_coord_shift(bbox.north as nat, z1, z2);
    lemma_tile_coord_shift(bbox.south as nat, z1, z2);
    lemma_tile_coord_bound(bbox.east as nat, z2);
    lemma_tile_coord_bound(bbox.south as nat, z2);
    lemma_tile_coord_bound(bbox.west as nat, z2);
    lemma_tile_coord_bound(bbox.north as nat, z2);
    lemma_tile_coord_bound(bbox.east as nat, z1);
    lemma_tile_coord_bound(bbox.south as nat, z1);
    lemma_tile_coord_bound(bbox.west as nat, z1);
    lemma_tile_coord_bound(bbox.north as nat, z1);
    let r2 = spec_tile_range(z2, bbox);
    assert(t.z == z2);
    lemma_div_is_ordered(r2.min_x as int, t.x as int, d as int);
    lemma_div_is_ordered(t.x as int, r2.max_x as int, d as int);
    lemma_div_is_ordered(r2.min_y as int, t.y as int, d as int);
    lemma_div_is_ordered(t.y as int, r2.max_y as int, d as int);
    lemma_div_spread(t.x as nat, 0, d);
    lemma_div_spread(t.y as nat, 0, d);
}

/// A box covers at least as many tiles at a deeper zoom.
pub proof fn lemma_count_grows(z1: nat, z2: nat, bbox: BoundingBox)
    requires
        z1 <= z2,
        bbox_usable(z2, bbox),
    ensures
        spec_count_tiles(z1, bbox) <= spec_count_tiles(z2, bbox),
{
    let d = pow2((z2 - z1) as nat);
    lemma_pow2_pos((z2 - z1) as nat);
    lemma_tile_coord_shift(bbox.west as nat, z1, z2);
    lemma_tile_coord_shift(bbox.east as nat, z1, z2);
    lemma_tile_coord_shift(bbox.north as nat, z1, z2);
    lemma_tile_coord_shift(bbox.south as nat, z1, z2);
    lemma_tile_coord_bound(bbox.east as nat, z2);
    lemma_tile_coord_bound(bbox.south as nat, z2);
    lemma_tile_coord_bound(bbox.east as nat, z1);
    lemma_tile_coord_bound(bbox.south as nat, z1);
    lemma_tile_coord_monotonic(bbox.west as nat, bbox.east as nat, z2);
    lemma_tile_coord_monotonic(bbox.north as nat, bbox.south as nat, z2);
    let r1 = spec_tile_range(z1, bbox);
    let r2 = spec_tile_range(z2, bbox);
    lemma_div_spread(r2.max_x as nat, r2.min_x as nat, d);
    lemma_div_spread(r2.max_y as nat, r2.min_y as nat, d);
    let w1 = range_width(r1);
    let h1 = range_height(r1);
    let w2 = range_width(r2);
    let h2 = range_height(r2);
    assert(w1 <= w2 && h1 <= h2);
    assert(w1 * h1 <= w2 * h2) by (nonlinear_arith)
        requires w1 <= w2, h1 <= h2;
}

/// A usable box covers at least one tile at every zoom.
pub proof fn lemma_box_covers_a_tile(zoom: nat, bbox: BoundingBox)
    requires
        bbox_usable(zoom, bbox),
    ensures
        spec_count_tiles(zoom, bbox) >= 1,
{
    lemma_tile_coord_bound(bbox.east as nat, zoom);
    lemma_tile_coord_bound(bbox.south as nat, zoom);
    lemma_tile_coord_monotonic(bbox.west as nat, bbox.east as nat, zoom);
    lemma_tile_coord_monotonic(bbox.north as nat, bbox.south as nat, zoom);
    let r = spec_tile_range(zoom, bbox);
    let w = range_width(r);
    let h = range_height(r);
    assert(w >= 1 && h >= 1);
    assert(w * h >= 1) by (nonlinear_arith)
        requires w >= 1, h >= 1;
}

proof fn lemma_columns_members(r: TileRange, n: nat, t: TileCoordinate)
    requires
        r.min_y <= r.max_y,
        r.min_x + n <= 0x4000000000000000,
        r.max_y < 0x4000000000000000,
    ensures
        range_columns(r, n).contains(t) <==> (t.z == r.zoom && r.min_x <= t.x < r.min_x + n
            && r.min_y <= t.y <= r.max_y),
    decreases n,
{
    if n > 0 {
        let m = (n - 1) as nat;
        lemma_columns_members(r, m, t);
        let prev = range_columns(r, m);
        let col = range_column(r, (r.min_x + m) as nat);
        assert(range_columns(r, n) == prev + col);
        if (prev + col).contains(t) {
            let i = choose|i: int| 0 <= i < (prev + col).len() && (prev + col)[i] == t;
            if i >= prev.len() {
                assert(col[i - prev.len()] == t);
            } else {
                assert(prev[i] == t);
            }
        }
        if t.z == r.zoom && r.min_x <= t.x < r.min_x + n && r.min_y <= t.y <= r.max_y {
            if t.x < r.min_x + m {
                let i = choose|i: int| 0 <= i < prev.len() && prev[i] == t;
                assert((prev + col)[i] == t);
            } else {
                let j = t.y - r.min_y;
                assert(col[j] == t);
                assert((prev + col)[prev.len() + j] == t);
            }
        }
    } else {
        assert(range_columns(r, 0).len() == 0);
    }
}

proof fn lemma_range_members(zoom: nat, bbox: BoundingBox, t: TileCoordinate)
    requires
        bbox_usable(zoom, bbox),
    ensures
        spec_tiles_in_range(zoom, bbox).contains(t) <==> range_contains(spec_tile_range(zoom, bbox), t),
{
    lemma_tile_coord_bound(bbox.east as nat, zoom);
    lemma_tile_coord_bound(bbox.south as nat, zoom);
    lemma_tile_coord_monotonic(bbox.west as nat, bbox.east as nat, zoom);
    lemma_tile_coord_monotonic(bbox.north as nat, bbox.south as nat, zoom);
    lemma_pow2_bound(zoom);
    let r = spec_tile_range(zoom, bbox);
    lemma_columns_members(r, range_width(r), t);
}

proof fn lemma_listing_members(max_zoom: nat, bbox: BoundingBox, t: TileCoordinate)
    requires
        bbox_usable(max_zoom, bbox),
    ensures
        spec_tiles_across_zooms(max_zoom, bbox).contains(t) <==> (t.z <= max_zoom && range_contains(
            spec_tile_range(t.z as nat, bbox),
            t,
        )),
    decreases max_zoom,
{
    let here = spec_tiles_in_range(max_zoom, bbox);
    lemma_range_members(max_zoom, bbox, t);
    if max_zoom == 0 {
    } else {
        let m = (max_zoom - 1) as nat;
        lemma_listing_members(m, bbox, t);
        let below = spec_tiles_across_zooms(m, bbox);
        assert(spec_tiles_across_zooms(max_zoom, bbox) == below + here);
        if (below + here).contains(t) {
            let i = choose|i: int| 0 <= i < (below + here).len() && (below + here)[i] == t;
            if i >= below.len() {
                assert(here[i - below.len()] == t);
            } else {
                assert(below[i] == t);
            }
        }
        if t.z <= max_zoom && range_contains(spec_tile_range(t.z as nat, bbox), t) {
            if t.z < max_zoom {
                let i = choose|i: int| 0 <= i < below.len() && below[i] == t;
                assert((below + here)[i] == t);
            } else {
                let i = choose|i: int| 0 <= i < here.len() && here[i] == t;
                assert((below + here)[below.len() + i] == t);
            }
        }
    }
}

/// A coordinate of the deeper range whose ancestor is `c`, for `c` in the
/// shallower range `[lo / d, hi / d]`.
proof fn lemma_descendant_coord(c: nat, lo: nat, hi: nat, d: nat) -> (x: nat)
    requires
        d > 0,
        lo <= hi,
        lo / d <= c <= hi / d,
    ensures
        lo <= x <= hi,
        x / d == c,
{
    lemma_fundamental_div_mod(lo as int, d as int);
    lemma_fundamental_div_mod(hi as int, d as int);
    lemma_mod_bound(lo as int, d as int);
    lemma_mod_bound(hi as int, d as int);
    if c == lo / d {
        lo
    } else {
        let x = d * c;
        lemma_div_multiples_vanish(c as int, d as int);
        let ql = lo / d;
        let qh = hi / d;
        assert(lo < x) by (nonlinear_arith)
            requires lo == d * ql + lo % d, lo % d < d, ql + 1 <= c, d > 0, x == d * c;
        assert(x <= hi) by (nonlinear_arith)
            requires hi == d * qh + hi % d, hi % d >= 0, c <= qh, d > 0, x == d * c;
        x
    }
}

/// Zooming in over the listed tiles: for zoom levels `z1 < z2` up to
/// `max_zoom`, every listed tile of zoom `z2` has its ancestor at `z1`
/// listed, and every listed tile of zoom `z1` is the ancestor of some listed
/// tile of zoom `z2`.
pub proof fn lemma_listing_refines(max_zoom: nat, bbox: BoundingBox, z1: nat, z2: nat)
    requires
        bbox_usable(max_zoom, bbox),
        z1 < z2 <= max_zoom,
    ensures
        forall|t: TileCoordinate| spec_tiles_across_zooms(max_zoom, bbox).contains(t) && t.z == z2
            ==> #[trigger] spec_tiles_across_zooms(max_zoom, bbox).contains(ancestor(t, z1)),
        forall|s: TileCoordinate| spec_tiles_across_zooms(max_zoom, bbox).contains(s) && s.z == z1
            ==> exists|t: TileCoordinate| #[trigger] spec_tiles_across_zooms(max_zoom, bbox).contains(t)
                && t.z == z2 && ancestor(t, z1) == s,
{
    let all = spec_tiles_across_zooms(max_zoom, bbox);
    assert forall|t: TileCoordinate| all.contains(t) && t.z == z2 implies #[trigger] all.contains(ancestor(t, z1)) by {
        lemma_listing_members(max_zoom, bbox, t);
        lemma_zoom_in_refines(z1, z2, bbox, t);
        lemma_listing_members(max_zoom, bbox, ancestor(t, z1));
    }
    assert forall|s: TileCoordinate| all.contains(s) && s.z == z1 implies exists|t: TileCoordinate| #[trigger] all.contains(t)
        && t.z == z2 && ancestor(t, z1) == s by {
        lemma_listing_members(max_zoom, bbox, s);
        let d = pow2((z2 - z1) as nat);
        lemma_pow2_pos((z2 - z1) as nat);
        lemma_tile_coord_shift(bbox.west as nat, z1, z2);
        lemma_tile_coord_shift(bbox.east as nat, z1, z2);
        lemma_tile_coord_shift(bbox.north as nat, z1, z2);
        lemma_tile_coord_shift(bbox.south as nat, z1, z2);
        lemma_tile_coord_bound(bbox.east as nat, z2);
        lemma_tile_coord_bound(bbox.south as nat, z2);
        lemma_tile_coord_bound(bbox.west as nat, z2);
        lemma_tile_coord_bound(bbox.north as nat, z2);
        lemma_tile_coord_bound(bbox.east as nat, z1);
        lemma_tile_coord_bound(bbox.south as nat, z1);
        lemma_tile_coord_bound(bbox.west as nat, z1);
        lemma_tile_coord_bound(bbox.north as nat, z1);
        lemma_tile_coord_monotonic(bbox.west as nat, bbox.east as nat, z2);
        lemma_tile_coord_monotonic(bbox.north as nat, bbox.south as nat, z2);
        let r2 = spec_tile_range(z2, bbox);
        let x = lemma_descendant_coord(s.x as nat, r2.min_x as nat, r2.max_x as nat, d);
        let y = lemma_descendant_coord(s.y as nat, r2.min_y as nat, r2.max_y as nat, d);
        let t = TileCoordinate { x: x as u64, y: y as u64, z: z2 as u64 };
        lemma_listing_members(max_zoom, bbox, t);
        assert(ancestor(t, z1) == s);
    }
}

} // verus!
