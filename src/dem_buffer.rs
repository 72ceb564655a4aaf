//! The windowed raster cache: a fixed-size grid of packed cells that follows a
//! moving centre over the globe, reusing what it already holds where the old
//! and new coverage overlap and paging the rest in tile by tile.
use crate::arith::{lemma_floor_bounds, lemma_floor_unique};
use crate::cell_key::{
    is_valid_packed, lemma_empty_is_not_valid, lemma_pack_cell, pack_cell, unpack_lat,
    unpack_lon, CellKey, EMPTY_CELL,
};
use crate::types::{
    cell_of_degrees, lemma_cell_of_degrees_bounds, lemma_tile_index_of, tile_index_of, valid_tile_size, wrap_lon_cell, Deg,
    GlobalCell, LocalCell, TileKey,
};
use vstd::prelude::*;

verus! {

/// The largest tile size whose longitude cells, `[-180 * ts, 180 * ts)`, fit
/// the 16-bit halves of a packed cell.
pub const MAX_BUFFER_TILE_SIZE: i32 = 182;

/// The longitude cell east of `l`, wrapping from the antimeridian to `-180 * ts`.
pub open spec fn next_lon_cell(l: int, ts: int) -> int {
    if l + 1 >= 180 * ts {
        l + 1 - 360 * ts
    } else {
        l + 1
    }
}

/// The packed value that flat index `i` of a buffer `w` cells wide must hold
/// when its west edge is `west` and its north edge `north`: column `x` holds
/// longitude `west + x` (wrapped) and row `y` latitude `north - y`.
pub open spec fn expected_cell(west: int, north: int, ts: int, w: int, i: int) -> int {
    pack_cell(wrap_lon_cell(west + i % w, ts), north - i / w)
}

/// Flat index `i` of a buffer `w` cells wide lies in the given rectangle.
pub open spec fn in_rect(w: int, i: int, x0: int, y0: int, rw: int, rh: int) -> bool {
    x0 <= i % w < x0 + rw && y0 <= i / w < y0 + rh
}

/// Half of `v`, rounded toward zero as integer division does.
pub open spec fn half_toward_zero(v: int) -> int {
    if v >= 0 {
        v / 2
    } else {
        -((-v) / 2)
    }
}

/// All rows of a buffer whose north edge is `north` have latitude cells in
/// `[-180 * ts, 180 * ts)`, so none of them needs wrapping.
pub open spec fn lat_rows_fit(north: int, height: int, ts: int) -> bool {
    north < 180 * ts && north - height + 1 >= -180 * ts
}

/// The value that a slice writes at buffer position `(x, y)`: the tile's
/// first cell plus the offset inside the tile, rows counting southward.
/// The smaller of two integers.
pub open spec fn min_int(a: int, b: int) -> int {
    if a <= b {
        a
    } else {
        b
    }
}

/// The slice that the tiling walk cuts at buffer position `(x, y)` of an area
/// that ends at column `x_end` and row `y_end`: the tile holding that
/// position, the position's offset inside the tile (rows counting southward),
/// and as much of the area as the tile still covers on each axis.
pub open spec fn slice_at(
    west: int,
    north: int,
    ts: int,
    x: int,
    y: int,
    x_end: int,
    y_end: int,
) -> TileSlice {
    let v = west + x;
    let n = north - y;
    let tx = v % ts;
    let ty = ts - 1 - n % ts;
    TileSlice {
        tile_key: TileKey { lon: tile_index_of(v, ts) as i32, lat: tile_index_of(n, ts) as i32 },
        slice_buffer_x0: x as i32,
        slice_buffer_y0: y as i32,
        slice_tile_x0: LocalCell { value: tx as i32 },
        slice_tile_y0: LocalCell { value: ty as i32 },
        slice_width: min_int(x_end - x, ts - tx) as i32,
        slice_height: min_int(y_end - y, ts - ty) as i32,
    }
}

/// The slices of one row band, from column `x` east to `x_end`, each cut at
/// the area's or its tile's east edge.
pub open spec fn row_slices(
    west: int,
    north: int,
    ts: int,
    x: int,
    y: int,
    x_end: int,
    y_end: int,
) -> Seq<TileSlice>
    decreases x_end - x,
    when ts > 0
{
    if x >= x_end {
        Seq::empty()
    } else {
        seq![slice_at(west, north, ts, x, y, x_end, y_end)] + row_slices(
            west,
            north,
            ts,
            x + min_int(x_end - x, ts - (west + x) % ts),
            y,
            x_end,
            y_end,
        )
    }
}

/// The tiling walk over the area `[x0, x_end) x [y, y_end)` of a buffer whose
/// west and north edges are `west` and `north`: row bands from north to
/// south, each band as high as the area and its tiles allow, each band cut
/// into slices from west to east.
pub open spec fn area_slices(
    west: int,
    north: int,
    ts: int,
    x0: int,
    y: int,
    x_end: int,
    y_end: int,
) -> Seq<TileSlice>
    decreases y_end - y,
    when ts > 0
{
    if y >= y_end {
        Seq::empty()
    } else {
        row_slices(west, north, ts, x0, y, x_end, y_end) + area_slices(
            west,
            north,
            ts,
            x0,
            y + min_int(y_end - y, (north - y) % ts + 1),
            x_end,
            y_end,
        )
    }
}

/// The slices that re-centring pages in around a moved block: the strips west
/// and east of the block over the full height, then those north and south of
/// it over the block's width.
pub open spec fn move_slices(
    west: int,
    north: int,
    ts: int,
    w: int,
    h: int,
    bm: BlockMove,
) -> Seq<TileSlice> {
    let dx = bm.dest_x0 as int;
    let dy = bm.dest_y0 as int;
    let bw = bm.block_width as int;
    let bh = bm.block_height as int;
    (if dx > 0 {
        area_slices(west, north, ts, 0, 0, dx, h)
    } else {
        Seq::empty()
    }) + (if dx + bw < w {
        area_slices(west, north, ts, dx + bw, 0, w, h)
    } else {
        Seq::empty()
    }) + (if bw > 0 && dy > 0 {
        area_slices(west, north, ts, dx, 0, dx + bw, dy)
    } else {
        Seq::empty()
    }) + (if bw > 0 && dy + bh < h {
        area_slices(west, north, ts, dx, dy + bh, dx + bw, h)
    } else {
        Seq::empty()
    })
}

pub open spec fn slice_cell_value(s: TileSlice, ts: int, x: int, y: int) -> int {
    pack_cell(
        s.tile_key.lon * ts + s.slice_tile_x0.value + (x - s.slice_buffer_x0),
        s.tile_key.lat * ts + ts - 1 - (s.slice_tile_y0.value + (y - s.slice_buffer_y0)),
    )
}

pub proof fn lemma_index(w: int, x: int, y: int)
    requires
        w > 0,
        0 <= x < w,
    ensures
        (y * w + x) % w == x,
        (y * w + x) / w == y,
{
    lemma_floor_unique(y * w + x, w, y);
}

pub proof fn lemma_index_in_bounds(w: int, h: int, x: int, y: int)
    requires
        w > 0,
        0 <= x < w,
        0 <= y < h,
    ensures
        0 <= y * w + x < w * h,
{
    assert(0 <= y * w + x < w * h) by (nonlinear_arith)
        requires
            w > 0,
            0 <= x < w,
            0 <= y < h,
    ;
}

/// Every flat index below `w * h` has a column below `w` and a row below `h`.
pub proof fn lemma_index_split(w: int, h: int, i: int)
    requires
        w > 0,
        0 <= i < w * h,
    ensures
        0 <= i % w < w,
        0 <= i / w < h,
        i == (i / w) * w + i % w,
{
    lemma_floor_bounds(i, w);
    let q = i / w;
    assert(0 <= q < h) by (nonlinear_arith)
        requires
            q * w <= i < q * w + w,
            0 <= i < w * h,
            w > 0,
    ;
}

/// Moving east inside one tile does not cross a wrapping threshold.
pub proof fn lemma_wrap_same_tile(v: int, d: int, ts: int)
    requires
        valid_tile_size(ts),
        0 <= d,
        v % ts + d < ts,
    ensures
        wrap_lon_cell(v + d, ts) == wrap_lon_cell(v, ts) + d,
{
    let t = v / ts;
    lemma_floor_bounds(v, ts);
    lemma_floor_unique(v + d, ts, t);
    assert(v < -180 * ts <==> t < -180) by (nonlinear_arith)
        requires
            t * ts <= v < t * ts + ts,
            ts > 0,
    ;
    assert(v + d < -180 * ts <==> t < -180) by (nonlinear_arith)
        requires
            t * ts <= v + d < t * ts + ts,
            ts > 0,
    ;
    assert(v >= 180 * ts <==> t >= 180) by (nonlinear_arith)
        requires
            t * ts <= v < t * ts + ts,
            ts > 0,
    ;
    assert(v + d >= 180 * ts <==> t >= 180) by (nonlinear_arith)
        requires
            t * ts <= v + d < t * ts + ts,
            ts > 0,
    ;
}

/// A run of buffer cells backed by one tile.
#[derive(Clone, Copy, Debug, PartialEq, Eq, Structural)]
pub struct TileSlice {
    pub tile_key: TileKey,
    pub slice_buffer_x0: i32,
    pub slice_buffer_y0: i32,
    pub slice_tile_x0: LocalCell,
    pub slice_tile_y0: LocalCell,
    pub slice_width: i32,
    pub slice_height: i32,
}

/// The overlap relocated by a partial update: a `block_width` by
/// `block_height` rectangle moved from `(source_x0, source_y0)` in the old
/// layout to `(dest_x0, dest_y0)` in the new one.
#[derive(Clone, Copy, Debug, PartialEq, Eq, Structural)]
pub struct BlockMove {
    pub source_x0: i32,
    pub source_y0: i32,
    pub block_width: i32,
    pub block_height: i32,
    pub dest_x0: i32,
    pub dest_y0: i32,
}

#[derive(Clone, Copy, Debug, PartialEq, Eq, Structural)]
pub enum BufferState {
    Uninitialized,
    Initialized,
}

#[derive(Clone, Copy, Debug, PartialEq, Eq, Structural)]
enum BufferUpdateDecision {
    PartialUpdatePerformed,
    EntireBufferReloadRequired,
}

/// Why a buffer cannot be built.
#[derive(Clone, Copy, Debug, PartialEq, Eq, Structural)]
pub enum ConfigError {
    /// The tile size is outside `1 ..= MAX_BUFFER_TILE_SIZE`.
    InvalidTileSize,
    /// A dimension is not positive, the width exceeds the globe
    /// (`360 * dem_tile_size` cells), or the cell count exceeds `i32::MAX`.
    InvalidDimensions,
}

/// Why a view update was refused; the buffer is then left as it was.
#[derive(Clone, Copy, Debug, PartialEq, Eq, Structural)]
pub enum ViewError {
    /// Some row of the new coverage would lie outside latitudes `[-180, 180)`.
    LatitudeOutOfRange,
}

/// The mathematical state of a buffer.
pub struct DemBufferView {
    pub width: int,
    pub height: int,
    pub tile_size: int,
    pub margin: int,
    pub initialized: bool,
    pub cells: Seq<i32>,
    pub center_lon: int,
    pub center_lat: int,
    pub west: int,
    pub east: int,
    pub north: int,
    pub south: int,
    pub slices: Seq<TileSlice>,
    pub block_move: Option<BlockMove>,
}

impl DemBufferView {
    pub open spec fn config_ok(self) -> bool {
        &&& 1 <= self.tile_size <= MAX_BUFFER_TILE_SIZE
        &&& 1 <= self.width <= 360 * self.tile_size
        &&& 1 <= self.height
        &&& self.width * self.height <= i32::MAX
        &&& self.cells.len() == self.width * self.height
        &&& i32::MIN <= self.margin <= i32::MAX
    }

    /// The packed value at column `x`, row `y`.
    pub open spec fn cell(self, x: int, y: int) -> i32 {
        self.cells[y * self.width + x]
    }

    pub open spec fn expected(self, i: int) -> int {
        expected_cell(self.west, self.north, self.tile_size, self.width, i)
    }

    /// Edges and centre agree, and every cell holds the global cell of its position.
    pub open spec fn coverage_ok(self) -> bool {
        &&& self.east == self.west + self.width
        &&& self.south == self.north - self.height
        &&& self.west == self.center_lon - self.width / 2
        &&& self.north == self.center_lat + self.height / 2
        &&& -180 * self.tile_size <= self.center_lon < 180 * self.tile_size
        &&& lat_rows_fit(self.north, self.height, self.tile_size)
        &&& forall|i: int| 0 <= i < self.cells.len() ==> #[trigger] self.cells[i] == self.expected(i)
    }

    pub open spec fn wf(self) -> bool {
        &&& self.config_ok()
        &&& self.initialized ==> self.coverage_ok()
        &&& !self.initialized ==> forall|i: int|
            0 <= i < self.cells.len() ==> #[trigger] self.cells[i] == EMPTY_CELL
    }

    /// Every cell holds a valid packed coordinate pair.
    pub open spec fn all_cells_set(self) -> bool {
        forall|i: int| 0 <= i < self.cells.len() ==> is_valid_packed(#[trigger] self.cells[i] as int)
    }

    pub open spec fn new_west(self, c_lon: int) -> int {
        c_lon - self.width / 2
    }

    pub open spec fn new_north(self, c_lat: int) -> int {
        c_lat + self.height / 2
    }

    /// West edge of the overlap between the current coverage and the one centred on `c_lon`.
    pub open spec fn overlap_west(self, c_lon: int) -> int {
        if self.west >= self.new_west(c_lon) {
            self.west
        } else {
            self.new_west(c_lon)
        }
    }

    pub open spec fn overlap_east(self, c_lon: int) -> int {
        if self.east <= self.new_west(c_lon) + self.width {
            self.east
        } else {
            self.new_west(c_lon) + self.width
        }
    }

    pub open spec fn overlap_north(self, c_lat: int) -> int {
        if self.north <= self.new_north(c_lat) {
            self.north
        } else {
            self.new_north(c_lat)
        }
    }

    pub open spec fn overlap_south(self, c_lat: int) -> int {
        if self.south >= self.new_north(c_lat) - self.height {
            self.south
        } else {
            self.new_north(c_lat) - self.height
        }
    }

    /// The old and new coverage share a (possibly empty-area) rectangle.
    pub open spec fn has_overlap(self, c_lon: int, c_lat: int) -> bool {
        self.overlap_east(c_lon) - self.overlap_west(c_lon) >= 0 && self.overlap_north(c_lat)
            - self.overlap_south(c_lat) >= 0
    }

    /// The block move that re-centring on `(c_lon, c_lat)` performs.
    pub open spec fn planned_block_move(self, c_lon: int, c_lat: int) -> BlockMove {
        BlockMove {
            source_x0: (self.overlap_west(c_lon) - self.west) as i32,
            source_y0: (self.north - self.overlap_north(c_lat)) as i32,
            block_width: (self.overlap_east(c_lon) - self.overlap_west(c_lon)) as i32,
            block_height: (self.overlap_north(c_lat) - self.overlap_south(c_lat)) as i32,
            dest_x0: (self.overlap_west(c_lon) - self.new_west(c_lon)) as i32,
            dest_y0: (self.new_north(c_lat) - self.overlap_north(c_lat)) as i32,
        }
    }

    /// The visible area around `(c_lon, c_lat)` comes closer than the margin
    /// to some edge of the current coverage.
    pub open spec fn update_required(self, c_lon: int, c_lat: int, vw: int, vh: int) -> bool {
        let visible_west = c_lon - half_toward_zero(vw);
        let visible_east = visible_west + vw;
        let visible_north = c_lat + half_toward_zero(vh);
        let visible_south = visible_north - vh;
        ||| visible_west - self.west < self.margin
        ||| self.east - visible_east < self.margin
        ||| self.north - visible_north < self.margin
        ||| visible_south - self.south < self.margin
    }

    /// The same configuration: size, tile size and margin.
    pub open spec fn same_config(self, other: DemBufferView) -> bool {
        &&& self.width == other.width
        &&& self.height == other.height
        &&& self.tile_size == other.tile_size
        &&& self.margin == other.margin
    }

    /// The cell at `(x, y)`, its east neighbour and its south neighbour decode
    /// to neighbouring global cells.
    pub open spec fn neighbors_ok_at(self, x: int, y: int) -> bool {
        let c = self.cell(x, y) as int;
        let e = self.cell(x + 1, y) as int;
        let s = self.cell(x, y + 1) as int;
        &&& is_valid_packed(c)
        &&& is_valid_packed(e)
        &&& is_valid_packed(s)
        &&& unpack_lon(e) == next_lon_cell(unpack_lon(c), self.tile_size)
        &&& unpack_lat(e) == unpack_lat(c)
        &&& unpack_lon(s) == unpack_lon(c)
        &&& unpack_lat(s) == unpack_lat(c) - 1
    }

    /// What the neighbour check of the buffer verifies: the relation above at
    /// every cell that has both an east and a south neighbour.
    pub open spec fn neighbors_consistent(self) -> bool {
        forall|x: int, y: int|
            0 <= x < self.width - 1 && 0 <= y < self.height - 1 ==> #[trigger] self.neighbors_ok_at(
                x,
                y,
            )
    }

    /// The centre cell decodes to the recorded centre.
    pub open spec fn center_cell_ok(self) -> bool {
        let c = self.cell(self.width / 2, self.height / 2) as int;
        &&& is_valid_packed(c)
        &&& unpack_lon(c) == self.center_lon
        &&& unpack_lat(c) == self.center_lat
    }
}

/// The visible area, kept the margin away from every edge, fits a buffer of
/// this size when centred on the buffer's centre.
pub open spec fn visible_area_fits(b: DemBufferView, vw: int, vh: int) -> bool {
    &&& b.width / 2 - half_toward_zero(vw) >= b.margin
    &&& (b.width - b.width / 2) - (vw - half_toward_zero(vw)) >= b.margin
    &&& b.height / 2 - half_toward_zero(vh) >= b.margin
    &&& (b.height - b.height / 2) - (vh - half_toward_zero(vh)) >= b.margin
}

/// Centre correctness: in a buffer that holds data, the cell at
/// `(width / 2, height / 2)` decodes to the recorded centre.
pub proof fn lemma_center_cell_is_center(b: DemBufferView)
    requires
        b.wf(),
        b.initialized,
    ensures
        b.center_cell_ok(),
{
    let x = b.width / 2;
    let y = b.height / 2;
    lemma_index(b.width, x, y);
    lemma_index_in_bounds(b.width, b.height, x, y);
    lemma_pack_cell(wrap_lon_cell(b.west + x, b.tile_size), b.north - y);
}

/// Neighbour consistency: in a buffer that holds data, the east neighbour
/// of every cell is one longitude cell further east (wrapping at the
/// antimeridian) on the same latitude, and the south neighbour one
/// latitude cell further south on the same longitude.
pub proof fn lemma_neighbors_are_consistent(b: DemBufferView)
    requires
        b.wf(),
        b.initialized,
    ensures
        forall|x: int, y: int|
            0 <= x < b.width - 1 && 0 <= y < b.height ==> {
                let c = #[trigger] b.cell(x, y) as int;
                let e = b.cell(x + 1, y) as int;
                &&& is_valid_packed(c)
                &&& is_valid_packed(e)
                &&& unpack_lon(e) == next_lon_cell(unpack_lon(c), b.tile_size)
                &&& unpack_lat(e) == unpack_lat(c)
            },
        forall|x: int, y: int|
            0 <= x < b.width && 0 <= y < b.height - 1 ==> {
                let c = #[trigger] b.cell(x, y) as int;
                let s = b.cell(x, y + 1) as int;
                &&& is_valid_packed(c)
                &&& is_valid_packed(s)
                &&& unpack_lon(s) == unpack_lon(c)
                &&& unpack_lat(s) == unpack_lat(c) - 1
            },
        b.neighbors_consistent(),
{
    let ts = b.tile_size;
    let w = b.width;
    assert forall|x: int, y: int| 0 <= x < w && 0 <= y < b.height implies {
        &&& is_valid_packed(#[trigger] b.cell(x, y) as int)
        &&& unpack_lon(b.cell(x, y) as int) == wrap_lon_cell(b.west + x, ts)
        &&& unpack_lat(b.cell(x, y) as int) == b.north - y
    } by {
        lemma_index(w, x, y);
        lemma_index_in_bounds(w, b.height, x, y);
        lemma_wrap_range(b.west + x, ts);
        lemma_pack_cell(wrap_lon_cell(b.west + x, ts), b.north - y);
    }
    assert forall|x: int, y: int| 0 <= x < w - 1 && 0 <= y < b.height implies unpack_lon(
        b.cell(x + 1, y) as int,
    ) == next_lon_cell(unpack_lon(#[trigger] b.cell(x, y) as int), ts) by {
        assert(b.cell(x + 1, y) == b.cell(x + 1, y));
    }
    assert forall|x: int, y: int| 0 <= x < w - 1 && 0 <= y < b.height - 1 implies #[trigger] b.neighbors_ok_at(x, y) by {
        assert(b.cell(x + 1, y) == b.cell(x + 1, y));
        assert(b.cell(x, y + 1) == b.cell(x, y + 1));
    }
}

/// No-op idempotence: when the visible area fits the buffer with its
/// margin, repeating a successful update with the same centre and visible
/// area loads no slice and moves no block, and leaves the cells as they are.
pub proof fn lemma_repeated_update_is_no_op(
    b0: DemBufferView,
    b1: DemBufferView,
    b2: DemBufferView,
    lon_micro: int,
    lat_micro: int,
    vw: int,
    vh: int,
)
    requires
        b0.wf(),
        visible_area_fits(b0, vw, vh),
        update_post(b0, b1, lon_micro, lat_micro, vw, vh, true),
        update_post(b1, b2, lon_micro, lat_micro, vw, vh, true),
    ensures
        b2.slices.len() == 0,
        b2.block_move is None,
        b2.cells == b1.cells,
        b2.center_lon == b1.center_lon,
        b2.center_lat == b1.center_lat,
{
    let ts = b0.tile_size;
    let c_lon = view_center_lon(lon_micro, ts);
    let c_lat = cell_of_degrees(lat_micro, ts);
    assert(!b1.update_required(c_lon, c_lat, vw, vh));
}

/// The longitude cell that a view centred on `lon_micro` records as its centre.
pub open spec fn view_center_lon(lon_micro: int, ts: int) -> int {
    wrap_lon_cell(cell_of_degrees(lon_micro, ts), ts)
}

/// What a call of `update_map_position` leaves behind, `ok` telling whether it succeeded.
pub open spec fn update_post(
    old: DemBufferView,
    new: DemBufferView,
    lon_micro: int,
    lat_micro: int,
    vw: int,
    vh: int,
    ok: bool,
) -> bool {
    let ts = old.tile_size;
    let c_lon = view_center_lon(lon_micro, ts);
    let c_lat = cell_of_degrees(lat_micro, ts);
    &&& new.wf()
    &&& new.same_config(old)
    &&& ok <==> lat_rows_fit(c_lat + old.height / 2, old.height, ts)
    &&& !ok ==> new == old
    &&& ok ==> {
        &&& new.initialized
        &&& new.all_cells_set()
        &&& if old.initialized && !old.update_required(c_lon, c_lat, vw, vh) {
            &&& new == (DemBufferView { slices: Seq::empty(), block_move: None, ..old })
        } else {
            &&& new.center_lon == c_lon
            &&& new.center_lat == c_lat
            &&& old.initialized && old.has_overlap(c_lon, c_lat) ==> {
                &&& new.block_move == Some(old.planned_block_move(c_lon, c_lat))
                &&& new.slices == move_slices(
                    new.west,
                    new.north,
                    ts,
                    old.width,
                    old.height,
                    old.planned_block_move(c_lon, c_lat),
                )
            }
            &&& !(old.initialized && old.has_overlap(c_lon, c_lat)) ==> {
                &&& new.block_move is None
                &&& new.slices == area_slices(new.west, new.north, ts, 0, 0, old.width, old.height)
            }
        }
    }
}

/// A covering buffer has every cell set.
pub proof fn lemma_covering_cells_are_set(b: DemBufferView)
    requires
        b.wf(),
        b.initialized,
    ensures
        b.all_cells_set(),
{
    let ts = b.tile_size;
    assert forall|i: int| 0 <= i < b.cells.len() implies is_valid_packed(
        #[trigger] b.cells[i] as int,
    ) by {
        lemma_index_split(b.width, b.height, i);
        let x = i % b.width;
        let y = i / b.width;
        lemma_wrap_range(b.west + x, ts);
        lemma_pack_cell(wrap_lon_cell(b.west + x, ts), b.north - y);
    }
}

/// Wrapped longitude cells lie in `[-180 * ts, 180 * ts)`.
pub proof fn lemma_wrap_range(v: int, ts: int)
    requires
        1 <= ts,
        -540 * ts <= v < 540 * ts,
    ensures
        -180 * ts <= wrap_lon_cell(v, ts) < 180 * ts,
{
}

/// A fixed-size window of packed cells over the globe.
#[derive(Debug)]
pub struct DemBuffer {
    buffer_width: i32,
    buffer_height: i32,
    dem_tile_size: i32,
    min_cell_distance_to_edge_before_refresh: i32,
    state: BufferState,
    data: Vec<i32>,
    center_global_cell_lon: GlobalCell,
    center_global_cell_lat: GlobalCell,
    buffer_west_edge: GlobalCell,
    buffer_east_edge: GlobalCell,
    buffer_north_edge: GlobalCell,
    buffer_south_edge: GlobalCell,
    slices_loaded: Vec<TileSlice>,
    block_move: Option<BlockMove>,
}

impl View for DemBuffer {
    type V = DemBufferView;

    closed spec fn view(&self) -> DemBufferView {
        DemBufferView {
            width: self.buffer_width as int,
            height: self.buffer_height as int,
            tile_size: self.dem_tile_size as int,
            margin: self.min_cell_distance_to_edge_before_refresh as int,
            initialized: self.state == BufferState::Initialized,
            cells: self.data@,
            center_lon: self.center_global_cell_lon.value as int,
            center_lat: self.center_global_cell_lat.value as int,
            west: self.buffer_west_edge.value as int,
            east: self.buffer_east_edge.value as int,
            north: self.buffer_north_edge.value as int,
            south: self.buffer_south_edge.value as int,
            slices: self.slices_loaded@,
            block_move: self.block_move,
        }
    }
}

impl DemBuffer {
    pub open spec fn wf(&self) -> bool {
        self@.wf()
    }

    /// A buffer of `width` by `height` cells for tiles of `dem_tile_size`
    /// cells per degree, not yet holding any data.
    pub fn new(
        width: i32,
        height: i32,
        dem_tile_size: i32,
        min_cell_distance_to_edge_before_refresh: i32,
    ) -> (r: Result<Self, ConfigError>)
        ensures
            !(1 <= dem_tile_size <= MAX_BUFFER_TILE_SIZE) <==> r == Err::<Self, ConfigError>(
                ConfigError::InvalidTileSize,
            ),
            (1 <= dem_tile_size <= MAX_BUFFER_TILE_SIZE && !(1 <= width <= 360 * dem_tile_size
                && 1 <= height && width * height <= i32::MAX)) <==> r == Err::<Self, ConfigError>(
                ConfigError::InvalidDimensions,
            ),
            r matches Ok(b) ==> {
                &&& b.wf()
                &&& !b@.initialized
                &&& b@.width == width
                &&& b@.height == height
                &&& b@.tile_size == dem_tile_size
                &&& b@.margin == min_cell_distance_to_edge_before_refresh
                &&& b@.slices.len() == 0
                &&& b@.block_move is None
            },
    {
        if dem_tile_size < 1 || dem_tile_size > MAX_BUFFER_TILE_SIZE {
            return Err(ConfigError::InvalidTileSize);
        }
        if width < 1 || width > 360 * dem_tile_size || height < 1 {
            return Err(ConfigError::InvalidDimensions);
        }
        proof {
            assert(0 < width as int * height as int <= 65520 * i32::MAX) by (nonlinear_arith)
                requires
                    1 <= width <= 65520,
                    1 <= height <= i32::MAX,
            ;
        }
        if width as i64 * height as i64 > i32::MAX as i64 {
            return Err(ConfigError::InvalidDimensions);
        }
        let size = (width as i64 * height as i64) as usize;
        let data: Vec<i32> = vec![EMPTY_CELL; size];
        Ok(
            DemBuffer {
                buffer_width: width,
                buffer_height: height,
                dem_tile_size,
                min_cell_distance_to_edge_before_refresh,
                state: BufferState::Uninitialized,
                data,
                center_global_cell_lon: GlobalCell::new(0),
                center_global_cell_lat: GlobalCell::new(0),
                buffer_west_edge: GlobalCell::new(0),
                buffer_east_edge: GlobalCell::new(0),
                buffer_north_edge: GlobalCell::new(0),
                buffer_south_edge: GlobalCell::new(0),
                slices_loaded: Vec::new(),
                block_move: None,
            },
        )
    }

    /// The packed cell at column `x`, row `y`.
    pub fn get_cell(&self, x: i32, y: i32) -> (r: CellKey)
        requires
            self@.config_ok(),
            0 <= x < self@.width,
            0 <= y < self@.height,
        ensures
            r@ == self@.cell(x as int, y as int),
    {
        proof {
            lemma_index_in_bounds(self@.width, self@.height, x as int, y as int);
        }
        let index = y as usize * self.buffer_width as usize + x as usize;
        CellKey::from_i32(self.data[index])
    }

    /// Writes a cell that holds no data yet. A cell that already holds data is
    /// never overwritten: every caller proves the target empty.
    fn set_cell(&mut self, x: i32, y: i32, value: &CellKey)
        requires
            old(self)@.config_ok(),
            0 <= x < old(self)@.width,
            0 <= y < old(self)@.height,
            old(self)@.cell(x as int, y as int) == EMPTY_CELL,
        ensures
            final(self)@ == (DemBufferView {
                cells: old(self)@.cells.update(y * old(self)@.width + x, value@ as i32),
                ..old(self)@
            }),
    {
        proof {
            lemma_index_in_bounds(self@.width, self@.height, x as int, y as int);
        }
        let index = y as usize * self.buffer_width as usize + x as usize;
        self.data.set(index, value.to_i32());
    }

    /// Empties every cell.
    fn clear_data(&mut self)
        requires
            old(self)@.config_ok(),
        ensures
            final(self)@ == (DemBufferView { cells: final(self)@.cells, ..old(self)@ }),
            final(self)@.cells.len() == old(self)@.cells.len(),
            forall|i: int|
                0 <= i < final(self)@.cells.len() ==> #[trigger] final(self)@.cells[i]
                    == EMPTY_CELL,
    {
        let n = self.data.len();
        let mut i: usize = 0;
        while i < n
            invariant
                n == self.data@.len(),
                self@ == (DemBufferView { cells: self@.cells, ..old(self)@ }),
                self@.cells.len() == old(self)@.cells.len(),
                0 <= i <= n,
                forall|j: int| 0 <= j < i ==> #[trigger] self@.cells[j] == EMPTY_CELL,
            decreases n - i,
        {
            self.data.set(i, EMPTY_CELL);
            i += 1;
        }
    }

    fn clear_update_log(&mut self)
        ensures
            final(self)@ == (DemBufferView {
                slices: Seq::empty(),
                block_move: None,
                ..old(self)@
            }),
    {
        self.slices_loaded.clear();
        self.block_move = None;
    }

    /// Fills the cells of one tile slice from the tile's coordinates and
    /// records the slice.
    fn load_tile_slice(&mut self, slice: &TileSlice)
        requires
            old(self)@.config_ok(),
            0 <= slice.slice_buffer_x0,
            0 < slice.slice_width,
            slice.slice_buffer_x0 + slice.slice_width <= old(self)@.width,
            0 <= slice.slice_buffer_y0,
            0 < slice.slice_height,
            slice.slice_buffer_y0 + slice.slice_height <= old(self)@.height,
            0 <= slice.slice_tile_x0.value,
            slice.slice_tile_x0.value + slice.slice_width <= old(self)@.tile_size,
            0 <= slice.slice_tile_y0.value,
            slice.slice_tile_y0.value + slice.slice_height <= old(self)@.tile_size,
            -180 <= slice.tile_key.lon < 180,
            -180 <= slice.tile_key.lat < 180,
            forall|i: int|
                0 <= i < old(self)@.cells.len() && in_rect(
                    old(self)@.width,
                    i,
                    slice.slice_buffer_x0 as int,
                    slice.slice_buffer_y0 as int,
                    slice.slice_width as int,
                    slice.slice_height as int,
                ) ==> #[trigger] old(self)@.cells[i] == EMPTY_CELL,
        ensures
            final(self)@ == (DemBufferView {
                cells: final(self)@.cells,
                slices: old(self)@.slices.push(*slice),
                ..old(self)@
            }),
            final(self)@.cells.len() == old(self)@.cells.len(),
            forall|i: int|
                0 <= i < old(self)@.cells.len() ==> #[trigger] final(self)@.cells[i] as int == if in_rect(
                    old(self)@.width,
                    i,
                    slice.slice_buffer_x0 as int,
                    slice.slice_buffer_y0 as int,
                    slice.slice_width as int,
                    slice.slice_height as int,
                ) {
                    slice_cell_value(
                        *slice,
                        old(self)@.tile_size,
                        i % old(self)@.width,
                        i / old(self)@.width,
                    )
                } else {
                    old(self)@.cells[i] as int
                },
    {
        let ghost w = self@.width;
        let ghost ts = self@.tile_size;
        let ghost orig = self@.cells;
        let ts_exec = self.dem_tile_size;
        proof {
            assert(-180 * ts <= slice.tile_key.lon * ts <= 179 * ts) by (nonlinear_arith)
                requires
                    -180 <= slice.tile_key.lon < 180,
                    ts > 0,
            ;
            assert(-180 * ts <= slice.tile_key.lat * ts <= 179 * ts) by (nonlinear_arith)
                requires
                    -180 <= slice.tile_key.lat < 180,
                    ts > 0,
            ;
        }
        let lon_global_cell = slice.tile_key.lon * ts_exec;
        let lat_global_cell = slice.tile_key.lat * ts_exec;
        let bx0 = slice.slice_buffer_x0;
        let by0 = slice.slice_buffer_y0;
        let sw = slice.slice_width;
        let sh = slice.slice_height;
        let mut y: i32 = 0;
        while y < sh
            invariant
                self@ == (DemBufferView { cells: self@.cells, ..old(self)@ }),
                self@.config_ok(),
                w == self@.width,
                ts == self@.tile_size,
                ts_exec == ts,
                orig == old(self)@.cells,
                self@.cells.len() == orig.len(),
                lon_global_cell == slice.tile_key.lon * ts,
                lat_global_cell == slice.tile_key.lat * ts,
                -180 * ts <= lon_global_cell <= 179 * ts,
                -180 * ts <= lat_global_cell <= 179 * ts,
                bx0 == slice.slice_buffer_x0,
                by0 == slice.slice_buffer_y0,
                sw == slice.slice_width,
                sh == slice.slice_height,
                0 <= bx0,
                0 < sw,
                bx0 + sw <= w,
                0 <= by0,
                0 < sh,
                by0 + sh <= self@.height,
                0 <= slice.slice_tile_x0.value,
                slice.slice_tile_x0.value + sw <= ts,
                0 <= slice.slice_tile_y0.value,
                slice.slice_tile_y0.value + sh <= ts,
                -180 <= slice.tile_key.lon < 180,
                -180 <= slice.tile_key.lat < 180,
                0 <= y <= sh,
                forall|i: int|
                    0 <= i < orig.len() && in_rect(w, i, bx0 as int, by0 as int, sw as int, sh as int)
                        ==> #[trigger] orig[i] == EMPTY_CELL,
                forall|i: int|
                    0 <= i < orig.len() ==> #[trigger] self@.cells[i] as int == if in_rect(
                        w,
                        i,
                        bx0 as int,
                        by0 as int,
                        sw as int,
                        y as int,
                    ) {
                        slice_cell_value(*slice, ts, i % w, i / w)
                    } else {
                        orig[i] as int
                    },
            decreases sh - y,
        {
            let mut x: i32 = 0;
            while x < sw
                invariant
                    self@ == (DemBufferView { cells: self@.cells, ..old(self)@ }),
                    self@.config_ok(),
                    w == self@.width,
                    ts == self@.tile_size,
                    ts_exec == ts,
                    orig == old(self)@.cells,
                    self@.cells.len() == orig.len(),
                    lon_global_cell == slice.tile_key.lon * ts,
                    lat_global_cell == slice.tile_key.lat * ts,
                    -180 * ts <= lon_global_cell <= 179 * ts,
                    -180 * ts <= lat_global_cell <= 179 * ts,
                    bx0 == slice.slice_buffer_x0,
                    by0 == slice.slice_buffer_y0,
                    sw == slice.slice_width,
                    sh == slice.slice_height,
                    0 <= bx0,
                    0 < sw,
                    bx0 + sw <= w,
                    0 <= by0,
                    0 < sh,
                    by0 + sh <= self@.height,
                    0 <= slice.slice_tile_x0.value,
                    slice.slice_tile_x0.value + sw <= ts,
                    0 <= slice.slice_tile_y0.value,
                    slice.slice_tile_y0.value + sh <= ts,
                    -180 <= slice.tile_key.lon < 180,
                    -180 <= slice.tile_key.lat < 180,
                    0 <= y < sh,
                    0 <= x <= sw,
                    forall|i: int|
                        0 <= i < orig.len() && in_rect(
                            w,
                            i,
                            bx0 as int,
                            by0 as int,
                            sw as int,
                            sh as int,
                        ) ==> #[trigger] orig[i] == EMPTY_CELL,
                    forall|i: int|
                        0 <= i < orig.len() ==> #[trigger] self@.cells[i] as int == if in_rect(
                            w,
                            i,
                            bx0 as int,
                            by0 as int,
                            sw as int,
                            y as int,
                        ) || in_rect(w, i, bx0 as int, by0 + y, x as int, 1) {
                            slice_cell_value(*slice, ts, i % w, i / w)
                        } else {
                            orig[i] as int
                        },
                decreases sw - x,
            {
                let tile_x = slice.slice_tile_x0.value + x;
                let tile_y = slice.slice_tile_y0.value + y;
                let dem_lon_global_cell = GlobalCell::new(lon_global_cell + tile_x);
                let dem_lat_global_cell = GlobalCell::new(
                    lat_global_cell + (ts_exec - 1 - tile_y),
                );
                let buffer_x = bx0 + x;
                let buffer_y = by0 + y;
                let ghost idx = buffer_y * w + buffer_x;
                proof {
                    lemma_index(w, buffer_x as int, buffer_y as int);
                    lemma_index_in_bounds(w, self@.height, buffer_x as int, buffer_y as int);
                    assert(in_rect(w, idx, bx0 as int, by0 as int, sw as int, sh as int));
                    assert(self@.cells[idx] == orig[idx]);
                }
                let key = CellKey::from_cell_coords(&dem_lon_global_cell, &dem_lat_global_cell);
                self.set_cell(buffer_x, buffer_y, &key);
                proof {
                    assert(key@ == slice_cell_value(*slice, ts, buffer_x as int, buffer_y as int));
                    assert forall|i: int| 0 <= i < orig.len() implies #[trigger] self@.cells[i] as int
                        == if in_rect(w, i, bx0 as int, by0 as int, sw as int, y as int)
                        || in_rect(w, i, bx0 as int, by0 + y, x + 1, 1) {
                        slice_cell_value(*slice, ts, i % w, i / w)
                    } else {
                        orig[i] as int
                    } by {
                        if i == idx {
                        } else {
                            if in_rect(w, i, bx0 as int, by0 + y, x + 1, 1) && !in_rect(
                                w,
                                i,
                                bx0 as int,
                                by0 + y,
                                x as int,
                                1,
                            ) {
                                lemma_floor_bounds(i, w);
                                assert(i == idx);
                            }
                        }
                    }
                }
                x += 1;
            }
            proof {
                assert forall|i: int| 0 <= i < orig.len() implies #[trigger] self@.cells[i] as int
                    == if in_rect(w, i, bx0 as int, by0 as int, sw as int, y + 1) {
                    slice_cell_value(*slice, ts, i % w, i / w)
                } else {
                    orig[i] as int
                } by {}
            }
            y += 1;
        }
        self.slices_loaded.push(*slice);
    }
    /// Pages in a rectangle of the buffer, tile slice by tile slice: rows of
    /// slices from north to south, each row from west to east, every slice as
    /// large as the rectangle and its tile's edges allow.
    fn update_buffer_area(&mut self, area_x: i32, area_y: i32, area_width: i32, area_height: i32)
        requires
            old(self)@.config_ok(),
            -360 * old(self)@.tile_size <= old(self)@.west,
            old(self)@.west + old(self)@.width <= 360 * old(self)@.tile_size,
            lat_rows_fit(old(self)@.north, old(self)@.height, old(self)@.tile_size),
            0 <= area_x,
            0 < area_width,
            area_x + area_width <= old(self)@.width,
            0 <= area_y,
            0 < area_height,
            area_y + area_height <= old(self)@.height,
            forall|i: int|
                0 <= i < old(self)@.cells.len() && in_rect(
                    old(self)@.width,
                    i,
                    area_x as int,
                    area_y as int,
                    area_width as int,
                    area_height as int,
                ) ==> #[trigger] old(self)@.cells[i] == EMPTY_CELL,
        ensures
            final(self)@ == (DemBufferView {
                cells: final(self)@.cells,
                slices: final(self)@.slices,
                ..old(self)@
            }),
            final(self)@.slices == old(self)@.slices + area_slices(
                old(self)@.west,
                old(self)@.north,
                old(self)@.tile_size,
                area_x as int,
                area_y as int,
                area_x + area_width,
                area_y + area_height,
            ),
            final(self)@.cells.len() == old(self)@.cells.len(),
            forall|i: int|
                0 <= i < old(self)@.cells.len() ==> #[trigger] final(self)@.cells[i] as int == if in_rect(
                    old(self)@.width,
                    i,
                    area_x as int,
                    area_y as int,
                    area_width as int,
                    area_height as int,
                ) {
                    old(self)@.expected(i)
                } else {
                    old(self)@.cells[i] as int
                },
    {
        let ghost w = self@.width;
        let ghost ts = self@.tile_size;
        let ghost orig = self@.cells;
        let ghost v0 = self@;
        let dem_tile_size = self.dem_tile_size;
        let area_x1 = area_x + area_width;
        let area_y1 = area_y + area_height;
        let area_west_edge_global_cell = GlobalCell::new(self.buffer_west_edge.value + area_x);
        let mut slice_north_edge_global_cell = GlobalCell::new(
            self.buffer_north_edge.value - area_y,
        );
        let mut slice_buffer_y0 = area_y;
        while slice_buffer_y0 < area_y1
            invariant
                self@ == (DemBufferView { cells: self@.cells, slices: self@.slices, ..v0 }),
                v0 == old(self)@,
                v0.config_ok(),
                -360 * ts <= v0.west,
                v0.west + v0.width <= 360 * ts,
                lat_rows_fit(v0.north, v0.height, ts),
                w == v0.width,
                ts == v0.tile_size,
                dem_tile_size == ts,
                orig == v0.cells,
                self@.cells.len() == orig.len(),
                0 <= area_x,
                0 < area_width,
                area_x1 == area_x + area_width,
                area_x1 <= w,
                0 <= area_y,
                area_y1 == area_y + area_height,
                area_y1 <= v0.height,
                area_west_edge_global_cell.value == v0.west + area_x,
                area_y <= slice_buffer_y0 <= area_y1,
                slice_north_edge_global_cell.value == v0.north - slice_buffer_y0,
                self@.slices + area_slices(
                    v0.west,
                    v0.north,
                    ts,
                    area_x as int,
                    slice_buffer_y0 as int,
                    area_x1 as int,
                    area_y1 as int,
                ) == v0.slices + area_slices(
                    v0.west,
                    v0.north,
                    ts,
                    area_x as int,
                    area_y as int,
                    area_x1 as int,
                    area_y1 as int,
                ),
                forall|i: int|
                    0 <= i < orig.len() && in_rect(
                        w,
                        i,
                        area_x as int,
                        area_y as int,
                        area_width as int,
                        area_height as int,
                    ) ==> #[trigger] orig[i] == EMPTY_CELL,
                forall|i: int|
                    0 <= i < orig.len() ==> #[trigger] self@.cells[i] as int == if in_rect(
                        w,
                        i,
                        area_x as int,
                        area_y as int,
                        area_width as int,
                        slice_buffer_y0 - area_y,
                    ) {
                        v0.expected(i)
                    } else {
                        orig[i] as int
                    },
            decreases area_y1 - slice_buffer_y0,
        {
            let tile_lat_deg = slice_north_edge_global_cell.to_tile_degrees(
                dem_tile_size,
            ).to_int_floor();
            let slice_tile_y0 = slice_north_edge_global_cell.to_local_cell_lat(dem_tile_size);
            let rows_left = area_y1 - slice_buffer_y0;
            let rows_in_tile = dem_tile_size - slice_tile_y0.value;
            let slice_height = if rows_left < rows_in_tile {
                rows_left
            } else {
                rows_in_tile
            };
            let ghost n = slice_north_edge_global_cell.value as int;
            proof {
                lemma_tile_index_of(n, ts);
                assert(wrap_lon_cell(n, ts) == n);
            }
            proof {
                assert(area_slices(
                    v0.west,
                    v0.north,
                    ts,
                    area_x as int,
                    slice_buffer_y0 as int,
                    area_x1 as int,
                    area_y1 as int,
                ) == row_slices(
                    v0.west,
                    v0.north,
                    ts,
                    area_x as int,
                    slice_buffer_y0 as int,
                    area_x1 as int,
                    area_y1 as int,
                ) + area_slices(
                    v0.west,
                    v0.north,
                    ts,
                    area_x as int,
                    slice_buffer_y0 + slice_height,
                    area_x1 as int,
                    area_y1 as int,
                ));
                assert(self@.slices + row_slices(
                    v0.west,
                    v0.north,
                    ts,
                    area_x as int,
                    slice_buffer_y0 as int,
                    area_x1 as int,
                    area_y1 as int,
                ) + area_slices(
                    v0.west,
                    v0.north,
                    ts,
                    area_x as int,
                    slice_buffer_y0 + slice_height,
                    area_x1 as int,
                    area_y1 as int,
                ) =~= self@.slices + area_slices(
                    v0.west,
                    v0.north,
                    ts,
                    area_x as int,
                    slice_buffer_y0 as int,
                    area_x1 as int,
                    area_y1 as int,
                ));
            }
            let mut slice_west_edge_global_cell = area_west_edge_global_cell;
            let mut slice_buffer_x0 = area_x;
            while slice_buffer_x0 < area_x1
                invariant
                    self@ == (DemBufferView { cells: self@.cells, slices: self@.slices, ..v0 }),
                    v0 == old(self)@,
                    v0.config_ok(),
                    -360 * ts <= v0.west,
                    v0.west + v0.width <= 360 * ts,
                    lat_rows_fit(v0.north, v0.height, ts),
                    w == v0.width,
                    ts == v0.tile_size,
                    dem_tile_size == ts,
                    orig == v0.cells,
                    self@.cells.len() == orig.len(),
                    0 <= area_x,
                    0 < area_width,
                    area_x1 == area_x + area_width,
                    area_x1 <= w,
                    0 <= area_y,
                    area_y1 == area_y + area_height,
                    area_y1 <= v0.height,
                    area_y <= slice_buffer_y0 < area_y1,
                    n == v0.north - slice_buffer_y0,
                    tile_lat_deg == tile_index_of(n, ts),
                    -180 <= tile_lat_deg < 180,
                    tile_lat_deg * ts + n % ts == n,
                    slice_tile_y0.value == ts - 1 - n % ts,
                    0 <= slice_tile_y0.value < ts,
                    0 < slice_height,
                    slice_buffer_y0 + slice_height <= area_y1,
                    slice_tile_y0.value + slice_height <= ts,
                    area_x <= slice_buffer_x0 <= area_x1,
                    slice_west_edge_global_cell.value == v0.west + slice_buffer_x0,
                    slice_height == min_int(area_y1 - slice_buffer_y0, n % ts + 1),
                    self@.slices + row_slices(
                        v0.west,
                        v0.north,
                        ts,
                        slice_buffer_x0 as int,
                        slice_buffer_y0 as int,
                        area_x1 as int,
                        area_y1 as int,
                    ) + area_slices(
                        v0.west,
                        v0.north,
                        ts,
                        area_x as int,
                        slice_buffer_y0 + slice_height,
                        area_x1 as int,
                        area_y1 as int,
                    ) == v0.slices + area_slices(
                        v0.west,
                        v0.north,
                        ts,
                        area_x as int,
                        area_y as int,
                        area_x1 as int,
                        area_y1 as int,
                    ),
                    forall|i: int|
                        0 <= i < orig.len() && in_rect(
                            w,
                            i,
                            area_x as int,
                            area_y as int,
                            area_width as int,
                            area_height as int,
                        ) ==> #[trigger] orig[i] == EMPTY_CELL,
                    forall|i: int|
                        0 <= i < orig.len() ==> #[trigger] self@.cells[i] as int == if in_rect(
                            w,
                            i,
                            area_x as int,
                            area_y as int,
                            area_width as int,
                            slice_buffer_y0 - area_y,
                        ) || in_rect(
                            w,
                            i,
                            area_x as int,
                            slice_buffer_y0 as int,
                            slice_buffer_x0 - area_x,
                            slice_height as int,
                        ) {
                            v0.expected(i)
                        } else {
                            orig[i] as int
                        },
                decreases area_x1 - slice_buffer_x0,
            {
                let ghost v = slice_west_edge_global_cell.value as int;
                proof {
                    lemma_tile_index_of(v, ts);
                }
                let tile_lon_deg = slice_west_edge_global_cell.to_tile_degrees(
                    dem_tile_size,
                ).to_int_floor();
                let slice_tile_x0 = slice_west_edge_global_cell.to_local_cell_lon(dem_tile_size);
                let cols_left = area_x1 - slice_buffer_x0;
                let cols_in_tile = dem_tile_size - slice_tile_x0.value;
                let slice_width = if cols_left < cols_in_tile {
                    cols_left
                } else {
                    cols_in_tile
                };
                let slice = TileSlice {
                    tile_key: TileKey::from_lon_lat(tile_lon_deg, tile_lat_deg),
                    slice_buffer_x0,
                    slice_buffer_y0,
                    slice_tile_x0,
                    slice_tile_y0,
                    slice_width,
                    slice_height,
                };
                let ghost before = self@.cells;
                let ghost slices_before = self@.slices;
                proof {
                    assert(slice == slice_at(
                        v0.west,
                        v0.north,
                        ts,
                        slice_buffer_x0 as int,
                        slice_buffer_y0 as int,
                        area_x1 as int,
                        area_y1 as int,
                    ));
                    assert(row_slices(
                        v0.west,
                        v0.north,
                        ts,
                        slice_buffer_x0 as int,
                        slice_buffer_y0 as int,
                        area_x1 as int,
                        area_y1 as int,
                    ) == seq![slice] + row_slices(
                        v0.west,
                        v0.north,
                        ts,
                        slice_buffer_x0 + slice_width,
                        slice_buffer_y0 as int,
                        area_x1 as int,
                        area_y1 as int,
                    ));
                }
                self.load_tile_slice(&slice);
                proof {
                    let rest = row_slices(
                        v0.west,
                        v0.north,
                        ts,
                        slice_buffer_x0 + slice_width,
                        slice_buffer_y0 as int,
                        area_x1 as int,
                        area_y1 as int,
                    );
                    let below = area_slices(
                        v0.west,
                        v0.north,
                        ts,
                        area_x as int,
                        slice_buffer_y0 + slice_height,
                        area_x1 as int,
                        area_y1 as int,
                    );
                    assert(self@.slices + rest + below =~= slices_before + (seq![slice] + rest)
                        + below);
                }
                proof {
                    assert forall|i: int| 0 <= i < orig.len() implies #[trigger] self@.cells[i] as int
                        == if in_rect(
                        w,
                        i,
                        area_x as int,
                        area_y as int,
                        area_width as int,
                        slice_buffer_y0 - area_y,
                    ) || in_rect(
                        w,
                        i,
                        area_x as int,
                        slice_buffer_y0 as int,
                        slice_buffer_x0 + slice_width - area_x,
                        slice_height as int,
                    ) {
                        v0.expected(i)
                    } else {
                        orig[i] as int
                    } by {
                        if in_rect(
                            w,
                            i,
                            slice_buffer_x0 as int,
                            slice_buffer_y0 as int,
                            slice_width as int,
                            slice_height as int,
                        ) {
                            let x = i % w;
                            let y = i / w;
                            lemma_wrap_same_tile(v, x - slice_buffer_x0, ts);
                            assert(slice_cell_value(slice, ts, x, y) == v0.expected(i));
                        }
                    }
                }
                slice_buffer_x0 = slice_buffer_x0 + slice_width;
                slice_west_edge_global_cell = GlobalCell::new(
                    slice_west_edge_global_cell.value + slice_width,
                );
            }
            proof {
                let below = area_slices(
                    v0.west,
                    v0.north,
                    ts,
                    area_x as int,
                    slice_buffer_y0 + slice_height,
                    area_x1 as int,
                    area_y1 as int,
                );
                assert(row_slices(
                    v0.west,
                    v0.north,
                    ts,
                    slice_buffer_x0 as int,
                    slice_buffer_y0 as int,
                    area_x1 as int,
                    area_y1 as int,
                ) =~= Seq::<TileSlice>::empty());
                assert(self@.slices + Seq::<TileSlice>::empty() + below =~= self@.slices + below);
            }
            slice_buffer_y0 = slice_buffer_y0 + slice_height;
            slice_north_edge_global_cell = GlobalCell::new(
                slice_north_edge_global_cell.value - slice_height,
            );
        }
    }
    /// Relocates a block of cells: every other cell is emptied, so that the
    /// cells paged in afterwards are all written into empty ones.
    fn move_dem_block(
        &mut self,
        source_x0: i32,
        source_y0: i32,
        block_width: i32,
        block_height: i32,
        dest_x0: i32,
        dest_y0: i32,
    )
        requires
            old(self)@.config_ok(),
            0 <= block_width,
            0 <= block_height,
            0 <= source_x0,
            source_x0 + block_width <= old(self)@.width,
            0 <= source_y0,
            source_y0 + block_height <= old(self)@.height,
            0 <= dest_x0,
            dest_x0 + block_width <= old(self)@.width,
            0 <= dest_y0,
            dest_y0 + block_height <= old(self)@.height,
        ensures
            final(self)@ == (DemBufferView {
                cells: final(self)@.cells,
                block_move: Some(
                    BlockMove {
                        source_x0,
                        source_y0,
                        block_width,
                        block_height,
                        dest_x0,
                        dest_y0,
                    },
                ),
                ..old(self)@
            }),
            final(self)@.cells.len() == old(self)@.cells.len(),
            forall|i: int|
                0 <= i < old(self)@.cells.len() ==> #[trigger] final(self)@.cells[i] == if in_rect(
                    old(self)@.width,
                    i,
                    dest_x0 as int,
                    dest_y0 as int,
                    block_width as int,
                    block_height as int,
                ) {
                    old(self)@.cell(
                        i % old(self)@.width - dest_x0 + source_x0,
                        i / old(self)@.width - dest_y0 + source_y0,
                    )
                } else {
                    EMPTY_CELL
                },
    {
        let ghost w = self@.width;
        let ghost orig = self@.cells;
        let n = self.data.len();
        let mut data_copy: Vec<i32> = Vec::new();
        let mut k: usize = 0;
        while k < n
            invariant
                n == self.data@.len(),
                self@ == old(self)@,
                0 <= k <= n,
                data_copy@ == self.data@.subrange(0, k as int),
            decreases n - k,
        {
            data_copy.push(self.data[k]);
            proof {
                assert(data_copy@ =~= self.data@.subrange(0, k + 1));
            }
            k += 1;
        }
        proof {
            assert(data_copy@ =~= orig);
        }
        self.clear_data();
        let width = self.buffer_width;
        let mut y: i32 = 0;
        while y < block_height
            invariant
                self@ == (DemBufferView { cells: self@.cells, ..old(self)@ }),
                old(self)@.config_ok(),
                w == old(self)@.width,
                width == w,
                orig == old(self)@.cells,
                data_copy@ == orig,
                self@.cells.len() == orig.len(),
                0 <= block_width,
                0 <= source_x0,
                source_x0 + block_width <= w,
                0 <= source_y0,
                source_y0 + block_height <= old(self)@.height,
                0 <= dest_x0,
                dest_x0 + block_width <= w,
                0 <= dest_y0,
                dest_y0 + block_height <= old(self)@.height,
                0 <= y <= block_height,
                forall|i: int|
                    0 <= i < orig.len() ==> #[trigger] self@.cells[i] == if in_rect(
                        w,
                        i,
                        dest_x0 as int,
                        dest_y0 as int,
                        block_width as int,
                        y as int,
                    ) {
                        old(self)@.cell(i % w - dest_x0 + source_x0, i / w - dest_y0 + source_y0)
                    } else {
                        EMPTY_CELL
                    },
            decreases block_height - y,
        {
            let mut x: i32 = 0;
            while x < block_width
                invariant
                    self@ == (DemBufferView { cells: self@.cells, ..old(self)@ }),
                    old(self)@.config_ok(),
                    w == old(self)@.width,
                    width == w,
                    orig == old(self)@.cells,
                    data_copy@ == orig,
                    self@.cells.len() == orig.len(),
                    0 <= block_width,
                    0 <= source_x0,
                    source_x0 + block_width <= w,
                    0 <= source_y0,
                    source_y0 + block_height <= old(self)@.height,
                    0 <= dest_x0,
                    dest_x0 + block_width <= w,
                    0 <= dest_y0,
                    dest_y0 + block_height <= old(self)@.height,
                    0 <= y < block_height,
                    0 <= x <= block_width,
                    forall|i: int|
                        0 <= i < orig.len() ==> #[trigger] self@.cells[i] == if in_rect(
                            w,
                            i,
                            dest_x0 as int,
                            dest_y0 as int,
                            block_width as int,
                            y as int,
                        ) || in_rect(w, i, dest_x0 as int, dest_y0 + y, x as int, 1) {
                            old(self)@.cell(
                                i % w - dest_x0 + source_x0,
                                i / w - dest_y0 + source_y0,
                            )
                        } else {
                            EMPTY_CELL
                        },
                decreases block_width - x,
            {
                let sx = source_x0 + x;
                let sy = source_y0 + y;
                let dx = dest_x0 + x;
                let dy = dest_y0 + y;
                let ghost idx = dy * w + dx;
                proof {
                    lemma_index_in_bounds(w, old(self)@.height, sx as int, sy as int);
                    lemma_index_in_bounds(w, old(self)@.height, dx as int, dy as int);
                    lemma_index(w, dx as int, dy as int);
                    assert(!in_rect(w, idx, dest_x0 as int, dest_y0 as int, block_width as int, y as int));
                }
                let source_index = sy as usize * width as usize + sx as usize;
                let key = CellKey::from_i32(data_copy[source_index]);
                self.set_cell(dx, dy, &key);
                proof {
                    assert forall|i: int| 0 <= i < orig.len() implies #[trigger] self@.cells[i]
                        == if in_rect(
                        w,
                        i,
                        dest_x0 as int,
                        dest_y0 as int,
                        block_width as int,
                        y as int,
                    ) || in_rect(w, i, dest_x0 as int, dest_y0 + y, x + 1, 1) {
                        old(self)@.cell(i % w - dest_x0 + source_x0, i / w - dest_y0 + source_y0)
                    } else {
                        EMPTY_CELL
                    } by {
                        if i != idx && in_rect(w, i, dest_x0 as int, dest_y0 + y, x + 1, 1)
                            && !in_rect(w, i, dest_x0 as int, dest_y0 + y, x as int, 1) {
                            lemma_floor_bounds(i, w);
                            assert(i == idx);
                        }
                    }
                }
                x += 1;
            }
            y += 1;
        }
        self.block_move = Some(
            BlockMove { source_x0, source_y0, block_width, block_height, dest_x0, dest_y0 },
        );
    }
    /// Pages in everything around the relocated block: the strips west and
    /// east of it over the full height, and those north and south of it over
    /// its width. Moving along one axis leaves one strip, moving diagonally two.
    #[verifier::rlimit(60)]
    fn fill_missing_data_after_move(&mut self)
        requires
            old(self)@.config_ok(),
            -360 * old(self)@.tile_size <= old(self)@.west,
            old(self)@.west + old(self)@.width <= 360 * old(self)@.tile_size,
            lat_rows_fit(old(self)@.north, old(self)@.height, old(self)@.tile_size),
            old(self)@.block_move matches Some(bm) && {
                &&& 0 <= bm.block_width
                &&& 0 <= bm.block_height
                &&& 0 <= bm.dest_x0
                &&& bm.dest_x0 + bm.block_width <= old(self)@.width
                &&& 0 <= bm.dest_y0
                &&& bm.dest_y0 + bm.block_height <= old(self)@.height
                &&& forall|i: int|
                    0 <= i < old(self)@.cells.len() ==> #[trigger] old(self)@.cells[i] as int
                        == if in_rect(
                        old(self)@.width,
                        i,
                        bm.dest_x0 as int,
                        bm.dest_y0 as int,
                        bm.block_width as int,
                        bm.block_height as int,
                    ) {
                        old(self)@.expected(i)
                    } else {
                        EMPTY_CELL as int
                    }
            },
        ensures
            final(self)@ == (DemBufferView {
                cells: final(self)@.cells,
                slices: final(self)@.slices,
                ..old(self)@
            }),
            old(self)@.block_move matches Some(bm) ==> final(self)@.slices == old(self)@.slices
                + move_slices(
                old(self)@.west,
                old(self)@.north,
                old(self)@.tile_size,
                old(self)@.width,
                old(self)@.height,
                bm,
            ),
            final(self)@.cells.len() == old(self)@.cells.len(),
            forall|i: int|
                0 <= i < old(self)@.cells.len() ==> #[trigger] final(self)@.cells[i] as int
                    == old(self)@.expected(i),
    {
        let ghost v0 = self@;
        let ghost w = v0.width;
        let ghost h = v0.height;
        let block_move = self.block_move.unwrap();
        let dx = block_move.dest_x0;
        let dy = block_move.dest_y0;
        let bw = block_move.block_width;
        let bh = block_move.block_height;
        let width = self.buffer_width;
        let height = self.buffer_height;
        // west of the block
        let ghost before_0 = self@.slices;
        if dx > 0 {
            self.update_buffer_area(0, 0, dx, height);
        }
        proof {
            assert(self@.slices =~= before_0 + (if dx > 0 {
                area_slices(v0.west, v0.north, v0.tile_size, 0, 0, dx as int, h)
            } else {
                Seq::<TileSlice>::empty()
            }));
        }
        proof {
            assert forall|i: int| 0 <= i < v0.cells.len() implies #[trigger] self@.cells[i] as int
                == if in_rect(w, i, dx as int, dy as int, bw as int, bh as int) || in_rect(
                w,
                i,
                0,
                0,
                dx as int,
                h,
            ) {
                v0.expected(i)
            } else {
                EMPTY_CELL as int
            } by {}
        }
        // east of the block
        let ghost before_1 = self@.slices;
        if dx + bw < width {
            self.update_buffer_area(dx + bw, 0, width - dx - bw, height);
        }
        proof {
            assert(self@.slices =~= before_1 + (if dx + bw < w {
                area_slices(v0.west, v0.north, v0.tile_size, dx + bw, 0, w, h)
            } else {
                Seq::<TileSlice>::empty()
            }));
        }
        proof {
            assert forall|i: int| 0 <= i < v0.cells.len() implies #[trigger] self@.cells[i] as int
                == if in_rect(w, i, dx as int, dy as int, bw as int, bh as int) || in_rect(
                w,
                i,
                0,
                0,
                dx as int,
                h,
            ) || in_rect(w, i, dx + bw, 0, w - dx - bw, h) {
                v0.expected(i)
            } else {
                EMPTY_CELL as int
            } by {}
        }
        // north of the block
        let ghost before_2 = self@.slices;
        if bw > 0 && dy > 0 {
            self.update_buffer_area(dx, 0, bw, dy);
        }
        proof {
            assert(self@.slices =~= before_2 + (if bw > 0 && dy > 0 {
                area_slices(v0.west, v0.north, v0.tile_size, dx as int, 0, dx + bw, dy as int)
            } else {
                Seq::<TileSlice>::empty()
            }));
        }
        proof {
            assert forall|i: int| 0 <= i < v0.cells.len() implies #[trigger] self@.cells[i] as int
                == if in_rect(w, i, dx as int, dy as int, bw as int, bh as int) || in_rect(
                w,
                i,
                0,
                0,
                dx as int,
                h,
            ) || in_rect(w, i, dx + bw, 0, w - dx - bw, h) || in_rect(
                w,
                i,
                dx as int,
                0,
                bw as int,
                dy as int,
            ) {
                v0.expected(i)
            } else {
                EMPTY_CELL as int
            } by {}
        }
        // south of the block
        let ghost before_3 = self@.slices;
        if bw > 0 && dy + bh < height {
            self.update_buffer_area(dx, dy + bh, bw, height - dy - bh);
        }
        proof {
            assert(self@.slices =~= before_3 + (if bw > 0 && dy + bh < h {
                area_slices(v0.west, v0.north, v0.tile_size, dx as int, dy + bh, dx + bw, h)
            } else {
                Seq::<TileSlice>::empty()
            }));
        }
        proof {
            assert forall|i: int| 0 <= i < v0.cells.len() implies #[trigger] self@.cells[i] as int
                == v0.expected(i) by {
                lemma_index_split(w, h, i);
            }
            assert(self@.slices =~= v0.slices + move_slices(
                v0.west,
                v0.north,
                v0.tile_size,
                w,
                h,
                block_move,
            ));
        }
    }

    /// Re-centres by relocating the overlap of the old and new coverage and
    /// paging in the rest; reports a full reload as needed when they do not overlap.
    fn try_partial_update(&mut self, lon: &GlobalCell, lat: &GlobalCell) -> (r:
        BufferUpdateDecision)
        requires
            old(self).wf(),
            old(self)@.initialized,
            -180 * old(self)@.tile_size <= lon.value < 180 * old(self)@.tile_size,
            lat_rows_fit(
                lat.value + old(self)@.height / 2,
                old(self)@.height,
                old(self)@.tile_size,
            ),
        ensures
            old(self)@.has_overlap(lon.value as int, lat.value as int) ==> {
                &&& r == BufferUpdateDecision::PartialUpdatePerformed
                &&& final(self).wf()
                &&& final(self)@.initialized
                &&& final(self)@.same_config(old(self)@)
                &&& final(self)@.center_lon == lon.value
                &&& final(self)@.center_lat == lat.value
                &&& final(self)@.block_move == Some(
                    old(self)@.planned_block_move(lon.value as int, lat.value as int),
                )
                &&& final(self)@.slices == old(self)@.slices + move_slices(
                    final(self)@.west,
                    final(self)@.north,
                    final(self)@.tile_size,
                    final(self)@.width,
                    final(self)@.height,
                    old(self)@.planned_block_move(lon.value as int, lat.value as int),
                )
            },
            !old(self)@.has_overlap(lon.value as int, lat.value as int) ==> {
                &&& r == BufferUpdateDecision::EntireBufferReloadRequired
                &&& final(self)@ == old(self)@
            },
    {
        let ghost v0 = self@;
        let ghost w = v0.width;
        let ghost ts = v0.tile_size;
        let new_buffer_west_edge_global_cell = GlobalCell::new(
            lon.value - self.buffer_width / 2,
        );
        let new_buffer_east_edge_global_cell = GlobalCell::new(
            new_buffer_west_edge_global_cell.value + self.buffer_width,
        );
        let new_buffer_north_edge_global_cell = GlobalCell::new(
            lat.value + self.buffer_height / 2,
        );
        let new_buffer_south_edge_global_cell = GlobalCell::new(
            new_buffer_north_edge_global_cell.value - self.buffer_height,
        );
        // the rectangle that the old and new coverage have in common
        let intersection_west_edge = if self.buffer_west_edge.value
            >= new_buffer_west_edge_global_cell.value {
            self.buffer_west_edge
        } else {
            new_buffer_west_edge_global_cell
        };
        let intersection_east_edge = if self.buffer_east_edge.value
            <= new_buffer_east_edge_global_cell.value {
            self.buffer_east_edge
        } else {
            new_buffer_east_edge_global_cell
        };
        let intersection_north_edge = if self.buffer_north_edge.value
            <= new_buffer_north_edge_global_cell.value {
            self.buffer_north_edge
        } else {
            new_buffer_north_edge_global_cell
        };
        let intersection_south_edge = if self.buffer_south_edge.value
            >= new_buffer_south_edge_global_cell.value {
            self.buffer_south_edge
        } else {
            new_buffer_south_edge_global_cell
        };
        // its top-left corner in the old layout, and its size
        let source_x0 = intersection_west_edge.value - self.buffer_west_edge.value;
        let source_y0 = self.buffer_north_edge.value - intersection_north_edge.value;
        let block_width = intersection_east_edge.value - intersection_west_edge.value;
        let block_height = intersection_north_edge.value - intersection_south_edge.value;
        if block_width >= 0 && block_height >= 0 {
            // its top-left corner in the new layout
            let dest_x0 = intersection_west_edge.value - new_buffer_west_edge_global_cell.value;
            let dest_y0 = new_buffer_north_edge_global_cell.value - intersection_north_edge.value;
            self.move_dem_block(source_x0, source_y0, block_width, block_height, dest_x0, dest_y0);
            self.center_global_cell_lon = *lon;
            self.center_global_cell_lat = *lat;
            self.buffer_north_edge = new_buffer_north_edge_global_cell;
            self.buffer_south_edge = new_buffer_south_edge_global_cell;
            self.buffer_west_edge = new_buffer_west_edge_global_cell;
            self.buffer_east_edge = new_buffer_east_edge_global_cell;
            proof {
                let v1 = self@;
                assert forall|i: int| 0 <= i < v1.cells.len() implies #[trigger] v1.cells[i] as int
                    == if in_rect(
                    w,
                    i,
                    dest_x0 as int,
                    dest_y0 as int,
                    block_width as int,
                    block_height as int,
                ) {
                    v1.expected(i)
                } else {
                    EMPTY_CELL as int
                } by {
                    if in_rect(
                        w,
                        i,
                        dest_x0 as int,
                        dest_y0 as int,
                        block_width as int,
                        block_height as int,
                    ) {
                        let sx = i % w - dest_x0 + source_x0;
                        let sy = i / w - dest_y0 + source_y0;
                        lemma_index_in_bounds(w, v0.height, sx, sy);
                        lemma_index(w, sx, sy);
                        assert(v1.cells[i] == v0.cells[sy * w + sx]);
                    }
                }
            }
            self.fill_missing_data_after_move();
            BufferUpdateDecision::PartialUpdatePerformed
        } else {
            BufferUpdateDecision::EntireBufferReloadRequired
        }
    }
    /// The decision logic: whether the visible area around the new centre
    /// comes closer than the margin to any edge of the current coverage.
    fn is_buffer_update_required(
        &self,
        lon: &GlobalCell,
        lat: &GlobalCell,
        visible_area_width: i32,
        visible_area_height: i32,
    ) -> (r: bool)
        ensures
            r == self@.update_required(
                lon.value as int,
                lat.value as int,
                visible_area_width as int,
                visible_area_height as int,
            ),
    {
        let vw = visible_area_width as i64;
        let vh = visible_area_height as i64;
        let visible_west_edge = lon.value as i64 - vw / 2;
        let visible_east_edge = visible_west_edge + vw;
        let visible_north_edge = lat.value as i64 + vh / 2;
        let visible_south_edge = visible_north_edge - vh;
        let west_edge_distance_in_cells = visible_west_edge - self.buffer_west_edge.value as i64;
        let east_edge_distance_in_cells = self.buffer_east_edge.value as i64 - visible_east_edge;
        let north_edge_distance_in_cells = self.buffer_north_edge.value as i64
            - visible_north_edge;
        let south_edge_distance_in_cells = visible_south_edge - self.buffer_south_edge.value as i64;
        let margin = self.min_cell_distance_to_edge_before_refresh as i64;
        west_edge_distance_in_cells < margin || east_edge_distance_in_cells < margin
            || north_edge_distance_in_cells < margin || south_edge_distance_in_cells < margin
    }

    /// Discards everything and pages the whole buffer in around the centre.
    fn reload_entire_buffer(&mut self, lon: &GlobalCell, lat: &GlobalCell)
        requires
            old(self)@.config_ok(),
            -180 * old(self)@.tile_size <= lon.value < 180 * old(self)@.tile_size,
            lat_rows_fit(
                lat.value + old(self)@.height / 2,
                old(self)@.height,
                old(self)@.tile_size,
            ),
        ensures
            final(self).wf(),
            final(self)@.initialized,
            final(self)@.same_config(old(self)@),
            final(self)@.center_lon == lon.value,
            final(self)@.center_lat == lat.value,
            final(self)@.block_move == old(self)@.block_move,
            final(self)@.slices == old(self)@.slices + area_slices(
                final(self)@.west,
                final(self)@.north,
                final(self)@.tile_size,
                0,
                0,
                final(self)@.width,
                final(self)@.height,
            ),
    {
        self.clear_data();
        self.center_global_cell_lon = *lon;
        self.center_global_cell_lat = *lat;
        self.buffer_west_edge = GlobalCell::new(lon.value - self.buffer_width / 2);
        self.buffer_east_edge = GlobalCell::new(self.buffer_west_edge.value + self.buffer_width);
        self.buffer_north_edge = GlobalCell::new(lat.value + self.buffer_height / 2);
        self.buffer_south_edge = GlobalCell::new(self.buffer_north_edge.value - self.buffer_height);
        proof {
            assert forall|i: int|
                0 <= i < self@.cells.len() && in_rect(
                    self@.width,
                    i,
                    0,
                    0,
                    self@.width,
                    self@.height,
                ) implies #[trigger] self@.cells[i] == EMPTY_CELL by {}
        }
        self.update_buffer_area(0, 0, self.buffer_width, self.buffer_height);
        self.state = BufferState::Initialized;
        proof {
            let v = self@;
            assert forall|i: int| 0 <= i < v.cells.len() implies #[trigger] v.cells[i]
                == v.expected(i) by {
                lemma_index_split(v.width, v.height, i);
            }
        }
    }

    /// Moves the view to a new centre with the given visible area (in cells).
    ///
    /// On the first call the whole buffer is loaded. Later calls do nothing
    /// while the visible area stays at least the margin away from every edge
    /// of the coverage; otherwise the overlap with the new coverage is kept
    /// and only the rest is paged in, or everything is reloaded when nothing
    /// overlaps. The log of the call (`slices_loaded`, `block_move`) is
    /// rebuilt each time. A centre whose coverage would reach beyond the
    /// latitudes `[-180, 180)` is refused and the buffer left as it was.
    pub fn update_map_position(
        &mut self,
        lon: &Deg,
        lat: &Deg,
        visible_area_width: i32,
        visible_area_height: i32,
    ) -> (r: Result<(), ViewError>)
        requires
            old(self).wf(),
        ensures
            update_post(
                old(self)@,
                final(self)@,
                lon@,
                lat@,
                visible_area_width as int,
                visible_area_height as int,
                r is Ok,
            ),
            r is Err ==> r == Err::<(), ViewError>(ViewError::LatitudeOutOfRange),
    {
        let ghost v0 = self@;
        let ts = self.dem_tile_size;
        let lon_micro = lon.micro_degrees();
        let lat_micro = lat.micro_degrees();
        proof {
            assert(1 <= ts <= MAX_BUFFER_TILE_SIZE);
            lemma_cell_of_degrees_bounds(lon_micro as int, ts as int);
            lemma_cell_of_degrees_bounds(lat_micro as int, ts as int);
        }
        let raw_lon = GlobalCell::from_degrees(lon, ts);
        let lon_cell = if raw_lon.value < -180 * ts {
            GlobalCell::new(raw_lon.value + 360 * ts)
        } else if raw_lon.value >= 180 * ts {
            GlobalCell::new(raw_lon.value - 360 * ts)
        } else {
            raw_lon
        };
        let lat_cell = GlobalCell::from_degrees(lat, ts);
        let north = lat_cell.value + self.buffer_height / 2;
        if !(north < 180 * ts && north - self.buffer_height + 1 >= -180 * ts) {
            return Err(ViewError::LatitudeOutOfRange);
        }
        self.clear_update_log();
        let mut full_update_needed = self.state == BufferState::Uninitialized;
        if self.state == BufferState::Initialized {
            let update_required = self.is_buffer_update_required(
                &lon_cell,
                &lat_cell,
                visible_area_width,
                visible_area_height,
            );
            if update_required {
                let update_decision = self.try_partial_update(&lon_cell, &lat_cell);
                if update_decision == BufferUpdateDecision::EntireBufferReloadRequired {
                    full_update_needed = true;
                }
            }
        }
        if full_update_needed {
            self.reload_entire_buffer(&lon_cell, &lat_cell);
        }
        proof {
            lemma_covering_cells_are_set(self@);
        }
        Ok(())
    }
    /// Whether the centre cell decodes to the recorded centre.
    pub fn prop_center_cell_is_correct_one(&self) -> (r: bool)
        requires
            self.wf(),
        ensures
            r == self@.center_cell_ok(),
            r == self@.initialized,
    {
        proof {
            if self@.initialized {
                lemma_center_cell_is_center(self@);
            } else {
                lemma_index(self@.width, self@.width / 2, self@.height / 2);
                lemma_index_in_bounds(self@.width, self@.height, self@.width / 2, self@.height / 2);
                lemma_empty_is_not_valid();
            }
        }
        let center_x = self.buffer_width / 2;
        let center_y = self.buffer_height / 2;
        let center_cell = self.get_cell(center_x, center_y);
        match center_cell.try_to_cell_coords() {
            Some((cell_x, cell_y)) => cell_x == self.center_global_cell_lon && cell_y
                == self.center_global_cell_lat,
            None => false,
        }
    }

    /// Whether no cell is left empty.
    pub fn prop_all_cells_are_set(&self) -> (r: bool)
        requires
            self.wf(),
        ensures
            r == (forall|i: int| 0 <= i < self@.cells.len() ==> #[trigger] self@.cells[i] != EMPTY_CELL),
            r == self@.initialized,
    {
        proof {
            assert(self@.initialized ==> forall|i: int|
                0 <= i < self@.cells.len() ==> #[trigger] self@.cells[i] != EMPTY_CELL) by {
                if self@.initialized {
                    lemma_covering_cells_are_set(self@);
                    lemma_empty_is_not_valid();
                    assert forall|i: int| 0 <= i < self@.cells.len() implies #[trigger] self@.cells[i]
                        != EMPTY_CELL by {
                        assert(is_valid_packed(self@.cells[i] as int));
                    }
                }
            }
            assert(self@.width * self@.height >= 1) by (nonlinear_arith)
                requires
                    self@.width >= 1,
                    self@.height >= 1,
            ;
            assert(!self@.initialized ==> self@.cells[0] == EMPTY_CELL);
        }
        let n = self.data.len();
        let mut i: usize = 0;
        while i < n
            invariant
                n == self@.cells.len(),
                0 <= i <= n,
                forall|j: int| 0 <= j < i ==> #[trigger] self@.cells[j] != EMPTY_CELL,
                self@.initialized ==> forall|j: int|
                    0 <= j < self@.cells.len() ==> #[trigger] self@.cells[j] != EMPTY_CELL,
            decreases n - i,
        {
            if self.data[i] == EMPTY_CELL {
                proof {
                    assert(self@.cells[i as int] == EMPTY_CELL);
                }
                return false;
            }
            i += 1;
        }
        true
    }

    /// Whether every cell with an east and a south neighbour decodes to the
    /// cells that neighbour it on the globe.
    pub fn prop_all_cells_are_good_neighbors(&self) -> (r: bool)
        requires
            self.wf(),
        ensures
            r == self@.neighbors_consistent(),
    {
        let ts = self.dem_tile_size;
        let mut y: i32 = 0;
        while y < self.buffer_height - 1
            invariant
                self.wf(),
                ts == self@.tile_size,
                0 <= y <= self@.height - 1 || (y == 0 && self@.height == 1),
                forall|xx: int, yy: int|
                    0 <= xx < self@.width - 1 && 0 <= yy < y ==> #[trigger] self@.neighbors_ok_at(
                        xx,
                        yy,
                    ),
            decreases self@.height - y,
        {
            let mut x: i32 = 0;
            while x < self.buffer_width - 1
                invariant
                    self.wf(),
                    ts == self@.tile_size,
                    0 <= y < self@.height - 1,
                    0 <= x <= self@.width - 1,
                    forall|xx: int, yy: int|
                        (0 <= xx < self@.width - 1 && 0 <= yy < y) || (0 <= xx < x && yy == y)
                            ==> #[trigger] self@.neighbors_ok_at(xx, yy),
                decreases self@.width - x,
            {
                let cell = self.get_cell(x, y).try_to_cell_coords();
                let east = self.get_cell(x + 1, y).try_to_cell_coords();
                let south = self.get_cell(x, y + 1).try_to_cell_coords();
                match (cell, east, south) {
                    (Some((cell_x, cell_y)), Some((east_x, east_y)), Some((south_x, south_y))) => {
                        let mut expected_east_x = cell_x.value + 1;
                        if expected_east_x >= 180 * ts {
                            expected_east_x -= 360 * ts;
                        }
                        if east_x.value != expected_east_x || east_y.value != cell_y.value {
                            proof {
                                assert(!self@.neighbors_ok_at(x as int, y as int));
                            }
                            return false;
                        }
                        if south_x.value != cell_x.value || south_y.value != cell_y.value - 1 {
                            proof {
                                assert(!self@.neighbors_ok_at(x as int, y as int));
                            }
                            return false;
                        }
                    },
                    _ => {
                        proof {
                            assert(!self@.neighbors_ok_at(x as int, y as int));
                        }
                        return false;
                    },
                }
                x += 1;
            }
            y += 1;
        }
        true
    }

    pub fn buffer_width(&self) -> (r: i32)
        ensures
            r == self@.width,
    {
        self.buffer_width
    }

    pub fn buffer_height(&self) -> (r: i32)
        ensures
            r == self@.height,
    {
        self.buffer_height
    }

    pub fn dem_tile_size(&self) -> (r: i32)
        ensures
            r == self@.tile_size,
    {
        self.dem_tile_size
    }

    pub fn state(&self) -> (r: BufferState)
        ensures
            r == BufferState::Initialized <==> self@.initialized,
    {
        self.state
    }

    /// The slices paged in by the latest update.
    pub fn slices_loaded(&self) -> (r: &Vec<TileSlice>)
        ensures
            r@ == self@.slices,
    {
        &self.slices_loaded
    }

    /// The block moved by the latest update, if it was a partial one.
    pub fn block_move(&self) -> (r: Option<BlockMove>)
        ensures
            r == self@.block_move,
    {
        self.block_move
    }

    pub fn center_global_cell_lon(&self) -> (r: GlobalCell)
        ensures
            r.value == self@.center_lon,
    {
        self.center_global_cell_lon
    }

    pub fn center_global_cell_lat(&self) -> (r: GlobalCell)
        ensures
            r.value == self@.center_lat,
    {
        self.center_global_cell_lat
    }
}

} // verus!
