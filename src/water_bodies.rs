//! Water-body processing tiles and the labelling of connected water areas.
use crate::dem_tile_id::DemTileId;
use crate::grayscale8_bitmap::{lemma_area_bound, lemma_pixel_index, pixel_index};
use crate::raster16::Raster16;
use std::collections::VecDeque;
use vstd::prelude::*;

verus! {

/// The side of a water-body processing tile, in cells.
pub const WATER_BODIES_TILE_SIZE: u16 = 1800;

/// What a processing-tile cell holds before labelling.
#[derive(Clone, Copy, Debug, PartialEq, Eq, Structural)]
pub enum WaterBodyValue {
    NoData,
    NonWater,
    Water,
}

impl WaterBodyValue {
    pub open spec fn spec_value(self) -> u16 {
        match self {
            WaterBodyValue::NoData => 0,
            WaterBodyValue::NonWater => 1,
            WaterBodyValue::Water => 2,
        }
    }

    /// The cell value of this class: 0 for no data, 1 for non-water, 2 for water.
    pub fn value(&self) -> (r: u16)
        ensures
            r == self.spec_value(),
    {
        match self {
            WaterBodyValue::NoData => 0,
            WaterBodyValue::NonWater => 1,
            WaterBodyValue::Water => 2,
        }
    }
}

/// The number of cells that hold 1.
pub open spec fn count_ones(s: Seq<u16>) -> nat
    decreases s.len(),
{
    if s.len() == 0 {
        0
    } else {
        count_ones(s.drop_last()) + if s.last() == 1 {
            1nat
        } else {
            0nat
        }
    }
}

pub proof fn lemma_count_ones_update(s: Seq<u16>, i: int, v: u16)
    requires
        0 <= i < s.len(),
        s[i] == 1,
        v != 1,
    ensures
        count_ones(s.update(i, v)) + 1 == count_ones(s),
    decreases s.len(),
{
    let t = s.update(i, v);
    if i == s.len() - 1 {
        assert(t.drop_last() =~= s.drop_last());
    } else {
        assert(t.drop_last() =~= s.drop_last().update(i, v));
        lemma_count_ones_update(s.drop_last(), i, v);
    }
}

pub proof fn lemma_count_ones_bound(s: Seq<u16>)
    ensures
        count_ones(s) <= s.len(),
    decreases s.len(),
{
    if s.len() > 0 {
        lemma_count_ones_bound(s.drop_last());
    }
}

pub proof fn lemma_no_ones(s: Seq<u16>)
    requires
        forall|i: int| 0 <= i < s.len() ==> #[trigger] s[i] != 1,
    ensures
        count_ones(s) == 0,
    decreases s.len(),
{
    if s.len() > 0 {
        assert(s.last() != 1);
        lemma_no_ones(s.drop_last());
    }
}

/// The number of cells that held 1 in `before` and hold `c` in `after`.
pub open spec fn labelled_count(before: Seq<u16>, after: Seq<u16>, c: u16) -> nat
    decreases before.len(),
{
    if before.len() == 0 || after.len() == 0 {
        0
    } else {
        labelled_count(before.drop_last(), after.drop_last(), c) + if before.last() == 1
            && after.last() == c {
            1nat
        } else {
            0nat
        }
    }
}

/// Relabelling 1-cells as `c` removes as many 1-cells as it labels.
pub proof fn lemma_labelled_count_of_recolored(a: Seq<u16>, b: Seq<u16>, c: u16)
    requires
        recolored(a, b, c),
        c != 1,
    ensures
        count_ones(a) == count_ones(b) + labelled_count(a, b, c),
    decreases a.len(),
{
    if a.len() > 0 {
        let a1 = a.drop_last();
        let b1 = b.drop_last();
        assert forall|i: int| 0 <= i < a1.len() implies (#[trigger] b1[i] == a1[i] || (a1[i] == 1
            && b1[i] == c)) by {
            assert(b[i] == a[i] || (a[i] == 1 && b[i] == c));
        }
        lemma_labelled_count_of_recolored(a1, b1, c);
        assert(b.last() == a.last() || (a.last() == 1 && b.last() == c)) by {
            assert(b[a.len() - 1] == a[a.len() - 1] || (a[a.len() - 1] == 1 && b[a.len() - 1] == c));
        }
    }
}

/// Label counts agree wherever their cell-by-cell conditions do.
pub proof fn lemma_labelled_count_equal(
    a: Seq<u16>,
    x: Seq<u16>,
    b: Seq<u16>,
    y: Seq<u16>,
    c: u16,
)
    requires
        a.len() == x.len() == b.len() == y.len(),
        forall|i: int|
            #![trigger a[i]]
            0 <= i < a.len() ==> ((a[i] == 1 && x[i] == c) <==> (b[i] == 1 && y[i] == c)),
    ensures
        labelled_count(a, x, c) == labelled_count(b, y, c),
    decreases a.len(),
{
    if a.len() > 0 {
        let n = a.len() - 1;
        assert(0 <= n < a.len());
        assert(a[n] == a[n]);
        assert((a[n] == 1 && x[n] == c) <==> (b[n] == 1 && y[n] == c));
        assert(a.last() == a[n] && x.last() == x[n] && b.last() == b[n] && y.last() == y[n]);
        assert forall|i: int| #![trigger a.drop_last()[i]] 0 <= i < n implies ((a.drop_last()[i] == 1
            && x.drop_last()[i] == c) <==> (b.drop_last()[i] == 1 && y.drop_last()[i] == c)) by {
            assert((a[i] == 1 && x[i] == c) <==> (b[i] == 1 && y[i] == c));
        }
        lemma_labelled_count_equal(a.drop_last(), x.drop_last(), b.drop_last(), y.drop_last(), c);
    }
}

/// The row-major successor of a point has the next index; the last point has none.
pub proof fn lemma_next_point(ts: int, x: int, y: int)
    requires
        0 <= x < ts,
        0 <= y < ts,
        ts <= 65535,
    ensures
        next_point(ts, x, y) matches Some(p) ==> p.0 < ts && p.1 < ts && pixel_index(
            ts,
            p.0 as int,
            p.1 as int,
        ) == pixel_index(ts, x, y) + 1,
        next_point(ts, x, y) is None ==> pixel_index(ts, x, y) + 1 == ts * ts,
{
    if x == ts - 1 && y == ts - 1 {
        assert((ts - 1) * ts + ts - 1 + 1 == ts * ts) by (nonlinear_arith);
    } else if x == ts - 1 {
        assert((y + 1) * ts == y * ts + ts) by (nonlinear_arith);
    }
}

/// The length of the overlap of `[a0, a1)` and `[b0, b1)`.
pub open spec fn overlap_len(a0: int, a1: int, b0: int, b1: int) -> int {
    let lo = if a0 >= b0 {
        a0
    } else {
        b0
    };
    let hi = if a1 <= b1 {
        a1
    } else {
        b1
    };
    if hi > lo {
        hi - lo
    } else {
        0
    }
}

/// How much of source pixel `s` falls in destination cell `d`, along an axis
/// where the source has `n` pixels and the destination 1800 cells. Lengths
/// are scaled by `1800 * n` so that both grids have whole-number edges.
pub open spec fn axis_overlap(d: int, n: int, s: int) -> int {
    overlap_len(d * n, (d + 1) * n, s * 1800, (s + 1) * 1800)
}

/// The first source pixel that destination cell `d` reaches.
pub open spec fn source_from(d: int, n: int) -> int {
    (d * n) / 1800
}

/// One past the last source pixel that destination cell `d` reaches.
pub open spec fn source_to(d: int, n: int) -> int {
    ((d + 1) * n + 1799) / 1800
}

/// Overlap of destination column `x` with the source pixels of row `sy` in
/// columns `from .. to` that hold class `c`.
pub open spec fn row_weight(r: Raster16, x: int, sy: int, c: u16, from: int, to: int) -> int
    decreases to - from,
{
    if to <= from {
        0
    } else {
        row_weight(r, x, sy, c, from, to - 1) + if to - 1 < r.spec_width() && r.pixel(to - 1, sy)
            == c {
            axis_overlap(x, r.spec_width(), to - 1)
        } else {
            0
        }
    }
}

/// The area of destination cell `(x, y)` covered by source pixels of class
/// `c` in source rows `from .. to`.
pub open spec fn area_weight(r: Raster16, x: int, y: int, c: u16, from: int, to: int) -> int
    decreases to - from,
{
    if to <= from {
        0
    } else {
        area_weight(r, x, y, c, from, to - 1) + if to - 1 < r.spec_height() {
            row_weight(
                r,
                x,
                to - 1,
                c,
                source_from(x, r.spec_width()),
                source_to(x, r.spec_width()),
            ) * axis_overlap(y, r.spec_height(), to - 1)
        } else {
            0
        }
    }
}

/// The area of destination cell `(x, y)` that class `c` covers.
pub open spec fn class_weight(r: Raster16, x: int, y: int, c: u16) -> int {
    area_weight(r, x, y, c, source_from(y, r.spec_height()), source_to(y, r.spec_height()))
}

/// The class with the largest area, the higher class winning ties.
pub open spec fn dominant_class(w0: int, w1: int, w2: int) -> u16 {
    if w2 >= w0 && w2 >= w1 {
        2
    } else if w1 >= w0 {
        1
    } else {
        0
    }
}

/// The class that downsampling gives destination cell `(x, y)`.
pub open spec fn downsampled_class(r: Raster16, x: int, y: int) -> u16 {
    dominant_class(class_weight(r, x, y, 0), class_weight(r, x, y, 1), class_weight(r, x, y, 2))
}

proof fn lemma_axis_overlap_bound(d: int, n: int, s: int)
    ensures
        0 <= axis_overlap(d, n, s) <= 1800,
{
}

proof fn lemma_source_range(d: int, n: int)
    requires
        0 <= d < 1800,
        0 <= n <= 65535,
    ensures
        0 <= source_from(d, n) <= source_to(d, n) <= 65536,
{
    assert(0 <= d * n <= (d + 1) * n <= 1800 * 65535) by (nonlinear_arith)
        requires
            0 <= d < 1800,
            0 <= n <= 65535,
    ;
}

/// The three class areas of destination cell `(x, y)`.
fn class_weights(raster: &Raster16, x: u16, y: u16) -> (r: (u64, u64, u64))
    requires
        raster.wf(),
        x < 1800,
        y < 1800,
    ensures
        r.0 == class_weight(*raster, x as int, y as int, 0),
        r.1 == class_weight(*raster, x as int, y as int, 1),
        r.2 == class_weight(*raster, x as int, y as int, 2),
{
    let ghost r = *raster;
    let width = raster.width() as u64;
    let height = raster.height() as u64;
    proof {
        lemma_source_range(x as int, width as int);
        lemma_source_range(y as int, height as int);
    }
    let x64 = x as u64;
    let y64 = y as u64;
    let sx_from = (x64 * width) / 1800;
    let sx_to = ((x64 + 1) * width + 1799) / 1800;
    let sy_from = (y64 * height) / 1800;
    let sy_to = ((y64 + 1) * height + 1799) / 1800;
    let mut w0: u64 = 0;
    let mut w1: u64 = 0;
    let mut w2: u64 = 0;
    let mut sy = sy_from;
    while sy < sy_to
        invariant
            raster.wf(),
            r == *raster,
            width == r.spec_width(),
            height == r.spec_height(),
            width <= 65535,
            height <= 65535,
            x < 1800,
            y < 1800,
            x64 == x,
            y64 == y,
            sx_from == source_from(x as int, width as int),
            sx_to == source_to(x as int, width as int),
            sy_from == source_from(y as int, height as int),
            sy_to == source_to(y as int, height as int),
            0 <= sx_from <= sx_to <= 65536,
            0 <= sy_from <= sy <= sy_to <= 65536,
            w0 == area_weight(r, x as int, y as int, 0, sy_from as int, sy as int),
            w1 == area_weight(r, x as int, y as int, 1, sy_from as int, sy as int),
            w2 == area_weight(r, x as int, y as int, 2, sy_from as int, sy as int),
            w0 <= (sy - sy_from) * (65536 * 1800 * 1800),
            w1 <= (sy - sy_from) * (65536 * 1800 * 1800),
            w2 <= (sy - sy_from) * (65536 * 1800 * 1800),
        decreases sy_to - sy,
    {
        if sy < height {
            let oy_lo = if y64 * height >= sy * 1800 {
                y64 * height
            } else {
                sy * 1800
            };
            let oy_hi = if (y64 + 1) * height <= (sy + 1) * 1800 {
                (y64 + 1) * height
            } else {
                (sy + 1) * 1800
            };
            let oy = if oy_hi > oy_lo {
                oy_hi - oy_lo
            } else {
                0
            };
            proof {
                lemma_axis_overlap_bound(y as int, height as int, sy as int);
            }
            let mut a0: u64 = 0;
            let mut a1: u64 = 0;
            let mut a2: u64 = 0;
            let mut sx = sx_from;
            while sx < sx_to
                invariant
                    raster.wf(),
                    r == *raster,
                    width == r.spec_width(),
                    height == r.spec_height(),
                    width <= 65535,
                    height <= 65535,
                    x < 1800,
                    x64 == x,
                    sy < height,
                    sx_from == source_from(x as int, width as int),
                    sx_to == source_to(x as int, width as int),
                    0 <= sx_from <= sx <= sx_to <= 65536,
                    a0 == row_weight(r, x as int, sy as int, 0, sx_from as int, sx as int),
                    a1 == row_weight(r, x as int, sy as int, 1, sx_from as int, sx as int),
                    a2 == row_weight(r, x as int, sy as int, 2, sx_from as int, sx as int),
                    a0 <= (sx - sx_from) * 1800,
                    a1 <= (sx - sx_from) * 1800,
                    a2 <= (sx - sx_from) * 1800,
                decreases sx_to - sx,
            {
                if sx < width {
                    let ox_lo = if x64 * width >= sx * 1800 {
                        x64 * width
                    } else {
                        sx * 1800
                    };
                    let ox_hi = if (x64 + 1) * width <= (sx + 1) * 1800 {
                        (x64 + 1) * width
                    } else {
                        (sx + 1) * 1800
                    };
                    let ox = if ox_hi > ox_lo {
                        ox_hi - ox_lo
                    } else {
                        0
                    };
                    let color = raster.get_pixel(sx as u16, sy as u16);
                    proof {
                        assert(ox == axis_overlap(x as int, width as int, sx as int));
                        lemma_axis_overlap_bound(x as int, width as int, sx as int);
                    }
                    if color == 0 {
                        a0 = a0 + ox;
                    } else if color == 1 {
                        a1 = a1 + ox;
                    } else if color == 2 {
                        a2 = a2 + ox;
                    }
                }
                proof {
                    assert((sx + 1 - sx_from) * 1800 == (sx - sx_from) * 1800 + 1800) by (
                    nonlinear_arith);
                    assert(row_weight(r, x as int, sy as int, 0, sx_from as int, sx + 1)
                        == row_weight(r, x as int, sy as int, 0, sx_from as int, sx as int) + if sx
                        < width && r.pixel(sx as int, sy as int) == 0 {
                        axis_overlap(x as int, width as int, sx as int)
                    } else {
                        0
                    });
                }
                sx = sx + 1;
            }
            proof {
                assert(a0 * oy <= 65536 * 1800 * 1800 && a1 * oy <= 65536 * 1800 * 1800 && a2 * oy
                    <= 65536 * 1800 * 1800) by (nonlinear_arith)
                    requires
                        a0 <= 65536 * 1800,
                        a1 <= 65536 * 1800,
                        a2 <= 65536 * 1800,
                        oy <= 1800,
                ;
            }
            proof {
                assert(oy == axis_overlap(y as int, height as int, sy as int));
                assert((sy - sy_from) * (65536 * 1800 * 1800) + 65536 * 1800 * 1800 <= 0xFFFF_FFFF_FFFF_FFFF)
                    by (nonlinear_arith)
                    requires
                        sy - sy_from <= 65536,
                ;
            }
            w0 = w0 + a0 * oy;
            w1 = w1 + a1 * oy;
            w2 = w2 + a2 * oy;
        }
        proof {
            assert((sy + 1 - sy_from) * (65536 * 1800 * 1800) == (sy - sy_from) * (65536 * 1800
                * 1800) + 65536 * 1800 * 1800) by (nonlinear_arith);
        }
        sy = sy + 1;
    }
    (w0, w1, w2)
}

/// A square grid of cell values for one DEM tile.
pub struct WaterBodiesProcessingTile {
    tile_id: DemTileId,
    tile_size: u16,
    cells: Vec<u16>,
}

impl WaterBodiesProcessingTile {
    pub closed spec fn spec_tile_id(&self) -> DemTileId {
        self.tile_id
    }

    pub closed spec fn spec_tile_size(&self) -> int {
        self.tile_size as int
    }

    pub closed spec fn cells(&self) -> Seq<u16> {
        self.cells@
    }

    pub open spec fn wf(&self) -> bool {
        self.cells().len() == self.spec_tile_size() * self.spec_tile_size()
    }

    pub open spec fn cell(&self, x: int, y: int) -> u16 {
        self.cells()[pixel_index(self.spec_tile_size(), x, y)]
    }

    /// A tile of `tile_size` by `tile_size` cells, all 0.
    pub fn new(tile_id: &DemTileId, tile_size: u16) -> (r: Self)
        ensures
            r.wf(),
            r.spec_tile_id() == *tile_id,
            r.spec_tile_size() == tile_size,
            forall|i: int| 0 <= i < r.cells().len() ==> #[trigger] r.cells()[i] == 0,
    {
        proof {
            lemma_area_bound(tile_size as int, tile_size as int);
        }
        WaterBodiesProcessingTile {
            tile_id: *tile_id,
            tile_size,
            cells: vec![0u16; tile_size as usize * tile_size as usize],
        }
    }

    pub fn tile_id(&self) -> (r: DemTileId)
        ensures
            r == self.spec_tile_id(),
    {
        self.tile_id
    }

    pub fn tile_size(&self) -> (r: u16)
        ensures
            r == self.spec_tile_size(),
    {
        self.tile_size
    }

    /// Downsamples a WorldCover raster to a 1800 by 1800 tile: each cell
    /// takes the class (0, 1 or 2) that covers the largest part of its area,
    /// the higher class winning ties. Source values of 3 and more are ignored.
    pub fn downsample_from_worldcover_tile(tile_id: &DemTileId, raster: &Raster16) -> (r: Self)
        requires
            raster.wf(),
        ensures
            r.wf(),
            r.spec_tile_id() == *tile_id,
            r.spec_tile_size() == WATER_BODIES_TILE_SIZE,
            forall|x: int, y: int|
                0 <= x < 1800 && 0 <= y < 1800 ==> #[trigger] r.cell(x, y) == downsampled_class(
                    *raster,
                    x,
                    y,
                ),
    {
        let mut downsampled = WaterBodiesProcessingTile::new(tile_id, WATER_BODIES_TILE_SIZE);
        let mut y: u16 = 0;
        while y < WATER_BODIES_TILE_SIZE
            invariant
                raster.wf(),
                downsampled.wf(),
                downsampled.spec_tile_id() == *tile_id,
                downsampled.spec_tile_size() == 1800,
                0 <= y <= 1800,
                forall|i: int, j: int|
                    0 <= i < 1800 && 0 <= j < y ==> #[trigger] downsampled.cell(i, j)
                        == downsampled_class(*raster, i, j),
            decreases 1800 - y,
        {
            let mut x: u16 = 0;
            while x < WATER_BODIES_TILE_SIZE
                invariant
                    raster.wf(),
                    downsampled.wf(),
                    downsampled.spec_tile_id() == *tile_id,
                    downsampled.spec_tile_size() == 1800,
                    0 <= y < 1800,
                    0 <= x <= 1800,
                    forall|i: int, j: int|
                        (0 <= i < 1800 && 0 <= j < y) || (0 <= i < x && j == y)
                            ==> #[trigger] downsampled.cell(i, j) == downsampled_class(*raster, i, j),
                decreases 1800 - x,
            {
                let (w0, w1, w2) = class_weights(raster, x, y);
                let dominant_color: u16 = if w2 >= w0 && w2 >= w1 {
                    2
                } else if w1 >= w0 {
                    1
                } else {
                    0
                };
                let ghost before = downsampled;
                downsampled.set_cell(x, y, dominant_color);
                proof {
                    assert forall|i: int, j: int|
                        (0 <= i < 1800 && 0 <= j < y) || (0 <= i < x + 1 && j == y)
                            implies #[trigger] downsampled.cell(i, j) == downsampled_class(*raster, i, j) by {
                        lemma_pixel_index(1800, 1800, i, j);
                        lemma_pixel_index(1800, 1800, x as int, y as int);
                        if i != x || j != y {
                            assert(pixel_index(1800, i, j) != pixel_index(1800, x as int, y as int));
                            assert(downsampled.cell(i, j) == before.cell(i, j));
                        } else {
                            assert(downsampled.cell(i, j) == dominant_color);
                        }
                    }
                }
                x += 1;
            }
            y += 1;
        }
        downsampled
    }

    pub fn get_cell(&self, x: u16, y: u16) -> (r: u16)
        requires
            self.wf(),
            x < self.spec_tile_size(),
            y < self.spec_tile_size(),
        ensures
            r == self.cell(x as int, y as int),
    {
        proof {
            lemma_pixel_index(self.spec_tile_size(), self.spec_tile_size(), x as int, y as int);
        }
        self.cells[y as usize * self.tile_size as usize + x as usize]
    }

    pub fn set_cell(&mut self, x: u16, y: u16, value: u16)
        requires
            old(self).wf(),
            x < old(self).spec_tile_size(),
            y < old(self).spec_tile_size(),
        ensures
            final(self).wf(),
            final(self).spec_tile_id() == old(self).spec_tile_id(),
            final(self).spec_tile_size() == old(self).spec_tile_size(),
            final(self).cells() == old(self).cells().update(
                pixel_index(old(self).spec_tile_size(), x as int, y as int),
                value,
            ),
    {
        proof {
            lemma_pixel_index(self.spec_tile_size(), self.spec_tile_size(), x as int, y as int);
        }
        self.cells.set(y as usize * self.tile_size as usize + x as usize, value);
    }
}

/// A bounding rectangle; `width == 0 && height == 0` is the empty one.
#[derive(Debug, Clone, Copy, Default, PartialEq, Eq, Structural)]
pub struct Rect {
    pub min_x: u16,
    pub min_y: u16,
    pub width: u16,
    pub height: u16,
}

impl Rect {
    pub open spec fn wf(self) -> bool {
        &&& (self.width == 0) == (self.height == 0)
        &&& self.min_x + self.width <= 0xFFFF
        &&& self.min_y + self.height <= 0xFFFF
    }

    /// The smallest rectangle holding this one and `point`.
    pub fn extend(&mut self, point: (u16, u16))
        requires
            old(self).wf(),
            point.0 < 0xFFFF,
            point.1 < 0xFFFF,
        ensures
            final(self).wf(),
            old(self).width == 0 ==> *final(self) == (Rect {
                min_x: point.0,
                min_y: point.1,
                width: 1,
                height: 1,
            }),
            old(self).width != 0 ==> {
                let max_x = old(self).min_x + old(self).width - 1;
                let max_y = old(self).min_y + old(self).height - 1;
                let min_x = if point.0 < old(self).min_x {
                    point.0 as int
                } else {
                    old(self).min_x as int
                };
                let min_y = if point.1 < old(self).min_y {
                    point.1 as int
                } else {
                    old(self).min_y as int
                };
                &&& final(self).min_x == min_x
                &&& final(self).min_y == min_y
                &&& final(self).width == (if point.0 > max_x {
                    point.0 as int
                } else {
                    max_x
                }) - min_x + 1
                &&& final(self).height == (if point.1 > max_y {
                    point.1 as int
                } else {
                    max_y
                }) - min_y + 1
            },
    {
        if self.width == 0 && self.height == 0 {
            self.min_x = point.0;
            self.min_y = point.1;
            self.width = 1;
            self.height = 1;
        } else {
            let max_x = self.min_x + (self.width - 1);
            let max_y = self.min_y + (self.height - 1);
            self.min_x = if point.0 < self.min_x {
                point.0
            } else {
                self.min_x
            };
            self.min_y = if point.1 < self.min_y {
                point.1
            } else {
                self.min_y
            };
            let new_max_x = if point.0 > max_x {
                point.0
            } else {
                max_x
            };
            let new_max_y = if point.1 > max_y {
                point.1
            } else {
                max_y
            };
            self.width = new_max_x - self.min_x + 1;
            self.height = new_max_y - self.min_y + 1;
        }
    }
}

/// One labelled water area: its label, its number of cells and its bounding box.
#[derive(Debug)]
pub struct WaterBody {
    pub color: u16,
    pub surface_area: usize,
    pub coverage: Rect,
}

/// What labelling changes in a tile: only cells that held 1, and each of
/// them to `color`.
pub open spec fn recolored(before: Seq<u16>, after: Seq<u16>, color: u16) -> bool {
    &&& after.len() == before.len()
    &&& forall|i: int|
        0 <= i < before.len() ==> (#[trigger] after[i] == before[i] || (before[i] == 1 && after[i]
            == color))
}

/// No cell with an index in `from .. to` holds 1.
pub open spec fn no_ones_between(s: Seq<u16>, from: int, to: int) -> bool {
    forall|i: int| from <= i < to ==> #[trigger] s[i] != 1
}

/// The point after `(x, y)` in row-major order, if any.
pub open spec fn next_point(ts: int, x: int, y: int) -> Option<(u16, u16)> {
    if x < ts - 1 {
        Some(((x + 1) as u16, y as u16))
    } else if y < ts - 1 {
        Some((0u16, (y + 1) as u16))
    } else {
        None
    }
}

/// Finds the first cell holding 1 at or after `starting_point` in row-major
/// order, and labels its water area (the cells holding 1 connected to it
/// horizontally and vertically) with `color`. Returns the body and the point
/// after the one found, or `None` when no cell from `starting_point` on holds 1.
pub fn try_color_next_water_body(
    color: u16,
    starting_point: (u16, u16),
    tile: &mut WaterBodiesProcessingTile,
) -> (r: Option<(WaterBody, Option<(u16, u16)>)>)
    requires
        old(tile).wf(),
        color != 1,
        starting_point.0 < old(tile).spec_tile_size(),
        starting_point.1 < old(tile).spec_tile_size(),
    ensures
        final(tile).wf(),
        final(tile).spec_tile_size() == old(tile).spec_tile_size(),
        final(tile).spec_tile_id() == old(tile).spec_tile_id(),
        recolored(old(tile).cells(), final(tile).cells(), color),
        r is None ==> {
            &&& final(tile).cells() == old(tile).cells()
            &&& no_ones_between(
                old(tile).cells(),
                pixel_index(
                    old(tile).spec_tile_size(),
                    starting_point.0 as int,
                    starting_point.1 as int,
                ),
                old(tile).cells().len() as int,
            )
        },
        r matches Some((body, next)) ==> {
            &&& body.color == color
            &&& body.surface_area >= 1
            &&& body.surface_area + count_ones(final(tile).cells()) == count_ones(
                old(tile).cells(),
            )
            &&& body.coverage.wf()
            &&& exists|x: int, y: int|
                0 <= x < old(tile).spec_tile_size() && 0 <= y < old(tile).spec_tile_size()
                    && pixel_index(old(tile).spec_tile_size(), x, y) >= pixel_index(
                    old(tile).spec_tile_size(),
                    starting_point.0 as int,
                    starting_point.1 as int,
                ) && next == next_point(old(tile).spec_tile_size(), x, y) && no_ones_between(
                    old(tile).cells(),
                    pixel_index(
                        old(tile).spec_tile_size(),
                        starting_point.0 as int,
                        starting_point.1 as int,
                    ),
                    pixel_index(old(tile).spec_tile_size(), x, y),
                ) && #[trigger] old(tile).cell(x, y) == 1 && final(tile).cell(x, y) == color
        },
{
    let ghost ts = tile.spec_tile_size();
    let ghost start = pixel_index(ts, starting_point.0 as int, starting_point.1 as int);
    let ghost orig = tile.cells();
    let tile_size = tile.tile_size;
    let mut x = starting_point.0;
    let mut y = starting_point.1;
    proof {
        lemma_pixel_index(ts, ts, x as int, y as int);
    }
    loop
        invariant
            tile.wf(),
            tile.spec_tile_size() == ts,
            ts == old(tile).spec_tile_size(),
            tile_size == ts,
            color != 1,
            tile.spec_tile_id() == old(tile).spec_tile_id(),
            tile.cells() == orig,
            orig == old(tile).cells(),
            x < ts,
            y < ts,
            start == pixel_index(ts, starting_point.0 as int, starting_point.1 as int),
            start <= pixel_index(ts, x as int, y as int),
            forall|i: int| start <= i < pixel_index(ts, x as int, y as int) ==> #[trigger] orig[i]
                != 1,
        decreases ts * ts - pixel_index(ts, x as int, y as int),
    {
        proof {
            lemma_pixel_index(ts, ts, x as int, y as int);
        }
        let pixel_color = tile.get_cell(x, y);
        let next = if x < tile_size - 1 {
            Some((x + 1, y))
        } else if y < tile_size - 1 {
            Some((0, y + 1))
        } else {
            None
        };
        if pixel_color == 1 {
            let ghost found_index = pixel_index(ts, x as int, y as int);
            let mut points_to_color: VecDeque<(u16, u16)> = VecDeque::new();
            points_to_color.push_back((x, y));
            let mut surface_area: usize = 0;
            let mut coverage = Rect { min_x: 0, min_y: 0, width: 0, height: 0 };
            proof {
                lemma_count_ones_bound(orig);
            }
            while points_to_color.len() > 0
                invariant
                    tile.wf(),
                    tile.spec_tile_size() == ts,
                    ts == old(tile).spec_tile_size(),
                    ts <= 65535,
                    tile_size == ts,
                    tile.spec_tile_id() == old(tile).spec_tile_id(),
                    orig == old(tile).cells(),
                    recolored(orig, tile.cells(), color),
                    color != 1,
                    surface_area + count_ones(tile.cells()) == count_ones(orig),
                    count_ones(orig) <= orig.len(),
                    orig.len() == ts * ts,
                    coverage.wf(),
                    0 <= found_index < orig.len(),
                    orig[found_index] == 1,
                    (surface_area >= 1 && tile.cells()[found_index] == color) || (surface_area == 0
                        && points_to_color@.len() > 0 && points_to_color@[0] == (x, y)
                        && tile.cells()[found_index] == 1),
                    x < ts,
                    y < ts,
                    found_index == pixel_index(ts, x as int, y as int),
                    start <= found_index,
                    start == pixel_index(ts, starting_point.0 as int, starting_point.1 as int),
                    forall|i: int| start <= i < found_index ==> #[trigger] orig[i] != 1,
                    forall|k: int|
                        0 <= k < points_to_color@.len() ==> (#[trigger] points_to_color@[k]).0 < ts
                            && points_to_color@[k].1 < ts,
                decreases 5 * count_ones(tile.cells()) + points_to_color@.len(),
            {
                let (px, py) = points_to_color.pop_front().unwrap();
                proof {
                    lemma_pixel_index(ts, ts, px as int, py as int);
                }
                let point_index = py as usize * tile_size as usize + px as usize;
                if tile.cells[point_index] == 1 {
                    let ghost before = tile.cells();
                    tile.cells.set(point_index, color);
                    proof {
                        lemma_count_ones_update(before, point_index as int, color);
                        lemma_count_ones_bound(tile.cells());
                    }
                    surface_area += 1;
                    coverage.extend((px, py));
                    if px > 0 {
                        proof {
                            lemma_pixel_index(ts, ts, px - 1, py as int);
                        }
                        if tile.cells[point_index - 1] == 1 {
                            points_to_color.push_back((px - 1, py));
                        }
                    }
                    if px < tile_size - 1 {
                        proof {
                            lemma_pixel_index(ts, ts, px + 1, py as int);
                        }
                        if tile.cells[point_index + 1] == 1 {
                            points_to_color.push_back((px + 1, py));
                        }
                    }
                    if py > 0 {
                        proof {
                            lemma_pixel_index(ts, ts, px as int, py - 1);
                            assert(py * ts + px - ts == (py - 1) * ts + px) by (nonlinear_arith);
                        }
                        if tile.cells[point_index - tile_size as usize] == 1 {
                            points_to_color.push_back((px, py - 1));
                        }
                    }
                    if py < tile_size - 1 {
                        proof {
                            lemma_pixel_index(ts, ts, px as int, py + 1);
                            assert(py * ts + px + ts == (py + 1) * ts + px) by (nonlinear_arith);
                        }
                        if tile.cells[point_index + tile_size as usize] == 1 {
                            points_to_color.push_back((px, py + 1));
                        }
                    }
                }
            }
            proof {
                assert(old(tile).cell(x as int, y as int) == 1);
                assert(next == next_point(ts, x as int, y as int));
                assert(tile.cell(x as int, y as int) == color);
                assert(forall|i: int|
                    start <= i < pixel_index(ts, x as int, y as int) ==> #[trigger] orig[i] != 1);
                assert(no_ones_between(orig, start, pixel_index(ts, x as int, y as int)));
            }
            return Some((WaterBody { color, surface_area, coverage }, next));
        }
        match next {
            Some((nx, ny)) => {
                proof {
                    lemma_next_point(ts, x as int, y as int);
                    lemma_pixel_index(ts, ts, nx as int, ny as int);
                }
                x = nx;
                y = ny;
            },
            None => {
                proof {
                    lemma_next_point(ts, x as int, y as int);
                    assert(orig[pixel_index(ts, x as int, y as int)] != 1);
                    assert(no_ones_between(orig, start, orig.len() as int));
                }
                return None;
            },
        }
    }
}

/// Labels every water area of the tile with its own color, 2, 3, ... in the
/// row-major order of the areas' first cells, and returns the areas in that
/// order. Labelling stops when the 16-bit labels run out.
pub fn color_water_bodies(tile: &mut WaterBodiesProcessingTile) -> (r: Vec<WaterBody>)
    requires
        old(tile).wf(),
        old(tile).spec_tile_size() > 0,
    ensures
        final(tile).wf(),
        final(tile).spec_tile_size() == old(tile).spec_tile_size(),
        final(tile).spec_tile_id() == old(tile).spec_tile_id(),
        forall|k: int| 0 <= k < r@.len() ==> #[trigger] r@[k].color == k + 2,
        forall|k: int| 0 <= k < r@.len() ==> #[trigger] r@[k].surface_area >= 1,
        forall|k: int|
            0 <= k < r@.len() ==> #[trigger] r@[k].surface_area == labelled_count(
                old(tile).cells(),
                final(tile).cells(),
                (k + 2) as u16,
            ),
        forall|i: int|
            0 <= i < old(tile).cells().len() ==> #[trigger] final(tile).cells()[i] == old(
                tile,
            ).cells()[i] || (old(tile).cells()[i] == 1 && 2 <= final(tile).cells()[i] < r@.len()
                + 2),
        r@.len() < u16::MAX - 2 ==> count_ones(final(tile).cells()) == 0,
{
    let mut color: u16 = 2;
    let mut water_bodies: Vec<WaterBody> = Vec::new();
    let mut starting_point: (u16, u16) = (0, 0);
    let ghost ts = tile.spec_tile_size();
    let ghost orig = tile.cells();
    loop
        invariant_except_break
            starting_point.0 < ts,
            starting_point.1 < ts,
            forall|i: int|
                0 <= i < pixel_index(ts, starting_point.0 as int, starting_point.1 as int)
                    ==> #[trigger] tile.cells()[i] != 1,
        invariant
            tile.wf(),
            tile.spec_tile_size() == ts,
            ts == old(tile).spec_tile_size(),
            0 < ts <= 65535,
            tile.spec_tile_id() == old(tile).spec_tile_id(),
            forall|k: int| 0 <= k < water_bodies@.len() ==> #[trigger] water_bodies@[k].color == k + 2,
            forall|k: int| 0 <= k < water_bodies@.len() ==> #[trigger] water_bodies@[k].surface_area
                >= 1,
            color == water_bodies@.len() + 2,
            orig == old(tile).cells(),
            tile.cells().len() == orig.len(),
            forall|i: int|
                0 <= i < orig.len() ==> #[trigger] tile.cells()[i] == orig[i] || (orig[i] == 1 && 2
                    <= tile.cells()[i] < color),
            forall|k: int|
                0 <= k < water_bodies@.len() ==> #[trigger] water_bodies@[k].surface_area
                    == labelled_count(orig, tile.cells(), (k + 2) as u16),
        ensures
            water_bodies@.len() < u16::MAX - 2 ==> count_ones(tile.cells()) == 0,
        decreases count_ones(tile.cells()),
    {
        if color == u16::MAX {
            break;
        }
        let ghost before = tile.cells();
        let ghost start = pixel_index(ts, starting_point.0 as int, starting_point.1 as int);
        match try_color_next_water_body(color, starting_point, tile) {
            Some((water_body, next_point)) => {
                let ghost found: (int, int) = choose|x: int, y: int|
                    0 <= x < ts && 0 <= y < ts && pixel_index(ts, x, y) >= start && next_point
                        == crate::water_bodies::next_point(ts, x, y) && no_ones_between(
                        before,
                        start,
                        pixel_index(ts, x, y),
                    ) && #[trigger] before[pixel_index(ts, x, y)] == 1 && tile.cells()[pixel_index(
                        ts,
                        x,
                        y,
                    )] == color;
                let ghost fi = pixel_index(ts, found.0, found.1);
                proof {
                    lemma_next_point(ts, found.0, found.1);
                    lemma_pixel_index(ts, ts, found.0, found.1);
                    assert forall|i: int| 0 <= i <= fi implies #[trigger] tile.cells()[i] != 1 by {
                        if i < start {
                            assert(before[i] != 1);
                        } else if i < fi {
                            assert(before[i] != 1);
                        }
                    }
                }
                proof {
                    let after = tile.cells();
                    lemma_labelled_count_of_recolored(before, after, color);
                    assert forall|i: int| 0 <= i < orig.len() implies ((before[i] == 1
                        && #[trigger] after[i] == color) <==> (orig[i] == 1 && after[i] == color)) by {
                        assert(before[i] == orig[i] || (orig[i] == 1 && 2 <= before[i] < color));
                        assert(after[i] == before[i] || (before[i] == 1 && after[i] == color));
                    }
                    lemma_labelled_count_equal(before, after, orig, after, color);
                    assert forall|k: int| 0 <= k < water_bodies@.len() implies #[trigger] water_bodies@[k].surface_area
                        == labelled_count(orig, after, (k + 2) as u16) by {
                        let c = (k + 2) as u16;
                        assert forall|i: int| 0 <= i < orig.len() implies ((orig[i] == 1
                            && #[trigger] after[i] == c) <==> (orig[i] == 1 && before[i] == c)) by {
                            assert(after[i] == before[i] || (before[i] == 1 && after[i] == color));
                        }
                        lemma_labelled_count_equal(orig, after, orig, before, c);
                    }
                    assert forall|i: int| 0 <= i < orig.len() implies #[trigger] after[i] == orig[i]
                        || (orig[i] == 1 && 2 <= after[i] < color + 1) by {
                        assert(before[i] == orig[i] || (orig[i] == 1 && 2 <= before[i] < color));
                        assert(after[i] == before[i] || (before[i] == 1 && after[i] == color));
                    }
                }
                water_bodies.push(water_body);
                color += 1;
                match next_point {
                    Some(next) => {
                        starting_point = next;
                    },
                    None => {
                        proof {
                            lemma_no_ones(tile.cells());
                        }
                        break;
                    },
                }
            },
            None => {
                proof {
                    assert forall|i: int| 0 <= i < tile.cells().len() implies #[trigger] tile.cells()[i]
                        != 1 by {
                        if i < start {
                        } else {
                            assert(before[i] != 1);
                        }
                    }
                    lemma_no_ones(tile.cells());
                }
                break;
            },
        }
    }
    water_bodies
}

} // verus!
