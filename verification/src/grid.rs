//! Grid partitioning of a template into tile-sized regions.
//!
//! The template is covered by `ceil(width / tile_w) x ceil(height / tile_h)`
//! regions addressed row-major. Every region starts at its grid coordinate
//! times the tile size; regions in the last column or row may be smaller so
//! that no region reaches past the template. The partition is exact: each
//! template pixel lies in exactly one region, and the region areas sum to the
//! template area.

use vstd::prelude::*;
use vstd::arithmetic::div_mod::{
    lemma_fundamental_div_mod, lemma_fundamental_div_mod_converse_div,
    lemma_fundamental_div_mod_converse_mod, lemma_mod_division_less_than_divisor,
};
use crate::error::MosaicError;
use crate::vec2::{Rect, Vec2};

verus! {

/// The smaller of two integers.
pub open spec fn min_int(a: int, b: int) -> int {
    if a <= b {
        a
    } else {
        b
    }
}

/// How many tiles of length `tile` cover a span of length `len`: the
/// quotient, rounded up.
pub open spec fn ceil_div(len: int, tile: int) -> int {
    len / tile + if len % tile == 0 {
        0int
    } else {
        1int
    }
}

/// The extent of the tile at index `c` along one axis: the full tile length,
/// clipped to what is left of the span.
pub open spec fn axis_extent(len: int, tile: int, c: int) -> int {
    min_int(tile, len - c * tile)
}

/// Whether `p` lies inside the region `r`.
pub open spec fn rect_contains(r: Rect<usize>, p: Vec2<usize>) -> bool {
    &&& r.pos.x <= p.x < r.pos.x + r.size.x
    &&& r.pos.y <= p.y < r.pos.y + r.size.y
}

/// Maps a template's pixel dimensions and a non-zero tile size to the grid of
/// tile-sized regions covering the template.
#[derive(Debug, Clone, Copy, PartialEq, Eq, Structural)]
pub struct GridIndexer {
    /// The template's dimensions in pixels.
    pub template_size: Vec2<usize>,
    /// The size of one tile in pixels; both components are at least 1.
    pub tile_size: Vec2<usize>,
}

impl GridIndexer {
    /// Both tile components are at least 1.
    pub open spec fn wf(self) -> bool {
        1 <= self.tile_size.x && 1 <= self.tile_size.y
    }

    /// The grid width in tiles.
    pub open spec fn grid_w(self) -> int {
        ceil_div(self.template_size.x as int, self.tile_size.x as int)
    }

    /// The grid height in tiles.
    pub open spec fn grid_h(self) -> int {
        ceil_div(self.template_size.y as int, self.tile_size.y as int)
    }

    /// Whether `coord` addresses a tile of the grid.
    pub open spec fn in_grid(self, coord: Vec2<usize>) -> bool {
        coord.x < self.grid_w() && coord.y < self.grid_h()
    }

    /// The pixel-space region of the tile at grid coordinate `coord`: its
    /// top-left corner is the coordinate times the tile size, its size is the
    /// tile size clipped to the template's edges.
    pub open spec fn spec_region_at(self, coord: Vec2<usize>) -> Rect<usize> {
        Rect {
            pos: Vec2 {
                x: (coord.x * self.tile_size.x) as usize,
                y: (coord.y * self.tile_size.y) as usize,
            },
            size: Vec2 {
                x: axis_extent(
                    self.template_size.x as int,
                    self.tile_size.x as int,
                    coord.x as int,
                ) as usize,
                y: axis_extent(
                    self.template_size.y as int,
                    self.tile_size.y as int,
                    coord.y as int,
                ) as usize,
            },
        }
    }

    /// The grid coordinate of the tile containing pixel `p`.
    pub open spec fn grid_coord_of(self, p: Vec2<usize>) -> Vec2<usize> {
        Vec2 {
            x: (p.x as int / self.tile_size.x as int) as usize,
            y: (p.y as int / self.tile_size.y as int) as usize,
        }
    }

    /// Validates the tile size and builds the indexer. A tile size that is
    /// zero on either axis is a fatal configuration error.
    pub fn new(template_size: Vec2<usize>, tile_size: Vec2<usize>) -> (r: Result<
        GridIndexer,
        MosaicError,
    >)
        ensures
            match r {
                Ok(g) => tile_size.x >= 1 && tile_size.y >= 1 && g.template_size == template_size
                    && g.tile_size == tile_size && g.wf(),
                Err(e) => (tile_size.x == 0 || tile_size.y == 0) && e
                    == MosaicError::ConfigurationError,
            },
    {
        if tile_size.x == 0 || tile_size.y == 0 {
            Err(MosaicError::ConfigurationError)
        } else {
            Ok(GridIndexer { template_size, tile_size })
        }
    }

    /// The grid dimensions in tiles: the template dimensions divided by the
    /// tile size, rounded up.
    pub fn grid_size(&self) -> (r: Vec2<usize>)
        requires
            self.wf(),
        ensures
            r.x == self.grid_w(),
            r.y == self.grid_h(),
    {
        proof {
            lemma_ceil_div_le(self.template_size.x as int, self.tile_size.x as int);
            lemma_ceil_div_le(self.template_size.y as int, self.tile_size.y as int);
        }
        let gx = if self.template_size.x % self.tile_size.x == 0 {
            self.template_size.x / self.tile_size.x
        } else {
            self.template_size.x / self.tile_size.x + 1
        };
        let gy = if self.template_size.y % self.tile_size.y == 0 {
            self.template_size.y / self.tile_size.y
        } else {
            self.template_size.y / self.tile_size.y + 1
        };
        Vec2 { x: gx, y: gy }
    }

    /// The pixel-space region of the tile at grid coordinate `coord`.
    pub fn region_at(&self, coord: Vec2<usize>) -> (r: Rect<usize>)
        requires
            self.wf(),
            self.in_grid(coord),
        ensures
            r == self.spec_region_at(coord),
    {
        proof {
            lemma_axis_tile(self.template_size.x as int, self.tile_size.x as int, coord.x as int);
            lemma_axis_tile(self.template_size.y as int, self.tile_size.y as int, coord.y as int);
        }
        let px = coord.x * self.tile_size.x;
        let py = coord.y * self.tile_size.y;
        let sx = if self.tile_size.x <= self.template_size.x - px {
            self.tile_size.x
        } else {
            self.template_size.x - px
        };
        let sy = if self.tile_size.y <= self.template_size.y - py {
            self.tile_size.y
        } else {
            self.template_size.y - py
        };
        Rect { pos: Vec2 { x: px, y: py }, size: Vec2 { x: sx, y: sy } }
    }

    /// All (grid coordinate, pixel-space region) pairs of the grid in
    /// row-major order: left to right, then top to bottom.
    pub fn regions(&self) -> (r: Vec<(Vec2<usize>, Rect<usize>)>)
        requires
            self.wf(),
            self.template_size.x * self.template_size.y <= usize::MAX,
        ensures
            r@.len() == self.grid_w() * self.grid_h(),
            forall|k: int|
                0 <= k < r@.len() ==> #[trigger] r@[k].0 == (Vec2 {
                    x: (k % self.grid_w()) as usize,
                    y: (k / self.grid_w()) as usize,
                }) && r@[k].1 == self.spec_region_at(r@[k].0),
    {
        proof {
            lemma_grid_count_bound(*self);
        }
        let g = self.grid_size();
        let mut r: Vec<(Vec2<usize>, Rect<usize>)> = Vec::new();
        let mut cy: usize = 0;
        while cy < g.y
            invariant
                self.wf(),
                g.x == self.grid_w(),
                g.y == self.grid_h(),
                0 <= cy <= g.y,
                self.grid_w() * self.grid_h() <= usize::MAX,
                r@.len() == cy * g.x,
                forall|k: int|
                    0 <= k < r@.len() ==> #[trigger] r@[k].0 == (Vec2 {
                        x: (k % self.grid_w()) as usize,
                        y: (k / self.grid_w()) as usize,
                    }) && r@[k].1 == self.spec_region_at(r@[k].0),
            decreases g.y - cy,
        {
            let mut cx: usize = 0;
            proof {
                assert((cy + 1) * g.x <= g.y * g.x && cy * g.x + g.x == (cy + 1) * g.x && g.y * g.x
                    == g.x * g.y) by (nonlinear_arith)
                    requires
                        0 <= cy < g.y,
                        0 <= g.x,
                ;
            }
            while cx < g.x
                invariant
                    self.wf(),
                    g.x == self.grid_w(),
                    g.y == self.grid_h(),
                    0 <= cy < g.y,
                    0 <= cx <= g.x,
                    cy * g.x + g.x <= self.grid_w() * self.grid_h() <= usize::MAX,
                    r@.len() == cy * g.x + cx,
                    forall|k: int|
                        0 <= k < r@.len() ==> #[trigger] r@[k].0 == (Vec2 {
                            x: (k % self.grid_w()) as usize,
                            y: (k / self.grid_w()) as usize,
                        }) && r@[k].1 == self.spec_region_at(r@[k].0),
                decreases g.x - cx,
            {
                let coord = Vec2 { x: cx, y: cy };
                let region = self.region_at(coord);
                proof {
                    lemma_fundamental_div_mod_converse_div(
                        (cy as int) * (g.x as int) + (cx as int),
                        g.x as int,
                        cy as int,
                        cx as int,
                    );
                    lemma_fundamental_div_mod_converse_mod(
                        (cy as int) * (g.x as int) + (cx as int),
                        g.x as int,
                        cy as int,
                        cx as int,
                    );
                }
                r.push((coord, region));
                cx = cx + 1;
            }
            cy = cy + 1;
        }
        proof {
            assert((g.y as int) * (g.x as int) == (g.x as int) * (g.y as int))
                by (nonlinear_arith);
        }
        r
    }
}

/// The grid along one axis has no more tiles than the span has pixels.
proof fn lemma_ceil_div_le(len: int, tile: int)
    requires
        0 <= len,
        1 <= tile,
    ensures
        0 <= ceil_div(len, tile) <= len,
{
    let q = len / tile;
    let r = len % tile;
    lemma_fundamental_div_mod(len, tile);
    lemma_mod_division_less_than_divisor(len, tile);
    assert(q <= q * tile) by (nonlinear_arith)
        requires
            0 <= q,
            1 <= tile,
    ;
    assert(0 <= q) by (nonlinear_arith)
        requires
            0 <= len,
            1 <= tile,
            len == q * tile + r,
            0 <= r < tile,
    ;
}

/// Facts about the tile at index `c` along one axis: it starts inside the
/// span, it is between 1 pixel and one tile long, it ends inside the span,
/// and it is exactly one tile long unless it is the last tile of the axis.
proof fn lemma_axis_tile(len: int, tile: int, c: int)
    requires
        1 <= tile,
        0 <= len,
        0 <= c < ceil_div(len, tile),
    ensures
        c * tile < len,
        1 <= axis_extent(len, tile, c) <= tile,
        c * tile + axis_extent(len, tile, c) <= len,
        c + 1 < ceil_div(len, tile) ==> axis_extent(len, tile, c) == tile,
{
    let q = len / tile;
    let r = len % tile;
    lemma_fundamental_div_mod(len, tile);
    lemma_mod_division_less_than_divisor(len, tile);
    if r == 0 {
        assert(c * tile <= (q - 1) * tile && (q - 1) * tile == q * tile - tile) by (nonlinear_arith)
            requires
                c <= q - 1,
                1 <= tile,
        ;
        if c + 1 < ceil_div(len, tile) {
            assert((c + 1) * tile <= (q - 1) * tile && (c + 1) * tile == c * tile + tile)
                by (nonlinear_arith)
                requires
                    c + 1 <= q - 1,
                    1 <= tile,
            ;
        }
    } else {
        assert(c * tile <= q * tile) by (nonlinear_arith)
            requires
                c <= q,
                1 <= tile,
        ;
        if c + 1 < ceil_div(len, tile) {
            assert((c + 1) * tile <= q * tile && (c + 1) * tile == c * tile + tile)
                by (nonlinear_arith)
                requires
                    c + 1 <= q,
                    1 <= tile,
            ;
        }
    }
}

/// The tile index containing pixel `p` of one axis: `p / tile` addresses a
/// tile of the axis, and `p` lies within that tile's extent.
proof fn lemma_axis_cover(len: int, tile: int, p: int)
    requires
        1 <= tile,
        0 <= p < len,
    ensures
        0 <= p / tile < ceil_div(len, tile),
        (p / tile) * tile <= p < (p / tile) * tile + axis_extent(len, tile, p / tile),
{
    let c = p / tile;
    lemma_fundamental_div_mod(p, tile);
    lemma_mod_division_less_than_divisor(p, tile);
    let q = len / tile;
    let r = len % tile;
    lemma_fundamental_div_mod(len, tile);
    lemma_mod_division_less_than_divisor(len, tile);
    if r == 0 {
        if c >= q {
            assert(c * tile >= q * tile) by (nonlinear_arith)
                requires
                    c >= q,
                    1 <= tile,
            ;
        }
    } else {
        if c >= q + 1 {
            assert(c * tile >= (q + 1) * tile && (q + 1) * tile == q * tile + tile)
                by (nonlinear_arith)
                requires
                    c >= q + 1,
                    1 <= tile,
            ;
        }
    }
}

/// The grid has no more tiles than the template has pixels.
proof fn lemma_grid_count_bound(g: GridIndexer)
    requires
        g.wf(),
    ensures
        0 <= g.grid_w() <= g.template_size.x,
        0 <= g.grid_h() <= g.template_size.y,
        g.grid_w() * g.grid_h() <= g.template_size.x * g.template_size.y,
{
    lemma_ceil_div_le(g.template_size.x as int, g.tile_size.x as int);
    lemma_ceil_div_le(g.template_size.y as int, g.tile_size.y as int);
    assert(g.grid_w() * g.grid_h() <= g.template_size.x * g.template_size.y) by (nonlinear_arith)
        requires
            0 <= g.grid_w() <= g.template_size.x,
            0 <= g.grid_h() <= g.template_size.y,
    ;
}

/// Every grid region lies within the template, is at least one pixel and at
/// most one tile large on each axis, and only regions of the last column or
/// last row may be smaller than the tile size.
pub proof fn lemma_region_at_bounds(g: GridIndexer, coord: Vec2<usize>)
    requires
        g.wf(),
        g.in_grid(coord),
    ensures
        ({
            let r = g.spec_region_at(coord);
            &&& r.pos.x + r.size.x <= g.template_size.x
            &&& r.pos.y + r.size.y <= g.template_size.y
            &&& 1 <= r.size.x <= g.tile_size.x
            &&& 1 <= r.size.y <= g.tile_size.y
            &&& r.pos.x == coord.x * g.tile_size.x
            &&& r.pos.y == coord.y * g.tile_size.y
            &&& (coord.x + 1 < g.grid_w() ==> r.size.x == g.tile_size.x)
            &&& (coord.y + 1 < g.grid_h() ==> r.size.y == g.tile_size.y)
        }),
{
    lemma_axis_tile(g.template_size.x as int, g.tile_size.x as int, coord.x as int);
    lemma_axis_tile(g.template_size.y as int, g.tile_size.y as int, coord.y as int);
}

/// No gaps, no overlaps: every template pixel lies in the region of exactly
/// one grid coordinate, namely the pixel's position divided componentwise by
/// the tile size.
pub proof fn lemma_grid_partition(g: GridIndexer, p: Vec2<usize>)
    requires
        g.wf(),
        p.x < g.template_size.x,
        p.y < g.template_size.y,
    ensures
        g.in_grid(g.grid_coord_of(p)),
        rect_contains(g.spec_region_at(g.grid_coord_of(p)), p),
        forall|c: Vec2<usize>|
            g.in_grid(c) && rect_contains(#[trigger] g.spec_region_at(c), p) ==> c
                == g.grid_coord_of(p),
{
    let tw = g.template_size.x as int;
    let th = g.template_size.y as int;
    let sx = g.tile_size.x as int;
    let sy = g.tile_size.y as int;
    lemma_axis_cover(tw, sx, p.x as int);
    lemma_axis_cover(th, sy, p.y as int);
    lemma_axis_tile(tw, sx, p.x as int / sx);
    lemma_axis_tile(th, sy, p.y as int / sy);
    assert forall|c: Vec2<usize>|
        g.in_grid(c) && rect_contains(#[trigger] g.spec_region_at(c), p) implies c
        == g.grid_coord_of(p) by {
        lemma_axis_tile(tw, sx, c.x as int);
        lemma_axis_tile(th, sy, c.y as int);
        lemma_fundamental_div_mod_converse_div(
            p.x as int,
            sx,
            c.x as int,
            (p.x as int) - (c.x as int) * sx,
        );
        lemma_fundamental_div_mod_converse_div(
            p.y as int,
            sy,
            c.y as int,
            (p.y as int) - (c.y as int) * sy,
        );
    }
}

/// The summed widths of the first `n` columns of the grid.
pub open spec fn width_sum(g: GridIndexer, n: int) -> int
    decreases n,
{
    if n <= 0 {
        0
    } else {
        width_sum(g, n - 1) + axis_extent(
            g.template_size.x as int,
            g.tile_size.x as int,
            n - 1,
        )
    }
}

/// The summed heights of the first `n` rows of the grid.
pub open spec fn height_sum(g: GridIndexer, n: int) -> int
    decreases n,
{
    if n <= 0 {
        0
    } else {
        height_sum(g, n - 1) + axis_extent(
            g.template_size.y as int,
            g.tile_size.y as int,
            n - 1,
        )
    }
}

/// The summed areas of the first `n` regions of row `cy`.
pub open spec fn row_area_sum(g: GridIndexer, cy: int, n: int) -> int
    decreases n,
{
    if n <= 0 {
        0
    } else {
        row_area_sum(g, cy, n - 1) + axis_extent(
            g.template_size.x as int,
            g.tile_size.x as int,
            n - 1,
        ) * axis_extent(g.template_size.y as int, g.tile_size.y as int, cy)
    }
}

/// The summed areas of all regions of the first `m` rows of the grid.
pub open spec fn area_sum(g: GridIndexer, m: int) -> int
    decreases m,
{
    if m <= 0 {
        0
    } else {
        area_sum(g, m - 1) + row_area_sum(g, m - 1, g.grid_w())
    }
}

/// `width_sum(g, n)` equals `n` whole tile widths, clipped to the template
/// width.
proof fn lemma_width_sum(g: GridIndexer, n: int)
    requires
        g.wf(),
        0 <= n <= g.grid_w(),
    ensures
        width_sum(g, n) == min_int(n * g.tile_size.x as int, g.template_size.x as int),
    decreases n,
{
    let tw = g.template_size.x as int;
    let sx = g.tile_size.x as int;
    if n == 0 {
    } else {
        lemma_width_sum(g, n - 1);
        lemma_axis_tile(tw, sx, n - 1);
        assert((n - 1) * sx + sx == n * sx) by (nonlinear_arith);
    }
}

/// `height_sum(g, n)` equals `n` whole tile heights, clipped to the template
/// height.
proof fn lemma_height_sum(g: GridIndexer, n: int)
    requires
        g.wf(),
        0 <= n <= g.grid_h(),
    ensures
        height_sum(g, n) == min_int(n * g.tile_size.y as int, g.template_size.y as int),
    decreases n,
{
    let th = g.template_size.y as int;
    let sy = g.tile_size.y as int;
    if n == 0 {
    } else {
        lemma_height_sum(g, n - 1);
        lemma_axis_tile(th, sy, n - 1);
        assert((n - 1) * sy + sy == n * sy) by (nonlinear_arith);
    }
}

/// A whole grid row of tiles spans exactly the template width.
proof fn lemma_width_sum_full(g: GridIndexer)
    requires
        g.wf(),
    ensures
        width_sum(g, g.grid_w()) == g.template_size.x as int,
{
    let tw = g.template_size.x as int;
    let sx = g.tile_size.x as int;
    let q = tw / sx;
    let r = tw % sx;
    lemma_fundamental_div_mod(tw, sx);
    lemma_mod_division_less_than_divisor(tw, sx);
    lemma_ceil_div_le(tw, sx);
    lemma_width_sum(g, g.grid_w());
    if r != 0 {
        assert((q + 1) * sx == q * sx + sx) by (nonlinear_arith);
    }
}

/// A whole grid column of tiles spans exactly the template height.
proof fn lemma_height_sum_full(g: GridIndexer)
    requires
        g.wf(),
    ensures
        height_sum(g, g.grid_h()) == g.template_size.y as int,
{
    let th = g.template_size.y as int;
    let sy = g.tile_size.y as int;
    let q = th / sy;
    let r = th % sy;
    lemma_fundamental_div_mod(th, sy);
    lemma_mod_division_less_than_divisor(th, sy);
    lemma_ceil_div_le(th, sy);
    lemma_height_sum(g, g.grid_h());
    if r != 0 {
        assert((q + 1) * sy == q * sy + sy) by (nonlinear_arith);
    }
}

/// The areas of one grid row factor into the row's height times the summed
/// column widths.
proof fn lemma_row_area_sum(g: GridIndexer, cy: int, n: int)
    requires
        g.wf(),
        0 <= n,
    ensures
        row_area_sum(g, cy, n) == width_sum(g, n) * axis_extent(
            g.template_size.y as int,
            g.tile_size.y as int,
            cy,
        ),
    decreases n,
{
    let h = axis_extent(g.template_size.y as int, g.tile_size.y as int, cy);
    if n == 0 {
        assert(0 * h == 0) by (nonlinear_arith);
    } else {
        lemma_row_area_sum(g, cy, n - 1);
        let w = axis_extent(g.template_size.x as int, g.tile_size.x as int, n - 1);
        assert(width_sum(g, n - 1) * h + w * h == (width_sum(g, n - 1) + w) * h)
            by (nonlinear_arith);
    }
}

/// The areas of all grid regions sum to the template's area: the partition
/// covers the template exactly, with no region counted twice.
pub proof fn lemma_grid_area(g: GridIndexer)
    requires
        g.wf(),
    ensures
        area_sum(g, g.grid_h()) == (g.template_size.x as int) * (g.template_size.y as int),
{
    lemma_grid_area_rows(g, g.grid_h());
    lemma_height_sum_full(g);
}

/// The areas of the first `m` rows sum to the template width times the
/// summed heights of those rows.
proof fn lemma_grid_area_rows(g: GridIndexer, m: int)
    requires
        g.wf(),
        0 <= m <= g.grid_h(),
    ensures
        area_sum(g, m) == (g.template_size.x as int) * height_sum(g, m),
    decreases m,
{
    let tw = g.template_size.x as int;
    if m == 0 {
        assert(tw * 0 == 0) by (nonlinear_arith);
    } else {
        lemma_grid_area_rows(g, m - 1);
        lemma_row_area_sum(g, m - 1, g.grid_w());
        lemma_width_sum_full(g);
        let h = axis_extent(g.template_size.y as int, g.tile_size.y as int, m - 1);
        assert(tw * height_sum(g, m - 1) + tw * h == tw * (height_sum(g, m - 1) + h))
            by (nonlinear_arith);
    }
}

/// Row-major indexing is injective: two distinct in-bounds grid coordinates
/// never share a flat index.
pub proof fn lemma_row_major_injective(a: Vec2<usize>, b: Vec2<usize>, width: usize, height: usize)
    requires
        a.x < width,
        a.y < height,
        b.x < width,
        b.y < height,
        a.y * width + a.x == b.y * width + b.x,
    ensures
        a == b,
{
    let i = (a.y as int) * (width as int) + (a.x as int);
    lemma_fundamental_div_mod_converse_div(i, width as int, a.y as int, a.x as int);
    lemma_fundamental_div_mod_converse_mod(i, width as int, a.y as int, a.x as int);
    lemma_fundamental_div_mod_converse_div(i, width as int, b.y as int, b.x as int);
    lemma_fundamental_div_mod_converse_mod(i, width as int, b.y as int, b.x as int);
}

/// The row-major index of an in-bounds coordinate lies below the grid area.
pub proof fn lemma_row_major_in_range(c: Vec2<usize>, width: usize, height: usize)
    requires
        c.x < width,
        c.y < height,
    ensures
        0 <= c.y * width + c.x < width * height,
{
    assert((c.y as int) * (width as int) + (c.x as int) < (width as int) * (height as int))
        by (nonlinear_arith)
        requires
            c.x < width,
            c.y < height,
            0 <= c.x,
            0 <= c.y,
    ;
}

/// Row-major indices are dense: every index below the grid area is taken by
/// some in-bounds coordinate.
pub proof fn lemma_row_major_dense(i: usize, width: usize, height: usize)
    requires
        (i as int) < width * height,
    ensures
        exists|c: Vec2<usize>|
            c.x < width && c.y < height && #[trigger] (c.y * width + c.x) == i as int,
{
    assert(width > 0) by (nonlinear_arith)
        requires
            (i as int) < width * height,
            0 <= i,
    ;
    let cx = (i as int) % (width as int);
    let cy = i as int / width as int;
    lemma_fundamental_div_mod(i as int, width as int);
    lemma_mod_division_less_than_divisor(i as int, width as int);
    assert(cy < height) by (nonlinear_arith)
        requires
            i as int == (width as int) * cy + cx,
            0 <= cx < width,
            (i as int) < width * height,
            0 < width,
    ;
    let c = Vec2 { x: cx as usize, y: cy as usize };
    assert(cy * (width as int) == (width as int) * cy) by (nonlinear_arith);
    assert(c.x < width && c.y < height && c.y * width + c.x == i as int);
}

} // verus!
