//! The virtual mosaic of all captured monitors, and pixel sampling across it.
//!
//! A tile's scale is the ratio of its captured (physical) width to its width
//! in compositor (logical) units. It is held as that exact ratio of two
//! integers, and every conversion between logical and physical coordinates is
//! computed exactly, with the IEEE-754 conventions for the degenerate ratios
//! (a zero ratio divides to infinity, `0/0` is not a number) and with
//! saturation when a result is brought back to `i32`.

use vstd::prelude::*;
use crate::color::{channel, xrgb_channels};
use crate::text::chars_of;
use crate::capture::{lemma_index_in_grid, ScreenCapture, Transform, apply_transform, transformed_width,
    transformed_height, transformed_pixels};

verus! {

/// A scale factor `physical / logical`.
#[derive(Clone, Copy, Debug, PartialEq, Eq, Structural)]
pub struct Scale {
    pub physical: u32,
    pub logical: u32,
}

/// The scale of one physical pixel per logical unit.
pub open spec fn unit_scale() -> Scale {
    Scale { physical: 1, logical: 1 }
}

/// `v` brought into the range of `i32`, as a float-to-`i32` cast saturates.
pub open spec fn sat_i32(v: int) -> int {
    if v > i32::MAX {
        i32::MAX as int
    } else if v < i32::MIN {
        i32::MIN as int
    } else {
        v
    }
}

/// `floor(v / scale)` as an `i32`.
pub open spec fn floor_div_scale(v: int, s: Scale) -> int {
    if s.physical == 0 {
        if s.logical == 0 || v == 0 {
            0
        } else if v > 0 {
            i32::MAX as int
        } else {
            i32::MIN as int
        }
    } else {
        sat_i32((v * s.logical) / (s.physical as int))
    }
}

/// `round(v / scale)` as an `i32`, for `v >= 0` (halves round up).
pub open spec fn round_div_scale(v: int, s: Scale) -> int {
    if s.physical == 0 {
        if s.logical == 0 || v == 0 {
            0
        } else {
            i32::MAX as int
        }
    } else {
        sat_i32((2 * (v * s.logical) + s.physical) / (2 * s.physical as int))
    }
}

/// `round(v * scale)` as an `i32`, for `v >= 0` (halves round up).
pub open spec fn round_mul_scale(v: int, s: Scale) -> int {
    if s.logical == 0 {
        if s.physical == 0 || v == 0 {
            0
        } else {
            i32::MAX as int
        }
    } else {
        sat_i32((2 * (v * s.physical) + s.logical) / (2 * s.logical as int))
    }
}

/// `v` brought into the range of `i32`.
fn saturate_i32(v: i128) -> (r: i32)
    ensures
        r == sat_i32(v as int),
{
    if v > i32::MAX as i128 {
        i32::MAX
    } else if v < i32::MIN as i128 {
        i32::MIN
    } else {
        v as i32
    }
}

proof fn lemma_floor_div_negative(a: int, b: int)
    requires
        a < 0,
        b > 0,
    ensures
        a / b == -((-a + b - 1) / b),
{
    let m = -a;
    let q = m / b;
    let r = m % b;
    vstd::arithmetic::div_mod::lemma_fundamental_div_mod(m, b);
    vstd::arithmetic::div_mod::lemma_mod_bound(m, b);
    assert(m == q * b + r) by (nonlinear_arith)
        requires
            m == b * q + r,
    ;
    if r == 0 {
        assert(a == (-q) * b + 0) by (nonlinear_arith)
            requires
                a == -m,
                m == q * b,
        ;
        vstd::arithmetic::div_mod::lemma_fundamental_div_mod_converse(a, b, -q, 0);
        vstd::arithmetic::div_mod::lemma_fundamental_div_mod_converse(m + b - 1, b, q, b - 1);
    } else {
        assert(a == (-q - 1) * b + (b - r)) by (nonlinear_arith)
            requires
                a == -m,
                m == q * b + r,
        ;
        assert(m + b - 1 == (q + 1) * b + (r - 1)) by (nonlinear_arith)
            requires
                m == q * b + r,
        ;
        vstd::arithmetic::div_mod::lemma_fundamental_div_mod_converse(a, b, -q - 1, b - r);
        vstd::arithmetic::div_mod::lemma_fundamental_div_mod_converse(m + b - 1, b, q + 1, r - 1);
    }
}

/// `floor(a / b)` for `b > 0`.
fn floor_div_i128(a: i128, b: i128) -> (q: i128)
    requires
        b > 0,
        -0x1_0000_0000_0000_0000_0000 < a < 0x1_0000_0000_0000_0000_0000,
        b < 0x1_0000_0000_0000_0000_0000,
    ensures
        q == a as int / b as int,
{
    if a >= 0 {
        (a as u128 / b as u128) as i128
    } else {
        proof {
            lemma_floor_div_negative(a as int, b as int);
        }
        let m: u128 = (-a) as u128;
        -(((m + b as u128 - 1) / b as u128) as i128)
    }
}

/// `floor(v / scale)` as an `i32`.
pub fn scale_floor_div(v: i32, s: Scale) -> (r: i32)
    ensures
        r == floor_div_scale(v as int, s),
{
    if s.physical == 0 {
        if s.logical == 0 || v == 0 {
            0
        } else if v > 0 {
            i32::MAX
        } else {
            i32::MIN
        }
    } else {
        let vi: i128 = v as i128;
        let li: i128 = s.logical as i128;
        assert(-0x1_0000_0000_0000_0000 <= vi * li <= 0x1_0000_0000_0000_0000) by (nonlinear_arith)
            requires
                i32::MIN <= vi <= i32::MAX,
                0 <= li <= u32::MAX,
        ;
        let a: i128 = vi * li;
        saturate_i32(floor_div_i128(a, s.physical as i128))
    }
}

/// `round(v / scale)` as an `i32`.
pub fn scale_round_div(v: u32, s: Scale) -> (r: i32)
    ensures
        r == round_div_scale(v as int, s),
{
    if s.physical == 0 {
        if s.logical == 0 || v == 0 {
            0
        } else {
            i32::MAX
        }
    } else {
        let vu: u128 = v as u128;
        let fu: u128 = s.logical as u128;
        assert(vu * fu <= 0x1_0000_0000_0000_0000) by (nonlinear_arith)
            requires
                vu <= u32::MAX,
                fu <= u32::MAX,
        ;
        let a: u128 = 2 * (vu * fu) + s.physical as u128;
        let q: u128 = a / (2 * s.physical as u128);
        saturate_i32(q as i128)
    }
}

/// `round(v * scale)` as an `i32`.
pub fn scale_round_mul(v: u32, s: Scale) -> (r: i32)
    ensures
        r == round_mul_scale(v as int, s),
{
    if s.logical == 0 {
        if s.physical == 0 || v == 0 {
            0
        } else {
            i32::MAX
        }
    } else {
        let vu: u128 = v as u128;
        let fu: u128 = s.physical as u128;
        assert(vu * fu <= 0x1_0000_0000_0000_0000) by (nonlinear_arith)
            requires
                vu <= u32::MAX,
                fu <= u32::MAX,
        ;
        let a: u128 = 2 * (vu * fu) + s.logical as u128;
        let q: u128 = a / (2 * s.logical as u128);
        saturate_i32(q as i128)
    }
}

// ---------------------------------------------------------------------------
// Tiles and the canvas
// ---------------------------------------------------------------------------

/// One captured monitor placed in compositor space.
pub struct MonitorTile {
    pub capture: ScreenCapture,
    /// Key of the output (monitor) this tile was captured from, if known.
    pub output: Option<u64>,
    /// Physical pixels per logical unit.
    pub scale: Scale,
    /// Logical position of this monitor in compositor space.
    pub logical_pos: (i32, i32),
    pub transform: Transform,
}

/// `r` is the capture `c` after transform `t`.
pub open spec fn is_transform_of(r: ScreenCapture, c: ScreenCapture, t: Transform) -> bool {
    if t == Transform::Normal {
        r == c
    } else {
        &&& r.width == transformed_width(t, c.width, c.height)
        &&& r.height == transformed_height(t, c.width, c.height)
        &&& r.xrgb_buffer@ == transformed_pixels(c, t)
    }
}

impl MonitorTile {
    /// Builds a tile from a capture and its output's metadata: the capture is
    /// turned upright first, and the scale is the upright capture's width over
    /// the logical width (one to one when the logical width is not positive).
    pub fn from_capture(
        capture: ScreenCapture,
        output: u64,
        logical_pos: (i32, i32),
        logical_w: i32,
        transform: Transform,
    ) -> (r: Self)
        requires
            transform == Transform::Normal || capture.wf(),
        ensures
            is_transform_of(r.capture, capture, transform),
            r.output == Some(output),
            r.scale == (if logical_w > 0 {
                Scale { physical: r.capture.width, logical: logical_w as u32 }
            } else {
                unit_scale()
            }),
            r.logical_pos == logical_pos,
            r.transform == transform,
    {
        let capture = apply_transform(capture, transform);
        let scale = if logical_w > 0 {
            Scale { physical: capture.width, logical: logical_w as u32 }
        } else {
            Scale { physical: 1, logical: 1 }
        };
        MonitorTile { capture, output: Some(output), scale, logical_pos, transform }
    }

    /// Width of the tile in logical units.
    pub open spec fn logical_width(&self) -> int {
        round_div_scale(self.capture.width as int, self.scale)
    }

    /// Height of the tile in logical units.
    pub open spec fn logical_height(&self) -> int {
        round_div_scale(self.capture.height as int, self.scale)
    }

    /// The pixel of this tile under the logical point (`gx`, `gy`), if the
    /// point falls in the tile's logical box and maps to one of its pixels.
    pub open spec fn pixel_at_logical(&self, gx: int, gy: int) -> Option<u32> {
        let (px, py) = (self.logical_pos.0 as int, self.logical_pos.1 as int);
        if px <= gx < px + self.logical_width() && py <= gy < py + self.logical_height() {
            let x = round_mul_scale(gx - px, self.scale);
            let y = round_mul_scale(gy - py, self.scale);
            if 0 <= x < self.capture.width && 0 <= y < self.capture.height {
                Some(self.capture.pixel(x, y))
            } else {
                None
            }
        } else {
            None
        }
    }
}

impl MonitorTile {
    /// Where the logical point (`gx`, `gy`) maps to a pixel of this tile, the
    /// buffer holds that pixel.
    pub open spec fn reads_ok(&self, gx: int, gy: int) -> bool {
        let (px, py) = (self.logical_pos.0 as int, self.logical_pos.1 as int);
        let x = round_mul_scale(gx - px, self.scale);
        let y = round_mul_scale(gy - py, self.scale);
        px <= gx < px + self.logical_width() && py <= gy < py + self.logical_height() && 0 <= x
            < self.capture.width && 0 <= y < self.capture.height ==> y * self.capture.width + x
            < self.capture.xrgb_buffer@.len()
    }

    /// The pixel of this tile under the logical point (`gx`, `gy`), if any.
    pub fn logical_pixel(&self, gx: i64, gy: i64) -> (r: Option<u32>)
        requires
            self.reads_ok(gx as int, gy as int),
        ensures
            r == self.pixel_at_logical(gx as int, gy as int),
    {
        let px = self.logical_pos.0 as i64;
        let py = self.logical_pos.1 as i64;
        let lw = scale_round_div(self.capture.width, self.scale) as i64;
        let lh = scale_round_div(self.capture.height, self.scale) as i64;
        if gx >= px && gx < px + lw && gy >= py && gy < py + lh {
            let x = scale_round_mul((gx - px) as u32, self.scale);
            let y = scale_round_mul((gy - py) as u32, self.scale);
            if x >= 0 && (x as u32) < self.capture.width && y >= 0 && (y as u32) < self.capture.height {
                proof {
                    assert(self.capture.xrgb_buffer@.len() == self.capture.xrgb_buffer.len());
                    assert(0 <= y * self.capture.width) by (nonlinear_arith)
                        requires
                            y >= 0,
                    ;
                }
                let idx = y as usize * self.capture.width as usize + x as usize;
                Some(self.capture.xrgb_buffer[idx])
            } else {
                None
            }
        } else {
            None
        }
    }
}

/// Every tile that the search for the point's first pixel reads holds the
/// pixel it reads: the tiles are tried in order up to the first one with a
/// pixel there.
pub open spec fn tiles_read_ok(tiles: Seq<MonitorTile>, gx: int, gy: int) -> bool
    decreases tiles.len(),
{
    tiles.len() == 0 || (tiles[0].reads_ok(gx, gy) && (tiles[0].pixel_at_logical(gx, gy) is None
        ==> tiles_read_ok(tiles.drop_first(), gx, gy)))
}

/// The first tile of `tiles` that has a pixel under the logical point.
pub open spec fn first_hit(tiles: Seq<MonitorTile>, gx: int, gy: int) -> Option<u32>
    decreases tiles.len(),
{
    if tiles.len() == 0 {
        None
    } else {
        match tiles[0].pixel_at_logical(gx, gy) {
            Some(v) => Some(v),
            None => first_hit(tiles.drop_first(), gx, gy),
        }
    }
}

/// What one sample adds to total `k`: its red, green or blue component for
/// `k` of 0, 1 or 2, and 1 to the count for `k` of 3; nothing when absent.
pub open spec fn sample_term(o: Option<u32>, k: int) -> int {
    match o {
        Some(px) => if k == 3 {
            1
        } else {
            channel(px, k)
        },
        None => 0,
    }
}

/// Every captured monitor, each in its own buffer.
pub struct PhysicalCanvas {
    pub tiles: Vec<MonitorTile>,
    /// Index of the tile where the overlay surface currently lives.
    pub active_idx: usize,
}

impl PhysicalCanvas {
    /// The active index names a tile, and every capture holds its pixels.
    pub open spec fn wf(&self) -> bool {
        &&& self.active_idx < self.tiles@.len()
        &&& forall|i: int| 0 <= i < self.tiles@.len() ==> (#[trigger] self.tiles@[i]).capture.wf()
    }

    /// The active index names a tile, and the pixels that `sample` reads for
    /// the physical point (`x`, `y`) are in their buffers.
    pub open spec fn sample_ok(&self, x: int, y: int) -> bool {
        let a = self.tiles@[self.active_idx as int];
        &&& self.active_idx < self.tiles@.len()
        &&& if 0 <= x < a.capture.width && 0 <= y < a.capture.height {
            y * a.capture.width + x < a.capture.xrgb_buffer@.len()
        } else {
            tiles_read_ok(
                self.tiles@,
                a.logical_pos.0 + floor_div_scale(x, a.scale),
                a.logical_pos.1 + floor_div_scale(y, a.scale),
            )
        }
    }

    /// What `sample` returns for the active tile's physical point (`x`, `y`):
    /// its own pixel when the point lies inside it; otherwise the point is
    /// taken to compositor space and the first tile with a pixel there gives it.
    pub open spec fn spec_sample(&self, x: int, y: int) -> Option<u32> {
        let a = self.tiles@[self.active_idx as int];
        if 0 <= x < a.capture.width && 0 <= y < a.capture.height {
            Some(a.capture.pixel(x, y))
        } else {
            let gx = a.logical_pos.0 + floor_div_scale(x, a.scale);
            let gy = a.logical_pos.1 + floor_div_scale(y, a.scale);
            first_hit(self.tiles@, gx, gy)
        }
    }

    /// Samples a pixel at the active tile's local physical point. A point
    /// outside the active tile is carried through compositor space to the
    /// adjacent monitor's pixel, if a tile covers it.
    pub fn sample(&self, local_x: i32, local_y: i32) -> (r: Option<u32>)
        requires
            self.sample_ok(local_x as int, local_y as int),
        ensures
            r == self.spec_sample(local_x as int, local_y as int),
    {
        let active = &self.tiles[self.active_idx];
        if local_x >= 0 && (local_x as u32) < active.capture.width && local_y >= 0 && (local_y as u32)
            < active.capture.height {
            proof {
                assert(active.capture.xrgb_buffer@.len() == active.capture.xrgb_buffer.len());
                assert(0 <= local_y * active.capture.width) by (nonlinear_arith)
                    requires
                        local_y >= 0,
                ;
            }
            let idx = local_y as usize * active.capture.width as usize + local_x as usize;
            return Some(active.capture.xrgb_buffer[idx]);
        }
        let gx: i64 = active.logical_pos.0 as i64 + scale_floor_div(local_x, active.scale) as i64;
        let gy: i64 = active.logical_pos.1 as i64 + scale_floor_div(local_y, active.scale) as i64;
        let mut i: usize = 0;
        assert(self.tiles@.skip(0) =~= self.tiles@);
        while i < self.tiles.len()
            invariant
                tiles_read_ok(self.tiles@.skip(i as int), gx as int, gy as int),
                i <= self.tiles@.len(),
                self.spec_sample(local_x as int, local_y as int) == first_hit(
                    self.tiles@,
                    gx as int,
                    gy as int,
                ),
                first_hit(self.tiles@, gx as int, gy as int) == first_hit(
                    self.tiles@.skip(i as int),
                    gx as int,
                    gy as int,
                ),
            decreases self.tiles.len() - i,
        {
            let ghost rest = self.tiles@.skip(i as int);
            assert(rest[0] == self.tiles@[i as int]);
            assert(rest.drop_first() =~= self.tiles@.skip(i + 1));
            match self.tiles[i].logical_pixel(gx, gy) {
                Some(v) => {
                    assert(first_hit(rest, gx as int, gy as int) == Some(v));
                    return Some(v);
                },
                None => {},
            }
            i = i + 1;
        }
        None
    }

    /// Total `k` of the samples at columns `cx - r .. cx + hi - 1` of row `y`.
    pub open spec fn row_total(&self, cx: int, y: int, r: int, hi: int, k: int) -> int
        decreases hi + r,
    {
        if hi <= -r {
            0
        } else {
            self.row_total(cx, y, r, hi - 1, k) + sample_term(self.spec_sample(cx + hi - 1, y), k)
        }
    }

    /// Total `k` of the samples in rows `cy - r .. cy + hi - 1` of the square
    /// of half-width `r` around (`cx`, `cy`).
    pub open spec fn square_total(&self, cx: int, cy: int, r: int, hi: int, k: int) -> int
        decreases hi + r,
    {
        if hi <= -r {
            0
        } else {
            self.square_total(cx, cy, r, hi - 1, k) + self.row_total(cx, cy + hi - 1, r, r + 1, k)
        }
    }

    /// Average of total `k` over the samples present in the square of
    /// half-width `r` around (`cx`, `cy`); 0 when none is present.
    pub open spec fn square_average(&self, cx: int, cy: int, r: int, k: int) -> int {
        let n = self.square_total(cx, cy, r, r + 1, 3);
        if n == 0 {
            0
        } else {
            self.square_total(cx, cy, r, r + 1, k) / n
        }
    }

    /// Average colour of the `(2 * radius + 1)`-wide square around
    /// (`cx`, `cy`), each point sampled as `sample` does; points that sample to
    /// nothing are left out, and a square with no sample is black. Each
    /// component is the integer quotient of its sum by the number of samples.
    pub fn sample_average(&self, cx: i32, cy: i32, radius: i32) -> (rgb: (u8, u8, u8))
        requires
            self.active_idx < self.tiles@.len(),
            forall|x: int, y: int|
                cx - radius <= x <= cx + radius && cy - radius <= y <= cy + radius ==> #[trigger] self.sample_ok(x, y),
            radius > i32::MIN,
            radius >= 0 ==> {
                &&& cx - radius >= i32::MIN
                &&& cx + radius <= i32::MAX
                &&& cy - radius >= i32::MIN
                &&& cy + radius <= i32::MAX
            },
        ensures
            rgb.0 == self.square_average(cx as int, cy as int, radius as int, 0),
            rgb.1 == self.square_average(cx as int, cy as int, radius as int, 1),
            rgb.2 == self.square_average(cx as int, cy as int, radius as int, 2),
    {
        if radius < 0 {
            return (0, 0, 0);
        }
        let r = radius as i64;
        let n: u128 = 2 * (r as u128) + 1;
        let ghost (gx, gy, gr) = (cx as int, cy as int, r as int);
        let mut sr: u128 = 0;
        let mut sg: u128 = 0;
        let mut sb: u128 = 0;
        let mut cnt: u128 = 0;
        let mut steps: u128 = 0;
        assert(n * n <= 0x1_0000_0000_0000_0000) by (nonlinear_arith)
            requires
                n <= 0x1_0000_0000,
        ;
        let mut dy: i64 = -r;
        assert((dy + r) * n == 0) by (nonlinear_arith)
            requires
                dy + r == 0,
        ;
        while dy <= r
            invariant
                forall|x: int, y: int|
                    cx - r <= x <= cx + r && cy - r <= y <= cy + r ==> #[trigger] self.sample_ok(x, y),
                gx == cx,
                gy == cy,
                gr == r,
                0 <= r <= i32::MAX,
                cx - r >= i32::MIN,
                cx + r <= i32::MAX,
                cy - r >= i32::MIN,
                cy + r <= i32::MAX,
                n == 2 * r + 1,
                n * n <= 0x1_0000_0000_0000_0000,
                -r <= dy <= r + 1,
                steps == (dy + r) * n,
                sr == self.square_total(gx, gy, gr, dy as int, 0),
                sg == self.square_total(gx, gy, gr, dy as int, 1),
                sb == self.square_total(gx, gy, gr, dy as int, 2),
                cnt == self.square_total(gx, gy, gr, dy as int, 3),
                sr <= 255 * cnt,
                sg <= 255 * cnt,
                sb <= 255 * cnt,
                cnt <= steps,
            decreases r + 1 - dy,
        {
            let mut dx: i64 = -r;
            let ghost (s0r, s0g, s0b, s0c) = (sr as int, sg as int, sb as int, cnt as int);
            assert(steps <= n * n - n) by (nonlinear_arith)
                requires
                    steps == (dy + r) * n,
                    dy + r <= n - 1,
                    n >= 1,
            ;
            while dx <= r
                invariant
                    forall|x: int, y: int|
                        cx - r <= x <= cx + r && cy - r <= y <= cy + r ==> #[trigger] self.sample_ok(x, y),
                    gx == cx,
                    gy == cy,
                    gr == r,
                    0 <= r <= i32::MAX,
                    cx - r >= i32::MIN,
                    cx + r <= i32::MAX,
                    cy - r >= i32::MIN,
                    cy + r <= i32::MAX,
                    n == 2 * r + 1,
                    n * n <= 0x1_0000_0000_0000_0000,
                    -r <= dy <= r,
                    -r <= dx <= r + 1,
                    steps == (dy + r) * n + (dx + r),
                    steps <= n * n,
                    s0r == self.square_total(gx, gy, gr, dy as int, 0),
                    s0g == self.square_total(gx, gy, gr, dy as int, 1),
                    s0b == self.square_total(gx, gy, gr, dy as int, 2),
                    s0c == self.square_total(gx, gy, gr, dy as int, 3),
                    sr == s0r + self.row_total(gx, gy + dy, gr, dx as int, 0),
                    sg == s0g + self.row_total(gx, gy + dy, gr, dx as int, 1),
                    sb == s0b + self.row_total(gx, gy + dy, gr, dx as int, 2),
                    cnt == s0c + self.row_total(gx, gy + dy, gr, dx as int, 3),
                    sr <= 255 * cnt,
                    sg <= 255 * cnt,
                    sb <= 255 * cnt,
                    cnt <= steps,
                decreases r + 1 - dx,
            {
                let o = self.sample((cx as i64 + dx) as i32, (cy as i64 + dy) as i32);
                match o {
                    Some(px) => {
                        let (pr, pg, pb) = xrgb_channels(px);
                        sr = sr + pr as u128;
                        sg = sg + pg as u128;
                        sb = sb + pb as u128;
                        cnt = cnt + 1;
                    },
                    None => {},
                }
                assert((dy + r) * n + (dx + r) + 1 <= n * n) by (nonlinear_arith)
                    requires
                        dy + r <= n - 1,
                        dx + r <= n - 1,
                        n >= 1,
                ;
                steps = steps + 1;
                dx = dx + 1;
            }
            assert((dy + r) * n + n == (dy + 1 + r) * n) by (nonlinear_arith);
            dy = dy + 1;
        }
        let ghost k = self.square_total(gx, gy, gr, gr + 1, 3);
        if cnt == 0 {
            return (0, 0, 0);
        }
        assert(sr / cnt <= 255 && sg / cnt <= 255 && sb / cnt <= 255) by (nonlinear_arith)
            requires
                sr <= 255 * cnt,
                sg <= 255 * cnt,
                sb <= 255 * cnt,
                cnt > 0,
        ;
        ((sr / cnt) as u8, (sg / cnt) as u8, (sb / cnt) as u8)
    }

    /// A canvas of the given tiles, the first one active.
    pub fn build(tiles: Vec<MonitorTile>) -> (r: Self)
        ensures
            r.tiles == tiles,
            r.active_idx == 0,
    {
        PhysicalCanvas { tiles, active_idx: 0 }
    }

    /// The canvas of one capture tier: its tiles, if it captured any; an
    /// empty tier leaves the choice to the next one.
    pub fn from_tier(tiles: Vec<MonitorTile>) -> (r: Option<Self>)
        ensures
            match r {
                Some(c) => tiles@.len() > 0 && c.tiles == tiles && c.active_idx == 0,
                None => tiles@.len() == 0,
            },
    {
        if tiles.len() == 0 {
            None
        } else {
            Some(PhysicalCanvas::build(tiles))
        }
    }

    /// A canvas of one full-desktop capture, at the origin, one to one.
    pub fn from_single(capture: ScreenCapture, output: Option<u64>) -> (r: Self)
        ensures
            r.tiles@.len() == 1,
            r.tiles@[0].capture == capture,
            r.tiles@[0].output == output,
            r.tiles@[0].scale == unit_scale(),
            r.tiles@[0].logical_pos == (0i32, 0i32),
            r.tiles@[0].transform == Transform::Normal,
            r.active_idx == 0,
    {
        let tile = MonitorTile {
            capture,
            output,
            scale: Scale { physical: 1, logical: 1 },
            logical_pos: (0, 0),
            transform: Transform::Normal,
        };
        let mut tiles: Vec<MonitorTile> = Vec::new();
        tiles.push(tile);
        PhysicalCanvas { tiles, active_idx: 0 }
    }

    /// Index of the first tile captured from `output`.
    pub fn find_tile(&self, output: u64) -> (r: Option<usize>)
        ensures
            match r {
                Some(i) => {
                    &&& i < self.tiles@.len()
                    &&& self.tiles@[i as int].output == Some(output)
                    &&& forall|j: int| 0 <= j < i ==> self.tiles@[j].output != Some(output)
                },
                None => forall|j: int|
                    0 <= j < self.tiles@.len() ==> self.tiles@[j].output != Some(output),
            },
    {
        let mut i: usize = 0;
        while i < self.tiles.len()
            invariant
                i <= self.tiles@.len(),
                forall|j: int| 0 <= j < i ==> self.tiles@[j].output != Some(output),
            decreases self.tiles.len() - i,
        {
            match self.tiles[i].output {
                Some(o) => {
                    if o == output {
                        return Some(i);
                    }
                },
                None => {},
            }
            i = i + 1;
        }
        None
    }

    /// Like `find_tile`, falling back to the first tile.
    pub fn tile_index_for(&self, output: u64) -> (r: usize)
        ensures
            (exists|j: int| 0 <= j < self.tiles@.len() && self.tiles@[j].output == Some(output)) ==> {
                &&& r < self.tiles@.len()
                &&& self.tiles@[r as int].output == Some(output)
                &&& forall|k: int| 0 <= k < r ==> self.tiles@[k].output != Some(output)
            },
            !(exists|j: int| 0 <= j < self.tiles@.len() && self.tiles@[j].output == Some(output))
                ==> r == 0,
    {
        match self.find_tile(output) {
            Some(i) => i,
            None => 0,
        }
    }

    /// The tile where the overlay surface lives.
    pub fn active(&self) -> (r: &MonitorTile)
        requires
            self.active_idx < self.tiles@.len(),
        ensures
            *r == self.tiles@[self.active_idx as int],
    {
        &self.tiles[self.active_idx]
    }
}

/// A canvas of one full-desktop capture samples its own pixels and finds
/// nothing beyond its edges.
pub proof fn lemma_single_capture_sampling(c: PhysicalCanvas, x: int, y: int)
    requires
        c.tiles@.len() == 1,
        c.active_idx == 0,
        c.tiles@[0].scale == unit_scale(),
        i32::MIN <= x <= i32::MAX,
        i32::MIN <= y <= i32::MAX,
    ensures
        c.spec_sample(x, y) == (if 0 <= x < c.tiles@[0].capture.width && 0 <= y
            < c.tiles@[0].capture.height {
            Some(c.tiles@[0].capture.pixel(x, y))
        } else {
            None
        }),
{
    let t = c.tiles@[0];
    if !(0 <= x < t.capture.width && 0 <= y < t.capture.height) {
        let gx = t.logical_pos.0 + floor_div_scale(x, t.scale);
        let gy = t.logical_pos.1 + floor_div_scale(y, t.scale);
        assert(t.scale.logical == 1 && t.scale.physical == 1);
        assert(x * (t.scale.logical as int) == x);
        assert(y * (t.scale.logical as int) == y);
        assert(x / 1 == x && y / 1 == y);
        assert(sat_i32(x) == x && sat_i32(y) == y);
        assert(floor_div_scale(x, t.scale) == sat_i32((x * (t.scale.logical as int)) / (t.scale.physical as int)));
        assert(floor_div_scale(x, t.scale) == x);
        assert(floor_div_scale(y, t.scale) == y);
        assert(c.tiles@.drop_first().len() == 0);
        assert(first_hit(c.tiles@.drop_first(), gx, gy) is None);
        if t.pixel_at_logical(gx, gy) is Some {
            assert((gx - t.logical_pos.0) * (t.scale.physical as int) == x);
            assert((gy - t.logical_pos.1) * (t.scale.physical as int) == y);
            assert(round_mul_scale(gx - t.logical_pos.0, t.scale) == x);
            assert(round_mul_scale(gy - t.logical_pos.1, t.scale) == y);
        }
    }
}

/// Indices, in order, of the outputs that have a name: the outputs that the
/// per-output KWin capture is asked for.
pub open spec fn named_output_indices(names: Seq<Seq<char>>) -> Seq<usize>
    decreases names.len(),
{
    if names.len() == 0 {
        Seq::empty()
    } else {
        let rest = named_output_indices(names.drop_last());
        if names.last().len() > 0 {
            rest.push((names.len() - 1) as usize)
        } else {
            rest
        }
    }
}

/// The outputs to capture one by one over KWin's D-Bus interface: those with
/// a non-empty name, in the order given.
pub fn kwin_capture_targets(names: &Vec<String>) -> (r: Vec<usize>)
    ensures
        r@ == named_output_indices(names@.map_values(|s: String| s@)),
{
    let ghost v = names@.map_values(|s: String| s@);
    let mut r: Vec<usize> = Vec::new();
    let mut i: usize = 0;
    while i < names.len()
        invariant
            i <= names@.len(),
            v == names@.map_values(|s: String| s@),
            r@ == named_output_indices(v.take(i as int)),
        decreases names.len() - i,
    {
        let cs = chars_of(names[i].as_str());
        proof {
            assert(v.take(i + 1).drop_last() =~= v.take(i as int));
            assert(v.take(i + 1).last() == names@[i as int]@);
        }
        if cs.len() > 0 {
            r.push(i);
        }
        i = i + 1;
    }
    assert(v.take(names@.len() as int) =~= v);
    r
}

proof fn lemma_wf_tiles_read_ok(tiles: Seq<MonitorTile>, gx: int, gy: int)
    requires
        forall|i: int| 0 <= i < tiles.len() ==> (#[trigger] tiles[i]).capture.wf(),
    ensures
        tiles_read_ok(tiles, gx, gy),
    decreases tiles.len(),
{
    if tiles.len() > 0 {
        let t = tiles[0];
        assert(t.capture.wf());
        let x = round_mul_scale(gx - t.logical_pos.0, t.scale);
        let y = round_mul_scale(gy - t.logical_pos.1, t.scale);
        if 0 <= x < t.capture.width && 0 <= y < t.capture.height {
            lemma_index_in_grid(x, y, t.capture.width as int, t.capture.height as int);
        }
        let rest = tiles.drop_first();
        assert forall|i: int| 0 <= i < rest.len() implies (#[trigger] rest[i]).capture.wf() by {
            assert(rest[i] == tiles[i + 1]);
        }
        lemma_wf_tiles_read_ok(rest, gx, gy);
    }
}

/// A canvas whose captures all hold their pixels can be sampled at any point.
pub proof fn lemma_wf_canvas_samples(c: PhysicalCanvas, x: int, y: int)
    requires
        c.wf(),
    ensures
        c.sample_ok(x, y),
{
    let a = c.tiles@[c.active_idx as int];
    assert(a.capture.wf());
    if 0 <= x < a.capture.width && 0 <= y < a.capture.height {
        lemma_index_in_grid(x, y, a.capture.width as int, a.capture.height as int);
    } else {
        lemma_wf_tiles_read_ok(
            c.tiles@,
            a.logical_pos.0 + floor_div_scale(x, a.scale),
            a.logical_pos.1 + floor_div_scale(y, a.scale),
        );
    }
}

/// One physical pixel per logical unit, and a capture whose sides fit in `i32`.
pub open spec fn unit_tile(t: MonitorTile) -> bool {
    &&& t.scale == unit_scale()
    &&& t.capture.width <= i32::MAX
    &&& t.capture.height <= i32::MAX
}

/// The logical point (`gx`, `gy`) lies in the tile's box: from its logical
/// position, as wide and as tall as its capture.
pub open spec fn covers(t: MonitorTile, gx: int, gy: int) -> bool {
    &&& t.logical_pos.0 <= gx < t.logical_pos.0 + t.capture.width
    &&& t.logical_pos.1 <= gy < t.logical_pos.1 + t.capture.height
}

/// At one to one scale a tile has a pixel exactly where its box covers the
/// point: the pixel at the point's offset from the tile's position.
proof fn lemma_unit_pixel_at_logical(t: MonitorTile, gx: int, gy: int)
    requires
        unit_tile(t),
    ensures
        t.pixel_at_logical(gx, gy) == (if covers(t, gx, gy) {
            Some(t.capture.pixel(gx - t.logical_pos.0, gy - t.logical_pos.1))
        } else {
            None
        }),
{
    let w = t.capture.width as int;
    let h = t.capture.height as int;
    assert((2 * (w * 1) + 1) / (2 * 1int) == w);
    assert((2 * (h * 1) + 1) / (2 * 1int) == h);
    assert(t.logical_width() == w);
    assert(t.logical_height() == h);
    if covers(t, gx, gy) {
        let vx = gx - t.logical_pos.0;
        let vy = gy - t.logical_pos.1;
        assert((2 * (vx * 1) + 1) / (2 * 1int) == vx);
        assert((2 * (vy * 1) + 1) / (2 * 1int) == vy);
        assert(round_mul_scale(vx, t.scale) == vx);
        assert(round_mul_scale(vy, t.scale) == vy);
    }
}

/// At one to one scale the first tile with a pixel under the point is the
/// first tile whose box covers it.
proof fn lemma_first_hit_unit(tiles: Seq<MonitorTile>, gx: int, gy: int)
    requires
        forall|i: int| 0 <= i < tiles.len() ==> unit_tile(#[trigger] tiles[i]),
    ensures
        (forall|i: int| 0 <= i < tiles.len() ==> !covers(#[trigger] tiles[i], gx, gy)) ==> first_hit(
            tiles,
            gx,
            gy,
        ) is None,
        forall|i: int|
            0 <= i < tiles.len() && covers(#[trigger] tiles[i], gx, gy) && (forall|j: int|
                0 <= j < i ==> !covers(#[trigger] tiles[j], gx, gy)) ==> first_hit(tiles, gx, gy) == Some(
                tiles[i].capture.pixel(gx - tiles[i].logical_pos.0, gy - tiles[i].logical_pos.1),
            ),
    decreases tiles.len(),
{
    if tiles.len() > 0 {
        let rest = tiles.drop_first();
        assert(unit_tile(tiles[0]));
        lemma_unit_pixel_at_logical(tiles[0], gx, gy);
        assert forall|i: int| 0 <= i < rest.len() implies unit_tile(#[trigger] rest[i]) by {
            assert(rest[i] == tiles[i + 1]);
            assert(unit_tile(tiles[i + 1]));
        }
        lemma_first_hit_unit(rest, gx, gy);
        if !covers(tiles[0], gx, gy) {
            if forall|i: int| 0 <= i < tiles.len() ==> !covers(#[trigger] tiles[i], gx, gy) {
                assert forall|i: int| 0 <= i < rest.len() implies !covers(#[trigger] rest[i], gx, gy) by {
                    assert(rest[i] == tiles[i + 1]);
                    assert(!covers(tiles[i + 1], gx, gy));
                }
            }
            assert forall|i: int|
                0 <= i < tiles.len() && covers(#[trigger] tiles[i], gx, gy) && (forall|j: int|
                    0 <= j < i ==> !covers(#[trigger] tiles[j], gx, gy)) implies first_hit(tiles, gx, gy)
                == Some(tiles[i].capture.pixel(gx - tiles[i].logical_pos.0, gy - tiles[i].logical_pos.1)) by {
                assert(i > 0);
                assert(rest[i - 1] == tiles[i]);
                assert forall|j: int| 0 <= j < i - 1 implies !covers(#[trigger] rest[j], gx, gy) by {
                    assert(rest[j] == tiles[j + 1]);
                    assert(!covers(tiles[j + 1], gx, gy));
                }
                assert(covers(rest[i - 1], gx, gy));
            }
        } else {
            assert forall|i: int|
                0 <= i < tiles.len() && covers(#[trigger] tiles[i], gx, gy) && (forall|j: int|
                    0 <= j < i ==> !covers(#[trigger] tiles[j], gx, gy)) implies i == 0 by {
                if i > 0 {
                    assert(!covers(tiles[0], gx, gy));
                }
            }
        }
    }
}

/// With every tile at one to one scale, a point off the active tile is taken
/// to compositor space unchanged (offset by the active tile's position), and
/// `sample` gives the pixel of the first tile whose box covers it, at the
/// point's offset from that tile's position; nothing when no box covers it.
pub proof fn lemma_unit_scale_sampling(c: PhysicalCanvas, x: int, y: int)
    requires
        c.active_idx < c.tiles@.len(),
        forall|i: int| 0 <= i < c.tiles@.len() ==> unit_tile(#[trigger] c.tiles@[i]),
        i32::MIN <= x <= i32::MAX,
        i32::MIN <= y <= i32::MAX,
        !(0 <= x < c.tiles@[c.active_idx as int].capture.width && 0 <= y < c.tiles@[c.active_idx as int].capture.height),
    ensures
        ({
            let a = c.tiles@[c.active_idx as int];
            let lx = a.logical_pos.0 + x;
            let ly = a.logical_pos.1 + y;
            &&& (forall|i: int| 0 <= i < c.tiles@.len() ==> !covers(#[trigger] c.tiles@[i], lx, ly))
                ==> c.spec_sample(x, y) is None
            &&& forall|i: int|
                0 <= i < c.tiles@.len() && covers(#[trigger] c.tiles@[i], lx, ly) && (forall|j: int|
                    0 <= j < i ==> !covers(#[trigger] c.tiles@[j], lx, ly)) ==> c.spec_sample(x, y) == Some(
                    c.tiles@[i].capture.pixel(lx - c.tiles@[i].logical_pos.0, ly - c.tiles@[i].logical_pos.1),
                )
        }),
{
    let a = c.tiles@[c.active_idx as int];
    assert(unit_tile(a));
    assert(x * 1 / 1int == x && y * 1 / 1int == y);
    assert(floor_div_scale(x, a.scale) == x);
    assert(floor_div_scale(y, a.scale) == y);
    lemma_first_hit_unit(c.tiles@, a.logical_pos.0 + x, a.logical_pos.1 + y);
}

/// Component `k` of the sample at (`x`, `y`), when present, lies in `lo ..= up`.
pub open spec fn sample_within(c: PhysicalCanvas, x: int, y: int, k: int, lo: int, up: int) -> bool {
    match c.spec_sample(x, y) {
        Some(px) => lo <= channel(px, k) <= up,
        None => true,
    }
}

/// Adding one sample that lies in `lo ..= up` keeps a total between `lo` and
/// `up` times the count.
proof fn lemma_bounds_step(s: int, n: int, t: int, m: int, lo: int, up: int)
    requires
        lo * n <= s <= up * n,
        (m == 1 && lo <= t <= up) || (m == 0 && t == 0),
    ensures
        lo * (n + m) <= s + t <= up * (n + m),
{
    assert(lo * (n + m) == lo * n + lo * m) by (nonlinear_arith);
    assert(up * (n + m) == up * n + up * m) by (nonlinear_arith);
}

/// A row's total `k` lies between `lo` and `up` times its count of samples.
proof fn lemma_row_total_bounds(c: PhysicalCanvas, cx: int, y: int, r: int, hi: int, k: int, lo: int, up: int)
    requires
        0 <= k <= 2,
        forall|x: int| cx - r <= x < cx + hi ==> #[trigger] sample_within(c, x, y, k, lo, up),
    ensures
        lo * c.row_total(cx, y, r, hi, 3) <= c.row_total(cx, y, r, hi, k) <= up * c.row_total(cx, y, r, hi, 3),
    decreases hi + r,
{
    if hi > -r {
        lemma_row_total_bounds(c, cx, y, r, hi - 1, k, lo, up);
        assert(sample_within(c, cx + hi - 1, y, k, lo, up));
        lemma_bounds_step(
            c.row_total(cx, y, r, hi - 1, k),
            c.row_total(cx, y, r, hi - 1, 3),
            sample_term(c.spec_sample(cx + hi - 1, y), k),
            sample_term(c.spec_sample(cx + hi - 1, y), 3),
            lo,
            up,
        );
    }
}

/// A square's total `k` lies between `lo` and `up` times its count of samples.
proof fn lemma_square_total_bounds(c: PhysicalCanvas, cx: int, cy: int, r: int, hi: int, k: int, lo: int, up: int)
    requires
        0 <= k <= 2,
        forall|x: int, y: int|
            cx - r <= x <= cx + r && cy - r <= y < cy + hi ==> #[trigger] sample_within(c, x, y, k, lo, up),
    ensures
        lo * c.square_total(cx, cy, r, hi, 3) <= c.square_total(cx, cy, r, hi, k) <= up * c.square_total(
            cx,
            cy,
            r,
            hi,
            3,
        ),
    decreases hi + r,
{
    if hi > -r {
        lemma_square_total_bounds(c, cx, cy, r, hi - 1, k, lo, up);
        let y = cy + hi - 1;
        assert forall|x: int| cx - r <= x < cx + (r + 1) implies #[trigger] sample_within(c, x, y, k, lo, up) by {}
        lemma_row_total_bounds(c, cx, y, r, r + 1, k, lo, up);
        let (s, n) = (c.square_total(cx, cy, r, hi - 1, k), c.square_total(cx, cy, r, hi - 1, 3));
        let (t, m) = (c.row_total(cx, y, r, r + 1, k), c.row_total(cx, y, r, r + 1, 3));
        assert(lo * (n + m) == lo * n + lo * m) by (nonlinear_arith);
        assert(up * (n + m) == up * n + up * m) by (nonlinear_arith);
    }
}

/// Each component of an average lies between any lower and upper bound of
/// that component over the samples present in the square (so between their
/// least and greatest; a square of one colour averages to that colour). A
/// negative radius leaves the square empty, and the average is black.
pub proof fn lemma_average_within_samples(c: PhysicalCanvas, cx: int, cy: int, r: int, k: int, lo: int, up: int)
    requires
        0 <= k <= 2,
        forall|x: int, y: int|
            cx - r <= x <= cx + r && cy - r <= y <= cy + r ==> #[trigger] sample_within(c, x, y, k, lo, up),
    ensures
        c.square_total(cx, cy, r, r + 1, 3) > 0 ==> lo <= c.square_average(cx, cy, r, k) <= up,
        r < 0 ==> c.square_average(cx, cy, r, k) == 0,
{
    let n = c.square_total(cx, cy, r, r + 1, 3);
    let s = c.square_total(cx, cy, r, r + 1, k);
    lemma_square_total_bounds(c, cx, cy, r, r + 1, k, lo, up);
    if n > 0 {
        vstd::arithmetic::div_mod::lemma_div_is_ordered(lo * n, s, n);
        vstd::arithmetic::div_mod::lemma_div_is_ordered(s, up * n, n);
        vstd::arithmetic::div_mod::lemma_fundamental_div_mod_converse(lo * n, n, lo, 0);
        vstd::arithmetic::div_mod::lemma_fundamental_div_mod_converse(up * n, n, up, 0);
    }
}

/// A radius of 0 averages the single sampled pixel: its own components when
/// `sample` finds one, black otherwise.
pub proof fn lemma_average_radius_zero(c: PhysicalCanvas, cx: int, cy: int, k: int)
    requires
        0 <= k <= 2,
    ensures
        c.square_average(cx, cy, 0, k) == match c.spec_sample(cx, cy) {
            Some(px) => channel(px, k),
            None => 0,
        },
{
    assert forall|j: int| 0 <= j <= 3 implies c.square_total(cx, cy, 0, 1, j) == sample_term(
        c.spec_sample(cx, cy),
        j,
    ) by {
        assert(c.square_total(cx, cy, 0, 0, j) == 0);
        assert(c.row_total(cx, cy, 0, 0, j) == 0);
        assert(c.row_total(cx, cy, 0, 1, j) == sample_term(c.spec_sample(cx, cy), j));
        assert(c.square_total(cx, cy, 0, 1, j) == c.row_total(cx, cy, 0, 1, j));
    }
    assert(c.square_total(cx, cy, 0, 1, k) == sample_term(c.spec_sample(cx, cy), k));
    assert(c.square_total(cx, cy, 0, 1, 3) == sample_term(c.spec_sample(cx, cy), 3));
}

} // verus!
