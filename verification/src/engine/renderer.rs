use vstd::prelude::*;
use vstd::math::abs;
use crate::graphics::{Color, Sprite};
use crate::math::Vec2;

verus! {

/// One Bresenham step: the major axis (x where `dx >= dy`, else y) advances
/// by its sign every step; the minor axis advances when the error term is
/// non-negative, which costs `2 * max`; every step earns `2 * min`.
pub open spec fn bres_next(x: int, y: int, err: int, sx: int, sy: int, dx: int, dy: int) -> (int, int, int) {
    if dx >= dy {
        if err >= 0 {
            (x + sx, y + sy, err - 2 * dx + 2 * dy)
        } else {
            (x + sx, y, err + 2 * dy)
        }
    } else {
        if err >= 0 {
            (x + sx, y + sy, err - 2 * dy + 2 * dx)
        } else {
            (x, y + sy, err + 2 * dx)
        }
    }
}

/// Position and error term after `k` Bresenham steps from `(x0, y0)`, with
/// the error seeded as `2 * min(dx, dy) - max(dx, dy)`.
pub open spec fn bres_state(x0: int, y0: int, sx: int, sy: int, dx: int, dy: int, k: nat) -> (int, int, int)
    decreases k,
{
    if k == 0 {
        (x0, y0, if dx >= dy { 2 * dy - dx } else { 2 * dx - dy })
    } else {
        let prev = bres_state(x0, y0, sx, sy, dx, dy, (k - 1) as nat);
        bres_next(prev.0, prev.1, prev.2, sx, sy, dx, dy)
    }
}

/// The pixels of the Bresenham line segment from `(ax, ay)` to `(bx, by)`,
/// in drawing order: `max(|bx - ax|, |by - ay|) + 1` points starting at the
/// first endpoint.
pub open spec fn line_points(ax: int, ay: int, bx: int, by: int) -> Seq<(int, int)> {
    let dx = abs(bx - ax) as int;
    let dy = abs(by - ay) as int;
    let sx: int = if ax < bx { 1 } else { -1 };
    let sy: int = if ay < by { 1 } else { -1 };
    let n = (if dx >= dy { dx } else { dy }) + 1;
    Seq::new(n as nat, |k: int| {
        let s = bres_state(ax, ay, sx, sy, dx, dy, k as nat);
        (s.0, s.1)
    })
}

/// Some of the first `n` points of `pts` is `(x, y)`.
spec fn hit_before(pts: Seq<(int, int)>, n: int, x: int, y: int) -> bool {
    exists|k: int| 0 <= k < n && pts[k] == (x, y)
}

/// The axis-aligned rectangle `[px, px+sx) x [py, py+sy)` contains `(x, y)`.
pub open spec fn rect_covers(px: int, py: int, sx: int, sy: int, x: int, y: int) -> bool {
    px <= x && x < px + sx && py <= y && y < py + sy
}

/// `(x, y)` lies within Euclidean distance `r` of `(cx, cy)`.
pub open spec fn circle_covers(cx: int, cy: int, r: int, x: int, y: int) -> bool {
    (x - cx) * (x - cx) + (y - cy) * (y - cy) <= r * r
}

/// A point beyond the bounding box of radius `r` lies farther than `r` from
/// the center.
proof fn lemma_outside_box(cx: int, cy: int, r: int, x: int, y: int)
    requires
        r >= 0,
        x < cx - r || x > cx + r || y < cy - r || y > cy + r,
    ensures
        !circle_covers(cx, cy, r, x, y),
{
    assert((x - cx) * (x - cx) + (y - cy) * (y - cy) > r * r) by (nonlinear_arith)
        requires
            r >= 0,
            x < cx - r || x > cx + r || y < cy - r || y > cy + r,
    ;
}

/// Squares of coordinates that fit well inside 64 bits stay well inside 128.
proof fn lemma_square_bounds(a: int, b: int)
    requires
        -0x10_0000_0000 <= a <= 0x10_0000_0000,
        -0x10_0000_0000 <= b <= 0x10_0000_0000,
    ensures
        0 <= a * a,
        0 <= b * b,
        a * a + b * b <= 0x200_0000_0000_0000_0000,
{
    assert(0 <= a * a && 0 <= b * b && a * a + b * b <= 0x200_0000_0000_0000_0000)
        by (nonlinear_arith)
        requires
            -0x10_0000_0000 <= a <= 0x10_0000_0000,
            -0x10_0000_0000 <= b <= 0x10_0000_0000,
    ;
}

/// The 4-byte chunk `q` of `data` holds exactly the bytes `c0 c1 c2 c3`.
pub open spec fn chunk_is(data: Seq<u8>, q: int, c0: u8, c1: u8, c2: u8, c3: u8) -> bool {
    &&& data[4 * q] == c0
    &&& data[4 * q + 1] == c1
    &&& data[4 * q + 2] == c2
    &&& data[4 * q + 3] == c3
}

/// Error returned when the frame buffer cannot be reallocated to the
/// requested size because the byte count would not fit in memory.
#[derive(Clone, Copy, Debug, PartialEq, Eq, Structural)]
pub struct ResizeError;

/// Mathematical model of the frame buffer: its dimensions and raw bytes.
pub struct FrameModel {
    pub width: nat,
    pub height: nat,
    pub data: Seq<u8>,
}

impl FrameModel {
    /// The invariant of a frame buffer: exactly 4 bytes for each of its
    /// `width * height` pixels, row-major.
    pub open spec fn wf(self) -> bool {
        self.data.len() == 4 * self.width * self.height
    }

    pub open spec fn in_bounds(self, x: int, y: int) -> bool {
        0 <= x && x < self.width && 0 <= y && y < self.height
    }

    /// Byte index of the first channel of pixel `(x, y)`.
    pub open spec fn idx(self, x: int, y: int) -> int {
        4 * (y * self.width + x)
    }

    /// Pixel `(x, y)` holds exactly the packed bytes of `c`.
    pub open spec fn pixel_is(self, x: int, y: int, c: Color) -> bool {
        &&& self.data[self.idx(x, y)] == c.r
        &&& self.data[self.idx(x, y) + 1] == c.g
        &&& self.data[self.idx(x, y) + 2] == c.b
        &&& self.data[self.idx(x, y) + 3] == c.a
    }

    /// All four channel bytes of pixel `(x, y)` are the same as in `prior`.
    pub open spec fn pixel_unchanged(self, prior: FrameModel, x: int, y: int) -> bool {
        &&& self.data[self.idx(x, y)] == prior.data[self.idx(x, y)]
        &&& self.data[self.idx(x, y) + 1] == prior.data[self.idx(x, y) + 1]
        &&& self.data[self.idx(x, y) + 2] == prior.data[self.idx(x, y) + 2]
        &&& self.data[self.idx(x, y) + 3] == prior.data[self.idx(x, y) + 3]
    }

    /// Same dimensions and same byte count as `prior`.
    pub open spec fn same_size(self, prior: FrameModel) -> bool {
        &&& self.width == prior.width
        &&& self.height == prior.height
        &&& self.data.len() == prior.data.len()
    }
}

/// In a `w`-pixel-wide row-major buffer, every in-bounds pixel's 4 bytes lie
/// inside the buffer.
proof fn lemma_pixel_index_bounds(w: int, h: int, x: int, y: int)
    requires
        0 <= x < w,
        0 <= y < h,
    ensures
        0 <= 4 * (y * w + x),
        4 * (y * w + x) + 3 < 4 * (w * h),
{
    assert(0 <= y * w + x && y * w + x < w * h) by (nonlinear_arith)
        requires
            0 <= x < w,
            0 <= y < h,
    ;
}

/// Distinct in-bounds pixels occupy disjoint 4-byte ranges.
proof fn lemma_pixel_index_distinct(w: int, h: int, x1: int, y1: int, x2: int, y2: int)
    requires
        0 <= x1 < w,
        0 <= y1 < h,
        0 <= x2 < w,
        0 <= y2 < h,
        !(x1 == x2 && y1 == y2),
    ensures
        4 * (y1 * w + x1) + 3 < 4 * (y2 * w + x2) || 4 * (y2 * w + x2) + 3 < 4 * (y1 * w + x1),
{
    assert(y1 * w + x1 != y2 * w + x2) by (nonlinear_arith)
        requires
            0 <= x1 < w,
            0 <= y1 < h,
            0 <= x2 < w,
            0 <= y2 < h,
            !(x1 == x2 && y1 == y2),
    ;
}

/// The software rasterization surface: a `width x height` RGBA byte buffer
/// that the drawing primitives mutate in place. Presenting the buffer on a
/// screen is the surrounding shell's job; it reads the bytes out through
/// [`RendererSystem::frame`].
pub struct RendererSystem {
    width: u32,
    height: u32,
    frame: Vec<u8>,
}

impl View for RendererSystem {
    type V = FrameModel;

    closed spec fn view(&self) -> FrameModel {
        FrameModel { width: self.width as nat, height: self.height as nat, data: self.frame@ }
    }
}

impl RendererSystem {
    /// Allocate a zeroed `width x height` frame buffer.
    pub fn new(width: u32, height: u32) -> (r: RendererSystem)
        requires
            4 * width * height <= usize::MAX,
        ensures
            r@.wf(),
            r@.width == width,
            r@.height == height,
            r@.data == Seq::new((4 * width * height) as nat, |i: int| 0u8),
    {
        let total: usize = byte_count(width, height);
        let frame = zeroed_bytes(total);
        RendererSystem { width, height, frame }
    }

    pub fn width(&self) -> (r: u32)
        ensures
            r == self@.width,
    {
        self.width
    }

    pub fn height(&self) -> (r: u32)
        ensures
            r == self@.height,
    {
        self.height
    }

    pub fn buffer_len(&self) -> (r: usize)
        ensures
            r == self@.data.len(),
    {
        self.frame.len()
    }

    /// The raw RGBA bytes, for handing to a presentation surface.
    pub fn frame(&self) -> (r: &Vec<u8>)
        ensures
            r@ == self@.data,
    {
        &self.frame
    }

    /// Read back one pixel; `None` when `(x, y)` is out of bounds.
    pub fn pixel_at(&self, x: u32, y: u32) -> (r: Option<Color>)
        requires
            self@.wf(),
        ensures
            match r {
                Some(c) => self@.in_bounds(x as int, y as int) && self@.pixel_is(x as int, y as int, c),
                None => !self@.in_bounds(x as int, y as int),
            },
    {
        if x < self.width && y < self.height {
            let index: usize = self.pixel_offset(x, y);
            Some(Color {
                r: self.frame[index],
                g: self.frame[index + 1],
                b: self.frame[index + 2],
                a: self.frame[index + 3],
            })
        } else {
            None
        }
    }

    /// Byte offset of pixel `(x, y)` in the buffer.
    fn pixel_offset(&self, x: u32, y: u32) -> (r: usize)
        requires
            self@.wf(),
            x < self@.width,
            y < self@.height,
        ensures
            r == self@.idx(x as int, y as int),
            r + 3 < self@.data.len(),
    {
        let flen: usize = self.frame.len();
        proof {
            let w = self@.width as int;
            let h = self@.height as int;
            lemma_pixel_index_bounds(w, h, x as int, y as int);
            assert(4 * (w * h) == 4 * w * h) by (nonlinear_arith);
            assert(flen == 4 * w * h);
        }
        4 * (y as usize * self.width as usize + x as usize)
    }

    /// Overwrite the 4 bytes of pixel `(x, y)`; every other pixel keeps its
    /// bytes.
    fn set_pixel(&mut self, x: u32, y: u32, color: Color)
        requires
            old(self)@.wf(),
            x < old(self)@.width,
            y < old(self)@.height,
        ensures
            final(self)@.wf(),
            final(self)@.same_size(old(self)@),
            final(self)@.pixel_is(x as int, y as int, color),
            forall|xx: int, yy: int|
                old(self)@.in_bounds(xx, yy) && !(xx == x as int && yy == y as int)
                    ==> final(self)@.pixel_unchanged(old(self)@, xx, yy),
    {
        let index: usize = self.pixel_offset(x, y);
        self.frame.set(index, color.r);
        self.frame.set(index + 1, color.g);
        self.frame.set(index + 2, color.b);
        self.frame.set(index + 3, color.a);
        proof {
            let w = old(self)@.width as int;
            let h = old(self)@.height as int;
            assert(4 * (w * h) == 4 * w * h) by (nonlinear_arith);
            assert forall|xx: int, yy: int|
                old(self)@.in_bounds(xx, yy) && !(xx == x as int && yy == y as int)
                    implies self@.pixel_unchanged(old(self)@, xx, yy) by {
                lemma_pixel_index_bounds(w, h, xx, yy);
                lemma_pixel_index_distinct(w, h, xx, yy, x as int, y as int);
            }
        }
    }

    /// Overwrite every pixel with the 4 packed bytes of one color.
    #[verifier::loop_isolation(false)]
    pub fn clear_screen(&mut self, color: &[u8; 4])
        ensures
            final(self)@.same_size(old(self)@),
            old(self)@.wf() ==> forall|x: int, y: int|
                old(self)@.in_bounds(x, y) ==> final(self)@.pixel_is(
                    x,
                    y,
                    (Color { r: color@[0], g: color@[1], b: color@[2], a: color@[3] }),
                ),
    {
        let len: usize = self.frame.len();
        let n: usize = len / 4;
        let mut p: usize = 0;
        while p < n
            invariant
                p <= n,
                self@.same_size(old(self)@),
                forall|q: int| 0 <= q < p ==> chunk_is(self@.data, q, color@[0], color@[1], color@[2], color@[3]),
                forall|i: int| 4 * p <= i < self@.data.len() ==> self@.data[i] == old(self)@.data[i],
            decreases n - p,
        {
            let ghost d0 = self@.data;
            let base: usize = 4 * p;
            self.frame.set(base, color[0]);
            self.frame.set(base + 1, color[1]);
            self.frame.set(base + 2, color[2]);
            self.frame.set(base + 3, color[3]);
            proof {
                assert forall|q: int| 0 <= q < p + 1 implies chunk_is(
                    self@.data,
                    q,
                    color@[0],
                    color@[1],
                    color@[2],
                    color@[3],
                ) by {
                    if q < p {
                        assert(chunk_is(d0, q, color@[0], color@[1], color@[2], color@[3]));
                    }
                }
            }
            p += 1;
        }
        proof {
            if old(self)@.wf() {
                let w = old(self)@.width as int;
                let h = old(self)@.height as int;
                assert(4 * (w * h) == 4 * w * h) by (nonlinear_arith);
                assert forall|x: int, y: int| old(self)@.in_bounds(x, y) implies final(self)@.pixel_is(
                    x,
                    y,
                    (Color { r: color@[0], g: color@[1], b: color@[2], a: color@[3] }),
                ) by {
                    lemma_pixel_index_bounds(w, h, x, y);
                    assert(chunk_is(self@.data, y * w + x, color@[0], color@[1], color@[2], color@[3]));
                }
            }
        }
    }

    /// Fill the rectangle `[position, position + size)` clipped to the
    /// buffer bounds; pixels outside the bounds are silently skipped.
    #[verifier::loop_isolation(false)]
    pub fn draw_rect(&mut self, position: &Vec2, size: &Vec2, color: &Color)
        requires
            old(self)@.wf(),
        ensures
            final(self)@.wf(),
            final(self)@.same_size(old(self)@),
            forall|x: int, y: int| old(self)@.in_bounds(x, y) ==> (
                if rect_covers(position.x as int, position.y as int, size.x as int, size.y as int, x, y) {
                    final(self)@.pixel_is(x, y, *color)
                } else {
                    final(self)@.pixel_unchanged(old(self)@, x, y)
                }),
    {
        let ghost px = position.x as int;
        let ghost py = position.y as int;
        let ghost sx = size.x as int;
        let ghost sy = size.y as int;
        let x_start: i64 = position.x as i64;
        let y_start: i64 = position.y as i64;
        let x_end: i64 = position.x as i64 + size.x as i64;
        let y_end: i64 = position.y as i64 + size.y as i64;
        let w: i64 = self.width() as i64;
        let h: i64 = self.height() as i64;
        let x_lo: i64 = if x_start > 0 { x_start } else { 0 };
        let x_hi: i64 = if x_end < w { x_end } else { w };
        let y_lo: i64 = if y_start > 0 { y_start } else { 0 };
        let y_hi: i64 = if y_end < h { y_end } else { h };
        if x_lo < x_hi && y_lo < y_hi {
            let mut y: i64 = y_lo;
            while y < y_hi
                invariant
                    y_lo <= y <= y_hi,
                    self@.wf(),
                    self@.same_size(old(self)@),
                    forall|xx: int, yy: int|
                        old(self)@.in_bounds(xx, yy) && rect_covers(px, py, sx, sy, xx, yy) && yy < y
                            ==> self@.pixel_is(xx, yy, *color),
                    forall|xx: int, yy: int|
                        old(self)@.in_bounds(xx, yy) && !(rect_covers(px, py, sx, sy, xx, yy) && yy < y)
                            ==> self@.pixel_unchanged(old(self)@, xx, yy),
                decreases y_hi + 1 - y,
            {
                let mut x: i64 = x_lo;
                while x < x_hi
                    invariant
                        x_lo <= x <= x_hi,
                        y_lo <= y < y_hi,
                        self@.wf(),
                        self@.same_size(old(self)@),
                        forall|xx: int, yy: int|
                            old(self)@.in_bounds(xx, yy) && rect_covers(px, py, sx, sy, xx, yy)
                                && (yy < y || (yy == y && xx < x))
                                ==> self@.pixel_is(xx, yy, *color),
                        forall|xx: int, yy: int|
                            old(self)@.in_bounds(xx, yy)
                                && !(rect_covers(px, py, sx, sy, xx, yy) && (yy < y || (yy == y && xx < x)))
                                ==> self@.pixel_unchanged(old(self)@, xx, yy),
                    decreases x_hi + 1 - x,
                {
                    let ghost m0 = self@;
                    self.set_pixel(x as u32, y as u32, *color);
                    proof {
                        assert forall|xx: int, yy: int|
                            old(self)@.in_bounds(xx, yy) && rect_covers(px, py, sx, sy, xx, yy)
                                && (yy < y || (yy == y && xx < x + 1))
                                implies self@.pixel_is(xx, yy, *color) by {
                            if !(xx == x as int && yy == y as int) {
                                assert(m0.pixel_is(xx, yy, *color));
                                assert(m0.in_bounds(xx, yy));
                                assert(self@.pixel_unchanged(m0, xx, yy));
                            }
                        }
                        assert forall|xx: int, yy: int|
                            old(self)@.in_bounds(xx, yy)
                                && !(rect_covers(px, py, sx, sy, xx, yy) && (yy < y || (yy == y && xx < x + 1)))
                                implies self@.pixel_unchanged(old(self)@, xx, yy) by {
                            assert(m0.pixel_unchanged(old(self)@, xx, yy));
                            assert(!(xx == x as int && yy == y as int));
                            assert(m0.in_bounds(xx, yy));
                            assert(self@.pixel_unchanged(m0, xx, yy));
                        }
                    }
                    x += 1;
                }
                y += 1;
            }
        }
    }

    /// Fill every pixel within Euclidean distance `radius` of `position`,
    /// clipped to the buffer bounds, by scanning the circle's bounding box.
    #[verifier::loop_isolation(false)]
    pub fn draw_circle(&mut self, position: &Vec2, radius: u32, color: &Color)
        requires
            old(self)@.wf(),
        ensures
            final(self)@.wf(),
            final(self)@.same_size(old(self)@),
            forall|x: int, y: int| old(self)@.in_bounds(x, y) ==> (
                if circle_covers(position.x as int, position.y as int, radius as int, x, y) {
                    final(self)@.pixel_is(x, y, *color)
                } else {
                    final(self)@.pixel_unchanged(old(self)@, x, y)
                }),
    {
        let ghost cx = position.x as int;
        let ghost cy = position.y as int;
        let ghost rr = radius as int;
        let w: i64 = self.width() as i64;
        let h: i64 = self.height() as i64;
        let x_min: i64 = position.x as i64 - radius as i64;
        let x_max: i64 = position.x as i64 + radius as i64;
        let y_min: i64 = position.y as i64 - radius as i64;
        let y_max: i64 = position.y as i64 + radius as i64;
        let x_lo: i64 = if x_min > 0 { x_min } else { 0 };
        let x_hi: i64 = if x_max < w - 1 { x_max } else { w - 1 };
        let y_lo: i64 = if y_min > 0 { y_min } else { 0 };
        let y_hi: i64 = if y_max < h - 1 { y_max } else { h - 1 };
        if x_lo <= x_hi && y_lo <= y_hi {
            proof {
                assert forall|xx: int, yy: int|
                    old(self)@.in_bounds(xx, yy) && circle_covers(cx, cy, rr, xx, yy)
                        implies x_lo <= xx <= x_hi && y_lo <= yy <= y_hi by {
                    if xx < cx - rr || xx > cx + rr || yy < cy - rr || yy > cy + rr {
                        lemma_outside_box(cx, cy, rr, xx, yy);
                    }
                }
            }
            let mut y: i64 = y_lo;
            while y <= y_hi
                invariant
                    y_lo <= y <= y_hi + 1,
                    self@.wf(),
                    self@.same_size(old(self)@),
                    forall|xx: int, yy: int|
                        old(self)@.in_bounds(xx, yy) && circle_covers(cx, cy, rr, xx, yy) && yy < y
                            ==> self@.pixel_is(xx, yy, *color),
                    forall|xx: int, yy: int|
                        old(self)@.in_bounds(xx, yy) && !(circle_covers(cx, cy, rr, xx, yy) && yy < y)
                            ==> self@.pixel_unchanged(old(self)@, xx, yy),
                decreases y_hi + 1 - y,
            {
                let mut x: i64 = x_lo;
                while x <= x_hi
                    invariant
                        x_lo <= x <= x_hi + 1,
                        y_lo <= y <= y_hi,
                        self@.wf(),
                        self@.same_size(old(self)@),
                        forall|xx: int, yy: int|
                            old(self)@.in_bounds(xx, yy) && circle_covers(cx, cy, rr, xx, yy)
                                && (yy < y || (yy == y && xx < x))
                                ==> self@.pixel_is(xx, yy, *color),
                        forall|xx: int, yy: int|
                            old(self)@.in_bounds(xx, yy)
                                && !(circle_covers(cx, cy, rr, xx, yy) && (yy < y || (yy == y && xx < x)))
                                ==> self@.pixel_unchanged(old(self)@, xx, yy),
                    decreases x_hi + 1 - x,
                {
                    let dx: i64 = x - position.x as i64;
                    let dy: i64 = y - position.y as i64;
                    proof {
                        lemma_square_bounds(dx as int, dy as int);
                        lemma_square_bounds(rr, 0);
                    }
                    let d2: i128 = (dx as i128) * (dx as i128) + (dy as i128) * (dy as i128);
                    let r2: i128 = (radius as i128) * (radius as i128);
                    if d2 <= r2 {
                        let ghost m0 = self@;
                        self.set_pixel(x as u32, y as u32, *color);
                        proof {
                            assert forall|xx: int, yy: int|
                                old(self)@.in_bounds(xx, yy) && circle_covers(cx, cy, rr, xx, yy)
                                    && (yy < y || (yy == y && xx < x + 1))
                                    implies self@.pixel_is(xx, yy, *color) by {
                                if !(xx == x as int && yy == y as int) {
                                    assert(m0.pixel_is(xx, yy, *color));
                                    assert(m0.in_bounds(xx, yy));
                                    assert(self@.pixel_unchanged(m0, xx, yy));
                                }
                            }
                            assert forall|xx: int, yy: int|
                                old(self)@.in_bounds(xx, yy)
                                    && !(circle_covers(cx, cy, rr, xx, yy) && (yy < y || (yy == y && xx < x + 1)))
                                    implies self@.pixel_unchanged(old(self)@, xx, yy) by {
                                assert(m0.pixel_unchanged(old(self)@, xx, yy));
                                assert(!(xx == x as int && yy == y as int));
                                assert(m0.in_bounds(xx, yy));
                                assert(self@.pixel_unchanged(m0, xx, yy));
                            }
                        }
                    }
                    x += 1;
                }
                y += 1;
            }
        } else {
            proof {
                assert forall|xx: int, yy: int| old(self)@.in_bounds(xx, yy)
                    implies !circle_covers(cx, cy, rr, xx, yy) by {
                    lemma_outside_box(cx, cy, rr, xx, yy);
                }
            }
        }
    }

    /// Blit the sprite's pixel grid with its top-left corner at `position`,
    /// row-major. Every destination pixel is clipped to the buffer bounds: a
    /// sprite that does not fit is drawn only where it overlaps the surface,
    /// and never writes past a row or the buffer.
    #[verifier::loop_isolation(false)]
    pub fn draw_sprite(&mut self, position: &Vec2, sprite: &Sprite)
        requires
            old(self)@.wf(),
            sprite@.wf(),
        ensures
            final(self)@.wf(),
            final(self)@.same_size(old(self)@),
            forall|x: int, y: int| old(self)@.in_bounds(x, y) ==> (
                if rect_covers(position.x as int, position.y as int, sprite@.width as int, sprite@.height as int, x, y) {
                    final(self)@.pixel_is(
                        x,
                        y,
                        sprite@.pixels[(y - position.y) * sprite@.width + (x - position.x)],
                    )
                } else {
                    final(self)@.pixel_unchanged(old(self)@, x, y)
                }),
    {
        let ghost px = position.x as int;
        let ghost py = position.y as int;
        let ghost sw = sprite@.width as int;
        let ghost sh = sprite@.height as int;
        let rl: usize = sprite.rgba.len();
        let mut sy: u32 = 0;
        while sy < sprite.height
            invariant
                sy <= sprite.height,
                self@.wf(),
                self@.same_size(old(self)@),
                forall|xx: int, yy: int|
                    old(self)@.in_bounds(xx, yy) && rect_covers(px, py, sw, sh, xx, yy) && yy < py + sy
                        ==> self@.pixel_is(xx, yy, sprite@.pixels[(yy - py) * sw + (xx - px)]),
                forall|xx: int, yy: int|
                    old(self)@.in_bounds(xx, yy) && !(rect_covers(px, py, sw, sh, xx, yy) && yy < py + sy)
                        ==> self@.pixel_unchanged(old(self)@, xx, yy),
            decreases sprite@.height - sy,
        {
            let mut sx: u32 = 0;
            while sx < sprite.width
                invariant
                    sx <= sprite.width,
                    sy < sprite.height,
                    self@.wf(),
                    self@.same_size(old(self)@),
                    forall|xx: int, yy: int|
                        old(self)@.in_bounds(xx, yy) && rect_covers(px, py, sw, sh, xx, yy)
                            && (yy < py + sy || (yy == py + sy && xx < px + sx))
                            ==> self@.pixel_is(xx, yy, sprite@.pixels[(yy - py) * sw + (xx - px)]),
                    forall|xx: int, yy: int|
                        old(self)@.in_bounds(xx, yy)
                            && !(rect_covers(px, py, sw, sh, xx, yy) && (yy < py + sy || (yy == py + sy && xx < px + sx)))
                            ==> self@.pixel_unchanged(old(self)@, xx, yy),
                decreases sprite@.width - sx,
            {
                let dest_x: i64 = position.x as i64 + sx as i64;
                let dest_y: i64 = position.y as i64 + sy as i64;
                let w: i64 = self.width() as i64;
                let h: i64 = self.height() as i64;
                if 0 <= dest_x && dest_x < w && 0 <= dest_y && dest_y < h {
                    proof {
                        lemma_pixel_index_bounds(sw, sh, sx as int, sy as int);
                    }
                    let ci: usize = sy as usize * sprite.width as usize + sx as usize;
                    let c: Color = sprite.rgba[ci];
                    let ghost m0 = self@;
                    self.set_pixel(dest_x as u32, dest_y as u32, c);
                    proof {
                        assert forall|xx: int, yy: int|
                            old(self)@.in_bounds(xx, yy) && rect_covers(px, py, sw, sh, xx, yy)
                                && (yy < py + sy || (yy == py + sy && xx < px + sx + 1))
                                implies self@.pixel_is(xx, yy, sprite@.pixels[(yy - py) * sw + (xx - px)]) by {
                            if xx == dest_x as int && yy == dest_y as int {
                                assert((yy - py) * sw + (xx - px) == sy as int * sw + sx as int);
                            } else {
                                assert(m0.pixel_is(xx, yy, sprite@.pixels[(yy - py) * sw + (xx - px)]));
                                assert(m0.in_bounds(xx, yy));
                                assert(self@.pixel_unchanged(m0, xx, yy));
                            }
                        }
                        assert forall|xx: int, yy: int|
                            old(self)@.in_bounds(xx, yy)
                                && !(rect_covers(px, py, sw, sh, xx, yy) && (yy < py + sy || (yy == py + sy && xx < px + sx + 1)))
                                implies self@.pixel_unchanged(old(self)@, xx, yy) by {
                            assert(m0.pixel_unchanged(old(self)@, xx, yy));
                            assert(!(xx == dest_x as int && yy == dest_y as int));
                            assert(m0.in_bounds(xx, yy));
                            assert(self@.pixel_unchanged(m0, xx, yy));
                        }
                    }
                }
                sx += 1;
            }
            sy += 1;
        }
    }

    /// Rasterize the line segment from `position_a` to `position_b` with
    /// integer Bresenham stepping (see [`line_points`]); the segment's pixels
    /// that fall outside the bounds are skipped individually.
    #[verifier::loop_isolation(false)]
    #[verifier::rlimit(60)]
    pub fn draw_line(&mut self, position_a: &Vec2, position_b: &Vec2, color: &Color)
        requires
            old(self)@.wf(),
        ensures
            final(self)@.wf(),
            final(self)@.same_size(old(self)@),
            forall|x: int, y: int| old(self)@.in_bounds(x, y) ==> (
                if line_points(
                    position_a.x as int,
                    position_a.y as int,
                    position_b.x as int,
                    position_b.y as int,
                ).contains((x, y)) {
                    final(self)@.pixel_is(x, y, *color)
                } else {
                    final(self)@.pixel_unchanged(old(self)@, x, y)
                }),
    {
        let ghost axg = position_a.x as int;
        let ghost ayg = position_a.y as int;
        let ghost bxg = position_b.x as int;
        let ghost byg = position_b.y as int;
        let ghost pts = line_points(axg, ayg, bxg, byg);
        let x0: i64 = position_a.x as i64;
        let y0: i64 = position_a.y as i64;
        let x1: i64 = position_b.x as i64;
        let y1: i64 = position_b.y as i64;
        let dx: i64 = if x1 >= x0 { x1 - x0 } else { x0 - x1 };
        let dy: i64 = if y1 >= y0 { y1 - y0 } else { y0 - y1 };
        let step_x: i64 = if x0 < x1 { 1 } else { -1 };
        let step_y: i64 = if y0 < y1 { 1 } else { -1 };
        let n: i64 = (if dx >= dy { dx } else { dy }) + 1;
        let ghost maxg = if dx as int >= dy as int { dx as int } else { dy as int };
        let ghost ming = if dx as int >= dy as int { dy as int } else { dx as int };
        let w: i64 = self.width() as i64;
        let h: i64 = self.height() as i64;
        let mut error: i64 = if dx >= dy { 2 * dy - dx } else { 2 * dx - dy };
        let mut x: i64 = x0;
        let mut y: i64 = y0;
        let mut i: i64 = 0;
        proof {
            assert(pts.len() == n);
            assert(x as int == bres_state(axg, ayg, step_x as int, step_y as int, dx as int, dy as int, i as nat).0);
        }
        while i < n
            invariant
                0 <= i <= n,
                self@.wf(),
                self@.same_size(old(self)@),
                x as int == bres_state(axg, ayg, step_x as int, step_y as int, dx as int, dy as int, i as nat).0,
                y as int == bres_state(axg, ayg, step_x as int, step_y as int, dx as int, dy as int, i as nat).1,
                error as int == bres_state(axg, ayg, step_x as int, step_y as int, dx as int, dy as int, i as nat).2,
                axg - i <= x as int <= axg + i,
                ayg - i <= y as int <= ayg + i,
                -2 * maxg <= error as int <= 2 * ming,
                forall|xx: int, yy: int|
                    old(self)@.in_bounds(xx, yy) && hit_before(pts, i as int, xx, yy)
                        ==> self@.pixel_is(xx, yy, *color),
                forall|xx: int, yy: int|
                    old(self)@.in_bounds(xx, yy) && !hit_before(pts, i as int, xx, yy)
                        ==> self@.pixel_unchanged(old(self)@, xx, yy),
            decreases n - i,
        {
            proof {
                assert(pts[i as int] == (x as int, y as int));
            }
            if 0 <= x && x < w && 0 <= y && y < h {
                let ghost m0 = self@;
                self.set_pixel(x as u32, y as u32, *color);
                proof {
                    assert forall|xx: int, yy: int|
                        old(self)@.in_bounds(xx, yy) && hit_before(pts, i + 1, xx, yy)
                            implies self@.pixel_is(xx, yy, *color) by {
                        let k = choose|k: int| 0 <= k < i + 1 && pts[k] == (xx, yy);
                        if k < i {
                            assert(hit_before(pts, i as int, xx, yy));
                            assert(m0.pixel_is(xx, yy, *color));
                            assert(m0.in_bounds(xx, yy));
                            if !(xx == x as int && yy == y as int) {
                                assert(self@.pixel_unchanged(m0, xx, yy));
                            }
                        }
                    }
                    assert forall|xx: int, yy: int|
                        old(self)@.in_bounds(xx, yy) && !hit_before(pts, i + 1, xx, yy)
                            implies self@.pixel_unchanged(old(self)@, xx, yy) by {
                        assert(!hit_before(pts, i as int, xx, yy));
                        assert(m0.pixel_unchanged(old(self)@, xx, yy));
                        assert(!(xx == x as int && yy == y as int));
                        assert(m0.in_bounds(xx, yy));
                        assert(self@.pixel_unchanged(m0, xx, yy));
                    }
                }
            } else {
                proof {
                    assert forall|xx: int, yy: int|
                        old(self)@.in_bounds(xx, yy) && hit_before(pts, i + 1, xx, yy)
                            implies self@.pixel_is(xx, yy, *color) by {
                        let k = choose|k: int| 0 <= k < i + 1 && pts[k] == (xx, yy);
                        assert(k < i);
                        assert(hit_before(pts, i as int, xx, yy));
                    }
                    assert forall|xx: int, yy: int|
                        old(self)@.in_bounds(xx, yy) && !hit_before(pts, i + 1, xx, yy)
                            implies self@.pixel_unchanged(old(self)@, xx, yy) by {
                        assert(!hit_before(pts, i as int, xx, yy));
                    }
                }
            }
            proof {
                let s_i = bres_state(axg, ayg, step_x as int, step_y as int, dx as int, dy as int, i as nat);
                assert(bres_state(axg, ayg, step_x as int, step_y as int, dx as int, dy as int, (i + 1) as nat)
                    == bres_next(s_i.0, s_i.1, s_i.2, step_x as int, step_y as int, dx as int, dy as int));
            }
            if dx >= dy {
                if error >= 0 {
                    y += step_y;
                    error = error - 2 * dx + 2 * dy;
                } else {
                    error += 2 * dy;
                }
                x += step_x;
            } else {
                if error >= 0 {
                    x += step_x;
                    error = error - 2 * dy + 2 * dx;
                } else {
                    error += 2 * dx;
                }
                y += step_y;
            }
            i += 1;
        }
        proof {
            assert forall|xx: int, yy: int| old(self)@.in_bounds(xx, yy) implies (
                if pts.contains((xx, yy)) {
                    self@.pixel_is(xx, yy, *color)
                } else {
                    self@.pixel_unchanged(old(self)@, xx, yy)
                }) by {
                if pts.contains((xx, yy)) {
                    let k = choose|k: int| 0 <= k < pts.len() && pts[k] == (xx, yy);
                    assert(0 <= k < i && pts[k] == (xx, yy));
                    assert(hit_before(pts, i as int, xx, yy));
                } else {
                    assert(!hit_before(pts, i as int, xx, yy)) by {
                        if hit_before(pts, i as int, xx, yy) {
                            let k = choose|k: int| 0 <= k < i && pts[k] == (xx, yy);
                            assert(pts[k] == (xx, yy));
                        }
                    }
                }
            }
        }
    }

    /// Reallocate the buffer for the new dimensions, zero-filled. Fails with
    /// [`ResizeError`], leaving the buffer as it was, exactly when the new
    /// byte count does not fit in memory.
    pub fn resize(&mut self, width: u32, height: u32) -> (r: Result<(), ResizeError>)
        ensures
            match r {
                Ok(()) => {
                    &&& 4 * width * height <= usize::MAX
                    &&& final(self)@.wf()
                    &&& final(self)@.width == width
                    &&& final(self)@.height == height
                    &&& final(self)@.data == Seq::new((4 * width * height) as nat, |i: int| 0u8)
                },
                Err(e) => {
                    &&& 4 * width * height > usize::MAX
                    &&& *final(self) == *old(self)
                },
            },
    {
        let w128: u128 = width as u128;
        let h128: u128 = height as u128;
        proof {
            lemma_byte_count_small(w128 as int, h128 as int);
        }
        let total: u128 = 4u128 * w128 * h128;
        if total > usize::MAX as u128 {
            return Err(ResizeError);
        }
        self.width = width;
        self.height = height;
        self.frame = zeroed_bytes(total as usize);
        Ok(())
    }
}

/// Four bytes per pixel never exceed `2^66` for 32-bit dimensions.
pub proof fn lemma_byte_count_small(w: int, h: int)
    requires
        0 <= w < 0x1_0000_0000,
        0 <= h < 0x1_0000_0000,
    ensures
        0 <= 4 * w * h < 0x4_0000_0000_0000_0000,
{
    assert(0 <= 4 * w * h < 0x4_0000_0000_0000_0000) by (nonlinear_arith)
        requires
            0 <= w < 0x1_0000_0000,
            0 <= h < 0x1_0000_0000,
    ;
}

/// The byte count of a `width x height` frame, when it fits in memory.
fn byte_count(width: u32, height: u32) -> (r: usize)
    requires
        4 * width * height <= usize::MAX,
    ensures
        r == 4 * width * height,
{
    let w128: u128 = width as u128;
    let h128: u128 = height as u128;
    proof {
        lemma_byte_count_small(w128 as int, h128 as int);
    }
    let total: u128 = 4u128 * w128 * h128;
    total as usize
}

/// On a shallow segment (`dx >= dy`) the x-coordinate after `k` steps is
/// exactly `x0 + k * sx`.
proof fn lemma_bres_state_major(x0: int, y0: int, sx: int, sy: int, dx: int, dy: int, k: nat)
    requires
        dx >= dy >= 0,
        sx == 1 || sx == -1,
    ensures
        bres_state(x0, y0, sx, sy, dx, dy, k).0 == x0 + k * sx,
    decreases k,
{
    if k == 0 {
        assert(0 * sx == 0) by (nonlinear_arith);
    } else {
        lemma_bres_state_major(x0, y0, sx, sy, dx, dy, (k - 1) as nat);
        assert((k - 1) * sx + sx == k * sx) by (nonlinear_arith);
    }
}

/// On a steep segment (`dy > dx`) the y-coordinate after `k` steps is
/// exactly `y0 + k * sy`.
proof fn lemma_bres_state_major_steep(x0: int, y0: int, sx: int, sy: int, dx: int, dy: int, k: nat)
    requires
        dy > dx >= 0,
        sy == 1 || sy == -1,
    ensures
        bres_state(x0, y0, sx, sy, dx, dy, k).1 == y0 + k * sy,
    decreases k,
{
    if k == 0 {
        assert(0 * sy == 0) by (nonlinear_arith);
    } else {
        lemma_bres_state_major_steep(x0, y0, sx, sy, dx, dy, (k - 1) as nat);
        assert((k - 1) * sy + sy == k * sy) by (nonlinear_arith);
    }
}

/// On a shallow segment the minor axis obeys the classic error invariant:
/// after `k` steps the row offset is `(2*k*dy + dx) / (2*dx)` rounded down,
/// and the error term is pinned by that offset.
proof fn lemma_bres_state_qerr(x0: int, y0: int, sx: int, sy: int, dx: int, dy: int, k: nat)
    requires
        dx >= dy >= 0,
        dx > 0,
    ensures
        ({
            let s = bres_state(x0, y0, sx, sy, dx, dy, k);
            let q = (2 * k * dy + dx) / (2 * dx);
            s.1 == y0 + sy * q && s.2 == 2 * (k + 1) * dy - dx - 2 * q * dx
        }),
    decreases k,
{
    let d = 2 * dx;
    let m = 2 * k * dy + dx;
    if k == 0 {
        assert(2 * k * dy == 0) by (nonlinear_arith)
            requires
                k == 0,
        ;
        vstd::arithmetic::div_mod::lemma_basic_div(dx, d);
        assert(sy * 0 == 0) by (nonlinear_arith);
        assert(2 * (k + 1) * dy == 2 * dy) by (nonlinear_arith)
            requires
                k == 0,
        ;
        assert(2 * 0 * dx == 0) by (nonlinear_arith);
    } else {
        let j = (k - 1) as nat;
        lemma_bres_state_qerr(x0, y0, sx, sy, dx, dy, j);
        let s_j = bres_state(x0, y0, sx, sy, dx, dy, j);
        let m_j = 2 * j * dy + dx;
        let q_j = m_j / d;
        vstd::arithmetic::div_mod::lemma_fundamental_div_mod(m_j, d);
        assert(2 * j * dy >= 0) by (nonlinear_arith)
            requires
                j >= 0,
                dy >= 0,
        ;
        vstd::arithmetic::div_mod::lemma_mod_pos_bound(m_j, d);
        let r_j = m_j % d;
        assert(m == m_j + 2 * dy) by (nonlinear_arith)
            requires
                k == j + 1,
                m == 2 * k * dy + dx,
                m_j == 2 * j * dy + dx,
        ;
        assert(2 * (j + 1) * dy == 2 * j * dy + 2 * dy) by (nonlinear_arith);
        assert(2 * q_j * dx == q_j * d) by (nonlinear_arith)
            requires
                d == 2 * dx,
        ;
        assert((q_j + 1) * d == q_j * d + d) by (nonlinear_arith);
        if s_j.2 >= 0 {
            // The minor axis fires: the quotient grows by one.
            vstd::arithmetic::div_mod::lemma_fundamental_div_mod_converse(
                m,
                d,
                q_j + 1,
                r_j + 2 * dy - d,
            );
            assert(sy * (q_j + 1) == sy * q_j + sy) by (nonlinear_arith);
            assert(2 * (q_j + 1) * dx == 2 * q_j * dx + 2 * dx) by (nonlinear_arith);
            assert(2 * (k + 1) * dy == 2 * k * dy + 2 * dy) by (nonlinear_arith);
            assert(2 * k * dy == 2 * j * dy + 2 * dy) by (nonlinear_arith)
                requires
                    k == j + 1,
            ;
        } else {
            // No fire: the quotient stays.
            vstd::arithmetic::div_mod::lemma_fundamental_div_mod_converse(m, d, q_j, r_j + 2 * dy);
            assert(2 * (k + 1) * dy == 2 * k * dy + 2 * dy) by (nonlinear_arith);
            assert(2 * k * dy == 2 * j * dy + 2 * dy) by (nonlinear_arith)
                requires
                    k == j + 1,
            ;
        }
    }
}

/// The steep mirror of `lemma_bres_state_qerr`: the column offset after `k`
/// steps is `(2*k*dx + dy) / (2*dy)` rounded down.
proof fn lemma_bres_state_qerr_steep(x0: int, y0: int, sx: int, sy: int, dx: int, dy: int, k: nat)
    requires
        dy > dx >= 0,
    ensures
        ({
            let s = bres_state(x0, y0, sx, sy, dx, dy, k);
            let q = (2 * k * dx + dy) / (2 * dy);
            s.0 == x0 + sx * q && s.2 == 2 * (k + 1) * dx - dy - 2 * q * dy
        }),
    decreases k,
{
    let d = 2 * dy;
    let m = 2 * k * dx + dy;
    if k == 0 {
        assert(2 * k * dx == 0) by (nonlinear_arith)
            requires
                k == 0,
        ;
        vstd::arithmetic::div_mod::lemma_basic_div(dy, d);
        assert(sx * 0 == 0) by (nonlinear_arith);
        assert(2 * (k + 1) * dx == 2 * dx) by (nonlinear_arith)
            requires
                k == 0,
        ;
        assert(2 * 0 * dy == 0) by (nonlinear_arith);
    } else {
        let j = (k - 1) as nat;
        lemma_bres_state_qerr_steep(x0, y0, sx, sy, dx, dy, j);
        let s_j = bres_state(x0, y0, sx, sy, dx, dy, j);
        let m_j = 2 * j * dx + dy;
        let q_j = m_j / d;
        vstd::arithmetic::div_mod::lemma_fundamental_div_mod(m_j, d);
        assert(2 * j * dx >= 0) by (nonlinear_arith)
            requires
                j >= 0,
                dx >= 0,
        ;
        vstd::arithmetic::div_mod::lemma_mod_pos_bound(m_j, d);
        let r_j = m_j % d;
        assert(m == m_j + 2 * dx) by (nonlinear_arith)
            requires
                k == j + 1,
                m == 2 * k * dx + dy,
                m_j == 2 * j * dx + dy,
        ;
        assert(2 * (j + 1) * dx == 2 * j * dx + 2 * dx) by (nonlinear_arith);
        assert(2 * q_j * dy == q_j * d) by (nonlinear_arith)
            requires
                d == 2 * dy,
        ;
        assert((q_j + 1) * d == q_j * d + d) by (nonlinear_arith);
        if s_j.2 >= 0 {
            vstd::arithmetic::div_mod::lemma_fundamental_div_mod_converse(
                m,
                d,
                q_j + 1,
                r_j + 2 * dx - d,
            );
            assert(sx * (q_j + 1) == sx * q_j + sx) by (nonlinear_arith);
            assert(2 * (q_j + 1) * dy == 2 * q_j * dy + 2 * dy) by (nonlinear_arith);
            assert(2 * (k + 1) * dx == 2 * k * dx + 2 * dx) by (nonlinear_arith);
            assert(2 * k * dx == 2 * j * dx + 2 * dx) by (nonlinear_arith)
                requires
                    k == j + 1,
            ;
        } else {
            vstd::arithmetic::div_mod::lemma_fundamental_div_mod_converse(m, d, q_j, r_j + 2 * dx);
            assert(2 * (k + 1) * dx == 2 * k * dx + 2 * dx) by (nonlinear_arith);
            assert(2 * k * dx == 2 * j * dx + 2 * dx) by (nonlinear_arith)
                requires
                    k == j + 1,
            ;
        }
    }
}

/// Law: the last plotted pixel of a line is its second endpoint: the error
/// accumulation advances the minor axis exactly `min(|dx|, |dy|)` times over
/// the segment.
pub proof fn lemma_line_ends_at_second_endpoint(ax: int, ay: int, bx: int, by: int)
    ensures
        line_points(ax, ay, bx, by).len() >= 1,
        line_points(ax, ay, bx, by).last() == (bx, by),
{
    let dx = abs(bx - ax) as int;
    let dy = abs(by - ay) as int;
    let sx: int = if ax < bx { 1 } else { -1 };
    let sy: int = if ay < by { 1 } else { -1 };
    if dx >= dy {
        if dx == 0 {
        } else {
            let k = dx as nat;
            lemma_bres_state_major(ax, ay, sx, sy, dx, dy, k);
            assert(k * sx == bx - ax) by (nonlinear_arith)
                requires
                    k == dx,
                    dx == abs(bx - ax),
                    sx == (if ax < bx { 1int } else { -1int }),
                    abs(bx - ax) == (if bx - ax >= 0 { bx - ax } else { -(bx - ax) }),
            ;
            lemma_bres_state_qerr(ax, ay, sx, sy, dx, dy, k);
            assert(2 * dx * dy + dx == dy * (2 * dx) + dx) by (nonlinear_arith);
            vstd::arithmetic::div_mod::lemma_fundamental_div_mod_converse(
                2 * dx * dy + dx,
                2 * dx,
                dy,
                dx,
            );
            assert(2 * k * dy == 2 * dx * dy) by (nonlinear_arith)
                requires
                    k == dx,
            ;
            assert(sy * dy == by - ay) by (nonlinear_arith)
                requires
                    dy == abs(by - ay),
                    sy == (if ay < by { 1int } else { -1int }),
                    abs(by - ay) == (if by - ay >= 0 { by - ay } else { -(by - ay) }),
            ;
        }
    } else {
        let k = dy as nat;
        lemma_bres_state_major_steep(ax, ay, sx, sy, dx, dy, k);
        assert(k * sy == by - ay) by (nonlinear_arith)
            requires
                k == dy,
                dy == abs(by - ay),
                sy == (if ay < by { 1int } else { -1int }),
                abs(by - ay) == (if by - ay >= 0 { by - ay } else { -(by - ay) }),
        ;
        lemma_bres_state_qerr_steep(ax, ay, sx, sy, dx, dy, k);
        assert(2 * dy * dx + dy == dx * (2 * dy) + dy) by (nonlinear_arith);
        vstd::arithmetic::div_mod::lemma_fundamental_div_mod_converse(
            2 * dy * dx + dy,
            2 * dy,
            dx,
            dy,
        );
        assert(2 * k * dx == 2 * dy * dx) by (nonlinear_arith)
            requires
                k == dy,
        ;
        assert(sx * dx == bx - ax) by (nonlinear_arith)
            requires
                dx == abs(bx - ax),
                sx == (if ax < bx { 1int } else { -1int }),
                abs(bx - ax) == (if bx - ax >= 0 { bx - ax } else { -(bx - ax) }),
        ;
    }
}

/// Law: the first plotted pixel of a line is its first endpoint, and a line
/// always plots at least one pixel.
pub proof fn lemma_line_starts_at_first_endpoint(ax: int, ay: int, bx: int, by: int)
    ensures
        line_points(ax, ay, bx, by).len() >= 1,
        line_points(ax, ay, bx, by)[0] == (ax, ay),
{
}

/// Law: a shallow line (`|bx - ax| >= |by - ay|`) plots exactly one pixel in
/// each of the `|bx - ax| + 1` columns between its endpoints: the k-th pixel
/// lies in column `ax + k * sx`, where `sx` is the horizontal step sign, so
/// distinct steps land in distinct columns and every column is reached.
pub proof fn lemma_line_one_pixel_per_column(ax: int, ay: int, bx: int, by: int, k: int)
    requires
        abs(bx - ax) >= abs(by - ay),
        0 <= k < line_points(ax, ay, bx, by).len(),
    ensures
        line_points(ax, ay, bx, by).len() == abs(bx - ax) + 1,
        line_points(ax, ay, bx, by)[k].0 == ax + k * (if ax < bx { 1int } else { -1int }),
{
    let sx: int = if ax < bx { 1 } else { -1 };
    let sy: int = if ay < by { 1 } else { -1 };
    lemma_bres_state_major(ax, ay, sx, sy, abs(bx - ax) as int, abs(by - ay) as int, k as nat);
}

/// Law: consecutive pixels of a line are 8-connected and monotonic: each
/// step advances the major axis by exactly one pixel toward the second
/// endpoint, and the minor axis by zero or one pixel toward it.
pub proof fn lemma_line_connected(ax: int, ay: int, bx: int, by: int, k: int)
    requires
        0 <= k,
        k + 1 < line_points(ax, ay, bx, by).len(),
    ensures
        ({
            let p = line_points(ax, ay, bx, by)[k];
            let q = line_points(ax, ay, bx, by)[k + 1];
            let sx: int = if ax < bx { 1 } else { -1 };
            let sy: int = if ay < by { 1 } else { -1 };
            if abs(bx - ax) >= abs(by - ay) {
                q.0 == p.0 + sx && (q.1 == p.1 || q.1 == p.1 + sy)
            } else {
                q.1 == p.1 + sy && (q.0 == p.0 || q.0 == p.0 + sx)
            }
        }),
{
    let sx: int = if ax < bx { 1 } else { -1 };
    let sy: int = if ay < by { 1 } else { -1 };
    let dx = abs(bx - ax) as int;
    let dy = abs(by - ay) as int;
    let s = bres_state(ax, ay, sx, sy, dx, dy, k as nat);
    assert(bres_state(ax, ay, sx, sy, dx, dy, (k + 1) as nat)
        == bres_next(s.0, s.1, s.2, sx, sy, dx, dy));
}

/// The set of integer points that the rectangle `[px, px+sx) x [py, py+sy)`
/// covers.
pub open spec fn rect_set(px: int, py: int, sx: int, sy: int) -> Set<(int, int)> {
    Set::new(|p: (int, int)| rect_covers(px, py, sx, sy, p.0, p.1))
}

/// The single row `[px, px+sx) x {y}`.
spec fn row_set(px: int, y: int, sx: int) -> Set<(int, int)> {
    Set::new(|p: (int, int)| px <= p.0 < px + sx && p.1 == y)
}

proof fn lemma_row_set_count(px: int, y: int, sx: int)
    requires
        sx >= 0,
    ensures
        row_set(px, y, sx).finite(),
        row_set(px, y, sx).len() == sx,
    decreases sx,
{
    if sx == 0 {
        assert(row_set(px, y, 0) =~= Set::empty());
    } else {
        lemma_row_set_count(px, y, sx - 1);
        assert(row_set(px, y, sx) =~= row_set(px, y, sx - 1).insert((px + sx - 1, y)));
    }
}

/// Law: a rectangle of non-negative size covers exactly `sx * sy` points, so
/// `draw_rect` on a fully in-bounds rectangle sets exactly `sx * sy` pixels
/// to the color and, by its contract, leaves every other pixel unchanged.
pub proof fn lemma_rect_set_count(px: int, py: int, sx: int, sy: int)
    requires
        sx >= 0,
        sy >= 0,
    ensures
        rect_set(px, py, sx, sy).finite(),
        rect_set(px, py, sx, sy).len() == sx * sy,
    decreases sy,
{
    if sy == 0 {
        assert(rect_set(px, py, sx, 0) =~= Set::empty());
        assert(sx * 0 == 0) by (nonlinear_arith);
    } else {
        lemma_rect_set_count(px, py, sx, sy - 1);
        lemma_row_set_count(px, py + sy - 1, sx);
        let below = rect_set(px, py, sx, sy - 1);
        let row = row_set(px, py + sy - 1, sx);
        vstd::set_lib::lemma_set_union_finite_iff(below, row);
        vstd::set_lib::lemma_set_disjoint_lens(below, row);
        assert(below.disjoint(row));
        assert(rect_set(px, py, sx, sy) =~= below + row);
        assert(sx * (sy - 1) + sx == sx * sy) by (nonlinear_arith);
    }
}

/// A vector of `n` zero bytes.
fn zeroed_bytes(n: usize) -> (r: Vec<u8>)
    ensures
        r@ == Seq::new(n as nat, |i: int| 0u8),
{
    let mut v: Vec<u8> = Vec::new();
    while v.len() < n
        invariant
            v@.len() <= n,
            forall|i: int| 0 <= i < v@.len() ==> v@[i] == 0u8,
        decreases n - v@.len(),
    {
        v.push(0u8);
    }
    proof {
        assert(v@ =~= Seq::new(n as nat, |i: int| 0u8));
    }
    v
}

} // verus!
