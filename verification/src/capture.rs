//! Captured monitor images and the orientation fix-up applied to them.

use vstd::prelude::*;

verus! {

/// One monitor's screenshot: XRGB8888 pixels, row-major, `width * height`
/// of them at the front of `xrgb_buffer`.
pub struct ScreenCapture {
    pub xrgb_buffer: Vec<u32>,
    pub width: u32,
    pub height: u32,
}

impl ScreenCapture {
    /// The buffer holds at least `width * height` pixels.
    pub open spec fn wf(&self) -> bool {
        self.xrgb_buffer@.len() >= self.width * self.height
    }

    /// The pixel at column `x`, row `y`.
    pub open spec fn pixel(&self, x: int, y: int) -> u32 {
        grid_pixel(self.xrgb_buffer@, self.width as int, x, y)
    }
}

/// The pixel at column `x`, row `y` of a row-major grid `w` pixels wide.
pub open spec fn grid_pixel(p: Seq<u32>, w: int, x: int, y: int) -> u32 {
    p[y * w + x]
}

/// How a monitor's output is rotated and/or mirrored (the eight values of
/// the Wayland `wl_output.transform` enum).
#[derive(Clone, Copy, Debug, PartialEq, Eq, Structural)]
pub enum Transform {
    Normal,
    Rotate90,
    Rotate180,
    Rotate270,
    Flipped,
    Flipped90,
    Flipped180,
    Flipped270,
}

/// Whether `t` exchanges the width and the height of the image.
pub open spec fn swaps_axes(t: Transform) -> bool {
    match t {
        Transform::Rotate90 | Transform::Rotate270 | Transform::Flipped90
        | Transform::Flipped270 => true,
        _ => false,
    }
}

/// Column and row in a `w` x `h` source image of the pixel that the
/// transform places at column `dx`, row `dy` of its result.
pub open spec fn source_coord(t: Transform, w: int, h: int, dx: int, dy: int) -> (int, int) {
    match t {
        Transform::Normal => (dx, dy),
        Transform::Rotate90 => (dy, h - 1 - dx),
        Transform::Rotate180 => (w - 1 - dx, h - 1 - dy),
        Transform::Rotate270 => (w - 1 - dy, dx),
        Transform::Flipped => (w - 1 - dx, dy),
        Transform::Flipped90 => (w - 1 - dy, h - 1 - dx),
        Transform::Flipped180 => (dx, h - 1 - dy),
        Transform::Flipped270 => (dy, dx),
    }
}

/// Column and row in the result at which the transform places the pixel at
/// column `x`, row `y` of a `w` x `h` source image.
pub open spec fn dest_coord(t: Transform, w: int, h: int, x: int, y: int) -> (int, int) {
    match t {
        Transform::Normal => (x, y),
        Transform::Rotate90 => (h - 1 - y, x),
        Transform::Rotate180 => (w - 1 - x, h - 1 - y),
        Transform::Rotate270 => (y, w - 1 - x),
        Transform::Flipped => (w - 1 - x, y),
        Transform::Flipped90 => (h - 1 - y, w - 1 - x),
        Transform::Flipped180 => (x, h - 1 - y),
        Transform::Flipped270 => (y, x),
    }
}

/// Width of the transformed image.
pub open spec fn transformed_width(t: Transform, w: u32, h: u32) -> u32 {
    if swaps_axes(t) { h } else { w }
}

/// Height of the transformed image.
pub open spec fn transformed_height(t: Transform, w: u32, h: u32) -> u32 {
    if swaps_axes(t) { w } else { h }
}

/// The pixels, row-major, of the `w` x `h` grid `p` after transform `t`.
pub open spec fn transform_pixels(p: Seq<u32>, w: u32, h: u32, t: Transform) -> Seq<u32> {
    let rw = transformed_width(t, w, h) as int;
    Seq::new(
        (w * h) as nat,
        |k: int|
            {
                let s = source_coord(t, w as int, h as int, k % rw, k / rw);
                grid_pixel(p, w as int, s.0, s.1)
            },
    )
}

/// The pixels of the transformed capture, row-major.
pub open spec fn transformed_pixels(c: ScreenCapture, t: Transform) -> Seq<u32> {
    transform_pixels(c.xrgb_buffer@, c.width, c.height, t)
}

/// The transform that undoes `t`.
pub open spec fn inverse_transform(t: Transform) -> Transform {
    match t {
        Transform::Rotate90 => Transform::Rotate270,
        Transform::Rotate270 => Transform::Rotate90,
        _ => t,
    }
}

pub(crate) proof fn lemma_index_in_grid(x: int, y: int, w: int, h: int)
    requires
        0 <= x < w,
        0 <= y < h,
    ensures
        0 <= y * w + x < w * h,
        y * w + x <= w * h - 1,
{
    assert(y * w <= (h - 1) * w) by (nonlinear_arith)
        requires
            0 <= y <= h - 1,
            w >= 0,
    ;
    assert((h - 1) * w == h * w - w) by (nonlinear_arith);
    assert(w * h == h * w) by (nonlinear_arith);
    assert(0 <= y * w) by (nonlinear_arith)
        requires
            y >= 0,
            w >= 0,
    ;
}

proof fn lemma_div_mod_row(x: int, y: int, w: int)
    requires
        0 <= x < w,
        0 <= y,
    ensures
        (y * w + x) % w == x,
        (y * w + x) / w == y,
{
    vstd::arithmetic::div_mod::lemma_fundamental_div_mod_converse(y * w + x, w, y, x);
}

/// Index in the source buffer of the pixel that lands at (`dx`, `dy`).
fn source_index(t: Transform, w: u32, h: u32, dx: u32, dy: u32) -> (i: usize)
    requires
        (dx as int) < transformed_width(t, w, h),
        (dy as int) < transformed_height(t, w, h),
        w * h <= usize::MAX,
    ensures
        ({
            let s = source_coord(t, w as int, h as int, dx as int, dy as int);
            &&& 0 <= s.0 < w
            &&& 0 <= s.1 < h
            &&& i == s.1 * w + s.0
        }),
        (i as int) < w * h,
{
    let (sx, sy): (u32, u32) = match t {
        Transform::Normal => (dx, dy),
        Transform::Rotate90 => (dy, h - 1 - dx),
        Transform::Rotate180 => (w - 1 - dx, h - 1 - dy),
        Transform::Rotate270 => (w - 1 - dy, dx),
        Transform::Flipped => (w - 1 - dx, dy),
        Transform::Flipped90 => (w - 1 - dy, h - 1 - dx),
        Transform::Flipped180 => (dx, h - 1 - dy),
        Transform::Flipped270 => (dy, dx),
    };
    proof {
        lemma_index_in_grid(sx as int, sy as int, w as int, h as int);
    }
    sy as usize * w as usize + sx as usize
}

/// Rotates and/or mirrors a capture so that it shows the monitor as the
/// user sees it. A `Normal` transform hands the capture back unchanged;
/// every other transform yields exactly `width * height` pixels.
pub fn apply_transform(capture: ScreenCapture, transform: Transform) -> (r: ScreenCapture)
    requires
        transform == Transform::Normal || capture.wf(),
    ensures
        transform == Transform::Normal ==> r == capture,
        transform != Transform::Normal ==> {
            &&& r.width == transformed_width(transform, capture.width, capture.height)
            &&& r.height == transformed_height(transform, capture.width, capture.height)
            &&& r.xrgb_buffer@ == transformed_pixels(capture, transform)
        },
{
    if transform == Transform::Normal {
        return capture;
    }
    let w = capture.width;
    let h = capture.height;
    let rw: u32 = if w == h || !(transform == Transform::Rotate90 || transform == Transform::Rotate270
        || transform == Transform::Flipped90 || transform == Transform::Flipped270) {
        w
    } else {
        h
    };
    let rh: u32 = if rw == w { h } else { w };
    assert(rw == transformed_width(transform, w, h) && rh == transformed_height(transform, w, h));
    assert(rw * rh == w * h) by (nonlinear_arith)
        requires
            (rw == w && rh == h) || (rw == h && rh == w),
    ;
    assert(w * h <= usize::MAX) by {
        assert(capture.xrgb_buffer@.len() == capture.xrgb_buffer.len());
    }
    let ghost target = transformed_pixels(capture, transform);
    let mut dst: Vec<u32> = Vec::new();
    let mut dy: u32 = 0;
    while dy < rh
        invariant
            capture.wf(),
            w == capture.width,
            h == capture.height,
            rw == transformed_width(transform, w, h),
            rh == transformed_height(transform, w, h),
            rw * rh == w * h,
            w * h <= usize::MAX,
            dy <= rh,
            target == transformed_pixels(capture, transform),
            dst@.len() == dy * rw,
            forall|k: int| 0 <= k < dst@.len() ==> #[trigger] dst@[k] == target[k],
        decreases rh - dy,
    {
        let mut dx: u32 = 0;
        while dx < rw
            invariant
                capture.wf(),
                w == capture.width,
                h == capture.height,
                rw == transformed_width(transform, w, h),
                rh == transformed_height(transform, w, h),
                rw * rh == w * h,
                w * h <= usize::MAX,
                dy < rh,
                dx <= rw,
                target == transformed_pixels(capture, transform),
                dst@.len() == dy * rw + dx,
                forall|k: int| 0 <= k < dst@.len() ==> #[trigger] dst@[k] == target[k],
            decreases rw - dx,
        {
            let i = source_index(transform, w, h, dx, dy);
            proof {
                lemma_index_in_grid(dx as int, dy as int, rw as int, rh as int);
                lemma_div_mod_row(dx as int, dy as int, rw as int);
                let k = dy * rw + dx;
                assert(target[k] == capture.xrgb_buffer@[i as int]);
            }
            dst.push(capture.xrgb_buffer[i]);
            dx = dx + 1;
        }
        assert((dy + 1) * rw == dy * rw + rw) by (nonlinear_arith);
        dy = dy + 1;
    }
    assert(dst@.len() == target.len()) by {
        assert(dy * rw == rw * rh) by (nonlinear_arith)
            requires
                dy == rh,
        ;
    }
    assert(dst@ =~= target);
    ScreenCapture { xrgb_buffer: dst, width: rw, height: rh }
}

/// Every source pixel of a transformed capture lands at its rotated and/or
/// mirrored position: the pixel at (`x`, `y`) of the source is the pixel at
/// `dest_coord(t, width, height, x, y)` of the result.
pub proof fn lemma_transform_places_pixels(p: Seq<u32>, w: u32, h: u32, t: Transform, x: int, y: int)
    requires
        p.len() >= w * h,
        0 <= x < w,
        0 <= y < h,
    ensures
        ({
            let d = dest_coord(t, w as int, h as int, x, y);
            let rw = transformed_width(t, w, h) as int;
            let rh = transformed_height(t, w, h) as int;
            &&& 0 <= d.0 < rw
            &&& 0 <= d.1 < rh
            &&& grid_pixel(transform_pixels(p, w, h, t), rw, d.0, d.1) == grid_pixel(p, w as int, x, y)
        }),
{
    let d = dest_coord(t, w as int, h as int, x, y);
    let rw = transformed_width(t, w, h) as int;
    let rh = transformed_height(t, w, h) as int;
    assert(rw * rh == w * h) by (nonlinear_arith)
        requires
            (rw == w && rh == h) || (rw == h && rh == w),
    ;
    lemma_index_in_grid(d.0, d.1, rw, rh);
    lemma_div_mod_row(d.0, d.1, rw);
}

/// Applying a transform and then its inverse gives back the first
/// `width * height` pixels of the capture, with its width and height.
pub proof fn lemma_inverse_transform_restores(p: Seq<u32>, w: u32, h: u32, t: Transform)
    requires
        p.len() >= w * h,
    ensures
        transformed_width(inverse_transform(t), transformed_width(t, w, h), transformed_height(t, w, h)) == w,
        transformed_height(inverse_transform(t), transformed_width(t, w, h), transformed_height(t, w, h)) == h,
        transform_pixels(
            transform_pixels(p, w, h, t),
            transformed_width(t, w, h),
            transformed_height(t, w, h),
            inverse_transform(t),
        ) == p.take(w * h),
{
    let tw = transformed_width(t, w, h);
    let th = transformed_height(t, w, h);
    let u = inverse_transform(t);
    let p1 = transform_pixels(p, w, h, t);
    let p2 = transform_pixels(p1, tw, th, u);
    assert(tw * th == w * h) by (nonlinear_arith)
        requires
            (tw == w && th == h) || (tw == h && th == w),
    ;
    assert forall|k: int| 0 <= k < w * h implies p2[k] == p[k] by {
        let x = k % (w as int);
        let y = k / (w as int);
        assert(w > 0) by (nonlinear_arith)
            requires
                0 <= k < w * h,
        ;
        vstd::arithmetic::div_mod::lemma_fundamental_div_mod(k, w as int);
        vstd::arithmetic::div_mod::lemma_mod_bound(k, w as int);
        assert(0 <= y < h) by (nonlinear_arith)
            requires
                k == w * y + x,
                0 <= x < w,
                0 <= k < w * h,
                w > 0,
        ;
        let s2 = source_coord(u, tw as int, th as int, x, y);
        assert(0 <= s2.0 < tw && 0 <= s2.1 < th);
        let j = s2.1 * tw + s2.0;
        lemma_index_in_grid(s2.0, s2.1, tw as int, th as int);
        lemma_div_mod_row(s2.0, s2.1, tw as int);
        assert(p1[j] == grid_pixel(p, w as int, x, y));
        assert(y * w + x == k) by (nonlinear_arith)
            requires
                k == w * y + x,
        ;
    }
    assert(p2 =~= p.take(w * h));
}

/// Two sequences of one length hold the same multiset of items when an
/// injective map of indices carries each item of `a` to an equal item of `b`.
proof fn lemma_reindex_same_multiset<A>(a: Seq<A>, b: Seq<A>, f: spec_fn(int) -> int)
    requires
        a.len() == b.len(),
        forall|i: int| 0 <= i < a.len() ==> 0 <= #[trigger] f(i) < a.len() && a[i] == b[f(i)],
        forall|i1: int, i2: int|
            0 <= i1 < a.len() && 0 <= i2 < a.len() && i1 != i2 ==> #[trigger] f(i1) != #[trigger] f(i2),
    ensures
        a.to_multiset() =~= b.to_multiset(),
    decreases a.len(),
{
    broadcast use vstd::seq_lib::group_to_multiset_ensures, vstd::multiset::group_multiset_axioms;

    let n = a.len() as int;
    if n == 0 {
        assert(a =~= Seq::<A>::empty());
        assert(b =~= Seq::<A>::empty());
    } else {
        let j0 = f(n - 1);
        let a1 = a.drop_last();
        let b1 = b.remove(j0);
        let f1 = |i: int| if f(i) < j0 { f(i) } else { f(i) - 1 };
        assert forall|i: int| 0 <= i < a1.len() implies 0 <= #[trigger] f1(i) < a1.len() && a1[i] == b1[f1(i)] by {
            assert(f(i) != f(n - 1));
        }
        assert forall|i1: int, i2: int|
            0 <= i1 < a1.len() && 0 <= i2 < a1.len() && i1 != i2 implies #[trigger] f1(i1) != #[trigger] f1(i2) by {
            assert(f(i1) != f(n - 1));
            assert(f(i2) != f(n - 1));
            assert(f(i1) != f(i2));
        }
        lemma_reindex_same_multiset(a1, b1, f1);
        assert(a =~= a1.push(a[n - 1]));
        assert(b.to_multiset().count(b[j0]) > 0) by {
            assert(b.contains(b[j0]));
        }
        assert(b.to_multiset() =~= b1.to_multiset().insert(b[j0]));
    }
}

/// Index in a `w` x `h` source grid of the pixel that transform `t` places at
/// index `k` of its row-major result.
pub open spec fn source_index_of(t: Transform, w: u32, h: u32, k: int) -> int {
    let rw = transformed_width(t, w, h) as int;
    let s = source_coord(t, w as int, h as int, k % rw, k / rw);
    s.1 * w + s.0
}

/// A transform only moves pixels: the transformed pixels are the first
/// `width * height` pixels of the source, each exactly once, in another order.
pub proof fn lemma_transform_is_permutation(p: Seq<u32>, w: u32, h: u32, t: Transform)
    requires
        p.len() >= w * h,
    ensures
        transform_pixels(p, w, h, t).to_multiset() == p.take(w * h).to_multiset(),
{
    let n = w * h;
    let a = transform_pixels(p, w, h, t);
    let b = p.take(n);
    let rw = transformed_width(t, w, h) as int;
    let rh = transformed_height(t, w, h) as int;
    let f = |k: int| source_index_of(t, w, h, k);
    assert(rw * rh == w * h) by (nonlinear_arith)
        requires
            (rw == w && rh == h) || (rw == h && rh == w),
    ;
    assert forall|k: int| 0 <= k < a.len() implies 0 <= #[trigger] f(k) < a.len() && a[k] == b[f(k)] by {
        assert(rw > 0) by (nonlinear_arith)
            requires
                0 <= k < rw * rh,
                rw >= 0,
                rh >= 0,
        ;
        vstd::arithmetic::div_mod::lemma_fundamental_div_mod(k, rw);
        vstd::arithmetic::div_mod::lemma_mod_bound(k, rw);
        assert(0 <= k / rw < rh) by (nonlinear_arith)
            requires
                k == rw * (k / rw) + k % rw,
                0 <= k % rw < rw,
                0 <= k < rw * rh,
        ;
        let s = source_coord(t, w as int, h as int, k % rw, k / rw);
        lemma_index_in_grid(s.0, s.1, w as int, h as int);
    }
    assert forall|k1: int, k2: int|
        0 <= k1 < a.len() && 0 <= k2 < a.len() && k1 != k2 implies #[trigger] f(k1) != #[trigger] f(k2) by {
        if f(k1) == f(k2) {
            assert(rw > 0) by (nonlinear_arith)
                requires
                    0 <= k1 < rw * rh,
                    rw >= 0,
                    rh >= 0,
            ;
            vstd::arithmetic::div_mod::lemma_fundamental_div_mod(k1, rw);
            vstd::arithmetic::div_mod::lemma_mod_bound(k1, rw);
            vstd::arithmetic::div_mod::lemma_fundamental_div_mod(k2, rw);
            vstd::arithmetic::div_mod::lemma_mod_bound(k2, rw);
            assert(0 <= k1 / rw < rh) by (nonlinear_arith)
                requires
                    k1 == rw * (k1 / rw) + k1 % rw,
                    0 <= k1 % rw < rw,
                    0 <= k1 < rw * rh,
            ;
            assert(0 <= k2 / rw < rh) by (nonlinear_arith)
                requires
                    k2 == rw * (k2 / rw) + k2 % rw,
                    0 <= k2 % rw < rw,
                    0 <= k2 < rw * rh,
            ;
            let s1 = source_coord(t, w as int, h as int, k1 % rw, k1 / rw);
            let s2 = source_coord(t, w as int, h as int, k2 % rw, k2 / rw);
            lemma_div_mod_row(s1.0, s1.1, w as int);
            lemma_div_mod_row(s2.0, s2.1, w as int);
            assert(s1 == s2);
            assert(dest_coord(t, w as int, h as int, s1.0, s1.1) == (k1 % rw, k1 / rw));
            assert(dest_coord(t, w as int, h as int, s2.0, s2.1) == (k2 % rw, k2 / rw));
        }
    }
    lemma_reindex_same_multiset(a, b, f);
}

/// Two quarter turns make a half turn.
proof fn lemma_two_quarter_turns(p: Seq<u32>, w: u32, h: u32)
    requires
        p.len() >= w * h,
    ensures
        transform_pixels(transform_pixels(p, w, h, Transform::Rotate90), h, w, Transform::Rotate90)
            == transform_pixels(p, w, h, Transform::Rotate180),
{
    let p1 = transform_pixels(p, w, h, Transform::Rotate90);
    let p2 = transform_pixels(p1, h, w, Transform::Rotate90);
    let q = transform_pixels(p, w, h, Transform::Rotate180);
    assert(h * w == w * h) by (nonlinear_arith);
    assert forall|k: int| 0 <= k < w * h implies p2[k] == q[k] by {
        let x = k % (w as int);
        let y = k / (w as int);
        assert(w > 0) by (nonlinear_arith)
            requires
                0 <= k < w * h,
        ;
        vstd::arithmetic::div_mod::lemma_fundamental_div_mod(k, w as int);
        vstd::arithmetic::div_mod::lemma_mod_bound(k, w as int);
        assert(0 <= y < h) by (nonlinear_arith)
            requires
                k == w * y + x,
                0 <= x < w,
                0 <= k < w * h,
                w > 0,
        ;
        let j = (w - 1 - x) * h + y;
        lemma_index_in_grid(y, w - 1 - x, h as int, w as int);
        lemma_div_mod_row(y, w - 1 - x, h as int);
    }
    assert(p2 =~= q);
}

/// Four quarter turns give back the first `width * height` pixels of the
/// capture, with its width and height.
pub proof fn lemma_four_quarter_turns_restore(p: Seq<u32>, w: u32, h: u32)
    requires
        p.len() >= w * h,
    ensures
        transform_pixels(
            transform_pixels(
                transform_pixels(transform_pixels(p, w, h, Transform::Rotate90), h, w, Transform::Rotate90),
                w,
                h,
                Transform::Rotate90,
            ),
            h,
            w,
            Transform::Rotate90,
        ) == p.take(w * h),
        transformed_width(Transform::Rotate90, w, h) == h,
        transformed_width(Transform::Rotate90, h, w) == w,
{
    let p2 = transform_pixels(transform_pixels(p, w, h, Transform::Rotate90), h, w, Transform::Rotate90);
    lemma_two_quarter_turns(p, w, h);
    assert(p2.len() == w * h);
    lemma_two_quarter_turns(p2, w, h);
    lemma_inverse_transform_restores(p, w, h, Transform::Rotate180);
}

// ---------------------------------------------------------------------------
// Decoded RGBA images
// ---------------------------------------------------------------------------

/// A decoded 8-bit RGBA image. Verus does not take `image::ImageBuffer`'s
/// declaration (its pixel type is bounded by the outside trait
/// `image::Pixel`), so the image is held here, opaque to the proofs.
#[verifier::external_body]
pub struct DecodedRgba {
    image: image::RgbaImage,
}

/// The raw RGBA bytes that an `image::RgbaImage` holds.
pub uninterp spec fn rgba_image_bytes(img: DecodedRgba) -> Seq<u8>;

/// The width and height that an `image::RgbaImage` was made with.
pub uninterp spec fn rgba_image_dims(img: DecodedRgba) -> (u32, u32);

/// `ImageBuffer::dimensions`: the image's width and height.
#[verifier::external_body]
fn rgba_dimensions(img: &DecodedRgba) -> (d: (u32, u32))
    ensures
        d == rgba_image_dims(*img),
{
    img.image.dimensions()
}

/// `ImageBuffer::as_raw`: the image's raw RGBA bytes. Every constructor of
/// an `ImageBuffer` checks that the buffer holds at least four bytes per
/// pixel of its width and height (`check_image_fits`), and the buffer is
/// private to the image, so that length always holds.
#[verifier::external_body]
fn rgba_raw(img: &DecodedRgba) -> (raw: &Vec<u8>)
    ensures
        raw@ == rgba_image_bytes(*img),
        raw@.len() >= 4 * rgba_image_dims(*img).0 * rgba_image_dims(*img).1,
{
    img.image.as_raw()
}

/// The XRGB pixels of the RGBA bytes `raw`: one pixel per whole group of four
/// bytes, red, green and blue kept, alpha dropped.
pub open spec fn xrgb_of_rgba(raw: Seq<u8>) -> Seq<u32> {
    Seq::new(
        raw.len() / 4,
        |i: int| (raw[4 * i] * 0x10000 + raw[4 * i + 1] * 0x100 + raw[4 * i + 2]) as u32,
    )
}

/// Each converted pixel keeps its source's red, green and blue bytes.
pub proof fn lemma_rgba_channels_kept(raw: Seq<u8>, i: int)
    requires
        0 <= i < raw.len() / 4,
    ensures
        crate::color::channel(xrgb_of_rgba(raw)[i], 0) == raw[4 * i],
        crate::color::channel(xrgb_of_rgba(raw)[i], 1) == raw[4 * i + 1],
        crate::color::channel(xrgb_of_rgba(raw)[i], 2) == raw[4 * i + 2],
{
    let (r, g, b) = (raw[4 * i] as int, raw[4 * i + 1] as int, raw[4 * i + 2] as int);
    let v = r * 0x10000 + g * 0x100 + b;
    assert(0 <= 4 * i + 2 < raw.len()) by (nonlinear_arith)
        requires
            0 <= i < raw.len() / 4,
    ;
    vstd::arithmetic::div_mod::lemma_fundamental_div_mod_converse(v, 0x10000, r, g * 0x100 + b);
    vstd::arithmetic::div_mod::lemma_fundamental_div_mod_converse(v, 0x100, r * 0x100 + g, b);
    vstd::arithmetic::div_mod::lemma_fundamental_div_mod_converse(r * 0x100 + g, 0x100, r, g);
    vstd::arithmetic::div_mod::lemma_fundamental_div_mod_converse(r, 0x100, 0, r);
}

/// Converts RGBA bytes to XRGB pixels, four bytes at a time; trailing bytes
/// short of a whole pixel are ignored.
pub fn xrgb_from_rgba_bytes(raw: &Vec<u8>) -> (buf: Vec<u32>)
    ensures
        buf@ == xrgb_of_rgba(raw@),
{
    let n = raw.len() / 4;
    let mut buf: Vec<u32> = Vec::new();
    let mut i: usize = 0;
    while i < n
        invariant
            n == raw.len() / 4,
            i <= n,
            buf@ == xrgb_of_rgba(raw@).take(i as int),
        decreases n - i,
    {
        let r = raw[4 * i];
        let g = raw[4 * i + 1];
        let b = raw[4 * i + 2];
        let px: u32 = ((r as u32) << 16) | ((g as u32) << 8) | (b as u32);
        assert(px == r * 0x10000 + g * 0x100 + b) by (bit_vector)
            requires
                px == ((r as u32) << 16) | ((g as u32) << 8) | (b as u32),
        ;
        buf.push(px);
        i = i + 1;
        assert(buf@ =~= xrgb_of_rgba(raw@).take(i as int));
    }
    assert(xrgb_of_rgba(raw@).take(n as int) =~= xrgb_of_rgba(raw@));
    buf
}

impl DecodedRgba {
    /// `ImageBuffer::from_raw`: the image of the given width and height over
    /// the RGBA bytes `bytes`, kept as they are; `None` when the buffer is
    /// shorter than four bytes per pixel or that length overflows `usize`
    /// (`check_image_fits`).
    #[verifier::external_body]
    fn from_raw(width: u32, height: u32, bytes: Vec<u8>) -> (r: Option<DecodedRgba>)
        ensures
            r is Some <==> (4 * width <= usize::MAX && 4 * width * height <= usize::MAX && 4 * width * height
                <= bytes@.len()),
            r matches Some(d) ==> rgba_image_dims(d) == (width, height) && rgba_image_bytes(d) == bytes@,
    {
        image::RgbaImage::from_raw(width, height, bytes).map(|image| DecodedRgba { image })
    }
}

/// The capture of an RGBA image of the given width and height over `bytes`:
/// `None` when the bytes are too few for that image.
pub fn rgba_bytes_to_capture(width: u32, height: u32, bytes: Vec<u8>) -> (r: Option<ScreenCapture>)
    ensures
        r is Some <==> (4 * width <= usize::MAX && 4 * width * height <= usize::MAX && 4 * width * height
            <= bytes@.len()),
        r matches Some(c) ==> {
            &&& c.width == width
            &&& c.height == height
            &&& c.xrgb_buffer@ == xrgb_of_rgba(bytes@)
            &&& c.wf()
        },
{
    match DecodedRgba::from_raw(width, height, bytes) {
        Some(d) => Some(rgba_to_capture(&d)),
        None => None,
    }
}

/// Converts a decoded RGBA image to an XRGB capture of the same dimensions.
pub fn rgba_to_capture(img: &DecodedRgba) -> (c: ScreenCapture)
    ensures
        c.width == rgba_image_dims(*img).0,
        c.height == rgba_image_dims(*img).1,
        c.xrgb_buffer@ == xrgb_of_rgba(rgba_image_bytes(*img)),
        c.wf(),
{
    let (w, h) = rgba_dimensions(img);
    let raw = rgba_raw(img);
    let buf = xrgb_from_rgba_bytes(raw);
    assert(raw@.len() / 4 >= w * h) by (nonlinear_arith)
        requires
            raw@.len() >= 4 * w * h,
    ;
    ScreenCapture { xrgb_buffer: buf, width: w, height: h }
}

} // verus!
