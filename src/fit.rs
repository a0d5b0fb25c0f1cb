//! Fitting a decoded still image to the output: geometry, resampling, cropping and letterboxing.
use vstd::prelude::*;
use image::imageops::FilterType;
use image::RgbaImage;
use crate::config::{is_contain, is_cover, FitMode};

verus! {

/// Largest pixel buffer, in bytes, that a fitted or resampled image may take.
pub const MAX_IMAGE_BYTES: u64 = 0x7fff_ffff;

/// What image's Lanczos3 resampling makes of the `sw` by `sh` RGBA image `rgba` at `w` by `h`.
pub uninterp spec fn lanczos3_of(rgba: Seq<u8>, sw: u32, sh: u32, w: u32, h: u32) -> Seq<u8>;

/// Relies on image's `imageops::resize` with the Lanczos3 filter on an `RgbaImage` (built with
/// `from_raw`, read back with `into_raw`): RGBA bytes of exactly `w` by `h` pixels, which depend
/// on the source pixels and the sizes alone.
#[verifier::external_body]
fn resize_lanczos3(rgba: &Vec<u8>, sw: u32, sh: u32, w: u32, h: u32) -> (r: Vec<u8>)
    requires
        rgba@.len() == 4 * sw * sh,
        w >= 1,
        h >= 1,
        4 * w * h <= MAX_IMAGE_BYTES,
    ensures
        r@ == lanczos3_of(rgba@, sw, sh, w, h),
        r@.len() == 4 * w * h,
{
    let source = RgbaImage::from_raw(sw, sh, rgba.clone()).unwrap();
    image::imageops::resize(&source, w, h, FilterType::Lanczos3).into_raw()
}

/// What image's `overlay` makes of the RGBA image `canvas` with `top` blended in at (`x`, `y`).
pub uninterp spec fn overlaid(
    canvas: Seq<u8>,
    cw: u32,
    ch: u32,
    top: Seq<u8>,
    tw: u32,
    th: u32,
    x: u32,
    y: u32,
) -> Seq<u8>;

/// Relies on image's `imageops::overlay`: blends the `tw` by `th` RGBA image `top` onto the
/// `cw` by `ch` RGBA image `canvas` with its corner at (`x`, `y`); it writes only pixels inside
/// that rectangle, and the result depends on its arguments alone.
#[verifier::external_body]
fn overlay_rgba(canvas: &mut Vec<u8>, cw: u32, ch: u32, top: &Vec<u8>, tw: u32, th: u32, x: u32, y: u32)
    requires
        old(canvas)@.len() == 4 * cw * ch,
        top@.len() == 4 * tw * th,
    ensures
        final(canvas)@ == overlaid(old(canvas)@, cw, ch, top@, tw, th, x, y),
        final(canvas)@.len() == old(canvas)@.len(),
        forall|px: int, py: int, k: int|
            0 <= px < cw && 0 <= py < ch && 0 <= k < 4 && !inside(px, py, x as int, y as int, tw as int, th as int)
                ==> #[trigger] final(canvas)@[4 * (py * cw + px) + k] == old(canvas)@[4 * (py * cw + px) + k],
{
    let mut base = RgbaImage::from_raw(cw, ch, std::mem::take(canvas)).unwrap();
    let top = RgbaImage::from_raw(tw, th, top.clone()).unwrap();
    image::imageops::overlay(&mut base, &top, x as i64, y as i64);
    *canvas = base.into_raw();
}

/// Pixel (`px`, `py`) lies in the `w` by `h` rectangle with its corner at (`x`, `y`).
pub open spec fn inside(px: int, py: int, x: int, y: int, w: int, h: int) -> bool {
    x <= px < x + w && y <= py < y + h
}

pub open spec fn ceil_div(a: int, b: int) -> int {
    (a + b - 1) / b
}

pub open spec fn round_div(a: int, b: int) -> int {
    (2 * a + b) / (2 * b)
}

pub open spec fn max_int(a: int, b: int) -> int {
    if a >= b {
        a
    } else {
        b
    }
}

/// The size the source is resampled to before it is placed on the `ow` by `oh` output.
/// Cover scales by the larger ratio, rounding up; contain by the smaller, rounding to nearest.
pub open spec fn resized_size(sw: int, sh: int, ow: int, oh: int, fit: FitMode) -> (int, int) {
    if is_cover(fit) {
        if ow * sh >= oh * sw {
            (ow, max_int(ceil_div(sh * ow, sw), oh))
        } else {
            (max_int(ceil_div(sw * oh, sh), ow), oh)
        }
    } else if is_contain(fit) {
        if ow * sh <= oh * sw {
            (ow, max_int(round_div(sh * ow, sw), 1))
        } else {
            (max_int(round_div(sw * oh, sh), 1), oh)
        }
    } else {
        (ow, oh)
    }
}

/// Cover: the corner of the centred crop window in the resampled image.
/// Contain: the corner of the centred resampled image on the output.
pub open spec fn fit_offset(size: (int, int), ow: int, oh: int, fit: FitMode) -> (int, int) {
    if is_cover(fit) {
        ((size.0 - ow) / 2, (size.1 - oh) / 2)
    } else if is_contain(fit) {
        ((ow - size.0) / 2, (oh - size.1) / 2)
    } else {
        (0, 0)
    }
}

/// The geometry of one fit.
#[derive(Clone, Copy, Debug, PartialEq, Eq, Structural)]
pub struct FitPlan {
    pub resize_w: u32,
    pub resize_h: u32,
    pub x: u32,
    pub y: u32,
}

/// `p` is the plan for fitting an `sw` by `sh` image to an `ow` by `oh` output.
pub open spec fn is_plan(p: FitPlan, sw: int, sh: int, ow: int, oh: int, fit: FitMode) -> bool {
    let size = resized_size(sw, sh, ow, oh, fit);
    &&& (p.resize_w as int, p.resize_h as int) == size
    &&& (p.x as int, p.y as int) == fit_offset(size, ow, oh, fit)
}

/// The plan for fitting an `sw` by `sh` image to an `ow` by `oh` output.
pub open spec fn planned_fit(sw: int, sh: int, ow: int, oh: int, fit: FitMode) -> FitPlan {
    let size = resized_size(sw, sh, ow, oh, fit);
    let off = fit_offset(size, ow, oh, fit);
    FitPlan { resize_w: size.0 as u32, resize_h: size.1 as u32, x: off.0 as u32, y: off.1 as u32 }
}

/// The resampled image of the plan is addressable and small enough to hold.
pub open spec fn plan_fits(sw: int, sh: int, ow: int, oh: int, fit: FitMode) -> bool {
    let size = resized_size(sw, sh, ow, oh, fit);
    size.0 <= u32::MAX && size.1 <= u32::MAX && 4 * size.0 * size.1 <= MAX_IMAGE_BYTES
}

/// Plans the fit of an `sw` by `sh` image to an `ow` by `oh` output; `None` when the resampled
/// size does not fit in 32 bits.
pub fn fit_plan(sw: u32, sh: u32, ow: u32, oh: u32, fit: FitMode) -> (r: Option<FitPlan>)
    requires
        sw >= 1,
        sh >= 1,
        ow >= 1,
        oh >= 1,
    ensures
        match r {
            Some(p) => is_plan(p, sw as int, sh as int, ow as int, oh as int, fit) && p
                == planned_fit(sw as int, sh as int, ow as int, oh as int, fit),
            None => {
                let size = resized_size(sw as int, sh as int, ow as int, oh as int, fit);
                size.0 > u32::MAX || size.1 > u32::MAX
            },
        },
{
    let w = sw as u128;
    let h = sh as u128;
    let a = ow as u128;
    let b = oh as u128;
    proof {
        assert(a * h <= 0xffff_ffff * 0xffff_ffffu128) by (nonlinear_arith)
            requires
                a <= 0xffff_ffff,
                h <= 0xffff_ffff,
        ;
        assert(b * w <= 0xffff_ffff * 0xffff_ffffu128) by (nonlinear_arith)
            requires
                b <= 0xffff_ffff,
                w <= 0xffff_ffff,
        ;
        assert(h * a == a * h && w * b == b * w) by (nonlinear_arith);
    }
    let (rw, rh): (u128, u128) = match fit {
        FitMode::Fill | FitMode::Cover => if a * h >= b * w {
            let c = (h * a + w - 1) / w;
            (a, if c >= b { c } else { b })
        } else {
            let c = (w * b + h - 1) / h;
            (if c >= a { c } else { a }, b)
        },
        FitMode::Fit | FitMode::Contain => if a * h <= b * w {
            let c = (2 * (h * a) + w) / (2 * w);
            (a, if c >= 1 { c } else { 1 })
        } else {
            let c = (2 * (w * b) + h) / (2 * h);
            (if c >= 1 { c } else { 1 }, b)
        },
        FitMode::Stretch => (a, b),
    };
    if rw > 0xffff_ffff || rh > 0xffff_ffff {
        return None;
    }
    let (x, y): (u128, u128) = match fit {
        FitMode::Fill | FitMode::Cover => ((rw - a) / 2, (rh - b) / 2),
        FitMode::Fit | FitMode::Contain => {
            proof {
                lemma_contain_within(w as int, h as int, a as int, b as int);
            }
            ((a - rw) / 2, (b - rh) / 2)
        },
        FitMode::Stretch => (0, 0),
    };
    Some(FitPlan { resize_w: rw as u32, resize_h: rh as u32, x: x as u32, y: y as u32 })
}

/// The contain size never exceeds the output.
pub proof fn lemma_contain_within(sw: int, sh: int, ow: int, oh: int)
    requires
        sw >= 1,
        sh >= 1,
        ow >= 1,
        oh >= 1,
    ensures
        ({
            let size = resized_size(sw, sh, ow, oh, FitMode::Contain);
            1 <= size.0 <= ow && 1 <= size.1 <= oh
        }),
{
    if ow * sh <= oh * sw {
        lemma_round_at_most(sh * ow, sw, oh);
    } else {
        lemma_round_at_most(sw * oh, sh, ow);
    }
}

proof fn lemma_round_at_most(a: int, b: int, bound: int)
    requires
        b >= 1,
        a >= 0,
        bound >= 1,
        a <= bound * b,
    ensures
        round_div(a, b) <= bound,
{
    assert((2 * a + b) / (2 * b) <= bound) by (nonlinear_arith)
        requires
            b >= 1,
            a >= 0,
            bound >= 1,
            a <= bound * b,
    {
        vstd::arithmetic::div_mod::lemma_div_is_ordered(2 * a + b, 2 * bound * b + b, 2 * b);
        vstd::arithmetic::div_mod::lemma_fundamental_div_mod(2 * bound * b + b, 2 * b);
        vstd::arithmetic::div_mod::lemma_mod_bound(2 * bound * b + b, 2 * b);
    }
}

/// Copies the `w` by `h` window with its corner at (`x`, `y`) out of an `sw` by `sh` RGBA image.
pub fn crop_rgba(src: &Vec<u8>, sw: u32, sh: u32, x: u32, y: u32, w: u32, h: u32) -> (r: Vec<u8>)
    requires
        src@.len() == 4 * sw * sh,
        x + w <= sw,
        y + h <= sh,
    ensures
        r@.len() == 4 * w * h,
        forall|row: int, j: int|
            0 <= row < h && 0 <= j < 4 * w ==> #[trigger] r@[row * (4 * w) + j] == src@[(y + row) * (4
                * sw) + 4 * x + j],
{
    if h == 0 {
        return Vec::new();
    }
    proof {
        assert(4 * sw <= 4 * sw * sh) by (nonlinear_arith)
            requires
                sh >= 1,
        ;
    }
    let src_len = src.len();
    let line = 4 * (sw as usize);
    let width = 4 * (w as usize);
    let left = 4 * (x as usize);
    let mut out: Vec<u8> = Vec::new();
    let mut row: usize = 0;
    proof {
        assert(4 * sw * sh == line * sh) by (nonlinear_arith)
            requires
                line == 4 * sw,
        ;
    }
    while row < h as usize
        invariant
            src_len == src@.len(),
            src@.len() == line * sh,
            line == 4 * sw,
            width == 4 * w,
            left == 4 * x,
            x + w <= sw,
            y + h <= sh,
            0 <= row <= h,
            out@.len() == row * width,
            forall|r: int, j: int|
                0 <= r < row && 0 <= j < width ==> #[trigger] out@[r * width + j] == src@[(y + r)
                    * line + left + j],
        decreases h - row,
    {
        proof {
            assert((y + row) * line + left + width <= line * sh) by (nonlinear_arith)
                requires
                    y + row < sh,
                    left + width <= line,
                    line == 4 * sw,
                    left == 4 * x,
                    width == 4 * w,
                    x + w <= sw,
            ;
            assert((row + 1) * width == row * width + width) by (nonlinear_arith);
        }
        let start = ((y as usize) + row) * line + left;
        let ghost before = out@;
        out.extend_from_slice(&src[start..start + width]);
        proof {
            assert forall|r: int, j: int|
                0 <= r < row + 1 && 0 <= j < width implies #[trigger] out@[r * width + j] == src@[(y
                    + r) * line + left + j] by {
                if r < row {
                    assert(r * width + j < row * width) by (nonlinear_arith)
                        requires
                            r < row,
                            j < width,
                    ;
                    assert(out@[r * width + j] == before[r * width + j]);
                } else {
                    assert(out@[row * width + j] == src@[start + j]);
                }
            }
        }
        row = row + 1;
    }
    proof {
        assert(out@.len() == 4 * w * h) by (nonlinear_arith)
            requires
                out@.len() == row * width,
                row == h,
                width == 4 * w,
        ;
    }
    out
}

/// Opaque black RGBA bytes: `[0, 0, 0, 255]` repeated.
pub open spec fn black_bytes(n: int) -> Seq<u8> {
    Seq::new(n as nat, |i: int| if i % 4 == 3 { 255u8 } else { 0u8 })
}

/// The same RGBA bytes with every alpha byte set to opaque.
pub open spec fn opaque_of(s: Seq<u8>) -> Seq<u8> {
    Seq::new(s.len(), |i: int| if i % 4 == 3 { 255u8 } else { s[i] })
}

fn black_canvas(n: usize) -> (r: Vec<u8>)
    ensures
        r@ == black_bytes(n as int),
{
    let mut v: Vec<u8> = Vec::with_capacity(n);
    while v.len() < n
        invariant
            v@.len() <= n,
            forall|i: int| 0 <= i < v@.len() ==> #[trigger] v@[i] == black_bytes(n as int)[i],
        decreases n - v@.len(),
    {
        if v.len() % 4 == 3 {
            v.push(255);
        } else {
            v.push(0);
        }
    }
    proof {
        assert(v@ =~= black_bytes(n as int));
    }
    v
}

/// Sets every alpha byte of RGBA bytes to opaque.
fn make_opaque(v: &mut Vec<u8>)
    ensures
        final(v)@ == opaque_of(old(v)@),
{
    let ghost before = v@;
    let mut i: usize = 0;
    while i < v.len()
        invariant
            v@.len() == before.len(),
            0 <= i <= v@.len(),
            forall|j: int| 0 <= j < i ==> #[trigger] v@[j] == opaque_of(before)[j],
            forall|j: int| i <= j < v@.len() ==> #[trigger] v@[j] == before[j],
        decreases v@.len() - i,
    {
        if i % 4 == 3 {
            v.set(i, 255);
        }
        i = i + 1;
    }
    proof {
        assert(v@ =~= opaque_of(before));
    }
}

/// An RGBA image: four bytes per pixel, row after row.
#[derive(Debug)]
pub struct RgbaFrame {
    pub width: u32,
    pub height: u32,
    pub pixels: Vec<u8>,
}

/// A decoded still image: its size and its RGBA bytes.
#[derive(Debug)]
pub struct SourceImage {
    pub width: u32,
    pub height: u32,
    pub pixels: Vec<u8>,
}

/// The image has pixels, four bytes each, row after row.
pub open spec fn source_ok(img: SourceImage) -> bool {
    img.width >= 1 && img.height >= 1 && img.pixels@.len() == 4 * img.width * img.height
}

/// Why an image could not be fitted.
#[derive(Clone, Copy, Debug, PartialEq, Eq, Structural)]
pub enum FitError {
    /// The output has no pixels.
    BadGeometry,
    /// The decoded image has no pixels, or its bytes do not match its size.
    BadSource,
    /// The fitted or resampled image would not fit in memory.
    TooLarge,
}

/// Every output pixel outside the placed image is opaque black.
pub open spec fn black_outside(pixels: Seq<u8>, ow: int, oh: int, p: FitPlan) -> bool {
    forall|px: int, py: int, k: int|
        0 <= px < ow && 0 <= py < oh && 0 <= k < 4 && !inside(
            px,
            py,
            p.x as int,
            p.y as int,
            p.resize_w as int,
            p.resize_h as int,
        ) ==> #[trigger] pixels[4 * (py * ow + px) + k] == (if k == 3 {
            255u8
        } else {
            0u8
        })
}

/// Every pixel of an `ow` by `oh` frame is opaque.
pub open spec fn all_opaque(pixels: Seq<u8>, ow: int, oh: int) -> bool {
    forall|px: int, py: int|
        0 <= px < ow && 0 <= py < oh ==> #[trigger] pixels[4 * (py * ow + px) + 3] == 255
}

/// Row `r` of the `ow` wide frame `pixels` is the `ow` pixels of row `p.y + r` of the resampled
/// image `resized`, from column `p.x` on.
pub open spec fn cropped_from(pixels: Seq<u8>, resized: Seq<u8>, p: FitPlan, ow: int, oh: int) -> bool {
    forall|row: int, j: int|
        0 <= row < oh && 0 <= j < 4 * ow ==> #[trigger] pixels[row * (4 * ow) + j] == resized[(p.y
            + row) * (4 * p.resize_w) + 4 * p.x + j]
}

/// What a successful fit holds: the output's size, opaque pixels, and per mode the resampled
/// image of this source, stretched, centred on black, or cropped around its centre.
pub open spec fn fitted(f: RgbaFrame, image: SourceImage, out_w: u32, out_h: u32, fit: FitMode) -> bool {
    let (ow, oh) = (out_w as int, out_h as int);
    let p = planned_fit(image.width as int, image.height as int, ow, oh, fit);
    let resampled = lanczos3_of(image.pixels@, image.width, image.height, p.resize_w, p.resize_h);
    &&& f.width == out_w
    &&& f.height == out_h
    &&& f.pixels@.len() == 4 * ow * oh
    &&& all_opaque(f.pixels@, ow, oh)
    &&& fit == FitMode::Stretch ==> p.resize_w == out_w && p.resize_h == out_h && f.pixels@
        == opaque_of(resampled)
    &&& is_cover(fit) ==> cropped_from(f.pixels@, opaque_of(resampled), p, ow, oh)
    &&& is_contain(fit) ==> f.pixels@ == opaque_of(
        overlaid(black_bytes(4 * ow * oh), out_w, out_h, resampled, p.resize_w, p.resize_h, p.x, p.y),
    ) && black_outside(f.pixels@, ow, oh, p)
}

proof fn lemma_alpha_index(px: int, py: int, ow: int, oh: int)
    requires
        0 <= px < ow,
        0 <= py < oh,
    ensures
        (4 * (py * ow + px) + 3) % 4 == 3,
        4 * (py * ow + px) + 3 < 4 * ow * oh,
        4 * (py * ow + px) + 3 == py * (4 * ow) + (4 * px + 3),
{
    assert(4 * (py * ow + px) + 3 < 4 * ow * oh) by (nonlinear_arith)
        requires
            0 <= px < ow,
            0 <= py < oh,
    ;
    assert(4 * (py * ow + px) + 3 == py * (4 * ow) + (4 * px + 3)) by (nonlinear_arith);
}

/// Fits a decoded image to an `out_w` by `out_h` output under `fit`.
pub fn render_image_fit(image: &SourceImage, out_w: u32, out_h: u32, fit: FitMode) -> (r: Result<
    RgbaFrame,
    FitError,
>)
    ensures
        match r {
            Ok(f) => fitted(f, *image, out_w, out_h, fit),
            Err(e) => if out_w == 0 || out_h == 0 {
                e == FitError::BadGeometry
            } else if 4 * out_w * out_h > MAX_IMAGE_BYTES {
                e == FitError::TooLarge
            } else if !source_ok(*image) {
                e == FitError::BadSource
            } else {
                e == FitError::TooLarge && !plan_fits(
                    image.width as int,
                    image.height as int,
                    out_w as int,
                    out_h as int,
                    fit,
                )
            },
        },
{
    if out_w == 0 || out_h == 0 {
        return Err(FitError::BadGeometry);
    }
    let ow = out_w as u128;
    let oh = out_h as u128;
    proof {
        assert(4 * ow * oh <= 4 * 0xffff_ffff * 0xffff_ffffu128) by (nonlinear_arith)
            requires
                ow <= 0xffff_ffff,
                oh <= 0xffff_ffff,
        ;
    }
    if 4 * ow * oh > MAX_IMAGE_BYTES as u128 {
        return Err(FitError::TooLarge);
    }
    let sw = image.width;
    let sh = image.height;
    if sw == 0 || sh == 0 {
        return Err(FitError::BadSource);
    }
    let sw128 = sw as u128;
    let sh128 = sh as u128;
    proof {
        assert(4 * sw128 * sh128 <= 4 * 0xffff_ffff * 0xffff_ffffu128) by (nonlinear_arith)
            requires
                sw128 <= 0xffff_ffff,
                sh128 <= 0xffff_ffff,
        ;
    }
    if image.pixels.len() as u128 != 4 * sw128 * sh128 {
        return Err(FitError::BadSource);
    }
    let plan = match fit_plan(sw, sh, out_w, out_h, fit) {
        Some(p) => p,
        None => {
            return Err(FitError::TooLarge);
        },
    };
    let rw = plan.resize_w as u128;
    let rh = plan.resize_h as u128;
    proof {
        assert(4 * rw * rh <= 4 * 0xffff_ffff * 0xffff_ffffu128) by (nonlinear_arith)
            requires
                rw <= 0xffff_ffff,
                rh <= 0xffff_ffff,
        ;
    }
    if 4 * rw * rh > MAX_IMAGE_BYTES as u128 {
        return Err(FitError::TooLarge);
    }
    proof {
        if is_contain(fit) {
            lemma_contain_within(sw as int, sh as int, out_w as int, out_h as int);
        } else if is_cover(fit) {
            lemma_cover_covers(sw as int, sh as int, out_w as int, out_h as int);
        }
    }
    let ghost p = planned_fit(sw as int, sh as int, out_w as int, out_h as int, fit);
    let mut resampled = resize_lanczos3(&image.pixels, sw, sh, plan.resize_w, plan.resize_h);
    let ghost named = resampled@;
    let pixels = match fit {
        FitMode::Stretch => {
            make_opaque(&mut resampled);
            proof {
                assert forall|px: int, py: int|
                    0 <= px < out_w && 0 <= py < out_h implies #[trigger] resampled@[4 * (py * out_w
                    + px) + 3] == 255 by {
                    lemma_alpha_index(px, py, out_w as int, out_h as int);
                }
            }
            resampled
        },
        FitMode::Fit | FitMode::Contain => {
            let mut canvas = black_canvas((4 * ow * oh) as usize);
            let ghost blank = canvas@;
            overlay_rgba(
                &mut canvas,
                out_w,
                out_h,
                &resampled,
                plan.resize_w,
                plan.resize_h,
                plan.x,
                plan.y,
            );
            let ghost placed = canvas@;
            make_opaque(&mut canvas);
            proof {
                assert forall|px: int, py: int|
                    0 <= px < out_w && 0 <= py < out_h implies #[trigger] canvas@[4 * (py * out_w
                    + px) + 3] == 255 by {
                    lemma_alpha_index(px, py, out_w as int, out_h as int);
                }
                assert forall|px: int, py: int, k: int|
                    0 <= px < out_w && 0 <= py < out_h && 0 <= k < 4 && !inside(
                        px,
                        py,
                        plan.x as int,
                        plan.y as int,
                        plan.resize_w as int,
                        plan.resize_h as int,
                    ) implies #[trigger] canvas@[4 * (py * out_w + px) + k] == (if k == 3 {
                    255u8
                } else {
                    0u8
                }) by {
                    let i = 4 * (py * out_w + px) + k;
                    lemma_alpha_index(px, py, out_w as int, out_h as int);
                    assert(i % 4 == k);
                    assert(placed[i] == blank[i]);
                }
            }
            canvas
        },
        FitMode::Fill | FitMode::Cover => {
            make_opaque(&mut resampled);
            let out = crop_rgba(&resampled, plan.resize_w, plan.resize_h, plan.x, plan.y, out_w, out_h);
            proof {
                let lo = resampled@;
                assert(cropped_from(out@, lo, plan, out_w as int, out_h as int));
                assert forall|px: int, py: int|
                    0 <= px < out_w && 0 <= py < out_h implies #[trigger] out@[4 * (py * out_w
                    + px) + 3] == 255 by {
                    lemma_alpha_index(px, py, out_w as int, out_h as int);
                    let j = 4 * px + 3;
                    assert(out@[py * (4 * out_w) + j] == lo[(plan.y + py) * (4 * plan.resize_w) + 4
                        * plan.x + j]);
                    let k = (plan.y + py) * (4 * plan.resize_w) + 4 * plan.x + j;
                    assert(k == 4 * ((plan.y + py) * plan.resize_w + plan.x + px) + 3) by (nonlinear_arith)
                        requires
                            k == (plan.y + py) * (4 * plan.resize_w) + 4 * plan.x + j,
                            j == 4 * px + 3,
                    ;
                    assert(k < 4 * plan.resize_w * plan.resize_h) by (nonlinear_arith)
                        requires
                            k == 4 * ((plan.y + py) * plan.resize_w + plan.x + px) + 3,
                            plan.y + py < plan.resize_h,
                            plan.x + px < plan.resize_w,
                            0 <= px,
                            0 <= py,
                    ;
                    assert(k % 4 == 3);
                }
            }
            out
        },
    };
    Ok(RgbaFrame { width: out_w, height: out_h, pixels })
}

/// Cover never letterboxes: the resampled image is at least as large as the output each way,
/// and the centred crop window lies inside it.
pub proof fn lemma_cover_covers(sw: int, sh: int, ow: int, oh: int)
    requires
        sw >= 1,
        sh >= 1,
        ow >= 1,
        oh >= 1,
    ensures
        ({
            let size = resized_size(sw, sh, ow, oh, FitMode::Cover);
            let off = fit_offset(size, ow, oh, FitMode::Cover);
            &&& size.0 >= ow && size.1 >= oh
            &&& 0 <= off.0 && off.0 + ow <= size.0
            &&& 0 <= off.1 && off.1 + oh <= size.1
        }),
{
}

/// Contain keeps the aspect ratio to within a pixel: one side matches the output, and the other
/// is within one pixel of the exact scaled length; the centred image lies inside the output.
pub proof fn lemma_contain_keeps_aspect(sw: int, sh: int, ow: int, oh: int)
    requires
        sw >= 1,
        sh >= 1,
        ow >= 1,
        oh >= 1,
    ensures
        ({
            let size = resized_size(sw, sh, ow, oh, FitMode::Contain);
            let off = fit_offset(size, ow, oh, FitMode::Contain);
            &&& (size.0 == ow && -sw <= size.1 * sw - sh * ow <= sw) || (size.1 == oh && -sh
                <= size.0 * sh - sw * oh <= sh)
            &&& 0 <= off.0 && off.0 + size.0 <= ow
            &&& 0 <= off.1 && off.1 + size.1 <= oh
        }),
{
    lemma_contain_within(sw, sh, ow, oh);
    if ow * sh <= oh * sw {
        lemma_round_close(sh * ow, sw);
    } else {
        lemma_round_close(sw * oh, sh);
    }
}

proof fn lemma_round_close(a: int, b: int)
    requires
        a >= 0,
        b >= 1,
    ensures
        -b <= max_int(round_div(a, b), 1) * b - a <= b,
{
    let q = (2 * a + b) / (2 * b);
    vstd::arithmetic::div_mod::lemma_fundamental_div_mod(2 * a + b, 2 * b);
    vstd::arithmetic::div_mod::lemma_mod_bound(2 * a + b, 2 * b);
    let rem = (2 * a + b) % (2 * b);
    assert(-b <= q * b - a <= b) by (nonlinear_arith)
        requires
            2 * a + b == 2 * b * q + rem,
            0 <= rem < 2 * b,
            b >= 1,
    ;
    if q < 1 {
        assert(q >= 0) by (nonlinear_arith)
            requires
                2 * a + b == 2 * b * q + rem,
                rem < 2 * b,
                a >= 0,
                b >= 1,
        ;
        assert(q == 0);
        assert(2 * b * q == 0) by (nonlinear_arith)
            requires
                q == 0,
        ;
        assert(2 * a + b == rem);
        assert(max_int(round_div(a, b), 1) == 1);
    }
}

/// Every fitted frame is exactly the output's size, `4 * out_w` bytes to a row.
pub proof fn lemma_fitted_frame_size(f: RgbaFrame, out_w: u32, out_h: u32)
    requires
        f.width == out_w,
        f.height == out_h,
        f.pixels@.len() == 4 * out_w * out_h,
    ensures
        f.pixels@.len() == (4 * f.width) * f.height,
{
    assert(4 * out_w * out_h == (4 * out_w) * out_h) by (nonlinear_arith);
}

} // verus!
