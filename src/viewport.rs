//! Scaling and center-cropping a content image to fill a viewport.
use vstd::prelude::*;
use vstd::arithmetic::div_mod::lemma_fundamental_div_mod;
use image::{imageops, ImageBuffer, RgbaImage};
use crate::color::Color;
use crate::pixels::{PixelGrid, Rect, grid_of, lemma_grid_index};

verus! {

/// The largest pixel count of a resampled image or of its intermediate.
pub const MAX_PIXELS: u64 = 1099511627776;

/// `a / b`, rounded up.
pub open spec fn ceil_div(a: int, b: int) -> int {
    (a + b - 1) / b
}

/// The viewport is at least as wide, relative to its height, as a
/// `width x height` image.
pub open spec fn viewport_wider(viewport: Rect, width: int, height: int) -> bool {
    viewport.width * height >= width * viewport.height
}

/// The width a `width x height` image is scaled to: the viewport's width
/// when the viewport is relatively wider, else the width that keeps the
/// aspect ratio at the viewport's height, rounded up.
pub open spec fn scaled_width(viewport: Rect, width: int, height: int) -> int {
    if viewport_wider(viewport, width, height) {
        viewport.width as int
    } else {
        ceil_div(width * viewport.height, height)
    }
}

/// The height a `width x height` image is scaled to; see `scaled_width`.
pub open spec fn scaled_height(viewport: Rect, width: int, height: int) -> int {
    if viewport_wider(viewport, width, height) {
        ceil_div(height * viewport.width, width)
    } else {
        viewport.height as int
    }
}

/// Both images are non-empty and the resampled image fits the size limits.
pub open spec fn fit_in_limits(viewport: Rect, content: PixelGrid) -> bool {
    let sw = scaled_width(viewport, content.width as int, content.height as int);
    let sh = scaled_height(viewport, content.width as int, content.height as int);
    &&& content.width >= 1
    &&& content.height >= 1
    &&& viewport.width >= 1
    &&& viewport.height >= 1
    &&& sw <= u32::MAX
    &&& sh <= u32::MAX
    &&& content.width * sh <= MAX_PIXELS
    &&& sw * sh <= MAX_PIXELS
}

/// What Catmull-Rom resampling makes of a `width x height` image at
/// `new_width x new_height`.
pub uninterp spec fn catmull_rom_resized(
    pixels: Seq<Color>,
    width: nat,
    height: nat,
    new_width: nat,
    new_height: nat,
) -> Seq<Color>;

/// Relies on `image::imageops::resize` with `FilterType::CatmullRom`: the
/// result has the requested size, and its pixels depend on the source pixels
/// and the two sizes alone. It allocates a `width x new_height` intermediate.
#[verifier::external_body]
fn resize_catmull_rom(img: &PixelGrid, new_width: u32, new_height: u32) -> (r: PixelGrid)
    requires
        img.wf(),
        img.width * new_height <= MAX_PIXELS,
        new_width * new_height <= MAX_PIXELS,
    ensures
        r.wf(),
        r.width == new_width,
        r.height == new_height,
        r.pixels@ == catmull_rom_resized(
            img.pixels@,
            img.width as nat,
            img.height as nat,
            new_width as nat,
            new_height as nat,
        ),
{
    let raw: Vec<u8> = img.pixels.iter().flat_map(|c| [c.r, c.g, c.b, c.a]).collect();
    let source: RgbaImage = ImageBuffer::from_raw(img.width, img.height, raw).unwrap();
    let out = imageops::resize(&source, new_width, new_height, imageops::FilterType::CatmullRom);
    let pixels: Vec<Color> = out.pixels().map(|p| Color { r: p[0], g: p[1], b: p[2], a: p[3] }).collect();
    PixelGrid { width: new_width, height: new_height, pixels }
}

/// Bounds on a rounded-up quotient.
pub(crate) proof fn lemma_ceil_div_bounds(a: int, b: int, c: int)
    requires
        a >= 0,
        b >= 1,
    ensures
        ceil_div(a, b) <= a,
        a >= b * c ==> ceil_div(a, b) >= c,
        ceil_div(a, b) >= 0,
{
    lemma_fundamental_div_mod(a + b - 1, b);
    let q = (a + b - 1) / b;
    let r = (a + b - 1) % b;
    assert(q <= a) by (nonlinear_arith)
        requires
            a + b - 1 == b * q + r,
            0 <= r < b,
            a >= 0,
            b >= 1,
    ;
    assert(q >= 0) by (nonlinear_arith)
        requires
            a + b - 1 == b * q + r,
            0 <= r < b,
            a >= 0,
            b >= 1,
    ;
    if a >= b * c {
        assert(q >= c) by (nonlinear_arith)
            requires
                a + b - 1 == b * q + r,
                0 <= r < b,
                a >= b * c,
                b >= 1,
        ;
    }
}

/// Scales `img` with its aspect ratio kept until it covers the viewport in
/// both dimensions, touching it in at least one.
pub fn scale_to_fill_viewport(viewport: Rect, img: &PixelGrid) -> (r: PixelGrid)
    requires
        img.wf(),
        fit_in_limits(viewport, *img),
    ensures
        r.wf(),
        r.width == scaled_width(viewport, img.width as int, img.height as int),
        r.height == scaled_height(viewport, img.width as int, img.height as int),
        r.width >= viewport.width,
        r.height >= viewport.height,
        r.pixels@ == catmull_rom_resized(
            img.pixels@,
            img.width as nat,
            img.height as nat,
            r.width as nat,
            r.height as nat,
        ),
{
    let w = img.width as u64;
    let h = img.height as u64;
    let vw = viewport.width as u64;
    let vh = viewport.height as u64;
    assert(vw * h <= 0xFFFF_FFFE_0000_0001 && w * vh <= 0xFFFF_FFFE_0000_0001 && h * vw
        <= 0xFFFF_FFFE_0000_0001) by (nonlinear_arith)
        requires
            w <= u32::MAX,
            h <= u32::MAX,
            vw <= u32::MAX,
            vh <= u32::MAX,
    ;
    if vw * h >= w * vh {
        let sh: u64 = (h * vw + w - 1) / w;
        proof {
            lemma_ceil_div_bounds(h * vw, w as int, vh as int);
            assert(h * vw >= w * vh) by (nonlinear_arith)
                requires
                    vw * h >= w * vh,
            ;
        }
        resize_catmull_rom(img, viewport.width, sh as u32)
    } else {
        let sw: u64 = (w * vh + h - 1) / h;
        proof {
            lemma_ceil_div_bounds(w * vh, h as int, vw as int);
            assert(w * vh >= h * vw) by (nonlinear_arith)
                requires
                    vw * h < w * vh,
            ;
        }
        resize_catmull_rom(img, sw as u32, viewport.height)
    }
}

/// Where a centered crop of `size` out of `extent` starts.
pub open spec fn crop_origin(extent: int, size: int) -> int {
    if extent > size {
        (extent - size) / 2
    } else {
        0
    }
}

/// The smaller of two extents.
pub open spec fn min_extent(a: int, b: int) -> int {
    if a <= b {
        a
    } else {
        b
    }
}

/// The centered crop of a `width x height` image to the viewport's size: in
/// each dimension the smaller of the viewport's and the image's extent,
/// centered, with the half pixel of an odd surplus cut off at the far edge.
pub open spec fn cropped(pixels: Seq<Color>, width: nat, height: nat, viewport: Rect) -> Seq<Color> {
    let x0 = crop_origin(width as int, viewport.width as int);
    let y0 = crop_origin(height as int, viewport.height as int);
    grid_of(
        min_extent(viewport.width as int, width as int) as nat,
        min_extent(viewport.height as int, height as int) as nat,
        |i: int, j: int| pixels[(y0 + j) * width + (x0 + i)],
    )
}

/// Crops `img` to the viewport's size, centered.
///
/// Both dimensions take the smaller of the viewport's and the image's
/// extent. A crop whose height took the larger one instead would be clamped
/// to the image and hold rows below the viewport's height; compositing reads
/// only the first `viewport.height` rows, so tokens come out the same either
/// way, and this crop has exactly the viewport's size whenever the image
/// covers the viewport.
pub fn crop_to_viewport(viewport: Rect, img: &PixelGrid) -> (r: PixelGrid)
    requires
        img.wf(),
    ensures
        r.wf(),
        r.width == min_extent(viewport.width as int, img.width as int),
        r.height == min_extent(viewport.height as int, img.height as int),
        r.pixels@ == cropped(img.pixels@, img.width as nat, img.height as nat, viewport),
{
    let x0: u32 = if img.width > viewport.width { (img.width - viewport.width) / 2 } else { 0 };
    let y0: u32 = if img.height > viewport.height { (img.height - viewport.height) / 2 } else { 0 };
    let cw: u32 = if viewport.width <= img.width { viewport.width } else { img.width };
    let ch: u32 = if viewport.height <= img.height { viewport.height } else { img.height };
    let ghost f = |i: int, j: int| img.pixels@[(y0 + j) * img.width + (x0 + i)];
    let ghost target = cropped(img.pixels@, img.width as nat, img.height as nat, viewport);
    assert(target == grid_of(cw as nat, ch as nat, f));
    let mut pixels: Vec<Color> = Vec::new();
    let mut j: u32 = 0;
    while j < ch
        invariant
            img.wf(),
            cw <= img.width,
            ch <= img.height,
            x0 + cw <= img.width,
            y0 + ch <= img.height,
            f == (|i: int, j: int| img.pixels@[(y0 + j) * img.width + (x0 + i)]),
            j <= ch,
            pixels@.len() == j * cw,
            forall|k: int| 0 <= k < pixels@.len() ==> #[trigger] pixels@[k] == f(k % (cw as int), k / (cw as int)),
        decreases ch - j,
    {
        let mut i: u32 = 0;
        while i < cw
            invariant
                img.wf(),
                cw <= img.width,
                ch <= img.height,
                x0 + cw <= img.width,
                y0 + ch <= img.height,
                f == (|i: int, j: int| img.pixels@[(y0 + j) * img.width + (x0 + i)]),
                j < ch,
                i <= cw,
                pixels@.len() == j * cw + i,
                forall|k: int| 0 <= k < pixels@.len() ==> #[trigger] pixels@[k] == f(k % (cw as int), k / (cw as int)),
            decreases cw - i,
        {
            let c = img.get_pixel(x0 + i, y0 + j);
            proof {
                lemma_grid_index(i as int, j as int, cw as int, ch as int);
            }
            pixels.push(c);
            i = i + 1;
        }
        assert(j * cw + cw == (j + 1) * cw) by (nonlinear_arith);
        j = j + 1;
    }
    assert(j * cw == cw * ch) by (nonlinear_arith)
        requires
            j == ch,
    ;
    assert(pixels@ =~= grid_of(cw as nat, ch as nat, f));
    PixelGrid { width: cw, height: ch, pixels }
}

/// The content image scaled to fill the viewport and cropped to it.
pub open spec fn fitted(viewport: Rect, content: PixelGrid) -> Seq<Color> {
    let sw = scaled_width(viewport, content.width as int, content.height as int);
    let sh = scaled_height(viewport, content.width as int, content.height as int);
    cropped(
        catmull_rom_resized(
            content.pixels@,
            content.width as nat,
            content.height as nat,
            sw as nat,
            sh as nat,
        ),
        sw as nat,
        sh as nat,
        viewport,
    )
}

/// Scales `content` to fill the viewport and center-crops it; the result has
/// exactly the viewport's size.
pub fn fit_to_viewport(viewport: Rect, content: &PixelGrid) -> (r: PixelGrid)
    requires
        content.wf(),
        fit_in_limits(viewport, *content),
    ensures
        r.wf(),
        r.width == viewport.width,
        r.height == viewport.height,
        r.pixels@ == fitted(viewport, *content),
{
    let scaled = scale_to_fill_viewport(viewport, content);
    crop_to_viewport(viewport, &scaled)
}

} // verus!
