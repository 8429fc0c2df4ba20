//! Mask detection and compositing of a content image into a template.
use vstd::prelude::*;
use array2d::Array2D;
use crate::color::{Color, close_enough, within_tolerance};
use crate::occupancy::{
    array_rows, grid_cell, grid_from_rows, grid_num_columns, grid_num_rows, rows_rectangular,
};
use crate::pixels::{PixelGrid, Rect, grid_of, lemma_grid_index};
use crate::viewport::{
    MAX_PIXELS, fit_in_limits, lemma_ceil_div_bounds, fit_to_viewport, fitted, scaled_height, scaled_width,
    viewport_wider,
};

verus! {

/// The bounding rectangle of the mask-colored pixels of a template, with the
/// full-size occupancy grid it was taken from.
pub struct TransparencyMask {
    pub bounds: Rect,
    pub filter: Array2D<bool>,
}

/// The occupancy grid of `image` for `mask_color`: cell `[y][x]` tells whether
/// pixel `(x, y)` lies within tolerance of the mask color.
pub open spec fn mask_rows(mask_color: Color, image: PixelGrid) -> Seq<Seq<bool>> {
    Seq::new(
        image.height as nat,
        |y: int| Seq::new(image.width as nat, |x: int| within_tolerance(mask_color, image.pixel(x, y))),
    )
}

/// Cell `(x, y)` exists and is set.
pub open spec fn has_cell(cells: Seq<Seq<bool>>, x: int, y: int) -> bool {
    0 <= y < cells.len() && 0 <= x < cells[y].len() && cells[y][x]
}

/// Some cell is set.
pub open spec fn any_cell(cells: Seq<Seq<bool>>) -> bool {
    exists|x: int, y: int| has_cell(cells, x, y)
}

/// Every set cell lies inside `b`.
pub open spec fn encloses(cells: Seq<Seq<bool>>, b: Rect) -> bool {
    forall|x: int, y: int|
        has_cell(cells, x, y) ==> b.x <= x < b.x + b.width && b.y <= y < b.y + b.height
}

/// `b` is the smallest rectangle that holds every set cell: it holds them,
/// and each of its four edges passes through one.
pub open spec fn is_bounding_box(cells: Seq<Seq<bool>>, b: Rect) -> bool {
    &&& b.width >= 1
    &&& b.height >= 1
    &&& encloses(cells, b)
    &&& exists|y: int| has_cell(cells, b.x as int, y)
    &&& exists|y: int| #[trigger] has_cell(cells, b.x + b.width - 1, y)
    &&& exists|x: int| has_cell(cells, x, b.y as int)
    &&& exists|x: int| #[trigger] has_cell(cells, x, b.y + b.height - 1)
}

/// A grid has at most one bounding box.
pub proof fn lemma_bounding_box_unique(cells: Seq<Seq<bool>>, b1: Rect, b2: Rect)
    requires
        is_bounding_box(cells, b1),
        is_bounding_box(cells, b2),
    ensures
        b1 == b2,
{
    let y1 = choose|y: int| #[trigger] has_cell(cells, b1.x as int, y);
    let y2 = choose|y: int| #[trigger] has_cell(cells, b2.x as int, y);
    let y3 = choose|y: int| #[trigger] has_cell(cells, b1.x + b1.width - 1, y);
    let y4 = choose|y: int| #[trigger] has_cell(cells, b2.x + b2.width - 1, y);
    let x1 = choose|x: int| #[trigger] has_cell(cells, x, b1.y as int);
    let x2 = choose|x: int| #[trigger] has_cell(cells, x, b2.y as int);
    let x3 = choose|x: int| #[trigger] has_cell(cells, x, b1.y + b1.height - 1);
    let x4 = choose|x: int| #[trigger] has_cell(cells, x, b2.y + b2.height - 1);
    assert(has_cell(cells, b1.x as int, y1));
    assert(has_cell(cells, b2.x as int, y2));
    assert(has_cell(cells, b1.x + b1.width - 1, y3));
    assert(has_cell(cells, b2.x + b2.width - 1, y4));
    assert(has_cell(cells, x1, b1.y as int));
    assert(has_cell(cells, x2, b2.y as int));
    assert(has_cell(cells, x3, b1.y + b1.height - 1));
    assert(has_cell(cells, x4, b2.y + b2.height - 1));
}

/// A grid whose only set cell is `(c, r)` has the 1x1 rectangle at `(c, r)`
/// as its bounding box.
pub proof fn lemma_single_cell_bounds(cells: Seq<Seq<bool>>, c: u32, r: u32, b: Rect)
    requires
        has_cell(cells, c as int, r as int),
        forall|x: int, y: int| has_cell(cells, x, y) ==> x == c && y == r,
        is_bounding_box(cells, b),
    ensures
        b == (Rect { x: c, y: r, width: 1, height: 1 }),
{
    let y1 = choose|y: int| #[trigger] has_cell(cells, b.x as int, y);
    let y3 = choose|y: int| #[trigger] has_cell(cells, b.x + b.width - 1, y);
    let x1 = choose|x: int| #[trigger] has_cell(cells, x, b.y as int);
    let x3 = choose|x: int| #[trigger] has_cell(cells, x, b.y + b.height - 1);
    assert(has_cell(cells, b.x as int, y1));
    assert(has_cell(cells, b.x + b.width - 1, y3));
    assert(has_cell(cells, x1, b.y as int));
    assert(has_cell(cells, x3, b.y + b.height - 1));
}

/// The occupancy grid of `image` for `mask_color`, one row per pixel row.
pub fn create_filter_from_color(mask_color: Color, image: &PixelGrid) -> (filter: Array2D<bool>)
    requires
        image.wf(),
    ensures
        array_rows(filter) == mask_rows(mask_color, *image),
{
    let ghost target = mask_rows(mask_color, *image);
    let mut rows: Vec<Vec<bool>> = Vec::new();
    let mut y: u32 = 0;
    while y < image.height
        invariant
            image.wf(),
            target == mask_rows(mask_color, *image),
            y <= image.height,
            rows@.len() == y,
            forall|i: int| 0 <= i < y ==> (#[trigger] rows@[i])@ == target[i],
        decreases image.height - y,
    {
        let mut row: Vec<bool> = Vec::new();
        let mut x: u32 = 0;
        while x < image.width
            invariant
                image.wf(),
                y < image.height,
                x <= image.width,
                row@.len() == x,
                forall|j: int|
                    0 <= j < x ==> #[trigger] row@[j] == within_tolerance(
                        mask_color,
                        image.pixel(j, y as int),
                    ),
            decreases image.width - x,
        {
            let c = image.get_pixel(x, y);
            row.push(close_enough(mask_color, c));
            x = x + 1;
        }
        assert(row@ =~= target[y as int]);
        rows.push(row);
        y = y + 1;
    }
    let ghost seen = rows@.map_values(|v: Vec<bool>| v@);
    assert(seen =~= target);
    assert(rows_rectangular(seen)) by {
        assert forall|i: int| 0 <= i < seen.len() implies #[trigger] seen[i].len() == seen[0].len() by {
            assert(seen[i] == target[i]);
            assert(seen[0] == target[0]);
        }
    }
    grid_from_rows(&rows)
}

/// The scan of the cells before `(px, py)` in row-major order has found what
/// `found`, the edges and their witnesses record.
spec fn scan_ok(
    cells: Seq<Seq<bool>>,
    px: int,
    py: int,
    found: bool,
    left: int,
    right: int,
    top: int,
    bottom: int,
    wl: int,
    wr: int,
    wt: int,
    wb: int,
) -> bool {
    &&& !found ==> forall|x: int, y: int|
        (y < py || (y == py && x < px)) ==> !has_cell(cells, x, y)
    &&& found ==> {
        &&& forall|x: int, y: int|
            (y < py || (y == py && x < px)) && has_cell(cells, x, y) ==> left <= x <= right && top
                <= y <= bottom
        &&& has_cell(cells, left, wl)
        &&& has_cell(cells, right, wr)
        &&& has_cell(cells, wt, top)
        &&& has_cell(cells, wb, bottom)
        &&& top <= py
        &&& bottom <= py
    }
}

/// The bounding rectangle of the set cells of `mask`, or `None` when no cell
/// is set.
pub fn find_mask_bounds(mask: &Array2D<bool>) -> (bounds: Option<Rect>)
    requires
        array_rows(*mask).len() <= u32::MAX,
        forall|i: int| 0 <= i < array_rows(*mask).len() ==> #[trigger] array_rows(*mask)[i].len() <= u32::MAX,
    ensures
        bounds is None <==> !any_cell(array_rows(*mask)),
        bounds matches Some(b) ==> is_bounding_box(array_rows(*mask), b),
{
    let ghost cells = array_rows(*mask);
    let nrows = grid_num_rows(mask);
    let ncols = grid_num_columns(mask);
    let mut found = false;
    let mut left: usize = 0;
    let mut right: usize = 0;
    let mut top: usize = 0;
    let mut bottom: usize = 0;
    let ghost mut wl: int = 0;
    let ghost mut wr: int = 0;
    let ghost mut wt: int = 0;
    let ghost mut wb: int = 0;
    let mut y: usize = 0;
    while y < nrows
        invariant
            cells == array_rows(*mask),
            nrows == cells.len(),
            forall|i: int| 0 <= i < cells.len() ==> #[trigger] cells[i].len() == ncols,
            y <= nrows,
            scan_ok(cells, 0, y as int, found, left as int, right as int, top as int, bottom as int, wl, wr, wt, wb),
        decreases nrows - y,
    {
        let mut x: usize = 0;
        while x < ncols
            invariant
                cells == array_rows(*mask),
                nrows == cells.len(),
                forall|i: int| 0 <= i < cells.len() ==> #[trigger] cells[i].len() == ncols,
                y < nrows,
                x <= ncols,
                scan_ok(cells, x as int, y as int, found, left as int, right as int, top as int, bottom as int, wl, wr, wt, wb),
            decreases ncols - x,
        {
            if grid_cell(mask, y, x) {
                if !found {
                    found = true;
                    left = x;
                    right = x;
                    top = y;
                    bottom = y;
                    proof {
                        wl = y as int;
                        wr = y as int;
                        wt = x as int;
                        wb = x as int;
                    }
                } else {
                    if x < left {
                        left = x;
                        proof {
                            wl = y as int;
                        }
                    }
                    if x > right {
                        right = x;
                        proof {
                            wr = y as int;
                        }
                    }
                    bottom = y;
                    proof {
                        wb = x as int;
                    }
                }
            }
            x = x + 1;
        }
        assert forall|xx: int, yy: int| (yy < y + 1 || (yy == y + 1 && xx < 0)) && has_cell(cells, xx, yy)
            implies (yy < y || (yy == y && xx < ncols)) by {
            assert(cells[yy].len() == ncols);
        }
        y = y + 1;
    }
    if found {
        proof {
            assert(cells[wl].len() <= u32::MAX);
            assert(cells[wr].len() <= u32::MAX);
            assert(has_cell(cells, wt, top as int));
            assert(has_cell(cells, wb, bottom as int));
        }
        let b = Rect {
            x: left as u32,
            y: top as u32,
            width: (right - left + 1) as u32,
            height: (bottom - top + 1) as u32,
        };
        assert(has_cell(cells, b.x as int, wl));
        assert(has_cell(cells, b.x + b.width - 1, wr));
        assert(has_cell(cells, wt, b.y as int));
        assert(has_cell(cells, wb, b.y + b.height - 1));
        Some(b)
    } else {
        None
    }
}

/// The occupancy grid of `image` for `mask_color` and its bounding box, or
/// `None` when no pixel lies within tolerance of the mask color.
pub fn get_transparency_mask(mask_color: Color, image: &PixelGrid) -> (mask: Option<TransparencyMask>)
    requires
        image.wf(),
    ensures
        mask is None <==> !any_cell(mask_rows(mask_color, *image)),
        mask matches Some(m) ==> array_rows(m.filter) == mask_rows(mask_color, *image)
            && is_bounding_box(mask_rows(mask_color, *image), m.bounds),
{
    let filter = create_filter_from_color(mask_color, image);
    match find_mask_bounds(&filter) {
        Some(bounds) => Some(TransparencyMask { bounds, filter }),
        None => None,
    }
}

/// `(x, y)` lies inside `b`.
pub open spec fn in_rect(b: Rect, x: int, y: int) -> bool {
    b.x <= x < b.x + b.width && b.y <= y < b.y + b.height
}

/// The template with each set cell inside `b` replaced by the pixel of
/// `fitted` (of width `fitted_width`) at the same offset from `b`'s corner.
pub open spec fn pasted(
    cells: Seq<Seq<bool>>,
    b: Rect,
    template: PixelGrid,
    fitted: Seq<Color>,
    fitted_width: nat,
) -> Seq<Color> {
    grid_of(
        template.width as nat,
        template.height as nat,
        |x: int, y: int|
            if in_rect(b, x, y) && cells[y][x] {
                fitted[(y - b.y) * fitted_width + (x - b.x)]
            } else {
                template.pixel(x, y)
            },
    )
}

/// The mask's grid has the template's size and its bounds lie inside it.
pub open spec fn mask_fits(mask: TransparencyMask, template: PixelGrid) -> bool {
    &&& array_rows(mask.filter).len() == template.height
    &&& forall|i: int|
        0 <= i < array_rows(mask.filter).len() ==> #[trigger] array_rows(mask.filter)[i].len()
            == template.width
    &&& mask.bounds.x + mask.bounds.width <= template.width
    &&& mask.bounds.y + mask.bounds.height <= template.height
}

/// Copies `template`, replacing each pixel that is set in the mask's grid and
/// lies inside its bounds by the pixel of `fitted` at the same offset from the
/// bounds' corner.
pub fn paste_masked(mask: &TransparencyMask, template: &PixelGrid, fitted: &PixelGrid) -> (r: PixelGrid)
    requires
        template.wf(),
        fitted.wf(),
        mask_fits(*mask, *template),
        mask.bounds.width <= fitted.width,
        mask.bounds.height <= fitted.height,
    ensures
        r.wf(),
        r.width == template.width,
        r.height == template.height,
        r.pixels@ == pasted(
            array_rows(mask.filter),
            mask.bounds,
            *template,
            fitted.pixels@,
            fitted.width as nat,
        ),
{
    let b = mask.bounds;
    let ghost cells = array_rows(mask.filter);
    let ghost f = |x: int, y: int|
        if in_rect(b, x, y) && cells[y][x] {
            fitted.pixels@[(y - b.y) * (fitted.width as nat) + (x - b.x)]
        } else {
            template.pixel(x, y)
        };
    let tw = template.width;
    let th = template.height;
    assert(pasted(cells, b, *template, fitted.pixels@, fitted.width as nat) == grid_of(tw as nat, th as nat, f));
    let mut pixels: Vec<Color> = Vec::new();
    let mut y: u32 = 0;
    while y < th
        invariant
            template.wf(),
            fitted.wf(),
            mask_fits(*mask, *template),
            b == mask.bounds,
            cells == array_rows(mask.filter),
            b.width <= fitted.width,
            b.height <= fitted.height,
            tw == template.width,
            th == template.height,
            f == (|x: int, y: int|
                if in_rect(b, x, y) && cells[y][x] {
                    fitted.pixels@[(y - b.y) * (fitted.width as nat) + (x - b.x)]
                } else {
                    template.pixel(x, y)
                }),
            y <= th,
            pixels@.len() == y * tw,
            forall|k: int| 0 <= k < pixels@.len() ==> #[trigger] pixels@[k] == f(k % (tw as int), k / (tw as int)),
        decreases th - y,
    {
        let mut x: u32 = 0;
        while x < tw
            invariant
                template.wf(),
                fitted.wf(),
                mask_fits(*mask, *template),
                b == mask.bounds,
                cells == array_rows(mask.filter),
                b.width <= fitted.width,
                b.height <= fitted.height,
                tw == template.width,
                th == template.height,
                f == (|x: int, y: int|
                    if in_rect(b, x, y) && cells[y][x] {
                        fitted.pixels@[(y - b.y) * (fitted.width as nat) + (x - b.x)]
                    } else {
                        template.pixel(x, y)
                    }),
                y < th,
                x <= tw,
                pixels@.len() == y * tw + x,
                forall|k: int| 0 <= k < pixels@.len() ==> #[trigger] pixels@[k] == f(k % (tw as int), k / (tw as int)),
            decreases tw - x,
        {
            let inside = x >= b.x && x - b.x < b.width && y >= b.y && y - b.y < b.height;
            let c = if inside && grid_cell(&mask.filter, y as usize, x as usize) {
                fitted.get_pixel(x - b.x, y - b.y)
            } else {
                template.get_pixel(x, y)
            };
            proof {
                lemma_grid_index(x as int, y as int, tw as int, th as int);
            }
            pixels.push(c);
            x = x + 1;
        }
        assert(y * tw + tw == (y + 1) * tw) by (nonlinear_arith);
        y = y + 1;
    }
    assert(y * tw == tw * th) by (nonlinear_arith)
        requires
            y == th,
    ;
    assert(pixels@ =~= grid_of(tw as nat, th as nat, f));
    PixelGrid { width: tw, height: th, pixels }
}

/// Fits `content` to the mask's bounds and pastes it over the template's
/// mask pixels. `content` is left as it was.
pub fn merge_images(mask: TransparencyMask, template: &PixelGrid, content: &mut PixelGrid) -> (r: PixelGrid)
    requires
        template.wf(),
        old(content).wf(),
        mask_fits(mask, *template),
        fit_in_limits(mask.bounds, *old(content)),
    ensures
        *final(content) == *old(content),
        r.wf(),
        r.width == template.width,
        r.height == template.height,
        r.pixels@ == pasted(
            array_rows(mask.filter),
            mask.bounds,
            *template,
            fitted(mask.bounds, *old(content)),
            mask.bounds.width as nat,
        ),
{
    let cropped = fit_to_viewport(mask.bounds, content);
    paste_masked(&mask, template, &cropped)
}

/// The content image is non-empty, and neither it nor the template is so
/// large that fitting the content into any rectangle of the template would
/// exceed the size limits of resampling.
pub open spec fn sizes_in_limits(template: PixelGrid, content: PixelGrid) -> bool {
    let tw = template.width as int;
    let th = template.height as int;
    let w = content.width as int;
    let h = content.height as int;
    &&& w >= 1
    &&& h >= 1
    &&& h * tw <= u32::MAX
    &&& w * th <= u32::MAX
    &&& w * h * tw <= MAX_PIXELS
    &&& tw * tw * h <= MAX_PIXELS
    &&& w * th * th <= MAX_PIXELS
}

/// Whether `sizes_in_limits` holds.
pub fn within_size_limits(template: &PixelGrid, content: &PixelGrid) -> (r: bool)
    ensures
        r == sizes_in_limits(*template, *content),
{
    let tw = template.width as u128;
    let th = template.height as u128;
    let w = content.width as u128;
    let h = content.height as u128;
    assert(h * tw <= 0x1_0000_0000_0000_0000 && w * th <= 0x1_0000_0000_0000_0000 && w * h
        <= 0x1_0000_0000_0000_0000 && tw * tw <= 0x1_0000_0000_0000_0000 && w * th
        <= 0x1_0000_0000_0000_0000) by (nonlinear_arith)
        requires
            tw <= 0x1_0000_0000,
            th <= 0x1_0000_0000,
            w <= 0x1_0000_0000,
            h <= 0x1_0000_0000,
    ;
    assert(w * h * tw <= 0x1_0000_0000_0000_0000_0000_0000 && tw * tw * h
        <= 0x1_0000_0000_0000_0000_0000_0000 && w * th * th <= 0x1_0000_0000_0000_0000_0000_0000)
        by (nonlinear_arith)
        requires
            tw <= 0x1_0000_0000,
            th <= 0x1_0000_0000,
            w <= 0x1_0000_0000,
            h <= 0x1_0000_0000,
    ;
    w >= 1 && h >= 1 && h * tw <= u32::MAX as u128 && w * th <= u32::MAX as u128 && w * h * tw
        <= MAX_PIXELS as u128 && tw * tw * h <= MAX_PIXELS as u128 && w * th * th
        <= MAX_PIXELS as u128
}

/// A viewport inside the template can be fitted within the size limits.
proof fn lemma_fit_in_limits(template: PixelGrid, content: PixelGrid, viewport: Rect)
    requires
        sizes_in_limits(template, content),
        1 <= viewport.width <= template.width,
        1 <= viewport.height <= template.height,
    ensures
        fit_in_limits(viewport, content),
{
    let tw = template.width as int;
    let th = template.height as int;
    let w = content.width as int;
    let h = content.height as int;
    let vw = viewport.width as int;
    let vh = viewport.height as int;
    let sw = scaled_width(viewport, w, h);
    let sh = scaled_height(viewport, w, h);
    if viewport_wider(viewport, w, h) {
        assert(0 <= h * vw <= h * tw) by (nonlinear_arith)
            requires
                1 <= vw <= tw,
                h >= 1,
        ;
        lemma_ceil_div_bounds(h * vw, w, 0);
        assert(w * sh <= w * h * tw && sw * sh <= tw * tw * h) by (nonlinear_arith)
            requires
                0 <= sh <= h * tw,
                sw == vw,
                1 <= vw <= tw,
                w >= 1,
                h >= 1,
        ;
    } else {
        assert(0 <= w * vh <= w * th) by (nonlinear_arith)
            requires
                1 <= vh <= th,
                w >= 1,
        ;
        lemma_ceil_div_bounds(w * vh, h, 0);
        assert(w * sh <= w * th * th && sw * sh <= w * th * th) by (nonlinear_arith)
            requires
                0 <= sw <= w * th,
                sh == vh,
                1 <= vh <= th,
                w >= 1,
        ;
    }
}

/// The bounding box of the template's mask pixels; meaningful only when
/// some pixel matches.
pub open spec fn mask_bounds(mask_color: Color, template: PixelGrid) -> Rect {
    choose|b: Rect| is_bounding_box(mask_rows(mask_color, template), b)
}

/// The pixels of the token made from `template` and `content`.
pub open spec fn token_pixels(mask_color: Color, template: PixelGrid, content: PixelGrid) -> Seq<Color> {
    let b = mask_bounds(mask_color, template);
    pasted(mask_rows(mask_color, template), b, template, fitted(b, content), b.width as nat)
}

/// `r` is what `create` owes for these arguments: nothing when no template
/// pixel matches the mask color, else the token, of the template's size.
pub open spec fn create_outcome(
    mask_color: Color,
    template: PixelGrid,
    content: PixelGrid,
    r: Option<PixelGrid>,
) -> bool {
    &&& r is None <==> !any_cell(mask_rows(mask_color, template))
    &&& r matches Some(out) ==> {
        &&& out.wf()
        &&& out.width == template.width
        &&& out.height == template.height
        &&& out.pixels@ == token_pixels(mask_color, template, content)
    }
}

/// Stamps `content` into the mask-colored window of `template`, or gives
/// `None` when no template pixel lies within tolerance of `mask_color`.
/// `content` is left as it was.
pub fn create(mask_color: Color, template: PixelGrid, content: &mut PixelGrid) -> (r: Option<PixelGrid>)
    requires
        template.wf(),
        old(content).wf(),
        sizes_in_limits(template, *old(content)),
    ensures
        *final(content) == *old(content),
        create_outcome(mask_color, template, *old(content), r),
{
    match get_transparency_mask(mask_color, &template) {
        Some(mask) => {
            let ghost cells = mask_rows(mask_color, template);
            proof {
                let b = mask.bounds;
                lemma_bounding_box_unique(cells, b, mask_bounds(mask_color, template));
                let y1 = choose|y: int| #[trigger] has_cell(cells, b.x + b.width - 1, y);
                let x1 = choose|x: int| #[trigger] has_cell(cells, x, b.y + b.height - 1);
                assert(has_cell(cells, b.x + b.width - 1, y1));
                assert(has_cell(cells, x1, b.y + b.height - 1));
                lemma_fit_in_limits(template, *content, b);
            }
            Some(merge_images(mask, &template, content))
        },
        None => None,
    }
}

/// Making a token twice from the same arguments gives the same image.
pub proof fn lemma_create_idempotent(
    mask_color: Color,
    template: PixelGrid,
    content: PixelGrid,
    first: Option<PixelGrid>,
    second: Option<PixelGrid>,
)
    requires
        create_outcome(mask_color, template, content, first),
        create_outcome(mask_color, template, content, second),
    ensures
        first is Some <==> second is Some,
        (first, second) matches (Some(a), Some(b)) ==> a.width == b.width && a.height == b.height
            && a.pixels@ == b.pixels@,
{
}

} // verus!
