//! Composition: places every selected image on one canvas. The pixel work
//! is done by the `image` crate behind trusted wrappers; everything the
//! grid decides — tile size, rows, slot origins, bounds, what lands where —
//! is proved here.

use vstd::prelude::*;
use crate::layout::ComposeError;
use crate::layout::ImageDim;
use crate::layout::Plan;
use crate::layout::lemma_plan_in_bounds;
use crate::layout::lemma_slots_disjoint;
use crate::layout::lemma_tile_size_is_max;
use crate::layout::plan_layout;
use crate::layout::plan_matches;
use crate::layout::spec_canvas_fits;
use crate::layout::spec_max_rows;
use crate::layout::spec_max_width;
use crate::layout::spec_max_height;
use crate::layout::spec_normalize_cols;
use crate::layout::tile_size;
use crate::select::lemma_kept_not_ignored;
use crate::select::select_placed;
use crate::select::spec_kept;
use image::GenericImage;
use image::GenericImageView;

verus! {

#[verifier::external_type_specification]
#[verifier::external_body]
pub struct ExDynamicImage(image::DynamicImage);

/// The width of an image's pixel grid.
pub uninterp spec fn image_width(img: image::DynamicImage) -> u32;

/// The height of an image's pixel grid.
pub uninterp spec fn image_height(img: image::DynamicImage) -> u32;

/// The RGBA value of the pixel at (x, y) of an image's pixel grid, as
/// `GenericImageView::get_pixel` reads it; meaningful only inside the grid.
pub uninterp spec fn image_pixel(img: image::DynamicImage, x: int, y: int) -> (u8, u8, u8, u8);

/// Whether the image stores its pixels as eight-bit RGBA, so that a pixel
/// written to it is read back unchanged.
pub uninterp spec fn image_is_rgba8(img: image::DynamicImage) -> bool;

/// A fully transparent pixel.
pub open spec fn blank_pixel() -> (u8, u8, u8, u8) {
    (0u8, 0u8, 0u8, 0u8)
}

/// Relies on image::GenericImageView::width: the stored width of the
/// pixel grid, a pure function of the image value.
#[verifier::external_body]
fn width_of(img: &image::DynamicImage) -> (w: u32)
    ensures
        w == image_width(*img),
{
    img.width()
}

/// Relies on image::GenericImageView::height: the stored height of the
/// pixel grid, a pure function of the image value.
#[verifier::external_body]
fn height_of(img: &image::DynamicImage) -> (h: u32)
    ensures
        h == image_height(*img),
{
    img.height()
}

/// Relies on image::DynamicImage::new_rgba8: a fresh RGBA canvas of
/// exactly the given dimensions, every pixel fully transparent. The four
/// bytes per pixel must fit a usize, or the buffer allocation would panic.
#[verifier::external_body]
fn new_canvas(w: u32, h: u32) -> (img: image::DynamicImage)
    requires
        4 * w * h <= usize::MAX,
    ensures
        image_width(img) == w,
        image_height(img) == h,
        image_is_rgba8(img),
        forall|x: int, y: int|
            0 <= x < w && 0 <= y < h ==> #[trigger] image_pixel(img, x, y) == blank_pixel(),
{
    image::DynamicImage::new_rgba8(w, h)
}

/// Relies on image::GenericImage::copy_from: it succeeds exactly when the
/// source rectangle fits inside the target at the given offset; it writes
/// the source's pixels there, touches nothing else, and never changes the
/// target's dimensions or storage.
#[verifier::external_body]
fn copy_into(canvas: &mut image::DynamicImage, img: &image::DynamicImage, x: u32, y: u32) -> (ok:
    bool)
    requires
        x + image_width(*img) <= image_width(*old(canvas)),
        y + image_height(*img) <= image_height(*old(canvas)),
        image_is_rgba8(*old(canvas)),
    ensures
        ok,
        image_width(*final(canvas)) == image_width(*old(canvas)),
        image_height(*final(canvas)) == image_height(*old(canvas)),
        image_is_rgba8(*final(canvas)),
        forall|i: int, j: int|
            0 <= i < image_width(*img) && 0 <= j < image_height(*img)
                ==> image_pixel(*final(canvas), x + i, y + j) == #[trigger] image_pixel(
                *img,
                i,
                j,
            ),
        forall|u: int, v: int|
            0 <= u < image_width(*old(canvas)) && 0 <= v < image_height(*old(canvas)) && !(x <= u
                < x + image_width(*img) && y <= v < y + image_height(*img))
                ==> #[trigger] image_pixel(*final(canvas), u, v) == image_pixel(
                *old(canvas),
                u,
                v,
            ),
{
    canvas.copy_from(img, x, y).is_ok()
}

/// The dimensions of each image, in order.
pub open spec fn spec_dims(images: Seq<image::DynamicImage>) -> Seq<ImageDim> {
    Seq::new(
        images.len(),
        |i: int| ImageDim { width: image_width(images[i]), height: image_height(images[i]) },
    )
}

/// Reads the dimensions of every image, in order.
pub fn dims_of(images: &Vec<image::DynamicImage>) -> (dims: Vec<ImageDim>)
    ensures
        dims@ == spec_dims(images@),
{
    let mut dims: Vec<ImageDim> = Vec::new();
    let mut i: usize = 0;
    while i < images.len()
        invariant
            i <= images@.len(),
            dims@.len() == i,
            forall|j: int| 0 <= j < i ==> #[trigger] dims@[j] == spec_dims(images@)[j],
        decreases images@.len() - i,
    {
        let w = width_of(&images[i]);
        let h = height_of(&images[i]);
        dims.push(ImageDim { width: w, height: h });
        i = i + 1;
    }
    proof {
        assert(dims@ =~= spec_dims(images@));
    }
    dims
}

/// Every selected image appears in full on `c` at its slot's pixel origin:
/// the `k`-th kept image starts at column `k % cols`, row `k / cols`.
pub open spec fn spec_placed_pixels(
    c: image::DynamicImage,
    images: Seq<image::DynamicImage>,
    kept: Seq<usize>,
    tile_w: u32,
    tile_h: u32,
    cols: u32,
) -> bool {
    forall|k: int, i: int, j: int|
        0 <= k < kept.len() && 0 <= i < image_width(images[kept[k] as int]) && 0 <= j
            < image_height(images[kept[k] as int]) ==> image_pixel(
            c,
            (k % (cols as int)) * tile_w + i,
            (k / (cols as int)) * tile_h + j,
        ) == #[trigger] image_pixel(images[kept[k] as int], i, j)
}

/// Whether canvas point (u, v) lies inside the rectangle that the `t`-th
/// placed image covers.
pub open spec fn spec_in_placed_rect(
    images: Seq<image::DynamicImage>,
    kept: Seq<usize>,
    tile_w: u32,
    tile_h: u32,
    cols: u32,
    t: int,
    u: int,
    v: int,
) -> bool {
    let ox = (t % (cols as int)) * tile_w;
    let oy = (t / (cols as int)) * tile_h;
    &&& ox <= u < ox + image_width(images[kept[t] as int])
    &&& oy <= v < oy + image_height(images[kept[t] as int])
}

/// Every canvas pixel outside every placed image stays fully transparent:
/// the remainder of a slot whose image is smaller than the tile, and every
/// slot without an image, are blank.
pub open spec fn spec_blank_outside(
    c: image::DynamicImage,
    images: Seq<image::DynamicImage>,
    kept: Seq<usize>,
    tile_w: u32,
    tile_h: u32,
    cols: u32,
) -> bool {
    forall|u: int, v: int|
        0 <= u < image_width(c) && 0 <= v < image_height(c) && (forall|t: int|
            0 <= t < kept.len() ==> !spec_in_placed_rect(images, kept, tile_w, tile_h, cols, t, u, v))
            ==> #[trigger] image_pixel(c, u, v) == blank_pixel()
}

/// Composition is deterministic: two canvases of the same dimensions,
/// composed from the same images, selection and column limit, agree on
/// every pixel — re-running composition reproduces the output exactly.
pub proof fn lemma_compose_deterministic(
    c1: image::DynamicImage,
    c2: image::DynamicImage,
    images: Seq<image::DynamicImage>,
    kept: Seq<usize>,
    tile_w: u32,
    tile_h: u32,
    cols: u32,
    u: int,
    v: int,
)
    requires
        spec_placed_pixels(c1, images, kept, tile_w, tile_h, cols),
        spec_blank_outside(c1, images, kept, tile_w, tile_h, cols),
        spec_placed_pixels(c2, images, kept, tile_w, tile_h, cols),
        spec_blank_outside(c2, images, kept, tile_w, tile_h, cols),
        image_width(c2) == image_width(c1),
        image_height(c2) == image_height(c1),
        0 <= u < image_width(c1),
        0 <= v < image_height(c1),
    ensures
        image_pixel(c1, u, v) == image_pixel(c2, u, v),
{
    if exists|t: int|
        0 <= t < kept.len() && spec_in_placed_rect(images, kept, tile_w, tile_h, cols, t, u, v) {
        let t = choose|t: int|
            0 <= t < kept.len() && spec_in_placed_rect(images, kept, tile_w, tile_h, cols, t, u, v);
        let ox = (t % (cols as int)) * tile_w;
        let oy = (t / (cols as int)) * tile_h;
        let i = u - ox;
        let j = v - oy;
        assert(image_pixel(c1, ox + i, oy + j) == image_pixel(images[kept[t] as int], i, j));
        assert(image_pixel(c2, ox + i, oy + j) == image_pixel(images[kept[t] as int], i, j));
    } else {
        assert(image_pixel(c1, u, v) == blank_pixel());
        assert(image_pixel(c2, u, v) == blank_pixel());
    }
}

/// Grid composition, in input order: the tile size comes from every image
/// found, placement slots go to the images whose paths are not ignored.
/// `paths[i]` names `images[i]`. Fails with `NoImages` exactly when no
/// image was found, and with `CanvasTooLarge` exactly when the canvas
/// would not fit machine limits; otherwise the canvas measures one tile
/// per column by one tile per row, and every selected image appears in
/// full at its slot.
pub fn compose(
    images: &Vec<image::DynamicImage>,
    paths: &Vec<String>,
    ignored: &Vec<String>,
    max_cols: u32,
) -> (r: Result<image::DynamicImage, ComposeError>)
    requires
        images@.len() == paths@.len(),
    ensures
        (r matches Err(e) && e == ComposeError::NoImages) <==> images@.len() == 0,
        images@.len() > 0 ==> ((r is Ok) <==> spec_canvas_fits(
            spec_max_width(spec_dims(images@)),
            spec_max_height(spec_dims(images@)),
            spec_kept(paths@, ignored@).len(),
            max_cols,
        )),
        r matches Ok(c) ==> image_width(c) == spec_max_width(spec_dims(images@))
            * spec_normalize_cols(max_cols),
        r matches Ok(c) ==> image_height(c) == spec_max_height(spec_dims(images@))
            * spec_max_rows(
            spec_kept(paths@, ignored@).len(),
            spec_normalize_cols(max_cols) as nat,
        ),
        r matches Ok(c) ==> spec_placed_pixels(
            c,
            images@,
            spec_kept(paths@, ignored@),
            spec_max_width(spec_dims(images@)),
            spec_max_height(spec_dims(images@)),
            spec_normalize_cols(max_cols),
        ),
        r matches Ok(c) ==> spec_blank_outside(
            c,
            images@,
            spec_kept(paths@, ignored@),
            spec_max_width(spec_dims(images@)),
            spec_max_height(spec_dims(images@)),
            spec_normalize_cols(max_cols),
        ),
        r matches Err(e) ==> (e == ComposeError::NoImages || e == ComposeError::CanvasTooLarge),
{
    if images.len() == 0 {
        return Err(ComposeError::NoImages);
    }
    let dims = dims_of(images);
    let (tile_w, tile_h) = tile_size(&dims);
    let kept = select_placed(paths, ignored);
    let plan: Plan = match plan_layout(tile_w, tile_h, kept.len(), max_cols) {
        Ok(p) => p,
        Err(e) => {
            return Err(e);
        },
    };
    let mut canvas = new_canvas(plan.canvas_width, plan.canvas_height);
    proof {
        lemma_plan_in_bounds(plan, tile_w, tile_h, kept@.len() as nat, max_cols);
        lemma_tile_size_is_max(dims@);
        lemma_kept_not_ignored(paths@, ignored@);
    }
    let ghost cols_i = spec_normalize_cols(max_cols) as int;
    let ghost cols_u = spec_normalize_cols(max_cols);
    let mut k: usize = 0;
    while k < kept.len()
        invariant
            images@.len() == paths@.len(),
            dims@ == spec_dims(images@),
            kept@ == spec_kept(paths@, ignored@),
            plan_matches(plan, tile_w, tile_h, kept@.len() as nat, max_cols),
            cols_i == spec_normalize_cols(max_cols) as int,
            k <= kept@.len(),
            image_width(canvas) == plan.canvas_width,
            image_height(canvas) == plan.canvas_height,
            image_is_rgba8(canvas),
            forall|j: int|
                0 <= j < kept@.len() ==> #[trigger] plan.placements@[j].x + tile_w
                    <= plan.canvas_width,
            forall|j: int|
                0 <= j < kept@.len() ==> #[trigger] plan.placements@[j].y + tile_h
                    <= plan.canvas_height,
            forall|j: int| 0 <= j < kept@.len() ==> #[trigger] kept@[j] < paths@.len(),
            forall|j: int| 0 <= j < dims@.len() ==> #[trigger] dims@[j].width <= tile_w,
            forall|j: int| 0 <= j < dims@.len() ==> #[trigger] dims@[j].height <= tile_h,
            cols_u == spec_normalize_cols(max_cols),
            forall|t: int, i: int, j: int|
                0 <= t < k && 0 <= i < image_width(images@[kept@[t] as int]) && 0 <= j
                    < image_height(images@[kept@[t] as int]) ==> image_pixel(
                    canvas,
                    plan.placements@[t].x + i,
                    plan.placements@[t].y + j,
                ) == #[trigger] image_pixel(images@[kept@[t] as int], i, j),
            forall|u: int, v: int|
                0 <= u < plan.canvas_width && 0 <= v < plan.canvas_height && (forall|t: int|
                    0 <= t < k ==> !spec_in_placed_rect(
                        images@,
                        kept@,
                        tile_w,
                        tile_h,
                        cols_u,
                        t,
                        u,
                        v,
                    )) ==> #[trigger] image_pixel(canvas, u, v) == blank_pixel(),
        decreases kept@.len() - k,
    {
        let idx = kept[k];
        let p = plan.placements[k];
        proof {
            assert(image_width(images@[idx as int]) == dims@[idx as int].width);
            assert(image_height(images@[idx as int]) == dims@[idx as int].height);
        }
        let ghost prev = canvas;
        let ok = copy_into(&mut canvas, &images[idx], p.x, p.y);
        if !ok {
            return Err(ComposeError::CopyOutOfBounds);
        }
        proof {
            let ki = k as int;
            assert forall|t: int, i: int, j: int|
                0 <= t < ki + 1 && 0 <= i < image_width(images@[kept@[t] as int]) && 0 <= j
                    < image_height(images@[kept@[t] as int]) implies image_pixel(
                canvas,
                plan.placements@[t].x + i,
                plan.placements@[t].y + j,
            ) == #[trigger] image_pixel(images@[kept@[t] as int], i, j) by {
                assert(plan.placements@[t].x == (t % cols_i) * tile_w);
                assert(plan.placements@[t].y == (t / cols_i) * tile_h);
                assert(plan.placements@[ki].x == (ki % cols_i) * tile_w);
                assert(plan.placements@[ki].y == (ki / cols_i) * tile_h);
                assert(image_width(images@[kept@[t] as int]) == dims@[kept@[t] as int].width);
                assert(image_height(images@[kept@[t] as int]) == dims@[kept@[t] as int].height);
                if t < ki {
                    let u = plan.placements@[t].x + i;
                    let v = plan.placements@[t].y + j;
                    lemma_slots_disjoint(t, ki, cols_i, tile_w, tile_h, u, v);
                    assert(u < plan.canvas_width);
                    assert(v < plan.canvas_height);
                    assert(!(p.x <= u < p.x + image_width(images@[idx as int]) && p.y <= v < p.y
                        + image_height(images@[idx as int])));
                    assert(image_pixel(canvas, u, v) == image_pixel(prev, u, v));
                }
            }
            assert forall|u: int, v: int|
                0 <= u < plan.canvas_width && 0 <= v < plan.canvas_height && (forall|t: int|
                    0 <= t < ki + 1 ==> !spec_in_placed_rect(
                        images@,
                        kept@,
                        tile_w,
                        tile_h,
                        cols_u,
                        t,
                        u,
                        v,
                    )) implies #[trigger] image_pixel(canvas, u, v) == blank_pixel() by {
                assert(!spec_in_placed_rect(images@, kept@, tile_w, tile_h, cols_u, ki, u, v));
                assert(forall|t: int|
                    0 <= t < ki ==> !spec_in_placed_rect(
                        images@,
                        kept@,
                        tile_w,
                        tile_h,
                        cols_u,
                        t,
                        u,
                        v,
                    ));
                assert(plan.placements@[ki].x == (ki % cols_i) * tile_w);
                assert(plan.placements@[ki].y == (ki / cols_i) * tile_h);
                assert(!(p.x <= u < p.x + image_width(images@[idx as int]) && p.y <= v < p.y
                    + image_height(images@[idx as int])));
                assert(image_pixel(canvas, u, v) == image_pixel(prev, u, v));
            }
        }
        k = k + 1;
    }
    proof {
        assert forall|k2: int, i: int, j: int|
            0 <= k2 < kept@.len() && 0 <= i < image_width(images@[kept@[k2] as int]) && 0 <= j
                < image_height(images@[kept@[k2] as int]) implies image_pixel(
            canvas,
            (k2 % (spec_normalize_cols(max_cols) as int)) * tile_w + i,
            (k2 / (spec_normalize_cols(max_cols) as int)) * tile_h + j,
        ) == #[trigger] image_pixel(images@[kept@[k2] as int], i, j) by {
            assert(plan.placements@[k2].x == (k2 % cols_i) * tile_w);
            assert(plan.placements@[k2].y == (k2 / cols_i) * tile_h);
        }
        assert(image_width(canvas) == tile_w * cols_u);
        assert(image_height(canvas) == tile_h * spec_max_rows(kept@.len() as nat, cols_u as nat));
    }
    Ok(canvas)
}

} // verus!
