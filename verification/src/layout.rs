//! Grid layout: tile-size resolution, row derivation and slot placement.

use vstd::prelude::*;
use vstd::arithmetic::div_mod::lemma_fundamental_div_mod;
use vstd::arithmetic::div_mod::lemma_fundamental_div_mod_converse;
use vstd::arithmetic::div_mod::lemma_div_is_ordered;
use vstd::arithmetic::div_mod::lemma_mod_division_less_than_divisor;
use vstd::arithmetic::mul::lemma_mul_inequality;
use vstd::arithmetic::mul::lemma_mul_upper_bound;

verus! {

/// Width and height of a decoded image, in pixels.
#[derive(Clone, Copy, Debug, PartialEq, Eq, Structural)]
pub struct ImageDim {
    pub width: u32,
    pub height: u32,
}

/// Failures of the composition pipeline. Every failure is terminal: no
/// partial canvas is ever handed out.
#[derive(Clone, Copy, Debug, PartialEq, Eq, Structural)]
pub enum ComposeError {
    /// No image was found at all, so no canvas can be derived.
    NoImages,
    /// A canvas dimension or its pixel buffer would not fit the machine.
    CanvasTooLarge,
    /// A copy target would exceed the canvas bounds. Proven unreachable
    /// when the tile size covers every image; kept as a runtime guard.
    CopyOutOfBounds,
}

/// A column limit of zero means "at least one column".
pub open spec fn spec_normalize_cols(max_cols: u32) -> u32 {
    if max_cols == 0 {
        1u32
    } else {
        max_cols
    }
}

/// Explicit policy: a column limit of zero is treated as one column.
pub fn normalize_max_cols(max_cols: u32) -> (r: u32)
    ensures
        r == spec_normalize_cols(max_cols),
        r >= 1,
{
    if max_cols == 0 {
        1
    } else {
        max_cols
    }
}

/// The largest width among the given dimensions (zero when there are none).
pub open spec fn spec_max_width(dims: Seq<ImageDim>) -> u32
    decreases dims.len(),
{
    if dims.len() == 0 {
        0u32
    } else if dims.last().width > spec_max_width(dims.drop_last()) {
        dims.last().width
    } else {
        spec_max_width(dims.drop_last())
    }
}

/// The largest height among the given dimensions (zero when there are none).
pub open spec fn spec_max_height(dims: Seq<ImageDim>) -> u32
    decreases dims.len(),
{
    if dims.len() == 0 {
        0u32
    } else if dims.last().height > spec_max_height(dims.drop_last()) {
        dims.last().height
    } else {
        spec_max_height(dims.drop_last())
    }
}

/// Tile-size resolver: the tile is exactly as wide as the widest image and
/// as tall as the tallest image.
pub fn tile_size(dims: &Vec<ImageDim>) -> (t: (u32, u32))
    ensures
        t.0 == spec_max_width(dims@),
        t.1 == spec_max_height(dims@),
{
    let mut tw: u32 = 0;
    let mut th: u32 = 0;
    let mut i: usize = 0;
    while i < dims.len()
        invariant
            i <= dims.len(),
            tw == spec_max_width(dims@.take(i as int)),
            th == spec_max_height(dims@.take(i as int)),
        decreases dims.len() - i,
    {
        let d = dims[i];
        if d.width > tw {
            tw = d.width;
        }
        if d.height > th {
            th = d.height;
        }
        i = i + 1;
        proof {
            assert(dims@.take(i as int).drop_last() =~= dims@.take(i as int - 1));
            assert(dims@.take(i as int).last() == dims@[i as int - 1]);
        }
    }
    proof {
        assert(dims@.take(dims@.len() as int) =~= dims@);
    }
    (tw, th)
}

/// The resolved maxima bound every input, and each is attained by some input.
pub proof fn lemma_tile_size_is_max(dims: Seq<ImageDim>)
    ensures
        forall|i: int| 0 <= i < dims.len() ==> #[trigger] dims[i].width <= spec_max_width(dims),
        forall|i: int| 0 <= i < dims.len() ==> #[trigger] dims[i].height <= spec_max_height(dims),
        dims.len() > 0 ==> exists|i: int|
            0 <= i < dims.len() && #[trigger] dims[i].width == spec_max_width(dims),
        dims.len() > 0 ==> exists|i: int|
            0 <= i < dims.len() && #[trigger] dims[i].height == spec_max_height(dims),
    decreases dims.len(),
{
    if dims.len() > 0 {
        let prefix = dims.drop_last();
        lemma_tile_size_is_max(prefix);
        assert(forall|i: int| 0 <= i < prefix.len() ==> prefix[i] == dims[i]);
        if dims.last().width > spec_max_width(prefix) {
            assert(dims[dims.len() - 1].width == spec_max_width(dims));
        } else {
            if prefix.len() > 0 {
                let j = choose|j: int|
                    0 <= j < prefix.len() && #[trigger] prefix[j].width == spec_max_width(prefix);
                assert(dims[j].width == spec_max_width(dims));
            } else {
                assert(dims[0].width == spec_max_width(dims));
            }
        }
        if dims.last().height > spec_max_height(prefix) {
            assert(dims[dims.len() - 1].height == spec_max_height(dims));
        } else {
            if prefix.len() > 0 {
                let j = choose|j: int|
                    0 <= j < prefix.len() && #[trigger] prefix[j].height == spec_max_height(prefix);
                assert(dims[j].height == spec_max_height(dims));
            } else {
                assert(dims[0].height == spec_max_height(dims));
            }
        }
    }
}

/// Tile-size resolution is order-independent: two sequences drawn from the
/// same set of dimensions resolve to the same tile size.
pub proof fn lemma_tile_size_order_independent(a: Seq<ImageDim>, b: Seq<ImageDim>)
    requires
        forall|d: ImageDim| a.contains(d) <==> b.contains(d),
        a.len() > 0,
        b.len() > 0,
    ensures
        spec_max_width(a) == spec_max_width(b),
        spec_max_height(a) == spec_max_height(b),
{
    lemma_tile_size_is_max(a);
    lemma_tile_size_is_max(b);
    let wi = choose|i: int| 0 <= i < a.len() && #[trigger] a[i].width == spec_max_width(a);
    assert(a.contains(a[wi]));
    assert(b.contains(a[wi]));
    let wj = choose|j: int| 0 <= j < b.len() && #[trigger] b[j].width == spec_max_width(b);
    assert(b.contains(b[wj]));
    assert(a.contains(b[wj]));
    let hi = choose|i: int| 0 <= i < a.len() && #[trigger] a[i].height == spec_max_height(a);
    assert(a.contains(a[hi]));
    assert(b.contains(a[hi]));
    let hj = choose|j: int| 0 <= j < b.len() && #[trigger] b[j].height == spec_max_height(b);
    assert(b.contains(b[hj]));
    assert(a.contains(b[hj]));
}

/// Rows needed for `count` tiles in at most `cols` columns: the ceiling of
/// `count / cols`, except that fewer tiles than columns still take one row.
pub open spec fn spec_max_rows(count: nat, cols: nat) -> nat
    recommends
        cols >= 1,
{
    if count < cols {
        1
    } else {
        ((count + cols - 1) / (cols as int)) as nat
    }
}

/// Number of grid rows for `count` tiles under a limit of `cols` columns.
pub fn max_rows(count: usize, cols: u32) -> (r: usize)
    requires
        cols >= 1,
    ensures
        r == spec_max_rows(count as nat, cols as nat),
{
    let c = cols as usize;
    if count < c {
        1
    } else {
        let r = (count - 1) / c + 1;
        proof {
            let n = count as int;
            let ci = c as int;
            let q0 = (n - 1) / ci;
            let r0 = (n - 1) % ci;
            lemma_fundamental_div_mod(n - 1, ci);
            lemma_mod_division_less_than_divisor(n - 1, ci);
            assert(n + ci - 1 == (q0 + 1) * ci + r0) by (nonlinear_arith)
                requires
                    n - 1 == ci * q0 + r0,
            ;
            lemma_fundamental_div_mod_converse(n + ci - 1, ci, q0 + 1, r0);
        }
        r
    }
}

/// The derived row count is exactly the ceiling of `count / cols`: the rows
/// cover every tile, and one row fewer would not.
pub proof fn lemma_max_rows_covers(count: nat, cols: nat)
    requires
        cols >= 1,
        count >= 1,
    ensures
        count <= spec_max_rows(count, cols) * cols,
        (spec_max_rows(count, cols) - 1) * cols < count,
{
    if count < cols {
        assert(spec_max_rows(count, cols) == 1);
        assert(1 * (cols as int) == cols) by (nonlinear_arith);
        assert(0 * (cols as int) == 0) by (nonlinear_arith);
    } else {
        let n = count as int;
        let c = cols as int;
        let q = (n + c - 1) / c;
        let r = (n + c - 1) % c;
        lemma_fundamental_div_mod(n + c - 1, c);
        lemma_mod_division_less_than_divisor(n + c - 1, c);
        assert(n <= q * c && (q - 1) * c < n) by (nonlinear_arith)
            requires
                n + c - 1 == c * q + r,
                0 <= r < c,
                1 <= c <= n,
        ;
    }
}

/// The pixel origin of one tile slot on the canvas.
#[derive(Clone, Copy, Debug, PartialEq, Eq, Structural)]
pub struct Placement {
    pub x: u32,
    pub y: u32,
}

/// A fully determined grid layout: tile size, grid shape, canvas size and
/// the pixel origin of every slot, in slot order.
#[derive(Debug)]
pub struct Plan {
    pub tile_width: u32,
    pub tile_height: u32,
    pub cols: u32,
    pub rows: usize,
    pub canvas_width: u32,
    pub canvas_height: u32,
    pub placements: Vec<Placement>,
}

/// Whether the canvas for `count` tiles of the given tile size stays within
/// machine limits: each canvas dimension fits in a `u32` and the canvas
/// pixel buffer (four bytes per pixel) fits in a `usize`.
pub open spec fn spec_canvas_fits(tile_w: u32, tile_h: u32, count: nat, max_cols: u32) -> bool {
    let cols = spec_normalize_cols(max_cols) as nat;
    let rows = spec_max_rows(count, cols);
    &&& tile_w * cols <= u32::MAX
    &&& tile_h * rows <= u32::MAX
    &&& 4 * (tile_w * cols) * (tile_h * rows) <= usize::MAX
}

/// What a correct plan for `count` tiles looks like: the column limit is
/// normalized, rows follow `spec_max_rows`, the canvas is exactly
/// `tile_width * cols` by `tile_height * rows`, and slot `k` sits at column
/// `k % cols`, row `k / cols`.
pub open spec fn plan_matches(
    p: Plan,
    tile_w: u32,
    tile_h: u32,
    count: nat,
    max_cols: u32,
) -> bool {
    let cols = spec_normalize_cols(max_cols);
    let rows = spec_max_rows(count, cols as nat);
    &&& p.tile_width == tile_w
    &&& p.tile_height == tile_h
    &&& p.cols == cols
    &&& p.rows == rows
    &&& p.canvas_width == tile_w * cols
    &&& p.canvas_height == tile_h * rows
    &&& p.placements.len() == count
    &&& forall|k: int|
        0 <= k < count ==> #[trigger] p.placements[k].x == (k % (cols as int)) * tile_w
    &&& forall|k: int|
        0 <= k < count ==> #[trigger] p.placements[k].y == (k / (cols as int)) * tile_h
}

/// Grid compositor core: derives the grid shape and every slot origin for
/// `count` tiles of the given tile size. Fails exactly when the canvas
/// would not fit machine limits; a column limit of zero means one column.
pub fn plan_layout(tile_w: u32, tile_h: u32, count: usize, max_cols: u32) -> (r: Result<
    Plan,
    ComposeError,
>)
    ensures
        r matches Ok(p) ==> plan_matches(p, tile_w, tile_h, count as nat, max_cols),
        r is Ok <==> spec_canvas_fits(tile_w, tile_h, count as nat, max_cols),
        r matches Err(e) ==> e == ComposeError::CanvasTooLarge,
{
    let cols = normalize_max_cols(max_cols);
    let rows = max_rows(count, cols);
    proof {
        lemma_mul_upper_bound(tile_w as int, 0xffff_ffff, cols as int, 0xffff_ffff);
        lemma_mul_upper_bound(tile_h as int, 0xffff_ffff, rows as int, 0xffff_ffff_ffff_ffff);
    }
    let cw_wide: u64 = (tile_w as u64) * (cols as u64);
    if cw_wide > u32::MAX as u64 {
        return Err(ComposeError::CanvasTooLarge);
    }
    let ch_wide: u128 = (tile_h as u128) * (rows as u128);
    if ch_wide > u32::MAX as u128 {
        return Err(ComposeError::CanvasTooLarge);
    }
    proof {
        lemma_mul_upper_bound(
            4 * (cw_wide as int),
            (4 * 0xffff_ffffu64) as int,
            ch_wide as int,
            0xffff_ffff as int,
        );
    }
    if 4u128 * (cw_wide as u128) * ch_wide > usize::MAX as u128 {
        return Err(ComposeError::CanvasTooLarge);
    }
    let canvas_width = cw_wide as u32;
    let canvas_height = ch_wide as u32;
    let mut placements: Vec<Placement> = Vec::new();
    let mut k: usize = 0;
    while k < count
        invariant
            k <= count,
            cols == spec_normalize_cols(max_cols),
            cols >= 1,
            tile_w * cols <= u32::MAX,
            tile_h * (rows as nat) <= u32::MAX,
            rows == spec_max_rows(count as nat, cols as nat),
            placements.len() == k,
            forall|j: int|
                0 <= j < k ==> #[trigger] placements[j].x == (j % (cols as int)) * tile_w,
            forall|j: int|
                0 <= j < k ==> #[trigger] placements[j].y == (j / (cols as int)) * tile_h,
        decreases count - k,
    {
        let col = k % (cols as usize);
        let row = k / (cols as usize);
        proof {
            lemma_mod_division_less_than_divisor(k as int, cols as int);
            lemma_mul_inequality(col as int + 1, cols as int, tile_w as int);
            assert((col as int + 1) * tile_w == (col as int) * tile_w + tile_w)
                by (nonlinear_arith);
            assert((cols as int) * tile_w == tile_w * cols) by (nonlinear_arith);
            lemma_row_bounded(count as nat, cols as nat, k as nat);
            lemma_mul_inequality(row as int + 1, rows as int, tile_h as int);
            assert((row as int + 1) * tile_h == (row as int) * tile_h + tile_h)
                by (nonlinear_arith);
            assert((rows as int) * tile_h == tile_h * (rows as int)) by (nonlinear_arith);
        }
        let x = ((col as u64) * (tile_w as u64)) as u32;
        let y = ((row as u64) * (tile_h as u64)) as u32;
        placements.push(Placement { x, y });
        k = k + 1;
    }
    Ok(
        Plan {
            tile_width: tile_w,
            tile_height: tile_h,
            cols,
            rows,
            canvas_width,
            canvas_height,
            placements,
        },
    )
}

/// A slot index below `count` lands on a row below the derived row count.
pub proof fn lemma_row_bounded(count: nat, cols: nat, k: nat)
    requires
        cols >= 1,
        k < count,
    ensures
        k / cols < spec_max_rows(count, cols),
{
    let rows = spec_max_rows(count, cols);
    lemma_max_rows_covers(count, cols);
    assert(k as int <= rows * cols - 1);
    assert(rows * cols - 1 == (rows as int - 1) * (cols as int) + (cols as int - 1))
        by (nonlinear_arith);
    lemma_fundamental_div_mod_converse(
        rows * cols - 1,
        cols as int,
        rows as int - 1,
        cols as int - 1,
    );
    lemma_div_is_ordered(k as int, rows * cols - 1, cols as int);
}

/// Every slot of a correct plan lies fully inside the canvas: the copy
/// target of a tile-sized image can never exceed the canvas bounds.
pub proof fn lemma_plan_in_bounds(p: Plan, tile_w: u32, tile_h: u32, count: nat, max_cols: u32)
    requires
        plan_matches(p, tile_w, tile_h, count, max_cols),
    ensures
        forall|k: int|
            0 <= k < count ==> #[trigger] p.placements[k].x + tile_w <= p.canvas_width,
        forall|k: int|
            0 <= k < count ==> #[trigger] p.placements[k].y + tile_h <= p.canvas_height,
{
    let cols = spec_normalize_cols(max_cols) as int;
    let rows = spec_max_rows(count, cols as nat) as int;
    assert forall|k: int| 0 <= k < count implies #[trigger] p.placements[k].x + tile_w
        <= p.canvas_width by {
        assert(p.placements[k].x == (k % cols) * tile_w);
        lemma_mod_division_less_than_divisor(k, cols);
        assert((k % cols + 1) * tile_w == (k % cols) * tile_w + tile_w) by (nonlinear_arith);
        lemma_mul_inequality(k % cols + 1, cols, tile_w as int);
        assert(cols * tile_w == tile_w * cols) by (nonlinear_arith);
    }
    assert forall|k: int| 0 <= k < count implies #[trigger] p.placements[k].y + tile_h
        <= p.canvas_height by {
        assert(p.placements[k].y == (k / cols) * tile_h);
        lemma_row_bounded(count, cols as nat, k as nat);
        assert((k / cols + 1) * tile_h == (k / cols) * tile_h + tile_h) by (nonlinear_arith);
        lemma_mul_inequality(k / cols + 1, rows, tile_h as int);
        assert(rows * tile_h == tile_h * rows) by (nonlinear_arith);
    }
}

/// Distinct slots occupy disjoint tile rectangles: a point inside slot
/// `t`'s tile lies outside slot `k`'s tile.
pub proof fn lemma_slots_disjoint(
    t: int,
    k: int,
    cols: int,
    tile_w: u32,
    tile_h: u32,
    u: int,
    v: int,
)
    requires
        cols >= 1,
        0 <= t,
        0 <= k,
        t != k,
        (t % cols) * tile_w <= u < (t % cols) * tile_w + tile_w,
        (t / cols) * tile_h <= v < (t / cols) * tile_h + tile_h,
    ensures
        !((k % cols) * tile_w <= u < (k % cols) * tile_w + tile_w && (k / cols) * tile_h <= v < (
        k / cols) * tile_h + tile_h),
{
    let ct = t % cols;
    let rt = t / cols;
    let ck = k % cols;
    let rk = k / cols;
    if ck * tile_w <= u < ck * tile_w + tile_w && rk * tile_h <= v < rk * tile_h + tile_h {
        lemma_mod_division_less_than_divisor(t, cols);
        lemma_mod_division_less_than_divisor(k, cols);
        if ct < ck {
            assert((ct + 1) * tile_w == ct * tile_w + tile_w) by (nonlinear_arith);
            lemma_mul_inequality(ct + 1, ck, tile_w as int);
        }
        if ck < ct {
            assert((ck + 1) * tile_w == ck * tile_w + tile_w) by (nonlinear_arith);
            lemma_mul_inequality(ck + 1, ct, tile_w as int);
        }
        if rt < rk {
            assert((rt + 1) * tile_h == rt * tile_h + tile_h) by (nonlinear_arith);
            lemma_mul_inequality(rt + 1, rk, tile_h as int);
        }
        if rk < rt {
            assert((rk + 1) * tile_h == rk * tile_h + tile_h) by (nonlinear_arith);
            lemma_mul_inequality(rk + 1, rt, tile_h as int);
        }
        assert(ct == ck && rt == rk);
        lemma_fundamental_div_mod(t, cols);
        lemma_fundamental_div_mod(k, cols);
        assert(false);
    }
}

/// Slot assignment is deterministic: any two plans for the same tile size,
/// tile count and column limit agree on every field and every placement.
pub proof fn lemma_plan_deterministic(
    p1: Plan,
    p2: Plan,
    tile_w: u32,
    tile_h: u32,
    count: nat,
    max_cols: u32,
)
    requires
        plan_matches(p1, tile_w, tile_h, count, max_cols),
        plan_matches(p2, tile_w, tile_h, count, max_cols),
    ensures
        p1.tile_width == p2.tile_width,
        p1.tile_height == p2.tile_height,
        p1.cols == p2.cols,
        p1.rows == p2.rows,
        p1.canvas_width == p2.canvas_width,
        p1.canvas_height == p2.canvas_height,
        p1.placements@ == p2.placements@,
{
    let cols = spec_normalize_cols(max_cols) as int;
    assert forall|k: int| 0 <= k < count implies p1.placements@[k] == p2.placements@[k] by {
        assert(p1.placements[k].x == (k % cols) * tile_w);
        assert(p2.placements[k].x == (k % cols) * tile_w);
        assert(p1.placements[k].y == (k / cols) * tile_h);
        assert(p2.placements[k].y == (k / cols) * tile_h);
    }
    assert(p1.placements@ =~= p2.placements@);
}

/// A column limit of zero behaves exactly like a column limit of one.
pub proof fn lemma_zero_cols_same_as_one(p: Plan, tile_w: u32, tile_h: u32, count: nat)
    ensures
        plan_matches(p, tile_w, tile_h, count, 0) <==> plan_matches(p, tile_w, tile_h, count, 1),
        spec_canvas_fits(tile_w, tile_h, count, 0) <==> spec_canvas_fits(tile_w, tile_h, count, 1),
{
}

} // verus!
