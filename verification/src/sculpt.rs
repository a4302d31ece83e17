//! The triangle indices of a sculpted prim: a `width` by `height` grid of
//! vertices (row by row), two triangles per grid cell, and for wrapping
//! sculpt types the seams joining the last column to the first and the last
//! row to the first.
use vstd::prelude::*;

verus! {

/// The two triangles of the cell whose top-left vertex is `a` and whose
/// bottom-left vertex is `b`.
pub open spec fn cell(a: int, b: int) -> Seq<u32> {
    seq![a as u32, (a + 1) as u32, b as u32, b as u32, (a + 1) as u32, (b + 1) as u32]
}

/// The cells of row `y` up to column `n`.
pub open spec fn grid_row(w: int, y: int, n: int) -> Seq<u32>
    decreases n,
{
    if n <= 0 {
        seq![]
    } else {
        grid_row(w, y, n - 1) + cell(y * w + n - 1, (y + 1) * w + n - 1)
    }
}

/// The cells of the first `m` rows.
pub open spec fn grid(w: int, m: int) -> Seq<u32>
    decreases m,
{
    if m <= 0 {
        seq![]
    } else {
        grid(w, m - 1) + grid_row(w, m - 1, w - 1)
    }
}

/// The two triangles joining the last column of row `y` to its first.
pub open spec fn side_seam(w: int, y: int) -> Seq<u32> {
    let curr = y * w + (w - 1);
    let next = (y + 1) * w + (w - 1);
    let wrap_curr = y * w;
    let wrap_next = (y + 1) * w;
    seq![
        curr as u32,
        wrap_curr as u32,
        next as u32,
        next as u32,
        wrap_curr as u32,
        wrap_next as u32,
    ]
}

/// The side seams of the first `n` rows.
pub open spec fn side_seams(w: int, n: int) -> Seq<u32>
    decreases n,
{
    if n <= 0 {
        seq![]
    } else {
        side_seams(w, n - 1) + side_seam(w, n - 1)
    }
}

/// The two triangles joining column `x` of the last row to the first row.
pub open spec fn end_seam(w: int, h: int, x: int) -> Seq<u32> {
    let curr = (h - 1) * w + x;
    let next = (h - 1) * w + x + 1;
    seq![curr as u32, next as u32, x as u32, x as u32, next as u32, (x + 1) as u32]
}

/// The end seams of the first `n` columns.
pub open spec fn end_seams(w: int, h: int, n: int) -> Seq<u32>
    decreases n,
{
    if n <= 0 {
        seq![]
    } else {
        end_seams(w, h, n - 1) + end_seam(w, h, n - 1)
    }
}

/// The indices of a sculpt grid: its cells, then the side seams when it
/// wraps around horizontally, then the end seams when it also wraps
/// vertically.
pub open spec fn sculpt_indices(w: int, h: int, wrap_horizontal: bool, wrap_vertical: bool) -> Seq<u32> {
    grid(w, h - 1) + (if wrap_horizontal {
        side_seams(w, h - 1)
    } else {
        seq![]
    }) + (if wrap_vertical {
        end_seams(w, h, w - 1)
    } else {
        seq![]
    })
}

proof fn lemma_vertex_bound(y: int, x: int, w: int, h: int)
    requires
        0 <= y < h,
        0 <= x < w,
    ensures
        0 <= y * w + x < w * h,
        0 <= y * w,
{
    assert(y * w + x < w * h) by (nonlinear_arith)
        requires
            0 <= y < h,
            0 <= x < w,
    ;
    assert(0 <= y * w) by (nonlinear_arith)
        requires
            0 <= y,
            0 <= w,
    ;
}

/// Every index names a vertex of the grid: each is below `width * height`.
pub proof fn lemma_sculpt_indices_in_range(w: int, h: int, wrap_horizontal: bool, wrap_vertical: bool)
    requires
        w >= 1,
        h >= 1,
        w * h <= 0x1_0000_0000,
    ensures
        forall|i: int|
            0 <= i < sculpt_indices(w, h, wrap_horizontal, wrap_vertical).len() ==> #[trigger] sculpt_indices(
                w,
                h,
                wrap_horizontal,
                wrap_vertical,
            )[i] < w * h,
{
    lemma_grid_in_range(w, h, h - 1);
    lemma_side_seams_in_range(w, h, h - 1);
    lemma_end_seams_in_range(w, h, w - 1);
    let g = grid(w, h - 1);
    let s: Seq<u32> = if wrap_horizontal {
        side_seams(w, h - 1)
    } else {
        seq![]
    };
    let e: Seq<u32> = if wrap_vertical {
        end_seams(w, h, w - 1)
    } else {
        seq![]
    };
    let all = sculpt_indices(w, h, wrap_horizontal, wrap_vertical);
    assert(all == g + s + e);
    assert forall|i: int| 0 <= i < all.len() implies #[trigger] all[i] < w * h by {
        if i < g.len() {
            assert(all[i] == g[i]);
        } else if i < g.len() + s.len() {
            assert(all[i] == s[i - g.len()]);
        } else {
            assert(all[i] == e[i - g.len() - s.len()]);
        }
    }
}

proof fn lemma_six_below(s: Seq<u32>, bound: int)
    requires
        s.len() == 6,
        s[0] < bound,
        s[1] < bound,
        s[2] < bound,
        s[3] < bound,
        s[4] < bound,
        s[5] < bound,
    ensures
        forall|i: int| 0 <= i < 6 ==> #[trigger] s[i] < bound,
{
    assert forall|i: int| 0 <= i < 6 implies #[trigger] s[i] < bound by {
        assert(i == 0 || i == 1 || i == 2 || i == 3 || i == 4 || i == 5);
    }
}

proof fn lemma_grid_row_in_range(w: int, h: int, y: int, n: int)
    requires
        w >= 1,
        0 <= y < h - 1,
        0 <= n <= w - 1,
        w * h <= 0x1_0000_0000,
    ensures
        forall|i: int| 0 <= i < grid_row(w, y, n).len() ==> #[trigger] grid_row(w, y, n)[i] < w * h,
    decreases n,
{
    if n > 0 {
        lemma_grid_row_in_range(w, h, y, n - 1);
        let prev = grid_row(w, y, n - 1);
        let c = cell(y * w + n - 1, (y + 1) * w + n - 1);
        lemma_vertex_bound(y, n, w, h);
        lemma_vertex_bound(y + 1, n, w, h);
        lemma_vertex_bound(y + 1, n - 1, w, h);
        assert((y + 1) * w == y * w + w) by (nonlinear_arith);
        lemma_six_below(c, w * h);
        assert forall|i: int| 0 <= i < grid_row(w, y, n).len() implies #[trigger] grid_row(
            w,
            y,
            n,
        )[i] < w * h by {
            if i >= prev.len() {
                assert(grid_row(w, y, n)[i] == c[i - prev.len()]);
            } else {
                assert(grid_row(w, y, n)[i] == prev[i]);
            }
        }
    }
}

proof fn lemma_grid_in_range(w: int, h: int, m: int)
    requires
        w >= 1,
        0 <= m <= h - 1,
        w * h <= 0x1_0000_0000,
    ensures
        forall|i: int| 0 <= i < grid(w, m).len() ==> #[trigger] grid(w, m)[i] < w * h,
    decreases m,
{
    if m > 0 {
        lemma_grid_in_range(w, h, m - 1);
        lemma_grid_row_in_range(w, h, m - 1, w - 1);
        let prev = grid(w, m - 1);
        let row = grid_row(w, m - 1, w - 1);
        assert forall|i: int| 0 <= i < grid(w, m).len() implies #[trigger] grid(w, m)[i] < w * h by {
            if i >= prev.len() {
                assert(grid(w, m)[i] == row[i - prev.len()]);
            } else {
                assert(grid(w, m)[i] == prev[i]);
            }
        }
    }
}

proof fn lemma_side_seams_in_range(w: int, h: int, n: int)
    requires
        w >= 1,
        0 <= n <= h - 1,
        w * h <= 0x1_0000_0000,
    ensures
        forall|i: int| 0 <= i < side_seams(w, n).len() ==> #[trigger] side_seams(w, n)[i] < w * h,
    decreases n,
{
    if n > 0 {
        lemma_side_seams_in_range(w, h, n - 1);
        let y = n - 1;
        lemma_vertex_bound(y, w - 1, w, h);
        lemma_vertex_bound(y + 1, w - 1, w, h);
        lemma_vertex_bound(y, 0, w, h);
        lemma_vertex_bound(y + 1, 0, w, h);
        let prev = side_seams(w, n - 1);
        let s = side_seam(w, y);
        lemma_six_below(s, w * h);
        assert forall|i: int| 0 <= i < side_seams(w, n).len() implies #[trigger] side_seams(
            w,
            n,
        )[i] < w * h by {
            if i >= prev.len() {
                assert(side_seams(w, n)[i] == s[i - prev.len()]);
            } else {
                assert(side_seams(w, n)[i] == prev[i]);
            }
        }
    }
}

proof fn lemma_end_seams_in_range(w: int, h: int, n: int)
    requires
        w >= 1,
        h >= 1,
        0 <= n <= w - 1,
        w * h <= 0x1_0000_0000,
    ensures
        forall|i: int| 0 <= i < end_seams(w, h, n).len() ==> #[trigger] end_seams(w, h, n)[i] < w * h,
    decreases n,
{
    if n > 0 {
        lemma_end_seams_in_range(w, h, n - 1);
        let x = n - 1;
        lemma_vertex_bound(h - 1, x, w, h);
        lemma_vertex_bound(h - 1, x + 1, w, h);
        lemma_vertex_bound(0, x + 1, w, h);
        let prev = end_seams(w, h, n - 1);
        let s = end_seam(w, h, x);
        lemma_six_below(s, w * h);
        assert forall|i: int| 0 <= i < end_seams(w, h, n).len() implies #[trigger] end_seams(
            w,
            h,
            n,
        )[i] < w * h by {
            if i >= prev.len() {
                assert(end_seams(w, h, n)[i] == s[i - prev.len()]);
            } else {
                assert(end_seams(w, h, n)[i] == prev[i]);
            }
        }
    }
}

fn push_six(out: &mut Vec<u32>, a: u32, b: u32, c: u32, d: u32, e: u32, f: u32)
    ensures
        final(out)@ == old(out)@ + seq![a, b, c, d, e, f],
{
    out.push(a);
    out.push(b);
    out.push(c);
    out.push(d);
    out.push(e);
    out.push(f);
    assert(final(out)@ =~= old(out)@ + seq![a, b, c, d, e, f]);
}

/// The triangle indices of a `width` by `height` sculpt grid (see
/// [`sculpt_indices`]); every index is below `width * height`.
#[verifier::spinoff_prover]
pub fn sculpt_grid_indices(width: u32, height: u32, wrap_horizontal: bool, wrap_vertical: bool) -> (r:
    Vec<u32>)
    requires
        width >= 1,
        height >= 1,
        width * height <= 0x1_0000_0000,
    ensures
        r@ == sculpt_indices(width as int, height as int, wrap_horizontal, wrap_vertical),
        forall|i: int| 0 <= i < r@.len() ==> #[trigger] r@[i] < width * height,
{
    let ghost w = width as int;
    let ghost h = height as int;
    let wd: u64 = width as u64;
    let mut out: Vec<u32> = Vec::new();
    let mut y: u32 = 0;
    while y < height - 1
        invariant
            w == width,
            h == height,
            wd == width,
            width >= 1,
            width * height <= 0x1_0000_0000,
            y <= height - 1,
            out@ == grid(w, y as int),
        decreases height - 1 - y,
    {
        let mut x: u32 = 0;
        while x < width - 1
            invariant
                w == width,
                h == height,
                wd == width,
                width >= 1,
                width * height <= 0x1_0000_0000,
                y < height - 1,
                x <= width - 1,
                out@ == grid(w, y as int) + grid_row(w, y as int, x as int),
            decreases width - 1 - x,
        {
            proof {
                lemma_vertex_bound(y as int, x as int + 1, w, h);
                lemma_vertex_bound(y as int + 1, x as int + 1, w, h);
                assert((y + 1) * w == y * w + w) by (nonlinear_arith);
            }
            let curr: u64 = y as u64 * wd + x as u64;
            let next: u64 = (y as u64 + 1) * wd + x as u64;
            let ghost before = out@;
            push_six(
                &mut out,
                curr as u32,
                (curr + 1) as u32,
                next as u32,
                next as u32,
                (curr + 1) as u32,
                (next + 1) as u32,
            );
            assert(out@ =~= grid(w, y as int) + grid_row(w, y as int, x + 1));
            x += 1;
        }
        assert(grid(w, y + 1) == grid(w, y as int) + grid_row(w, y as int, w - 1));
        y += 1;
    }
    if wrap_horizontal {
        let ghost base = out@;
        let mut y: u32 = 0;
        while y < height - 1
            invariant
                w == width,
                h == height,
                wd == width,
                width >= 1,
                width * height <= 0x1_0000_0000,
                y <= height - 1,
                out@ == base + side_seams(w, y as int),
            decreases height - 1 - y,
        {
            proof {
                lemma_vertex_bound(y as int + 1, w - 1, w, h);
                lemma_vertex_bound(y as int, w - 1, w, h);
                lemma_vertex_bound(y as int + 1, 0, w, h);
            }
            let curr: u64 = y as u64 * wd + (wd - 1);
            let next: u64 = (y as u64 + 1) * wd + (wd - 1);
            let wrap_curr: u64 = y as u64 * wd;
            let wrap_next: u64 = (y as u64 + 1) * wd;
            push_six(
                &mut out,
                curr as u32,
                wrap_curr as u32,
                next as u32,
                next as u32,
                wrap_curr as u32,
                wrap_next as u32,
            );
            assert(out@ =~= base + side_seams(w, y + 1));
            y += 1;
        }
    }
    let ghost mid = out@;
    if wrap_vertical {
        let mut x: u32 = 0;
        while x < width - 1
            invariant
                w == width,
                h == height,
                wd == width,
                width >= 1,
                height >= 1,
                width * height <= 0x1_0000_0000,
                x <= width - 1,
                out@ == mid + end_seams(w, h, x as int),
            decreases width - 1 - x,
        {
            proof {
                lemma_vertex_bound(h - 1, x as int + 1, w, h);
            }
            let last_row: u64 = (height as u64 - 1) * wd;
            let curr: u64 = last_row + x as u64;
            let next: u64 = last_row + x as u64 + 1;
            push_six(
                &mut out,
                curr as u32,
                next as u32,
                x as u32,
                x as u32,
                next as u32,
                (x + 1) as u32,
            );
            assert(out@ =~= mid + end_seams(w, h, x + 1));
            x += 1;
        }
    }
    proof {
        let s: Seq<u32> = if wrap_horizontal {
            side_seams(w, h - 1)
        } else {
            seq![]
        };
        let e: Seq<u32> = if wrap_vertical {
            end_seams(w, h, w - 1)
        } else {
            seq![]
        };
        assert(out@ =~= grid(w, h - 1) + s + e);
        lemma_sculpt_indices_in_range(w, h, wrap_horizontal, wrap_vertical);
        assert(w * h == width * height);
        assert forall|i: int| 0 <= i < out@.len() implies #[trigger] out@[i] < width * height by {
            assert(out@[i] == sculpt_indices(w, h, wrap_horizontal, wrap_vertical)[i]);
        }
    }
    out
}

proof fn lemma_grid_row_len(w: int, y: int, n: int)
    ensures
        grid_row(w, y, n).len() == if n <= 0 {
            0
        } else {
            6 * n
        },
    decreases n,
{
    if n > 0 {
        lemma_grid_row_len(w, y, n - 1);
    }
}

proof fn lemma_grid_len(w: int, m: int)
    requires
        w >= 1,
    ensures
        grid(w, m).len() == if m <= 0 {
            0
        } else {
            6 * (w - 1) * m
        },
    decreases m,
{
    if m > 0 {
        lemma_grid_len(w, m - 1);
        lemma_grid_row_len(w, m - 1, w - 1);
        assert(6 * (w - 1) * (m - 1) + 6 * (w - 1) == 6 * (w - 1) * m) by (nonlinear_arith);
    }
}

proof fn lemma_side_seams_len(w: int, n: int)
    ensures
        side_seams(w, n).len() == if n <= 0 {
            0
        } else {
            6 * n
        },
    decreases n,
{
    if n > 0 {
        lemma_side_seams_len(w, n - 1);
    }
}

proof fn lemma_end_seams_len(w: int, h: int, n: int)
    ensures
        end_seams(w, h, n).len() == if n <= 0 {
            0
        } else {
            6 * n
        },
    decreases n,
{
    if n > 0 {
        lemma_end_seams_len(w, h, n - 1);
    }
}

/// A `w` by `h` sculpt grid has six indices (two triangles) per cell, six
/// per row for the side seams when it wraps horizontally, and six per column
/// for the end seams when it wraps vertically.
pub proof fn lemma_sculpt_index_count(w: int, h: int, wrap_horizontal: bool, wrap_vertical: bool)
    requires
        w >= 1,
        h >= 1,
    ensures
        sculpt_indices(w, h, wrap_horizontal, wrap_vertical).len() == 6 * (w - 1) * (h - 1) + (
        if wrap_horizontal {
            6 * (h - 1)
        } else {
            0
        }) + (if wrap_vertical {
            6 * (w - 1)
        } else {
            0
        }),
{
    lemma_grid_len(w, h - 1);
    lemma_side_seams_len(w, h - 1);
    lemma_end_seams_len(w, h, w - 1);
    if h - 1 <= 0 {
        assert(6 * (w - 1) * (h - 1) == 0) by (nonlinear_arith)
            requires
                h == 1,
        ;
    }
}

/// How a sculpt map's grid is closed: a sphere, torus or cylinder wraps its
/// last column onto its first; a torus also wraps its last row onto its
/// first; a plane does neither.
#[derive(Debug, Clone, Copy, PartialEq, Eq, Hash, Structural)]
pub enum SculptType {
    Sphere,
    Torus,
    Plane,
    Cylinder,
}

/// Whether a sculpt type wraps horizontally and vertically.
pub open spec fn sculpt_wraps(t: SculptType) -> (bool, bool) {
    (t != SculptType::Plane, t == SculptType::Torus)
}

/// The triangle indices of a `width` by `height` sculpt grid of type
/// `sculpt_type` (see [`sculpt_indices`] and [`sculpt_wraps`]).
pub fn sculpt_type_grid_indices(width: u32, height: u32, sculpt_type: SculptType) -> (r: Vec<u32>)
    requires
        width >= 1,
        height >= 1,
        width * height <= 0x1_0000_0000,
    ensures
        r@ == sculpt_indices(
            width as int,
            height as int,
            sculpt_wraps(sculpt_type).0,
            sculpt_wraps(sculpt_type).1,
        ),
        forall|i: int| 0 <= i < r@.len() ==> #[trigger] r@[i] < width * height,
{
    let wrap_horizontal = match sculpt_type {
        SculptType::Plane => false,
        _ => true,
    };
    let wrap_vertical = match sculpt_type {
        SculptType::Torus => true,
        _ => false,
    };
    sculpt_grid_indices(width, height, wrap_horizontal, wrap_vertical)
}

} // verus!
