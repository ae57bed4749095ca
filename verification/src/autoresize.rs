//! The box refinement engine: given a gradient-magnitude raster of the
//! image, search a window around each side of a box for the strongest edge
//! and move the side there, keeping the original box when the evidence is
//! weak or the result degenerate.

use vstd::prelude::*;

verus! {

use crate::{coord_ok, COORD_LIMIT, COORD_SCALE};
use crate::geometry::Rect;

/// Fraction of the box dimension searched on each side of an edge: 30%.
pub const SEARCH_NUM: i64 = 3;

pub const SEARCH_DEN: i64 = 10;

/// Smallest search window, in fixed-point units (5 units).
pub const MIN_SEARCH: i64 = 5_000;

/// Candidate positions sampled along the moving axis.
pub const EDGE_STEPS: i64 = 30;

/// Samples averaged along the perpendicular extent.
pub const PERP_STEPS: i64 = 20;

/// Smallest average gradient accepted as an edge (10.0 on the gradient
/// scale, in thousandths).
pub const CONFIDENCE_FLOOR: u64 = 10_000;

/// Smallest refined width or height that is kept (10 units).
pub const MIN_REFINED_DIM: i64 = 10_000;

/// Hard cap on sampling iterations, far beyond any real image: the sampling
/// loops walk at least one unit per step, so this is never reached in
/// practice.
pub const SAMPLE_CAP: u64 = 1_048_576;

/// A gradient-magnitude raster: one value per pixel, row-major, in
/// thousandths of the gradient scale.
pub struct GradientRaster {
    pub values: Vec<u32>,
    pub width: usize,
    pub height: usize,
}

impl GradientRaster {
    /// The raster holds exactly one value per pixel.
    pub open spec fn wf(&self) -> bool {
        self.values@.len() == self.width * self.height
    }

    /// The magnitude at a pixel.
    fn at(&self, ix: usize, iy: usize) -> (r: u32)
        requires
            self.wf(),
            ix < self.width,
            iy < self.height,
        ensures
            r == self.values@[iy * self.width + ix],
    {
        let n = self.values.len();
        proof {
            assert(iy * self.width + ix < self.width * self.height) by (nonlinear_arith)
                requires
                    ix < self.width,
                    iy < self.height,
            ;
            assert(iy * self.width + ix < n);
        }
        let idx = iy * self.width + ix;
        self.values[idx]
    }
}

/// A fixed-point coordinate squeezed into `[0, limit - 1 unit]`, as the
/// edge search clamps its window before sampling.
pub open spec fn spec_clamp_raster(v: int, limit: int) -> int {
    if v < 0 {
        0
    } else if v > limit - COORD_SCALE {
        limit - COORD_SCALE
    } else {
        v
    }
}

fn clamp_to_raster(v: i64, limit: i64) -> (r: i64)
    requires
        COORD_SCALE <= limit <= COORD_LIMIT,
    ensures
        r == spec_clamp_raster(v as int, limit as int),
        0 <= r <= limit - COORD_SCALE,
{
    if v < 0 {
        0
    } else if v > limit - COORD_SCALE {
        limit - COORD_SCALE
    } else {
        v
    }
}

/// The sampled gradient sum and sample count along a strip.  Starting from
/// position `p` with sample number `k`, positions advance by `step` while
/// they stay at most `p1` and fewer than `SAMPLE_CAP` samples were taken;
/// each position inside the raster contributes the magnitude at pixel
/// `(col(p), row(p))`, where one of the two is the fixed cross coordinate.
/// `along_y` tells which axis the strip runs along.
pub open spec fn spec_strip_samples(
    g: GradientRaster,
    cross: int,
    p: int,
    p1: int,
    step: int,
    k: int,
    along_y: bool,
) -> (int, int)
    decreases SAMPLE_CAP - k,
{
    if k < 0 || k >= SAMPLE_CAP || p > p1 {
        (0, 0)
    } else {
        let rest = spec_strip_samples(g, cross, p + step, p1, step, k + 1, along_y);
        let moving = p / (COORD_SCALE as int);
        let ix = if along_y {
            cross
        } else {
            moving
        };
        let iy = if along_y {
            moving
        } else {
            cross
        };
        if 0 <= ix < g.width && 0 <= iy < g.height {
            (rest.0 + g.values@[iy * g.width + ix], rest.1 + 1)
        } else {
            rest
        }
    }
}

/// The average sampled gradient of a strip: the sample mean, or zero with
/// no samples.
pub open spec fn spec_strip_score(
    g: GradientRaster,
    cross: int,
    p0: int,
    p1: int,
    along_y: bool,
) -> int {
    let step_raw = (p1 - p0) / (PERP_STEPS as int);
    let step = if step_raw >= COORD_SCALE {
        step_raw
    } else {
        COORD_SCALE as int
    };
    let sc = spec_strip_samples(g, cross, p0, p1, step, 0, along_y);
    if sc.1 > 0 {
        sc.0 / sc.1
    } else {
        0
    }
}

/// The average gradient of the column at fixed-point `x` between rows `y0`
/// and `y1`.
pub open spec fn spec_column_score(g: GradientRaster, x: int, y0: int, y1: int) -> int {
    spec_strip_score(g, x / (COORD_SCALE as int), y0, y1, true)
}

/// The average gradient of the row at fixed-point `y` between columns `x0`
/// and `x1`.
pub open spec fn spec_row_score(g: GradientRaster, y: int, x0: int, x1: int) -> int {
    spec_strip_score(g, y / (COORD_SCALE as int), x0, x1, false)
}

/// The strongest sampled candidate of a window, walked from `p` while at
/// most `hi` (and below the sample cap): the first candidate whose score
/// strictly beats every earlier one wins; `(best, best_score)` carries the
/// strongest so far.
pub open spec fn spec_scan_candidates(
    g: GradientRaster,
    p: int,
    hi: int,
    step: int,
    k: int,
    c0: int,
    c1: int,
    best: int,
    best_score: int,
    along_y: bool,
) -> (int, int)
    decreases SAMPLE_CAP - k,
{
    if k < 0 || k >= SAMPLE_CAP || p > hi {
        (best, best_score)
    } else {
        let sc = if along_y {
            spec_column_score(g, p, c0, c1)
        } else {
            spec_row_score(g, p, c0, c1)
        };
        let nb = if sc > best_score {
            p
        } else {
            best
        };
        let ns = if sc > best_score {
            sc
        } else {
            best_score
        };
        spec_scan_candidates(g, p + step, hi, step, k + 1, c0, c1, nb, ns, along_y)
    }
}

/// Where a side of the box moves: the sampled candidate of the clamped
/// window `[lo, hi]` with the strongest average gradient along the clamped
/// perpendicular extent `[c0, c1]`, or `center` when the window or extent
/// is empty or the best average falls below the confidence floor.
/// `along_y` true searches columns (a left or right side), false searches
/// rows (a top or bottom side).
pub open spec fn spec_best_edge(
    g: GradientRaster,
    center: int,
    lo: int,
    hi: int,
    c0: int,
    c1: int,
    move_limit: int,
    cross_limit: int,
    along_y: bool,
) -> int {
    let lo_c = spec_clamp_raster(lo, move_limit);
    let hi_c = spec_clamp_raster(hi, move_limit);
    let c0_c = spec_clamp_raster(c0, cross_limit);
    let c1_c = spec_clamp_raster(c1, cross_limit);
    if lo_c >= hi_c || c0_c >= c1_c {
        center
    } else {
        let step_raw = (hi_c - lo_c) / (EDGE_STEPS as int);
        let step = if step_raw >= COORD_SCALE {
            step_raw
        } else {
            COORD_SCALE as int
        };
        let best = spec_scan_candidates(g, lo_c, hi_c, step, 0, c0_c, c1_c, center, 0, along_y);
        if best.1 < CONFIDENCE_FLOOR {
            center
        } else {
            best.0
        }
    }
}

/// Average gradient along a vertical strip at fixed-point column `x`,
/// sampling the rows between `y0` and `y1`.
fn column_score(g: &GradientRaster, x: i64, y0: i64, y1: i64) -> (r: u64)
    requires
        g.wf(),
        0 <= x,
        0 <= y0 < y1 <= COORD_LIMIT,
    ensures
        r == spec_column_score(*g, x as int, y0 as int, y1 as int),
{
    let ix_raw = x / COORD_SCALE;
    let span = y1 - y0;
    let y_step_raw = span / PERP_STEPS;
    let y_step = if y_step_raw >= COORD_SCALE {
        y_step_raw
    } else {
        COORD_SCALE
    };
    let ghost full = spec_strip_samples(
        *g,
        ix_raw as int,
        y0 as int,
        y1 as int,
        y_step as int,
        0,
        true,
    );
    let mut sum: u128 = 0;
    let mut count: u64 = 0;
    let mut k: u64 = 0;
    let mut y = y0;
    while y <= y1 && k < SAMPLE_CAP
        invariant
            g.wf(),
            0 <= ix_raw,
            COORD_SCALE <= y_step <= COORD_LIMIT,
            0 <= y0 <= y,
            sum <= count as u128 * 0xFFFF_FFFF,
            count <= k <= SAMPLE_CAP,
            y1 <= COORD_LIMIT,
            full == spec_strip_samples(
                *g,
                ix_raw as int,
                y0 as int,
                y1 as int,
                y_step as int,
                0,
                true,
            ),
            ({
                let rest = spec_strip_samples(
                    *g,
                    ix_raw as int,
                    y as int,
                    y1 as int,
                    y_step as int,
                    k as int,
                    true,
                );
                full.0 == sum + rest.0 && full.1 == count + rest.1
            }),
        decreases SAMPLE_CAP - k,
    {
        let ghost rest_at = spec_strip_samples(
            *g,
            ix_raw as int,
            y as int,
            y1 as int,
            y_step as int,
            k as int,
            true,
        );
        let ghost rest_next = spec_strip_samples(
            *g,
            ix_raw as int,
            y as int + y_step as int,
            y1 as int,
            y_step as int,
            k as int + 1,
            true,
        );
        let iy_raw = y / COORD_SCALE;
        let inside = iy_raw >= 0 && (ix_raw as u128) < (g.width as u128) && (iy_raw as u128) < (
        g.height as u128);
        proof {
            assert(iy_raw == y as int / (COORD_SCALE as int));
            if inside {
                assert(rest_at == (
                    rest_next.0 + g.values@[iy_raw * g.width + ix_raw],
                    rest_next.1 + 1,
                ));
            } else {
                assert(rest_at == rest_next);
            }
        }
        if inside {
            let v = g.at(ix_raw as usize, iy_raw as usize);
            proof {
                assert((count + 1) as u128 * 0xFFFF_FFFF == count as u128 * 0xFFFF_FFFF
                    + 0xFFFF_FFFF) by (nonlinear_arith);
            }
            sum = sum + v as u128;
            count = count + 1;
        }
        y = y + y_step;
        k = k + 1;
    }
    proof {
        assert(spec_strip_samples(
            *g,
            ix_raw as int,
            y as int,
            y1 as int,
            y_step as int,
            k as int,
            true,
        ) == (0int, 0int));
        assert(full.0 == sum && full.1 == count);
    }
    if count > 0 {
        proof {
            assert(sum / (count as u128) <= 0xFFFF_FFFF) by (nonlinear_arith)
                requires
                    sum <= count as u128 * 0xFFFF_FFFF,
                    count >= 1,
            ;
        }
        (sum / count as u128) as u64
    } else {
        0
    }
}

/// Average gradient along a horizontal strip at fixed-point row `y`.
fn row_score(g: &GradientRaster, y: i64, x0: i64, x1: i64) -> (r: u64)
    requires
        g.wf(),
        0 <= y,
        0 <= x0 < x1 <= COORD_LIMIT,
    ensures
        r == spec_row_score(*g, y as int, x0 as int, x1 as int),
{
    let iy_raw = y / COORD_SCALE;
    let span = x1 - x0;
    let x_step_raw = span / PERP_STEPS;
    let x_step = if x_step_raw >= COORD_SCALE {
        x_step_raw
    } else {
        COORD_SCALE
    };
    let ghost full = spec_strip_samples(
        *g,
        iy_raw as int,
        x0 as int,
        x1 as int,
        x_step as int,
        0,
        false,
    );
    let mut sum: u128 = 0;
    let mut count: u64 = 0;
    let mut k: u64 = 0;
    let mut x = x0;
    while x <= x1 && k < SAMPLE_CAP
        invariant
            g.wf(),
            0 <= iy_raw,
            COORD_SCALE <= x_step <= COORD_LIMIT,
            0 <= x0 <= x,
            sum <= count as u128 * 0xFFFF_FFFF,
            count <= k <= SAMPLE_CAP,
            x1 <= COORD_LIMIT,
            full == spec_strip_samples(
                *g,
                iy_raw as int,
                x0 as int,
                x1 as int,
                x_step as int,
                0,
                false,
            ),
            ({
                let rest = spec_strip_samples(
                    *g,
                    iy_raw as int,
                    x as int,
                    x1 as int,
                    x_step as int,
                    k as int,
                    false,
                );
                full.0 == sum + rest.0 && full.1 == count + rest.1
            }),
        decreases SAMPLE_CAP - k,
    {
        let ghost rest_at = spec_strip_samples(
            *g,
            iy_raw as int,
            x as int,
            x1 as int,
            x_step as int,
            k as int,
            false,
        );
        let ghost rest_next = spec_strip_samples(
            *g,
            iy_raw as int,
            x as int + x_step as int,
            x1 as int,
            x_step as int,
            k as int + 1,
            false,
        );
        let ix_raw = x / COORD_SCALE;
        let inside = ix_raw >= 0 && (ix_raw as u128) < (g.width as u128) && (iy_raw as u128) < (
        g.height as u128);
        proof {
            assert(ix_raw == x as int / (COORD_SCALE as int));
            if inside {
                assert(rest_at == (
                    rest_next.0 + g.values@[iy_raw * g.width + ix_raw],
                    rest_next.1 + 1,
                ));
            } else {
                assert(rest_at == rest_next);
            }
        }
        if inside {
            let v = g.at(ix_raw as usize, iy_raw as usize);
            proof {
                assert((count + 1) as u128 * 0xFFFF_FFFF == count as u128 * 0xFFFF_FFFF
                    + 0xFFFF_FFFF) by (nonlinear_arith);
            }
            sum = sum + v as u128;
            count = count + 1;
        }
        x = x + x_step;
        k = k + 1;
    }
    proof {
        assert(spec_strip_samples(
            *g,
            iy_raw as int,
            x as int,
            x1 as int,
            x_step as int,
            k as int,
            false,
        ) == (0int, 0int));
        assert(full.0 == sum && full.1 == count);
    }
    if count > 0 {
        proof {
            assert(sum / (count as u128) <= 0xFFFF_FFFF) by (nonlinear_arith)
                requires
                    sum <= count as u128 * 0xFFFF_FFFF,
                    count >= 1,
            ;
        }
        (sum / count as u128) as u64
    } else {
        0
    }
}

/// Search the window `[lo, hi]` of columns for the one with the strongest
/// average gradient along `[y0, y1]`; keep `center` when no column beats
/// the confidence floor.
pub fn find_best_vertical_edge(
    g: &GradientRaster,
    center: i64,
    lo: i64,
    hi: i64,
    y0: i64,
    y1: i64,
    img_w: i64,
    img_h: i64,
) -> (r: i64)
    requires
        g.wf(),
        COORD_SCALE <= img_w <= COORD_LIMIT,
        COORD_SCALE <= img_h <= COORD_LIMIT,
        -4 * COORD_LIMIT <= lo <= 4 * COORD_LIMIT,
        -4 * COORD_LIMIT <= hi <= 4 * COORD_LIMIT,
        -4 * COORD_LIMIT <= y0 <= 4 * COORD_LIMIT,
        -4 * COORD_LIMIT <= y1 <= 4 * COORD_LIMIT,
    ensures
        r == spec_best_edge(
            *g,
            center as int,
            lo as int,
            hi as int,
            y0 as int,
            y1 as int,
            img_w as int,
            img_h as int,
            true,
        ),
        r == center || (0 <= r <= img_w - COORD_SCALE),
{
    let lo_c = clamp_to_raster(lo, img_w);
    let hi_c = clamp_to_raster(hi, img_w);
    let y0_c = clamp_to_raster(y0, img_h);
    let y1_c = clamp_to_raster(y1, img_h);
    if lo_c >= hi_c || y0_c >= y1_c {
        return center;
    }
    let span = hi_c - lo_c;
    let step_raw = span / EDGE_STEPS;
    let step = if step_raw >= COORD_SCALE {
        step_raw
    } else {
        COORD_SCALE
    };
    let ghost full = spec_scan_candidates(
        *g,
        lo_c as int,
        hi_c as int,
        step as int,
        0,
        y0_c as int,
        y1_c as int,
        center as int,
        0,
        true,
    );
    let mut best_x = center;
    let mut best_score: u64 = 0;
    let mut k: u64 = 0;
    let mut x = lo_c;
    while x <= hi_c && k < SAMPLE_CAP
        invariant
            g.wf(),
            COORD_SCALE <= step <= COORD_LIMIT,
            lo_c <= x,
            0 <= lo_c,
            hi_c <= img_w - COORD_SCALE,
            0 <= y0_c < y1_c <= img_h - COORD_SCALE,
            img_h <= COORD_LIMIT,
            img_w <= COORD_LIMIT,
            k <= SAMPLE_CAP,
            best_x == center || lo_c <= best_x <= hi_c,
            full == spec_scan_candidates(
                *g,
                lo_c as int,
                hi_c as int,
                step as int,
                0,
                y0_c as int,
                y1_c as int,
                center as int,
                0,
                true,
            ),
            full == spec_scan_candidates(
                *g,
                x as int,
                hi_c as int,
                step as int,
                k as int,
                y0_c as int,
                y1_c as int,
                best_x as int,
                best_score as int,
                true,
            ),
        decreases SAMPLE_CAP - k,
    {
        let score = column_score(g, x, y0_c, y1_c);
        if score > best_score {
            best_score = score;
            best_x = x;
        }
        x = x + step;
        k = k + 1;
    }
    proof {
        assert(full == (best_x as int, best_score as int));
    }
    if best_score < CONFIDENCE_FLOOR {
        center
    } else {
        best_x
    }
}

/// The horizontal mirror of [`find_best_vertical_edge`].
pub fn find_best_horizontal_edge(
    g: &GradientRaster,
    center: i64,
    lo: i64,
    hi: i64,
    x0: i64,
    x1: i64,
    img_w: i64,
    img_h: i64,
) -> (r: i64)
    requires
        g.wf(),
        COORD_SCALE <= img_w <= COORD_LIMIT,
        COORD_SCALE <= img_h <= COORD_LIMIT,
        -4 * COORD_LIMIT <= lo <= 4 * COORD_LIMIT,
        -4 * COORD_LIMIT <= hi <= 4 * COORD_LIMIT,
        -4 * COORD_LIMIT <= x0 <= 4 * COORD_LIMIT,
        -4 * COORD_LIMIT <= x1 <= 4 * COORD_LIMIT,
    ensures
        r == spec_best_edge(
            *g,
            center as int,
            lo as int,
            hi as int,
            x0 as int,
            x1 as int,
            img_h as int,
            img_w as int,
            false,
        ),
        r == center || (0 <= r <= img_h - COORD_SCALE),
{
    let lo_c = clamp_to_raster(lo, img_h);
    let hi_c = clamp_to_raster(hi, img_h);
    let x0_c = clamp_to_raster(x0, img_w);
    let x1_c = clamp_to_raster(x1, img_w);
    if lo_c >= hi_c || x0_c >= x1_c {
        return center;
    }
    let span = hi_c - lo_c;
    let step_raw = span / EDGE_STEPS;
    let step = if step_raw >= COORD_SCALE {
        step_raw
    } else {
        COORD_SCALE
    };
    let ghost full = spec_scan_candidates(
        *g,
        lo_c as int,
        hi_c as int,
        step as int,
        0,
        x0_c as int,
        x1_c as int,
        center as int,
        0,
        false,
    );
    let mut best_y = center;
    let mut best_score: u64 = 0;
    let mut k: u64 = 0;
    let mut y = lo_c;
    while y <= hi_c && k < SAMPLE_CAP
        invariant
            g.wf(),
            COORD_SCALE <= step <= COORD_LIMIT,
            lo_c <= y,
            0 <= lo_c,
            hi_c <= img_h - COORD_SCALE,
            0 <= x0_c < x1_c <= img_w - COORD_SCALE,
            img_h <= COORD_LIMIT,
            img_w <= COORD_LIMIT,
            k <= SAMPLE_CAP,
            best_y == center || lo_c <= best_y <= hi_c,
            full == spec_scan_candidates(
                *g,
                lo_c as int,
                hi_c as int,
                step as int,
                0,
                x0_c as int,
                x1_c as int,
                center as int,
                0,
                false,
            ),
            full == spec_scan_candidates(
                *g,
                y as int,
                hi_c as int,
                step as int,
                k as int,
                x0_c as int,
                x1_c as int,
                best_y as int,
                best_score as int,
                false,
            ),
        decreases SAMPLE_CAP - k,
    {
        let score = row_score(g, y, x0_c, x1_c);
        if score > best_score {
            best_score = score;
            best_y = y;
        }
        y = y + step;
        k = k + 1;
    }
    proof {
        assert(full == (best_y as int, best_score as int));
    }
    if best_score < CONFIDENCE_FLOOR {
        center
    } else {
        best_y
    }
}

/// Assemble the four refined edges into a box.  A degenerate result — width
/// or height below `MIN_REFINED_DIM` — discards the refinement and keeps
/// the original box unchanged; otherwise the box is clamped into
/// `[0, img_w] x [0, img_h]`.
pub open spec fn spec_assemble(
    bbox: Rect,
    left: int,
    right: int,
    top: int,
    bottom: int,
    img_w: int,
    img_h: int,
) -> Rect {
    let w = right - left;
    let h = bottom - top;
    if w < MIN_REFINED_DIM || h < MIN_REFINED_DIM {
        bbox
    } else {
        let fx = if left >= 0 {
            left
        } else {
            0
        };
        let fy = if top >= 0 {
            top
        } else {
            0
        };
        let rx = if left + w <= img_w {
            left + w
        } else {
            img_w
        };
        let by = if top + h <= img_h {
            top + h
        } else {
            img_h
        };
        Rect { x: fx as i64, y: fy as i64, width: (rx - fx) as i64, height: (by - fy) as i64 }
    }
}

/// Exec form of [`spec_assemble`].
pub fn assemble_refined(
    bbox: Rect,
    left: i64,
    right: i64,
    top: i64,
    bottom: i64,
    img_w: i64,
    img_h: i64,
) -> (r: Rect)
    requires
        -4 * COORD_LIMIT <= left <= 4 * COORD_LIMIT,
        -4 * COORD_LIMIT <= right <= 4 * COORD_LIMIT,
        -4 * COORD_LIMIT <= top <= 4 * COORD_LIMIT,
        -4 * COORD_LIMIT <= bottom <= 4 * COORD_LIMIT,
        COORD_SCALE <= img_w <= COORD_LIMIT,
        COORD_SCALE <= img_h <= COORD_LIMIT,
    ensures
        r == spec_assemble(
            bbox,
            left as int,
            right as int,
            top as int,
            bottom as int,
            img_w as int,
            img_h as int,
        ),
{
    let w = right - left;
    let h = bottom - top;
    if w < MIN_REFINED_DIM || h < MIN_REFINED_DIM {
        bbox
    } else {
        let fx = if left >= 0 {
            left
        } else {
            0
        };
        let fy = if top >= 0 {
            top
        } else {
            0
        };
        let rx = if left + w <= img_w {
            left + w
        } else {
            img_w
        };
        let by = if top + h <= img_h {
            top + h
        } else {
            img_h
        };
        Rect { x: fx, y: fy, width: rx - fx, height: by - fy }
    }
}

/// The refinement of a box against the raster: each side moves to the
/// strongest sampled edge in a window of 30% of the box dimension (at least
/// 5 units) around it, a side without an edge at or above the confidence
/// floor stays, and the four sides are assembled by [`spec_assemble`].
pub open spec fn spec_refine_box(g: GradientRaster, bbox: Rect, img_w: int, img_h: int) -> Rect {
    let search_w_raw = (bbox.width as int) / (SEARCH_DEN as int) * (SEARCH_NUM as int);
    let search_w = if search_w_raw >= MIN_SEARCH {
        search_w_raw
    } else {
        MIN_SEARCH as int
    };
    let search_h_raw = (bbox.height as int) / (SEARCH_DEN as int) * (SEARCH_NUM as int);
    let search_h = if search_h_raw >= MIN_SEARCH {
        search_h_raw
    } else {
        MIN_SEARCH as int
    };
    let left = spec_best_edge(
        g,
        bbox.x as int,
        bbox.x - search_w,
        bbox.x + search_w,
        bbox.y as int,
        bbox.y + bbox.height,
        img_w,
        img_h,
        true,
    );
    let right = spec_best_edge(
        g,
        bbox.x + bbox.width,
        bbox.x + bbox.width - search_w,
        bbox.x + bbox.width + search_w,
        bbox.y as int,
        bbox.y + bbox.height,
        img_w,
        img_h,
        true,
    );
    let top = spec_best_edge(
        g,
        bbox.y as int,
        bbox.y - search_h,
        bbox.y + search_h,
        bbox.x as int,
        bbox.x + bbox.width,
        img_h,
        img_w,
        false,
    );
    let bottom = spec_best_edge(
        g,
        bbox.y + bbox.height,
        bbox.y + bbox.height - search_h,
        bbox.y + bbox.height + search_h,
        bbox.x as int,
        bbox.x + bbox.width,
        img_h,
        img_w,
        false,
    );
    spec_assemble(bbox, left, right, top, bottom, img_w, img_h)
}

/// Refine a box against the gradient raster: exactly [`spec_refine_box`],
/// and any refinement that differs from the original lies within the image.
pub fn refine_box(g: &GradientRaster, bbox: Rect, img_w: i64, img_h: i64) -> (r: Rect)
    requires
        g.wf(),
        bbox.wf(),
        COORD_SCALE <= img_w <= COORD_LIMIT,
        COORD_SCALE <= img_h <= COORD_LIMIT,
    ensures
        r == spec_refine_box(*g, bbox, img_w as int, img_h as int),
        r == bbox || (0 <= r.x && 0 <= r.y && r.x + r.width <= img_w && r.y + r.height <= img_h),
{
    let search_w_raw = bbox.width / SEARCH_DEN * SEARCH_NUM;
    let search_w = if search_w_raw >= MIN_SEARCH {
        search_w_raw
    } else {
        MIN_SEARCH
    };
    let search_h_raw = bbox.height / SEARCH_DEN * SEARCH_NUM;
    let search_h = if search_h_raw >= MIN_SEARCH {
        search_h_raw
    } else {
        MIN_SEARCH
    };
    let left = find_best_vertical_edge(
        g,
        bbox.x,
        bbox.x - search_w,
        bbox.x + search_w,
        bbox.y,
        bbox.y + bbox.height,
        img_w,
        img_h,
    );
    let right = find_best_vertical_edge(
        g,
        bbox.x + bbox.width,
        bbox.x + bbox.width - search_w,
        bbox.x + bbox.width + search_w,
        bbox.y,
        bbox.y + bbox.height,
        img_w,
        img_h,
    );
    let top = find_best_horizontal_edge(
        g,
        bbox.y,
        bbox.y - search_h,
        bbox.y + search_h,
        bbox.x,
        bbox.x + bbox.width,
        img_w,
        img_h,
    );
    let bottom = find_best_horizontal_edge(
        g,
        bbox.y + bbox.height,
        bbox.y + bbox.height - search_h,
        bbox.y + bbox.height + search_h,
        bbox.x,
        bbox.x + bbox.width,
        img_w,
        img_h,
    );
    assemble_refined(bbox, left, right, top, bottom, img_w, img_h)
}

} // verus!
