//! What holds of every scan, whatever the grid, the viewer and the radius.

use vstd::prelude::*;
use crate::grid::ShadowMap;
use crate::grid::BLOCK;
use crate::grid::VISIBLE;
use crate::rotation::Rotation;
use crate::scan::Sweep;
use crate::slope::lemma_ceil_times;
use crate::slope::lemma_floor_times;
use crate::slope::lemma_ratio_order_chain;
use crate::slope::Ratio;

verus! {

/// A sweep reaches clear cells only: no position that it reaches is blocking.
pub proof fn lemma_arc_lights_clear(
    g: &ShadowMap,
    sw: Sweep,
    d: int,
    min: Ratio,
    max: Ratio,
    x: int,
    y: int,
)
    requires
        g.arc_lights(sw, d, min, max, x, y),
    ensures
        !g.blocked(x, y),
    decreases sw.radius + 1 - d, 1int, 0int,
{
    lemma_row_lights_clear(g, sw, d, min.ceil_times(d), min, max, x, y);
}

/// [`lemma_arc_lights_clear`] for the rest of a row.
pub proof fn lemma_row_lights_clear(
    g: &ShadowMap,
    sw: Sweep,
    d: int,
    i: int,
    min: Ratio,
    max: Ratio,
    x: int,
    y: int,
)
    requires
        g.row_lights(sw, d, i, min, max, x, y),
    ensures
        !g.blocked(x, y),
    decreases sw.radius + 1 - d, 0int, max.floor_times(d) + 1 - i,
{
    if i > max.floor_times(d) {
        lemma_arc_lights_clear(g, sw, d + 1, min, max, x, y);
    } else if g.blocked(sw.position(d, i).0, sw.position(d, i).1) {
        if g.arc_lights(sw, d + 1, min, Ratio::before(i, d), x, y) {
            lemma_arc_lights_clear(g, sw, d + 1, min, Ratio::before(i, d), x, y);
        } else {
            lemma_row_lights_clear(g, sw, d, i + 1, Ratio::after(i, d), max, x, y);
        }
    } else if sw.position(d, i) != (x, y) {
        lemma_row_lights_clear(g, sw, d, i + 1, min, max, x, y);
    }
}

/// A longer sight radius loses nothing: what a sweep reaches with one radius
/// it reaches with every larger one.
pub proof fn lemma_arc_grows_with_radius(
    g: &ShadowMap,
    near: Sweep,
    far: Sweep,
    d: int,
    min: Ratio,
    max: Ratio,
    x: int,
    y: int,
)
    requires
        near.center == far.center,
        near.rotate == far.rotate,
        near.radius <= far.radius,
        g.arc_lights(near, d, min, max, x, y),
    ensures
        g.arc_lights(far, d, min, max, x, y),
    decreases near.radius + 1 - d, 1int, 0int,
{
    lemma_row_grows_with_radius(g, near, far, d, min.ceil_times(d), min, max, x, y);
}

/// [`lemma_arc_grows_with_radius`] for the rest of a row.
pub proof fn lemma_row_grows_with_radius(
    g: &ShadowMap,
    near: Sweep,
    far: Sweep,
    d: int,
    i: int,
    min: Ratio,
    max: Ratio,
    x: int,
    y: int,
)
    requires
        near.center == far.center,
        near.rotate == far.rotate,
        near.radius <= far.radius,
        g.row_lights(near, d, i, min, max, x, y),
    ensures
        g.row_lights(far, d, i, min, max, x, y),
    decreases near.radius + 1 - d, 0int, max.floor_times(d) + 1 - i,
{
    assert(near.position(d, i) == far.position(d, i));
    if i > max.floor_times(d) {
        lemma_arc_grows_with_radius(g, near, far, d + 1, min, max, x, y);
    } else if g.blocked(near.position(d, i).0, near.position(d, i).1) {
        if g.arc_lights(near, d + 1, min, Ratio::before(i, d), x, y) {
            lemma_arc_grows_with_radius(g, near, far, d + 1, min, Ratio::before(i, d), x, y);
        } else {
            lemma_row_grows_with_radius(g, near, far, d, i + 1, Ratio::after(i, d), max, x, y);
        }
    } else if near.position(d, i) != (x, y) {
        lemma_row_grows_with_radius(g, near, far, d, i + 1, min, max, x, y);
    }
}

/// No scan turns a blocking cell into anything else, and none makes a cell
/// blocking: the obstacles after a full scan are the obstacles before it.
pub proof fn lemma_full_scan_keeps_obstacles(
    before: &ShadowMap,
    after: &ShadowMap,
    center: (int, int),
    radius: int,
)
    requires
        after.is_full_scan_of(before, center, radius),
    ensures
        after.same_obstacles(before),
        forall|x: int, y: int| #[trigger] before.cell(x, y) == BLOCK ==> after.cell(x, y) == BLOCK,
{
    let lo = Ratio { num: -1, den: 1 };
    let hi = Ratio { num: 1, den: 1 };
    assert forall|x: int, y: int|
        #![trigger after.cell(x, y)]
        #![trigger before.cell(x, y)]
        after.blocked(x, y) == before.blocked(x, y) by {
        if before.quadrant_lights(center, radius, Rotation::Zero, x, y) {
            lemma_arc_lights_clear(
                before,
                Sweep { center, rotate: Rotation::Zero, radius },
                0,
                lo,
                hi,
                x,
                y,
            );
        }
        if before.quadrant_lights(center, radius, Rotation::Quarter, x, y) {
            lemma_arc_lights_clear(
                before,
                Sweep { center, rotate: Rotation::Quarter, radius },
                0,
                lo,
                hi,
                x,
                y,
            );
        }
        if before.quadrant_lights(center, radius, Rotation::Half, x, y) {
            lemma_arc_lights_clear(
                before,
                Sweep { center, rotate: Rotation::Half, radius },
                0,
                lo,
                hi,
                x,
                y,
            );
        }
        if before.quadrant_lights(center, radius, Rotation::ThreeQuarter, x, y) {
            lemma_arc_lights_clear(
                before,
                Sweep { center, rotate: Rotation::ThreeQuarter, radius },
                0,
                lo,
                hi,
                x,
                y,
            );
        }
    }
}

/// A full scan reads nothing but the obstacles: on two grids with the same
/// obstacles it reaches the same positions.
pub proof fn lemma_full_scan_reads_obstacles(
    g: &ShadowMap,
    h: &ShadowMap,
    center: (int, int),
    radius: int,
    x: int,
    y: int,
)
    requires
        g.same_obstacles(h),
    ensures
        g.full_lights(center, radius, x, y) == h.full_lights(center, radius, x, y),
{
    let lo = Ratio { num: -1, den: 1 };
    let hi = Ratio { num: 1, den: 1 };
    g.lemma_arc_reads_obstacles(h, Sweep { center, rotate: Rotation::Zero, radius }, 0, lo, hi, x, y);
    g.lemma_arc_reads_obstacles(
        h,
        Sweep { center, rotate: Rotation::Quarter, radius },
        0,
        lo,
        hi,
        x,
        y,
    );
    g.lemma_arc_reads_obstacles(h, Sweep { center, rotate: Rotation::Half, radius }, 0, lo, hi, x, y);
    g.lemma_arc_reads_obstacles(
        h,
        Sweep { center, rotate: Rotation::ThreeQuarter, radius },
        0,
        lo,
        hi,
        x,
        y,
    );
}

/// Scanning twice is scanning once: a second full scan from the same viewer
/// with the same radius, on the grid that the first one left, changes
/// nothing.
pub proof fn lemma_full_scan_idempotent(
    before: &ShadowMap,
    once: &ShadowMap,
    twice: &ShadowMap,
    center: (int, int),
    radius: int,
)
    requires
        once.is_full_scan_of(before, center, radius),
        twice.is_full_scan_of(once, center, radius),
    ensures
        twice@ == once@,
{
    lemma_full_scan_keeps_obstacles(before, once, center, radius);
    once.lemma_same_shape_bounds(before);
    assert forall|x: int, y: int| #[trigger] twice.cell(x, y) == once.cell(x, y) by {
        lemma_full_scan_reads_obstacles(once, before, center, radius, x, y);
    }
    assert(twice@.len() == once@.len());
    assert forall|y: int| 0 <= y < once@.len() implies #[trigger] twice@[y] == once@[y] by {
        assert(twice@[y].len() == once@[y].len());
        assert forall|x: int| 0 <= x < once@[y].len() implies #[trigger] twice@[y][x] == once@[y][x] by {
            assert(twice.cell(x, y) == once.cell(x, y));
        }
        assert(twice@[y] =~= once@[y]);
    }
    assert(twice@ =~= once@);
}

/// Seeing farther shows no less: every cell that is visible after a full scan
/// with one radius is visible after a full scan of the same grid, from the
/// same viewer, with any radius at least as large.
pub proof fn lemma_full_scan_grows_with_radius(
    before: &ShadowMap,
    near: &ShadowMap,
    far: &ShadowMap,
    center: (int, int),
    small: int,
    large: int,
)
    requires
        small <= large,
        near.is_full_scan_of(before, center, small),
        far.is_full_scan_of(before, center, large),
    ensures
        forall|x: int, y: int|
            before.full_lights(center, small, x, y) ==> before.full_lights(center, large, x, y),
        forall|x: int, y: int| #[trigger] near.cell(x, y) == VISIBLE ==> far.cell(x, y) == VISIBLE,
{
    let lo = Ratio { num: -1, den: 1 };
    let hi = Ratio { num: 1, den: 1 };
    assert forall|x: int, y: int| before.full_lights(center, small, x, y) implies before.full_lights(
        center,
        large,
        x,
        y,
    ) by {
        if before.quadrant_lights(center, small, Rotation::Zero, x, y) {
            lemma_arc_grows_with_radius(
                before,
                Sweep { center, rotate: Rotation::Zero, radius: small },
                Sweep { center, rotate: Rotation::Zero, radius: large },
                0,
                lo,
                hi,
                x,
                y,
            );
        } else if before.quadrant_lights(center, small, Rotation::Quarter, x, y) {
            lemma_arc_grows_with_radius(
                before,
                Sweep { center, rotate: Rotation::Quarter, radius: small },
                Sweep { center, rotate: Rotation::Quarter, radius: large },
                0,
                lo,
                hi,
                x,
                y,
            );
        } else if before.quadrant_lights(center, small, Rotation::Half, x, y) {
            lemma_arc_grows_with_radius(
                before,
                Sweep { center, rotate: Rotation::Half, radius: small },
                Sweep { center, rotate: Rotation::Half, radius: large },
                0,
                lo,
                hi,
                x,
                y,
            );
        } else {
            lemma_arc_grows_with_radius(
                before,
                Sweep { center, rotate: Rotation::ThreeQuarter, radius: small },
                Sweep { center, rotate: Rotation::ThreeQuarter, radius: large },
                0,
                lo,
                hi,
                x,
                y,
            );
        }
    }
    assert forall|x: int, y: int| #[trigger] near.cell(x, y) == VISIBLE implies far.cell(x, y)
        == VISIBLE by {
    }
}

/// With radius 0 a quadrant reaches the viewer's own cell, if it is clear,
/// and nothing else.
pub proof fn lemma_quadrant_at_zero_radius(
    g: &ShadowMap,
    center: (int, int),
    rotate: Rotation,
    x: int,
    y: int,
)
    ensures
        g.quadrant_lights(center, 0, rotate, x, y) == ((x, y) == center && !g.blocked(
            center.0,
            center.1,
        )),
{
    let sw = Sweep { center, rotate, radius: 0 };
    let lo = Ratio { num: -1, den: 1 };
    let hi = Ratio { num: 1, den: 1 };
    assert(lo.ceil_times(0) == 0);
    assert(hi.floor_times(0) == 0);
    assert(sw.position(0, 0) == center);
    assert(g.arc_lights(sw, 0, lo, hi, x, y) == g.row_lights(sw, 0, 0, lo, hi, x, y));
    assert(!g.arc_lights(sw, 1, lo, hi, x, y));
    assert(g.row_lights(sw, 0, 1, lo, hi, x, y) == g.arc_lights(sw, 1, lo, hi, x, y));
}

/// A full scan with radius 0 sees the viewer's own cell and no other: every
/// other cell keeps its state, and the viewer's cell becomes visible unless
/// it is blocking or lies outside the grid.
pub proof fn lemma_full_scan_at_zero_radius(
    before: &ShadowMap,
    after: &ShadowMap,
    center: (int, int),
)
    requires
        after.is_full_scan_of(before, center, 0),
    ensures
        forall|x: int, y: int| (x, y) != center ==> #[trigger] after.cell(x, y) == before.cell(x, y),
        after.cell(center.0, center.1) == if before.in_bounds(center.0, center.1) && !before.blocked(
            center.0,
            center.1,
        ) {
            VISIBLE
        } else {
            before.cell(center.0, center.1)
        },
{
    assert forall|x: int, y: int|
        before.full_lights(center, 0, x, y) == ((x, y) == center && !before.blocked(
            center.0,
            center.1,
        )) by {
        lemma_quadrant_at_zero_radius(before, center, Rotation::Zero, x, y);
        lemma_quadrant_at_zero_radius(before, center, Rotation::Quarter, x, y);
        lemma_quadrant_at_zero_radius(before, center, Rotation::Half, x, y);
        lemma_quadrant_at_zero_radius(before, center, Rotation::ThreeQuarter, x, y);
    }
    assert forall|x: int, y: int| (x, y) != center implies #[trigger] after.cell(x, y)
        == before.cell(x, y) by {
        assert(!before.full_lights(center, 0, x, y));
    }
    assert(before.full_lights(center, 0, center.0, center.1) == !before.blocked(
        center.0,
        center.1,
    ));
}

/// A sweep stays inside its arc and its radius: a position that it reaches
/// lies in a row from the first one swept to the last one in sight, at an
/// offset whose slope is neither below `min` nor above `max`.
pub proof fn lemma_arc_lights_within_arc(
    g: &ShadowMap,
    sw: Sweep,
    d: int,
    min: Ratio,
    max: Ratio,
    x: int,
    y: int,
)
    requires
        0 <= d,
        min.opens_arc(),
        max.closes_arc(),
        g.arc_lights(sw, d, min, max, x, y),
    ensures
        d <= sw.local(x, y).0 <= sw.radius,
        min.not_above(sw.local(x, y).0, sw.local(x, y).1),
        max.not_below(sw.local(x, y).0, sw.local(x, y).1),
    decreases sw.radius + 1 - d, 1int, 0int,
{
    lemma_ceil_times(min, d);
    assert(min.ceil_times(d) * min.den == min.den * min.ceil_times(d)) by (nonlinear_arith);
    assert(d * min.num == min.num * d) by (nonlinear_arith);
    lemma_row_lights_within_arc(g, sw, d, min.ceil_times(d), min, max, x, y);
}

/// [`lemma_arc_lights_within_arc`] for the rest of a row, from an offset that
/// lies at the arc's lower edge or above it.
pub proof fn lemma_row_lights_within_arc(
    g: &ShadowMap,
    sw: Sweep,
    d: int,
    i: int,
    min: Ratio,
    max: Ratio,
    x: int,
    y: int,
)
    requires
        0 <= d,
        min.opens_arc(),
        max.closes_arc(),
        min.not_above(d, i),
        g.row_lights(sw, d, i, min, max, x, y),
    ensures
        d <= sw.local(x, y).0 <= sw.radius,
        min.not_above(sw.local(x, y).0, sw.local(x, y).1),
        max.not_below(sw.local(x, y).0, sw.local(x, y).1),
    decreases sw.radius + 1 - d, 0int, max.floor_times(d) + 1 - i,
{
    let t = sw.local(x, y);
    let end = max.floor_times(d);
    lemma_floor_times(max, d);
    if i > end {
        lemma_arc_lights_within_arc(g, sw, d + 1, min, max, x, y);
    } else {
        assert(max.not_below(d, i)) by (nonlinear_arith)
            requires
                i <= end,
                max.den > 0,
                end * max.den <= d * max.num,
        ;
        assert(-d <= i) by (nonlinear_arith)
            requires
                0 <= d,
                min.den > 0,
                -min.den <= min.num,
                min.num * d <= i * min.den,
        ;
        assert(i <= d) by (nonlinear_arith)
            requires
                0 <= d,
                max.den > 0,
                max.num <= max.den,
                i * max.den <= max.num * d,
        ;
        if g.blocked(sw.position(d, i).0, sw.position(d, i).1) {
            let hi = Ratio::before(i, d);
            let lo = Ratio::after(i, d);
            if g.arc_lights(sw, d + 1, min, hi, x, y) {
                lemma_arc_lights_within_arc(g, sw, d + 1, min, hi, x, y);
                assert((2 * i - 1) * max.den <= max.num * (2 * d)) by (nonlinear_arith)
                    requires
                        i * max.den <= max.num * d,
                        max.den > 0,
                ;
                assert(t.1 * (2 * d) <= (2 * i - 1) * t.0);
                lemma_ratio_order_chain(t.1, t.0, 2 * i - 1, 2 * d, max.num, max.den);
            } else {
                assert(lo.not_above(d, i + 1)) by (nonlinear_arith)
                    requires
                        0 <= d,
                        lo.num == 2 * i + 1,
                        lo.den == 2 * d,
                ;
                lemma_row_lights_within_arc(g, sw, d, i + 1, lo, max, x, y);
                assert(min.num * (2 * d) <= (2 * i + 1) * min.den) by (nonlinear_arith)
                    requires
                        min.num * d <= i * min.den,
                        min.den > 0,
                ;
                assert((2 * i + 1) * t.0 <= t.1 * (2 * d));
                lemma_ratio_order_chain(min.num, min.den, 2 * i + 1, 2 * d, t.1, t.0);
            }
        } else if sw.position(d, i) == (x, y) {
            assert(t == (d, i));
        } else {
            assert(min.not_above(d, i + 1)) by (nonlinear_arith)
                requires
                    min.num * d <= i * min.den,
                    min.den > 0,
            ;
            lemma_row_lights_within_arc(g, sw, d, i + 1, min, max, x, y);
        }
    }
}

/// Nothing is seen beyond the sight radius: a position that a full scan
/// reaches lies at most `radius` columns and at most `radius` rows from the
/// viewer.
pub proof fn lemma_full_scan_within_radius(
    g: &ShadowMap,
    center: (int, int),
    radius: int,
    x: int,
    y: int,
)
    requires
        g.full_lights(center, radius, x, y),
    ensures
        -radius <= x - center.0 <= radius,
        -radius <= y - center.1 <= radius,
{
    let lo = Ratio { num: -1, den: 1 };
    let hi = Ratio { num: 1, den: 1 };
    if g.quadrant_lights(center, radius, Rotation::Zero, x, y) {
        lemma_arc_lights_within_arc(
            g,
            Sweep { center, rotate: Rotation::Zero, radius },
            0,
            lo,
            hi,
            x,
            y,
        );
    } else if g.quadrant_lights(center, radius, Rotation::Quarter, x, y) {
        lemma_arc_lights_within_arc(
            g,
            Sweep { center, rotate: Rotation::Quarter, radius },
            0,
            lo,
            hi,
            x,
            y,
        );
    } else if g.quadrant_lights(center, radius, Rotation::Half, x, y) {
        lemma_arc_lights_within_arc(
            g,
            Sweep { center, rotate: Rotation::Half, radius },
            0,
            lo,
            hi,
            x,
            y,
        );
    } else {
        lemma_arc_lights_within_arc(
            g,
            Sweep { center, rotate: Rotation::ThreeQuarter, radius },
            0,
            lo,
            hi,
            x,
            y,
        );
    }
}

/// A full scan leaves every cell beyond the sight radius as it was: a cell
/// more than `radius` columns or more than `radius` rows from the viewer
/// keeps its state.
pub proof fn lemma_full_scan_keeps_far_cells(
    before: &ShadowMap,
    after: &ShadowMap,
    center: (int, int),
    radius: int,
)
    requires
        after.is_full_scan_of(before, center, radius),
    ensures
        forall|x: int, y: int|
            !(-radius <= x - center.0 <= radius && -radius <= y - center.1 <= radius)
                ==> #[trigger] after.cell(x, y) == before.cell(x, y),
{
    assert forall|x: int, y: int|
        !(-radius <= x - center.0 <= radius && -radius <= y - center.1
            <= radius) implies #[trigger] after.cell(x, y) == before.cell(x, y) by {
        if before.full_lights(center, radius, x, y) {
            lemma_full_scan_within_radius(before, center, radius, x, y);
        }
    }
}

/// The edges that matter around an obstacle at distance 1 and offset 0, in
/// plain terms: the quadrant's own edges are the slopes -1 and 1, the
/// obstacle's are -1/2 and 1/2.
proof fn lemma_edges_in_plain_terms(r: int, c: int)
    ensures
        (Ratio { num: -1, den: 1 }).not_above(r, c) == (-r <= c),
        (Ratio { num: 1, den: 1 }).not_below(r, c) == (c <= r),
        Ratio::before(0, 1).not_below(r, c) == (2 * c <= -r),
        Ratio::after(0, 1).not_above(r, c) == (r <= 2 * c),
{
    let near = Ratio::before(0, 1);
    let far = Ratio::after(0, 1);
    assert(near.num * r == -r) by (nonlinear_arith)
        requires
            near.num == -1,
    ;
    assert(c * near.den == 2 * c) by (nonlinear_arith)
        requires
            near.den == 2,
    ;
    assert(far.num * r == r) by (nonlinear_arith)
        requires
            far.num == 1,
    ;
    assert(c * far.den == 2 * c) by (nonlinear_arith)
        requires
            far.den == 2,
    ;
}

/// An obstacle that touches the viewer hides what lies straight behind it
/// from its own quadrant: past the obstacle at distance 1 and offset 0, the
/// sweep reaches no cell whose offset is less than half its distance.
pub proof fn lemma_quadrant_shadow(
    g: &ShadowMap,
    center: (int, int),
    radius: int,
    rotate: Rotation,
    d: int,
    i: int,
)
    requires
        g.blocked(
            center.0 + rotate.offset(1, 0).0,
            center.1 + rotate.offset(1, 0).1,
        ),
        d >= 2,
        -d < 2 * i < d,
    ensures
        !g.quadrant_lights(
            center,
            radius,
            rotate,
            center.0 + rotate.offset(d, i).0,
            center.1 + rotate.offset(d, i).1,
        ),
{
    let sw = Sweep { center, rotate, radius };
    let x = sw.position(d, i).0;
    let y = sw.position(d, i).1;
    let lo = Ratio { num: -1, den: 1 };
    let hi = Ratio { num: 1, den: 1 };
    let near = Ratio::before(0, 1);
    let far = Ratio::after(0, 1);
    assert(sw.local(x, y) == (d, i));
    lemma_edges_in_plain_terms(d, i);
    if g.arc_lights(sw, 0, lo, hi, x, y) {
        assert(lo.ceil_times(0) == 0 && hi.floor_times(0) == 0);
        assert(lo.ceil_times(1) == -1 && hi.floor_times(1) == 1);
        assert(g.row_lights(sw, 0, 0, lo, hi, x, y));
        assert(sw.position(0, 0) != (x, y));
        assert(g.row_lights(sw, 0, 1, lo, hi, x, y));
        assert(g.arc_lights(sw, 1, lo, hi, x, y));
        assert(g.row_lights(sw, 1, -1, lo, hi, x, y));
        assert(sw.position(1, -1) != (x, y));
        assert(lo.at_least(Ratio::before(-1, 1)));
        assert(!g.arc_lights(sw, 2, lo, Ratio::before(-1, 1), x, y));
        let m = if g.blocked(sw.position(1, -1).0, sw.position(1, -1).1) {
            Ratio::after(-1, 1)
        } else {
            lo
        };
        assert(g.row_lights(sw, 1, 0, m, hi, x, y));
        assert(g.arc_lights(sw, 2, m, near, x, y) || g.row_lights(sw, 1, 1, far, hi, x, y));
        if g.arc_lights(sw, 2, m, near, x, y) {
            lemma_arc_lights_within_arc(g, sw, 2, m, near, x, y);
            assert(near.not_below(d, i));
            assert(false);
        } else {
            assert(far.not_above(1, 1));
            lemma_row_lights_within_arc(g, sw, 1, 1, far, hi, x, y);
            assert(far.not_above(d, i));
            assert(false);
        }
    }
}

/// A quadrant reaches no cell outside its own quarter of the plane: the
/// offset of a reached cell is at most its distance, to either side.
pub proof fn lemma_quadrant_within_cone(
    g: &ShadowMap,
    center: (int, int),
    radius: int,
    rotate: Rotation,
    x: int,
    y: int,
)
    requires
        g.quadrant_lights(center, radius, rotate, x, y),
    ensures
        0 <= rotate.local(x - center.0, y - center.1).0 <= radius,
        -rotate.local(x - center.0, y - center.1).0 <= rotate.local(x - center.0, y - center.1).1
            <= rotate.local(x - center.0, y - center.1).0,
{
    lemma_arc_lights_within_arc(
        g,
        Sweep { center, rotate, radius },
        0,
        Ratio { num: -1, den: 1 },
        Ratio { num: 1, den: 1 },
        x,
        y,
    );
}

/// An obstacle that touches the viewer casts a shadow straight behind it.
/// With the obstacle at distance 1 and offset 0 of a quadrant, no full scan
/// reaches a cell of that quadrant at distance 2 or more whose offset is less
/// than half its distance, whatever else the grid holds: such a cell is after
/// the scan what it was before.
pub proof fn lemma_adjacent_obstacle_shadow(
    before: &ShadowMap,
    after: &ShadowMap,
    center: (int, int),
    radius: int,
    rotate: Rotation,
    d: int,
    i: int,
)
    requires
        after.is_full_scan_of(before, center, radius),
        before.blocked(
            center.0 + rotate.offset(1, 0).0,
            center.1 + rotate.offset(1, 0).1,
        ),
        d >= 2,
        -d < 2 * i < d,
    ensures
        !before.full_lights(
            center,
            radius,
            center.0 + rotate.offset(d, i).0,
            center.1 + rotate.offset(d, i).1,
        ),
        after.cell(center.0 + rotate.offset(d, i).0, center.1 + rotate.offset(d, i).1)
            == before.cell(center.0 + rotate.offset(d, i).0, center.1 + rotate.offset(d, i).1),
{
    let x = center.0 + rotate.offset(d, i).0;
    let y = center.1 + rotate.offset(d, i).1;
    lemma_quadrant_shadow(before, center, radius, rotate, d, i);
    if before.quadrant_lights(center, radius, Rotation::Zero, x, y) {
        lemma_quadrant_within_cone(before, center, radius, Rotation::Zero, x, y);
    }
    if before.quadrant_lights(center, radius, Rotation::Quarter, x, y) {
        lemma_quadrant_within_cone(before, center, radius, Rotation::Quarter, x, y);
    }
    if before.quadrant_lights(center, radius, Rotation::Half, x, y) {
        lemma_quadrant_within_cone(before, center, radius, Rotation::Half, x, y);
    }
    if before.quadrant_lights(center, radius, Rotation::ThreeQuarter, x, y) {
        lemma_quadrant_within_cone(before, center, radius, Rotation::ThreeQuarter, x, y);
    }
}

/// No obstacle stands in the part of the arc from `lo` to `hi` that lies in
/// the rows from `first` to `last`.
pub open spec fn open_ground(
    g: &ShadowMap,
    sw: Sweep,
    first: int,
    last: int,
    lo: Ratio,
    hi: Ratio,
) -> bool {
    forall|r: int, c: int|
        first <= r <= last && lo.not_above(r, c) && hi.not_below(r, c) ==> !g.blocked(
            (#[trigger] sw.position(r, c)).0,
            sw.position(r, c).1,
        )
}

/// On open ground a sweep misses nothing: it reaches every cell of its arc in
/// every row from the first one swept to the last one in sight.
pub proof fn lemma_open_arc_is_lit(
    g: &ShadowMap,
    sw: Sweep,
    d: int,
    lo: Ratio,
    hi: Ratio,
    td: int,
    ti: int,
)
    requires
        0 <= d <= td <= sw.radius,
        lo.den > 0,
        hi.den > 0,
        !lo.at_least(hi),
        lo.not_above(td, ti),
        hi.not_below(td, ti),
        open_ground(g, sw, d, td, lo, hi),
    ensures
        g.arc_lights(sw, d, lo, hi, sw.position(td, ti).0, sw.position(td, ti).1),
    decreases td - d, 1int, 0int,
{
    let start = lo.ceil_times(d);
    lemma_ceil_times(lo, d);
    assert(lo.not_above(d, start)) by (nonlinear_arith)
        requires
            d * lo.num <= start * lo.den,
    ;
    if td == d {
        assert(start <= ti) by (nonlinear_arith)
            requires
                lo.den > 0,
                (start - 1) * lo.den < d * lo.num,
                lo.num * d <= ti * lo.den,
        ;
    }
    lemma_open_row_is_lit(g, sw, d, start, lo, hi, td, ti);
}

/// [`lemma_open_arc_is_lit`] for the rest of a row, from an offset that lies
/// at the arc's lower edge or above it and is not past the cell in question.
pub proof fn lemma_open_row_is_lit(
    g: &ShadowMap,
    sw: Sweep,
    d: int,
    i: int,
    lo: Ratio,
    hi: Ratio,
    td: int,
    ti: int,
)
    requires
        0 <= d <= td <= sw.radius,
        lo.den > 0,
        hi.den > 0,
        td > d ==> !lo.at_least(hi),
        td == d ==> i <= ti,
        lo.not_above(d, i),
        lo.not_above(td, ti),
        hi.not_below(td, ti),
        open_ground(g, sw, d, td, lo, hi),
    ensures
        g.row_lights(sw, d, i, lo, hi, sw.position(td, ti).0, sw.position(td, ti).1),
    decreases td - d, 0int, hi.floor_times(d) + 1 - i,
{
    let end = hi.floor_times(d);
    lemma_floor_times(hi, d);
    if i > end {
        if td == d {
            assert(ti <= end) by (nonlinear_arith)
                requires
                    hi.den > 0,
                    ti * hi.den <= hi.num * d,
                    d * hi.num < (end + 1) * hi.den,
            ;
        }
        lemma_open_arc_is_lit(g, sw, d + 1, lo, hi, td, ti);
    } else {
        assert(hi.not_below(d, i)) by (nonlinear_arith)
            requires
                i <= end,
                hi.den > 0,
                end * hi.den <= d * hi.num,
        ;
        assert(!g.blocked(sw.position(d, i).0, sw.position(d, i).1));
        if sw.position(d, i) != sw.position(td, ti) {
            assert(lo.not_above(d, i + 1)) by (nonlinear_arith)
                requires
                    lo.num * d <= i * lo.den,
                    lo.den > 0,
            ;
            lemma_open_row_is_lit(g, sw, d, i + 1, lo, hi, td, ti);
        }
    }
}

/// A quadrant without obstacles is seen whole: the sweep reaches every cell
/// of its quarter of the plane that lies within the sight radius.
pub proof fn lemma_open_quadrant_is_lit(
    g: &ShadowMap,
    center: (int, int),
    radius: int,
    rotate: Rotation,
    d: int,
    i: int,
)
    requires
        0 <= d <= radius,
        -d <= i <= d,
        open_ground(
            g,
            Sweep { center, rotate, radius },
            0,
            d,
            Ratio { num: -1, den: 1 },
            Ratio { num: 1, den: 1 },
        ),
    ensures
        g.quadrant_lights(
            center,
            radius,
            rotate,
            center.0 + rotate.offset(d, i).0,
            center.1 + rotate.offset(d, i).1,
        ),
{
    lemma_open_arc_is_lit(
        g,
        Sweep { center, rotate, radius },
        0,
        Ratio { num: -1, den: 1 },
        Ratio { num: 1, den: 1 },
        d,
        i,
    );
}

/// An obstacle that touches the viewer hides nothing beside its shadow.
/// With the obstacle at distance 1 and offset 0 of a quadrant, and no other
/// obstacle in that quarter of the plane, a full scan reaches every cell of
/// the quadrant within the sight radius whose offset is at least half its
/// distance, to either side: such a cell of the grid is visible afterwards.
pub proof fn lemma_adjacent_obstacle_sides(
    before: &ShadowMap,
    after: &ShadowMap,
    center: (int, int),
    radius: int,
    rotate: Rotation,
    d: int,
    i: int,
)
    requires
        after.is_full_scan_of(before, center, radius),
        before.blocked(
            center.0 + rotate.offset(1, 0).0,
            center.1 + rotate.offset(1, 0).1,
        ),
        forall|r: int, c: int|
            0 <= r && -r <= c <= r && (r, c) != (1int, 0int) ==> !before.blocked(
                center.0 + (#[trigger] rotate.offset(r, c)).0,
                center.1 + rotate.offset(r, c).1,
            ),
        1 <= d <= radius,
        -d <= i <= d,
        2 * i <= -d || d <= 2 * i,
    ensures
        before.quadrant_lights(
            center,
            radius,
            rotate,
            center.0 + rotate.offset(d, i).0,
            center.1 + rotate.offset(d, i).1,
        ),
        before.in_bounds(center.0 + rotate.offset(d, i).0, center.1 + rotate.offset(d, i).1)
            ==> after.cell(center.0 + rotate.offset(d, i).0, center.1 + rotate.offset(d, i).1)
            == VISIBLE,
{
    let sw = Sweep { center, rotate, radius };
    let x = sw.position(d, i).0;
    let y = sw.position(d, i).1;
    let lo = Ratio { num: -1, den: 1 };
    let hi = Ratio { num: 1, den: 1 };
    let near = Ratio::before(0, 1);
    let far = Ratio::after(0, 1);
    assert forall|r: int, c: int| 0 <= r && -r <= c <= r && (r, c) != (1int, 0int) implies !before.blocked(
        (#[trigger] sw.position(r, c)).0,
        sw.position(r, c).1,
    ) by {
        assert(sw.position(r, c).0 == center.0 + rotate.offset(r, c).0);
    }
    lemma_edges_in_plain_terms(d, i);
    assert(lo.ceil_times(0) == 0 && hi.floor_times(0) == 0);
    assert(lo.ceil_times(1) == -1 && hi.floor_times(1) == 1);
    assert(!lo.at_least(hi) && !lo.at_least(near) && !far.at_least(hi));
    assert(!before.blocked(sw.position(0, 0).0, sw.position(0, 0).1));
    assert(!before.blocked(sw.position(1, -1).0, sw.position(1, -1).1));
    assert(!before.blocked(sw.position(1, 1).0, sw.position(1, 1).1));
    assert(before.blocked(sw.position(1, 0).0, sw.position(1, 0).1));
    if d >= 2 && 2 * i <= -d {
        assert forall|r: int, c: int|
            2 <= r <= d && lo.not_above(r, c) && near.not_below(r, c) implies !before.blocked(
            (#[trigger] sw.position(r, c)).0,
            sw.position(r, c).1,
        ) by {
            lemma_edges_in_plain_terms(r, c);
        }
        lemma_open_arc_is_lit(before, sw, 2, lo, near, d, i);
    } else if d >= 2 {
        assert forall|r: int, c: int|
            1 <= r <= d && far.not_above(r, c) && hi.not_below(r, c) implies !before.blocked(
            (#[trigger] sw.position(r, c)).0,
            sw.position(r, c).1,
        ) by {
            lemma_edges_in_plain_terms(r, c);
        }
        assert(far.not_above(1, 1));
        lemma_open_row_is_lit(before, sw, 1, 1, far, hi, d, i);
    } else if i == 1 {
        assert(before.row_lights(sw, 1, 1, far, hi, x, y));
    }
    assert(before.row_lights(sw, 1, 1, far, hi, x, y) || before.arc_lights(sw, 2, lo, near, x, y) || (d, i)
        == (1int, -1int));
    assert(before.row_lights(sw, 1, 0, lo, hi, x, y) || (d, i) == (1int, -1int));
    assert(before.row_lights(sw, 1, -1, lo, hi, x, y));
    assert(before.arc_lights(sw, 1, lo, hi, x, y));
    assert(before.row_lights(sw, 0, 1, lo, hi, x, y));
    assert(before.row_lights(sw, 0, 0, lo, hi, x, y));
}

} // verus!
