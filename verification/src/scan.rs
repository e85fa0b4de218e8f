//! Recursive shadowcasting. A sweep walks outward from the viewer, one row of
//! cells per distance step, inside an arc given by two slopes. A blocking cell
//! splits the arc: the part before it is swept on its own from the next row
//! on, and the row goes on past it with the arc narrowed to its far edge.

use vstd::prelude::*;
use crate::grid::ShadowMap;
use crate::grid::BLOCK;
use crate::grid::VISIBLE;
use crate::rotation::Rotation;
use crate::slope::lemma_offsets_within_row;
use crate::slope::Ratio;
use crate::slope::Slope;

verus! {

/// How far a viewer sees when nothing else is asked for, in rows of cells.
pub const SIGHT_RADIUS: u32 = 20;

/// What stays fixed while one quadrant is swept: where the viewer stands,
/// which way the rows run, and how far the viewer sees.
pub struct Sweep {
    pub center: (int, int),
    pub rotate: Rotation,
    pub radius: int,
}

impl Sweep {
    /// The grid position of the cell at forward distance `d` and lateral
    /// offset `i`.
    pub open spec fn position(self, d: int, i: int) -> (int, int) {
        (self.center.0 + self.rotate.offset(d, i).0, self.center.1 + self.rotate.offset(d, i).1)
    }

    /// The forward distance and lateral offset at which this sweep meets the
    /// grid position `(x, y)`: the inverse of [`Sweep::position`].
    pub open spec fn local(self, x: int, y: int) -> (int, int) {
        self.rotate.local(x - self.center.0, y - self.center.1)
    }
}

impl ShadowMap {
    /// Whether sweeping the arc from `min` to `max`, from the row at distance
    /// `d` outward, reaches the position `(x, y)` and finds it clear.
    ///
    /// Nothing is reached beyond the sight radius, nor through an arc whose
    /// lower edge is not below its upper edge. Otherwise the row at `d` is
    /// walked from its first offset, the ceiling of `d * min`.
    pub open spec fn arc_lights(
        &self,
        sw: Sweep,
        d: int,
        min: Ratio,
        max: Ratio,
        x: int,
        y: int,
    ) -> bool
        decreases sw.radius + 1 - d, 1int, 0int,
    {
        if d > sw.radius || min.at_least(max) {
            false
        } else {
            self.row_lights(sw, d, min.ceil_times(d), min, max, x, y)
        }
    }

    /// Whether the rest of the row at distance `d`, from offset `i` on, and
    /// all that is swept from there reaches `(x, y)` and finds it clear.
    ///
    /// The row ends after the floor of `d * max`; the sweep then moves to the
    /// next row with the arc as the row left it. A clear cell is reached. A
    /// blocking cell is not: the arc from `min` to half a cell before it is
    /// swept from the next row on, and the row goes on with `min` moved to
    /// half a cell past it. A blocking cell at distance 0 is the viewer's own
    /// cell and hides everything.
    pub open spec fn row_lights(
        &self,
        sw: Sweep,
        d: int,
        i: int,
        min: Ratio,
        max: Ratio,
        x: int,
        y: int,
    ) -> bool
        decreases sw.radius + 1 - d, 0int, max.floor_times(d) + 1 - i,
    {
        if d > sw.radius {
            false
        } else if i > max.floor_times(d) {
            self.arc_lights(sw, d + 1, min, max, x, y)
        } else if self.blocked(sw.position(d, i).0, sw.position(d, i).1) {
            d != 0 && (self.arc_lights(sw, d + 1, min, Ratio::before(i, d), x, y)
                || self.row_lights(sw, d, i + 1, Ratio::after(i, d), max, x, y))
        } else {
            sw.position(d, i) == (x, y) || self.row_lights(sw, d, i + 1, min, max, x, y)
        }
    }

    /// Whether a full scan from `center` with the given sight radius reaches
    /// `(x, y)` through the quadrant that `rotate` names.
    pub open spec fn quadrant_lights(
        &self,
        center: (int, int),
        radius: int,
        rotate: Rotation,
        x: int,
        y: int,
    ) -> bool {
        self.arc_lights(
            Sweep { center, rotate, radius },
            0,
            Ratio { num: -1, den: 1 },
            Ratio { num: 1, den: 1 },
            x,
            y,
        )
    }

    /// Whether a full scan from `center` with the given sight radius reaches
    /// `(x, y)` through any of the four quadrants.
    pub open spec fn full_lights(&self, center: (int, int), radius: int, x: int, y: int) -> bool {
        ||| self.quadrant_lights(center, radius, Rotation::Zero, x, y)
        ||| self.quadrant_lights(center, radius, Rotation::Quarter, x, y)
        ||| self.quadrant_lights(center, radius, Rotation::Half, x, y)
        ||| self.quadrant_lights(center, radius, Rotation::ThreeQuarter, x, y)
    }

    /// `self` is `before` with the cells where `lit` holds marked visible:
    /// the same shape, [`VISIBLE`] at every stored cell where `lit` holds,
    /// and every other cell as it was.
    pub open spec fn is_marking_of(
        &self,
        before: &ShadowMap,
        lit: spec_fn(int, int) -> bool,
    ) -> bool {
        &&& self.same_shape(before)
        &&& forall|x: int, y: int|
            #![trigger self.cell(x, y)]
            #![trigger before.cell(x, y)]
            self.cell(x, y) == if before.in_bounds(x, y) && lit(x, y) {
                VISIBLE
            } else {
                before.cell(x, y)
            }
    }

    /// `self` is what sweeping one arc over `before` leaves.
    pub open spec fn is_arc_scan_of(
        &self,
        before: &ShadowMap,
        sw: Sweep,
        d: int,
        min: Ratio,
        max: Ratio,
    ) -> bool {
        self.is_marking_of(before, |x: int, y: int| before.arc_lights(sw, d, min, max, x, y))
    }

    /// `self` is what a full scan over `before` leaves.
    pub open spec fn is_full_scan_of(
        &self,
        before: &ShadowMap,
        center: (int, int),
        radius: int,
    ) -> bool {
        self.is_marking_of(before, |x: int, y: int| before.full_lights(center, radius, x, y))
    }

    /// Part of a sweep over `before` is done and has left `self`: once the rest
    /// of the row at distance `d`, from offset `i` on with the arc narrowed to
    /// `lo`, is swept too, the grid is what the whole sweep of the arc from
    /// `min` to `max` leaves.
    pub open spec fn awaits_row(
        &self,
        before: &ShadowMap,
        sw: Sweep,
        d: int,
        i: int,
        lo: Ratio,
        min: Ratio,
        max: Ratio,
    ) -> bool {
        forall|x: int, y: int|
            #![trigger self.cell(x, y)]
            #![trigger before.cell(x, y)]
            (if before.in_bounds(x, y) && before.row_lights(sw, d, i, lo, max, x, y) {
                VISIBLE
            } else {
                self.cell(x, y)
            }) == (if before.in_bounds(x, y) && before.arc_lights(sw, d, min, max, x, y) {
                VISIBLE
            } else {
                before.cell(x, y)
            })
    }

    /// Two grids have their blocking cells at the same positions.
    pub open spec fn same_obstacles(&self, other: &ShadowMap) -> bool {
        forall|x: int, y: int|
            #![trigger self.cell(x, y)]
            #![trigger other.cell(x, y)]
            self.blocked(x, y) == other.blocked(x, y)
    }

    /// A sweep looks at nothing but the blocking cells: on two grids with the
    /// same obstacles it reaches the same positions.
    pub proof fn lemma_arc_reads_obstacles(
        &self,
        other: &ShadowMap,
        sw: Sweep,
        d: int,
        min: Ratio,
        max: Ratio,
        x: int,
        y: int,
    )
        requires
            self.same_obstacles(other),
        ensures
            self.arc_lights(sw, d, min, max, x, y) == other.arc_lights(sw, d, min, max, x, y),
        decreases sw.radius + 1 - d, 1int, 0int,
    {
        if d <= sw.radius && !min.at_least(max) {
            self.lemma_row_reads_obstacles(other, sw, d, min.ceil_times(d), min, max, x, y);
        }
    }

    /// [`ShadowMap::lemma_arc_reads_obstacles`] for the rest of a row.
    pub proof fn lemma_row_reads_obstacles(
        &self,
        other: &ShadowMap,
        sw: Sweep,
        d: int,
        i: int,
        min: Ratio,
        max: Ratio,
        x: int,
        y: int,
    )
        requires
            self.same_obstacles(other),
        ensures
            self.row_lights(sw, d, i, min, max, x, y) == other.row_lights(sw, d, i, min, max, x, y),
        decreases sw.radius + 1 - d, 0int, max.floor_times(d) + 1 - i,
    {
        if d <= sw.radius {
            let p = sw.position(d, i);
            assert(self.blocked(p.0, p.1) == other.blocked(p.0, p.1));
            if i > max.floor_times(d) {
                self.lemma_arc_reads_obstacles(other, sw, d + 1, min, max, x, y);
            } else if self.blocked(p.0, p.1) {
                if d != 0 {
                    self.lemma_arc_reads_obstacles(other, sw, d + 1, min, Ratio::before(i, d), x, y);
                    self.lemma_row_reads_obstacles(other, sw, d, i + 1, Ratio::after(i, d), max, x, y);
                }
            } else {
                self.lemma_row_reads_obstacles(other, sw, d, i + 1, min, max, x, y);
            }
        }
    }

    /// A row that ends hands the arc on to the next row.
    proof fn lemma_row_done(
        &self,
        cur: &ShadowMap,
        before: &ShadowMap,
        sw: Sweep,
        d: int,
        i: int,
        lo: Ratio,
        min: Ratio,
        max: Ratio,
    )
        requires
            d <= sw.radius,
            i > max.floor_times(d),
            cur.same_shape(before),
            cur.same_obstacles(before),
            cur.awaits_row(before, sw, d, i, lo, min, max),
            self.is_arc_scan_of(cur, sw, d + 1, lo, max),
        ensures
            self.is_arc_scan_of(before, sw, d, min, max),
    {
        cur.lemma_same_shape_bounds(before);
        assert forall|x: int, y: int|
            #![trigger self.cell(x, y)]
            #![trigger before.cell(x, y)]
            self.cell(x, y) == (if before.in_bounds(x, y) && before.arc_lights(
                sw,
                d,
                min,
                max,
                x,
                y,
            ) {
                VISIBLE
            } else {
                before.cell(x, y)
            }) by {
            cur.lemma_arc_reads_obstacles(before, sw, d + 1, lo, max, x, y);
            assert(before.row_lights(sw, d, i, lo, max, x, y) == before.arc_lights(
                sw,
                d + 1,
                lo,
                max,
                x,
                y,
            ));
            assert(cur.in_bounds(x, y) == before.in_bounds(x, y));
        }
    }

    /// A blocking cell past the viewer splits the arc: once the part before it
    /// is swept, the row goes on behind it.
    proof fn lemma_row_split(
        &self,
        cur: &ShadowMap,
        before: &ShadowMap,
        sw: Sweep,
        d: int,
        i: int,
        lo: Ratio,
        min: Ratio,
        max: Ratio,
    )
        requires
            0 < d <= sw.radius,
            i <= max.floor_times(d),
            before.blocked(sw.position(d, i).0, sw.position(d, i).1),
            cur.same_shape(before),
            cur.same_obstacles(before),
            cur.awaits_row(before, sw, d, i, lo, min, max),
            self.is_arc_scan_of(cur, sw, d + 1, lo, Ratio::before(i, d)),
        ensures
            self.awaits_row(before, sw, d, i + 1, Ratio::after(i, d), min, max),
    {
        cur.lemma_same_shape_bounds(before);
        assert forall|x: int, y: int|
            #![trigger self.cell(x, y)]
            #![trigger before.cell(x, y)]
            (if before.in_bounds(x, y) && before.row_lights(
                sw,
                d,
                i + 1,
                Ratio::after(i, d),
                max,
                x,
                y,
            ) {
                VISIBLE
            } else {
                self.cell(x, y)
            }) == (if before.in_bounds(x, y) && before.arc_lights(sw, d, min, max, x, y) {
                VISIBLE
            } else {
                before.cell(x, y)
            }) by {
            cur.lemma_arc_reads_obstacles(before, sw, d + 1, lo, Ratio::before(i, d), x, y);
            assert(before.row_lights(sw, d, i, lo, max, x, y) == (before.arc_lights(
                sw,
                d + 1,
                lo,
                Ratio::before(i, d),
                x,
                y,
            ) || before.row_lights(sw, d, i + 1, Ratio::after(i, d), max, x, y)));
            assert(cur.in_bounds(x, y) == before.in_bounds(x, y));
        }
    }

    /// A clear cell is marked, and the row goes on with the arc unchanged.
    proof fn lemma_row_clear(
        &self,
        cur: &ShadowMap,
        before: &ShadowMap,
        sw: Sweep,
        d: int,
        i: int,
        lo: Ratio,
        min: Ratio,
        max: Ratio,
    )
        requires
            d <= sw.radius,
            i <= max.floor_times(d),
            !before.blocked(sw.position(d, i).0, sw.position(d, i).1),
            cur.same_shape(before),
            cur.awaits_row(before, sw, d, i, lo, min, max),
            forall|x: int, y: int| #[trigger]
                self.cell(x, y) == if (x, y) == sw.position(d, i) && cur.in_bounds(x, y) {
                    VISIBLE
                } else {
                    cur.cell(x, y)
                },
        ensures
            self.awaits_row(before, sw, d, i + 1, lo, min, max),
    {
        cur.lemma_same_shape_bounds(before);
        assert forall|x: int, y: int|
            #![trigger self.cell(x, y)]
            #![trigger before.cell(x, y)]
            (if before.in_bounds(x, y) && before.row_lights(sw, d, i + 1, lo, max, x, y) {
                VISIBLE
            } else {
                self.cell(x, y)
            }) == (if before.in_bounds(x, y) && before.arc_lights(sw, d, min, max, x, y) {
                VISIBLE
            } else {
                before.cell(x, y)
            }) by {
            assert(before.row_lights(sw, d, i, lo, max, x, y) == (sw.position(d, i) == (x, y)
                || before.row_lights(sw, d, i + 1, lo, max, x, y)));
            assert(cur.in_bounds(x, y) == before.in_bounds(x, y));
        }
    }

    /// A blocking cell under the viewer ends the sweep.
    proof fn lemma_row_hidden(
        &self,
        before: &ShadowMap,
        sw: Sweep,
        i: int,
        lo: Ratio,
        min: Ratio,
        max: Ratio,
    )
        requires
            0 <= sw.radius,
            i <= max.floor_times(0),
            before.blocked(sw.position(0, i).0, sw.position(0, i).1),
            self.same_shape(before),
            self.awaits_row(before, sw, 0, i, lo, min, max),
        ensures
            self.is_arc_scan_of(before, sw, 0, min, max),
    {
        assert forall|x: int, y: int|
            #![trigger self.cell(x, y)]
            #![trigger before.cell(x, y)]
            self.cell(x, y) == (if before.in_bounds(x, y) && before.arc_lights(
                sw,
                0,
                min,
                max,
                x,
                y,
            ) {
                VISIBLE
            } else {
                before.cell(x, y)
            }) by {
            assert(!before.row_lights(sw, 0, i, lo, max, x, y));
        }
    }

    /// Sweeps one arc of one quadrant: marks [`VISIBLE`] every clear cell of
    /// the grid that lies in line of sight between the slopes `min` and
    /// `max`, from the row at `distance` out to the sight radius.
    ///
    /// The slopes lie between -1 and 1; an edge that a split has pushed half
    /// a cell past the end of a row is accepted too. Nothing happens past the
    /// sight radius, nor in an arc whose `min` is not below its `max`.
    pub fn scan_arc(
        &mut self,
        center: (isize, isize),
        distance: u32,
        min: Slope,
        max: Slope,
        rotate: Rotation,
        sight_radius: u32,
    )
        requires
            min@.opens_arc(),
            max@.closes_arc(),
        ensures
            final(self).is_arc_scan_of(
                old(self),
                Sweep {
                    center: (center.0 as int, center.1 as int),
                    rotate,
                    radius: sight_radius as int,
                },
                distance as int,
                min@,
                max@,
            ),
            final(self).same_obstacles(old(self)),
            old(self).wf() ==> final(self).wf(),
        decreases sight_radius - distance,
    {
        if distance > sight_radius || min.at_least(max) {
            return ;
        }
        let ghost sw = Sweep {
            center: (center.0 as int, center.1 as int),
            rotate,
            radius: sight_radius as int,
        };
        let ghost d = distance as int;
        proof {
            lemma_offsets_within_row(min@, max@, d);
        }
        let end = max.last_offset(distance) as i64;
        let mut lo = min;
        let mut i = min.first_offset(distance) as i64;
        while i <= end
            invariant
                sw == (Sweep {
                    center: (center.0 as int, center.1 as int),
                    rotate,
                    radius: sight_radius as int,
                }),
                d == distance,
                distance <= sight_radius,
                end == max@.floor_times(d),
                -d <= i,
                end <= d,
                lo@.opens_arc(),
                max@.closes_arc(),
                self.same_shape(old(self)),
                self.same_obstacles(old(self)),
                self.awaits_row(old(self), sw, d, i as int, lo@, min@, max@),
            decreases end - i + 1,
        {
            let (dx, dy) = rotate.displace(distance as i64, i);
            let px: i128 = center.0 as i128 + dx as i128;
            let py: i128 = center.1 as i128 + dy as i128;
            let ghost here = *self;
            assert(sw.position(d, i as int) == (px as int, py as int));
            assert(here.blocked(px as int, py as int) == old(self).blocked(px as int, py as int));
            if self.read_at(px, py) == BLOCK {
                if distance == 0 {
                    proof {
                        self.lemma_row_hidden(old(self), sw, i as int, lo@, min@, max@);
                        self.lemma_same_shape_bounds(old(self));
                    }
                    return ;
                }
                if distance < sight_radius {
                    self.scan_arc(
                        center,
                        distance + 1,
                        lo,
                        Slope::before(i, distance),
                        rotate,
                        sight_radius,
                    );
                }
                proof {
                    self.lemma_row_split(&here, old(self), sw, d, i as int, lo@, min@, max@);
                }
                lo = Slope::after(i, distance);
            } else {
                self.write_at(px, py, VISIBLE);
                proof {
                    self.lemma_cells_after_write(&here, px as int, py as int, VISIBLE);
                    self.lemma_row_clear(&here, old(self), sw, d, i as int, lo@, min@, max@);
                }
            }
            i += 1;
        }
        let ghost here = *self;
        if distance < sight_radius {
            self.scan_arc(center, distance + 1, lo, max, rotate, sight_radius);
        }
        proof {
            self.lemma_row_done(&here, old(self), sw, d, i as int, lo@, min@, max@);
            self.lemma_same_shape_bounds(old(self));
        }
    }

    /// Scans all four quadrants around `center`: marks [`VISIBLE`] every clear
    /// cell of the grid that lies in line of sight from `center` and no
    /// farther than `sight_radius` rows away. Blocking cells stay as they
    /// are, and so does every cell out of sight.
    pub fn full_scan(&mut self, center: (isize, isize), sight_radius: u32)
        ensures
            final(self).is_full_scan_of(
                old(self),
                (center.0 as int, center.1 as int),
                sight_radius as int,
            ),
            final(self).same_obstacles(old(self)),
            old(self).wf() ==> final(self).wf(),
    {
        let ghost c = (center.0 as int, center.1 as int);
        let ghost r = sight_radius as int;
        let ghost lo = Ratio { num: -1, den: 1 };
        let ghost hi = Ratio { num: 1, den: 1 };
        self.scan_arc(center, 0, Slope::whole(-1), Slope::whole(1), Rotation::Zero, sight_radius);
        let ghost first = *self;
        self.scan_arc(
            center,
            0,
            Slope::whole(-1),
            Slope::whole(1),
            Rotation::Quarter,
            sight_radius,
        );
        let ghost second = *self;
        self.scan_arc(center, 0, Slope::whole(-1), Slope::whole(1), Rotation::Half, sight_radius);
        let ghost third = *self;
        self.scan_arc(
            center,
            0,
            Slope::whole(-1),
            Slope::whole(1),
            Rotation::ThreeQuarter,
            sight_radius,
        );
        proof {
            first.lemma_same_shape_bounds(old(self));
            second.lemma_same_shape_bounds(old(self));
            third.lemma_same_shape_bounds(old(self));
            self.lemma_same_shape_bounds(old(self));
            assert(second.same_obstacles(old(self)));
            assert(third.same_obstacles(old(self)));
            assert forall|x: int, y: int|
                #![trigger self.cell(x, y)]
                #![trigger old(self).cell(x, y)]
                self.cell(x, y) == (if old(self).in_bounds(x, y) && old(self).full_lights(
                    c,
                    r,
                    x,
                    y,
                ) {
                    VISIBLE
                } else {
                    old(self).cell(x, y)
                }) by {
                first.lemma_arc_reads_obstacles(
                    old(self),
                    Sweep { center: c, rotate: Rotation::Quarter, radius: r },
                    0,
                    lo,
                    hi,
                    x,
                    y,
                );
                second.lemma_arc_reads_obstacles(
                    old(self),
                    Sweep { center: c, rotate: Rotation::Half, radius: r },
                    0,
                    lo,
                    hi,
                    x,
                    y,
                );
                third.lemma_arc_reads_obstacles(
                    old(self),
                    Sweep { center: c, rotate: Rotation::ThreeQuarter, radius: r },
                    0,
                    lo,
                    hi,
                    x,
                    y,
                );
            }
        }
    }
}

} // verus!
