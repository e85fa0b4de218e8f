//! The grid: a rectangle of cell states with reads and writes that never fail.

use vstd::prelude::*;

verus! {

/// A traversable cell that no scan has marked.
pub const EMPTY: u8 = 0;

/// An opaque cell: the line of sight ends at it.
pub const BLOCK: u8 = 1;

/// A traversable cell that a scan found in line of sight.
pub const VISIBLE: u8 = 2;

/// The viewer's own cell, for callers that want to mark it after a scan.
pub const PLAYER: u8 = 3;

/// A rectangle of cell states, `width` columns by `height` rows, stored row by
/// row. Coordinates are signed: a position outside the rectangle reads as
/// [`EMPTY`] and ignores writes.
#[derive(Debug)]
pub struct ShadowMap {
    map: Vec<Vec<u8>>,
}

impl View for ShadowMap {
    type V = Seq<Seq<u8>>;

    /// The rows from top to bottom, each from left to right.
    closed spec fn view(&self) -> Seq<Seq<u8>> {
        Seq::new(self.map@.len(), |y: int| self.map@[y]@)
    }
}

impl ShadowMap {
    /// The number of rows.
    pub open spec fn spec_height(&self) -> nat {
        self@.len()
    }

    /// The number of columns: the length of the first row, and of every other
    /// row of a well-formed grid. A grid without rows has no columns.
    pub open spec fn spec_width(&self) -> nat {
        if self@.len() > 0 {
            self@[0].len()
        } else {
            0
        }
    }

    /// The grid is a rectangle: every row has `spec_width()` cells.
    pub open spec fn wf(&self) -> bool {
        forall|y: int| 0 <= y < self@.len() ==> (#[trigger] self@[y]).len() == self.spec_width()
    }

    /// Whether `(x, y)` names a stored cell.
    pub open spec fn in_bounds(&self, x: int, y: int) -> bool {
        0 <= y < self@.len() && 0 <= x < self@[y].len()
    }

    /// The state read at `(x, y)`: the stored one, or [`EMPTY`] outside the grid.
    pub open spec fn cell(&self, x: int, y: int) -> u8 {
        if self.in_bounds(x, y) {
            self@[y][x]
        } else {
            EMPTY
        }
    }

    /// Whether the line of sight ends at `(x, y)`.
    pub open spec fn blocked(&self, x: int, y: int) -> bool {
        self.cell(x, y) == BLOCK
    }

    /// Two grids have the same rows of the same lengths.
    pub open spec fn same_shape(&self, other: &ShadowMap) -> bool {
        &&& self@.len() == other@.len()
        &&& forall|y: int| 0 <= y < self@.len() ==> (#[trigger] self@[y]).len() == other@[y].len()
    }

    /// A grid of `width` by `height` cells, each holding `fill`. With a zero
    /// dimension the grid stores no cell at all.
    pub fn new_filled(width: usize, height: usize, fill: u8) -> (grid: ShadowMap)
        ensures
            grid.wf(),
            grid.spec_height() == height,
            height > 0 ==> grid.spec_width() == width,
            grid@ == Seq::new(height as nat, |y: int| Seq::new(width as nat, |x: int| fill)),
    {
        let mut row: Vec<u8> = Vec::with_capacity(width);
        let mut x: usize = 0;
        while x < width
            invariant
                x <= width,
                row@ == Seq::new(x as nat, |i: int| fill),
            decreases width - x,
        {
            row.push(fill);
            x += 1;
            assert(row@ =~= Seq::new(x as nat, |i: int| fill));
        }
        let mut map: Vec<Vec<u8>> = Vec::with_capacity(height);
        let mut y: usize = 0;
        while y < height
            invariant
                y <= height,
                row@ == Seq::new(width as nat, |i: int| fill),
                map@.len() == y,
                forall|j: int| 0 <= j < y ==> (#[trigger] map@[j])@ == row@,
            decreases height - y,
        {
            let copy = row.clone();
            assert(copy@ =~= row@);
            map.push(copy);
            y += 1;
        }
        let grid = ShadowMap { map };
        assert(grid@ =~= Seq::new(height as nat, |y: int| Seq::new(width as nat, |x: int| fill)));
        grid
    }

    /// A grid of `width` by `height` cells, all [`EMPTY`].
    pub fn new_with_empty_cells(width: usize, height: usize) -> (grid: ShadowMap)
        ensures
            grid.wf(),
            grid.spec_height() == height,
            height > 0 ==> grid.spec_width() == width,
            grid@ == Seq::new(height as nat, |y: int| Seq::new(width as nat, |x: int| EMPTY)),
    {
        ShadowMap::new_filled(width, height, EMPTY)
    }

    /// A grid of `width` by `height` cells, all [`BLOCK`].
    pub fn new_with_obstacles(width: usize, height: usize) -> (grid: ShadowMap)
        ensures
            grid.wf(),
            grid.spec_height() == height,
            height > 0 ==> grid.spec_width() == width,
            grid@ == Seq::new(height as nat, |y: int| Seq::new(width as nat, |x: int| BLOCK)),
    {
        ShadowMap::new_filled(width, height, BLOCK)
    }

    /// The number of columns.
    pub fn width(&self) -> (w: usize)
        ensures
            w == self.spec_width(),
    {
        if self.map.len() > 0 {
            self.map[0].len()
        } else {
            0
        }
    }

    /// The number of rows.
    pub fn height(&self) -> (h: usize)
        ensures
            h == self.spec_height(),
    {
        self.map.len()
    }

    /// A copy of the rows from top to bottom, each from left to right, for
    /// callers that print or store the grid.
    pub fn rows(&self) -> (rows: Vec<Vec<u8>>)
        ensures
            rows@.len() == self@.len(),
            forall|y: int| 0 <= y < self@.len() ==> (#[trigger] rows@[y])@ == self@[y],
    {
        let mut rows: Vec<Vec<u8>> = Vec::with_capacity(self.map.len());
        let mut y: usize = 0;
        while y < self.map.len()
            invariant
                y <= self.map@.len(),
                rows@.len() == y,
                forall|j: int| 0 <= j < y ==> (#[trigger] rows@[j])@ == self@[j],
            decreases self.map@.len() - y,
        {
            let source = &self.map[y];
            let mut row: Vec<u8> = Vec::with_capacity(source.len());
            let mut x: usize = 0;
            while x < source.len()
                invariant
                    x <= source@.len(),
                    row@ == source@.subrange(0, x as int),
                decreases source@.len() - x,
            {
                row.push(source[x]);
                x += 1;
                assert(row@ =~= source@.subrange(0, x as int));
            }
            assert(row@ =~= self@[y as int]);
            rows.push(row);
            y += 1;
        }
        rows
    }

    /// Reads the cell at `(x, y)`. A position outside the grid reads as
    /// [`EMPTY`].
    pub fn get(&self, x: isize, y: isize) -> (state: u8)
        ensures
            state == self.cell(x as int, y as int),
            !self.in_bounds(x as int, y as int) ==> state == EMPTY,
    {
        self.read_at(x as i128, y as i128)
    }

    /// Writes `value` to the cell at `(x, y)`. A position outside the grid is
    /// ignored: the grid stays as it was.
    pub fn set(&mut self, x: isize, y: isize, value: u8)
        ensures
            final(self).same_shape(old(self)),
            old(self).wf() ==> final(self).wf(),
            old(self).in_bounds(x as int, y as int) ==> final(self)@ == old(self)@.update(
                y as int,
                old(self)@[y as int].update(x as int, value),
            ),
            !old(self).in_bounds(x as int, y as int) ==> final(self)@ == old(self)@,
    {
        self.write_at(x as i128, y as i128, value);
    }

    /// [`ShadowMap::get`] for a position that a sum of coordinates may have
    /// carried past the range of `isize`.
    pub(crate) fn read_at(&self, x: i128, y: i128) -> (state: u8)
        ensures
            state == self.cell(x as int, y as int),
    {
        if x < 0 || y < 0 || y >= self.map.len() as i128 {
            return EMPTY;
        }
        let row = &self.map[y as usize];
        if x >= row.len() as i128 {
            return EMPTY;
        }
        row[x as usize]
    }

    /// [`ShadowMap::set`] for a position that a sum of coordinates may have
    /// carried past the range of `isize`.
    pub(crate) fn write_at(&mut self, x: i128, y: i128, value: u8)
        ensures
            final(self).same_shape(old(self)),
            old(self).wf() ==> final(self).wf(),
            old(self).in_bounds(x as int, y as int) ==> final(self)@ == old(self)@.update(
                y as int,
                old(self)@[y as int].update(x as int, value),
            ),
            !old(self).in_bounds(x as int, y as int) ==> final(self)@ == old(self)@,
    {
        if x < 0 || y < 0 || y >= self.map.len() as i128 {
            return ;
        }
        if x < self.map[y as usize].len() as i128 {
            self.map[y as usize][x as usize] = value;
            assert(self@ =~= old(self)@.update(
                y as int,
                old(self)@[y as int].update(x as int, value),
            ));
        }
    }

    /// Grids of the same shape store cells at the same positions, and one is
    /// a rectangle if the other is.
    pub proof fn lemma_same_shape_bounds(&self, other: &ShadowMap)
        requires
            self.same_shape(other),
        ensures
            forall|x: int, y: int| #[trigger] self.in_bounds(x, y) == other.in_bounds(x, y),
            self.spec_width() == other.spec_width(),
            self.spec_height() == other.spec_height(),
            self.wf() == other.wf(),
    {
        if self@.len() > 0 {
            assert(self@[0].len() == other@[0].len());
        }
        if self.wf() {
            assert forall|y: int| 0 <= y < other@.len() implies (#[trigger] other@[y]).len()
                == other.spec_width() by {
                assert(self@[y].len() == other@[y].len());
            }
        }
        if other.wf() {
            assert forall|y: int| 0 <= y < self@.len() implies (#[trigger] self@[y]).len()
                == self.spec_width() by {
                assert(self@[y].len() == other@[y].len());
            }
        }
    }

    /// What a write changes, cell by cell: the written cell takes the value,
    /// every other cell keeps its state.
    pub proof fn lemma_cells_after_write(&self, before: &ShadowMap, x: int, y: int, value: u8)
        requires
            before.in_bounds(x, y) ==> self@ == before@.update(y, before@[y].update(x, value)),
            !before.in_bounds(x, y) ==> self@ == before@,
        ensures
            forall|cx: int, cy: int|
                self.in_bounds(cx, cy) == before.in_bounds(cx, cy) && #[trigger] self.cell(cx, cy)
                    == if cx == x && cy == y && before.in_bounds(x, y) {
                    value
                } else {
                    before.cell(cx, cy)
                },
    {
    }
}

} // verus!
