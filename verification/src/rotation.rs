//! The four quarter turns that carry one row-by-row sweep around the viewer.

use vstd::prelude::*;

verus! {

/// A quarter turn of the plane. A sweep walks rows of cells at growing forward
/// distance `d`, each cell at a lateral offset `i`; the rotation says where
/// `(d, i)` lies relative to the viewer.
#[derive(Clone, Copy, Debug)]
pub enum Rotation {
    /// `(d, i)` lies at `(d, i)`.
    Zero,
    /// `(d, i)` lies at `(i, -d)`.
    Quarter,
    /// `(d, i)` lies at `(-d, -i)`.
    Half,
    /// `(d, i)` lies at `(-i, d)`.
    ThreeQuarter,
}

impl Rotation {
    /// The displacement from the viewer of the cell at forward distance `d`
    /// and lateral offset `i`.
    pub open spec fn offset(self, d: int, i: int) -> (int, int) {
        match self {
            Rotation::Zero => (d, i),
            Rotation::Quarter => (i, -d),
            Rotation::Half => (-d, -i),
            Rotation::ThreeQuarter => (-i, d),
        }
    }

    /// The forward distance and lateral offset of the cell that lies at the
    /// displacement `(dx, dy)` from the viewer: the inverse of
    /// [`Rotation::offset`].
    pub open spec fn local(self, dx: int, dy: int) -> (int, int) {
        match self {
            Rotation::Zero => (dx, dy),
            Rotation::Quarter => (-dy, dx),
            Rotation::Half => (-dx, -dy),
            Rotation::ThreeQuarter => (dy, -dx),
        }
    }

    /// Computes [`Rotation::offset`].
    pub fn displace(self, d: i64, i: i64) -> (r: (i64, i64))
        requires
            d > i64::MIN,
            i > i64::MIN,
        ensures
            r.0 == self.offset(d as int, i as int).0,
            r.1 == self.offset(d as int, i as int).1,
    {
        match self {
            Rotation::Zero => (d, i),
            Rotation::Quarter => (i, -d),
            Rotation::Half => (-d, -i),
            Rotation::ThreeQuarter => (-i, d),
        }
    }
}

} // verus!
