use crate::point::Point3;
use vstd::prelude::*;

verus! {

/// The axis-aligned box that a set of points spans: its corner of least
/// coordinates and its extent along each axis.
#[derive(Debug, Clone, Copy, PartialEq, Eq, Structural)]
pub struct BoundingBox {
    pub min: Point3,
    pub x_width: i64,
    pub y_width: i64,
    pub z_width: i64,
}

/// The coordinate of `p` along an axis: `0` for x, `1` for y, anything else
/// for z.
pub open spec fn coordinate(p: Point3, axis: int) -> int {
    if axis == 0 {
        p.x as int
    } else if axis == 1 {
        p.y as int
    } else {
        p.z as int
    }
}

/// Whether `low` is the least coordinate along `axis` that a point has.
pub open spec fn is_least(points: Seq<Point3>, axis: int, low: int) -> bool {
    &&& forall|i: int| 0 <= i < points.len() ==> low <= coordinate(#[trigger] points[i], axis)
    &&& exists|i: int| 0 <= i < points.len() && coordinate(#[trigger] points[i], axis) == low
}

/// Whether `high` is the greatest coordinate along `axis` that a point has.
pub open spec fn is_greatest(points: Seq<Point3>, axis: int, high: int) -> bool {
    &&& forall|i: int| 0 <= i < points.len() ==> coordinate(#[trigger] points[i], axis) <= high
    &&& exists|i: int| 0 <= i < points.len() && coordinate(#[trigger] points[i], axis) == high
}

impl BoundingBox {
    /// Whether this is the smallest box that holds every point of `points`.
    pub open spec fn bounds(self, points: Seq<Point3>) -> bool {
        &&& is_least(points, 0, self.min.x as int)
        &&& is_least(points, 1, self.min.y as int)
        &&& is_least(points, 2, self.min.z as int)
        &&& is_greatest(points, 0, self.min.x + self.x_width)
        &&& is_greatest(points, 1, self.min.y + self.y_width)
        &&& is_greatest(points, 2, self.min.z + self.z_width)
    }

    /// The greatest of the three widths: the side of the smallest cube with
    /// the box's least corner that holds the box.
    pub open spec fn cube_width(self) -> int {
        let xy = if self.x_width >= self.y_width {
            self.x_width
        } else {
            self.y_width
        };
        if xy >= self.z_width {
            xy as int
        } else {
            self.z_width as int
        }
    }

    /// Computes the bounding box of a set of points in one pass. There has to
    /// be a point: no box bounds an empty set.
    pub fn new(points: &Vec<Point3>) -> (bb: Self)
        requires
            points.len() > 0,
        ensures
            bb.bounds(points@),
            0 <= bb.x_width <= u32::MAX,
            0 <= bb.y_width <= u32::MAX,
            0 <= bb.z_width <= u32::MAX,
    {
        let mut x_min: i32 = i32::MAX;
        let mut y_min: i32 = i32::MAX;
        let mut z_min: i32 = i32::MAX;
        let mut x_max: i32 = i32::MIN;
        let mut y_max: i32 = i32::MIN;
        let mut z_max: i32 = i32::MIN;

        let ghost mut low: (int, int, int) = (0, 0, 0);
        let ghost mut high: (int, int, int) = (0, 0, 0);

        let mut i: usize = 0;
        while i < points.len()
            invariant
                i <= points.len(),
                forall|j: int|
                    0 <= j < i ==> {
                        &&& x_min <= (#[trigger] points@[j]).x <= x_max
                        &&& y_min <= points@[j].y <= y_max
                        &&& z_min <= points@[j].z <= z_max
                    },
                i > 0 ==> 0 <= low.0 < i && points@[low.0].x == x_min,
                i > 0 ==> 0 <= low.1 < i && points@[low.1].y == y_min,
                i > 0 ==> 0 <= low.2 < i && points@[low.2].z == z_min,
                i > 0 ==> 0 <= high.0 < i && points@[high.0].x == x_max,
                i > 0 ==> 0 <= high.1 < i && points@[high.1].y == y_max,
                i > 0 ==> 0 <= high.2 < i && points@[high.2].z == z_max,
            decreases points.len() - i,
        {
            let p: Point3 = points[i];
            if p.x < x_min || i == 0 {
                x_min = p.x;
                proof {
                    low.0 = i as int;
                }
            }
            if p.y < y_min || i == 0 {
                y_min = p.y;
                proof {
                    low.1 = i as int;
                }
            }
            if p.z < z_min || i == 0 {
                z_min = p.z;
                proof {
                    low.2 = i as int;
                }
            }
            if p.x > x_max || i == 0 {
                x_max = p.x;
                proof {
                    high.0 = i as int;
                }
            }
            if p.y > y_max || i == 0 {
                y_max = p.y;
                proof {
                    high.1 = i as int;
                }
            }
            if p.z > z_max || i == 0 {
                z_max = p.z;
                proof {
                    high.2 = i as int;
                }
            }
            i += 1;
        }

        let bb = BoundingBox {
            min: Point3::new(x_min, y_min, z_min),
            x_width: x_max as i64 - x_min as i64,
            y_width: y_max as i64 - y_min as i64,
            z_width: z_max as i64 - z_min as i64,
        };
        proof {
            assert(coordinate(points@[low.0], 0) == x_min);
            assert(coordinate(points@[low.1], 1) == y_min);
            assert(coordinate(points@[low.2], 2) == z_min);
            assert(coordinate(points@[high.0], 0) == x_max);
            assert(coordinate(points@[high.1], 1) == y_max);
            assert(coordinate(points@[high.2], 2) == z_max);
        }
        bb
    }

    /// Returns the greatest of the three widths.
    pub fn max_width(&self) -> (width: i64)
        ensures
            width == self.cube_width(),
    {
        let xy: i64 = if self.x_width >= self.y_width {
            self.x_width
        } else {
            self.y_width
        };
        if xy >= self.z_width {
            xy
        } else {
            self.z_width
        }
    }
}

/// A set of points has one bounding box only.
pub proof fn lemma_bounding_box_unique(points: Seq<Point3>, a: BoundingBox, b: BoundingBox)
    requires
        a.bounds(points),
        b.bounds(points),
    ensures
        a == b,
{
    lemma_least_unique(points, 0, a.min.x as int, b.min.x as int);
    lemma_least_unique(points, 1, a.min.y as int, b.min.y as int);
    lemma_least_unique(points, 2, a.min.z as int, b.min.z as int);
    lemma_greatest_unique(points, 0, a.min.x + a.x_width, b.min.x + b.x_width);
    lemma_greatest_unique(points, 1, a.min.y + a.y_width, b.min.y + b.y_width);
    lemma_greatest_unique(points, 2, a.min.z + a.z_width, b.min.z + b.z_width);
}

/// Points have one least coordinate along an axis.
proof fn lemma_least_unique(points: Seq<Point3>, axis: int, a: int, b: int)
    requires
        is_least(points, axis, a),
        is_least(points, axis, b),
    ensures
        a == b,
{
    let i = choose|i: int| 0 <= i < points.len() && coordinate(#[trigger] points[i], axis) == a;
    let j = choose|j: int| 0 <= j < points.len() && coordinate(#[trigger] points[j], axis) == b;
    assert(b <= coordinate(points[i], axis));
    assert(a <= coordinate(points[j], axis));
}

/// Points have one greatest coordinate along an axis.
proof fn lemma_greatest_unique(points: Seq<Point3>, axis: int, a: int, b: int)
    requires
        is_greatest(points, axis, a),
        is_greatest(points, axis, b),
    ensures
        a == b,
{
    let i = choose|i: int| 0 <= i < points.len() && coordinate(#[trigger] points[i], axis) == a;
    let j = choose|j: int| 0 <= j < points.len() && coordinate(#[trigger] points[j], axis) == b;
    assert(coordinate(points[i], axis) <= b);
    assert(coordinate(points[j], axis) <= a);
}

} // verus!
