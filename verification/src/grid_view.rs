use crate::offset3::Offset3;
use crate::point::{cell_of, Point3};
use crate::search::{nearest_of, Entry, SearchResult};
use crate::spiral_cells::{variations, SpiralCell};
use vstd::prelude::*;

verus! {

/// The greatest cell width that a grid over 32-bit coordinates can need.
pub const CELL_WIDTH_MAX: i64 = 0x2_0000_0000;

/// What a uniform grid is, as a mathematical value: the points it was built
/// from, the region it covers and the spiral search order it was given. The
/// buckets of the cells are no part of it: they follow from the points.
pub struct GridView {
    /// The points, in the order in which they were handed over. The place of
    /// a point in this sequence is its index.
    pub points: Seq<Point3>,
    /// The least corner of the origin cell.
    pub min_position: Point3,
    /// The side of each cube-shaped cell.
    pub cell_width: i64,
    /// The number of cells along each axis.
    pub grid_dimensions: (usize, usize, usize),
    /// The shells of the spiral search order.
    pub spiral_cells: Seq<SpiralCell>,
}

/// The width of the cells of a grid with `cells_per_axis` cells along each
/// axis that covers a cube of side `cube_width`: a hundredth more than
/// `cube_width / cells_per_axis`, rounded down, and one more, so that a
/// point on a greatest face of the cube still falls into the last cell.
pub open spec fn inflated_cell_width(cube_width: int, cells_per_axis: int) -> int {
    cube_width * 101 / (100 * cells_per_axis) + 1
}

/// The offset of the `k`-th of the 26 cells around a cell: `x` runs fastest,
/// then `y`, then `z`, each from -1 to 1, and the cell itself is left out.
pub open spec fn neighbor_at(k: int) -> Offset3 {
    let j = if k < 13 {
        k
    } else {
        k + 1
    };
    Offset3 { x: (j % 3 - 1) as i64, y: ((j / 3) % 3 - 1) as i64, z: (j / 9 - 1) as i64 }
}

/// The offsets of the 26 cells around a cell.
pub open spec fn neighbor_ring() -> Seq<Offset3> {
    Seq::new(26, |k: int| neighbor_at(k))
}

/// The distance along one axis from the coordinate `c` to the nearer of the
/// two walls of cell `k`.
pub open spec fn axis_wall_distance(c: int, low: int, k: int, cell_width: int) -> int {
    let near = c - (low + k * cell_width);
    let far = low + k * cell_width + cell_width - c;
    if near <= far {
        near
    } else {
        far
    }
}

impl GridView {
    /// The number of cells.
    pub open spec fn cell_count(self) -> int {
        self.grid_dimensions.0 * self.grid_dimensions.1 * self.grid_dimensions.2
    }

    /// The offset of the cell whose half-open cube holds `point`. The grid
    /// may have no such cell.
    pub open spec fn offset_of(self, point: Point3) -> Offset3 {
        cell_of(point, self.min_position, self.cell_width as int)
    }

    /// The flat index of the cell that holds `point`, if the grid has it.
    pub open spec fn cell_index(self, point: Point3) -> Option<usize> {
        self.offset_of(point).grid_index1(self.grid_dimensions)
    }

    /// Whether the grid is one that can be built: its cells have a width,
    /// there are as many of them along each axis and at least one, and each
    /// point falls into a cell that the grid has.
    pub open spec fn valid(self) -> bool {
        &&& 1 <= self.cell_width <= CELL_WIDTH_MAX
        &&& 1 <= self.grid_dimensions.0
        &&& self.grid_dimensions.1 == self.grid_dimensions.0
        &&& self.grid_dimensions.2 == self.grid_dimensions.0
        &&& self.cell_count() <= usize::MAX
        &&& self.points.len() <= usize::MAX
        &&& forall|j: int|
            0 <= j < self.points.len() ==> self.cell_index(#[trigger] self.points[j]) is Some
    }

    /// The bucket of a cell as it is after the first `n` points were placed:
    /// the points among them that fall into the cell, with their indices, in
    /// the order of the indices.
    pub open spec fn bucket_upto(self, cell: int, n: int) -> Seq<Entry>
        decreases n,
    {
        if n <= 0 {
            Seq::empty()
        } else {
            let earlier = self.bucket_upto(cell, n - 1);
            if self.cell_index(self.points[n - 1]) == Some(cell as usize) {
                earlier.push((self.points[n - 1], (n - 1) as usize))
            } else {
                earlier
            }
        }
    }

    /// The bucket of a cell: the points that fall into it, with their
    /// indices, in the order of the indices.
    pub open spec fn bucket(self, cell: int) -> Seq<Entry> {
        self.bucket_upto(cell, self.points.len() as int)
    }

    /// The flat index of the cell that lies `delta` away from the cell
    /// `center`, if the grid has it.
    pub open spec fn cell_at(self, center: Offset3, delta: Offset3) -> Option<usize> {
        if center.sum_fits(delta) {
            center.sum(delta).grid_index1(self.grid_dimensions)
        } else {
            None
        }
    }

    /// The buckets, one after the other, of those cells that the grid has
    /// among the cells that lie `offsets` away from `center`.
    pub open spec fn gather(self, center: Offset3, offsets: Seq<Offset3>) -> Seq<Entry>
        decreases offsets.len(),
    {
        if offsets.len() == 0 {
            Seq::empty()
        } else {
            let earlier = self.gather(center, offsets.drop_last());
            match self.cell_at(center, offsets.last()) {
                Some(cell) => earlier + self.bucket(cell as int),
                None => earlier,
            }
        }
    }

    /// The buckets of the first `cells` cells, one after the other.
    pub open spec fn all_entries_upto(self, cells: int) -> Seq<Entry>
        decreases cells,
    {
        if cells <= 0 {
            Seq::empty()
        } else {
            self.all_entries_upto(cells - 1) + self.bucket(cells - 1)
        }
    }

    /// The buckets of all cells, one after the other: every bucketed point.
    pub open spec fn all_entries(self) -> Seq<Entry> {
        self.all_entries_upto(self.cell_count())
    }

    /// What shell `i` of the spiral search order holds around `center`: the
    /// buckets of the cells that lie one of the variations of the shell's
    /// offset away from `center`.
    pub open spec fn shell(self, center: Offset3, i: int) -> Seq<Entry> {
        self.gather(center, variations(self.spiral_cells[i].offset))
    }

    /// What the shells from `from` up to, and without, `to` hold around
    /// `center`, one after the other.
    pub open spec fn shells(self, center: Offset3, from: int, to: int) -> Seq<Entry>
        decreases to - from,
    {
        if to <= from {
            Seq::empty()
        } else {
            self.shells(center, from, to - 1) + self.shell(center, to - 1)
        }
    }

    /// The first shell from `from` on that holds a point around `center`, or
    /// the number of shells if none does.
    pub open spec fn first_hit(self, center: Offset3, from: int) -> int
        decreases self.spiral_cells.len() - from,
    {
        if from >= self.spiral_cells.len() {
            self.spiral_cells.len() as int
        } else if self.shell(center, from).len() > 0 {
            from
        } else {
            self.first_hit(center, from + 1)
        }
    }

    /// Where the spiral search around `center` ends: it skips the first
    /// shell, which is the center cell itself, and checks shell upon shell
    /// until one holds a point; from there it goes on up to the stop index
    /// of that shell, and no further than the table reaches.
    pub open spec fn spiral_end(self, center: Offset3) -> int {
        let hit = self.first_hit(center, 1);
        if hit >= self.spiral_cells.len() {
            self.spiral_cells.len() as int
        } else {
            let stop = self.spiral_cells[hit].stop_cell_index1 as int;
            let last = if stop > hit {
                stop
            } else {
                hit
            };
            if last + 1 < self.spiral_cells.len() {
                last + 1
            } else {
                self.spiral_cells.len() as int
            }
        }
    }

    /// What the spiral search around `center` looks at.
    pub open spec fn spiral_entries(self, center: Offset3) -> Seq<Entry> {
        self.shells(center, 1, self.spiral_end(center))
    }

    /// The distance from `point` to the nearest of the six walls of the cell
    /// at `cell`.
    pub open spec fn wall_distance(self, point: Point3, cell: Offset3) -> int {
        let w = self.cell_width as int;
        let x = axis_wall_distance(point.x as int, self.min_position.x as int, cell.x as int, w);
        let y = axis_wall_distance(point.y as int, self.min_position.y as int, cell.y as int, w);
        let z = axis_wall_distance(point.z as int, self.min_position.z as int, cell.z as int, w);
        let yz = if y <= z {
            y
        } else {
            z
        };
        if x <= yz {
            x
        } else {
            yz
        }
    }

    /// The bucket of the cell that holds `query`; empty where the grid has
    /// no such cell.
    pub open spec fn home_entries(self, query: Point3) -> Seq<Entry> {
        match self.cell_index(query) {
            Some(cell) => self.bucket(cell as int),
            None => Seq::empty(),
        }
    }

    /// Whether the search for `query` ends in the cell that holds `query`:
    /// the cell holds a point, and the nearest of its points to `query` lies
    /// no farther from `query` than that point lies from the nearest wall of
    /// the cell.
    pub open spec fn settled_at_home(self, query: Point3) -> bool {
        match nearest_of(query, self.home_entries(query)) {
            Some(found) => {
                let wall = self.wall_distance(found.position, self.offset_of(query));
                wall * wall >= found.distance2_to_query
            },
            None => false,
        }
    }

    /// What the search for `query` looks at in the cell of `query` and the
    /// 26 cells around it: the cell alone where the search ends there, else
    /// the cell and after it the ring.
    pub open spec fn near_entries(self, query: Point3) -> Seq<Entry> {
        if self.settled_at_home(query) {
            self.home_entries(query)
        } else {
            self.home_entries(query) + self.gather(self.offset_of(query), neighbor_ring())
        }
    }

    /// The bucketed points that the search for `query` looks at, in the
    /// order in which it does: the cell of `query`, with the ring around
    /// it unless the search ends in the cell; if there is no point there, the
    /// shells of the spiral search; if there is none either, every point.
    pub open spec fn examined(self, query: Point3) -> Seq<Entry> {
        let near = self.near_entries(query);
        let spiral = self.spiral_entries(self.offset_of(query));
        if near.len() > 0 {
            near
        } else if spiral.len() > 0 {
            spiral
        } else {
            self.all_entries()
        }
    }

    /// The point that the search for `query` finds: the nearest of those it
    /// looks at and, of several equally near ones, the first.
    pub open spec fn found(self, query: Point3) -> Option<SearchResult> {
        nearest_of(query, self.examined(query))
    }

    /// The answer to `query`: the index of the point found and its squared
    /// distance to `query`.
    pub open spec fn nearest(self, query: Point3) -> Option<(usize, u128)> {
        match self.found(query) {
            Some(found) => Some((found.point_object_index, found.distance2_to_query)),
            None => None,
        }
    }
}

} // verus!
