use crate::bounding_box::BoundingBox;
use crate::cube_root::{cube, cube_root, is_cube_root};
use crate::grid_laws::{
    lemma_answer_is_a_point, lemma_bucket_upto_holds, lemma_bucket_upto_len,
    lemma_inflated_width_covers, lemma_no_answer_iff_no_point, lemma_points_have_cells,
};
use crate::grid_view::{
    axis_wall_distance, inflated_cell_width, neighbor_at, neighbor_ring, GridView, CELL_WIDTH_MAX,
};
use crate::offset3::Offset3;
use crate::point::{
    axis_cell, lemma_axis_cell_bounds, lemma_cell_of_fits, point_into_index1, point_into_offset,
    squared_distance, Point3,
};
use crate::search::{
    closer_of, lemma_nearest_of, lemma_scan_concat, lemma_scan_from_is_closer, nearest,
    nearest_after, nearest_of, Entry, SearchResult,
};
use crate::spiral_cells::{offset_variations, SpiralCell};
use itertools::Itertools;
use vstd::prelude::*;

verus! {

/// The uniform grid is a 3-dimensional grid of cube-shaped cells that covers a
/// finite region in infinite 3-dimensional space. Each cell is a container for
/// points that are positioned inside the space covered by the cell.
pub struct UniformGrid {
    point_objs: Vec<Point3>,
    /// A flat vector that contains one element for each cell in the
    /// 3-dimensional grid. Each element contains a count of the number of
    /// points that are bucketed into that cell.
    cell_point_counts: Vec<usize>,
    /// A flat vector that contains one element for each cell in the
    /// 3-dimensional grid. Each element contains a vector of the points that
    /// are bucketed into that cell. Each point is represented by a tuple
    /// containing the point's position in 3-dimensional space and the point's
    /// index in `point_objs`.
    cell_point_positions: Vec<Vec<Entry>>,
    /// The minimum position in space that is covered by the uniform grid.
    min_position: Point3,
    /// The width in space that is covered by each cube-shaped cell in the
    /// uniform grid.
    cell_width: i64,
    /// The number of cells in each dimension of the uniform grid.
    grid_dimensions: (usize, usize, usize),
    /// Vector of `SpiralCell`s that indicate which cells to check when
    /// searching for nearest neighbors outward from some center cell.
    spiral_cells: Vec<SpiralCell>,
}

/// Whether a grid that may hold up to `max_cell_count` cells has `k` cells
/// along each axis: the cube root of `max_cell_count`, rounded down, and one
/// cell where that would be none.
pub open spec fn is_cells_per_axis(max_cell_count: int, k: int) -> bool {
    if max_cell_count == 0 {
        k == 1
    } else {
        is_cube_root(max_cell_count, k)
    }
}

impl View for UniformGrid {
    type V = GridView;

    closed spec fn view(&self) -> GridView {
        GridView {
            points: self.point_objs@,
            min_position: self.min_position,
            cell_width: self.cell_width,
            grid_dimensions: self.grid_dimensions,
            spiral_cells: self.spiral_cells@,
        }
    }
}

/// Returns an empty bucket with room for `count` points.
fn bucket_with_room(count: usize) -> (bucket: Vec<Entry>)
    ensures
        bucket@.len() == 0,
{
    Vec::with_capacity(count)
}

/// `Itertools::collect_vec` gathers what an iterator yields into a vector, in
/// the order in which the iterator yields it. The iterator here yields one
/// bucket for each cell's count, as `bucket_with_room` makes it; so the
/// vector holds as many buckets as there are counts, and each is empty.
#[verifier::external_body]
fn presized_buckets(counts: &Vec<usize>) -> (buckets: Vec<Vec<Entry>>)
    ensures
        buckets@.len() == counts@.len(),
        forall|c: int| 0 <= c < buckets@.len() ==> (#[trigger] buckets@[c])@.len() == 0,
{
    counts.iter().map(|&count| bucket_with_room(count)).collect_vec()
}

impl UniformGrid {
    /// Whether the buckets hold what the points and the region of the grid
    /// say they hold.
    pub closed spec fn wf(&self) -> bool {
        &&& self@.valid()
        &&& self.cell_point_counts@.len() == self@.cell_count()
        &&& self.cell_point_positions@.len() == self@.cell_count()
        &&& forall|c: int|
            0 <= c < self@.cell_count() ==> {
                &&& (#[trigger] self.cell_point_positions@[c])@ == self@.bucket(c)
                &&& self.cell_point_counts@[c] == self@.bucket(c).len()
            }
    }

    /// A well-formed grid has a valid view.
    pub proof fn lemma_wf_is_valid(&self)
        requires
            self.wf(),
        ensures
            self@.valid(),
    {
    }

    /// Builds the grid over `points`, with about `scale` cells for each
    /// point, and keeps `spiral_cells` as the order in which the spiral
    /// search goes outward.
    ///
    /// The grid covers the bounding cube of the points with as many cells
    /// along each axis: the cube root of `points.len() * scale`, rounded
    /// down, and at least one. Each point is bucketed into the cell whose
    /// half-open cube holds it, a point on a greatest face of the bounding
    /// cube too. A grid over no points has the one cell at the origin.
    pub fn new(points: Vec<Point3>, scale: usize, spiral_cells: Vec<SpiralCell>) -> (grid: Self)
        requires
            points.len() * scale <= usize::MAX,
        ensures
            grid.wf(),
            grid@.valid(),
            grid@.points == points@,
            grid@.spiral_cells == spiral_cells@,
            is_cells_per_axis(points.len() * scale, grid@.grid_dimensions.0 as int),
            points.len() * scale > 0 ==> grid@.cell_count() <= points.len() * scale,
            points.len() == 0 ==> grid@.min_position == (Point3 { x: 0, y: 0, z: 0 })
                && grid@.cell_width == 1,
            points.len() > 0 ==> exists|bb: BoundingBox| #[trigger]
                bb.bounds(points@) && grid@.min_position == bb.min && grid@.cell_width
                    == inflated_cell_width(bb.cube_width(), grid@.grid_dimensions.0 as int),
    {
        // The maximum number of cells that the grid will be able to contain.
        let max_cell_count: usize = points.len() * scale;

        let ghost mut bb_seen: Option<BoundingBox> = None;
        let mut min_position = Point3::new(0, 0, 0);
        let mut cube_bb_width: i64 = 0;
        if points.len() > 0 {
            let bb = BoundingBox::new(&points);
            min_position = bb.min;
            // The grid has the same number of cells in each dimension, so it
            // covers a cube.
            cube_bb_width = bb.max_width();
            proof {
                bb_seen = Some(bb);
            }
        }
        // The max number of cells we can have in a single dimension while
        // staying under the max cell count, and one at least.
        let root: usize = cube_root(max_cell_count);
        let cube_grid_width: usize = if root == 0 {
            1
        } else {
            root
        };
        let grid_dimensions = (cube_grid_width, cube_grid_width, cube_grid_width);
        proof {
            assert(cube(1) == 1) by (nonlinear_arith);
            assert(cube_grid_width * cube_grid_width * cube_grid_width == cube(
                cube_grid_width as int,
            ));
            assert(cube_grid_width * cube_grid_width <= cube(cube_grid_width as int))
                by (nonlinear_arith)
                requires
                    cube_grid_width >= 1,
            ;
            assert(cube(root as int) >= 1 || root == 0) by (nonlinear_arith)
                requires
                    root >= 0,
                    cube(root as int) == root * root * root,
            ;
        }

        // Make each cell slightly larger than is necessary to fit perfectly
        // within the bounding box so that points on a maximum face of the
        // bounding box can fit into a cell.
        let cell_width: i64 = ((cube_bb_width as u64 * 101) / (100 * cube_grid_width as u64)) as i64
            + 1;

        let ghost view = GridView {
            points: points@,
            min_position,
            cell_width,
            grid_dimensions,
            spiral_cells: spiral_cells@,
        };
        proof {
            lemma_inflated_width_covers(cube_bb_width as int, cube_grid_width as int);
            if points.len() > 0 {
                lemma_points_have_cells(view, bb_seen->Some_0);
            }
        }

        let cell_count: usize = grid_dimensions.0 * grid_dimensions.1 * grid_dimensions.2;
        let mut cell_point_counts: Vec<usize> = Vec::with_capacity(cell_count);
        let mut c: usize = 0;
        while c < cell_count
            invariant
                c <= cell_count,
                cell_point_counts@.len() == c,
                forall|d: int| 0 <= d < c ==> cell_point_counts@[d] == 0,
            decreases cell_count - c,
        {
            cell_point_counts.push(0);
            c += 1;
        }

        let mut i: usize = 0;
        while i < points.len()
            invariant
                i <= points.len(),
                view.valid(),
                view.points == points@,
                view.grid_dimensions == grid_dimensions,
                view.cell_width == cell_width,
                view.min_position == min_position,
                cell_count == view.cell_count(),
                cell_point_counts@.len() == cell_count,
                forall|d: int|
                    0 <= d < cell_count ==> #[trigger] cell_point_counts@[d] == view.bucket_upto(
                        d,
                        i as int,
                    ).len(),
            decreases points.len() - i,
        {
            assert(view.cell_index(view.points[i as int]) is Some);
            let cell_index: usize = point_into_index1(
                points[i],
                min_position,
                cell_width,
                grid_dimensions,
            ).unwrap();
            proof {
                lemma_bucket_upto_len(view, cell_index as int, i as int);
            }
            let count: usize = cell_point_counts[cell_index];
            cell_point_counts.set(cell_index, count + 1);
            i += 1;
        }

        // Pre-allocate the necessary space for the vector in each cell so
        // that the vectors don't need to get re-allocated as new points are
        // added.
        let mut cell_point_positions: Vec<Vec<Entry>> = presized_buckets(&cell_point_counts);

        let mut i: usize = 0;
        while i < points.len()
            invariant
                i <= points.len(),
                view.valid(),
                view.points == points@,
                view.grid_dimensions == grid_dimensions,
                view.cell_width == cell_width,
                view.min_position == min_position,
                cell_count == view.cell_count(),
                cell_point_positions@.len() == cell_count,
                forall|d: int|
                    0 <= d < cell_count ==> (#[trigger] cell_point_positions@[d])@
                        == view.bucket_upto(d, i as int),
            decreases points.len() - i,
        {
            assert(view.cell_index(view.points[i as int]) is Some);
            let point: Point3 = points[i];
            let cell_index: usize = point_into_index1(
                point,
                min_position,
                cell_width,
                grid_dimensions,
            ).unwrap();
            cell_point_positions[cell_index].push((point, i));
            i += 1;
        }

        Self {
            point_objs: points,
            cell_point_counts,
            cell_point_positions,
            min_position,
            cell_width,
            grid_dimensions,
            spiral_cells,
        }
    }
}

/// Returns the offsets of the 26 cells that lie around a cell.
pub fn neighbor_offsets() -> (offsets: Vec<Offset3>)
    ensures
        offsets@ == neighbor_ring(),
{
    let mut offsets: Vec<Offset3> = Vec::with_capacity(26);
    let mut j: i64 = 0;
    while j < 27
        invariant
            0 <= j <= 27,
            offsets@.len() == if j <= 13 {
                j as int
            } else {
                j - 1
            },
            forall|k: int| 0 <= k < offsets@.len() ==> offsets@[k] == neighbor_at(k),
        decreases 27 - j,
    {
        if j != 13 {
            offsets.push(Offset3::new(j % 3 - 1, (j / 3) % 3 - 1, j / 9 - 1));
        }
        j += 1;
    }
    assert(offsets@ =~= neighbor_ring());
    offsets
}

/// Whether the spiral search is past the last shell it has to check.
fn past_stop(maybe_stop_cell_index1: Option<usize>, spiral_cell_index1: usize) -> (past: bool)
    ensures
        past == (maybe_stop_cell_index1 matches Some(stop) && spiral_cell_index1 > stop),
{
    match maybe_stop_cell_index1 {
        Some(stop_cell_index1) => spiral_cell_index1 > stop_cell_index1,
        None => false,
    }
}

impl UniformGrid {
    /// Returns the points of the grid, in the order in which they were
    /// handed over: an answer's index points into them.
    pub fn points(&self) -> (points: &Vec<Point3>)
        ensures
            points@ == self@.points,
    {
        &self.point_objs
    }

    /// Returns the 3-dimensional offset of the cell in which the point would
    /// be bucketed.
    ///
    /// The offset is relative to the uniform grid's "origin cell" at
    /// `(0, 0, 0)`. The uniform grid has a finite width in each dimension, so
    /// the offset may refer to a "cell" that doesn't actually exist. This
    /// will happen if the given point lies outside the region of space that
    /// is covered by the uniform grid.
    pub fn point_into_offset(&self, point: Point3) -> (offset: Offset3)
        requires
            self.wf(),
        ensures
            offset == self@.offset_of(point),
    {
        point_into_offset(point, self.min_position, self.cell_width)
    }

    /// Converts the 3-dimensional offset of a cell in the uniform grid into
    /// an index into the 1-dimensional vector that stores the cells of the
    /// uniform grid.
    ///
    /// This returns `None` if the offset refers to a "cell" that doesn't
    /// exist because it is outside the finite bounds of the uniform grid.
    pub fn offset_into_index1(&self, offset_from_origin: Offset3) -> (index: Option<usize>)
        requires
            self.wf(),
        ensures
            index == offset_from_origin.grid_index1(self@.grid_dimensions),
            index matches Some(i) ==> i < self@.cell_count(),
    {
        offset_from_origin.into_grid_index1(self.grid_dimensions)
    }

    /// Returns the index of the cell that lies `delta` away from the cell at
    /// `center`, or `None` if the grid has no such cell.
    fn shifted_into_index1(&self, center: Offset3, delta: &Offset3) -> (index: Option<usize>)
        requires
            self.wf(),
        ensures
            index == self@.cell_at(center, *delta),
            index matches Some(i) ==> i < self@.cell_count(),
    {
        if center.x.checked_add(delta.x).is_some() && center.y.checked_add(delta.y).is_some()
            && center.z.checked_add(delta.z).is_some() {
            self.offset_into_index1(center + delta)
        } else {
            None
        }
    }

    /// Returns the distance between the point and the nearest wall of the
    /// cell that contains the point.
    ///
    /// The 3-dimensional offset, `cell_offset`, is relative to the uniform
    /// grid's "origin cell" at `(0, 0, 0)`.
    pub fn nearest_wall_dist(&self, point: Point3, cell_offset: Offset3) -> (dist: i64)
        requires
            self.wf(),
            self@.offset_of(point) == cell_offset,
        ensures
            dist == self@.wall_distance(point, cell_offset),
            0 <= dist <= self@.cell_width,
    {
        proof {
            lemma_cell_of_fits(point, self.min_position, self.cell_width as int);
        }
        let dist_to_x_wall: i64 = self.axis_wall_dist(point.x, self.min_position.x, cell_offset.x);
        let dist_to_y_wall: i64 = self.axis_wall_dist(point.y, self.min_position.y, cell_offset.y);
        let dist_to_z_wall: i64 = self.axis_wall_dist(point.z, self.min_position.z, cell_offset.z);
        let dist_to_yz_wall: i64 = if dist_to_y_wall <= dist_to_z_wall {
            dist_to_y_wall
        } else {
            dist_to_z_wall
        };
        if dist_to_x_wall <= dist_to_yz_wall {
            dist_to_x_wall
        } else {
            dist_to_yz_wall
        }
    }

    /// The distance along one axis between a coordinate and the nearer wall
    /// of the cell that holds it.
    fn axis_wall_dist(&self, c: i32, low: i32, k: i64) -> (dist: i64)
        requires
            self.wf(),
            k == axis_cell(c as int, low as int, self@.cell_width as int),
        ensures
            dist == axis_wall_distance(c as int, low as int, k as int, self@.cell_width as int),
            0 <= dist <= self@.cell_width,
    {
        proof {
            lemma_axis_cell_bounds(c as int, low as int, self.cell_width as int);
        }
        let cell_low: i64 = low as i64 + k * self.cell_width;
        let near: i64 = c as i64 - cell_low;
        let far: i64 = cell_low + self.cell_width - c as i64;
        if near <= far {
            near
        } else {
            far
        }
    }

    /// Checks each of the cells that are identified by the offsets from the
    /// center cell, and return the point in those cells that is nearest to
    /// the query point.
    pub fn nearest_in_cell_offsets(
        &self,
        query_point: Point3,
        center_cell_offset: Offset3,
        cell_offsets: &Vec<Offset3>,
    ) -> (best: Option<SearchResult>)
        requires
            self.wf(),
        ensures
            best == nearest_of(query_point, self@.gather(center_cell_offset, cell_offsets@)),
    {
        let mut best: Option<SearchResult> = None;
        let mut k: usize = 0;
        while k < cell_offsets.len()
            invariant
                self.wf(),
                k <= cell_offsets.len(),
                best == nearest_of(
                    query_point,
                    self@.gather(center_cell_offset, cell_offsets@.take(k as int)),
                ),
            decreases cell_offsets.len() - k,
        {
            proof {
                assert(cell_offsets@.take(k + 1).drop_last() =~= cell_offsets@.take(k as int));
            }
            match self.shifted_into_index1(center_cell_offset, &cell_offsets[k]) {
                Some(i) => {
                    proof {
                        lemma_scan_concat(
                            None,
                            query_point,
                            self@.gather(center_cell_offset, cell_offsets@.take(k as int)),
                            self@.bucket(i as int),
                        );
                    }
                    best = nearest_after(best, query_point, &self.cell_point_positions[i]);
                },
                None => {},
            }
            k += 1;
        }
        assert(cell_offsets@.take(k as int) =~= cell_offsets@);
        best
    }

    /// Looks for the nearest point in the cell of the query point and, unless
    /// the search ends there, in the 26 cells around it.
    pub fn nearest_neighbor_in_query_cell(
        &self,
        query_point: Point3,
        query_cell_offset: Offset3,
    ) -> (best: Option<SearchResult>)
        requires
            self.wf(),
            query_cell_offset == self@.offset_of(query_point),
        ensures
            best == nearest_of(query_point, self@.near_entries(query_point)),
    {
        let mut nearest_in_query_cell: Option<SearchResult> = None;
        match self.offset_into_index1(query_cell_offset) {
            Some(query_cell_index) => {
                assert(self.cell_point_positions@[query_cell_index as int]@ == self@.bucket(
                    query_cell_index as int,
                ));
                if self.cell_point_counts[query_cell_index] > 0 {
                    nearest_in_query_cell = nearest(
                        query_point,
                        &self.cell_point_positions[query_cell_index],
                    );
                }
            },
            None => {},
        }
        proof {
            lemma_nearest_of(query_point, self@.home_entries(query_point));
            assert(nearest_in_query_cell == nearest_of(
                query_point,
                self@.home_entries(query_point),
            ));
        }
        match nearest_in_query_cell {
            Some(found) => {
                proof {
                    self.lemma_home_entry_lies_in_cell(query_point);
                }
                let dist_to_wall: i64 = self.nearest_wall_dist(found.position, query_cell_offset);
                proof {
                    lemma_squared_bound(dist_to_wall as int);
                }
                if (dist_to_wall as u128) * (dist_to_wall as u128) >= found.distance2_to_query {
                    // The point found is no farther from the query point than
                    // from the nearest wall of the cell: the search ends here.
                    return nearest_in_query_cell;
                }
            },
            None => {},
        }
        // Check the neighboring cells for points that might be closer.
        let ring = neighbor_offsets();
        let nearest_in_neighbor_cells = self.nearest_in_cell_offsets(
            query_point,
            query_cell_offset,
            &ring,
        );
        proof {
            let home = self@.home_entries(query_point);
            let around = self@.gather(query_cell_offset, neighbor_ring());
            lemma_scan_concat(None, query_point, home, around);
            lemma_scan_from_is_closer(nearest_in_query_cell, query_point, around);
        }
        closer_of(nearest_in_query_cell, nearest_in_neighbor_cells)
    }

    /// Goes outward through the shells of the spiral search order and checks
    /// the points in each batch of cells that lie equally far from the center
    /// cell, until a first point is found in some shell and then that
    /// shell's stop index is reached, or all shells are exhausted.
    pub fn nearest_neighbor_spiral_search(
        &self,
        query_point: Point3,
        query_cell_offset: Offset3,
    ) -> (best: Option<SearchResult>)
        requires
            self.wf(),
        ensures
            best == nearest_of(query_point, self@.spiral_entries(query_cell_offset)),
    {
        let mut maybe_stop_cell_index1: Option<usize> = None;
        let mut maybe_nearest_so_far: Option<SearchResult> = None;

        // Skip the first spiral cell, which is always (0, 0, 0), since that
        // cell is checked before attempting spiral search.
        let mut spiral_cell_index1: usize = 1;
        while spiral_cell_index1 < self.spiral_cells.len() && !past_stop(
            maybe_stop_cell_index1,
            spiral_cell_index1,
        )
            invariant
                self.wf(),
                1 <= spiral_cell_index1,
                spiral_cell_index1 <= self@.spiral_cells.len() || spiral_cell_index1 == 1,
                maybe_nearest_so_far == nearest_of(
                    query_point,
                    self@.shells(query_cell_offset, 1, spiral_cell_index1 as int),
                ),
                maybe_stop_cell_index1 is None ==> self@.first_hit(query_cell_offset, 1)
                    == self@.first_hit(query_cell_offset, spiral_cell_index1 as int),
                maybe_stop_cell_index1 matches Some(stop) ==> {
                    let hit = self@.first_hit(query_cell_offset, 1);
                    &&& 1 <= hit < spiral_cell_index1
                    &&& hit < self@.spiral_cells.len()
                    &&& stop == self@.spiral_cells[hit].stop_cell_index1
                    &&& spiral_cell_index1 <= hit + 1 || spiral_cell_index1 <= stop + 1
                },
            decreases self.spiral_cells.len() - spiral_cell_index1,
        {
            let spiral_cell: SpiralCell = self.spiral_cells[spiral_cell_index1];

            // Look for the nearest point in the next batch of cells that are
            // equidistant from the center cell.
            let variations = offset_variations(spiral_cell.offset);
            let maybe_nearest_in_spiral_cell = self.nearest_in_cell_offsets(
                query_point,
                query_cell_offset,
                &variations,
            );
            proof {
                let before = self@.shells(query_cell_offset, 1, spiral_cell_index1 as int);
                let here = self@.shell(query_cell_offset, spiral_cell_index1 as int);
                lemma_nearest_of(query_point, here);
                lemma_scan_concat(None, query_point, before, here);
                lemma_scan_from_is_closer(maybe_nearest_so_far, query_point, here);
            }

            if maybe_nearest_in_spiral_cell.is_some() {
                // A point has been found, so we don't need to search past the
                // stop cell.
                if maybe_stop_cell_index1.is_none() {
                    maybe_stop_cell_index1 = Some(spiral_cell.stop_cell_index1);
                }
            }
            // Check if the point that's found is the new nearest neighbor.
            maybe_nearest_so_far = closer_of(maybe_nearest_so_far, maybe_nearest_in_spiral_cell);
            spiral_cell_index1 += 1;
        }
        proof {
            let end = self@.spiral_end(query_cell_offset);
            if self@.spiral_cells.len() == 0 {
                assert(self@.shells(query_cell_offset, 1, 1) =~= self@.shells(
                    query_cell_offset,
                    1,
                    0,
                ));
            }
            assert(self@.shells(query_cell_offset, 1, spiral_cell_index1 as int) == self@.shells(
                query_cell_offset,
                1,
                end,
            ));
        }
        maybe_nearest_so_far
    }

    /// Scans every bucketed point of the grid.
    pub fn nearest_neighbor_brute_force(&self, query_point: Point3) -> (best: Option<SearchResult>)
        requires
            self.wf(),
        ensures
            best == nearest_of(query_point, self@.all_entries()),
    {
        let mut best: Option<SearchResult> = None;
        let mut c: usize = 0;
        while c < self.cell_point_positions.len()
            invariant
                self.wf(),
                c <= self.cell_point_positions.len(),
                best == nearest_of(query_point, self@.all_entries_upto(c as int)),
            decreases self.cell_point_positions.len() - c,
        {
            proof {
                lemma_scan_concat(
                    None,
                    query_point,
                    self@.all_entries_upto(c as int),
                    self@.bucket(c as int),
                );
            }
            best = nearest_after(best, query_point, &self.cell_point_positions[c]);
            c += 1;
        }
        best
    }

    /// Searches the uniform grid for the point that is closest to the given
    /// query point, and returns the index of the point found, among the
    /// points that the grid was built from, and its squared Euclidean
    /// distance to the query point; `None` where the grid holds no point.
    ///
    /// The search looks at the cell of the query point first, and ends there
    /// if the nearest point in it is no farther from the query point than
    /// that point is from the nearest wall of the cell; else it looks at the
    /// 26 cells around it as well. Only if there is no point in any of
    /// these, it goes outward through the shells of the spiral search order;
    /// and if that finds no point either, it scans every point. The answer
    /// is the nearest of the points looked at and, of several equally near
    /// ones, the first: a function of the grid and the query point alone, so
    /// that a repeated query repeats its answer.
    pub fn nearest_neighbor(&self, query_point: Point3) -> (answer: Option<(usize, u128)>)
        requires
            self.wf(),
        ensures
            answer == self@.nearest(query_point),
            answer is None <==> self@.points.len() == 0,
            answer matches Some((index, distance)) ==> index < self@.points.len() && distance
                == squared_distance(query_point, self@.points[index as int]),
    {
        proof {
            lemma_no_answer_iff_no_point(self@, query_point);
            lemma_answer_is_a_point(self@, query_point);
        }
        let query_cell_offset = self.point_into_offset(query_point);
        let mut found = self.nearest_neighbor_in_query_cell(query_point, query_cell_offset);
        proof {
            lemma_nearest_of(query_point, self@.near_entries(query_point));
            lemma_nearest_of(query_point, self@.spiral_entries(query_cell_offset));
        }
        if found.is_none() {
            found = self.nearest_neighbor_spiral_search(query_point, query_cell_offset);
        }
        if found.is_none() {
            found = self.nearest_neighbor_brute_force(query_point);
        }
        match found {
            Some(sr) => Some((sr.point_object_index, sr.distance2_to_query)),
            None => None,
        }
    }

    /// The point that a scan of the query's cell finds lies in that cell.
    proof fn lemma_home_entry_lies_in_cell(&self, query_point: Point3)
        requires
            self.wf(),
        ensures
            nearest_of(query_point, self@.home_entries(query_point)) matches Some(found)
                ==> self@.offset_of(found.position) == self@.offset_of(query_point),
    {
        let home = self@.home_entries(query_point);
        lemma_nearest_of(query_point, home);
        if let Some(found) = nearest_of(query_point, home) {
            let cell = self@.cell_index(query_point)->Some_0;
            let k = choose|k: int|
                0 <= k < home.len() && found == crate::search::candidate(
                    query_point,
                    #[trigger] home[k],
                );
            lemma_bucket_upto_holds(self@, cell as int, self@.points.len() as int);
            assert(self@.bucket(cell as int).contains(home[k]));
            crate::offset3::lemma_grid_index1_is_one_to_one(
                self@.offset_of(found.position),
                self@.offset_of(query_point),
                self@.grid_dimensions,
            );
        }
    }
}

/// The square of a distance to a wall fits the type that distances have.
proof fn lemma_squared_bound(w: int)
    requires
        0 <= w <= CELL_WIDTH_MAX,
    ensures
        w * w <= CELL_WIDTH_MAX * CELL_WIDTH_MAX,
        CELL_WIDTH_MAX * CELL_WIDTH_MAX <= u128::MAX,
{
    assert(w * w <= CELL_WIDTH_MAX * CELL_WIDTH_MAX) by (nonlinear_arith)
        requires
            0 <= w <= CELL_WIDTH_MAX,
    ;
    assert(CELL_WIDTH_MAX * CELL_WIDTH_MAX <= u128::MAX) by (nonlinear_arith)
        requires
            CELL_WIDTH_MAX == 0x2_0000_0000,
    ;
}

} // verus!
