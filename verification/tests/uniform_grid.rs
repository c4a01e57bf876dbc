use uniform_grid::point::{dist2, Point3};
use uniform_grid::search::SearchResult;
use uniform_grid::spiral_cells::SpiralCell;
use uniform_grid::{Offset3, UniformGrid};

fn p(x: i32, y: i32, z: i32) -> Point3 {
    Point3::new(x, y, z)
}

fn o(x: i64, y: i64, z: i64) -> Offset3 {
    Offset3::new(x, y, z)
}

fn shell(offset: (i64, i64, i64), stop: usize) -> SpiralCell {
    SpiralCell { offset: o(offset.0, offset.1, offset.2), stop_cell_index1: stop }
}

/// A small spiral order: the center, then shells at growing distance, each
/// of which lets the search go on to the last shell.
fn small_spiral() -> Vec<SpiralCell> {
    let offsets = [
        (0, 0, 0),
        (1, 0, 0),
        (1, 1, 0),
        (1, 1, 1),
        (2, 0, 0),
        (2, 1, 0),
        (2, 1, 1),
        (2, 2, 0),
        (2, 2, 1),
        (2, 2, 2),
    ];
    offsets.iter().map(|&offset| shell(offset, offsets.len() - 1)).collect()
}

fn brute_force(points: &[Point3], query: Point3) -> Option<u128> {
    points.iter().map(|&q| dist2(query, q)).min()
}

/// Five cells of width 101 along each axis, from (0, 0, 0); the two corner
/// points come first.
fn five_cells(inner: &[Point3], spiral: Vec<SpiralCell>) -> UniformGrid {
    let mut points = vec![p(0, 0, 0), p(499, 499, 499)];
    points.extend_from_slice(inner);
    let scale = 130 / points.len();
    assert!((125..216).contains(&(points.len() * scale)));
    UniformGrid::new(points, scale, spiral)
}

#[test]
fn three_points_in_tenths() {
    // In tenths: the points (0, 0, 0), (10, 10, 10) and (10, 10, 9), asked
    // at (10, 10, 9.4); the squared distances to the two near points are 0.16
    // and 0.36.
    let points = vec![p(0, 0, 0), p(100, 100, 100), p(100, 100, 90)];
    let grid = UniformGrid::new(points.clone(), 8, small_spiral());
    let (index, distance2) = grid.nearest_neighbor(p(100, 100, 94)).unwrap();
    assert_eq!((index, distance2), (2, 16));
    assert_eq!(points[index], p(100, 100, 90));
    assert!((distance2 as f64 * 0.1 * 0.1 - 0.16).abs() < 1e-12);
    assert_eq!(dist2(p(100, 100, 94), points[1]), 36);
}

#[test]
fn single_point() {
    let grid = UniformGrid::new(vec![p(5, 5, 5)], 1, small_spiral());
    assert_eq!(grid.nearest_neighbor(p(0, 0, 0)), Some((0, 75)));
}

#[test]
fn empty_grid_has_no_answer() {
    let grid = UniformGrid::new(Vec::new(), 8, small_spiral());
    assert_eq!(grid.nearest_neighbor(p(1, 2, 3)), None);
    assert_eq!(grid.nearest_neighbor(p(0, 0, 0)), None);
    assert_eq!(grid.nearest_neighbor_brute_force(p(0, 0, 0)), None);
}

#[test]
fn scale_zero_still_gives_one_cell() {
    let points = vec![p(1, 1, 1), p(9, 9, 9)];
    let grid = UniformGrid::new(points, 0, Vec::new());
    assert_eq!(grid.offset_into_index1(o(0, 0, 0)), Some(0));
    assert_eq!(grid.offset_into_index1(o(1, 0, 0)), None);
    assert_eq!(grid.nearest_neighbor(p(8, 8, 8)), Some((1, 3)));
    assert_eq!(grid.nearest_neighbor(p(-50, 1, 1)), Some((0, 2601)));
}

#[test]
fn cells_per_axis_is_the_cube_root_of_points_times_scale() {
    // 3 * 8 = 24 cells at most: 2 along each axis, of width 100 * 1.01 / 2,
    // rounded up to 51.
    let grid = UniformGrid::new(vec![p(0, 0, 0), p(100, 100, 100), p(100, 100, 90)], 8, Vec::new());
    assert_eq!(grid.offset_into_index1(o(1, 1, 1)), Some(7));
    assert_eq!(grid.offset_into_index1(o(2, 0, 0)), None);
    assert_eq!(grid.point_into_offset(p(50, 51, 101)), o(0, 1, 1));
    assert_eq!(grid.point_into_offset(p(102, -1, -51)), o(2, -1, -1));
    // 3 * 9 = 27 cells: 3 along each axis, of width 100 * 1.01 / 3 -> 34.
    let grid = UniformGrid::new(vec![p(0, 0, 0), p(100, 100, 100), p(100, 100, 90)], 9, Vec::new());
    assert_eq!(grid.offset_into_index1(o(2, 2, 2)), Some(26));
    assert_eq!(grid.offset_into_index1(o(3, 0, 0)), None);
    assert_eq!(grid.point_into_offset(p(33, 34, 68)), o(0, 1, 2));
}

#[test]
fn offsets_are_counted_from_the_least_corner() {
    let grid = UniformGrid::new(vec![p(-10, 20, 5), p(10, 40, 25)], 4, Vec::new());
    // 8 cells: 2 along each axis, of width 20 * 1.01 / 2 -> 11.
    assert_eq!(grid.point_into_offset(p(-10, 20, 5)), o(0, 0, 0));
    assert_eq!(grid.point_into_offset(p(10, 40, 25)), o(1, 1, 1));
    assert_eq!(grid.point_into_offset(p(0, 31, 15)), o(0, 1, 0));
    assert_eq!(grid.point_into_offset(p(-11, 19, 4)), o(-1, -1, -1));
}

#[test]
fn a_point_on_the_greatest_face_is_bucketed() {
    for (far, scale) in [(10, 4), (1000, 500), (999, 4), (1, 500), (7, 32), (1 << 30, 500)] {
        let points = vec![p(0, 0, 0), p(far, far, far), p(far, 0, 0), p(0, far, far)];
        let grid = UniformGrid::new(points.clone(), scale, Vec::new());
        for (i, q) in points.iter().enumerate() {
            let offset = grid.point_into_offset(*q);
            assert!(grid.offset_into_index1(offset).is_some());
            assert_eq!(grid.nearest_neighbor(*q), Some((i, 0)));
        }
    }
}

#[test]
fn the_whole_coordinate_range_fits() {
    let points = vec![p(i32::MIN, i32::MIN, i32::MIN), p(i32::MAX, i32::MAX, i32::MAX)];
    let grid = UniformGrid::new(points, 14, small_spiral());
    assert_eq!(grid.point_into_offset(p(i32::MAX, i32::MAX, i32::MAX)), o(2, 2, 2));
    assert_eq!(grid.nearest_neighbor(p(i32::MAX, i32::MAX, i32::MAX)), Some((1, 0)));
    assert_eq!(grid.nearest_neighbor(p(i32::MIN, i32::MIN, i32::MIN)), Some((0, 0)));
    let side: u128 = 0xffff_ffff;
    assert_eq!(
        grid.nearest_neighbor(p(i32::MAX, i32::MIN, i32::MIN)),
        Some((0, side * side))
    );
}

#[test]
fn self_query_is_at_distance_zero() {
    let points = vec![p(3, -7, 12), p(40, 2, -9), p(-15, 33, 8), p(3, -7, 13), p(0, 0, 0)];
    for scale in [1, 4, 30] {
        let grid = UniformGrid::new(points.clone(), scale, small_spiral());
        for q in &points {
            let (i, d) = grid.nearest_neighbor(*q).unwrap();
            assert_eq!(d, 0);
            assert_eq!(points[i], *q);
        }
    }
}

#[test]
fn points_at_one_position_answer_with_the_first() {
    let points = vec![p(4, 4, 4), p(9, 9, 9), p(4, 4, 4)];
    let grid = UniformGrid::new(points, 3, small_spiral());
    assert_eq!(grid.nearest_neighbor(p(4, 4, 4)), Some((0, 0)));
    assert_eq!(grid.nearest_neighbor(p(4, 4, 5)), Some((0, 1)));
}

#[test]
fn repeated_queries_repeat_their_answers() {
    let points = vec![p(3, -7, 12), p(40, 2, -9), p(-15, 33, 8), p(3, -7, 13), p(0, 0, 0)];
    let grid = UniformGrid::new(points, 4, small_spiral());
    for q in [p(0, 0, 1), p(39, 0, 0), p(-100, 100, 7), p(3, -7, 12)] {
        let first = grid.nearest_neighbor(q);
        assert_eq!(grid.nearest_neighbor(q), first);
        assert_eq!(grid.nearest_neighbor(q), first);
    }
}

#[test]
fn wall_distance_is_to_the_nearest_of_six_walls() {
    // Two cells of width 51 along each axis, from (0, 0, 0).
    let grid = UniformGrid::new(vec![p(0, 0, 0), p(100, 100, 100), p(100, 100, 90)], 8, Vec::new());
    assert_eq!(grid.nearest_wall_dist(p(100, 100, 90), o(1, 1, 1)), 2);
    assert_eq!(grid.nearest_wall_dist(p(60, 70, 80), o(1, 1, 1)), 9);
    assert_eq!(grid.nearest_wall_dist(p(80, 70, 60), o(1, 1, 1)), 9);
    assert_eq!(grid.nearest_wall_dist(p(0, 0, 0), o(0, 0, 0)), 0);
    assert_eq!(grid.nearest_wall_dist(p(25, 25, 25), o(0, 0, 0)), 25);
    assert_eq!(grid.nearest_wall_dist(p(26, 26, 26), o(0, 0, 0)), 25);
    assert_eq!(grid.nearest_wall_dist(p(30, 40, 50), o(0, 0, 0)), 1);
    assert_eq!(grid.nearest_wall_dist(p(-1, -20, -51), o(-1, -1, -1)), 0);
    assert_eq!(grid.nearest_wall_dist(p(-2, -20, -31), o(-1, -1, -1)), 2);
}

#[test]
fn search_ends_in_the_cell_of_the_query() {
    let grid = five_cells(&[p(252, 252, 252), p(305, 250, 250)], small_spiral());
    let q = p(250, 250, 250);
    // The point found is 50 from the nearest wall of its cell.
    assert_eq!(grid.nearest_wall_dist(p(252, 252, 252), o(2, 2, 2)), 50);
    assert_eq!(grid.nearest_neighbor(q), Some((2, 12)));
    assert_eq!(
        grid.nearest_neighbor_in_query_cell(q, o(2, 2, 2)),
        Some(SearchResult { position: p(252, 252, 252), point_object_index: 2, distance2_to_query: 12 })
    );
}

#[test]
fn search_ends_at_home_where_the_found_point_is_as_near_as_its_wall() {
    // The point at 25 lies 25 from the walls of its cell and 20 from the
    // query, so the search ends there; the point at 52 lies in the next
    // cell.
    let points = vec![p(0, 0, 0), p(100, 100, 100), p(25, 25, 25), p(52, 25, 25)];
    let grid = UniformGrid::new(points, 2, small_spiral());
    let q = p(45, 25, 25);
    assert_eq!(grid.nearest_wall_dist(p(25, 25, 25), o(0, 0, 0)), 25);
    assert_eq!(grid.nearest_neighbor(q), Some((2, 400)));
    assert_eq!(
        grid.nearest_neighbor_brute_force(q),
        Some(SearchResult { position: p(52, 25, 25), point_object_index: 3, distance2_to_query: 49 })
    );
}

#[test]
fn wall_test_passes_on_equality() {
    // Two cells of width 51 along each axis. The point at 25 lies 25 from
    // the nearest wall of its cell.
    let points = vec![p(0, 0, 0), p(100, 100, 100), p(25, 25, 25), p(52, 25, 25)];
    let grid = UniformGrid::new(points, 2, Vec::new());
    assert_eq!(grid.nearest_wall_dist(p(25, 25, 25), o(0, 0, 0)), 25);
    // At 25 from the query the search ends with it.
    assert_eq!(grid.nearest_neighbor(p(50, 25, 25)), Some((2, 625)));
    // A little farther from the query, the ring is searched as well.
    assert_eq!(grid.nearest_neighbor(p(50, 26, 25)), Some((3, 5)));
}

#[test]
fn ring_is_searched_where_the_wall_is_nearer() {
    let grid = five_cells(&[p(210, 210, 210), p(305, 250, 250)], small_spiral());
    let q = p(300, 250, 250);
    assert_eq!(grid.nearest_wall_dist(p(210, 210, 210), o(2, 2, 2)), 8);
    assert_eq!(grid.nearest_neighbor(q), Some((3, 25)));
    assert_eq!(
        grid.nearest_neighbor_in_query_cell(q, o(2, 2, 2)),
        Some(SearchResult { position: p(305, 250, 250), point_object_index: 3, distance2_to_query: 25 })
    );
}

#[test]
fn ring_is_searched_where_the_cell_of_the_query_is_empty() {
    let grid = five_cells(&[p(305, 250, 250)], small_spiral());
    assert_eq!(grid.nearest_neighbor(p(300, 250, 250)), Some((2, 25)));
    // A query below the grid: its cell does not exist, the ring reaches
    // the origin cell.
    assert_eq!(grid.point_into_offset(p(-1, -1, -1)), o(-1, -1, -1));
    assert_eq!(grid.nearest_neighbor(p(-1, -1, -1)), Some((0, 3)));
}

#[test]
fn cell_of_the_query_wins_a_tie_with_the_ring() {
    let grid = five_cells(&[p(310, 250, 250), p(290, 250, 250)], small_spiral());
    // Both lie 10 from the query; the second lies in the query's cell.
    assert_eq!(grid.point_into_offset(p(300, 250, 250)), o(2, 2, 2));
    assert_eq!(grid.point_into_offset(p(310, 250, 250)), o(3, 2, 2));
    assert_eq!(grid.nearest_neighbor(p(300, 250, 250)), Some((3, 100)));
}

#[test]
fn ring_result_stands_without_a_look_at_farther_cells() {
    // Three cells of width 101 along each axis. The origin lies in the
    // query's cell, nothing nearer in the ring; the point at 202 lies two
    // cells away.
    let points = vec![p(0, 0, 0), p(299, 299, 299), p(10, 150, 150), p(202, 50, 50)];
    let grid = UniformGrid::new(points, 7, small_spiral());
    let q = p(100, 50, 50);
    assert_eq!(grid.nearest_neighbor(q), Some((0, 15000)));
    assert_eq!(grid.nearest_neighbor_brute_force(q).unwrap().distance2_to_query, 10404);
}

#[test]
fn cells_at_given_offsets_are_searched_in_order() {
    let grid = five_cells(&[p(410, 250, 250), p(250, 90, 250)], Vec::new());
    let q = p(250, 250, 250);
    let c = o(2, 2, 2);
    let at_x = SearchResult { position: p(410, 250, 250), point_object_index: 2, distance2_to_query: 25600 };
    let at_y = SearchResult { position: p(250, 90, 250), point_object_index: 3, distance2_to_query: 25600 };
    assert_eq!(grid.nearest_in_cell_offsets(q, c, &vec![o(2, 0, 0), o(0, -2, 0)]), Some(at_x));
    assert_eq!(grid.nearest_in_cell_offsets(q, c, &vec![o(0, -2, 0), o(2, 0, 0)]), Some(at_y));
    assert_eq!(grid.nearest_in_cell_offsets(q, c, &vec![o(1, 0, 0), o(3, 0, 0)]), None);
    assert_eq!(grid.nearest_in_cell_offsets(q, c, &Vec::new()), None);
    assert_eq!(
        grid.nearest_in_cell_offsets(q, c, &vec![o(i64::MAX, 0, 0), o(0, i64::MIN, 0), o(2, 0, 0)]),
        Some(at_x)
    );
    assert_eq!(
        grid.nearest_in_cell_offsets(q, c, &vec![o(-2, -2, -2), o(2, 2, 2)]).unwrap().point_object_index,
        1
    );
}

#[test]
fn spiral_search_stops_at_the_stop_index() {
    let inner = [p(410, 250, 250)];
    let q = p(250, 250, 250);
    let c = o(2, 2, 2);
    let at_x = SearchResult { position: p(410, 250, 250), point_object_index: 2, distance2_to_query: 25600 };
    let corner = SearchResult { position: p(499, 499, 499), point_object_index: 1, distance2_to_query: 186003 };

    let table = vec![shell((0, 0, 0), 0), shell((1, 0, 0), 1), shell((2, 0, 0), 2), shell((2, 2, 2), 3)];
    let grid = five_cells(&inner, table);
    assert_eq!(grid.nearest_neighbor_in_query_cell(q, c), None);
    assert_eq!(grid.nearest_neighbor_spiral_search(q, c), Some(at_x));
    assert_eq!(grid.nearest_neighbor(q), Some((2, 25600)));

    // The first shell with a point says where to stop: here at once.
    let table = vec![shell((0, 0, 0), 0), shell((2, 2, 2), 1), shell((2, 0, 0), 2)];
    let grid = five_cells(&inner, table);
    assert_eq!(grid.nearest_neighbor_spiral_search(q, c), Some(corner));
    assert_eq!(grid.nearest_neighbor(q), Some((1, 186003)));

    // A stop index below the shell's own index stops at once too.
    let table = vec![shell((0, 0, 0), 0), shell((2, 2, 2), 0), shell((2, 0, 0), 2)];
    let grid = five_cells(&inner, table);
    assert_eq!(grid.nearest_neighbor_spiral_search(q, c), Some(corner));

    // Here it lets the search go one shell further.
    let table = vec![shell((0, 0, 0), 0), shell((2, 2, 2), 2), shell((2, 0, 0), 2)];
    let grid = five_cells(&inner, table);
    assert_eq!(grid.nearest_neighbor_spiral_search(q, c), Some(at_x));

    // A stop index beyond the table lets it go to the end.
    let table = vec![shell((0, 0, 0), 0), shell((2, 2, 2), 100), shell((1, 0, 0), 0), shell((2, 0, 0), 0)];
    let grid = five_cells(&inner, table);
    assert_eq!(grid.nearest_neighbor_spiral_search(q, c), Some(at_x));
    assert_eq!(grid.nearest_neighbor(q), Some((2, 25600)));
}

#[test]
fn spiral_search_skips_the_first_shell() {
    let q = p(250, 250, 250);
    let c = o(2, 2, 2);
    let table = vec![shell((2, 0, 0), 5)];
    let grid = five_cells(&[p(410, 250, 250)], table);
    assert_eq!(grid.nearest_neighbor_spiral_search(q, c), None);
    let grid = five_cells(&[p(410, 250, 250)], Vec::new());
    assert_eq!(grid.nearest_neighbor_spiral_search(q, c), None);
}

#[test]
fn spiral_search_keeps_the_first_of_equally_near_points() {
    let q = p(250, 250, 250);
    let c = o(2, 2, 2);
    let table = vec![shell((0, 0, 0), 0), shell((0, 2, 0), 2), shell((2, 0, 0), 2)];
    let grid = five_cells(&[p(410, 250, 250), p(250, 90, 250), p(90, 250, 250)], table);
    // The variations of a shell's offset are searched in their order, and a
    // later shell wins only where it is strictly nearer.
    let found = grid.nearest_neighbor_spiral_search(q, c).unwrap();
    assert_eq!(found.distance2_to_query, 25600);
    assert_eq!(found.point_object_index, 3);
}

#[test]
fn full_scan_where_the_spiral_finds_nothing() {
    let q = p(250, 250, 250);
    let table = vec![shell((0, 0, 0), 0), shell((1, 0, 0), 1)];
    let grid = five_cells(&[p(410, 250, 250)], table);
    assert_eq!(grid.nearest_neighbor_spiral_search(q, o(2, 2, 2)), None);
    assert_eq!(grid.nearest_neighbor(q), Some((2, 25600)));
    assert_eq!(
        grid.nearest_neighbor_brute_force(q),
        Some(SearchResult { position: p(410, 250, 250), point_object_index: 2, distance2_to_query: 25600 })
    );
}

#[test]
fn full_scan_goes_through_the_cells_in_order() {
    // Both inner points lie 160 from the query; the one in the cell with
    // the lower index is found.
    let grid = five_cells(&[p(410, 250, 250), p(90, 250, 250)], Vec::new());
    let found = grid.nearest_neighbor_brute_force(p(250, 250, 250)).unwrap();
    assert_eq!((found.point_object_index, found.distance2_to_query), (3, 25600));
}

#[test]
fn far_queries_match_a_scan_of_every_point() {
    let points = vec![p(0, 0, 0), p(10, 0, 0), p(0, 10, 0), p(7, 7, 7), p(3, 9, 1)];
    for spiral in [Vec::new(), vec![shell((0, 0, 0), 0)], small_spiral()] {
        let grid = UniformGrid::new(points.clone(), 2, spiral);
        for q in [p(100_000, -50_000, 3), p(-40, -40, -40), p(5, 5, 900), p(i32::MIN, i32::MAX, 0)] {
            let (i, d) = grid.nearest_neighbor(q).unwrap();
            assert_eq!(Some(d), brute_force(&points, q));
            assert_eq!(d, dist2(q, points[i]));
        }
    }
}

#[test]
fn short_spiral_tables_fall_back_to_the_full_scan() {
    let inner = [p(410, 250, 250), p(90, 90, 90), p(250, 460, 250)];
    for table in [Vec::new(), vec![shell((0, 0, 0), 0)], vec![shell((0, 0, 0), 7)]] {
        let grid = five_cells(&inner, table);
        let mut points = vec![p(0, 0, 0), p(499, 499, 499)];
        points.extend_from_slice(&inner);
        // Around each of these queries the cell and its ring are empty.
        for q in [p(250, 250, 250), p(240, 260, 255), p(1000, 1000, 1000), p(-300, 250, 250)] {
            assert_eq!(grid.nearest_neighbor_in_query_cell(q, grid.point_into_offset(q)), None);
            let (i, d) = grid.nearest_neighbor(q).unwrap();
            assert_eq!(Some(d), brute_force(&points, q));
            assert_eq!(d, dist2(q, points[i]));
        }
    }
}

#[test]
fn answers_are_points_of_the_grid_at_their_true_distance() {
    // A cloud of points from a fixed sequence of numbers.
    let mut state: u64 = 0x2545_f491_4f6c_dd1d;
    let mut next = move || {
        state = state.wrapping_mul(6364136223846793005).wrapping_add(1442695040888963407);
        ((state >> 33) % 1000) as i32
    };
    let points: Vec<Point3> = (0..300).map(|_| p(next(), next(), next())).collect();
    let grid = UniformGrid::new(points.clone(), 2, small_spiral());
    for _ in 0..300 {
        let q = p(next() * 2 - 500, next() * 2 - 500, next() * 2 - 500);
        let (i, d) = grid.nearest_neighbor(q).unwrap();
        assert!(i < points.len());
        assert_eq!(d, dist2(q, points[i]));
        assert!(d >= brute_force(&points, q).unwrap());
        assert_eq!(
            grid.nearest_neighbor_brute_force(q).unwrap().distance2_to_query,
            brute_force(&points, q).unwrap()
        );
    }
    for (j, q) in points.iter().enumerate() {
        let (i, d) = grid.nearest_neighbor(*q).unwrap();
        assert_eq!(d, 0);
        assert_eq!(points[i], points[j]);
    }
}

#[test]
fn points_are_kept_in_their_order() {
    let points = vec![p(3, -7, 12), p(40, 2, -9), p(-15, 33, 8)];
    let grid = UniformGrid::new(points.clone(), 4, small_spiral());
    assert_eq!(grid.points(), &points);
    let (i, d) = grid.nearest_neighbor(p(39, 2, -9)).unwrap();
    assert_eq!((grid.points()[i], d), (p(40, 2, -9), 1));
    assert!(UniformGrid::new(Vec::new(), 4, Vec::new()).points().is_empty());
}

/// A spiral order over the cells up to `radius` cells away: one shell for
/// each offset with components in falling order, the nearer ones first. A
/// shell's stop index is that of the last shell that may hold a point
/// nearer than a point of the shell can be.
fn sound_spiral(radius: i64) -> Vec<SpiralCell> {
    fn between(v: i64) -> i64 {
        if v >= 1 {
            v - 1
        } else {
            0
        }
    }
    fn nearest2(o: (i64, i64, i64)) -> i64 {
        between(o.0) * between(o.0) + between(o.1) * between(o.1) + between(o.2) * between(o.2)
    }
    fn farthest2(o: (i64, i64, i64)) -> i64 {
        (o.0 + 1) * (o.0 + 1) + (o.1 + 1) * (o.1 + 1) + (o.2 + 1) * (o.2 + 1)
    }
    let mut offsets = Vec::new();
    for x in 0..=radius {
        for y in 0..=x {
            for z in 0..=y {
                offsets.push((x, y, z));
            }
        }
    }
    offsets.sort_by_key(|&offset| (nearest2(offset), farthest2(offset)));
    assert_eq!(offsets[0], (0, 0, 0));
    offsets
        .iter()
        .map(|&offset| {
            let nearer = offsets.iter().filter(|&&other| nearest2(other) < farthest2(offset)).count();
            shell(offset, nearer - 1)
        })
        .collect()
}

#[test]
fn spiral_answers_match_a_scan_of_every_point() {
    let mut state: u64 = 0x9e37_79b9_7f4a_7c15;
    let mut next = move || {
        state = state.wrapping_mul(6364136223846793005).wrapping_add(1442695040888963407);
        ((state >> 33) % 1000) as i32
    };
    let points: Vec<Point3> = (0..40).map(|_| p(next(), next(), next())).collect();
    // 40 * 25 = 1000 cells: 10 along each axis.
    let grid = UniformGrid::new(points.clone(), 25, sound_spiral(10));
    let mut by_spiral = 0;
    for _ in 0..400 {
        let q = p(next(), next(), next());
        let offset = grid.point_into_offset(q);
        if grid.nearest_neighbor_in_query_cell(q, offset).is_none() {
            let found = grid.nearest_neighbor_spiral_search(q, offset).unwrap();
            by_spiral += 1;
            assert_eq!(found.distance2_to_query, brute_force(&points, q).unwrap());
            assert_eq!(
                grid.nearest_neighbor(q),
                Some((found.point_object_index, found.distance2_to_query))
            );
        }
    }
    assert!(by_spiral > 50);
}
