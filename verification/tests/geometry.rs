use uniform_grid::bounding_box::BoundingBox;
use uniform_grid::cube_root::cube_root;
use uniform_grid::offset3::Offset3;
use uniform_grid::point::{dist2, point_into_index1, point_into_offset, Point3};

fn p(x: i32, y: i32, z: i32) -> Point3 {
    Point3::new(x, y, z)
}

#[test]
fn squared_distance_of_small_points() {
    assert_eq!(dist2(p(0, 0, 0), p(1, 2, 3)), 14);
    assert_eq!(dist2(p(1, 2, 3), p(0, 0, 0)), 14);
    assert_eq!(dist2(p(-1, -1, -1), p(1, 1, 1)), 12);
    assert_eq!(dist2(p(7, 7, 7), p(7, 7, 7)), 0);
    assert_eq!(dist2(p(0, 0, 0), p(5, 5, 5)), 75);
}

#[test]
fn squared_distance_across_the_whole_range() {
    let side: u128 = 0xffff_ffff;
    assert_eq!(
        dist2(p(i32::MIN, i32::MIN, i32::MIN), p(i32::MAX, i32::MAX, i32::MAX)),
        3 * side * side
    );
    assert_eq!(dist2(p(i32::MAX, 0, 0), p(i32::MIN, 0, 0)), side * side);
}

#[test]
fn cells_are_half_open() {
    let min = p(0, 0, 0);
    assert_eq!(point_into_offset(p(0, 0, 0), min, 10), Offset3::new(0, 0, 0));
    assert_eq!(point_into_offset(p(9, 10, 19), min, 10), Offset3::new(0, 1, 1));
    assert_eq!(point_into_offset(p(20, 29, 30), min, 10), Offset3::new(2, 2, 3));
}

#[test]
fn cells_below_the_origin_count_downward() {
    let min = p(0, 0, 0);
    assert_eq!(point_into_offset(p(-1, -10, -11), min, 10), Offset3::new(-1, -1, -2));
    assert_eq!(point_into_offset(p(-20, -21, -9), min, 10), Offset3::new(-2, -3, -1));
}

#[test]
fn cells_are_counted_from_the_least_corner() {
    let min = p(-5, 100, 7);
    assert_eq!(point_into_offset(p(-5, 100, 7), min, 3), Offset3::new(0, 0, 0));
    assert_eq!(point_into_offset(p(-2, 99, 14), min, 3), Offset3::new(1, -1, 2));
    assert_eq!(
        point_into_offset(p(i32::MAX, i32::MIN, 0), p(i32::MIN, i32::MAX, 0), 1),
        Offset3::new(0xffff_ffff, -0xffff_ffff, 0)
    );
}

#[test]
fn point_index_inside_and_outside() {
    let min = p(0, 0, 0);
    let size = (2, 2, 2);
    assert_eq!(point_into_index1(p(0, 0, 0), min, 10, size), Some(0));
    assert_eq!(point_into_index1(p(19, 19, 19), min, 10, size), Some(7));
    assert_eq!(point_into_index1(p(10, 0, 19), min, 10, size), Some(5));
    assert_eq!(point_into_index1(p(20, 0, 0), min, 10, size), None);
    assert_eq!(point_into_index1(p(-1, 0, 0), min, 10, size), None);
}

#[test]
fn bounding_box_of_some_points() {
    let bb = BoundingBox::new(&vec![p(3, -7, 12), p(40, 2, -9), p(-15, 33, 8)]);
    assert_eq!(bb.min, p(-15, -7, -9));
    assert_eq!((bb.x_width, bb.y_width, bb.z_width), (55, 40, 21));
    assert_eq!(bb.max_width(), 55);
}

#[test]
fn bounding_box_of_one_point_has_no_extent() {
    let bb = BoundingBox::new(&vec![p(5, 5, 5)]);
    assert_eq!(bb.min, p(5, 5, 5));
    assert_eq!((bb.x_width, bb.y_width, bb.z_width), (0, 0, 0));
    assert_eq!(bb.max_width(), 0);
}

#[test]
fn bounding_box_across_the_whole_range() {
    let bb = BoundingBox::new(&vec![p(i32::MAX, 0, i32::MIN), p(i32::MIN, 0, i32::MAX)]);
    assert_eq!(bb.min, p(i32::MIN, 0, i32::MIN));
    assert_eq!((bb.x_width, bb.y_width, bb.z_width), (0xffff_ffff, 0, 0xffff_ffff));
}

#[test]
fn bounding_box_holds_every_point() {
    let points = vec![p(1, 9, 4), p(8, 2, 6), p(5, 5, 5), p(1, 2, 4), p(8, 9, 6)];
    let bb = BoundingBox::new(&points);
    for q in &points {
        assert!(bb.min.x <= q.x && (q.x as i64) <= bb.min.x as i64 + bb.x_width);
        assert!(bb.min.y <= q.y && (q.y as i64) <= bb.min.y as i64 + bb.y_width);
        assert!(bb.min.z <= q.z && (q.z as i64) <= bb.min.z as i64 + bb.z_width);
    }
    assert_eq!(bb.max_width(), 7);
}

#[test]
fn cube_roots_are_rounded_down() {
    assert_eq!(cube_root(0), 0);
    assert_eq!(cube_root(1), 1);
    assert_eq!(cube_root(7), 1);
    assert_eq!(cube_root(8), 2);
    assert_eq!(cube_root(24), 2);
    assert_eq!(cube_root(26), 2);
    assert_eq!(cube_root(27), 3);
    assert_eq!(cube_root(999), 9);
    assert_eq!(cube_root(1000), 10);
    assert_eq!(cube_root(1_000_000_000), 1000);
    assert_eq!(cube_root(999_999_999), 999);
}

#[test]
fn cube_root_of_the_greatest_number() {
    let k = cube_root(usize::MAX) as u128;
    assert!(k * k * k <= usize::MAX as u128);
    assert!((k + 1) * (k + 1) * (k + 1) > usize::MAX as u128);
}
