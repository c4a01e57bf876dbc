use uniform_grid::offset3::Offset3;

#[test]
fn new_keeps_the_components() {
    let o = Offset3::new(1, -2, 3);
    assert_eq!((o.x, o.y, o.z), (1, -2, 3));
    assert_eq!(o, Offset3 { x: 1, y: -2, z: 3 });
}

#[test]
fn origin_cell_has_index_zero() {
    assert_eq!(Offset3::new(0, 0, 0).into_grid_index1((2, 3, 4)), Some(0));
}

#[test]
fn index_runs_x_first_then_y_then_z() {
    let size = (2, 3, 4);
    assert_eq!(Offset3::new(1, 0, 0).into_grid_index1(size), Some(1));
    assert_eq!(Offset3::new(0, 1, 0).into_grid_index1(size), Some(2));
    assert_eq!(Offset3::new(0, 0, 1).into_grid_index1(size), Some(6));
    assert_eq!(Offset3::new(1, 2, 3).into_grid_index1(size), Some(23));
}

#[test]
fn offsets_outside_the_grid_have_no_index() {
    let size = (2, 3, 4);
    assert_eq!(Offset3::new(2, 0, 0).into_grid_index1(size), None);
    assert_eq!(Offset3::new(0, 3, 0).into_grid_index1(size), None);
    assert_eq!(Offset3::new(0, 0, 4).into_grid_index1(size), None);
    assert_eq!(Offset3::new(-1, 0, 0).into_grid_index1(size), None);
    assert_eq!(Offset3::new(0, -1, 0).into_grid_index1(size), None);
    assert_eq!(Offset3::new(0, 0, -1).into_grid_index1(size), None);
    assert_eq!(Offset3::new(i64::MAX, i64::MAX, i64::MAX).into_grid_index1(size), None);
    assert_eq!(Offset3::new(i64::MIN, 0, 0).into_grid_index1(size), None);
}

#[test]
fn a_grid_without_cells_has_no_index() {
    assert_eq!(Offset3::new(0, 0, 0).into_grid_index1((0, 0, 0)), None);
    assert_eq!(Offset3::new(0, 0, 0).into_grid_index1((3, 0, 3)), None);
}

#[test]
fn from_index_reads_the_components_back() {
    assert_eq!(Offset3::from_grid_index1(0, 2, 3), Offset3::new(0, 0, 0));
    assert_eq!(Offset3::from_grid_index1(23, 2, 3), Offset3::new(1, 2, 3));
    assert_eq!(Offset3::from_grid_index1(6, 2, 3), Offset3::new(0, 0, 1));
    assert_eq!(Offset3::from_grid_index1(5, 2, 3), Offset3::new(1, 2, 0));
}

#[test]
fn index_and_offset_are_inverse() {
    let size = (3, 4, 5);
    for i in 0..60 {
        let o = Offset3::from_grid_index1(i, size.0, size.1);
        assert_eq!(o.into_grid_index1(size), Some(i));
    }
    for z in 0..5 {
        for y in 0..4 {
            for x in 0..3 {
                let o = Offset3::new(x, y, z);
                let i = o.into_grid_index1(size).unwrap();
                assert_eq!(Offset3::from_grid_index1(i, size.0, size.1), o);
            }
        }
    }
}

#[test]
fn sum_is_componentwise() {
    assert_eq!(Offset3::new(1, 2, 3) + Offset3::new(-1, 5, 0), Offset3::new(0, 7, 3));
    assert_eq!(Offset3::new(0, 0, 0) + Offset3::new(-4, -5, -6), Offset3::new(-4, -5, -6));
    assert_eq!(
        Offset3::new(i64::MAX - 1, i64::MIN + 1, 0) + Offset3::new(1, -1, 0),
        Offset3::new(i64::MAX, i64::MIN, 0)
    );
}

#[test]
fn sum_with_a_borrowed_offset() {
    let delta = Offset3::new(-1, 1, 2);
    assert_eq!(Offset3::new(2, 2, 2) + &delta, Offset3::new(1, 3, 4));
    assert_eq!(Offset3::new(2, 2, 2) + &delta, Offset3::new(2, 2, 2) + delta);
}
