use uniform_grid::offset3::Offset3;
use uniform_grid::spiral_cells::{holds_offset, offset_variations, SpiralCell};
use uniform_grid::uniform_grid::neighbor_offsets;

fn o(x: i64, y: i64, z: i64) -> Offset3 {
    Offset3::new(x, y, z)
}

fn distinct(offsets: &[Offset3]) -> bool {
    (0..offsets.len()).all(|i| (0..i).all(|j| offsets[i] != offsets[j]))
}

#[test]
fn the_center_has_one_variation() {
    assert_eq!(offset_variations(o(0, 0, 0)), vec![o(0, 0, 0)]);
}

#[test]
fn variations_start_with_the_offset_itself() {
    for offset in [o(1, 0, 0), o(3, 2, 1), o(-4, 4, 0), o(2, 2, 2)] {
        assert_eq!(offset_variations(offset)[0], offset);
    }
}

#[test]
fn a_face_neighbor_has_six_variations() {
    let images = offset_variations(o(1, 0, 0));
    assert_eq!(
        images,
        vec![o(1, 0, 0), o(-1, 0, 0), o(0, 1, 0), o(0, -1, 0), o(0, 0, 1), o(0, 0, -1)]
    );
}

#[test]
fn variation_counts_follow_the_symmetry() {
    assert_eq!(offset_variations(o(1, 1, 0)).len(), 12);
    assert_eq!(offset_variations(o(1, 1, 1)).len(), 8);
    assert_eq!(offset_variations(o(2, 1, 0)).len(), 24);
    assert_eq!(offset_variations(o(2, 1, 1)).len(), 24);
    assert_eq!(offset_variations(o(3, 2, 1)).len(), 48);
}

#[test]
fn variations_are_distinct_and_keep_the_components() {
    for offset in [o(1, 1, 0), o(2, 1, 0), o(3, 2, 1), o(5, 5, 2), o(-7, 0, 7)] {
        let images = offset_variations(offset);
        assert!(distinct(&images));
        let mut want = [offset.x.abs(), offset.y.abs(), offset.z.abs()];
        want.sort();
        for image in &images {
            let mut got = [image.x.abs(), image.y.abs(), image.z.abs()];
            got.sort();
            assert_eq!(got, want);
        }
    }
}

#[test]
fn every_sign_and_order_is_a_variation() {
    let images = offset_variations(o(3, 2, 1));
    for (a, b, c) in [(3, 2, 1), (3, 1, 2), (2, 3, 1), (2, 1, 3), (1, 3, 2), (1, 2, 3)] {
        for sx in [1, -1] {
            for sy in [1, -1] {
                for sz in [1, -1] {
                    assert!(holds_offset(&images, o(sx * a, sy * b, sz * c)));
                }
            }
        }
    }
    assert!(!holds_offset(&images, o(3, 2, 2)));
}

#[test]
fn a_component_that_cannot_change_sign_keeps_it() {
    let images = offset_variations(o(i64::MIN, 0, 0));
    assert_eq!(images, vec![o(i64::MIN, 0, 0), o(0, i64::MIN, 0), o(0, 0, i64::MIN)]);
}

#[test]
fn holds_offset_finds_what_is_there() {
    let offsets = vec![o(1, 2, 3), o(4, 5, 6)];
    assert!(holds_offset(&offsets, o(1, 2, 3)));
    assert!(holds_offset(&offsets, o(4, 5, 6)));
    assert!(!holds_offset(&offsets, o(1, 2, 4)));
    assert!(!holds_offset(&Vec::new(), o(0, 0, 0)));
}

#[test]
fn spiral_cell_keeps_its_fields() {
    let cell = SpiralCell { offset: o(2, 1, 0), stop_cell_index1: 9 };
    assert_eq!(cell.offset, o(2, 1, 0));
    assert_eq!(cell.stop_cell_index1, 9);
}

#[test]
fn the_ring_is_the_26_cells_around_a_cell() {
    let ring = neighbor_offsets();
    assert_eq!(
        ring,
        vec![
            o(-1, -1, -1),
            o(0, -1, -1),
            o(1, -1, -1),
            o(-1, 0, -1),
            o(0, 0, -1),
            o(1, 0, -1),
            o(-1, 1, -1),
            o(0, 1, -1),
            o(1, 1, -1),
            o(-1, -1, 0),
            o(0, -1, 0),
            o(1, -1, 0),
            o(-1, 0, 0),
            o(1, 0, 0),
            o(-1, 1, 0),
            o(0, 1, 0),
            o(1, 1, 0),
            o(-1, -1, 1),
            o(0, -1, 1),
            o(1, -1, 1),
            o(-1, 0, 1),
            o(0, 0, 1),
            o(1, 0, 1),
            o(-1, 1, 1),
            o(0, 1, 1),
            o(1, 1, 1),
        ]
    );
}

#[test]
fn the_ring_leaves_out_the_cell_itself() {
    let ring = neighbor_offsets();
    assert_eq!(ring.len(), 26);
    assert!(distinct(&ring));
    assert!(!holds_offset(&ring, o(0, 0, 0)));
    for offset in &ring {
        assert!(offset.x.abs() <= 1 && offset.y.abs() <= 1 && offset.z.abs() <= 1);
    }
}
