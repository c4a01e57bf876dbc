use uniform_grid::point::Point3;
use uniform_grid::search::{closer_of, nearest, nearest_after, SearchResult};

fn p(x: i32, y: i32, z: i32) -> Point3 {
    Point3::new(x, y, z)
}

fn result(position: Point3, index: usize, distance: u128) -> SearchResult {
    SearchResult { position, point_object_index: index, distance2_to_query: distance }
}

#[test]
fn nothing_is_nearest_of_nothing() {
    assert_eq!(nearest(p(0, 0, 0), &Vec::new()), None);
}

#[test]
fn nearest_picks_the_least_distance() {
    let entries = vec![(p(10, 0, 0), 4), (p(0, 3, 0), 7), (p(0, 0, -5), 1)];
    assert_eq!(nearest(p(0, 0, 0), &entries), Some(result(p(0, 3, 0), 7, 9)));
    assert_eq!(nearest(p(9, 0, 0), &entries), Some(result(p(10, 0, 0), 4, 1)));
}

#[test]
fn nearest_keeps_the_first_of_equally_near_entries() {
    let entries = vec![(p(2, 0, 0), 5), (p(0, 2, 0), 3), (p(0, 0, 2), 9)];
    assert_eq!(nearest(p(0, 0, 0), &entries), Some(result(p(2, 0, 0), 5, 4)));
}

#[test]
fn scan_goes_on_from_an_earlier_result() {
    let earlier = Some(result(p(0, 0, 3), 0, 9));
    let entries = vec![(p(4, 0, 0), 1), (p(0, 3, 0), 2)];
    // Nothing scanned is strictly nearer: the earlier result stays.
    assert_eq!(nearest_after(earlier, p(0, 0, 0), &entries), earlier);
    let entries = vec![(p(4, 0, 0), 1), (p(0, 2, 0), 2)];
    assert_eq!(nearest_after(earlier, p(0, 0, 0), &entries), Some(result(p(0, 2, 0), 2, 4)));
    assert_eq!(nearest_after(earlier, p(0, 0, 0), &Vec::new()), earlier);
    assert_eq!(nearest_after(None, p(0, 0, 0), &entries), Some(result(p(0, 2, 0), 2, 4)));
}

#[test]
fn closer_of_prefers_the_first_on_a_tie() {
    let a = Some(result(p(1, 0, 0), 0, 1));
    let b = Some(result(p(0, 1, 0), 1, 1));
    let c = Some(result(p(0, 0, 0), 2, 0));
    assert_eq!(closer_of(a, b), a);
    assert_eq!(closer_of(b, a), b);
    assert_eq!(closer_of(a, c), c);
    assert_eq!(closer_of(c, a), c);
    assert_eq!(closer_of(None, a), a);
    assert_eq!(closer_of(a, None), a);
    assert_eq!(closer_of(None, None), None);
}
