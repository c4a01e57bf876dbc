use crate::bounding_box::{coordinate, BoundingBox};
use crate::grid_view::{
    axis_wall_distance, inflated_cell_width, neighbor_at, neighbor_ring, GridView, CELL_WIDTH_MAX,
};
use crate::offset3::Offset3;
use crate::point::{
    axis_cell, lemma_axis_cell_bounds, lemma_cell_of_fits, squared_distance, Point3,
};
use crate::search::{candidate, lemma_nearest_of, lemma_squared_distance_fits, nearest_of, Entry};
use vstd::prelude::*;

verus! {

/// Whether a bucketed point is a point of the grid: it carries the index of
/// a point and that point's position.
pub open spec fn is_point_entry(view: GridView, e: Entry) -> bool {
    0 <= e.1 < view.points.len() && view.points[e.1 as int] == e.0
}

/// What holds one of two sequences holds their concatenation, and the other
/// way round.
pub proof fn lemma_concat_contains(a: Seq<Entry>, b: Seq<Entry>, e: Entry)
    ensures
        (a + b).contains(e) <==> a.contains(e) || b.contains(e),
{
    if a.contains(e) {
        let i = choose|i: int| 0 <= i < a.len() && a[i] == e;
        assert((a + b)[i] == e);
    }
    if b.contains(e) {
        let i = choose|i: int| 0 <= i < b.len() && b[i] == e;
        assert((a + b)[a.len() + i] == e);
    }
    if (a + b).contains(e) {
        let i = choose|i: int| 0 <= i < (a + b).len() && (a + b)[i] == e;
        if i < a.len() {
            assert(a[i] == e);
        } else {
            assert(b[i - a.len()] == e);
        }
    }
}

/// What a bucket holds after the first `n` points were placed: those of
/// them that fall into its cell, each with its index.
pub proof fn lemma_bucket_upto_holds(view: GridView, cell: int, n: int)
    requires
        0 <= n <= view.points.len() <= usize::MAX,
        0 <= cell <= usize::MAX,
    ensures
        forall|e: Entry| #[trigger]
            view.bucket_upto(cell, n).contains(e) <==> {
                &&& 0 <= e.1 < n
                &&& e.0 == view.points[e.1 as int]
                &&& view.cell_index(e.0) == Some(cell as usize)
            },
    decreases n,
{
    if n > 0 {
        lemma_bucket_upto_holds(view, cell, n - 1);
        let earlier = view.bucket_upto(cell, n - 1);
        let all = view.bucket_upto(cell, n);
        let last: Entry = (view.points[n - 1], (n - 1) as usize);
        assert forall|e: Entry| #[trigger]
            all.contains(e) <==> {
                &&& 0 <= e.1 < n
                &&& e.0 == view.points[e.1 as int]
                &&& view.cell_index(e.0) == Some(cell as usize)
            } by {
            if all.contains(e) {
                let i = choose|i: int| 0 <= i < all.len() && all[i] == e;
                if i < earlier.len() {
                    assert(earlier[i] == e);
                    assert(earlier.contains(e));
                }
            }
            if 0 <= e.1 < n && e.0 == view.points[e.1 as int] && view.cell_index(e.0) == Some(
                cell as usize,
            ) {
                if e.1 < n - 1 {
                    assert(earlier.contains(e));
                    let i = choose|i: int| 0 <= i < earlier.len() && earlier[i] == e;
                    assert(all[i] == e);
                } else {
                    assert(e == last);
                    assert(all[all.len() - 1] == e);
                }
            }
        }
    }
}

/// A bucket holds no more points than were placed.
pub proof fn lemma_bucket_upto_len(view: GridView, cell: int, n: int)
    requires
        0 <= n,
    ensures
        view.bucket_upto(cell, n).len() <= n,
    decreases n,
{
    if n > 0 {
        lemma_bucket_upto_len(view, cell, n - 1);
    }
}

/// Cells of the inflated width, `cells_per_axis` of them, reach beyond a
/// cube of side `cube_width`.
pub proof fn lemma_inflated_width_covers(cube_width: int, cells_per_axis: int)
    requires
        0 <= cube_width <= u32::MAX,
        1 <= cells_per_axis,
    ensures
        1 <= inflated_cell_width(cube_width, cells_per_axis) <= CELL_WIDTH_MAX,
        cube_width < cells_per_axis * inflated_cell_width(cube_width, cells_per_axis),
{
    let n = cube_width * 101;
    let d = 100 * cells_per_axis;
    let t = n / d;
    vstd::arithmetic::div_mod::lemma_fundamental_div_mod(n, d);
    vstd::arithmetic::div_mod::lemma_mod_bound(n, d);
    assert(0 <= t <= n) by (nonlinear_arith)
        requires
            t == n / d,
            n >= 0,
            d >= 1,
    ;
    assert(t * 100 <= n) by (nonlinear_arith)
        requires
            n == d * t + n % d,
            0 <= n % d,
            d >= 100,
            t >= 0,
    ;
    assert(cells_per_axis * (t + 1) > cube_width) by (nonlinear_arith)
        requires
            n == d * t + n % d,
            0 <= n % d < d,
            n == cube_width * 101,
            d == 100 * cells_per_axis,
            cube_width >= 0,
            cells_per_axis >= 1,
    ;
}

/// In a grid that covers the bounding cube of its points with cells of the
/// inflated width, every point falls into a cell of the grid.
pub proof fn lemma_points_have_cells(view: GridView, bb: BoundingBox)
    requires
        bb.bounds(view.points),
        view.min_position == bb.min,
        1 <= view.grid_dimensions.0,
        view.grid_dimensions.1 == view.grid_dimensions.0,
        view.grid_dimensions.2 == view.grid_dimensions.0,
        1 <= view.cell_width,
        bb.cube_width() < view.grid_dimensions.0 * view.cell_width,
    ensures
        forall|j: int|
            0 <= j < view.points.len() ==> view.cell_index(#[trigger] view.points[j]) is Some,
{
    let k = view.grid_dimensions.0 as int;
    let w = view.cell_width as int;
    assert forall|j: int| 0 <= j < view.points.len() implies view.cell_index(
        #[trigger] view.points[j],
    ) is Some by {
        let p = view.points[j];
        assert(coordinate(p, 0) == p.x && coordinate(p, 1) == p.y && coordinate(p, 2) == p.z);
        lemma_axis_in_grid(p.x as int, bb.min.x as int, w, k, bb.cube_width());
        lemma_axis_in_grid(p.y as int, bb.min.y as int, w, k, bb.cube_width());
        lemma_axis_in_grid(p.z as int, bb.min.z as int, w, k, bb.cube_width());
    }
}

/// A coordinate within `reach` of `low` falls into one of the first `k`
/// cells where these reach beyond `reach`.
proof fn lemma_axis_in_grid(c: int, low: int, w: int, k: int, reach: int)
    requires
        low <= c <= low + reach,
        1 <= w,
        reach < k * w,
    ensures
        0 <= axis_cell(c, low, w) < k,
{
    lemma_axis_cell_bounds(c, low, w);
    let o = axis_cell(c, low, w);
    assert(o < k) by (nonlinear_arith)
        requires
            o * w <= c - low,
            c - low < k * w,
            w >= 1,
    ;
    assert(o >= 0) by (nonlinear_arith)
        requires
            c - low < o * w + w,
            c - low >= 0,
            w >= 1,
    ;
}

/// Each point lies in exactly one bucket: that of the cell whose half-open
/// cube holds its position. And a bucket holds nothing but such points.
pub proof fn lemma_bucket_holds(view: GridView, cell: int)
    requires
        view.valid(),
        0 <= cell <= usize::MAX,
    ensures
        forall|e: Entry| #[trigger]
            view.bucket(cell).contains(e) <==> is_point_entry(view, e) && view.cell_index(e.0)
                == Some(cell as usize),
{
    lemma_bucket_upto_holds(view, cell, view.points.len() as int);
}

/// What is gathered from cells around a center are points of the grid.
pub proof fn lemma_gather_holds_points(
    view: GridView,
    center: crate::offset3::Offset3,
    offsets: Seq<crate::offset3::Offset3>,
)
    requires
        view.valid(),
    ensures
        forall|e: Entry| #[trigger]
            view.gather(center, offsets).contains(e) ==> is_point_entry(view, e),
    decreases offsets.len(),
{
    if offsets.len() > 0 {
        lemma_gather_holds_points(view, center, offsets.drop_last());
        let earlier = view.gather(center, offsets.drop_last());
        match view.cell_at(center, offsets.last()) {
            Some(cell) => {
                lemma_bucket_holds(view, cell as int);
                assert forall|e: Entry| #[trigger]
                    view.gather(center, offsets).contains(e) implies is_point_entry(view, e) by {
                    lemma_concat_contains(earlier, view.bucket(cell as int), e);
                }
            },
            None => {},
        }
    }
}

/// What the shells of the spiral search hold are points of the grid.
pub proof fn lemma_shells_hold_points(
    view: GridView,
    center: crate::offset3::Offset3,
    from: int,
    to: int,
)
    requires
        view.valid(),
    ensures
        forall|e: Entry| #[trigger]
            view.shells(center, from, to).contains(e) ==> is_point_entry(view, e),
    decreases to - from,
{
    if to > from {
        lemma_shells_hold_points(view, center, from, to - 1);
        lemma_gather_holds_points(
            view,
            center,
            crate::spiral_cells::variations(view.spiral_cells[to - 1].offset),
        );
        assert forall|e: Entry| #[trigger]
            view.shells(center, from, to).contains(e) implies is_point_entry(view, e) by {
            lemma_concat_contains(
                view.shells(center, from, to - 1),
                view.shell(center, to - 1),
                e,
            );
        }
    }
}

/// The buckets of the first `cells` cells hold the points that fall into
/// these cells.
pub proof fn lemma_all_entries_upto_hold(view: GridView, cells: int)
    requires
        view.valid(),
        0 <= cells <= view.cell_count(),
    ensures
        forall|e: Entry| #[trigger]
            view.all_entries_upto(cells).contains(e) <==> is_point_entry(view, e)
                && view.cell_index(e.0)->Some_0 < cells,
    decreases cells,
{
    if cells > 0 {
        lemma_all_entries_upto_hold(view, cells - 1);
        lemma_bucket_holds(view, cells - 1);
        assert forall|e: Entry| #[trigger]
            view.all_entries_upto(cells).contains(e) <==> is_point_entry(view, e)
                && view.cell_index(e.0)->Some_0 < cells by {
            lemma_concat_contains(view.all_entries_upto(cells - 1), view.bucket(cells - 1), e);
            if is_point_entry(view, e) {
                assert(view.cell_index(view.points[e.1 as int]) is Some);
            }
        }
    } else {
        assert forall|e: Entry| #[trigger]
            view.all_entries_upto(cells).contains(e) <==> is_point_entry(view, e)
                && view.cell_index(e.0)->Some_0 < cells by {
            if is_point_entry(view, e) {
                assert(view.cell_index(view.points[e.1 as int]) is Some);
            }
        }
    }
}

/// The buckets together hold every point of the grid, and nothing else.
pub proof fn lemma_all_entries_hold_every_point(view: GridView)
    requires
        view.valid(),
    ensures
        forall|e: Entry| #[trigger] view.all_entries().contains(e) <==> is_point_entry(view, e),
{
    assert(view.cell_count() >= 0) by (nonlinear_arith)
        requires
            view.cell_count() == view.grid_dimensions.0 * view.grid_dimensions.1
                * view.grid_dimensions.2,
    ;
    lemma_all_entries_upto_hold(view, view.cell_count());
    assert forall|e: Entry| #[trigger]
        view.all_entries().contains(e) <==> is_point_entry(view, e) by {
        if is_point_entry(view, e) {
            let p = view.points[e.1 as int];
            assert(view.cell_index(p) is Some);
            let o = view.offset_of(p);
            crate::offset3::lemma_flat_index_bound(
                o.x as int,
                o.y as int,
                o.z as int,
                view.grid_dimensions.0 as int,
                view.grid_dimensions.1 as int,
                view.grid_dimensions.2 as int,
            );
        }
    }
}

/// Whatever the search for `query` looks at is a point of the grid.
pub proof fn lemma_examined_holds_points(view: GridView, query: Point3)
    requires
        view.valid(),
    ensures
        forall|e: Entry| #[trigger] view.examined(query).contains(e) ==> is_point_entry(view, e),
{
    let center = view.offset_of(query);
    lemma_all_entries_hold_every_point(view);
    lemma_shells_hold_points(view, center, 1, view.spiral_end(center));
    lemma_gather_holds_points(view, center, crate::grid_view::neighbor_ring());
    let home = view.home_entries(query);
    let around = view.gather(center, crate::grid_view::neighbor_ring());
    if let Some(cell) = view.cell_index(query) {
        lemma_bucket_holds(view, cell as int);
    }
    assert forall|e: Entry| #[trigger] view.examined(query).contains(e) implies is_point_entry(
        view,
        e,
    ) by {
        lemma_concat_contains(home, around, e);
    }
}

/// The answer to a query names a point of the grid and gives that point's
/// squared distance to the query.
pub proof fn lemma_answer_is_a_point(view: GridView, query: Point3)
    requires
        view.valid(),
    ensures
        view.nearest(query) matches Some((index, distance)) ==> {
            &&& index < view.points.len()
            &&& distance == squared_distance(query, view.points[index as int])
        },
{
    lemma_examined_holds_points(view, query);
    let entries = view.examined(query);
    lemma_nearest_of(query, entries);
    if let Some(found) = view.found(query) {
        let k = choose|k: int|
            0 <= k < entries.len() && found == candidate(query, #[trigger] entries[k]);
        assert(entries.contains(entries[k]));
        lemma_squared_distance_fits(query, entries[k].0);
    }
}

/// A query has no answer exactly where the grid holds no point.
pub proof fn lemma_no_answer_iff_no_point(view: GridView, query: Point3)
    requires
        view.valid(),
    ensures
        view.nearest(query) is None <==> view.points.len() == 0,
{
    lemma_examined_holds_points(view, query);
    lemma_all_entries_hold_every_point(view);
    let entries = view.examined(query);
    lemma_nearest_of(query, entries);
    if entries.len() > 0 {
        assert(entries.contains(entries[0]));
    }
    if view.points.len() > 0 {
        let first: Entry = (view.points[0], 0usize);
        assert(is_point_entry(view, first));
        assert(view.all_entries().contains(first));
    }
}

/// A scan of every bucket finds a point that no point of the grid is nearer
/// to the query than.
pub proof fn lemma_full_scan_is_nearest(view: GridView, query: Point3)
    requires
        view.valid(),
    ensures
        nearest_of(query, view.all_entries()) is None <==> view.points.len() == 0,
        nearest_of(query, view.all_entries()) matches Some(best) ==> {
            &&& best.point_object_index < view.points.len()
            &&& best.position == view.points[best.point_object_index as int]
            &&& best.distance2_to_query == squared_distance(query, best.position)
            &&& forall|j: int|
                0 <= j < view.points.len() ==> best.distance2_to_query <= squared_distance(
                    query,
                    #[trigger] view.points[j],
                )
        },
{
    lemma_all_entries_hold_every_point(view);
    let entries = view.all_entries();
    lemma_nearest_of(query, entries);
    if entries.len() > 0 {
        assert(entries.contains(entries[0]));
    }
    if view.points.len() > 0 {
        let first: Entry = (view.points[0], 0usize);
        assert(is_point_entry(view, first));
        assert(entries.contains(first));
    }
    if let Some(best) = nearest_of(query, entries) {
        let k = choose|k: int|
            0 <= k < entries.len() && best == candidate(query, #[trigger] entries[k]);
        assert(entries.contains(entries[k]));
        lemma_squared_distance_fits(query, entries[k].0);
        assert forall|j: int| 0 <= j < view.points.len() implies best.distance2_to_query
            <= squared_distance(query, #[trigger] view.points[j]) by {
            let e: Entry = (view.points[j], j as usize);
            assert(is_point_entry(view, e));
            assert(entries.contains(e));
            let i = choose|i: int| 0 <= i < entries.len() && entries[i] == e;
            assert(best.distance2_to_query <= squared_distance(query, entries[i].0));
        }
    }
}

/// The answer to a query is as near as the answer of a scan of every point,
/// wherever no point that the search did not look at lies nearer to the
/// query than the point it found.
pub proof fn lemma_answer_matches_full_scan(view: GridView, query: Point3)
    requires
        view.valid(),
        forall|j: int|
            0 <= j < view.points.len() ==> {
                ||| view.examined(query).contains((#[trigger] view.points[j], j as usize))
                ||| view.found(query) matches Some(found) && found.distance2_to_query
                    <= squared_distance(query, view.points[j])
            },
    ensures
        view.found(query) is Some <==> nearest_of(query, view.all_entries()) is Some,
        view.found(query) matches Some(found) ==> found.distance2_to_query == nearest_of(
            query,
            view.all_entries(),
        )->Some_0.distance2_to_query,
        view.found(query) matches Some(found) ==> forall|j: int|
            0 <= j < view.points.len() ==> found.distance2_to_query <= squared_distance(
                query,
                #[trigger] view.points[j],
            ),
{
    lemma_full_scan_is_nearest(view, query);
    lemma_no_answer_iff_no_point(view, query);
    lemma_answer_is_a_point(view, query);
    let entries = view.examined(query);
    lemma_nearest_of(query, entries);
    if let Some(found) = view.found(query) {
        assert forall|j: int| 0 <= j < view.points.len() implies found.distance2_to_query
            <= squared_distance(query, #[trigger] view.points[j]) by {
            let e: Entry = (view.points[j], j as usize);
            if entries.contains(e) {
                let i = choose|i: int| 0 <= i < entries.len() && entries[i] == e;
                assert(found.distance2_to_query <= squared_distance(query, entries[i].0));
            }
        }
        let full = nearest_of(query, view.all_entries())->Some_0;
        assert(view.points[full.point_object_index as int] == full.position);
        assert(view.points[found.point_object_index as int] == view.points[view.nearest(
            query,
        )->Some_0.0 as int]);
    }
}

/// Where the answer to a query is not as near as that of a scan of every
/// point, a point that the search did not look at lies nearer to the query
/// than the point found.
pub proof fn lemma_nearer_point_was_not_looked_at(view: GridView, query: Point3)
    requires
        view.valid(),
        view.found(query) is Some,
        view.found(query)->Some_0.distance2_to_query != nearest_of(
            query,
            view.all_entries(),
        )->Some_0.distance2_to_query,
    ensures
        exists|j: int|
            {
                &&& 0 <= j < view.points.len()
                &&& !view.examined(query).contains((#[trigger] view.points[j], j as usize))
                &&& squared_distance(query, view.points[j]) < view.found(
                    query,
                )->Some_0.distance2_to_query
            },
{
    if !exists|j: int|
        {
            &&& 0 <= j < view.points.len()
            &&& !view.examined(query).contains((#[trigger] view.points[j], j as usize))
            &&& squared_distance(query, view.points[j]) < view.found(
                query,
            )->Some_0.distance2_to_query
        } {
        lemma_answer_matches_full_scan(view, query);
    }
}

/// Two positions at distance zero are one position.
pub proof fn lemma_distance_zero_is_same_position(p: Point3, q: Point3)
    requires
        squared_distance(p, q) == 0,
    ensures
        p == q,
{
    let dx = q.x - p.x;
    let dy = q.y - p.y;
    let dz = q.z - p.z;
    assert(dx == 0 && dy == 0 && dz == 0) by (nonlinear_arith)
        requires
            dx * dx + dy * dy + dz * dz <= 0,
    ;
}

/// A query at the position of a point of the grid is answered with a point
/// at that position, at distance zero.
pub proof fn lemma_self_query(view: GridView, j: int)
    requires
        view.valid(),
        0 <= j < view.points.len(),
    ensures
        view.nearest(view.points[j]) matches Some((index, distance)) && distance == 0
            && index < view.points.len() && view.points[index as int] == view.points[j],
{
    let query = view.points[j];
    let cell = view.cell_index(query)->Some_0;
    let home = view.home_entries(query);
    let own: Entry = (query, j as usize);
    lemma_bucket_holds(view, cell as int);
    assert(is_point_entry(view, own));
    assert(home.contains(own));
    lemma_nearest_of(query, home);
    let i = choose|i: int| 0 <= i < home.len() && home[i] == own;
    let found = nearest_of(query, home)->Some_0;
    assert(found.distance2_to_query <= squared_distance(query, home[i].0));
    assert(squared_distance(query, query) == 0) by {
        assert((query.x - query.x) * (query.x - query.x) == 0);
        assert((query.y - query.y) * (query.y - query.y) == 0);
        assert((query.z - query.z) * (query.z - query.z) == 0);
    }
    let wall = view.wall_distance(found.position, view.offset_of(query));
    assert(wall * wall >= 0) by (nonlinear_arith);
    assert(view.settled_at_home(query));
    assert(view.examined(query) == home);
    lemma_answer_is_a_point(view, query);
    lemma_distance_zero_is_same_position(query, view.points[found.point_object_index as int]);
}

/// With a spiral search order of no shell, or of the center's shell alone,
/// the search looks at the query's cell and the ring around it, and where
/// these hold no point it scans every point: its answer is then that of the
/// full scan.
pub proof fn lemma_short_spiral_falls_back(view: GridView, query: Point3)
    requires
        view.valid(),
        view.spiral_cells.len() <= 1,
    ensures
        view.spiral_entries(view.offset_of(query)).len() == 0,
        view.near_entries(query).len() > 0 ==> view.examined(query) == view.near_entries(query),
        view.near_entries(query).len() == 0 ==> view.found(query) == nearest_of(
            query,
            view.all_entries(),
        ),
{
    let center = view.offset_of(query);
    assert(view.first_hit(center, 1) == view.spiral_cells.len());
}

/// Along one axis, a coordinate in another cell than `c` lies at least as
/// far from `c` as the nearer wall of the cell of `c`; and a whole cell
/// width farther if its cell is not even the next one.
pub proof fn lemma_axis_beyond_wall(c: int, p: int, low: int, w: int)
    requires
        w > 0,
        axis_cell(p, low, w) != axis_cell(c, low, w),
    ensures
        0 <= axis_wall_distance(c, low, axis_cell(c, low, w), w),
        (p - c) * (p - c) >= axis_wall_distance(c, low, axis_cell(c, low, w), w)
            * axis_wall_distance(c, low, axis_cell(c, low, w), w),
        axis_cell(p, low, w) - axis_cell(c, low, w) >= 2 || axis_cell(c, low, w) - axis_cell(
            p,
            low,
            w,
        ) >= 2 ==> (p - c) * (p - c) >= (axis_wall_distance(c, low, axis_cell(c, low, w), w) + w)
            * (axis_wall_distance(c, low, axis_cell(c, low, w), w) + w),
{
    let k = axis_cell(c, low, w);
    let kp = axis_cell(p, low, w);
    let d = axis_wall_distance(c, low, k, w);
    lemma_axis_cell_bounds(c, low, w);
    lemma_axis_cell_bounds(p, low, w);
    let gap = if p >= c {
        p - c
    } else {
        c - p
    };
    if kp < k {
        assert(kp * w + w <= k * w) by (nonlinear_arith)
            requires
                kp + 1 <= k,
                w > 0,
        ;
        if k - kp >= 2 {
            assert(kp * w + w + w <= k * w) by (nonlinear_arith)
                requires
                    kp + 2 <= k,
                    w > 0,
            ;
        }
    } else {
        assert(kp * w >= k * w + w) by (nonlinear_arith)
            requires
                kp >= k + 1,
                w > 0,
        ;
        if kp - k >= 2 {
            assert(kp * w >= k * w + w + w) by (nonlinear_arith)
                requires
                    kp >= k + 2,
                    w > 0,
            ;
        }
    }
    assert(gap >= d && d >= 0);
    assert((p - c) * (p - c) == gap * gap) by (nonlinear_arith)
        requires
            gap == p - c || gap == c - p,
    ;
    assert(gap * gap >= d * d) by (nonlinear_arith)
        requires
            gap >= d,
            d >= 0,
    ;
    if kp - k >= 2 || k - kp >= 2 {
        assert(gap >= d + w);
        assert(gap * gap >= (d + w) * (d + w)) by (nonlinear_arith)
            requires
                gap >= d + w,
                d + w >= 0,
        ;
    }
}

/// The distance from a point to the nearest wall of its own cell is not
/// negative, and no greater than the distance to the nearer wall of the cell
/// along any one axis.
pub proof fn lemma_own_wall_distance(view: GridView, q: Point3)
    requires
        view.cell_width >= 1,
    ensures
        0 <= view.wall_distance(q, view.offset_of(q)),
        view.wall_distance(q, view.offset_of(q)) <= axis_wall_distance(
            q.x as int,
            view.min_position.x as int,
            axis_cell(q.x as int, view.min_position.x as int, view.cell_width as int),
            view.cell_width as int,
        ),
        view.wall_distance(q, view.offset_of(q)) <= axis_wall_distance(
            q.y as int,
            view.min_position.y as int,
            axis_cell(q.y as int, view.min_position.y as int, view.cell_width as int),
            view.cell_width as int,
        ),
        view.wall_distance(q, view.offset_of(q)) <= axis_wall_distance(
            q.z as int,
            view.min_position.z as int,
            axis_cell(q.z as int, view.min_position.z as int, view.cell_width as int),
            view.cell_width as int,
        ),
{
    let w = view.cell_width as int;
    lemma_cell_of_fits(q, view.min_position, w);
    lemma_axis_cell_bounds(q.x as int, view.min_position.x as int, w);
    lemma_axis_cell_bounds(q.y as int, view.min_position.y as int, w);
    lemma_axis_cell_bounds(q.z as int, view.min_position.z as int, w);
}

/// A point in another cell than `q` lies at least as far from `q` as the
/// nearest wall of the cell of `q`.
pub proof fn lemma_other_cells_are_beyond_the_wall(view: GridView, q: Point3, p: Point3)
    requires
        view.cell_width >= 1,
        view.offset_of(p) != view.offset_of(q),
    ensures
        squared_distance(q, p) >= view.wall_distance(q, view.offset_of(q)) * view.wall_distance(
            q,
            view.offset_of(q),
        ),
{
    let w = view.cell_width as int;
    let low = view.min_position;
    let wall = view.wall_distance(q, view.offset_of(q));
    lemma_own_wall_distance(view, q);
    lemma_cell_of_fits(q, low, w);
    lemma_cell_of_fits(p, low, w);
    let dx = p.x - q.x;
    let dy = p.y - q.y;
    let dz = p.z - q.z;
    assert(dx * dx >= 0 && dy * dy >= 0 && dz * dz >= 0) by (nonlinear_arith);
    if axis_cell(p.x as int, low.x as int, w) != axis_cell(q.x as int, low.x as int, w) {
        lemma_axis_beyond_wall(q.x as int, p.x as int, low.x as int, w);
        let d = axis_wall_distance(q.x as int, low.x as int, axis_cell(q.x as int, low.x as int, w), w);
        assert(d * d >= wall * wall) by (nonlinear_arith)
            requires
                0 <= wall <= d,
        ;
    } else if axis_cell(p.y as int, low.y as int, w) != axis_cell(q.y as int, low.y as int, w) {
        lemma_axis_beyond_wall(q.y as int, p.y as int, low.y as int, w);
        let d = axis_wall_distance(q.y as int, low.y as int, axis_cell(q.y as int, low.y as int, w), w);
        assert(d * d >= wall * wall) by (nonlinear_arith)
            requires
                0 <= wall <= d,
        ;
    } else {
        lemma_axis_beyond_wall(q.z as int, p.z as int, low.z as int, w);
        let d = axis_wall_distance(q.z as int, low.z as int, axis_cell(q.z as int, low.z as int, w), w);
        assert(d * d >= wall * wall) by (nonlinear_arith)
            requires
                0 <= wall <= d,
        ;
    }
}

/// Where the search for a query ends in the query's cell, and the point it
/// found lies no farther from the query than the query lies from the nearest
/// wall of that cell, no point of the grid is nearer to the query: the
/// answer is as near as that of a scan of every point.
pub proof fn lemma_settled_answer_is_nearest(view: GridView, query: Point3)
    requires
        view.valid(),
        view.settled_at_home(query),
        view.found(query)->Some_0.distance2_to_query <= view.wall_distance(
            query,
            view.offset_of(query),
        ) * view.wall_distance(query, view.offset_of(query)),
    ensures
        view.found(query) matches Some(found) && found.distance2_to_query == nearest_of(
            query,
            view.all_entries(),
        )->Some_0.distance2_to_query,
        forall|j: int|
            0 <= j < view.points.len() ==> view.found(query)->Some_0.distance2_to_query
                <= squared_distance(query, #[trigger] view.points[j]),
{
    let home = view.home_entries(query);
    lemma_nearest_of(query, home);
    assert(view.examined(query) == home);
    let cell = view.cell_index(query)->Some_0;
    lemma_bucket_holds(view, cell as int);
    assert forall|j: int| 0 <= j < view.points.len() implies {
        ||| view.examined(query).contains((#[trigger] view.points[j], j as usize))
        ||| view.found(query) matches Some(found) && found.distance2_to_query <= squared_distance(
            query,
            view.points[j],
        )
    } by {
        let p = view.points[j];
        let e: Entry = (p, j as usize);
        assert(is_point_entry(view, e));
        if view.offset_of(p) != view.offset_of(query) {
            lemma_other_cells_are_beyond_the_wall(view, query, p);
        } else {
            assert(home.contains(e));
        }
    }
    lemma_answer_matches_full_scan(view, query);
}

/// What lies in the bucket of a cell that the grid has at one of the
/// offsets from a center is among what is gathered at these offsets.
pub proof fn lemma_gather_holds_bucket(
    view: GridView,
    center: Offset3,
    offsets: Seq<Offset3>,
    k: int,
    e: Entry,
)
    requires
        0 <= k < offsets.len(),
        view.cell_at(center, offsets[k]) matches Some(cell) && view.bucket(cell as int).contains(e),
    ensures
        view.gather(center, offsets).contains(e),
    decreases offsets.len(),
{
    let earlier = view.gather(center, offsets.drop_last());
    if k < offsets.len() - 1 {
        assert(offsets.drop_last()[k] == offsets[k]);
        lemma_gather_holds_bucket(view, center, offsets.drop_last(), k, e);
        match view.cell_at(center, offsets.last()) {
            Some(cell) => {
                lemma_concat_contains(earlier, view.bucket(cell as int), e);
            },
            None => {},
        }
    } else {
        let cell = view.cell_at(center, offsets[k])->Some_0;
        lemma_concat_contains(earlier, view.bucket(cell as int), e);
    }
}

/// The ring holds the offset of each of the 26 cells that touch a cell.
pub proof fn lemma_ring_holds_touching_cells(delta: Offset3)
    requires
        -1 <= delta.x <= 1,
        -1 <= delta.y <= 1,
        -1 <= delta.z <= 1,
        delta != (Offset3 { x: 0, y: 0, z: 0 }),
    ensures
        exists|k: int| 0 <= k < 26 && #[trigger] neighbor_ring()[k] == delta,
{
    let j = (delta.x + 1) + 3 * (delta.y + 1) + 9 * (delta.z + 1);
    let k = if j < 13 {
        j
    } else {
        j - 1
    };
    assert(0 <= j < 27 && j != 13);
    assert(j % 3 == delta.x + 1 && (j / 3) % 3 == delta.y + 1 && j / 9 == delta.z + 1);
    assert(neighbor_at(k) == delta);
    assert(neighbor_ring()[k] == delta);
}

/// Where the search for a query ends with the ring around the query's cell,
/// and the point it found lies no farther from the query than a cell width
/// beyond the nearest wall of that cell, no point of the grid is nearer to
/// the query: the answer is as near as that of a scan of every point.
pub proof fn lemma_ring_answer_is_nearest(view: GridView, query: Point3)
    requires
        view.valid(),
        !view.settled_at_home(query),
        view.near_entries(query).len() > 0,
        view.found(query)->Some_0.distance2_to_query <= (view.wall_distance(
            query,
            view.offset_of(query),
        ) + view.cell_width) * (view.wall_distance(query, view.offset_of(query))
            + view.cell_width),
    ensures
        view.found(query) matches Some(found) && found.distance2_to_query == nearest_of(
            query,
            view.all_entries(),
        )->Some_0.distance2_to_query,
        forall|j: int|
            0 <= j < view.points.len() ==> view.found(query)->Some_0.distance2_to_query
                <= squared_distance(query, #[trigger] view.points[j]),
{
    let w = view.cell_width as int;
    let low = view.min_position;
    let center = view.offset_of(query);
    let home = view.home_entries(query);
    let around = view.gather(center, neighbor_ring());
    let near = view.near_entries(query);
    let wall = view.wall_distance(query, center);
    lemma_nearest_of(query, near);
    lemma_own_wall_distance(view, query);
    lemma_cell_of_fits(query, low, w);
    assert(view.examined(query) == near);
    assert forall|j: int| 0 <= j < view.points.len() implies {
        ||| view.examined(query).contains((#[trigger] view.points[j], j as usize))
        ||| view.found(query) matches Some(found) && found.distance2_to_query <= squared_distance(
            query,
            view.points[j],
        )
    } by {
        let p = view.points[j];
        let e: Entry = (p, j as usize);
        let there = view.offset_of(p);
        let cell = view.cell_index(p)->Some_0;
        assert(is_point_entry(view, e));
        lemma_bucket_holds(view, cell as int);
        lemma_cell_of_fits(p, low, w);
        let dx = p.x - query.x;
        let dy = p.y - query.y;
        let dz = p.z - query.z;
        assert(dx * dx >= 0 && dy * dy >= 0 && dz * dz >= 0) by (nonlinear_arith);
        if there.x - center.x >= 2 || center.x - there.x >= 2 {
            lemma_axis_beyond_wall(query.x as int, p.x as int, low.x as int, w);
            let d = axis_wall_distance(query.x as int, low.x as int, center.x as int, w);
            assert((d + w) * (d + w) >= (wall + w) * (wall + w)) by (nonlinear_arith)
                requires
                    0 <= wall <= d,
                    w >= 1,
            ;
        } else if there.y - center.y >= 2 || center.y - there.y >= 2 {
            lemma_axis_beyond_wall(query.y as int, p.y as int, low.y as int, w);
            let d = axis_wall_distance(query.y as int, low.y as int, center.y as int, w);
            assert((d + w) * (d + w) >= (wall + w) * (wall + w)) by (nonlinear_arith)
                requires
                    0 <= wall <= d,
                    w >= 1,
            ;
        } else if there.z - center.z >= 2 || center.z - there.z >= 2 {
            lemma_axis_beyond_wall(query.z as int, p.z as int, low.z as int, w);
            let d = axis_wall_distance(query.z as int, low.z as int, center.z as int, w);
            assert((d + w) * (d + w) >= (wall + w) * (wall + w)) by (nonlinear_arith)
                requires
                    0 <= wall <= d,
                    w >= 1,
            ;
        } else if there == center {
            assert(home.contains(e));
            lemma_concat_contains(home, around, e);
        } else {
            let delta = Offset3 {
                x: (there.x - center.x) as i64,
                y: (there.y - center.y) as i64,
                z: (there.z - center.z) as i64,
            };
            lemma_ring_holds_touching_cells(delta);
            let k = choose|k: int| 0 <= k < 26 && #[trigger] neighbor_ring()[k] == delta;
            assert(center.sum_fits(delta));
            assert(center.sum(delta) == there);
            lemma_gather_holds_bucket(view, center, neighbor_ring(), k, e);
            lemma_concat_contains(home, around, e);
        }
    }
    lemma_answer_matches_full_scan(view, query);
}

/// Where neither the query's cell, nor the ring around it, nor the shells of
/// the spiral search hold a point, the answer is that of a scan of every
/// point: no point of the grid is nearer to the query.
pub proof fn lemma_fallback_is_nearest(view: GridView, query: Point3)
    requires
        view.valid(),
        view.near_entries(query).len() == 0,
        view.spiral_entries(view.offset_of(query)).len() == 0,
    ensures
        view.found(query) == nearest_of(query, view.all_entries()),
        view.found(query) matches Some(found) ==> forall|j: int|
            0 <= j < view.points.len() ==> found.distance2_to_query <= squared_distance(
                query,
                #[trigger] view.points[j],
            ),
{
    lemma_full_scan_is_nearest(view, query);
}

} // verus!
