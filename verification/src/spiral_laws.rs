use crate::grid_laws::{
    is_point_entry, lemma_answer_matches_full_scan, lemma_bucket_holds, lemma_concat_contains,
    lemma_gather_holds_bucket, lemma_ring_holds_touching_cells,
};
use crate::grid_view::{neighbor_ring, GridView};
use crate::offset3::{lemma_grid_index1_is_one_to_one, Offset3};
use crate::point::{
    axis_cell, lemma_axis_cell_bounds, lemma_cell_of_fits, squared_distance, Point3,
};
use crate::search::{lemma_nearest_of, nearest_of, Entry};
use crate::spiral_cells::{
    lemma_variations_upto, reordered, variation, variations, SpiralCell, VARIATION_COUNT,
};
use vstd::prelude::*;

verus! {

/// The size of a component, without its sign.
pub open spec fn magnitude(v: int) -> int {
    if v < 0 {
        -v
    } else {
        v
    }
}

/// The number of whole cells that lie between a cell and the cell `v` cells
/// away along one axis.
pub open spec fn cells_between(v: int) -> int {
    if magnitude(v) >= 1 {
        magnitude(v) - 1
    } else {
        0
    }
}

/// A bound from above, in cell widths and squared, of the distance from a
/// point of a cell to a point of the cell that lies `offset` away.
pub open spec fn farthest2(offset: Offset3) -> int {
    let x = magnitude(offset.x as int) + 1;
    let y = magnitude(offset.y as int) + 1;
    let z = magnitude(offset.z as int) + 1;
    x * x + y * y + z * z
}

/// A bound from below, in cell widths and squared, of the distance from a
/// point of a cell to a point of the cell that lies `offset` away.
pub open spec fn nearest2(offset: Offset3) -> int {
    let x = cells_between(offset.x as int);
    let y = cells_between(offset.y as int);
    let z = cells_between(offset.z as int);
    x * x + y * y + z * z
}

/// Whether `offset` leads from a cell to itself or to one of the 26 cells
/// around it.
pub open spec fn touches(offset: Offset3) -> bool {
    &&& -1 <= offset.x <= 1
    &&& -1 <= offset.y <= 1
    &&& -1 <= offset.z <= 1
}

/// The last shell that the spiral search checks once it has found a point
/// in shell `hit`: the one at the stop index of that shell, if that lies
/// further on.
pub open spec fn last_shell(table: Seq<SpiralCell>, hit: int) -> int {
    if table[hit].stop_cell_index1 > hit {
        table[hit].stop_cell_index1 as int
    } else {
        hit
    }
}

/// Whether `offset` is a variation of the offset of one of the shells from
/// the second up to `last`.
pub open spec fn covered(table: Seq<SpiralCell>, last: int, offset: Offset3) -> bool {
    exists|i: int|
        1 <= i <= last && i < table.len() && variations((#[trigger] table[i]).offset).contains(
            offset,
        )
}

/// Whether the stop index of shell `hit` is far enough out: each cell that
/// neither touches the center cell nor belongs to a shell up to the last one
/// checked lies so far from the center cell that none of its points can be
/// nearer to a point of the center cell than a point of shell `hit` is.
pub open spec fn stop_is_sound(table: Seq<SpiralCell>, hit: int) -> bool {
    forall|offset: Offset3|
        !touches(offset) && !covered(table, last_shell(table, hit), offset) ==> #[trigger] nearest2(
            offset,
        ) >= farthest2(table[hit].offset)
}

/// The offset that leads from the cell `from` to the cell `to`, where both
/// are cells of points.
pub open spec fn offset_between(from: Offset3, to: Offset3) -> Offset3 {
    Offset3 {
        x: (to.x - from.x) as i64,
        y: (to.y - from.y) as i64,
        z: (to.z - from.z) as i64,
    }
}

/// Along one axis, two coordinates whose cells lie `m` cells apart lie less
/// than `m + 1` cell widths apart, and more than `m - 1`.
pub proof fn lemma_axis_span(c: int, p: int, low: int, w: int)
    requires
        w > 0,
    ensures
        (p - c) * (p - c) <= (magnitude(axis_cell(p, low, w) - axis_cell(c, low, w)) + 1) * (
        magnitude(axis_cell(p, low, w) - axis_cell(c, low, w)) + 1) * (w * w),
        (p - c) * (p - c) >= cells_between(axis_cell(p, low, w) - axis_cell(c, low, w))
            * cells_between(axis_cell(p, low, w) - axis_cell(c, low, w)) * (w * w),
{
    let k = axis_cell(c, low, w);
    let kp = axis_cell(p, low, w);
    let m = magnitude(kp - k);
    let g = cells_between(kp - k);
    lemma_axis_cell_bounds(c, low, w);
    lemma_axis_cell_bounds(p, low, w);
    let gap = if p >= c {
        p - c
    } else {
        c - p
    };
    assert((kp - k) * w == kp * w - k * w) by (nonlinear_arith);
    assert(m * w == (kp - k) * w || m * w == -((kp - k) * w)) by (nonlinear_arith)
        requires
            m == kp - k || m == -(kp - k),
    ;
    assert((m + 1) * w == m * w + w && (m - 1) * w == m * w - w) by (nonlinear_arith);
    assert(gap <= (m + 1) * w);
    assert(g * w <= gap) by {
        if m >= 1 {
            assert(g * w == (m - 1) * w);
        } else {
            assert(g * w == 0) by (nonlinear_arith)
                requires
                    g == 0,
            ;
        }
    }
    assert((p - c) * (p - c) == gap * gap) by (nonlinear_arith)
        requires
            gap == p - c || gap == c - p,
    ;
    assert(gap * gap <= (m + 1) * (m + 1) * (w * w)) by (nonlinear_arith)
        requires
            0 <= gap <= (m + 1) * w,
    ;
    assert(gap * gap >= g * g * (w * w)) by (nonlinear_arith)
        requires
            0 <= g * w <= gap,
    ;
}

/// The squared distance between two points lies between the two bounds that
/// the offset between their cells gives, in cell widths.
pub proof fn lemma_distance_between_cells(view: GridView, q: Point3, p: Point3)
    requires
        view.cell_width >= 1,
    ensures
        squared_distance(q, p) <= farthest2(
            offset_between(view.offset_of(q), view.offset_of(p)),
        ) * (view.cell_width * view.cell_width),
        squared_distance(q, p) >= nearest2(offset_between(view.offset_of(q), view.offset_of(p)))
            * (view.cell_width * view.cell_width),
{
    let w = view.cell_width as int;
    let low = view.min_position;
    let ww = w * w;
    lemma_cell_of_fits(q, low, w);
    lemma_cell_of_fits(p, low, w);
    crate::point::lemma_axis_cell_range(q.x as int, low.x as int, w);
    crate::point::lemma_axis_cell_range(q.y as int, low.y as int, w);
    crate::point::lemma_axis_cell_range(q.z as int, low.z as int, w);
    crate::point::lemma_axis_cell_range(p.x as int, low.x as int, w);
    crate::point::lemma_axis_cell_range(p.y as int, low.y as int, w);
    crate::point::lemma_axis_cell_range(p.z as int, low.z as int, w);
    lemma_axis_span(q.x as int, p.x as int, low.x as int, w);
    lemma_axis_span(q.y as int, p.y as int, low.y as int, w);
    lemma_axis_span(q.z as int, p.z as int, low.z as int, w);
    let o = offset_between(view.offset_of(q), view.offset_of(p));
    let fx = magnitude(o.x as int) + 1;
    let fy = magnitude(o.y as int) + 1;
    let fz = magnitude(o.z as int) + 1;
    let nx = cells_between(o.x as int);
    let ny = cells_between(o.y as int);
    let nz = cells_between(o.z as int);
    assert((fx * fx + fy * fy + fz * fz) * ww == fx * fx * ww + fy * fy * ww + fz * fz * ww)
        by (nonlinear_arith);
    assert((nx * nx + ny * ny + nz * nz) * ww == nx * nx * ww + ny * ny * ww + nz * nz * ww)
        by (nonlinear_arith);
}

/// A variation of an offset lies as far from the center as the offset.
pub proof fn lemma_variation_keeps_farthest2(offset: Offset3, image: Offset3)
    requires
        variations(offset).contains(image),
    ensures
        farthest2(image) == farthest2(offset),
{
    lemma_variations_upto(offset, VARIATION_COUNT as int);
    let j = choose|j: int| 0 <= j < VARIATION_COUNT && #[trigger] variation(offset, j) == Some(image);
    let base = reordered(offset, j / 8);
    assert(farthest2(base) == farthest2(offset));
    assert(magnitude(image.x as int) == magnitude(base.x as int));
    assert(magnitude(image.y as int) == magnitude(base.y as int));
    assert(magnitude(image.z as int) == magnitude(base.z as int));
}

/// Whatever is gathered at offsets from a center lies in the bucket of a
/// cell that the grid has at one of these offsets.
pub proof fn lemma_gathered_lies_in_a_bucket(
    view: GridView,
    center: Offset3,
    offsets: Seq<Offset3>,
    e: Entry,
)
    requires
        view.gather(center, offsets).contains(e),
    ensures
        exists|k: int|
            0 <= k < offsets.len() && (view.cell_at(center, #[trigger] offsets[k]) matches Some(
                cell,
            ) && view.bucket(cell as int).contains(e)),
    decreases offsets.len(),
{
    if offsets.len() > 0 {
        let front = offsets.drop_last();
        let earlier = view.gather(center, front);
        let last = offsets.len() - 1;
        match view.cell_at(center, offsets.last()) {
            Some(cell) => {
                lemma_concat_contains(earlier, view.bucket(cell as int), e);
            },
            None => {},
        }
        if earlier.contains(e) {
            lemma_gathered_lies_in_a_bucket(view, center, front, e);
            let k = choose|k: int|
                0 <= k < front.len() && (view.cell_at(center, #[trigger] front[k]) matches Some(
                    cell,
                ) && view.bucket(cell as int).contains(e));
            assert(front[k] == offsets[k]);
        } else {
            assert(view.cell_at(center, offsets[last]) is Some);
        }
    } else {
        assert(view.gather(center, offsets).len() == 0);
    }
}

/// What one of the shells from `from` up to, and without, `to` holds is
/// among what these shells hold together.
pub proof fn lemma_shells_hold_shell(
    view: GridView,
    center: Offset3,
    from: int,
    to: int,
    i: int,
    e: Entry,
)
    requires
        from <= i < to,
        view.shell(center, i).contains(e),
    ensures
        view.shells(center, from, to).contains(e),
    decreases to - from,
{
    if i < to - 1 {
        lemma_shells_hold_shell(view, center, from, to - 1, i, e);
    }
    lemma_concat_contains(view.shells(center, from, to - 1), view.shell(center, to - 1), e);
}

/// Where the shells from `from` on hold anything before `to`, the first of
/// them that holds a point lies before `to`, is a shell of the table, and
/// holds a point.
pub proof fn lemma_first_hit(view: GridView, center: Offset3, from: int, to: int)
    requires
        0 <= from,
        to <= view.spiral_cells.len(),
        view.shells(center, from, to).len() > 0,
    ensures
        from <= view.first_hit(center, from) < to,
        view.shell(center, view.first_hit(center, from)).len() > 0,
    decreases to - from,
{
    if view.shell(center, to - 1).len() > 0 && view.shells(center, from, to - 1).len() == 0 {
        lemma_no_hit_before(view, center, from, to - 1);
    } else {
        lemma_first_hit(view, center, from, to - 1);
    }
}

/// Where the shells from `from` up to, and without, `to` hold nothing and
/// shell `to` holds a point, the first shell from `from` on that holds a
/// point is shell `to`.
pub proof fn lemma_no_hit_before(view: GridView, center: Offset3, from: int, to: int)
    requires
        0 <= from <= to < view.spiral_cells.len(),
        view.shells(center, from, to).len() == 0,
        view.shell(center, to).len() > 0,
    ensures
        view.first_hit(center, from) == to,
    decreases to - from,
{
    if from < to {
        lemma_shells_hold_nothing(view, center, from, to, from);
        lemma_shells_tail(view, center, from, to);
        lemma_no_hit_before(view, center, from + 1, to);
    }
}

/// Where shells together hold nothing, none of them holds anything.
pub proof fn lemma_shells_hold_nothing(view: GridView, center: Offset3, from: int, to: int, i: int)
    requires
        from <= i < to,
        view.shells(center, from, to).len() == 0,
    ensures
        view.shell(center, i).len() == 0,
    decreases to - from,
{
    if i < to - 1 {
        lemma_shells_hold_nothing(view, center, from, to - 1, i);
    }
}

/// Shells that hold nothing together still hold nothing without the first.
pub proof fn lemma_shells_tail(view: GridView, center: Offset3, from: int, to: int)
    requires
        from < to,
        view.shells(center, from, to).len() == 0,
    ensures
        view.shells(center, from + 1, to).len() == 0,
    decreases to - from,
{
    if from + 1 < to {
        lemma_shells_tail(view, center, from, to - 1);
    }
}

/// Where the spiral search answers a query, and the stop index of the first
/// shell in which it found a point is sound, no point of the grid is nearer
/// to the query than the point found: the answer is as near as that of a
/// scan of every point.
pub proof fn lemma_spiral_answer_is_nearest(view: GridView, query: Point3)
    requires
        view.valid(),
        view.near_entries(query).len() == 0,
        view.spiral_entries(view.offset_of(query)).len() > 0,
        stop_is_sound(view.spiral_cells, view.first_hit(view.offset_of(query), 1)),
    ensures
        view.found(query) matches Some(found) && found.distance2_to_query == nearest_of(
            query,
            view.all_entries(),
        )->Some_0.distance2_to_query,
        forall|j: int|
            0 <= j < view.points.len() ==> view.found(query)->Some_0.distance2_to_query
                <= squared_distance(query, #[trigger] view.points[j]),
{
    let w = view.cell_width as int;
    let ww = w * w;
    let center = view.offset_of(query);
    let table = view.spiral_cells;
    let end = view.spiral_end(center);
    let spiral = view.spiral_entries(center);
    let home = view.home_entries(query);
    let around = view.gather(center, neighbor_ring());
    assert(view.examined(query) == spiral);
    lemma_nearest_of(query, spiral);
    let found = view.found(query)->Some_0;

    // The first shell with a point, and a point of it.
    lemma_first_hit(view, center, 1, end);
    let hit = view.first_hit(center, 1);
    let first: Entry = view.shell(center, hit)[0];
    assert(view.shell(center, hit).contains(first));
    lemma_shells_hold_shell(view, center, 1, end, hit, first);
    let at = choose|at: int| 0 <= at < spiral.len() && spiral[at] == first;
    assert(found.distance2_to_query <= squared_distance(query, spiral[at].0));
    lemma_gathered_lies_in_a_bucket(view, center, variations(table[hit].offset), first);
    let images = variations(table[hit].offset);
    let k = choose|k: int|
        0 <= k < images.len() && (view.cell_at(center, #[trigger] images[k]) matches Some(cell)
            && view.bucket(cell as int).contains(first));
    let first_cell = view.cell_at(center, images[k])->Some_0;
    lemma_bucket_holds(view, first_cell as int);
    lemma_grid_index1_is_one_to_one(
        center.sum(images[k]),
        view.offset_of(first.0),
        view.grid_dimensions,
    );
    assert(images.contains(images[k]));
    lemma_variation_keeps_farthest2(table[hit].offset, images[k]);
    lemma_distance_between_cells(view, query, first.0);
    lemma_cell_of_fits(query, view.min_position, w);
    lemma_cell_of_fits(first.0, view.min_position, w);
    assert(offset_between(center, view.offset_of(first.0)) == images[k]);
    let reach = farthest2(table[hit].offset);
    assert(found.distance2_to_query <= reach * ww);

    assert forall|j: int| 0 <= j < view.points.len() implies {
        ||| view.examined(query).contains((#[trigger] view.points[j], j as usize))
        ||| view.found(query) matches Some(found) && found.distance2_to_query <= squared_distance(
            query,
            view.points[j],
        )
    } by {
        let p = view.points[j];
        let e: Entry = (p, j as usize);
        let there = view.offset_of(p);
        let cell = view.cell_index(p)->Some_0;
        let delta = offset_between(center, there);
        assert(is_point_entry(view, e));
        lemma_bucket_holds(view, cell as int);
        lemma_cell_of_fits(p, view.min_position, w);
        crate::point::lemma_axis_cell_range(p.x as int, view.min_position.x as int, w);
        crate::point::lemma_axis_cell_range(p.y as int, view.min_position.y as int, w);
        crate::point::lemma_axis_cell_range(p.z as int, view.min_position.z as int, w);
        crate::point::lemma_axis_cell_range(query.x as int, view.min_position.x as int, w);
        crate::point::lemma_axis_cell_range(query.y as int, view.min_position.y as int, w);
        crate::point::lemma_axis_cell_range(query.z as int, view.min_position.z as int, w);
        assert(center.sum_fits(delta));
        assert(center.sum(delta) == there);
        assert(view.cell_at(center, delta) == Some(cell));
        if touches(delta) {
            // The cell of the query and the ring around it hold no point.
            if there == center {
                assert(home.contains(e));
            } else {
                lemma_ring_holds_touching_cells(delta);
                let r = choose|r: int| 0 <= r < 26 && #[trigger] neighbor_ring()[r] == delta;
                lemma_gather_holds_bucket(view, center, neighbor_ring(), r, e);
            }
            lemma_concat_contains(home, around, e);
            assert(view.near_entries(query).contains(e));
        } else if covered(table, last_shell(table, hit), delta) {
            let i = choose|i: int|
                1 <= i <= last_shell(table, hit) && i < table.len() && variations(
                    (#[trigger] table[i]).offset,
                ).contains(delta);
            let shell_offsets = variations(table[i].offset);
            let v = choose|v: int| 0 <= v < shell_offsets.len() && shell_offsets[v] == delta;
            lemma_gather_holds_bucket(view, center, shell_offsets, v, e);
            lemma_shells_hold_shell(view, center, 1, end, i, e);
        } else {
            assert(nearest2(delta) >= reach);
            lemma_distance_between_cells(view, query, p);
            assert(nearest2(delta) * ww >= reach * ww) by (nonlinear_arith)
                requires
                    nearest2(delta) >= reach,
                    ww >= 0,
            ;
        }
    }
    lemma_answer_matches_full_scan(view, query);
}

} // verus!
