use crate::point::{dist2, squared_distance, Point3};
use vstd::prelude::*;

verus! {

/// A bucketed point: its position and its index in the sequence of points
/// that the grid was built from.
pub type Entry = (Point3, usize);

/// A point found by a search, with its squared distance to the query.
#[derive(Debug, Clone, Copy, PartialEq, Eq, Structural)]
pub struct SearchResult {
    pub position: Point3,
    pub point_object_index: usize,
    pub distance2_to_query: u128,
}

/// The search result that stands for one bucketed point.
pub open spec fn candidate(query: Point3, entry: Entry) -> SearchResult {
    SearchResult {
        position: entry.0,
        point_object_index: entry.1,
        distance2_to_query: squared_distance(query, entry.0) as u128,
    }
}

/// The better of two search results: the second wins only where it is
/// strictly closer, so that of two equally close points the one seen first
/// stays.
pub open spec fn closer(first: Option<SearchResult>, second: Option<SearchResult>) -> Option<
    SearchResult,
> {
    match (first, second) {
        (None, _) => second,
        (Some(_), None) => first,
        (Some(a), Some(b)) => if b.distance2_to_query < a.distance2_to_query {
            second
        } else {
            first
        },
    }
}

/// The result of scanning `entries` in order, starting from the best result
/// `so_far` of what was scanned before.
pub open spec fn scan_from(so_far: Option<SearchResult>, query: Point3, entries: Seq<Entry>)
    -> Option<SearchResult>
    decreases entries.len(),
{
    if entries.len() == 0 {
        so_far
    } else {
        closer(
            scan_from(so_far, query, entries.drop_last()),
            Some(candidate(query, entries.last())),
        )
    }
}

/// The entry of `entries` that is nearest to `query`; of several equally
/// near entries, the first. `None` where there is no entry.
pub open spec fn nearest_of(query: Point3, entries: Seq<Entry>) -> Option<SearchResult> {
    scan_from(None, query, entries)
}

/// Picks the nearer of two search results, the first on a tie.
pub fn closer_of(first: Option<SearchResult>, second: Option<SearchResult>) -> (best: Option<
    SearchResult,
>)
    ensures
        best == closer(first, second),
{
    match (first, second) {
        (None, _) => second,
        (Some(_), None) => first,
        (Some(a), Some(b)) => if b.distance2_to_query < a.distance2_to_query {
            second
        } else {
            first
        },
    }
}

/// Scans `entries` in order and returns the nearest to `query` of them and of
/// `so_far`, the best result of an earlier scan.
pub fn nearest_after(so_far: Option<SearchResult>, query: Point3, entries: &Vec<Entry>) -> (best:
    Option<SearchResult>)
    ensures
        best == scan_from(so_far, query, entries@),
{
    let mut best: Option<SearchResult> = so_far;
    let mut i: usize = 0;
    while i < entries.len()
        invariant
            i <= entries.len(),
            best == scan_from(so_far, query, entries@.take(i as int)),
        decreases entries.len() - i,
    {
        let entry: Entry = entries[i];
        let found = SearchResult {
            position: entry.0,
            point_object_index: entry.1,
            distance2_to_query: dist2(query, entry.0),
        };
        proof {
            lemma_squared_distance_fits(query, entry.0);
            assert(entries@.take(i + 1).drop_last() =~= entries@.take(i as int));
        }
        best = closer_of(best, Some(found));
        i += 1;
    }
    assert(entries@.take(i as int) =~= entries@);
    best
}

/// Returns the entry that is nearest to `query`, the first of several equally
/// near ones, or `None` where `entries` is empty.
pub fn nearest(query: Point3, entries: &Vec<Entry>) -> (best: Option<SearchResult>)
    ensures
        best == nearest_of(query, entries@),
{
    nearest_after(None, query, entries)
}

/// A squared distance between two positions fits the type that results carry.
pub proof fn lemma_squared_distance_fits(p: Point3, q: Point3)
    ensures
        squared_distance(p, q) <= 3 * (0xffff_ffff * 0xffff_ffff),
        squared_distance(p, q) as u128 == squared_distance(p, q),
{
    let dx = q.x - p.x;
    let dy = q.y - p.y;
    let dz = q.z - p.z;
    assert(0 <= dx * dx <= 0xffff_ffff * 0xffff_ffff) by (nonlinear_arith)
        requires
            -0xffff_ffff <= dx <= 0xffff_ffff,
    ;
    assert(0 <= dy * dy <= 0xffff_ffff * 0xffff_ffff) by (nonlinear_arith)
        requires
            -0xffff_ffff <= dy <= 0xffff_ffff,
    ;
    assert(0 <= dz * dz <= 0xffff_ffff * 0xffff_ffff) by (nonlinear_arith)
        requires
            -0xffff_ffff <= dz <= 0xffff_ffff,
    ;
}

/// Scanning two sequences one after the other is scanning their
/// concatenation.
pub proof fn lemma_scan_concat(
    so_far: Option<SearchResult>,
    query: Point3,
    head: Seq<Entry>,
    tail: Seq<Entry>,
)
    ensures
        scan_from(so_far, query, head + tail) == scan_from(
            scan_from(so_far, query, head),
            query,
            tail,
        ),
    decreases tail.len(),
{
    if tail.len() == 0 {
        assert(head + tail =~= head);
    } else {
        lemma_scan_concat(so_far, query, head, tail.drop_last());
        assert((head + tail).drop_last() =~= head + tail.drop_last());
        assert((head + tail).last() == tail.last());
    }
}

/// Scanning on from an earlier result gives the closer of that result and of
/// the nearest entry scanned, the earlier result on a tie.
pub proof fn lemma_scan_from_is_closer(
    so_far: Option<SearchResult>,
    query: Point3,
    entries: Seq<Entry>,
)
    ensures
        scan_from(so_far, query, entries) == closer(so_far, nearest_of(query, entries)),
    decreases entries.len(),
{
    if entries.len() > 0 {
        lemma_scan_from_is_closer(so_far, query, entries.drop_last());
    }
}

/// Of the entries that no other entry is closer than, a scan returns the
/// first: every entry before it lies strictly farther from the query.
pub proof fn lemma_nearest_of_is_first(query: Point3, entries: Seq<Entry>)
    ensures
        nearest_of(query, entries) matches Some(best) ==> exists|k: int|
            {
                &&& 0 <= k < entries.len()
                &&& best == candidate(query, #[trigger] entries[k])
                &&& forall|i: int|
                    0 <= i < k ==> best.distance2_to_query < squared_distance(
                        query,
                        (#[trigger] entries[i]).0,
                    )
            },
    decreases entries.len(),
{
    if entries.len() > 0 {
        let front = entries.drop_last();
        let last = entries.len() - 1;
        lemma_nearest_of_is_first(query, front);
        lemma_nearest_of(query, front);
        lemma_squared_distance_fits(query, entries.last().0);
        let best = nearest_of(query, entries)->Some_0;
        match nearest_of(query, front) {
            None => {
                assert(best == candidate(query, entries[last]));
            },
            Some(prev) => {
                if best == prev {
                    let k = choose|k: int|
                        {
                            &&& 0 <= k < front.len()
                            &&& prev == candidate(query, #[trigger] front[k])
                            &&& forall|i: int|
                                0 <= i < k ==> prev.distance2_to_query < squared_distance(
                                    query,
                                    (#[trigger] front[i]).0,
                                )
                        };
                    assert(front[k] == entries[k]);
                    assert forall|i: int| 0 <= i < k implies best.distance2_to_query
                        < squared_distance(query, (#[trigger] entries[i]).0) by {
                        assert(front[i] == entries[i]);
                    }
                    assert(best == candidate(query, entries[k]));
                } else {
                    assert(best == candidate(query, entries[last]));
                    assert forall|i: int| 0 <= i < last implies best.distance2_to_query
                        < squared_distance(query, (#[trigger] entries[i]).0) by {
                        assert(front[i] == entries[i]);
                    }
                }
            },
        }
    }
}

/// What a scan returns: nothing exactly where there is no entry, and
/// otherwise one of the entries, which no entry is closer than.
pub proof fn lemma_nearest_of(query: Point3, entries: Seq<Entry>)
    ensures
        nearest_of(query, entries) is None <==> entries.len() == 0,
        nearest_of(query, entries) matches Some(best) ==> {
            &&& exists|k: int|
                0 <= k < entries.len() && best == candidate(query, #[trigger] entries[k])
            &&& forall|k: int|
                0 <= k < entries.len() ==> best.distance2_to_query <= squared_distance(
                    query,
                    (#[trigger] entries[k]).0,
                )
        },
    decreases entries.len(),
{
    if entries.len() > 0 {
        let front = entries.drop_last();
        lemma_nearest_of(query, front);
        lemma_squared_distance_fits(query, entries.last().0);
        let best = nearest_of(query, entries)->Some_0;
        match nearest_of(query, front) {
            None => {
                assert(best == candidate(query, entries[entries.len() - 1]));
            },
            Some(prev) => {
                let k = choose|k: int|
                    0 <= k < front.len() && prev == candidate(query, #[trigger] front[k]);
                assert(front[k] == entries[k]);
                if best == prev {
                    assert(best == candidate(query, entries[k]));
                } else {
                    assert(best == candidate(query, entries[entries.len() - 1]));
                }
            },
        }
        assert forall|k: int| 0 <= k < entries.len() implies best.distance2_to_query
            <= squared_distance(query, (#[trigger] entries[k]).0) by {
            if k < front.len() {
                assert(front[k] == entries[k]);
            }
        }
    }
}

} // verus!
