use vstd::prelude::*;
use crate::key::{get_sort_weight, weight};
use crate::track::{is_resolved, TrackInfo};

verus! {

/// Sort weight of a track's key.
pub open spec fn track_weight(t: TrackInfo) -> int {
    weight(t.key as int, t.mode)
}

/// Track `a`, at input position `i`, goes before track `b`, at input position
/// `j`: resolved tracks come first, by weight, then tempo, then input
/// position; unresolved tracks follow in input order.
pub open spec fn goes_before(a: TrackInfo, i: int, b: TrackInfo, j: int) -> bool {
    if is_resolved(a) != is_resolved(b) {
        is_resolved(a)
    } else if !is_resolved(a) {
        i < j
    } else {
        track_weight(a) < track_weight(b) || (track_weight(a) == track_weight(b) && (a.tempo_milli
            < b.tempo_milli || (a.tempo_milli == b.tempo_milli && i < j)))
    }
}

/// `ord` lists every input position of `ts` once, in the harmonic order.
pub open spec fn is_harmonic_order(ts: Seq<TrackInfo>, ord: Seq<usize>) -> bool {
    &&& ord.len() == ts.len()
    &&& forall|k: int| 0 <= k < ord.len() ==> #[trigger] ord[k] < ts.len()
    &&& forall|i: int| 0 <= i < ts.len() ==> #[trigger] ord.contains(i as usize)
    &&& forall|k1: int, k2: int|
        0 <= k1 < k2 < ord.len() ==> #[trigger] goes_before(
            ts[ord[k1] as int],
            ord[k1] as int,
            ts[ord[k2] as int],
            ord[k2] as int,
        )
}

proof fn lemma_total(a: TrackInfo, i: int, b: TrackInfo, j: int)
    requires
        i != j,
    ensures
        goes_before(a, i, b, j) || goes_before(b, j, a, i),
        !(goes_before(a, i, b, j) && goes_before(b, j, a, i)),
{
}

proof fn lemma_transitive(a: TrackInfo, i: int, b: TrackInfo, j: int, c: TrackInfo, l: int)
    requires
        goes_before(a, i, b, j),
        goes_before(b, j, c, l),
    ensures
        goes_before(a, i, c, l),
{
}

fn before(ts: &[TrackInfo], ws: &[i32], i: usize, j: usize) -> (r: bool)
    requires
        ws@.len() == ts@.len(),
        i < ts@.len(),
        j < ts@.len(),
        forall|k: int| 0 <= k < ts@.len() ==> #[trigger] ws@[k] == track_weight(ts@[k]),
    ensures
        r == goes_before(ts@[i as int], i as int, ts@[j as int], j as int),
{
    let ra = ts[i].is_resolved();
    let rb = ts[j].is_resolved();
    if ra != rb {
        ra
    } else if !ra {
        i < j
    } else {
        ws[i] < ws[j] || (ws[i] == ws[j] && (ts[i].tempo_milli < ts[j].tempo_milli || (
        ts[i].tempo_milli == ts[j].tempo_milli && i < j)))
    }
}

/// The harmonic order of a playlist: its positions, resolved tracks first by
/// sort weight, then tempo, ties kept in input order; then the unresolved
/// tracks in input order.
pub fn harmonic_order(tracks: &[TrackInfo]) -> (r: Vec<usize>)
    ensures
        is_harmonic_order(tracks@, r@),
{
    let n = tracks.len();
    let mut ws: Vec<i32> = Vec::new();
    let mut i: usize = 0;
    while i < n
        invariant
            n == tracks@.len(),
            i <= n,
            ws@.len() == i,
            forall|k: int| 0 <= k < i ==> #[trigger] ws@[k] == track_weight(tracks@[k]),
        decreases n - i,
    {
        ws.push(get_sort_weight(tracks[i].key, tracks[i].mode));
        i = i + 1;
    }
    let mut ord: Vec<usize> = Vec::new();
    let mut i: usize = 0;
    while i < n
        invariant
            n == tracks@.len(),
            ws@.len() == n,
            forall|k: int| 0 <= k < n ==> #[trigger] ws@[k] == track_weight(tracks@[k]),
            i <= n,
            ord@.len() == i,
            forall|k: int| 0 <= k < ord@.len() ==> #[trigger] ord@[k] < i,
            forall|j: int| 0 <= j < i ==> #[trigger] ord@.contains(j as usize),
            forall|k1: int, k2: int|
                0 <= k1 < k2 < ord@.len() ==> #[trigger] goes_before(
                    tracks@[ord@[k1] as int],
                    ord@[k1] as int,
                    tracks@[ord@[k2] as int],
                    ord@[k2] as int,
                ),
        decreases n - i,
    {
        let mut p: usize = 0;
        while p < ord.len() && !before(tracks, ws.as_slice(), i, ord[p])
            invariant
                n == tracks@.len(),
                ws@.len() == n,
                forall|k: int| 0 <= k < n ==> #[trigger] ws@[k] == track_weight(tracks@[k]),
                i < n,
                p <= ord@.len(),
                forall|k: int| 0 <= k < ord@.len() ==> #[trigger] ord@[k] < i,
                forall|k: int| 0 <= k < p ==> !goes_before(
                    tracks@[i as int],
                    i as int,
                    tracks@[ord@[k] as int],
                    ord@[k] as int,
                ),
            decreases ord@.len() - p,
        {
            p = p + 1;
        }
        let ghost old_ord = ord@;
        proof {
            assert forall|k: int| 0 <= k < p implies goes_before(
                tracks@[old_ord[k] as int],
                old_ord[k] as int,
                tracks@[i as int],
                i as int,
            ) by {
                lemma_total(tracks@[old_ord[k] as int], old_ord[k] as int, tracks@[i as int], i as int);
            }
            assert forall|k: int| p <= k < old_ord.len() implies goes_before(
                tracks@[i as int],
                i as int,
                tracks@[old_ord[k] as int],
                old_ord[k] as int,
            ) by {
                if k > p {
                    lemma_transitive(
                        tracks@[i as int],
                        i as int,
                        tracks@[old_ord[p as int] as int],
                        old_ord[p as int] as int,
                        tracks@[old_ord[k] as int],
                        old_ord[k] as int,
                    );
                }
            }
        }
        ord.insert(p, i);
        proof {
            let nw = ord@;
            assert(nw == old_ord.insert(p as int, i));
            assert forall|k1: int, k2: int| 0 <= k1 < k2 < nw.len() implies #[trigger] goes_before(
                tracks@[nw[k1] as int],
                nw[k1] as int,
                tracks@[nw[k2] as int],
                nw[k2] as int,
            ) by {
                if k2 < p {
                } else if k2 == p {
                } else if k1 < p {
                } else if k1 == p {
                } else {
                    assert(nw[k1] == old_ord[k1 - 1]);
                    assert(nw[k2] == old_ord[k2 - 1]);
                }
            }
            assert forall|j: int| 0 <= j < i + 1 implies #[trigger] nw.contains(j as usize) by {
                if j < i {
                    assert(old_ord.contains(j as usize));
                    let k = choose|k: int| 0 <= k < old_ord.len() && old_ord[k] == j as usize;
                    if k < p {
                        assert(nw[k] == j as usize);
                    } else {
                        assert(nw[k + 1] == j as usize);
                    }
                } else {
                    assert(nw[p as int] == i);
                }
            }
        }
        i = i + 1;
    }
    ord
}

/// `out` is `ts` in the harmonic order.
pub open spec fn is_harmonic_sort(ts: Seq<TrackInfo>, out: Seq<TrackInfo>) -> bool {
    exists|ord: Seq<usize>|
        #![trigger is_harmonic_order(ts, ord)]
        is_harmonic_order(ts, ord) && out.len() == ord.len() && forall|k: int|
            0 <= k < out.len() ==> out[k] == ts[ord[k] as int]
}

/// The playlist in the harmonic order: resolved tracks first, by sort weight,
/// then tempo, ties kept in input order; then the unresolved tracks in input
/// order.
pub fn harmonic_sort(tracks: &[TrackInfo]) -> (r: Vec<TrackInfo>)
    ensures
        is_harmonic_sort(tracks@, r@),
{
    let ord = harmonic_order(tracks);
    let mut out: Vec<TrackInfo> = Vec::new();
    let mut k: usize = 0;
    while k < ord.len()
        invariant
            is_harmonic_order(tracks@, ord@),
            k <= ord@.len(),
            out@.len() == k,
            forall|j: int| 0 <= j < k ==> #[trigger] out@[j] == tracks@[ord@[j] as int],
        decreases ord@.len() - k,
    {
        let t = tracks[ord[k]].duplicate();
        out.push(t);
        k = k + 1;
    }
    out
}

/// Sorting keeps the partition: every track appears in the order, and each
/// resolved track comes before each unresolved one.
pub proof fn lemma_resolved_first(ts: Seq<TrackInfo>, ord: Seq<usize>)
    requires
        is_harmonic_order(ts, ord),
    ensures
        forall|i: int| 0 <= i < ts.len() ==> #[trigger] ord.contains(i as usize),
        forall|k1: int, k2: int|
            0 <= k1 < ord.len() && 0 <= k2 < ord.len() && is_resolved(ts[ord[k1] as int])
                && !is_resolved(ts[ord[k2] as int]) ==> k1 < k2,
{
    assert forall|k1: int, k2: int|
        0 <= k1 < ord.len() && 0 <= k2 < ord.len() && is_resolved(ts[ord[k1] as int])
            && !is_resolved(ts[ord[k2] as int]) implies k1 < k2 by {
        if k2 < k1 {
            assert(goes_before(ts[ord[k2] as int], ord[k2] as int, ts[ord[k1] as int], ord[k1] as int));
        }
    }
}

/// Sorting is stable: two resolved tracks with the same sort weight and the
/// same tempo keep their relative order.
pub proof fn lemma_stable(ts: Seq<TrackInfo>, ord: Seq<usize>)
    requires
        is_harmonic_order(ts, ord),
    ensures
        forall|k1: int, k2: int|
            0 <= k1 < ord.len() && 0 <= k2 < ord.len() && is_resolved(ts[ord[k1] as int])
                && is_resolved(ts[ord[k2] as int]) && track_weight(ts[ord[k1] as int])
                == track_weight(ts[ord[k2] as int]) && ts[ord[k1] as int].tempo_milli
                == ts[ord[k2] as int].tempo_milli && ord[k1] < ord[k2] ==> k1 < k2,
{
    assert forall|k1: int, k2: int|
        0 <= k1 < ord.len() && 0 <= k2 < ord.len() && is_resolved(ts[ord[k1] as int])
            && is_resolved(ts[ord[k2] as int]) && track_weight(ts[ord[k1] as int])
            == track_weight(ts[ord[k2] as int]) && ts[ord[k1] as int].tempo_milli
            == ts[ord[k2] as int].tempo_milli && ord[k1] < ord[k2] implies k1 < k2 by {
        if k2 < k1 {
            assert(goes_before(ts[ord[k2] as int], ord[k2] as int, ts[ord[k1] as int], ord[k1] as int));
        }
    }
}

} // verus!
