//! Pure tile residency and request scheduling for multiscale Earth streaming.
//!
//! Sets of requests are passed as slices and compared by membership; the retained set that
//! the planner returns is strictly increasing, so it holds every request once.

use vstd::prelude::*;
use crate::planet_tiles::{
    TileAssetRequest, TileId, TileLayer, TileStreamingPlan, ancestors, layer_requests,
    lemma_request_lt_total, lemma_request_lt_transitive, request_less, request_lt, spec_parent,
};

verus! {

pub const DEFAULT_MAX_NEW_REQUESTS: usize = 8;

#[derive(Clone, Debug, PartialEq, Eq)]
pub struct TileLoadDelta {
    /// Missing assets to start loading this frame, ordered coarse-to-fine.
    pub requested: Vec<TileAssetRequest>,
    /// Assets still relevant to the current camera working set, in increasing order.
    pub retained: Vec<TileAssetRequest>,
}

/// Requests of `ordered` that are neither resident nor in flight, in the order given.
pub open spec fn not_loaded(
    ordered: Seq<TileAssetRequest>,
    resident: Seq<TileAssetRequest>,
    in_flight: Seq<TileAssetRequest>,
) -> Seq<TileAssetRequest>
    decreases ordered.len(),
{
    if ordered.len() == 0 {
        Seq::empty()
    } else {
        let earlier = not_loaded(ordered.drop_last(), resident, in_flight);
        if !resident.contains(ordered.last()) && !in_flight.contains(ordered.last()) {
            earlier.push(ordered.last())
        } else {
            earlier
        }
    }
}

/// The first `budget` elements of `s`, or all of them.
pub open spec fn at_most(s: Seq<TileAssetRequest>, budget: int) -> Seq<TileAssetRequest> {
    if budget < s.len() {
        s.take(budget)
    } else {
        s
    }
}

pub open spec fn strictly_increasing(s: Seq<TileAssetRequest>) -> bool {
    forall|i: int, j: int| 0 <= i < j < s.len() ==> request_lt(s[i], s[j])
}

/// Requests of `candidates` that are not in `excluded`, in the order given.
pub open spec fn without(
    candidates: Seq<TileAssetRequest>,
    excluded: Seq<TileAssetRequest>,
) -> Seq<TileAssetRequest>
    decreases candidates.len(),
{
    if candidates.len() == 0 {
        Seq::empty()
    } else {
        let earlier = without(candidates.drop_last(), excluded);
        if excluded.contains(candidates.last()) {
            earlier
        } else {
            earlier.push(candidates.last())
        }
    }
}

/// The finest resident request of `layer` covering `tile`: the tile itself, else the nearest
/// resident ancestor.
pub open spec fn finest_coverage(
    tile: TileId,
    layer: TileLayer,
    resident: Seq<TileAssetRequest>,
) -> Option<TileAssetRequest>
    decreases tile.level,
{
    if resident.contains(TileAssetRequest { layer, tile }) {
        Some(TileAssetRequest { layer, tile })
    } else {
        match spec_parent(tile) {
            Some(parent) => finest_coverage(parent, layer, resident),
            None => None,
        }
    }
}

fn contains_request(set: &[TileAssetRequest], request: &TileAssetRequest) -> (r: bool)
    ensures
        r == set@.contains(*request),
{
    let mut i: usize = 0;
    while i < set.len()
        invariant
            i <= set@.len(),
            forall|k: int| 0 <= k < i ==> set@[k] != *request,
        decreases set@.len() - i,
    {
        if set[i] == *request {
            return true;
        }
        i += 1;
    }
    false
}

/// Adds `request` to a strictly increasing vector unless it is already there.
fn insert_unique_sorted(set: &mut Vec<TileAssetRequest>, request: TileAssetRequest)
    requires
        strictly_increasing(old(set)@),
    ensures
        strictly_increasing(final(set)@),
        forall|q: TileAssetRequest| final(set)@.contains(q) <==> (old(set)@.contains(q) || q == request),
{
    let mut p: usize = 0;
    let mut stop = false;
    while !stop && p < set.len()
        invariant
            p <= set@.len(),
            set@ == old(set)@,
            forall|k: int| 0 <= k < p ==> request_lt(#[trigger] set@[k], request),
            stop ==> p < set@.len() && !request_lt(set@[p as int], request),
        decreases set@.len() - p, if stop { 0int } else { 1int },
    {
        if request_less(&set[p], &request) {
            p += 1;
        } else {
            stop = true;
        }
    }
    if p < set.len() && set[p] == request {
        return;
    }
    let ghost before = set@;
    proof {
        if p < before.len() {
            lemma_request_lt_total(before[p as int], request);
        }
    }
    set.insert(p, request);
    proof {
        let t = set@;
        assert forall|i: int, j: int| 0 <= i < j < t.len() implies request_lt(t[i], t[j]) by {
            if j < p {
                assert(t[i] == before[i] && t[j] == before[j]);
            } else if j == p {
                assert(t[i] == before[i]);
            } else if i < p {
                assert(t[i] == before[i] && t[j] == before[j - 1]);
                if j - 1 > p {
                    lemma_request_lt_transitive(request, before[p as int], before[j - 1]);
                }
                lemma_request_lt_transitive(before[i], request, before[j - 1]);
            } else if i == p {
                assert(t[j] == before[j - 1]);
                if j - 1 > p {
                    lemma_request_lt_transitive(request, before[p as int], before[j - 1]);
                }
            } else {
                assert(t[i] == before[i - 1] && t[j] == before[j - 1]);
            }
        }
        assert forall|q: TileAssetRequest| t.contains(q) <==> (before.contains(q) || q == request) by {
            if t.contains(q) {
                let k = choose|k: int| 0 <= k < t.len() && t[k] == q;
                if k < p {
                    assert(t[k] == before[k]);
                } else if k > p {
                    assert(t[k] == before[k - 1]);
                }
            }
            if before.contains(q) {
                let k = choose|k: int| 0 <= k < before.len() && before[k] == q;
                if k < p {
                    assert(t[k] == before[k]);
                } else {
                    assert(t[k + 1] == before[k]);
                }
            }
            if q == request {
                assert(t[p as int] == request);
            }
        }
    }
}

/// Computes a bounded set of new requests from the current streaming plan.
///
/// `resident` holds already decoded GPU-ready assets and `in_flight` holds requests that
/// were started but have not completed; neither is requested again. Every request of the
/// plan, parent fallbacks included, stays retained while fine tiles load.
pub fn plan_tile_loads(
    plan: &TileStreamingPlan,
    layer: TileLayer,
    resident: &[TileAssetRequest],
    in_flight: &[TileAssetRequest],
    max_new_requests: usize,
) -> (r: TileLoadDelta)
    requires
        strictly_increasing(resident@),
        strictly_increasing(in_flight@),
    ensures
        r.requested@ == at_most(
            not_loaded(
                layer_requests(plan.fallback@, layer) + layer_requests(plan.primary@, layer),
                resident@,
                in_flight@,
            ),
            max_new_requests as int,
        ),
        strictly_increasing(r.retained@),
        forall|q: TileAssetRequest|
            r.retained@.contains(q) <==> (layer_requests(plan.fallback@, layer) + layer_requests(
                plan.primary@,
                layer,
            )).contains(q),
{
    let ordered = plan.requests(layer);
    let ghost all = ordered@;
    let mut retained: Vec<TileAssetRequest> = Vec::new();
    let mut requested: Vec<TileAssetRequest> = Vec::new();
    let mut i: usize = 0;
    while i < ordered.len()
        invariant
            ordered@ == all,
            i <= all.len(),
            strictly_increasing(retained@),
            forall|q: TileAssetRequest| retained@.contains(q) <==> all.take(i as int).contains(q),
            requested@ == at_most(
                not_loaded(all.take(i as int), resident@, in_flight@),
                max_new_requests as int,
            ),
        decreases all.len() - i,
    {
        let request = ordered[i];
        insert_unique_sorted(&mut retained, request);
        let ghost earlier = not_loaded(all.take(i as int), resident@, in_flight@);
        proof {
            assert(all.take(i + 1).drop_last() =~= all.take(i as int));
            assert(all.take(i + 1).last() == request);
        }
        if !contains_request(resident, &request) && !contains_request(in_flight, &request) {
            if requested.len() < max_new_requests {
                requested.push(request);
            }
            proof {
                let now = not_loaded(all.take(i + 1), resident@, in_flight@);
                assert(now == earlier.push(request));
                if earlier.len() < max_new_requests {
                    assert(requested@ =~= at_most(now, max_new_requests as int));
                } else {
                    assert(at_most(now, max_new_requests as int) =~= at_most(
                        earlier,
                        max_new_requests as int,
                    ));
                }
            }
        }
        proof {
            let longer = all.take(i + 1);
            let shorter = all.take(i as int);
            assert forall|q: TileAssetRequest| retained@.contains(q) <==> longer.contains(q) by {
                if longer.contains(q) && q != request {
                    let k = choose|k: int| 0 <= k < longer.len() && longer[k] == q;
                    assert(shorter[k] == q);
                }
                if shorter.contains(q) {
                    let k = choose|k: int| 0 <= k < shorter.len() && shorter[k] == q;
                    assert(longer[k] == q);
                }
                if q == request {
                    assert(longer[i as int] == q);
                }
            }
        }
        i += 1;
    }
    proof {
        assert(all.take(i as int) =~= all);
    }
    TileLoadDelta { requested, retained }
}

/// Returns the finest resident asset that can cover `tile`, including the tile itself.
pub fn finest_resident_coverage(
    tile: TileId,
    layer: TileLayer,
    resident: &[TileAssetRequest],
) -> (r: Option<TileAssetRequest>)
    requires
        strictly_increasing(resident@),
    ensures
        r == finest_coverage(tile, layer, resident@),
{
    let mut candidate = tile;
    loop
        invariant
            finest_coverage(candidate, layer, resident@) == finest_coverage(tile, layer, resident@),
        decreases candidate.level,
    {
        let request = TileAssetRequest { layer, tile: candidate };
        if contains_request(resident, &request) {
            return Some(request);
        }
        match candidate.parent() {
            Some(parent) => {
                candidate = parent;
            },
            None => {
                return None;
            },
        }
    }
}

/// Selects resident assets that may be evicted without removing any currently requested
/// fine tile or its fallback ancestry, in increasing order.
pub fn stale_resident_assets(
    retained: &[TileAssetRequest],
    resident: &[TileAssetRequest],
) -> (r: Vec<TileAssetRequest>)
    requires
        strictly_increasing(retained@),
        strictly_increasing(resident@),
    ensures
        r@ == without(resident@, retained@),
        strictly_increasing(r@),
{
    let mut stale: Vec<TileAssetRequest> = Vec::new();
    let mut i: usize = 0;
    while i < resident.len()
        invariant
            i <= resident@.len(),
            stale@ == without(resident@.take(i as int), retained@),
            strictly_increasing(resident@),
            strictly_increasing(stale@),
            forall|k: int|
                0 <= k < stale@.len() ==> exists|m: int| 0 <= m < i && #[trigger] stale@[k] == resident@[m],
        decreases resident@.len() - i,
    {
        let request = resident[i];
        let ghost previous = stale@;
        proof {
            assert(resident@.take(i + 1).drop_last() =~= resident@.take(i as int));
            assert(resident@.take(i + 1).last() == request);
        }
        if !contains_request(retained, &request) {
            stale.push(request);
            proof {
                assert forall|a: int, b: int| 0 <= a < b < stale@.len() implies request_lt(
                    stale@[a],
                    stale@[b],
                ) by {
                    if b == previous.len() {
                        assert(stale@[a] == previous[a]);
                        let m = choose|m: int| 0 <= m < i && previous[a] == resident@[m];
                        assert(request_lt(resident@[m], resident@[i as int]));
                    } else {
                        assert(stale@[a] == previous[a]);
                        assert(stale@[b] == previous[b]);
                    }
                }
                assert forall|k: int| 0 <= k < stale@.len() implies exists|m: int|
                    0 <= m < i + 1 && #[trigger] stale@[k] == resident@[m] by {
                    if k == previous.len() {
                        assert(stale@[k] == resident@[i as int]);
                    } else {
                        assert(stale@[k] == previous[k]);
                        let m = choose|m: int| 0 <= m < i && previous[k] == resident@[m];
                        assert(stale@[k] == resident@[m]);
                    }
                }
            }
        }
        i += 1;
    }
    proof {
        assert(resident@.take(i as int) =~= resident@);
    }
    stale
}

/// A stale asset is resident and not retained, and every resident asset that is not retained
/// is stale.
pub proof fn lemma_stale_assets_are_exactly_the_unretained(
    retained: Seq<TileAssetRequest>,
    resident: Seq<TileAssetRequest>,
)
    ensures
        forall|q: TileAssetRequest|
            without(resident, retained).contains(q) <==> (resident.contains(q) && !retained.contains(q)),
    decreases resident.len(),
{
    if resident.len() > 0 {
        let earlier = resident.drop_last();
        lemma_stale_assets_are_exactly_the_unretained(retained, earlier);
        assert forall|q: TileAssetRequest|
            without(resident, retained).contains(q) <==> (resident.contains(q) && !retained.contains(q)) by {
            if resident.contains(q) && q != resident.last() {
                let k = choose|k: int| 0 <= k < resident.len() && resident[k] == q;
                assert(earlier[k] == q);
            }
            if earlier.contains(q) {
                let k = choose|k: int| 0 <= k < earlier.len() && earlier[k] == q;
                assert(resident[k] == q);
            }
            if without(resident, retained).contains(q) && !without(earlier, retained).contains(q) {
                assert(without(resident, retained) == without(earlier, retained).push(resident.last()));
                let k = choose|k: int| 0 <= k < without(resident, retained).len() && without(resident, retained)[k] == q;
                assert(k == without(earlier, retained).len());
            }
            if without(earlier, retained).contains(q) {
                let k = choose|k: int| 0 <= k < without(earlier, retained).len() && without(earlier, retained)[k] == q;
                if !retained.contains(resident.last()) {
                    assert(without(resident, retained)[k] == q);
                }
            }
            if q == resident.last() && !retained.contains(q) {
                assert(without(resident, retained)[without(earlier, retained).len() as int] == q);
            }
        }
    }
}

/// The request of `tile` in `layer`.
pub open spec fn request_for(layer: TileLayer, tile: TileId) -> TileAssetRequest {
    TileAssetRequest { layer, tile }
}

/// The tile followed by its ancestors, finest first.
pub open spec fn coverage_chain(tile: TileId) -> Seq<TileId> {
    seq![tile] + ancestors(tile)
}

/// Coverage is the first resident request along the chain from the tile to the root: found
/// whenever the tile or any ancestor is resident in the layer, the tile itself when it is
/// resident, and never skipping a finer resident ancestor.
pub proof fn lemma_coverage_is_the_finest_resident(
    tile: TileId,
    layer: TileLayer,
    resident: Seq<TileAssetRequest>,
)
    ensures
        resident.contains(request_for(layer, tile)) ==> finest_coverage(tile, layer, resident)
            == Some(request_for(layer, tile)),
        forall|k: int|
            0 <= k < ancestors(tile).len() && resident.contains(
                request_for(layer, #[trigger] ancestors(tile)[k]),
            ) ==> finest_coverage(tile, layer, resident) is Some,
        finest_coverage(tile, layer, resident) matches Some(found) ==> exists|k: int|
            0 <= k < coverage_chain(tile).len() && found == request_for(layer, #[trigger] coverage_chain(tile)[k]) && resident.contains(found) && forall|j: int|
                0 <= j < k ==> !resident.contains(
                    request_for(layer, #[trigger] coverage_chain(tile)[j]),
                ),
        finest_coverage(tile, layer, resident) is None ==> forall|k: int|
            0 <= k < coverage_chain(tile).len() ==> !resident.contains(
                request_for(layer, #[trigger] coverage_chain(tile)[k]),
            ),
    decreases tile.level,
{
    let chain = coverage_chain(tile);
    assert(chain[0] == tile);
    if tile.level == 0 {
        assert(ancestors(tile) =~= Seq::<TileId>::empty());
        assert(chain.len() == 1);
    } else {
        let parent = TileId { face: tile.face, level: (tile.level - 1) as u8, x: tile.x / 2, y: tile.y / 2 };
        lemma_coverage_is_the_finest_resident(parent, layer, resident);
        assert(ancestors(tile) == seq![parent] + ancestors(parent));
        let rest = coverage_chain(parent);
        assert(chain =~= seq![tile] + rest);
        assert forall|k: int|
            0 <= k < ancestors(tile).len() && resident.contains(
                request_for(layer, #[trigger] ancestors(tile)[k]),
            ) implies finest_coverage(tile, layer, resident) is Some by {
            assert(ancestors(tile)[k] == rest[k]);
            if k > 0 {
                assert(rest[k] == ancestors(parent)[k - 1]);
            }
        }
        if !resident.contains(request_for(layer, tile)) {
            if let Some(found) = finest_coverage(parent, layer, resident) {
                let k = choose|k: int|
                    0 <= k < rest.len() && found == request_for(layer, #[trigger] rest[k])
                        && resident.contains(found) && forall|j: int|
                        0 <= j < k ==> !resident.contains(
                            request_for(layer, #[trigger] rest[j]),
                        );
                assert(chain[k + 1] == rest[k]);
                assert forall|j: int| 0 <= j < k + 1 implies !resident.contains(
                    request_for(layer, #[trigger] chain[j]),
                ) by {
                    if j > 0 {
                        assert(chain[j] == rest[j - 1]);
                    }
                }
            } else {
                assert forall|k: int| 0 <= k < chain.len() implies !resident.contains(
                    request_for(layer, #[trigger] chain[k]),
                ) by {
                    if k > 0 {
                        assert(chain[k] == rest[k - 1]);
                    }
                }
            }
        }
    }
}

/// The coverage of a tile is a resident request of the asked layer for the tile itself or
/// for one of its ancestors, the same ancestors a streaming plan keeps as fallback.
pub proof fn lemma_coverage_is_the_tile_or_an_ancestor(
    tile: TileId,
    layer: TileLayer,
    resident: Seq<TileAssetRequest>,
)
    ensures
        finest_coverage(tile, layer, resident) matches Some(request) ==> {
            &&& resident.contains(request)
            &&& request.layer == layer
            &&& request.tile == tile || ancestors(tile).contains(request.tile)
        },
    decreases tile.level,
{
    if !resident.contains(TileAssetRequest { layer, tile }) && tile.level > 0 {
        let parent = TileId { face: tile.face, level: (tile.level - 1) as u8, x: tile.x / 2, y: tile.y / 2 };
        lemma_coverage_is_the_tile_or_an_ancestor(parent, layer, resident);
        assert(ancestors(tile) == seq![parent] + ancestors(parent));
        if let Some(request) = finest_coverage(parent, layer, resident) {
            if request.tile == parent {
                assert(ancestors(tile)[0] == parent);
            } else {
                let k = choose|k: int| 0 <= k < ancestors(parent).len() && ancestors(parent)[k] == request.tile;
                assert(ancestors(tile)[k + 1] == request.tile);
            }
        }
    }
}

/// New requests are never resident or in flight, never exceed the budget, and come from the
/// plan in the plan's order.
pub proof fn lemma_requested_are_missing_and_bounded(
    ordered: Seq<TileAssetRequest>,
    resident: Seq<TileAssetRequest>,
    in_flight: Seq<TileAssetRequest>,
    budget: int,
)
    requires
        budget >= 0,
    ensures
        at_most(not_loaded(ordered, resident, in_flight), budget).len() <= budget,
        forall|q: TileAssetRequest|
            at_most(not_loaded(ordered, resident, in_flight), budget).contains(q) ==> ordered.contains(q)
                && !resident.contains(q) && !in_flight.contains(q),
{
    lemma_not_loaded_members(ordered, resident, in_flight);
    let all = not_loaded(ordered, resident, in_flight);
    assert forall|q: TileAssetRequest| at_most(all, budget).contains(q) implies all.contains(q) by {
        let k = choose|k: int| 0 <= k < at_most(all, budget).len() && at_most(all, budget)[k] == q;
        assert(all[k] == q);
    }
}

proof fn lemma_not_loaded_members(
    ordered: Seq<TileAssetRequest>,
    resident: Seq<TileAssetRequest>,
    in_flight: Seq<TileAssetRequest>,
)
    ensures
        forall|q: TileAssetRequest|
            not_loaded(ordered, resident, in_flight).contains(q) ==> ordered.contains(q)
                && !resident.contains(q) && !in_flight.contains(q),
    decreases ordered.len(),
{
    if ordered.len() > 0 {
        let earlier = ordered.drop_last();
        lemma_not_loaded_members(earlier, resident, in_flight);
        assert forall|q: TileAssetRequest| not_loaded(ordered, resident, in_flight).contains(q)
            implies ordered.contains(q) && !resident.contains(q) && !in_flight.contains(q) by {
            let nl = not_loaded(ordered, resident, in_flight);
            let k = choose|k: int| 0 <= k < nl.len() && nl[k] == q;
            let e = not_loaded(earlier, resident, in_flight);
            if k < e.len() {
                assert(e[k] == q);
                assert(e.contains(q));
                assert(earlier.contains(q) && !resident.contains(q) && !in_flight.contains(q));
                let m = choose|m: int| 0 <= m < earlier.len() && earlier[m] == q;
                assert(ordered[m] == q);
            } else {
                assert(nl == e.push(ordered.last()));
                assert(q == ordered.last());
                assert(ordered[ordered.len() - 1] == q);
            }
        }
    }
}

} // verus!
