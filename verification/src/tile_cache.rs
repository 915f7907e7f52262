//! Deterministic fixed-slot residency cache for streamed Earth texture tiles.
//!
//! Every resident asset owns one slot of a fixed-size texture array. Reserving a slot for a
//! new asset takes the lowest vacant slot, or evicts the least recently used asset when the
//! cache is full (ties go to the lower slot).

use vstd::prelude::*;
use vstd::set_lib::{lemma_int_range, lemma_len_subset, set_int_range};
use crate::planet_tiles::{
    TileAssetRequest, lemma_request_lt_total, lemma_request_lt_transitive, request_less, request_lt,
};

verus! {

#[derive(Clone, Copy, Debug, PartialEq, Eq)]
pub enum SlotReservation {
    Resident { slot: u16 },
    Vacant { slot: u16 },
    Evicted { slot: u16, previous: TileAssetRequest },
}

impl SlotReservation {
    /// The slot that the reservation grants.
    pub open spec fn slot(self) -> u16 {
        match self {
            SlotReservation::Resident { slot } => slot,
            SlotReservation::Vacant { slot } => slot,
            SlotReservation::Evicted { slot, .. } => slot,
        }
    }
}

#[derive(Clone, Copy, Debug, PartialEq, Eq)]
struct Entry {
    request: TileAssetRequest,
    slot: u16,
    last_used_tick: u64,
}

#[derive(Clone, Debug, PartialEq, Eq)]
pub struct ResidentTileCache {
    capacity: u16,
    tick: u64,
    /// Resident assets, strictly increasing by request.
    entries: Vec<Entry>,
}

/// Slot and last-use tick of each resident asset.
pub type Residency = Map<TileAssetRequest, (u16, u64)>;

spec fn entries_map(s: Seq<Entry>) -> Residency
    decreases s.len(),
{
    if s.len() == 0 {
        Map::empty()
    } else {
        entries_map(s.drop_last()).insert(
            s.last().request,
            (s.last().slot, s.last().last_used_tick),
        )
    }
}

spec fn slot_occupied(s: Seq<Entry>, slot: u16) -> bool {
    exists|k: int| 0 <= k < s.len() && (#[trigger] s[k]).slot == slot
}

spec fn distinct_requests(s: Seq<Entry>) -> bool {
    forall|i: int, j: int|
        0 <= i < s.len() && 0 <= j < s.len() && i != j ==> s[i].request != s[j].request
}

spec fn sorted_requests(s: Seq<Entry>) -> bool {
    forall|i: int, j: int| 0 <= i < j < s.len() ==> request_lt(s[i].request, s[j].request)
}

/// No resident asset occupies `slot`.
pub open spec fn slot_is_free(residency: Residency, slot: u16) -> bool {
    forall|r: TileAssetRequest| residency.contains_key(r) ==> residency[r].0 != slot
}

/// `victim` has the smallest (last-use tick, slot) pair among the resident assets.
pub open spec fn is_least_recently_used(residency: Residency, victim: TileAssetRequest) -> bool {
    &&& residency.contains_key(victim)
    &&& forall|r: TileAssetRequest|
        residency.contains_key(r) ==> {
            ||| residency[victim].1 < residency[r].1
            ||| (residency[victim].1 == residency[r].1 && residency[victim].0 <= residency[r].0)
        }
}

pub open spec fn saturating_next(tick: u64) -> u64 {
    if tick == u64::MAX {
        tick
    } else {
        (tick + 1) as u64
    }
}

proof fn lemma_sorted_distinct(s: Seq<Entry>)
    requires
        sorted_requests(s),
    ensures
        distinct_requests(s),
{
    assert forall|i: int, j: int|
        0 <= i < s.len() && 0 <= j < s.len() && i != j implies s[i].request != s[j].request by {
        if i < j {
            assert(request_lt(s[i].request, s[j].request));
        } else {
            assert(request_lt(s[j].request, s[i].request));
        }
    }
}

proof fn lemma_entries_map(s: Seq<Entry>)
    requires
        distinct_requests(s),
    ensures
        entries_map(s).dom().finite(),
        entries_map(s).dom().len() == s.len(),
        forall|r: TileAssetRequest|
            entries_map(s).contains_key(r) <==> exists|i: int|
                0 <= i < s.len() && (#[trigger] s[i]).request == r,
        forall|i: int|
            0 <= i < s.len() ==> entries_map(s)[(#[trigger] s[i]).request] == (
                s[i].slot,
                s[i].last_used_tick,
            ),
    decreases s.len(),
{
    if s.len() > 0 {
        let rest = s.drop_last();
        assert(distinct_requests(rest));
        lemma_entries_map(rest);
        assert forall|r: TileAssetRequest|
            entries_map(s).contains_key(r) <==> exists|i: int|
                0 <= i < s.len() && (#[trigger] s[i]).request == r by {
            if entries_map(s).contains_key(r) && r != s.last().request {
                let i = choose|i: int| 0 <= i < rest.len() && (#[trigger] rest[i]).request == r;
                assert(s[i] == rest[i]);
            }
            if exists|i: int| 0 <= i < s.len() && (#[trigger] s[i]).request == r {
                let i = choose|i: int| 0 <= i < s.len() && (#[trigger] s[i]).request == r;
                if i < s.len() - 1 {
                    assert(rest[i] == s[i]);
                }
            }
        }
        assert forall|i: int| 0 <= i < s.len() implies entries_map(s)[(#[trigger] s[i]).request]
            == (s[i].slot, s[i].last_used_tick) by {
            if i < s.len() - 1 {
                assert(rest[i] == s[i]);
                assert(s[i].request != s.last().request);
            }
        }
        assert(!entries_map(rest).contains_key(s.last().request)) by {
            if entries_map(rest).contains_key(s.last().request) {
                let i = choose|i: int|
                    0 <= i < rest.len() && (#[trigger] rest[i]).request == s.last().request;
                assert(s[i] == rest[i]);
            }
        }
    }
}

proof fn lemma_map_update_at(s: Seq<Entry>, k: int, e: Entry)
    requires
        distinct_requests(s),
        0 <= k < s.len(),
        e.request == s[k].request,
    ensures
        distinct_requests(s.update(k, e)),
        entries_map(s.update(k, e)) == entries_map(s).insert(e.request, (e.slot, e.last_used_tick)),
{
    let t = s.update(k, e);
    assert(distinct_requests(t));
    lemma_entries_map(s);
    lemma_entries_map(t);
    let expected = entries_map(s).insert(e.request, (e.slot, e.last_used_tick));
    assert forall|r: TileAssetRequest| #[trigger] entries_map(t).contains_key(r) <==> expected.contains_key(r) by {
        if expected.contains_key(r) && r != e.request {
            let i = choose|i: int| 0 <= i < s.len() && (#[trigger] s[i]).request == r;
            assert(t[i] == s[i]);
        }
        if r == e.request {
            assert(t[k] == e);
        }
        if entries_map(t).contains_key(r) {
            let i = choose|i: int| 0 <= i < t.len() && (#[trigger] t[i]).request == r;
            if i != k {
                assert(t[i] == s[i]);
            }
        }
    }
    assert forall|r: TileAssetRequest| #[trigger] entries_map(t).contains_key(r) implies entries_map(t)[r] == expected[r] by {
        let i = choose|i: int| 0 <= i < t.len() && (#[trigger] t[i]).request == r;
        if i != k {
            assert(t[i] == s[i]);
        }
    }
    assert(entries_map(t) =~= expected);
}

proof fn lemma_map_remove_at(s: Seq<Entry>, k: int)
    requires
        sorted_requests(s),
        0 <= k < s.len(),
    ensures
        sorted_requests(s.remove(k)),
        entries_map(s.remove(k)) == entries_map(s).remove(s[k].request),
{
    let t = s.remove(k);
    assert forall|i: int, j: int| 0 <= i < j < t.len() implies request_lt(
        t[i].request,
        t[j].request,
    ) by {
        let si = if i < k { i } else { i + 1 };
        let sj = if j < k { j } else { j + 1 };
        assert(t[i] == s[si]);
        assert(t[j] == s[sj]);
    }
    lemma_sorted_distinct(s);
    lemma_sorted_distinct(t);
    lemma_entries_map(s);
    lemma_entries_map(t);
    let expected = entries_map(s).remove(s[k].request);
    assert forall|r: TileAssetRequest| #[trigger] entries_map(t).contains_key(r) <==> expected.contains_key(r) by {
        if expected.contains_key(r) {
            let i = choose|i: int| 0 <= i < s.len() && (#[trigger] s[i]).request == r;
            assert(i != k);
            if i < k {
                assert(t[i] == s[i]);
            } else {
                assert(t[i - 1] == s[i]);
            }
        }
        if entries_map(t).contains_key(r) {
            let i = choose|i: int| 0 <= i < t.len() && (#[trigger] t[i]).request == r;
            let si = if i < k { i } else { i + 1 };
            assert(t[i] == s[si]);
        }
    }
    assert forall|r: TileAssetRequest| #[trigger] entries_map(t).contains_key(r) implies entries_map(t)[r] == expected[r] by {
        let i = choose|i: int| 0 <= i < t.len() && (#[trigger] t[i]).request == r;
        let si = if i < k { i } else { i + 1 };
        assert(t[i] == s[si]);
    }
    assert(entries_map(t) =~= expected);
}

proof fn lemma_map_insert_at(s: Seq<Entry>, p: int, e: Entry)
    requires
        distinct_requests(s),
        0 <= p <= s.len(),
        forall|i: int| 0 <= i < s.len() ==> (#[trigger] s[i]).request != e.request,
    ensures
        distinct_requests(s.insert(p, e)),
        entries_map(s.insert(p, e)) == entries_map(s).insert(e.request, (e.slot, e.last_used_tick)),
{
    let t = s.insert(p, e);
    assert forall|i: int, j: int|
        0 <= i < t.len() && 0 <= j < t.len() && i != j implies t[i].request != t[j].request by {
        if i != p && j != p {
            let si = if i < p { i } else { i - 1 };
            let sj = if j < p { j } else { j - 1 };
            assert(t[i] == s[si]);
            assert(t[j] == s[sj]);
        } else if i == p {
            let sj = if j < p { j } else { j - 1 };
            assert(t[j] == s[sj]);
        } else {
            let si = if i < p { i } else { i - 1 };
            assert(t[i] == s[si]);
        }
    }
    lemma_entries_map(s);
    lemma_entries_map(t);
    let expected = entries_map(s).insert(e.request, (e.slot, e.last_used_tick));
    assert forall|r: TileAssetRequest| #[trigger] entries_map(t).contains_key(r) <==> expected.contains_key(r) by {
        if expected.contains_key(r) {
            if r == e.request {
                assert(t[p] == e);
            } else {
                let i = choose|i: int| 0 <= i < s.len() && (#[trigger] s[i]).request == r;
                if i < p {
                    assert(t[i] == s[i]);
                } else {
                    assert(t[i + 1] == s[i]);
                }
            }
        }
        if entries_map(t).contains_key(r) {
            let i = choose|i: int| 0 <= i < t.len() && (#[trigger] t[i]).request == r;
            if i != p {
                let si = if i < p { i } else { i - 1 };
                assert(t[i] == s[si]);
            }
        }
    }
    assert forall|r: TileAssetRequest| #[trigger] entries_map(t).contains_key(r) implies entries_map(t)[r] == expected[r] by {
        let i = choose|i: int| 0 <= i < t.len() && (#[trigger] t[i]).request == r;
        if i != p {
            let si = if i < p { i } else { i - 1 };
            assert(t[i] == s[si]);
        }
    }
    assert(entries_map(t) =~= expected);
}

/// Slots used by distinct entries below `capacity` leave at least one vacancy whenever some
/// slot below `capacity` is unused.
proof fn lemma_vacancy_bounds_len(s: Seq<Entry>, capacity: int, vacant: int)
    requires
        0 <= vacant < capacity,
        forall|i: int| 0 <= i < s.len() ==> (#[trigger] s[i]).slot < capacity,
        forall|i: int| 0 <= i < s.len() ==> (#[trigger] s[i]).slot != vacant,
        forall|i: int, j: int|
            0 <= i < s.len() && 0 <= j < s.len() && i != j ==> s[i].slot != s[j].slot,
    ensures
        s.len() < capacity,
{
    let slots = s.map_values(|e: Entry| e.slot as int);
    assert(slots.no_duplicates()) by {
        assert forall|i: int, j: int|
            0 <= i < slots.len() && 0 <= j < slots.len() && i != j implies slots[i]
            != slots[j] by {
            assert(slots[i] == s[i].slot as int);
            assert(slots[j] == s[j].slot as int);
        }
    }
    slots.unique_seq_to_set();
    let range = set_int_range(0, capacity).remove(vacant);
    lemma_int_range(0, capacity);
    assert(slots.to_set().subset_of(range)) by {
        assert forall|x: int| slots.to_set().contains(x) implies range.contains(x) by {
            let i = choose|i: int| 0 <= i < slots.len() && slots[i] == x;
            assert(slots[i] == s[i].slot as int);
        }
    }
    lemma_len_subset(slots.to_set(), range);
}

impl ResidentTileCache {
    /// Resident assets with their slot and last-use tick.
    pub closed spec fn view(&self) -> Residency {
        entries_map(self.entries@)
    }

    pub closed spec fn spec_capacity(&self) -> nat {
        self.capacity as nat
    }

    /// Logical clock advanced by every use.
    pub closed spec fn spec_tick(&self) -> u64 {
        self.tick
    }

    /// Resident assets are finitely many, at most the capacity, each in its own slot below
    /// the capacity, and none was used after the current tick.
    pub closed spec fn wf(&self) -> bool {
        &&& sorted_requests(self.entries@)
        &&& self.entries@.len() <= self.capacity
        &&& forall|i: int| 0 <= i < self.entries@.len() ==> (#[trigger] self.entries@[i]).slot < self.capacity
        &&& forall|i: int| 0 <= i < self.entries@.len() ==> (#[trigger] self.entries@[i]).last_used_tick <= self.tick
        &&& forall|i: int, j: int|
            0 <= i < self.entries@.len() && 0 <= j < self.entries@.len() && i != j
                ==> self.entries@[i].slot != self.entries@[j].slot
    }

    /// An empty cache with `capacity` slots.
    pub fn new(capacity: u16) -> (r: Self)
        ensures
            r.wf(),
            r@ == Residency::empty(),
            r.spec_capacity() == capacity,
            r.spec_tick() == 0,
    {
        let r = ResidentTileCache { capacity, tick: 0, entries: Vec::new() };
        assert(r@ =~= Residency::empty());
        r
    }

    pub fn capacity(&self) -> (r: usize)
        ensures
            r == self.spec_capacity(),
    {
        self.capacity as usize
    }

    pub fn len(&self) -> (r: usize)
        requires
            self.wf(),
        ensures
            r == self@.len(),
    {
        proof {
            lemma_sorted_distinct(self.entries@);
            lemma_entries_map(self.entries@);
        }
        self.entries.len()
    }

    pub fn is_empty(&self) -> (r: bool)
        requires
            self.wf(),
        ensures
            r == (self@.len() == 0),
    {
        proof {
            lemma_sorted_distinct(self.entries@);
            lemma_entries_map(self.entries@);
        }
        self.entries.len() == 0
    }

    /// Slot of a resident asset.
    pub fn slot_for(&self, request: TileAssetRequest) -> (r: Option<u16>)
        requires
            self.wf(),
        ensures
            r == (if self@.contains_key(request) {
                Some(self@[request].0)
            } else {
                None
            }),
    {
        proof {
            lemma_sorted_distinct(self.entries@);
            lemma_entries_map(self.entries@);
        }
        match self.position_of(&request) {
            Some(i) => Some(self.entries[i].slot),
            None => None,
        }
    }

    /// Resident requests in increasing order.
    pub fn resident_requests(&self) -> (r: Vec<TileAssetRequest>)
        requires
            self.wf(),
        ensures
            r@.len() == self@.len(),
            forall|q: TileAssetRequest| r@.contains(q) <==> self@.contains_key(q),
            forall|i: int, j: int| 0 <= i < j < r@.len() ==> request_lt(r@[i], r@[j]),
    {
        proof {
            lemma_sorted_distinct(self.entries@);
            lemma_entries_map(self.entries@);
        }
        let mut out: Vec<TileAssetRequest> = Vec::new();
        let mut i: usize = 0;
        while i < self.entries.len()
            invariant
                i <= self.entries@.len(),
                out@.len() == i,
                forall|k: int| 0 <= k < i ==> out@[k] == (#[trigger] self.entries@[k]).request,
            decreases self.entries@.len() - i,
        {
            out.push(self.entries[i].request);
            i += 1;
        }
        assert forall|q: TileAssetRequest| out@.contains(q) <==> self@.contains_key(q) by {
            if out@.contains(q) {
                let k = choose|k: int| 0 <= k < out@.len() && out@[k] == q;
                assert(self.entries@[k].request == q);
            }
            if self@.contains_key(q) {
                let k = choose|k: int| 0 <= k < self.entries@.len() && (#[trigger] self.entries@[k]).request == q;
                assert(out@[k] == q);
            }
        }
        assert forall|a: int, b: int| 0 <= a < b < out@.len() implies request_lt(out@[a], out@[b]) by {
            assert(out@[a] == self.entries@[a].request);
            assert(out@[b] == self.entries@[b].request);
        }
        out
    }

    /// Marks a resident asset as used now; unknown assets leave the cache unchanged.
    pub fn touch(&mut self, request: TileAssetRequest) -> (r: bool)
        requires
            old(self).wf(),
        ensures
            final(self).wf(),
            final(self).spec_capacity() == old(self).spec_capacity(),
            r == old(self)@.contains_key(request),
            r ==> final(self).spec_tick() == saturating_next(old(self).spec_tick()) && final(self)@
                == old(self)@.insert(request, (old(self)@[request].0, final(self).spec_tick())),
            !r ==> *final(self) == *old(self),
    {
        proof {
            lemma_sorted_distinct(self.entries@);
            lemma_entries_map(self.entries@);
        }
        match self.position_of(&request) {
            Some(i) => {
                self.tick = if self.tick < u64::MAX { self.tick + 1 } else { self.tick };
                let entry = self.entries[i];
                let updated = Entry { request: entry.request, slot: entry.slot, last_used_tick: self.tick };
                proof {
                    lemma_map_update_at(self.entries@, i as int, updated);
                }
                self.entries.set(i, updated);
                proof {
                    self.lemma_update_keeps_order(old(self).entries@, i as int);
                }
                true
            },
            None => false,
        }
    }

    /// Frees the slot of a resident asset.
    pub fn remove(&mut self, request: TileAssetRequest) -> (r: Option<u16>)
        requires
            old(self).wf(),
        ensures
            final(self).wf(),
            final(self).spec_capacity() == old(self).spec_capacity(),
            final(self).spec_tick() == old(self).spec_tick(),
            r == (if old(self)@.contains_key(request) {
                Some(old(self)@[request].0)
            } else {
                None
            }),
            final(self)@ == old(self)@.remove(request),
    {
        proof {
            lemma_sorted_distinct(self.entries@);
            lemma_entries_map(self.entries@);
        }
        match self.position_of(&request) {
            Some(i) => {
                proof {
                    lemma_map_remove_at(self.entries@, i as int);
                }
                let entry = self.entries.remove(i);
                proof {
                    let s = old(self).entries@;
                    assert forall|a: int| 0 <= a < self.entries@.len() implies (#[trigger] self.entries@[a]).slot < self.capacity
                        && self.entries@[a].last_used_tick <= self.tick by {
                        let sa = if a < i { a } else { a + 1 };
                        assert(self.entries@[a] == s[sa]);
                    }
                    assert forall|a: int, b: int|
                        0 <= a < self.entries@.len() && 0 <= b < self.entries@.len() && a != b
                        implies self.entries@[a].slot != self.entries@[b].slot by {
                        let sa = if a < i { a } else { a + 1 };
                        let sb = if b < i { b } else { b + 1 };
                        assert(self.entries@[a] == s[sa]);
                        assert(self.entries@[b] == s[sb]);
                    }
                }
                Some(entry.slot)
            },
            None => {
                assert(old(self)@.remove(request) =~= old(self)@);
                None
            },
        }
    }

    /// Reserves a texture slot for an asset and marks it used now.
    ///
    /// A resident asset keeps its slot. Otherwise the lowest vacant slot is taken; when no slot
    /// is vacant, the least recently used asset is evicted (the lower slot on equal ticks) and
    /// its slot reused. A cache without slots refuses every new asset.
    pub fn reserve(&mut self, request: TileAssetRequest) -> (r: Option<SlotReservation>)
        requires
            old(self).wf(),
        ensures
            final(self).wf(),
            final(self).spec_capacity() == old(self).spec_capacity(),
            final(self).spec_tick() == saturating_next(old(self).spec_tick()),
            r matches Some(reservation) ==> final(self)@.contains_key(request) && final(self)@[request]
                == (reservation.slot(), final(self).spec_tick()),
            r is None <==> old(self).spec_capacity() == 0 && !old(self)@.contains_key(request),
            match r {
                Some(SlotReservation::Resident { slot }) => {
                    &&& old(self)@.contains_key(request)
                    &&& slot == old(self)@[request].0
                    &&& final(self)@ == old(self)@.insert(request, (slot, final(self).spec_tick()))
                },
                Some(SlotReservation::Vacant { slot }) => {
                    &&& !old(self)@.contains_key(request)
                    &&& slot < old(self).spec_capacity()
                    &&& slot_is_free(old(self)@, slot)
                    &&& forall|lower: u16| lower < slot ==> !slot_is_free(old(self)@, lower)
                    &&& final(self)@ == old(self)@.insert(request, (slot, final(self).spec_tick()))
                },
                Some(SlotReservation::Evicted { slot, previous }) => {
                    &&& !old(self)@.contains_key(request)
                    &&& 0 < old(self).spec_capacity()
                    &&& forall|any: u16|
                        any < old(self).spec_capacity() ==> !slot_is_free(old(self)@, any)
                    &&& is_least_recently_used(old(self)@, previous)
                    &&& slot == old(self)@[previous].0
                    &&& final(self)@ == old(self)@.remove(previous).insert(
                        request,
                        (slot, final(self).spec_tick()),
                    )
                },
                None => {
                    &&& !old(self)@.contains_key(request)
                    &&& old(self).spec_capacity() == 0
                    &&& final(self)@ == old(self)@
                },
            },
    {
        proof {
            lemma_sorted_distinct(self.entries@);
            lemma_entries_map(self.entries@);
        }
        self.tick = if self.tick < u64::MAX { self.tick + 1 } else { self.tick };
        if let Some(i) = self.position_of(&request) {
            let entry = self.entries[i];
            let updated = Entry { request: entry.request, slot: entry.slot, last_used_tick: self.tick };
            proof {
                lemma_map_update_at(self.entries@, i as int, updated);
            }
            self.entries.set(i, updated);
            proof {
                self.lemma_update_keeps_order(old(self).entries@, i as int);
            }
            return Some(SlotReservation::Resident { slot: entry.slot });
        }
        if self.capacity == 0 {
            return None;
        }
        if let Some(slot) = self.lowest_vacant_slot() {
            proof {
                assert forall|lower: u16| lower < slot implies !slot_is_free(old(self)@, lower) by {
                    assert(slot_occupied(self.entries@, lower));
                    let k = choose|k: int| 0 <= k < self.entries@.len() && (#[trigger] self.entries@[k]).slot == lower;
                    assert(self.entries@ == old(self).entries@);
                    assert(old(self)@.contains_key(self.entries@[k].request));
                    assert(old(self)@[self.entries@[k].request].0 == lower);
                }
                assert forall|r: TileAssetRequest| old(self)@.contains_key(r) implies old(self)@[r].0 != slot by {
                    let k = choose|k: int| 0 <= k < self.entries@.len() && (#[trigger] self.entries@[k]).request == r;
                }
                lemma_vacancy_bounds_len(self.entries@, self.capacity as int, slot as int);
            }
            self.insert(request, slot);
            return Some(SlotReservation::Vacant { slot });
        }
        proof {
            assert(self.entries@.len() > 0) by {
                assert(slot_occupied(self.entries@, 0u16));
                let k = choose|k: int| 0 <= k < self.entries@.len() && (#[trigger] self.entries@[k]).slot == 0u16;
            }
            assert forall|any: u16| any < self.capacity implies !slot_is_free(old(self)@, any) by {
                assert(slot_occupied(self.entries@, any));
                let k = choose|k: int| 0 <= k < self.entries@.len() && (#[trigger] self.entries@[k]).slot == any;
                assert(self.entries@ == old(self).entries@);
                assert(old(self)@.contains_key(self.entries@[k].request));
                assert(old(self)@[self.entries@[k].request].0 == any);
            }
        }
        let victim_index = self.least_recently_used_index();
        let ghost before = self.entries@;
        proof {
            lemma_map_remove_at(before, victim_index as int);
            assert forall|r: TileAssetRequest| old(self)@.contains_key(r) implies {
                ||| old(self)@[before[victim_index as int].request].1 < old(self)@[r].1
                ||| (old(self)@[before[victim_index as int].request].1 == old(self)@[r].1
                    && old(self)@[before[victim_index as int].request].0 <= old(self)@[r].0)
            } by {
                let k = choose|k: int| 0 <= k < before.len() && (#[trigger] before[k]).request == r;
            }
        }
        let victim = self.entries.remove(victim_index);
        proof {
            assert forall|a: int| 0 <= a < self.entries@.len() implies (#[trigger] self.entries@[a]).slot < self.capacity
                && self.entries@[a].last_used_tick <= self.tick && self.entries@[a].slot != victim.slot by {
                let sa = if a < victim_index { a } else { a + 1 };
                assert(self.entries@[a] == before[sa]);
            }
            assert forall|a: int, b: int|
                0 <= a < self.entries@.len() && 0 <= b < self.entries@.len() && a != b
                implies self.entries@[a].slot != self.entries@[b].slot by {
                let sa = if a < victim_index { a } else { a + 1 };
                let sb = if b < victim_index { b } else { b + 1 };
                assert(self.entries@[a] == before[sa]);
                assert(self.entries@[b] == before[sb]);
            }
            lemma_sorted_distinct(self.entries@);
            lemma_entries_map(self.entries@);
        }
        self.insert(request, victim.slot);
        Some(SlotReservation::Evicted { slot: victim.slot, previous: victim.request })
    }

    proof fn lemma_update_keeps_order(&self, before: Seq<Entry>, k: int)
        requires
            sorted_requests(before),
            0 <= k < before.len(),
            self.entries@.len() == before.len(),
            self.entries@[k].request == before[k].request,
            self.entries@[k].slot == before[k].slot,
            self.entries@[k].last_used_tick == self.tick,
            forall|i: int| 0 <= i < before.len() && i != k ==> self.entries@[i] == before[i],
            before.len() <= self.capacity,
            forall|i: int| 0 <= i < before.len() ==> (#[trigger] before[i]).slot < self.capacity,
            forall|i: int| 0 <= i < before.len() ==> (#[trigger] before[i]).last_used_tick <= self.tick,
            forall|i: int, j: int|
                0 <= i < before.len() && 0 <= j < before.len() && i != j ==> before[i].slot != before[j].slot,
        ensures
            self.wf(),
    {
        assert forall|i: int, j: int| 0 <= i < j < self.entries@.len() implies request_lt(
            self.entries@[i].request,
            self.entries@[j].request,
        ) by {
            assert(self.entries@[i].request == before[i].request);
            assert(self.entries@[j].request == before[j].request);
        }
        assert forall|i: int| 0 <= i < self.entries@.len() implies (#[trigger] self.entries@[i]).slot
            < self.capacity && self.entries@[i].last_used_tick <= self.tick by {
            assert(self.entries@[i].slot == before[i].slot);
        }
        assert forall|i: int, j: int|
            0 <= i < self.entries@.len() && 0 <= j < self.entries@.len() && i != j
            implies self.entries@[i].slot != self.entries@[j].slot by {
            assert(self.entries@[i].slot == before[i].slot);
            assert(self.entries@[j].slot == before[j].slot);
        }
    }

    /// Index of a resident request.
    fn position_of(&self, request: &TileAssetRequest) -> (r: Option<usize>)
        ensures
            r matches Some(i) ==> i < self.entries@.len() && self.entries@[i as int].request == *request,
            r is None ==> forall|i: int| 0 <= i < self.entries@.len() ==> (#[trigger] self.entries@[i]).request != *request,
    {
        let mut i: usize = 0;
        while i < self.entries.len()
            invariant
                i <= self.entries@.len(),
                forall|k: int| 0 <= k < i ==> (#[trigger] self.entries@[k]).request != *request,
            decreases self.entries@.len() - i,
        {
            if self.entries[i].request == *request {
                return Some(i);
            }
            i += 1;
        }
        None
    }

    fn slot_in_use(&self, slot: u16) -> (r: bool)
        ensures
            r == slot_occupied(self.entries@, slot),
    {
        let mut i: usize = 0;
        while i < self.entries.len()
            invariant
                i <= self.entries@.len(),
                forall|k: int| 0 <= k < i ==> (#[trigger] self.entries@[k]).slot != slot,
            decreases self.entries@.len() - i,
        {
            if self.entries[i].slot == slot {
                return true;
            }
            i += 1;
        }
        false
    }

    /// The lowest slot below the capacity that no entry occupies.
    fn lowest_vacant_slot(&self) -> (r: Option<u16>)
        ensures
            r matches Some(slot) ==> {
                &&& slot < self.capacity
                &&& forall|k: int| 0 <= k < self.entries@.len() ==> (#[trigger] self.entries@[k]).slot != slot
                &&& forall|lower: u16| lower < slot ==> #[trigger] slot_occupied(self.entries@, lower)
            },
            r is None ==> forall|any: u16| any < self.capacity ==> #[trigger] slot_occupied(self.entries@, any),
    {
        let mut slot: u16 = 0;
        while slot < self.capacity
            invariant
                slot <= self.capacity,
                forall|lower: u16| lower < slot ==> #[trigger] slot_occupied(self.entries@, lower),
            decreases self.capacity - slot,
        {
            if !self.slot_in_use(slot) {
                return Some(slot);
            }
            slot += 1;
        }
        None
    }

    /// Index of the entry with the smallest (last-use tick, slot) pair.
    fn least_recently_used_index(&self) -> (r: usize)
        requires
            self.entries@.len() > 0,
        ensures
            r < self.entries@.len(),
            forall|k: int| 0 <= k < self.entries@.len() ==> {
                ||| self.entries@[r as int].last_used_tick < (#[trigger] self.entries@[k]).last_used_tick
                ||| (self.entries@[r as int].last_used_tick == self.entries@[k].last_used_tick
                    && self.entries@[r as int].slot <= self.entries@[k].slot)
            },
    {
        let mut best: usize = 0;
        let mut i: usize = 1;
        while i < self.entries.len()
            invariant
                1 <= i <= self.entries@.len(),
                best < i,
                forall|k: int| 0 <= k < i ==> {
                    ||| self.entries@[best as int].last_used_tick < (#[trigger] self.entries@[k]).last_used_tick
                    ||| (self.entries@[best as int].last_used_tick == self.entries@[k].last_used_tick
                        && self.entries@[best as int].slot <= self.entries@[k].slot)
                },
            decreases self.entries@.len() - i,
        {
            let candidate = self.entries[i];
            let current = self.entries[best];
            if candidate.last_used_tick < current.last_used_tick || (candidate.last_used_tick
                == current.last_used_tick && candidate.slot < current.slot) {
                best = i;
            }
            i += 1;
        }
        best
    }

    /// Inserts a new entry for `request` at its sorted position, used now.
    fn insert(&mut self, request: TileAssetRequest, slot: u16)
        requires
            sorted_requests(old(self).entries@),
            old(self).entries@.len() < old(self).capacity,
            slot < old(self).capacity,
            forall|i: int| 0 <= i < old(self).entries@.len() ==> (#[trigger] old(self).entries@[i]).request != request,
            forall|i: int| 0 <= i < old(self).entries@.len() ==> (#[trigger] old(self).entries@[i]).slot != slot,
            forall|i: int| 0 <= i < old(self).entries@.len() ==> (#[trigger] old(self).entries@[i]).slot < old(self).capacity,
            forall|i: int| 0 <= i < old(self).entries@.len() ==> (#[trigger] old(self).entries@[i]).last_used_tick <= old(self).tick,
            forall|i: int, j: int|
                0 <= i < old(self).entries@.len() && 0 <= j < old(self).entries@.len() && i != j
                    ==> old(self).entries@[i].slot != old(self).entries@[j].slot,
        ensures
            final(self).wf(),
            final(self).capacity == old(self).capacity,
            final(self).tick == old(self).tick,
            final(self)@ == old(self)@.insert(request, (slot, old(self).tick)),
    {
        let mut p: usize = 0;
        let mut found = false;
        while !found && p < self.entries.len()
            invariant
                p <= self.entries@.len(),
                self.entries@ == old(self).entries@,
                forall|i: int| 0 <= i < self.entries@.len() ==> (#[trigger] self.entries@[i]).request != request,
                forall|k: int| 0 <= k < p ==> request_lt((#[trigger] self.entries@[k]).request, request),
                found ==> p < self.entries@.len() && request_lt(request, self.entries@[p as int].request),
            decreases self.entries@.len() - p, if found { 0int } else { 1int },
        {
            if request_less(&request, &self.entries[p].request) {
                found = true;
            } else {
                proof {
                    let e = self.entries@[p as int].request;
                    assert(e != request);
                    lemma_request_lt_total(e, request);
                }
                p += 1;
            }
        }
        let ghost before = self.entries@;
        let entry = Entry { request, slot, last_used_tick: self.tick };
        proof {
            lemma_sorted_distinct(before);
            lemma_map_insert_at(before, p as int, entry);
        }
        self.entries.insert(p, entry);
        proof {
            let t = self.entries@;
            assert(p < before.len() ==> request_lt(request, before[p as int].request));
            assert forall|i: int, j: int| 0 <= i < j < t.len() implies request_lt(t[i].request, t[j].request) by {
                if j < p {
                    assert(t[i] == before[i] && t[j] == before[j]);
                } else if j == p {
                    assert(t[i] == before[i]);
                } else if i < p {
                    assert(t[i] == before[i] && t[j] == before[j - 1]);
                    lemma_request_lt_transitive(before[i].request, request, before[p as int].request);
                    if j - 1 > p {
                        lemma_request_lt_transitive(before[i].request, before[p as int].request, before[j - 1].request);
                    }
                } else if i == p {
                    assert(t[j] == before[j - 1]);
                    if j - 1 > p {
                        lemma_request_lt_transitive(request, before[p as int].request, before[j - 1].request);
                    }
                } else {
                    assert(t[i] == before[i - 1] && t[j] == before[j - 1]);
                }
            }
            assert forall|a: int| 0 <= a < t.len() implies (#[trigger] t[a]).slot < self.capacity
                && t[a].last_used_tick <= self.tick by {
                if a != p {
                    let sa = if a < p { a } else { a - 1 };
                    assert(t[a] == before[sa]);
                }
            }
            assert forall|a: int, b: int| 0 <= a < t.len() && 0 <= b < t.len() && a != b implies t[a].slot != t[b].slot by {
                if a != p && b != p {
                    let sa = if a < p { a } else { a - 1 };
                    let sb = if b < p { b } else { b - 1 };
                    assert(t[a] == before[sa] && t[b] == before[sb]);
                } else if a == p {
                    let sb = if b < p { b } else { b - 1 };
                    assert(t[b] == before[sb]);
                } else {
                    let sa = if a < p { a } else { a - 1 };
                    assert(t[a] == before[sa]);
                }
            }
        }
    }
}

/// A well-formed cache has at most `u16::MAX` slots, never holds more assets than it has
/// slots, and its resident assets occupy pairwise different slots below the capacity.
pub proof fn lemma_residency_fits_slots(cache: &ResidentTileCache)
    requires
        cache.wf(),
    ensures
        cache.spec_capacity() <= u16::MAX,
        cache@.dom().finite(),
        cache@.len() <= cache.spec_capacity(),
        forall|r: TileAssetRequest| #[trigger] cache@.contains_key(r) ==> cache@[r].0 < cache.spec_capacity(),
        forall|a: TileAssetRequest, b: TileAssetRequest|
            cache@.contains_key(a) && cache@.contains_key(b) && a != b ==> cache@[a].0 != cache@[b].0,
        forall|r: TileAssetRequest| #[trigger] cache@.contains_key(r) ==> cache@[r].1 <= cache.spec_tick(),
{
    let s = cache.entries@;
    lemma_sorted_distinct(s);
    lemma_entries_map(s);
    assert forall|r: TileAssetRequest| #[trigger] cache@.contains_key(r) implies cache@[r].0 < cache.spec_capacity()
        && cache@[r].1 <= cache.spec_tick() by {
        let i = choose|i: int| 0 <= i < s.len() && (#[trigger] s[i]).request == r;
    }
    assert forall|a: TileAssetRequest, b: TileAssetRequest|
        cache@.contains_key(a) && cache@.contains_key(b) && a != b implies cache@[a].0 != cache@[b].0 by {
        let i = choose|i: int| 0 <= i < s.len() && (#[trigger] s[i]).request == a;
        let j = choose|j: int| 0 <= j < s.len() && (#[trigger] s[j]).request == b;
    }
}

} // verus!
