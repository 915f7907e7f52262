use black_cube_gallery::planet_tiles::{CubeFace, TileAssetRequest, TileId, TileLayer};
use black_cube_gallery::tile_cache::{ResidentTileCache, SlotReservation};

fn request(x: u32) -> TileAssetRequest {
    TileAssetRequest {
        layer: TileLayer::Surface,
        tile: TileId::new(CubeFace::PositiveZ, 3, x, 0).expect("valid tile"),
    }
}

#[test]
fn zero_capacity_refuses_reservations() {
    let mut cache = ResidentTileCache::new(0);
    assert_eq!(cache.reserve(request(0)), None);
    assert!(cache.is_empty());
}

#[test]
fn vacant_slots_are_allocated_in_stable_order() {
    let mut cache = ResidentTileCache::new(3);
    assert_eq!(
        cache.reserve(request(0)),
        Some(SlotReservation::Vacant { slot: 0 })
    );
    assert_eq!(
        cache.reserve(request(1)),
        Some(SlotReservation::Vacant { slot: 1 })
    );
    assert_eq!(cache.slot_for(request(1)), Some(1));
}

#[test]
fn reserving_resident_asset_refreshes_without_moving_it() {
    let mut cache = ResidentTileCache::new(2);
    cache.reserve(request(0));
    cache.reserve(request(1));
    assert_eq!(
        cache.reserve(request(0)),
        Some(SlotReservation::Resident { slot: 0 })
    );
    assert_eq!(
        cache.reserve(request(2)),
        Some(SlotReservation::Evicted {
            slot: 1,
            previous: request(1),
        })
    );
}

#[test]
fn least_recently_used_asset_is_evicted() {
    let mut cache = ResidentTileCache::new(2);
    cache.reserve(request(0));
    cache.reserve(request(1));
    cache.touch(request(0));
    assert_eq!(
        cache.reserve(request(2)),
        Some(SlotReservation::Evicted {
            slot: 1,
            previous: request(1),
        })
    );
    assert_eq!(cache.slot_for(request(0)), Some(0));
    assert_eq!(cache.slot_for(request(2)), Some(1));
}

#[test]
fn removal_reuses_the_freed_slot() {
    let mut cache = ResidentTileCache::new(2);
    cache.reserve(request(0));
    cache.reserve(request(1));
    assert_eq!(cache.remove(request(0)), Some(0));
    assert_eq!(
        cache.reserve(request(2)),
        Some(SlotReservation::Vacant { slot: 0 })
    );
}

#[test]
fn resident_iteration_is_unique() {
    let mut cache = ResidentTileCache::new(4);
    cache.reserve(request(2));
    cache.reserve(request(0));
    cache.reserve(request(1));
    let resident = cache.resident_requests();
    assert_eq!(resident.len(), 3);
    assert!(resident.windows(2).all(|pair| pair[0] < pair[1]));
}

#[test]
fn reserved_slot_is_found_again_and_len_stays_within_capacity() {
    let mut cache = ResidentTileCache::new(3);
    for x in 0..7 {
        let reservation = cache.reserve(request(x)).expect("cache has slots");
        let slot = match reservation {
            SlotReservation::Resident { slot }
            | SlotReservation::Vacant { slot }
            | SlotReservation::Evicted { slot, .. } => slot,
        };
        assert_eq!(cache.slot_for(request(x)), Some(slot));
        assert!(cache.len() <= cache.capacity());
    }
    assert_eq!(cache.len(), 3);
    let mut slots: Vec<u16> = cache
        .resident_requests()
        .into_iter()
        .map(|resident| cache.slot_for(resident).expect("resident"))
        .collect();
    slots.sort();
    assert_eq!(slots, vec![0, 1, 2]);
}

#[test]
fn eviction_ties_prefer_the_lower_slot_and_unknown_assets_are_untouched() {
    let mut cache = ResidentTileCache::new(2);
    cache.reserve(request(5));
    cache.reserve(request(6));
    assert!(!cache.touch(request(7)));
    assert_eq!(cache.remove(request(7)), None);
    assert_eq!(
        cache.reserve(request(7)),
        Some(SlotReservation::Evicted {
            slot: 0,
            previous: request(5),
        })
    );
    assert_eq!(cache.slot_for(request(5)), None);
}
