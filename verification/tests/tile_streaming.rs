use black_cube_gallery::planet_tiles::{
    CubeFace, TileAssetRequest, TileId, TileLayer, TileStreamingPlan,
};
use black_cube_gallery::tile_streaming::{
    finest_resident_coverage, plan_tile_loads, stale_resident_assets,
};

fn request(layer: TileLayer, tile: TileId) -> TileAssetRequest {
    TileAssetRequest { layer, tile }
}

fn tile(level: u8, x: u32, y: u32) -> TileId {
    TileId::new(CubeFace::PositiveZ, level, x, y).expect("valid tile")
}

#[test]
fn finest_coverage_prefers_child_over_parent() {
    let child = TileId::new(CubeFace::PositiveZ, 4, 7, 9).expect("valid child");
    let parent = child.parent().expect("parent");
    let grandparent = parent.parent().expect("grandparent");
    let layer = TileLayer::Surface;
    let resident = vec![
        request(layer, grandparent),
        request(layer, parent),
        request(layer, child),
    ];
    assert_eq!(
        finest_resident_coverage(child, layer, &resident),
        Some(request(layer, child))
    );
}

#[test]
fn finest_coverage_falls_back_through_ancestors() {
    let child = TileId::new(CubeFace::NegativeX, 5, 3, 17).expect("valid child");
    let parent = child.parent().expect("parent");
    let resident = vec![request(TileLayer::Elevation, parent)];
    assert_eq!(
        finest_resident_coverage(child, TileLayer::Elevation, &resident),
        Some(request(TileLayer::Elevation, parent))
    );
    assert_eq!(
        finest_resident_coverage(child, TileLayer::Surface, &resident),
        None
    );
}

#[test]
fn stale_selection_preserves_only_current_working_set_assets() {
    let tile_a = TileId::new(CubeFace::PositiveZ, 2, 1, 1).expect("tile a");
    let tile_b = TileId::new(CubeFace::PositiveZ, 2, 2, 1).expect("tile b");
    let keep = request(TileLayer::Surface, tile_a);
    let stale = request(TileLayer::Surface, tile_b);
    let resident = vec![keep, stale];
    let retained = vec![keep];
    assert_eq!(stale_resident_assets(&retained, &resident), vec![stale]);
}

fn plan() -> TileStreamingPlan {
    TileStreamingPlan {
        level: 2,
        primary: vec![tile(2, 1, 1), tile(2, 2, 1), tile(2, 1, 2)],
        fallback: vec![tile(0, 0, 0), tile(1, 0, 0), tile(1, 1, 0), tile(1, 0, 1)],
    }
}

#[test]
fn planner_requests_missing_coarse_tiles_first_within_budget() {
    let plan = plan();
    let delta = plan_tile_loads(&plan, TileLayer::Surface, &[], &[], 4);
    assert_eq!(delta.requested.len(), 4);
    assert!(delta.requested.iter().all(|r| r.tile.level < plan.level));
    assert_eq!(delta.requested[0], request(TileLayer::Surface, tile(0, 0, 0)));
}

#[test]
fn planner_skips_resident_and_in_flight_assets_and_retains_everything() {
    let plan = plan();
    let ordered = plan.requests(TileLayer::Elevation);
    let resident = vec![ordered[0]];
    let in_flight = vec![ordered[1]];
    let delta = plan_tile_loads(&plan, TileLayer::Elevation, &resident, &in_flight, 3);
    assert_eq!(delta.requested, ordered[2..5].to_vec());
    assert_eq!(delta.retained.len(), ordered.len());
    assert!(delta.retained.contains(&ordered[0]));
    assert!(delta.retained.contains(&ordered[1]));
    assert!(delta.retained.windows(2).all(|pair| pair[0] < pair[1]));
}

#[test]
fn zero_budget_requests_nothing() {
    let plan = plan();
    let delta = plan_tile_loads(&plan, TileLayer::Surface, &[], &[], 0);
    assert!(delta.requested.is_empty());
    assert_eq!(delta.retained.len(), 7);
}

#[test]
fn requests_list_fallback_before_primary() {
    let plan = plan();
    let requests = plan.requests(TileLayer::Surface);
    assert_eq!(requests.len(), 7);
    assert!(requests[..4].iter().all(|r| r.tile.level < 2));
    assert!(requests[4..].iter().all(|r| r.tile.level == 2));
    assert!(requests.iter().all(|r| r.layer == TileLayer::Surface));
}
