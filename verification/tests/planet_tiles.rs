use black_cube_gallery::planet_tiles::{
    streaming_plan_for, working_set_around, CubeFace, MAX_STREAMING_LEVEL, TileAssetRequest,
    TileId, TileLayer,
};

#[test]
fn tile_hierarchy_round_trips_through_parent() {
    let tile = TileId::new(CubeFace::PositiveZ, 5, 11, 19).expect("valid tile");
    let children = tile.children().expect("children below maximum level");
    for child in children {
        assert_eq!(child.parent(), Some(tile));
    }
}

#[test]
fn tile_offsets_cross_cube_faces_without_changing_level() {
    let edge = TileId::new(CubeFace::PositiveZ, 4, 0, 7).expect("valid edge tile");
    let neighbor = edge.offset(-1, 0).expect("cross-face neighbor");
    assert_ne!(neighbor.face, edge.face);
    assert_eq!(neighbor.level, edge.level);
}

#[test]
fn tile_asset_paths_are_stable_and_layer_specific() {
    let tile = TileId::new(CubeFace::PositiveZ, 6, 17, 42).expect("valid tile");
    assert_eq!(
        TileAssetRequest {
            layer: TileLayer::Surface,
            tile,
        }
        .path(),
        "./assets/earth/tiles/surface/pz/6/17/42.webp"
    );
    assert_eq!(
        TileAssetRequest {
            layer: TileLayer::Elevation,
            tile,
        }
        .path(),
        "./assets/earth/tiles/elevation/pz/6/17/42.png"
    );
}

#[test]
fn tile_ids_reject_indices_outside_the_face_and_levels_beyond_the_maximum() {
    assert!(TileId::new(CubeFace::NegativeY, 2, 3, 3).is_some());
    assert!(TileId::new(CubeFace::NegativeY, 2, 4, 0).is_none());
    assert!(TileId::new(CubeFace::NegativeY, MAX_STREAMING_LEVEL + 1, 0, 0).is_none());
    let finest = TileId::new(CubeFace::PositiveX, MAX_STREAMING_LEVEL, 0, 0).expect("valid tile");
    assert!(finest.children().is_none());
    let root = TileId::new(CubeFace::PositiveX, 0, 0, 0).expect("valid tile");
    assert!(root.parent().is_none());
}

#[test]
fn zero_offset_returns_the_tile_itself() {
    for face in [
        CubeFace::PositiveX,
        CubeFace::NegativeX,
        CubeFace::PositiveY,
        CubeFace::NegativeY,
        CubeFace::PositiveZ,
        CubeFace::NegativeZ,
    ] {
        let tile = TileId::new(face, 7, 100, 3).expect("valid tile");
        assert_eq!(tile.offset(0, 0), Some(tile));
        assert_eq!(
            tile.offset(1, 0),
            Some(TileId { x: 101, ..tile })
        );
    }
}

#[test]
fn neighbour_across_the_left_edge_of_positive_z_is_on_negative_x() {
    let edge = TileId::new(CubeFace::PositiveZ, 4, 0, 7).expect("valid edge tile");
    assert_eq!(
        edge.offset(-1, 0),
        Some(TileId {
            face: CubeFace::NegativeX,
            level: 4,
            x: 15,
            y: 7
        })
    );
}

#[test]
fn paths_print_multi_digit_indices() {
    let tile = TileId::new(CubeFace::NegativeX, 18, 262_143, 0).expect("valid tile");
    assert_eq!(
        TileAssetRequest {
            layer: TileLayer::Surface,
            tile,
        }
        .path(),
        "./assets/earth/tiles/surface/nx/18/262143/0.webp"
    );
}

fn tile(face: CubeFace, level: u8, x: u32, y: u32) -> TileId {
    TileId::new(face, level, x, y).expect("valid tile")
}

#[test]
fn interior_working_set_is_the_sorted_square_around_the_centre() {
    let center = tile(CubeFace::PositiveZ, 3, 4, 4);
    let tiles = working_set_around(center, 1);
    let mut expected = Vec::new();
    for x in 3..=5 {
        for y in 3..=5 {
            expected.push(tile(CubeFace::PositiveZ, 3, x, y));
        }
    }
    assert_eq!(tiles, expected);
}

#[test]
fn working_set_radius_is_capped() {
    let center = tile(CubeFace::NegativeY, MAX_STREAMING_LEVEL, 1000, 1000);
    let tiles = working_set_around(center, u8::MAX);
    assert_eq!(tiles.len(), 81);
    assert_eq!(working_set_around(center, 0), vec![center]);
    let mut sorted = tiles.clone();
    sorted.sort();
    sorted.dedup();
    assert_eq!(sorted, tiles);
}

#[test]
fn working_set_near_a_corner_spans_faces_without_repeats() {
    let corner = tile(CubeFace::PositiveX, 2, 0, 0);
    let tiles = working_set_around(corner, 1);
    assert!(tiles.contains(&corner));
    assert!(tiles.iter().all(|t| t.level == 2));
    assert!(tiles.iter().any(|t| t.face != CubeFace::PositiveX));
    assert!(tiles.len() <= 9);
    for pair in tiles.windows(2) {
        assert!(pair[0] < pair[1]);
    }
}

#[test]
fn streaming_plan_lists_every_ancestor_once_coarsest_first() {
    let primary = vec![
        tile(CubeFace::PositiveZ, 2, 0, 0),
        tile(CubeFace::PositiveZ, 2, 1, 1),
        tile(CubeFace::PositiveZ, 2, 2, 3),
    ];
    let plan = streaming_plan_for(primary.clone());
    assert_eq!(plan.level, 2);
    assert_eq!(plan.primary, primary);
    assert_eq!(
        plan.fallback,
        vec![
            tile(CubeFace::PositiveZ, 0, 0, 0),
            tile(CubeFace::PositiveZ, 1, 0, 0),
            tile(CubeFace::PositiveZ, 1, 1, 1),
        ]
    );
    let requests = plan.requests(TileLayer::Elevation);
    assert_eq!(requests.len(), 6);
    assert_eq!(requests[0].tile.level, 0);
    assert_eq!(requests[3].tile, primary[0]);
}

#[test]
fn streaming_plan_orders_fallback_by_level_then_face() {
    let primary = vec![tile(CubeFace::PositiveX, 1, 1, 0), tile(CubeFace::NegativeZ, 1, 0, 1)];
    let plan = streaming_plan_for(primary);
    assert_eq!(
        plan.fallback,
        vec![tile(CubeFace::PositiveX, 0, 0, 0), tile(CubeFace::NegativeZ, 0, 0, 0)]
    );
}

#[test]
fn empty_streaming_plan_sits_at_the_root_level() {
    let plan = streaming_plan_for(Vec::new());
    assert_eq!(plan.level, 0);
    assert!(plan.primary.is_empty() && plan.fallback.is_empty());
}
