//! Cube-sphere quadtree addressing for multiscale Earth surface streaming.
//!
//! A tile is addressed by a cube face, a quadtree level and integer column/row indices.
//! Neighbour lookups are computed with exact integer arithmetic on the face plane.

use vstd::prelude::*;
use vstd::arithmetic::power2::{pow2, lemma2_to64, lemma_pow2_strictly_increases};
use vstd::bits::{lemma_u32_shl_is_mul, lemma_u32_pow2_no_overflow};
use vstd::string::StringExecFns;

verus! {

pub const MAX_STREAMING_LEVEL: u8 = 18;

pub const MAX_WORKING_SET_RADIUS_TILES: u8 = 4;

#[derive(Clone, Copy, Debug, PartialEq, Eq, Hash, PartialOrd, Ord, Structural)]
pub enum CubeFace {
    PositiveX,
    NegativeX,
    PositiveY,
    NegativeY,
    PositiveZ,
    NegativeZ,
}

/// Declaration order of the faces, which is also their sort order.
pub open spec fn face_rank(face: CubeFace) -> int {
    match face {
        CubeFace::PositiveX => 0,
        CubeFace::NegativeX => 1,
        CubeFace::PositiveY => 2,
        CubeFace::NegativeY => 3,
        CubeFace::PositiveZ => 4,
        CubeFace::NegativeZ => 5,
    }
}

pub open spec fn face_slug(face: CubeFace) -> Seq<char> {
    match face {
        CubeFace::PositiveX => seq!['p', 'x'],
        CubeFace::NegativeX => seq!['n', 'x'],
        CubeFace::PositiveY => seq!['p', 'y'],
        CubeFace::NegativeY => seq!['n', 'y'],
        CubeFace::PositiveZ => seq!['p', 'z'],
        CubeFace::NegativeZ => seq!['n', 'z'],
    }
}

impl CubeFace {
    /// Two-letter directory name of the face.
    pub fn slug(self) -> (r: &'static str)
        ensures
            r@ == face_slug(self),
    {
        match self {
            CubeFace::PositiveX => {
                proof {
                    reveal_strlit("px");
                }
                "px"
            },
            CubeFace::NegativeX => {
                proof {
                    reveal_strlit("nx");
                }
                "nx"
            },
            CubeFace::PositiveY => {
                proof {
                    reveal_strlit("py");
                }
                "py"
            },
            CubeFace::NegativeY => {
                proof {
                    reveal_strlit("ny");
                }
                "ny"
            },
            CubeFace::PositiveZ => {
                proof {
                    reveal_strlit("pz");
                }
                "pz"
            },
            CubeFace::NegativeZ => {
                proof {
                    reveal_strlit("nz");
                }
                "nz"
            },
        }
    }
}

#[derive(Clone, Copy, Debug, PartialEq, Eq, Hash, PartialOrd, Ord, Structural)]
pub struct TileId {
    pub face: CubeFace,
    pub level: u8,
    pub x: u32,
    pub y: u32,
}

/// Number of tiles along one edge of a cube face at `level`.
pub open spec fn tiles_per_edge(level: nat) -> nat {
    pow2(level)
}

/// A tile that `TileId::new` accepts: a streamable level and indices inside the face.
pub open spec fn is_valid_tile(tile: TileId) -> bool {
    &&& tile.level <= MAX_STREAMING_LEVEL
    &&& tile.x < tiles_per_edge(tile.level as nat)
    &&& tile.y < tiles_per_edge(tile.level as nat)
}

/// Strict sort order of tiles: face, then level, then column, then row.
pub open spec fn tile_lt(a: TileId, b: TileId) -> bool {
    ||| face_rank(a.face) < face_rank(b.face)
    ||| (face_rank(a.face) == face_rank(b.face) && a.level < b.level)
    ||| (face_rank(a.face) == face_rank(b.face) && a.level == b.level && a.x < b.x)
    ||| (face_rank(a.face) == face_rank(b.face) && a.level == b.level && a.x == b.x && a.y
        < b.y)
}

pub open spec fn spec_parent(tile: TileId) -> Option<TileId> {
    if tile.level > 0 {
        Some(TileId { face: tile.face, level: (tile.level - 1) as u8, x: tile.x / 2, y: tile.y / 2 })
    } else {
        None
    }
}

/// The four quadrants of `tile` one level finer, in row-major order.
pub open spec fn spec_children(tile: TileId) -> Seq<TileId> {
    let level = (tile.level + 1) as u8;
    let x = (tile.x * 2) as u32;
    let y = (tile.y * 2) as u32;
    seq![
        TileId { face: tile.face, level, x, y },
        TileId { face: tile.face, level, x: (x + 1) as u32, y },
        TileId { face: tile.face, level, x, y: (y + 1) as u32 },
        TileId { face: tile.face, level, x: (x + 1) as u32, y: (y + 1) as u32 },
    ]
}

/// Face-plane coordinate, in units of half a tile, of the centre of tile `index`
/// moved by `steps` tiles, measured from the face centre.
pub open spec fn stepped_center(index: int, steps: int, side: int) -> int {
    2 * (index + steps) + 1 - side
}

/// Point of the cube `[-side, side]^3` (scaled by `side`) with face-plane coordinates `(u, v)`
/// on `face`, using the same orientation as the renderer's cube-sphere mapping.
pub open spec fn cube_point(face: CubeFace, u: int, v: int, side: int) -> (int, int, int) {
    match face {
        CubeFace::PositiveX => (side, v, -u),
        CubeFace::NegativeX => (-side, v, u),
        CubeFace::PositiveY => (u, side, -v),
        CubeFace::NegativeY => (u, -side, v),
        CubeFace::PositiveZ => (u, v, side),
        CubeFace::NegativeZ => (-u, v, -side),
    }
}

pub open spec fn abs(value: int) -> int {
    if value < 0 {
        -value
    } else {
        value
    }
}

/// Central projection of a cube point onto its dominant face: the face, the two face-plane
/// numerators and their common denominator (the dominant magnitude). Ties prefer x, then y.
pub open spec fn dominant_face(point: (int, int, int)) -> (CubeFace, int, int, int) {
    let (px, py, pz) = point;
    let ax = abs(px);
    let ay = abs(py);
    let az = abs(pz);
    if ax >= ay && ax >= az {
        if px >= 0 {
            (CubeFace::PositiveX, -pz, py, ax)
        } else {
            (CubeFace::NegativeX, pz, py, ax)
        }
    } else if ay >= az {
        if py >= 0 {
            (CubeFace::PositiveY, px, -pz, ay)
        } else {
            (CubeFace::NegativeY, px, pz, ay)
        }
    } else if pz >= 0 {
        (CubeFace::PositiveZ, px, py, az)
    } else {
        (CubeFace::NegativeZ, -px, py, az)
    }
}

/// Index of the tile containing face-plane coordinate `numerator / denominator` in [-1, 1]
/// on a face with `side` tiles per edge; the far edge belongs to the last tile.
pub open spec fn coordinate_index(numerator: int, denominator: int, side: int) -> int {
    let index = (numerator + denominator) * side / (2 * denominator);
    if index > side - 1 {
        side - 1
    } else {
        index
    }
}

/// The tile reached from `tile` by moving its centre `x_steps` and `y_steps` tile widths along
/// its face, remapped onto the neighbouring face when the moved point leaves the face.
pub open spec fn spec_offset(tile: TileId, x_steps: int, y_steps: int) -> Option<TileId> {
    if tile.level > MAX_STREAMING_LEVEL {
        None
    } else {
        let side = tiles_per_edge(tile.level as nat) as int;
        let u = stepped_center(tile.x as int, x_steps, side);
        let v = stepped_center(tile.y as int, y_steps, side);
        let (face, a, b, m) = dominant_face(cube_point(tile.face, u, v, side));
        Some(
            TileId {
                face,
                level: tile.level,
                x: coordinate_index(a, m, side) as u32,
                y: coordinate_index(b, m, side) as u32,
            },
        )
    }
}

proof fn lemma_side_bounds(level: nat)
    requires
        level <= MAX_STREAMING_LEVEL,
    ensures
        1 <= tiles_per_edge(level) <= 0x40000,
{
    lemma2_to64();
    if level < 18 {
        lemma_pow2_strictly_increases(level, 18);
    }
    vstd::arithmetic::power2::lemma_pow2_pos(level);
}

/// Tiles per edge at a streamable level.
fn side_for_level(level: u8) -> (side: u32)
    requires
        level <= MAX_STREAMING_LEVEL,
    ensures
        side as nat == tiles_per_edge(level as nat),
        1 <= side <= 0x40000,
{
    proof {
        lemma_side_bounds(level as nat);
        lemma_u32_pow2_no_overflow(level as nat);
        lemma_u32_shl_is_mul(1, level as u32);
    }
    1u32 << (level as u32)
}

impl TileId {
    /// Accepts only streamable levels and indices inside the face.
    pub fn new(face: CubeFace, level: u8, x: u32, y: u32) -> (r: Option<TileId>)
        ensures
            r == (if level <= MAX_STREAMING_LEVEL && x < tiles_per_edge(level as nat) && y
                < tiles_per_edge(level as nat) {
                Some(TileId { face, level, x, y })
            } else {
                None
            }),
    {
        if level > MAX_STREAMING_LEVEL {
            return None;
        }
        let side = side_for_level(level);
        if x < side && y < side {
            Some(TileId { face, level, x, y })
        } else {
            None
        }
    }

    /// The tile one level coarser that covers this one; none at the root level.
    pub fn parent(self) -> (r: Option<TileId>)
        ensures
            r == spec_parent(self),
    {
        if self.level > 0 {
            Some(TileId { face: self.face, level: self.level - 1, x: self.x / 2, y: self.y / 2 })
        } else {
            None
        }
    }

    /// The four quadrants one level finer, or none at the finest streamable level.
    pub fn children(self) -> (r: Option<[TileId; 4]>)
        requires
            self.level < MAX_STREAMING_LEVEL ==> self.x < 0x8000_0000 && self.y < 0x8000_0000,
        ensures
            r is Some <==> self.level < MAX_STREAMING_LEVEL,
            r matches Some(children) ==> children@ == spec_children(self),
    {
        if self.level >= MAX_STREAMING_LEVEL {
            return None;
        }
        let level = self.level + 1;
        let x = self.x * 2;
        let y = self.y * 2;
        let children = [
            TileId { face: self.face, level, x, y },
            TileId { face: self.face, level, x: x + 1, y },
            TileId { face: self.face, level, x, y: y + 1 },
            TileId { face: self.face, level, x: x + 1, y: y + 1 },
        ];
        assert(children@ =~= spec_children(self));
        Some(children)
    }

    /// Moves by tile-sized steps and remaps through neighbouring cube faces when needed.
    pub fn offset(self, x_steps: i32, y_steps: i32) -> (r: Option<TileId>)
        ensures
            r == spec_offset(self, x_steps as int, y_steps as int),
    {
        if self.level > MAX_STREAMING_LEVEL {
            return None;
        }
        let side32 = side_for_level(self.level);
        let side = side32 as i64;
        let u = 2 * (self.x as i64 + x_steps as i64) + 1 - side;
        let v = 2 * (self.y as i64 + y_steps as i64) + 1 - side;
        let (px, py, pz): (i64, i64, i64) = match self.face {
            CubeFace::PositiveX => (side, v, -u),
            CubeFace::NegativeX => (-side, v, u),
            CubeFace::PositiveY => (u, side, -v),
            CubeFace::NegativeY => (u, -side, v),
            CubeFace::PositiveZ => (u, v, side),
            CubeFace::NegativeZ => (-u, v, -side),
        };
        let ax = if px < 0 { -px } else { px };
        let ay = if py < 0 { -py } else { py };
        let az = if pz < 0 { -pz } else { pz };
        let (face, a, b, m): (CubeFace, i64, i64, i64) = if ax >= ay && ax >= az {
            if px >= 0 {
                (CubeFace::PositiveX, -pz, py, ax)
            } else {
                (CubeFace::NegativeX, pz, py, ax)
            }
        } else if ay >= az {
            if py >= 0 {
                (CubeFace::PositiveY, px, -pz, ay)
            } else {
                (CubeFace::NegativeY, px, pz, ay)
            }
        } else if pz >= 0 {
            (CubeFace::PositiveZ, px, py, az)
        } else {
            (CubeFace::NegativeZ, -px, py, az)
        };
        assert((face, a as int, b as int, m as int) == dominant_face(
            cube_point(self.face, u as int, v as int, side as int),
        ));
        let x = index_on_face(a, m, side);
        let y = index_on_face(b, m, side);
        Some(TileId { face, level: self.level, x, y })
    }
}

/// Exact tile index of the face-plane coordinate `numerator / denominator`.
fn index_on_face(numerator: i64, denominator: i64, side: i64) -> (index: u32)
    requires
        1 <= side <= 0x40000,
        side <= denominator <= 0x4_0000_0000,
        -denominator <= numerator <= denominator,
    ensures
        index as int == coordinate_index(numerator as int, denominator as int, side as int),
        index < side,
{
    let shifted = numerator + denominator;
    assert(0 <= shifted * side <= 0x8_0000_0000 * 0x40000) by (nonlinear_arith)
        requires
            0 <= shifted <= 0x8_0000_0000,
            1 <= side <= 0x40000,
    ;
    let product = shifted * side;
    let divisor = 2 * denominator;
    assert(product / divisor >= 0) by (nonlinear_arith)
        requires
            product >= 0,
            divisor > 0,
    ;
    let index = product / divisor;
    if index > side - 1 {
        (side - 1) as u32
    } else {
        index as u32
    }
}

/// Every child of a tile above the finest level has that tile as its parent.
pub proof fn lemma_children_round_trip_through_parent(tile: TileId)
    requires
        tile.level < MAX_STREAMING_LEVEL,
        tile.x < 0x8000_0000,
        tile.y < 0x8000_0000,
    ensures
        forall|i: int| 0 <= i < 4 ==> spec_parent(#[trigger] spec_children(tile)[i]) == Some(tile),
{
}

/// The children of a valid tile are valid tiles, and the parent of a valid tile is valid.
pub proof fn lemma_hierarchy_preserves_validity(tile: TileId)
    requires
        is_valid_tile(tile),
    ensures
        tile.level < MAX_STREAMING_LEVEL ==> forall|i: int|
            0 <= i < 4 ==> is_valid_tile(#[trigger] spec_children(tile)[i]),
        spec_parent(tile) matches Some(parent) ==> is_valid_tile(parent),
{
    vstd::arithmetic::power2::lemma_pow2_unfold((tile.level + 1) as nat);
    if tile.level > 0 {
        vstd::arithmetic::power2::lemma_pow2_unfold(tile.level as nat);
    }
    lemma_side_bounds(tile.level as nat);
}

/// Moving a streamable tile by any number of steps stays on the same level and lands on a
/// valid tile.
pub proof fn lemma_offset_stays_on_level(tile: TileId, x_steps: int, y_steps: int)
    requires
        tile.level <= MAX_STREAMING_LEVEL,
    ensures
        spec_offset(tile, x_steps, y_steps) matches Some(moved) && moved.level == tile.level
            && is_valid_tile(moved),
{
    let side = tiles_per_edge(tile.level as nat) as int;
    lemma_side_bounds(tile.level as nat);
    let u = stepped_center(tile.x as int, x_steps, side);
    let v = stepped_center(tile.y as int, y_steps, side);
    let (face, a, b, m) = dominant_face(cube_point(tile.face, u, v, side));
    assert(m >= side);
    lemma_coordinate_index_in_range(a, m, side);
    lemma_coordinate_index_in_range(b, m, side);
}

proof fn lemma_coordinate_index_in_range(numerator: int, denominator: int, side: int)
    requires
        1 <= side,
        side <= denominator,
        -denominator <= numerator <= denominator,
    ensures
        0 <= coordinate_index(numerator, denominator, side) < side,
{
    let shifted = numerator + denominator;
    assert((numerator + denominator) * side / (2 * denominator) >= 0) by (nonlinear_arith)
        requires
            shifted >= 0,
            side >= 1,
            denominator >= 1,
            shifted == numerator + denominator,
    ;
}

/// A zero offset returns the tile itself.
pub proof fn lemma_zero_offset_is_identity(tile: TileId)
    requires
        is_valid_tile(tile),
    ensures
        spec_offset(tile, 0, 0) == Some(tile),
{
    let side = tiles_per_edge(tile.level as nat) as int;
    lemma_side_bounds(tile.level as nat);
    let u = stepped_center(tile.x as int, 0, side);
    let v = stepped_center(tile.y as int, 0, side);
    assert(-side < u < side);
    assert(-side < v < side);
    lemma_centered_index(tile.x as int, side);
    lemma_centered_index(tile.y as int, side);
}


/// Face-plane index of the tile whose centre is one tile beyond a face edge, seen from the
/// neighbouring face: along the shared edge the index is kept or mirrored, across it the
/// tile touches the edge.
proof fn lemma_edge_coordinates(side: int, k: int)
    requires
        1 <= side,
        0 <= k < side,
    ensures
        coordinate_index(2 * k + 1 - side, side + 1, side) == k,
        coordinate_index(-(2 * k + 1 - side), side + 1, side) == side - 1 - k,
        coordinate_index(side, side + 1, side) == side - 1,
        coordinate_index(-side, side + 1, side) == 0,
{
    let d = 2 * (side + 1);
    assert((2 * k + 1 - side + side + 1) * side == k * d + (2 * side - 2 * k)) by (nonlinear_arith)
        requires
            d == 2 * (side + 1),
    ;
    vstd::arithmetic::div_mod::lemma_fundamental_div_mod_converse(
        (2 * k + 1 - side + side + 1) * side,
        d,
        k,
        2 * side - 2 * k,
    );
    assert((-(2 * k + 1 - side) + side + 1) * side == (side - 1 - k) * d + (2 * k + 2))
        by (nonlinear_arith)
        requires
            d == 2 * (side + 1),
    ;
    vstd::arithmetic::div_mod::lemma_fundamental_div_mod_converse(
        (-(2 * k + 1 - side) + side + 1) * side,
        d,
        side - 1 - k,
        2 * k + 2,
    );
    assert((side + side + 1) * side == (side - 1) * d + (side + 2)) by (nonlinear_arith)
        requires
            d == 2 * (side + 1),
    ;
    vstd::arithmetic::div_mod::lemma_fundamental_div_mod_converse(
        (side + side + 1) * side,
        d,
        side - 1,
        side + 2,
    );
    assert((-side + side + 1) * side == 0 * d + side) by (nonlinear_arith);
    vstd::arithmetic::div_mod::lemma_fundamental_div_mod_converse(
        (-side + side + 1) * side,
        d,
        0,
        side,
    );
}

/// Moving within a face keeps the face and moves the column and row by exactly the steps.
pub proof fn lemma_offset_within_face(tile: TileId, x_steps: int, y_steps: int)
    requires
        is_valid_tile(tile),
        0 <= tile.x + x_steps < tiles_per_edge(tile.level as nat),
        0 <= tile.y + y_steps < tiles_per_edge(tile.level as nat),
    ensures
        spec_offset(tile, x_steps, y_steps) == Some(
            TileId {
                face: tile.face,
                level: tile.level,
                x: (tile.x + x_steps) as u32,
                y: (tile.y + y_steps) as u32,
            },
        ),
{
    let side = tiles_per_edge(tile.level as nat) as int;
    lemma_side_bounds(tile.level as nat);
    lemma_centered_index(tile.x + x_steps, side);
    lemma_centered_index(tile.y + y_steps, side);
}

/// Stepping off an edge of the +X face lands on the adjacent face in the tile that touches
/// that edge, as the renderer's cube-sphere mapping joins the faces.
pub proof fn lemma_edges_of_positive_x(tile: TileId, side: int)
    requires
        is_valid_tile(tile),
        tile.face == CubeFace::PositiveX,
        side == tiles_per_edge(tile.level as nat),
    ensures
        tile.x == 0 ==> spec_offset(tile, -1, 0) == Some(
            TileId { face: CubeFace::PositiveZ, level: tile.level, x: (side - 1) as u32, y: (tile.y) as u32 },
        ),
        tile.x == side - 1 ==> spec_offset(tile, 1, 0) == Some(
            TileId { face: CubeFace::NegativeZ, level: tile.level, x: (0) as u32, y: (tile.y) as u32 },
        ),
        tile.y == 0 ==> spec_offset(tile, 0, -1) == Some(
            TileId { face: CubeFace::NegativeY, level: tile.level, x: (side - 1) as u32, y: (side - 1 - tile.x) as u32 },
        ),
        tile.y == side - 1 ==> spec_offset(tile, 0, 1) == Some(
            TileId { face: CubeFace::PositiveY, level: tile.level, x: (side - 1) as u32, y: (tile.x) as u32 },
        ),
{
    lemma_side_bounds(tile.level as nat);
    lemma_edge_coordinates(side, tile.x as int);
    lemma_edge_coordinates(side, tile.y as int);
}

/// Stepping off an edge of the -X face lands on the adjacent face in the tile that touches
/// that edge, as the renderer's cube-sphere mapping joins the faces.
pub proof fn lemma_edges_of_negative_x(tile: TileId, side: int)
    requires
        is_valid_tile(tile),
        tile.face == CubeFace::NegativeX,
        side == tiles_per_edge(tile.level as nat),
    ensures
        tile.x == 0 ==> spec_offset(tile, -1, 0) == Some(
            TileId { face: CubeFace::NegativeZ, level: tile.level, x: (side - 1) as u32, y: (tile.y) as u32 },
        ),
        tile.x == side - 1 ==> spec_offset(tile, 1, 0) == Some(
            TileId { face: CubeFace::PositiveZ, level: tile.level, x: (0) as u32, y: (tile.y) as u32 },
        ),
        tile.y == 0 ==> spec_offset(tile, 0, -1) == Some(
            TileId { face: CubeFace::NegativeY, level: tile.level, x: (0) as u32, y: (tile.x) as u32 },
        ),
        tile.y == side - 1 ==> spec_offset(tile, 0, 1) == Some(
            TileId { face: CubeFace::PositiveY, level: tile.level, x: (0) as u32, y: (side - 1 - tile.x) as u32 },
        ),
{
    lemma_side_bounds(tile.level as nat);
    lemma_edge_coordinates(side, tile.x as int);
    lemma_edge_coordinates(side, tile.y as int);
}

/// Stepping off an edge of the +Y face lands on the adjacent face in the tile that touches
/// that edge, as the renderer's cube-sphere mapping joins the faces.
pub proof fn lemma_edges_of_positive_y(tile: TileId, side: int)
    requires
        is_valid_tile(tile),
        tile.face == CubeFace::PositiveY,
        side == tiles_per_edge(tile.level as nat),
    ensures
        tile.x == 0 ==> spec_offset(tile, -1, 0) == Some(
            TileId { face: CubeFace::NegativeX, level: tile.level, x: (side - 1 - tile.y) as u32, y: (side - 1) as u32 },
        ),
        tile.x == side - 1 ==> spec_offset(tile, 1, 0) == Some(
            TileId { face: CubeFace::PositiveX, level: tile.level, x: (tile.y) as u32, y: (side - 1) as u32 },
        ),
        tile.y == 0 ==> spec_offset(tile, 0, -1) == Some(
            TileId { face: CubeFace::PositiveZ, level: tile.level, x: (tile.x) as u32, y: (side - 1) as u32 },
        ),
        tile.y == side - 1 ==> spec_offset(tile, 0, 1) == Some(
            TileId { face: CubeFace::NegativeZ, level: tile.level, x: (side - 1 - tile.x) as u32, y: (side - 1) as u32 },
        ),
{
    lemma_side_bounds(tile.level as nat);
    lemma_edge_coordinates(side, tile.x as int);
    lemma_edge_coordinates(side, tile.y as int);
}

/// Stepping off an edge of the -Y face lands on the adjacent face in the tile that touches
/// that edge, as the renderer's cube-sphere mapping joins the faces.
pub proof fn lemma_edges_of_negative_y(tile: TileId, side: int)
    requires
        is_valid_tile(tile),
        tile.face == CubeFace::NegativeY,
        side == tiles_per_edge(tile.level as nat),
    ensures
        tile.x == 0 ==> spec_offset(tile, -1, 0) == Some(
            TileId { face: CubeFace::NegativeX, level: tile.level, x: (tile.y) as u32, y: (0) as u32 },
        ),
        tile.x == side - 1 ==> spec_offset(tile, 1, 0) == Some(
            TileId { face: CubeFace::PositiveX, level: tile.level, x: (side - 1 - tile.y) as u32, y: (0) as u32 },
        ),
        tile.y == 0 ==> spec_offset(tile, 0, -1) == Some(
            TileId { face: CubeFace::NegativeZ, level: tile.level, x: (side - 1 - tile.x) as u32, y: (0) as u32 },
        ),
        tile.y == side - 1 ==> spec_offset(tile, 0, 1) == Some(
            TileId { face: CubeFace::PositiveZ, level: tile.level, x: (tile.x) as u32, y: (0) as u32 },
        ),
{
    lemma_side_bounds(tile.level as nat);
    lemma_edge_coordinates(side, tile.x as int);
    lemma_edge_coordinates(side, tile.y as int);
}

/// Stepping off an edge of the +Z face lands on the adjacent face in the tile that touches
/// that edge, as the renderer's cube-sphere mapping joins the faces.
pub proof fn lemma_edges_of_positive_z(tile: TileId, side: int)
    requires
        is_valid_tile(tile),
        tile.face == CubeFace::PositiveZ,
        side == tiles_per_edge(tile.level as nat),
    ensures
        tile.x == 0 ==> spec_offset(tile, -1, 0) == Some(
            TileId { face: CubeFace::NegativeX, level: tile.level, x: (side - 1) as u32, y: (tile.y) as u32 },
        ),
        tile.x == side - 1 ==> spec_offset(tile, 1, 0) == Some(
            TileId { face: CubeFace::PositiveX, level: tile.level, x: (0) as u32, y: (tile.y) as u32 },
        ),
        tile.y == 0 ==> spec_offset(tile, 0, -1) == Some(
            TileId { face: CubeFace::NegativeY, level: tile.level, x: (tile.x) as u32, y: (side - 1) as u32 },
        ),
        tile.y == side - 1 ==> spec_offset(tile, 0, 1) == Some(
            TileId { face: CubeFace::PositiveY, level: tile.level, x: (tile.x) as u32, y: (0) as u32 },
        ),
{
    lemma_side_bounds(tile.level as nat);
    lemma_edge_coordinates(side, tile.x as int);
    lemma_edge_coordinates(side, tile.y as int);
}

/// Stepping off an edge of the -Z face lands on the adjacent face in the tile that touches
/// that edge, as the renderer's cube-sphere mapping joins the faces.
pub proof fn lemma_edges_of_negative_z(tile: TileId, side: int)
    requires
        is_valid_tile(tile),
        tile.face == CubeFace::NegativeZ,
        side == tiles_per_edge(tile.level as nat),
    ensures
        tile.x == 0 ==> spec_offset(tile, -1, 0) == Some(
            TileId { face: CubeFace::PositiveX, level: tile.level, x: (side - 1) as u32, y: (tile.y) as u32 },
        ),
        tile.x == side - 1 ==> spec_offset(tile, 1, 0) == Some(
            TileId { face: CubeFace::NegativeX, level: tile.level, x: (0) as u32, y: (tile.y) as u32 },
        ),
        tile.y == 0 ==> spec_offset(tile, 0, -1) == Some(
            TileId { face: CubeFace::NegativeY, level: tile.level, x: (side - 1 - tile.x) as u32, y: (0) as u32 },
        ),
        tile.y == side - 1 ==> spec_offset(tile, 0, 1) == Some(
            TileId { face: CubeFace::PositiveY, level: tile.level, x: (side - 1 - tile.x) as u32, y: (side - 1) as u32 },
        ),
{
    lemma_side_bounds(tile.level as nat);
    lemma_edge_coordinates(side, tile.x as int);
    lemma_edge_coordinates(side, tile.y as int);
}

proof fn lemma_centered_index(index: int, side: int)
    requires
        1 <= side,
        0 <= index < side,
    ensures
        coordinate_index(2 * index + 1 - side, side, side) == index,
{
    let n = 2 * index + 1 - side;
    assert((n + side) * side / (2 * side) == index) by (nonlinear_arith)
        requires
            n + side == 2 * index + 1,
            side >= 1,
            index >= 0,
    {
        assert((n + side) * side == (2 * side) * index + side);
        vstd::arithmetic::div_mod::lemma_fundamental_div_mod_converse(
            (n + side) * side,
            2 * side,
            index,
            side,
        );
    }
}

#[derive(Clone, Copy, Debug, PartialEq, Eq, Hash, PartialOrd, Ord, Structural)]
pub enum TileLayer {
    Surface,
    Elevation,
}

pub open spec fn layer_rank(layer: TileLayer) -> int {
    match layer {
        TileLayer::Surface => 0,
        TileLayer::Elevation => 1,
    }
}

pub open spec fn layer_slug(layer: TileLayer) -> Seq<char> {
    match layer {
        TileLayer::Surface => seq!['s', 'u', 'r', 'f', 'a', 'c', 'e'],
        TileLayer::Elevation => seq!['e', 'l', 'e', 'v', 'a', 't', 'i', 'o', 'n'],
    }
}

pub open spec fn layer_extension(layer: TileLayer) -> Seq<char> {
    match layer {
        TileLayer::Surface => seq!['w', 'e', 'b', 'p'],
        TileLayer::Elevation => seq!['p', 'n', 'g'],
    }
}

impl TileLayer {
    /// Directory name of the layer.
    pub fn slug(self) -> (r: &'static str)
        ensures
            r@ == layer_slug(self),
    {
        match self {
            TileLayer::Surface => {
                proof {
                    reveal_strlit("surface");
                }
                "surface"
            },
            TileLayer::Elevation => {
                proof {
                    reveal_strlit("elevation");
                }
                "elevation"
            },
        }
    }

    /// File extension of the layer's encoded images.
    pub fn extension(self) -> (r: &'static str)
        ensures
            r@ == layer_extension(self),
    {
        match self {
            TileLayer::Surface => {
                proof {
                    reveal_strlit("webp");
                }
                "webp"
            },
            TileLayer::Elevation => {
                proof {
                    reveal_strlit("png");
                }
                "png"
            },
        }
    }
}

#[derive(Clone, Copy, Debug, PartialEq, Eq, Hash, PartialOrd, Ord, Structural)]
pub struct TileAssetRequest {
    pub layer: TileLayer,
    pub tile: TileId,
}

/// Strict sort order of requests: layer first, then tile.
pub open spec fn request_lt(a: TileAssetRequest, b: TileAssetRequest) -> bool {
    ||| layer_rank(a.layer) < layer_rank(b.layer)
    ||| (layer_rank(a.layer) == layer_rank(b.layer) && tile_lt(a.tile, b.tile))
}

/// `request_lt` orders any two different requests.
pub proof fn lemma_request_lt_total(a: TileAssetRequest, b: TileAssetRequest)
    requires
        a != b,
    ensures
        request_lt(a, b) || request_lt(b, a),
{
}

/// `request_lt` is transitive.
pub proof fn lemma_request_lt_transitive(a: TileAssetRequest, b: TileAssetRequest, c: TileAssetRequest)
    requires
        request_lt(a, b),
        request_lt(b, c),
    ensures
        request_lt(a, c),
{
}


/// Decides `request_lt`.
pub fn request_less(a: &TileAssetRequest, b: &TileAssetRequest) -> (r: bool)
    ensures
        r == request_lt(*a, *b),
{
    let la = layer_index(a.layer);
    let lb = layer_index(b.layer);
    if la != lb {
        return la < lb;
    }
    let fa = face_index(a.tile.face);
    let fb = face_index(b.tile.face);
    if fa != fb {
        return fa < fb;
    }
    if a.tile.level != b.tile.level {
        return a.tile.level < b.tile.level;
    }
    if a.tile.x != b.tile.x {
        return a.tile.x < b.tile.x;
    }
    a.tile.y < b.tile.y
}

fn layer_index(layer: TileLayer) -> (r: u8)
    ensures
        r as int == layer_rank(layer),
{
    match layer {
        TileLayer::Surface => 0,
        TileLayer::Elevation => 1,
    }
}

fn face_index(face: CubeFace) -> (r: u8)
    ensures
        r as int == face_rank(face),
{
    match face {
        CubeFace::PositiveX => 0,
        CubeFace::NegativeX => 1,
        CubeFace::PositiveY => 2,
        CubeFace::NegativeY => 3,
        CubeFace::PositiveZ => 4,
        CubeFace::NegativeZ => 5,
    }
}

/// Decimal digits of `n`, most significant first, without leading zeros.
pub open spec fn decimal(n: nat) -> Seq<char>
    decreases n,
{
    if n < 10 {
        seq![digit_char(n)]
    } else {
        decimal(n / 10).push(digit_char(n % 10))
    }
}

pub open spec fn digit_char(d: nat) -> char {
    (('0' as nat) + d) as char
}

/// Asset path of a tile image, relative to the site root.
pub open spec fn asset_path(request: TileAssetRequest) -> Seq<char> {
    seq!['.', '/', 'a', 's', 's', 'e', 't', 's', '/', 'e', 'a', 'r', 't', 'h', '/', 't', 'i', 'l', 'e', 's', '/']
        + layer_slug(request.layer) + seq!['/'] + face_slug(request.tile.face) + seq!['/']
        + decimal(request.tile.level as nat) + seq!['/'] + decimal(request.tile.x as nat)
        + seq!['/'] + decimal(request.tile.y as nat) + seq!['.'] + layer_extension(
        request.layer,
    )
}

/// Directory name of each face in the asset tree, written out face by face.
pub open spec fn face_directory(face: CubeFace) -> Seq<char> {
    if face == CubeFace::PositiveX {
        "px"@
    } else if face == CubeFace::NegativeX {
        "nx"@
    } else if face == CubeFace::PositiveY {
        "py"@
    } else if face == CubeFace::NegativeY {
        "ny"@
    } else if face == CubeFace::PositiveZ {
        "pz"@
    } else {
        "nz"@
    }
}

/// Value of a string of decimal digits.
pub open spec fn digits_value(digits: Seq<char>) -> int
    decreases digits.len(),
{
    if digits.len() == 0 {
        0
    } else {
        digits_value(digits.drop_last()) * 10 + (digits.last() as int - '0' as int)
    }
}

/// `decimal(n)` is the usual decimal numeral of `n`: only digits, no leading zero, and it
/// reads back as `n`.
pub proof fn lemma_decimal_reads_back(n: nat)
    ensures
        decimal(n).len() >= 1,
        forall|i: int| 0 <= i < decimal(n).len() ==> '0' <= #[trigger] decimal(n)[i] <= '9',
        n > 0 ==> decimal(n)[0] != '0',
        digits_value(decimal(n)) == n,
    decreases n,
{
    assert(digit_char(n % 10) as int == '0' as int + n % 10);
    if n >= 10 {
        lemma_decimal_reads_back(n / 10);
        let rest = decimal(n / 10);
        assert(decimal(n) == rest.push(digit_char(n % 10)));
        assert(decimal(n).drop_last() =~= rest);
        assert(decimal(n).last() == digit_char(n % 10));
        assert(decimal(n)[0] == rest[0]);
        assert((n / 10) * 10 + n % 10 == n);
        assert(digits_value(decimal(n)) == digits_value(rest) * 10 + (digit_char(n % 10) as int
            - '0' as int));
    } else {
        assert(decimal(n).drop_last() =~= Seq::<char>::empty());
        assert(decimal(n).last() == digit_char(n));
        assert(digits_value(decimal(n)) == digits_value(Seq::<char>::empty()) * 10 + (digit_char(
            n,
        ) as int - '0' as int));
    }
}

/// The asset path of a tile image: under `./assets/earth/tiles/`, the layer directory
/// (`surface` or `elevation`), the face directory (`px`, `nx`, `py`, `ny`, `pz`, `nz`), the
/// level, column and row as decimal numerals, and the layer's extension (`webp` for surface,
/// `png` for elevation).
pub proof fn lemma_asset_path_layout(request: TileAssetRequest)
    ensures
        asset_path(request) == "./assets/earth/tiles/"@ + (if request.layer == TileLayer::Surface {
            "surface"@
        } else {
            "elevation"@
        }) + "/"@ + face_directory(request.tile.face) + "/"@ + decimal(request.tile.level as nat)
            + "/"@ + decimal(request.tile.x as nat) + "/"@ + decimal(request.tile.y as nat) + "."@
            + (if request.layer == TileLayer::Surface {
            "webp"@
        } else {
            "png"@
        }),
{
    reveal_strlit("./assets/earth/tiles/");
    reveal_strlit("surface");
    reveal_strlit("elevation");
    reveal_strlit("/");
    reveal_strlit(".");
    reveal_strlit("webp");
    reveal_strlit("png");
    reveal_strlit("px");
    reveal_strlit("nx");
    reveal_strlit("py");
    reveal_strlit("ny");
    reveal_strlit("pz");
    reveal_strlit("nz");
    assert(face_directory(request.tile.face) =~= face_slug(request.tile.face));
    assert((if request.layer == TileLayer::Surface {
        "surface"@
    } else {
        "elevation"@
    }) =~= layer_slug(request.layer));
    assert((if request.layer == TileLayer::Surface {
        "webp"@
    } else {
        "png"@
    }) =~= layer_extension(request.layer));
}

fn digit_str(d: u32) -> (r: &'static str)
    requires
        d < 10,
    ensures
        r@ == seq![digit_char(d as nat)],
{
    match d {
        0 => {
            proof {
                reveal_strlit("0");
            }
            "0"
        },
        1 => {
            proof {
                reveal_strlit("1");
            }
            "1"
        },
        2 => {
            proof {
                reveal_strlit("2");
            }
            "2"
        },
        3 => {
            proof {
                reveal_strlit("3");
            }
            "3"
        },
        4 => {
            proof {
                reveal_strlit("4");
            }
            "4"
        },
        5 => {
            proof {
                reveal_strlit("5");
            }
            "5"
        },
        6 => {
            proof {
                reveal_strlit("6");
            }
            "6"
        },
        7 => {
            proof {
                reveal_strlit("7");
            }
            "7"
        },
        8 => {
            proof {
                reveal_strlit("8");
            }
            "8"
        },
        _ => {
            proof {
                reveal_strlit("9");
            }
            "9"
        },
    }
}

/// Appends the decimal representation of `n`.
fn append_decimal(out: &mut String, n: u32)
    ensures
        final(out)@ == old(out)@ + decimal(n as nat),
    decreases n,
{
    if n >= 10 {
        append_decimal(out, n / 10);
    }
    let digit = digit_str(n % 10);
    out.append(digit);
    proof {
        if n >= 10 {
            assert(decimal(n as nat) == decimal((n / 10) as nat).push(digit_char((n % 10) as nat)));
        }
    }
    assert(out@ =~= old(out)@ + decimal(n as nat));
}

fn append_str(out: &mut String, piece: &str)
    ensures
        final(out)@ == old(out)@ + piece@,
{
    out.append(piece);
}

impl TileAssetRequest {
    /// Site-relative path of the encoded tile image.
    pub fn path(self) -> (r: String)
        ensures
            r@ == asset_path(self),
    {
        let mut out = String::new();
        let root = "./assets/earth/tiles/";
        let slash = "/";
        let dot = ".";
        proof {
            reveal_strlit("./assets/earth/tiles/");
            reveal_strlit("/");
            reveal_strlit(".");
        }
        append_str(&mut out, root);
        append_str(&mut out, self.layer.slug());
        append_str(&mut out, slash);
        append_str(&mut out, self.tile.face.slug());
        append_str(&mut out, slash);
        append_decimal(&mut out, self.tile.level as u32);
        append_str(&mut out, slash);
        append_decimal(&mut out, self.tile.x);
        append_str(&mut out, slash);
        append_decimal(&mut out, self.tile.y);
        append_str(&mut out, dot);
        append_str(&mut out, self.layer.extension());
        assert(out@ =~= asset_path(self));
        out
    }
}

#[derive(Clone, Debug, PartialEq, Eq)]
pub struct TileStreamingPlan {
    pub level: u8,
    pub primary: Vec<TileId>,
    pub fallback: Vec<TileId>,
}

/// Requests for `tiles` in the given layer, in the same order.
pub open spec fn layer_requests(tiles: Seq<TileId>, layer: TileLayer) -> Seq<TileAssetRequest> {
    tiles.map_values(|tile: TileId| TileAssetRequest { layer, tile })
}

impl TileStreamingPlan {
    /// Coarse-to-fine requests: every fallback tile, then every primary tile, so existing
    /// parent coverage can render while fine tiles are still decoding.
    pub fn requests(&self, layer: TileLayer) -> (r: Vec<TileAssetRequest>)
        ensures
            r@ == layer_requests(self.fallback@, layer) + layer_requests(self.primary@, layer),
    {
        let mut out: Vec<TileAssetRequest> = Vec::new();
        let mut i: usize = 0;
        while i < self.fallback.len()
            invariant
                i <= self.fallback.len(),
                out@ == layer_requests(self.fallback@.take(i as int), layer),
            decreases self.fallback.len() - i,
        {
            out.push(TileAssetRequest { layer, tile: self.fallback[i] });
            assert(self.fallback@.take(i + 1) =~= self.fallback@.take(i as int).push(
                self.fallback@[i as int],
            ));
            i += 1;
        }
        assert(self.fallback@.take(i as int) =~= self.fallback@);
        let mut j: usize = 0;
        while j < self.primary.len()
            invariant
                j <= self.primary.len(),
                out@ == layer_requests(self.fallback@, layer) + layer_requests(
                    self.primary@.take(j as int),
                    layer,
                ),
            decreases self.primary.len() - j,
        {
            out.push(TileAssetRequest { layer, tile: self.primary[j] });
            assert(self.primary@.take(j + 1) =~= self.primary@.take(j as int).push(
                self.primary@[j as int],
            ));
            assert(layer_requests(self.primary@.take(j + 1), layer) =~= layer_requests(
                self.primary@.take(j as int),
                layer,
            ).push(TileAssetRequest { layer, tile: self.primary@[j as int] }));
            j += 1;
        }
        assert(self.primary@.take(j as int) =~= self.primary@);
        out
    }
}

} // verus!

verus! {

/// Strict order of tiles used by tile lists: by face first (declaration order), then level,
/// column and row; or, with `level_first`, by level first, then face, column and row.
pub open spec fn tile_before(a: TileId, b: TileId, level_first: bool) -> bool {
    if level_first {
        ||| a.level < b.level
        ||| (a.level == b.level && face_rank(a.face) < face_rank(b.face))
        ||| (a.level == b.level && face_rank(a.face) == face_rank(b.face) && a.x < b.x)
        ||| (a.level == b.level && face_rank(a.face) == face_rank(b.face) && a.x == b.x && a.y
            < b.y)
    } else {
        tile_lt(a, b)
    }
}

/// Every tile comes before the tiles after it.
pub open spec fn tiles_sorted(tiles: Seq<TileId>, level_first: bool) -> bool {
    forall|i: int, j: int|
        0 <= i < j < tiles.len() ==> tile_before(#[trigger] tiles[i], #[trigger] tiles[j], level_first)
}

proof fn lemma_tile_before_is_strict_total(a: TileId, b: TileId, c: TileId, level_first: bool)
    ensures
        !tile_before(a, a, level_first),
        a != b ==> tile_before(a, b, level_first) || tile_before(b, a, level_first),
        tile_before(a, b, level_first) && tile_before(b, c, level_first) ==> tile_before(
            a,
            c,
            level_first,
        ),
{
}

fn tile_before_exec(a: TileId, b: TileId, level_first: bool) -> (r: bool)
    ensures
        r == tile_before(a, b, level_first),
{
    let fa = face_index(a.face);
    let fb = face_index(b.face);
    if level_first {
        if a.level != b.level {
            return a.level < b.level;
        }
        if fa != fb {
            return fa < fb;
        }
    } else {
        if fa != fb {
            return fa < fb;
        }
        if a.level != b.level {
            return a.level < b.level;
        }
    }
    if a.x != b.x {
        return a.x < b.x;
    }
    a.y < b.y
}

/// Index of the first tile of `tiles` that does not come before `tile`.
fn tile_insertion_point(tiles: &Vec<TileId>, tile: TileId, level_first: bool) -> (r: usize)
    ensures
        r <= tiles@.len(),
        forall|k: int| 0 <= k < r ==> tile_before(#[trigger] tiles@[k], tile, level_first),
        r < tiles@.len() ==> !tile_before(tiles@[r as int], tile, level_first),
{
    let mut i: usize = 0;
    while i < tiles.len()
        invariant
            i <= tiles@.len(),
            forall|k: int| 0 <= k < i ==> tile_before(#[trigger] tiles@[k], tile, level_first),
        decreases tiles@.len() - i,
    {
        if !tile_before_exec(tiles[i], tile, level_first) {
            return i;
        }
        i += 1;
    }
    i
}

/// Adds `tile` to a sorted list of distinct tiles, keeping it sorted and distinct.
fn insert_tile_sorted(tiles: &mut Vec<TileId>, tile: TileId, level_first: bool)
    requires
        tiles_sorted(old(tiles)@, level_first),
    ensures
        tiles_sorted(final(tiles)@, level_first),
        final(tiles)@.to_set() == old(tiles)@.to_set().insert(tile),
        final(tiles)@.len() <= old(tiles)@.len() + 1,
{
    let ghost before = tiles@;
    let i = tile_insertion_point(tiles, tile, level_first);
    if i < tiles.len() && tiles[i] == tile {
        assert(before.to_set() =~= before.to_set().insert(tile));
        return;
    }
    proof {
        if i < before.len() {
            lemma_tile_before_is_strict_total(before[i as int], tile, tile, level_first);
        }
    }
    tiles.insert(i, tile);
    proof {
        let after = tiles@;
        assert(after =~= before.insert(i as int, tile));
        assert forall|a: int, b: int| 0 <= a < b < after.len() implies tile_before(
            #[trigger] after[a],
            #[trigger] after[b],
            level_first,
        ) by {
            if b < i {
                assert(tile_before(before[a], before[b], level_first));
            } else if b == i {
                assert(tile_before(before[a], tile, level_first));
            } else if a < i {
                assert(tile_before(before[a], before[b - 1], level_first));
            } else if a == i {
                if b - 1 > i {
                    assert(tile_before(before[i as int], before[b - 1], level_first));
                    lemma_tile_before_is_strict_total(tile, before[i as int], before[b - 1], level_first);
                }
            } else {
                assert(tile_before(before[a - 1], before[b - 1], level_first));
            }
        }
        assert forall|t: TileId| after.to_set().contains(t) == before.to_set().insert(tile).contains(
            t,
        ) by {
            if after.contains(t) {
                let k = choose|k: int| 0 <= k < after.len() && after[k] == t;
                if k < i {
                    assert(before[k] == t);
                } else if k > i {
                    assert(before[k - 1] == t);
                }
            }
            if before.contains(t) {
                let k = choose|k: int| 0 <= k < before.len() && before[k] == t;
                if k < i {
                    assert(after[k] == t);
                } else {
                    assert(after[k + 1] == t);
                }
            }
            if t == tile {
                assert(after[i as int] == t);
            }
        }
        assert(after.to_set() =~= before.to_set().insert(tile));
    }
}

/// The working-set radius actually used: the requested one, at most the bound.
pub open spec fn bounded_radius(radius_tiles: u8) -> int {
    if radius_tiles <= MAX_WORKING_SET_RADIUS_TILES {
        radius_tiles as int
    } else {
        MAX_WORKING_SET_RADIUS_TILES as int
    }
}

/// `tile` is reached from `center` by column and row steps of at most `radius`, taking the
/// rows before `row` and, in `row`, the columns before `column`.
pub open spec fn reached_before(center: TileId, radius: int, row: int, column: int, tile: TileId) -> bool {
    exists|dx: int, dy: int|
        #![trigger spec_offset(center, dx, dy)]
        -radius <= dx <= radius && -radius <= dy && (dy < row || (dy == row && dx < column))
            && spec_offset(center, dx, dy) == Some(tile)
}

/// `tile` is reached from `center` by at most `radius` steps along each face axis,
/// remapped across cube-face edges.
pub open spec fn within_steps(center: TileId, radius: int, tile: TileId) -> bool {
    reached_before(center, radius, radius + 1, -radius, tile)
}

proof fn lemma_reached_next_column(center: TileId, radius: int, row: int, column: int, tile: TileId)
    requires
        -radius <= column <= radius,
        -radius <= row,
    ensures
        reached_before(center, radius, row, column + 1, tile) == (reached_before(
            center,
            radius,
            row,
            column,
            tile,
        ) || spec_offset(center, column, row) == Some(tile)),
{
    if reached_before(center, radius, row, column + 1, tile) {
        let (dx, dy) = choose|dx: int, dy: int|
            #![trigger spec_offset(center, dx, dy)]
            -radius <= dx <= radius && -radius <= dy && (dy < row || (dy == row && dx < column
                + 1)) && spec_offset(center, dx, dy) == Some(tile);
        if !(dx == column && dy == row) {
            assert(spec_offset(center, dx, dy) == Some(tile));
        }
    }
    if reached_before(center, radius, row, column, tile) {
        let (dx, dy) = choose|dx: int, dy: int|
            #![trigger spec_offset(center, dx, dy)]
            -radius <= dx <= radius && -radius <= dy && (dy < row || (dy == row && dx < column))
                && spec_offset(center, dx, dy) == Some(tile);
        assert(spec_offset(center, dx, dy) == Some(tile));
    }
    if spec_offset(center, column, row) == Some(tile) {
        assert(spec_offset(center, column, row) == Some(tile));
    }
}

proof fn lemma_reached_next_row(center: TileId, radius: int, row: int, tile: TileId)
    requires
        0 <= radius,
    ensures
        reached_before(center, radius, row, radius + 1, tile) == reached_before(
            center,
            radius,
            row + 1,
            -radius,
            tile,
        ),
{
    if reached_before(center, radius, row, radius + 1, tile) {
        let (dx, dy) = choose|dx: int, dy: int|
            #![trigger spec_offset(center, dx, dy)]
            -radius <= dx <= radius && -radius <= dy && (dy < row || (dy == row && dx < radius
                + 1)) && spec_offset(center, dx, dy) == Some(tile);
        assert(spec_offset(center, dx, dy) == Some(tile));
    }
    if reached_before(center, radius, row + 1, -radius, tile) {
        let (dx, dy) = choose|dx: int, dy: int|
            #![trigger spec_offset(center, dx, dy)]
            -radius <= dx <= radius && -radius <= dy && (dy < row + 1 || (dy == row + 1 && dx
                < -radius)) && spec_offset(center, dx, dy) == Some(tile);
        assert(spec_offset(center, dx, dy) == Some(tile));
    }
}

/// The deterministic square working set around `center`: every tile reached by at most the
/// bounded radius of column and row steps, remapped across cube-face edges, each once and in
/// tile order.
pub fn working_set_around(center: TileId, radius_tiles: u8) -> (r: Vec<TileId>)
    ensures
        tiles_sorted(r@, false),
        forall|tile: TileId|
            r@.contains(tile) <==> within_steps(center, bounded_radius(radius_tiles), tile),
        r@.len() <= (2 * bounded_radius(radius_tiles) + 1) * (2 * bounded_radius(radius_tiles)
            + 1),
        center.level <= MAX_STREAMING_LEVEL ==> forall|tile: TileId|
            #[trigger] r@.contains(tile) ==> tile.level == center.level && is_valid_tile(tile),
        is_valid_tile(center) ==> r@.contains(center),
{
    let radius: i32 = if radius_tiles <= MAX_WORKING_SET_RADIUS_TILES {
        radius_tiles as i32
    } else {
        MAX_WORKING_SET_RADIUS_TILES as i32
    };
    let ghost r = radius as int;
    let ghost width = 2 * r + 1;
    let mut tiles: Vec<TileId> = Vec::new();
    let mut row: i32 = -radius;
    while row <= radius
        invariant
            r == bounded_radius(radius_tiles),
            r == radius,
            0 <= r <= 4,
            width == 2 * r + 1,
            -radius <= row <= radius + 1,
            tiles_sorted(tiles@, false),
            forall|tile: TileId| tiles@.contains(tile) <==> reached_before(center, r, row as int, -r, tile),
            tiles@.len() <= (row + r) * width,
        decreases radius + 1 - row,
    {
        let mut column: i32 = -radius;
        while column <= radius
            invariant
                r == radius,
                0 <= r <= 4,
                width == 2 * r + 1,
                -radius <= row <= radius,
                -radius <= column <= radius + 1,
                tiles_sorted(tiles@, false),
                forall|tile: TileId|
                    tiles@.contains(tile) <==> reached_before(center, r, row as int, column as int, tile),
                tiles@.len() <= (row + r) * width + (column + r),
            decreases radius + 1 - column,
        {
            let ghost previous = tiles@;
            match center.offset(column, row) {
                Some(tile) => insert_tile_sorted(&mut tiles, tile, false),
                None => {},
            }
            proof {
                assert forall|tile: TileId|
                    tiles@.contains(tile) <==> reached_before(
                        center,
                        r,
                        row as int,
                        column + 1,
                        tile,
                    ) by {
                    lemma_reached_next_column(center, r, row as int, column as int, tile);
                    assert(previous.to_set().contains(tile) == previous.contains(tile));
                    assert(tiles@.to_set().contains(tile) == tiles@.contains(tile));
                }
            }
            column += 1;
        }
        proof {
            assert forall|tile: TileId|
                tiles@.contains(tile) <==> reached_before(center, r, row + 1, -r, tile) by {
                lemma_reached_next_row(center, r, row as int, tile);
            }
            assert((row + r) * width + (radius + 1 + r) == (row + 1 + r) * width) by (nonlinear_arith)
                requires
                    width == 2 * r + 1,
                    r == radius,
            ;
        }
        row += 1;
    }
    proof {
        if center.level <= MAX_STREAMING_LEVEL {
            assert forall|tile: TileId| #[trigger] tiles@.contains(tile) implies tile.level
                == center.level && is_valid_tile(tile) by {
                let (dx, dy) = choose|dx: int, dy: int|
                    #![trigger spec_offset(center, dx, dy)]
                    -r <= dx <= r && -r <= dy && (dy < r + 1 || (dy == r + 1 && dx < -r))
                        && spec_offset(center, dx, dy) == Some(tile);
                lemma_offset_stays_on_level(center, dx, dy);
            }
        }
        if is_valid_tile(center) {
            lemma_zero_offset_is_identity(center);
            assert(spec_offset(center, 0, 0) == Some(center));
            assert(reached_before(center, r, r + 1, -r, center));
        }
    }
    tiles
}

/// Proper ancestors of `tile`, nearest first, up to the root level.
pub open spec fn ancestors(tile: TileId) -> Seq<TileId>
    decreases tile.level,
{
    if tile.level == 0 {
        Seq::empty()
    } else {
        let parent = TileId { face: tile.face, level: (tile.level - 1) as u8, x: tile.x / 2, y: tile.y / 2 };
        seq![parent] + ancestors(parent)
    }
}

/// A tile has one ancestor per coarser level, each the parent of the one before, ending at
/// the root level on the same face.
pub proof fn lemma_ancestors_climb_to_the_root(tile: TileId)
    ensures
        ancestors(tile).len() == tile.level,
        forall|k: int|
            0 <= k < ancestors(tile).len() ==> (#[trigger] ancestors(tile)[k]).level == tile.level
                - 1 - k && ancestors(tile)[k].face == tile.face,
        forall|k: int|
            0 < k < ancestors(tile).len() ==> spec_parent(ancestors(tile)[k - 1]) == Some(
                #[trigger] ancestors(tile)[k],
            ),
        tile.level > 0 ==> spec_parent(tile) == Some(ancestors(tile)[0]),
    decreases tile.level,
{
    if tile.level > 0 {
        let parent = TileId { face: tile.face, level: (tile.level - 1) as u8, x: tile.x / 2, y: tile.y / 2 };
        lemma_ancestors_climb_to_the_root(parent);
        let rest = ancestors(parent);
        assert(ancestors(tile) == seq![parent] + rest);
        assert forall|k: int| 0 < k < ancestors(tile).len() implies spec_parent(
            ancestors(tile)[k - 1],
        ) == Some(#[trigger] ancestors(tile)[k]) by {
            assert(ancestors(tile)[k] == rest[k - 1]);
            if k > 1 {
                assert(ancestors(tile)[k - 1] == rest[k - 2]);
            }
        }
    }
}

/// Faces sort in declaration order (+X, -X, +Y, -Y, +Z, -Z) and layers surface before
/// elevation; tiles sort by face, then level, column and row, and requests by layer, then tile,
/// as their derived orders do.
pub proof fn lemma_tile_and_request_orders(a: TileAssetRequest, b: TileAssetRequest)
    ensures
        face_rank(CubeFace::PositiveX) < face_rank(CubeFace::NegativeX) < face_rank(
            CubeFace::PositiveY,
        ) < face_rank(CubeFace::NegativeY) < face_rank(CubeFace::PositiveZ) < face_rank(
            CubeFace::NegativeZ,
        ),
        layer_rank(TileLayer::Surface) < layer_rank(TileLayer::Elevation),
        tile_lt(a.tile, b.tile) == (if a.tile.face != b.tile.face {
            face_rank(a.tile.face) < face_rank(b.tile.face)
        } else if a.tile.level != b.tile.level {
            a.tile.level < b.tile.level
        } else if a.tile.x != b.tile.x {
            a.tile.x < b.tile.x
        } else {
            a.tile.y < b.tile.y
        }),
        request_lt(a, b) == (if a.layer != b.layer {
            layer_rank(a.layer) < layer_rank(b.layer)
        } else {
            tile_lt(a.tile, b.tile)
        }),
{
}

/// `a` comes strictly before `b` when coarse tiles are listed first: by level, then by face
/// (+X, -X, +Y, -Y, +Z, -Z), then by column, then by row.
pub open spec fn coarse_to_fine(a: TileId, b: TileId) -> bool {
    if a.level != b.level {
        a.level < b.level
    } else if a.face != b.face {
        face_rank(a.face) < face_rank(b.face)
    } else if a.x != b.x {
        a.x < b.x
    } else {
        a.y < b.y
    }
}

/// A list sorted with coarse tiles first runs from the root level towards finer levels: every
/// tile comes before the tiles after it by level, then face, column and row.
pub proof fn lemma_level_first_order_is_coarse_to_fine(tiles: Seq<TileId>)
    requires
        tiles_sorted(tiles, true),
    ensures
        forall|i: int, j: int|
            0 <= i < j < tiles.len() ==> coarse_to_fine(#[trigger] tiles[i], #[trigger] tiles[j]),
        forall|i: int, j: int|
            0 <= i < j < tiles.len() ==> (#[trigger] tiles[i]).level <= (#[trigger] tiles[j]).level,
{
    assert forall|i: int, j: int| 0 <= i < j < tiles.len() implies coarse_to_fine(
        #[trigger] tiles[i],
        #[trigger] tiles[j],
    ) by {
        assert(tile_before(tiles[i], tiles[j], true));
    }
}

/// `tile` is an ancestor of one of `tiles`.
pub open spec fn covers_one_of(tiles: Seq<TileId>, tile: TileId) -> bool {
    exists|i: int| 0 <= i < tiles.len() && #[trigger] ancestors(tiles[i]).contains(tile)
}

/// A streaming plan for `primary`: its level is that of the first tile (the root level when
/// there is none), and the fallback is every ancestor of a primary tile, once each, coarsest
/// level first.
pub fn streaming_plan_for(primary: Vec<TileId>) -> (r: TileStreamingPlan)
    ensures
        r.primary@ == primary@,
        r.level == (if primary@.len() > 0 {
            primary@[0].level
        } else {
            0
        }),
        tiles_sorted(r.fallback@, true),
        forall|i: int, j: int|
            0 <= i < j < r.fallback@.len() ==> coarse_to_fine(#[trigger] r.fallback@[i], #[trigger] r.fallback@[j]),
        forall|i: int, j: int|
            0 <= i < j < r.fallback@.len() ==> (#[trigger] r.fallback@[i]).level <= (#[trigger] r.fallback@[j]).level,
        forall|tile: TileId| r.fallback@.contains(tile) <==> covers_one_of(primary@, tile),
{
    let level: u8 = if primary.len() > 0 {
        primary[0].level
    } else {
        0
    };
    let mut fallback: Vec<TileId> = Vec::new();
    let mut i: usize = 0;
    while i < primary.len()
        invariant
            i <= primary@.len(),
            tiles_sorted(fallback@, true),
            forall|tile: TileId|
                fallback@.contains(tile) <==> covers_one_of(primary@.take(i as int), tile),
        decreases primary@.len() - i,
    {
        let tile = primary[i];
        let mut ancestor = tile;
        let ghost mut seen: Seq<TileId> = Seq::empty();
        assert(ancestors(tile) =~= seen + ancestors(ancestor));
        while ancestor.level > 0
            invariant
                i < primary@.len(),
                tile == primary@[i as int],
                tiles_sorted(fallback@, true),
                ancestors(tile) == seen + ancestors(ancestor),
                forall|t: TileId|
                    fallback@.contains(t) <==> (covers_one_of(primary@.take(i as int), t)
                        || seen.contains(t)),
            decreases ancestor.level,
        {
            let parent = TileId {
                face: ancestor.face,
                level: ancestor.level - 1,
                x: ancestor.x / 2,
                y: ancestor.y / 2,
            };
            let ghost previous = fallback@;
            insert_tile_sorted(&mut fallback, parent, true);
            proof {
                assert(ancestors(ancestor) == seq![parent] + ancestors(parent));
                assert(seen + ancestors(ancestor) =~= seen.push(parent) + ancestors(parent));
                assert forall|t: TileId|
                    fallback@.contains(t) <==> (covers_one_of(primary@.take(i as int), t)
                        || seen.push(parent).contains(t)) by {
                    assert(previous.to_set().contains(t) == previous.contains(t));
                    assert(fallback@.to_set().contains(t) == fallback@.contains(t));
                    if seen.push(parent).contains(t) && t != parent {
                        let k = choose|k: int| 0 <= k < seen.push(parent).len() && seen.push(parent)[k] == t;
                        assert(seen[k] == t);
                    }
                    if seen.contains(t) {
                        let k = choose|k: int| 0 <= k < seen.len() && seen[k] == t;
                        assert(seen.push(parent)[k] == t);
                    }
                    if t == parent {
                        assert(seen.push(parent)[seen.len() as int] == t);
                    }
                }
                seen = seen.push(parent);
            }
            ancestor = parent;
        }
        proof {
            assert(ancestors(ancestor) =~= Seq::<TileId>::empty());
            assert(seen =~= ancestors(tile));
            let next = primary@.take(i + 1);
            assert forall|t: TileId|
                fallback@.contains(t) <==> covers_one_of(next, t) by {
                let prefix = primary@.take(i as int);
                if covers_one_of(prefix, t) {
                    let k = choose|k: int| 0 <= k < prefix.len() && #[trigger] ancestors(prefix[k]).contains(t);
                    assert(next[k] == prefix[k]);
                }
                if ancestors(tile).contains(t) {
                    assert(next[i as int] == tile);
                }
                if covers_one_of(next, t) {
                    let k = choose|k: int| 0 <= k < next.len() && #[trigger] ancestors(next[k]).contains(t);
                    if k < i {
                        assert(prefix[k] == next[k]);
                    } else {
                        assert(next[k] == tile);
                    }
                }
            }
        }
        i += 1;
    }
    assert(primary@.take(primary@.len() as int) =~= primary@);
    proof {
        lemma_level_first_order_is_coarse_to_fine(fallback@);
    }
    TileStreamingPlan { level, primary, fallback }
}

} // verus!
