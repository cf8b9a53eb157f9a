//! The standard layout as the hex grid gives it: each tile's corners sit at
//! grid points, the vertices are those grid points numbered in the order the
//! tiles first reach them, and the edges join exactly the neighboring points.

use vstd::prelude::*;
use crate::topology::{EDGE_VERTICES, TILE_VERTICES, VERTEX_POS};

verus! {

/// Axial coordinates of the nineteen tiles, row by row.
pub const HEX_AXIAL: [(i8, i8); 19] = [
    (0, -2), (1, -2), (2, -2),
    (-1, -1), (0, -1), (1, -1), (2, -1),
    (-2, 0), (-1, 0), (0, 0), (1, 0), (2, 0),
    (-2, 1), (-1, 1), (0, 1), (1, 1),
    (-2, 2), (-1, 2), (0, 2),
];

/// Offsets of the six corners of a tile in the corner grid.
pub const CORNER_DX: [i8; 6] = [0, 1, 1, 0, -1, -1];

pub const CORNER_DY: [i8; 6] = [-2, -1, 1, 2, 1, -1];

/// The grid point of corner `c` of tile `t`.
pub open spec fn corner_key(t: int, c: int) -> (int, int) {
    (2 * HEX_AXIAL[t].0 + HEX_AXIAL[t].1 + CORNER_DX[c], 3 * HEX_AXIAL[t].1 + CORNER_DY[c])
}

/// Every tile corner's vertex sits at that corner's grid point.
pub proof fn lemma_corners_placed()
    ensures
        forall|t: int, c: int|
            0 <= t < 19 && 0 <= c < 6 ==> (
            VERTEX_POS[#[trigger] TILE_VERTICES[t][c] as int].0 as int,
            VERTEX_POS[TILE_VERTICES[t][c] as int].1 as int,
        ) == corner_key(t, c),
{
}

/// Different vertices sit at different grid points, so the vertices are the
/// grid points the tile corners reach, each once.
pub proof fn lemma_points_distinct()
    ensures
        forall|u: int, v: int|
            0 <= u < v < 54 ==> #[trigger] VERTEX_POS[u] != #[trigger] VERTEX_POS[v],
{
}

/// Two grid points are neighbors: one step along a side of a tile.
pub open spec fn grid_neighbors(a: (i8, i8), b: (i8, i8)) -> bool {
    let dx = b.0 - a.0;
    let dy = b.1 - a.1;
    ||| (dx == 1 || dx == -1) && (dy == 1 || dy == -1)
    ||| dx == 0 && (dy == 2 || dy == -2)
}

/// The edges join exactly the vertices at neighboring grid points, each
/// pair once.
pub proof fn lemma_edges_are_sides()
    ensures
        forall|e: int| 0 <= e < 72 ==> grid_neighbors(VERTEX_POS[#[trigger] EDGE_VERTICES[e][0] as int], VERTEX_POS[EDGE_VERTICES[e][1] as int]),
        forall|e: int, f: int| 0 <= e < f < 72 ==> #[trigger] EDGE_VERTICES[e] != #[trigger] EDGE_VERTICES[f],
        forall|u: int, v: int|
            0 <= u < v < 54 && grid_neighbors(#[trigger] VERTEX_POS[u], #[trigger] VERTEX_POS[v]) ==> exists|e: int|
                0 <= e < 72 && #[trigger] EDGE_VERTICES[e] == [u as u8, v as u8],
{
}

/// Vertex `v` is a corner of some tile.
pub open spec fn is_corner(v: int) -> bool {
    exists|t: int, c: int| 0 <= t < 19 && 0 <= c < 6 && #[trigger] TILE_VERTICES[t][c] == v
}

/// The vertices are numbered in the order the tiles, corner by corner,
/// first reach them: the first corner is vertex 0, every corner's vertex is
/// at most one past some earlier corner's, and every vertex is a corner.
pub proof fn lemma_numbered_in_order()
    ensures
        TILE_VERTICES[0][0] == 0,
        forall|t: int, c: int|
            0 <= t < 19 && 0 <= c < 6 && (t > 0 || c > 0) ==> exists|t2: int, c2: int|
                0 <= t2 < 19 && 0 <= c2 < 6 && 6 * t2 + c2 < 6 * t + c && #[trigger] TILE_VERTICES[t][c]
                    <= #[trigger] TILE_VERTICES[t2][c2] + 1,
        forall|v: int| 0 <= v < 54 ==> #[trigger] is_corner(v),
{
}

} // verus!
