use vstd::prelude::*;
use crate::store::{TerrainPiece, sample_coordinate, sample_grid_position};

verus! {

/// One vertex of a chunk's surface: its grid position and its height.
/// Its local position is `(col * spacing, height, row * spacing)`, its
/// normal points straight up and its texture coordinate is
/// `(col / side, row / side)`.
pub struct MeshVertex<H> {
    pub col: u32,
    pub row: u32,
    pub height: H,
}

/// The triangle surface of one chunk. Vertex `col + row * side` stands at
/// grid point `(col, row)`; `indices` lists the triangles three by three;
/// the origin is the grid position of the chunk's first sample, in units of
/// the sample spacing.
pub struct SurfaceMesh<H> {
    pub vertices: Vec<MeshVertex<H>>,
    pub indices: Vec<u32>,
    pub origin_x: i64,
    pub origin_z: i64,
}

/// Corner `j` (of six) of the two triangles that cover the grid cell whose
/// lowest corner is `(col, row)`, on a grid of side `n`: the first triangle
/// is `(col, row)`, `(col + 1, row + 1)`, `(col + 1, row)`, the second
/// `(col, row)`, `(col, row + 1)`, `(col + 1, row + 1)`.
pub open spec fn cell_corner(n: int, col: int, row: int, j: int) -> int {
    if j == 0 || j == 3 {
        col + row * n
    } else if j == 1 || j == 5 {
        col + 1 + (row + 1) * n
    } else if j == 2 {
        col + 1 + row * n
    } else {
        col + (row + 1) * n
    }
}

fn corner_index(n: u64, col: u64, row: u64, j: u64) -> (r: u32)
    requires
        2 <= n <= 65536,
        col < n - 1,
        row < n - 1,
    ensures
        r as int == cell_corner(n as int, col as int, row as int, j as int),
{
    assert(col + 1 + (row + 1) * n <= n * n - 1) by (nonlinear_arith)
        requires
            col + 1 <= n - 1,
            row + 1 <= n - 1,
            n >= 2,
    ;
    assert(n * n <= 65536 * 65536) by (nonlinear_arith)
        requires
            n <= 65536,
    ;
    assert(row * n <= (row + 1) * n) by (nonlinear_arith)
        requires
            n >= 0,
    ;
    let v: u64 = if j == 0 || j == 3 {
        col + row * n
    } else if j == 1 || j == 5 {
        col + 1 + (row + 1) * n
    } else if j == 2 {
        col + 1 + row * n
    } else {
        col + (row + 1) * n
    };
    v as u32
}

/// Builds the surface of a chunk of side `n`: `n * n` vertices in
/// row-major order, two triangles for each of the `(n - 1) * (n - 1)`
/// cells, so `6 * (n - 1) * (n - 1)` indices, and the origin at the
/// chunk's address times `n - 1` sample spacings.
pub fn build_mesh<H: Copy>(piece: &TerrainPiece<H>) -> (m: SurfaceMesh<H>)
    requires
        piece.wf(),
    ensures
        m.vertices@.len() == piece.side * piece.side,
        forall|k: int|
            0 <= k < piece.side * piece.side ==> {
                &&& (#[trigger] m.vertices@[k]).col == k % (piece.side as int)
                &&& m.vertices@[k].row == k / (piece.side as int)
                &&& m.vertices@[k].height == piece.terrain_data@[k]
            },
        m.indices@.len() == 6 * (piece.side - 1) * (piece.side - 1),
        forall|c: int, j: int|
            0 <= c < (piece.side - 1) * (piece.side - 1) && 0 <= j < 6 ==> #[trigger] m.indices@[6
                * c + j] == cell_corner(
                piece.side as int,
                c % (piece.side - 1),
                c / (piece.side - 1),
                j,
            ),
        (m.origin_x as int, m.origin_z as int) == sample_coordinate(
            piece.position,
            piece.side as int,
            0,
            0,
        ),
{
    let n: usize = piece.side;
    let total: usize = piece.terrain_data.len();
    let mut vertices: Vec<MeshVertex<H>> = Vec::new();
    let mut k: usize = 0;
    while k < total
        invariant
            n == piece.side,
            piece.wf(),
            total == n * n,
            k <= total,
            vertices@.len() == k,
            forall|k2: int|
                0 <= k2 < k ==> {
                    &&& (#[trigger] vertices@[k2]).col == k2 % (n as int)
                    &&& vertices@[k2].row == k2 / (n as int)
                    &&& vertices@[k2].height == piece.terrain_data@[k2]
                },
        decreases total - k,
    {
        assert(k / n <= k) by (nonlinear_arith)
            requires
                n >= 1,
                k >= 0,
        ;
        assert(n * n <= 65536 * 65536) by (nonlinear_arith)
            requires
                n <= 65536,
        ;
        let v = MeshVertex { col: (k % n) as u32, row: (k / n) as u32, height: piece.terrain_data[k] };
        vertices.push(v);
        k = k + 1;
    }
    let m: usize = n - 1;
    assert(m * m < n * n) by (nonlinear_arith)
        requires
            m + 1 == n,
            m >= 1,
    ;
    let cells: usize = m * m;
    let mut indices: Vec<u32> = Vec::new();
    let mut c: usize = 0;
    while c < cells
        invariant
            n == piece.side,
            piece.wf(),
            m + 1 == n,
            cells == m * m,
            c <= cells,
            indices@.len() == 6 * c,
            forall|c2: int, j: int|
                0 <= c2 < c && 0 <= j < 6 ==> #[trigger] indices@[6 * c2 + j] == cell_corner(
                    n as int,
                    c2 % (m as int),
                    c2 / (m as int),
                    j,
                ),
        decreases cells - c,
    {
        let col: usize = c % m;
        let row: usize = c / m;
        assert(row < m) by (nonlinear_arith)
            requires
                c < m * m,
                row == c / m,
                m >= 1,
        ;
        let mut j: u64 = 0;
        while j < 6
            invariant
                n == piece.side,
                piece.wf(),
                m + 1 == n,
                cells == m * m,
                c < cells,
                col == c % m,
                row == c / m,
                row < m,
                j <= 6,
                indices@.len() == 6 * c + j,
                forall|c2: int, j2: int|
                    0 <= c2 < c && 0 <= j2 < 6 ==> #[trigger] indices@[6 * c2 + j2] == cell_corner(
                        n as int,
                        c2 % (m as int),
                        c2 / (m as int),
                        j2,
                    ),
                forall|j2: int|
                    0 <= j2 < j ==> #[trigger] indices@[6 * c + j2] == cell_corner(
                        n as int,
                        col as int,
                        row as int,
                        j2,
                    ),
            decreases 6 - j,
        {
            let v = corner_index(n as u64, col as u64, row as u64, j);
            indices.push(v);
            j = j + 1;
        }
        c = c + 1;
    }
    assert(6 * (m * m) == 6 * (n - 1) * (n - 1)) by (nonlinear_arith)
        requires
            m + 1 == n,
    ;
    let origin = sample_grid_position(piece.position, n, 0, 0);
    SurfaceMesh { vertices, indices, origin_x: origin.0, origin_z: origin.1 }
}

} // verus!
