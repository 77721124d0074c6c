//! The D3Q19 lattice of the fluid kernels: its nineteen discrete
//! velocities, the pairing of each with its opposite, and the periodic
//! table of where each population streams from.
use crate::voxels::cell_index;
use vstd::prelude::*;

verus! {

/// The number of discrete velocities.
pub const Q: usize = 19;

/// Velocity `q` of the D3Q19 set: rest, the six faces, then the twelve edges.
pub open spec fn velocity_spec(q: int) -> (int, int, int) {
    if q == 0 {
        (0, 0, 0)
    } else if q == 1 {
        (1, 0, 0)
    } else if q == 2 {
        (-1, 0, 0)
    } else if q == 3 {
        (0, 1, 0)
    } else if q == 4 {
        (0, -1, 0)
    } else if q == 5 {
        (0, 0, 1)
    } else if q == 6 {
        (0, 0, -1)
    } else if q == 7 {
        (1, 1, 0)
    } else if q == 8 {
        (-1, -1, 0)
    } else if q == 9 {
        (1, -1, 0)
    } else if q == 10 {
        (-1, 1, 0)
    } else if q == 11 {
        (1, 0, 1)
    } else if q == 12 {
        (-1, 0, -1)
    } else if q == 13 {
        (1, 0, -1)
    } else if q == 14 {
        (-1, 0, 1)
    } else if q == 15 {
        (0, 1, 1)
    } else if q == 16 {
        (0, -1, -1)
    } else if q == 17 {
        (0, 1, -1)
    } else {
        (0, -1, 1)
    }
}

/// The velocity opposite to velocity `q`.
pub open spec fn opposite_spec(q: int) -> int {
    if q == 0 {
        0
    } else if q % 2 == 1 {
        q + 1
    } else {
        q - 1
    }
}

/// Velocity `q` as its three components.
pub fn velocity(q: usize) -> (r: [i32; 3])
    requires
        q < Q,
    ensures
        (r@[0] as int, r@[1] as int, r@[2] as int) == velocity_spec(q as int),
        r@.len() == 3,
{
    let r: [i32; 3] = match q {
        0 => [0, 0, 0],
        1 => [1, 0, 0],
        2 => [-1, 0, 0],
        3 => [0, 1, 0],
        4 => [0, -1, 0],
        5 => [0, 0, 1],
        6 => [0, 0, -1],
        7 => [1, 1, 0],
        8 => [-1, -1, 0],
        9 => [1, -1, 0],
        10 => [-1, 1, 0],
        11 => [1, 0, 1],
        12 => [-1, 0, -1],
        13 => [1, 0, -1],
        14 => [-1, 0, 1],
        15 => [0, 1, 1],
        16 => [0, -1, -1],
        17 => [0, 1, -1],
        _ => [0, -1, 1],
    };
    r
}

/// The index of the velocity opposite to velocity `q`.
pub fn opposite(q: usize) -> (r: usize)
    requires
        q < Q,
    ensures
        r == opposite_spec(q as int),
{
    if q == 0 {
        0
    } else if q % 2 == 1 {
        q + 1
    } else {
        q - 1
    }
}

/// Pairing each velocity with its opposite is an involution on the nineteen
/// velocities, and opposite velocities cancel.
pub proof fn lemma_opposite_pairs(q: int)
    requires
        0 <= q < 19,
    ensures
        0 <= opposite_spec(q) < 19,
        opposite_spec(opposite_spec(q)) == q,
        velocity_spec(q).0 + velocity_spec(opposite_spec(q)).0 == 0,
        velocity_spec(q).1 + velocity_spec(opposite_spec(q)).1 == 0,
        velocity_spec(q).2 + velocity_spec(opposite_spec(q)).2 == 0,
{
}

/// `v` wrapped periodically into `0..n`.
pub open spec fn wrap(v: int, n: int) -> int {
    v % n
}

/// The cell that population `q` of cell (x, y, z) streams from: one step
/// against velocity `q`, wrapping around every face.
pub open spec fn stream_source(nx: int, ny: int, nz: int, x: int, y: int, z: int, q: int) -> int {
    let c = velocity_spec(q);
    cell_index(nx, ny, wrap(x - c.0, nx), wrap(y - c.1, ny), wrap(z - c.2, nz))
}

/// The cell one step along velocity `q` from cell (x, y, z), wrapping
/// around every face.
pub open spec fn stream_target(nx: int, ny: int, nz: int, x: int, y: int, z: int, q: int) -> int {
    let c = velocity_spec(q);
    cell_index(nx, ny, wrap(x + c.0, nx), wrap(y + c.1, ny), wrap(z + c.2, nz))
}

/// The cell that population `q` of cell (x, y, z) streams from.
pub fn source_cell(nx: usize, ny: usize, nz: usize, x: usize, y: usize, z: usize, q: usize) -> (r: usize)
    requires
        x < nx,
        y < ny,
        z < nz,
        q < Q,
        nx * ny * nz <= usize::MAX,
    ensures
        r == stream_source(nx as int, ny as int, nz as int, x as int, y as int, z as int, q as int),
        r < nx * ny * nz,
{
    let c = velocity(q);
    let sx = step_back(x, c[0], nx);
    let sy = step_back(y, c[1], ny);
    let sz = step_back(z, c[2], nz);
    proof {
        lemma_cell_in_grid(nx as int, ny as int, nz as int, sx as int, sy as int, sz as int);
    }
    sz * (nx * ny) + sy * nx + sx
}

/// The cell one step along velocity `q` from cell (x, y, z).
pub fn target_cell(nx: usize, ny: usize, nz: usize, x: usize, y: usize, z: usize, q: usize) -> (r: usize)
    requires
        x < nx,
        y < ny,
        z < nz,
        q < Q,
        nx * ny * nz <= usize::MAX,
    ensures
        r == stream_target(nx as int, ny as int, nz as int, x as int, y as int, z as int, q as int),
        r < nx * ny * nz,
{
    let c = velocity(q);
    let tx = step_back(x, -c[0], nx);
    let ty = step_back(y, -c[1], ny);
    let tz = step_back(z, -c[2], nz);
    proof {
        lemma_cell_in_grid(nx as int, ny as int, nz as int, tx as int, ty as int, tz as int);
    }
    tz * (nx * ny) + ty * nx + tx
}

/// Streaming along a velocity and back along its opposite are the same
/// step: the target of `q` is the source of the opposite velocity.
pub proof fn lemma_target_is_opposite_source(nx: int, ny: int, nz: int, x: int, y: int, z: int, q: int)
    requires
        0 <= q < 19,
    ensures
        stream_target(nx, ny, nz, x, y, z, q) == stream_source(nx, ny, nz, x, y, z, opposite_spec(q)),
{
    lemma_opposite_pairs(q);
    let c = velocity_spec(q);
    let o = velocity_spec(opposite_spec(q));
    assert(x + c.0 == x - o.0 && y + c.1 == y - o.1 && z + c.2 == z - o.2);
}

/// One coordinate stepped against a velocity component and wrapped.
fn step_back(x: usize, c: i32, n: usize) -> (r: usize)
    requires
        x < n,
        -1 <= c <= 1,
    ensures
        r == wrap(x - c, n as int),
        r < n,
{
    if c == 1 {
        if x == 0 {
            assert((-1int) % (n as int) == n - 1) by (nonlinear_arith)
                requires n > 0;
            n - 1
        } else {
            assert((x - 1) % (n as int) == x - 1) by (nonlinear_arith)
                requires 0 <= x - 1 < n;
            x - 1
        }
    } else if c == -1 {
        if x + 1 == n {
            assert((n as int) % (n as int) == 0) by (nonlinear_arith)
                requires n > 0;
            0
        } else {
            assert((x + 1) % (n as int) == x + 1) by (nonlinear_arith)
                requires 0 <= x + 1 < n;
            x + 1
        }
    } else {
        assert((x as int) % (n as int) == x) by (nonlinear_arith)
            requires 0 <= x < n;
        x
    }
}

/// For each velocity, the cell every cell's population streams from.
pub struct NeighborTable {
    pub table: Vec<Vec<u32>>,
}

impl NeighborTable {
    /// The table is complete for an `nx` by `ny` by `nz` grid: nineteen
    /// rows of one entry per cell, each entry the stream source of its cell
    /// (as `u32`).
    pub open spec fn describes(&self, nx: int, ny: int, nz: int) -> bool {
        &&& self.table@.len() == 19
        &&& forall|q: int| 0 <= q < 19 ==> (#[trigger] self.table@[q])@.len() == nx * ny * nz
        &&& forall|q: int, x: int, y: int, z: int|
            0 <= q < 19 && 0 <= x < nx && 0 <= y < ny && 0 <= z < nz ==> #[trigger] self.table@[q]@[cell_index(
                nx,
                ny,
                x,
                y,
                z,
            )] == (stream_source(nx, ny, nz, x, y, z, q) as u32)
    }

    /// Builds the periodic streaming table of an `nx` by `ny` by `nz` grid.
    pub fn build(nx: usize, ny: usize, nz: usize) -> (r: NeighborTable)
        requires
            nx * ny <= usize::MAX,
            nx * ny * nz <= usize::MAX,
            nx <= i32::MAX,
            ny <= i32::MAX,
            nz <= i32::MAX,
        ensures
            r.describes(nx as int, ny as int, nz as int),
    {
        let mut table: Vec<Vec<u32>> = Vec::new();
        let mut q: usize = 0;
        while q < Q
            invariant
                q <= Q,
                table@.len() == q,
                forall|k: int| 0 <= k < q ==> (#[trigger] table@[k])@.len() == 0,
            decreases Q - q,
        {
            table.push(Vec::new());
            q = q + 1;
        }
        let plane = nx * ny;
        let mut z: usize = 0;
        while z < nz
            invariant
                z <= nz,
                plane == nx * ny,
                nx * ny * nz <= usize::MAX,
                table@.len() == 19,
                forall|k: int| 0 <= k < 19 ==> (#[trigger] table@[k])@.len() == z * plane,
                forall|k: int, x1: int, y1: int, z1: int|
                    0 <= k < 19 && 0 <= x1 < nx && 0 <= y1 < ny && 0 <= z1 < nz && cell_index(nx as int, ny as int, x1, y1, z1)
                        < z * plane ==> #[trigger] table@[k]@[cell_index(nx as int, ny as int, x1, y1, z1)] == (stream_source(
                        nx as int,
                        ny as int,
                        nz as int,
                        x1,
                        y1,
                        z1,
                        k,
                    ) as u32),
            decreases nz - z,
        {
            let mut y: usize = 0;
            while y < ny
                invariant
                    z < nz,
                    y <= ny,
                    plane == nx * ny,
                    nx * ny * nz <= usize::MAX,
                    table@.len() == 19,
                    forall|k: int| 0 <= k < 19 ==> (#[trigger] table@[k])@.len() == z * plane + y * nx,
                    forall|k: int, x1: int, y1: int, z1: int|
                        0 <= k < 19 && 0 <= x1 < nx && 0 <= y1 < ny && 0 <= z1 < nz && cell_index(nx as int, ny as int, x1, y1, z1)
                            < z * plane + y * nx ==> #[trigger] table@[k]@[cell_index(nx as int, ny as int, x1, y1, z1)]
                            == (stream_source(nx as int, ny as int, nz as int, x1, y1, z1, k) as u32),
                decreases ny - y,
            {
                let mut x: usize = 0;
                while x < nx
                    invariant
                        z < nz,
                        y < ny,
                        x <= nx,
                        plane == nx * ny,
                        nx * ny * nz <= usize::MAX,
                        table@.len() == 19,
                        forall|k: int| 0 <= k < 19 ==> (#[trigger] table@[k])@.len() == z * plane + y * nx + x,
                        forall|k: int, x1: int, y1: int, z1: int|
                            0 <= k < 19 && 0 <= x1 < nx && 0 <= y1 < ny && 0 <= z1 < nz && cell_index(
                                nx as int,
                                ny as int,
                                x1,
                                y1,
                                z1,
                            ) < z * plane + y * nx + x ==> #[trigger] table@[k]@[cell_index(nx as int, ny as int, x1, y1, z1)]
                                == (stream_source(nx as int, ny as int, nz as int, x1, y1, z1, k) as u32),
                    decreases nx - x,
                {
                    proof {
                        lemma_cell_in_grid(nx as int, ny as int, nz as int, x as int, y as int, z as int);
                    }
                    let dst = z * plane + y * nx + x;
                    let mut k: usize = 0;
                    while k < Q
                        invariant
                            z < nz,
                            y < ny,
                            x < nx,
                            k <= Q,
                            plane == nx * ny,
                            nx * ny * nz <= usize::MAX,
                            dst == cell_index(nx as int, ny as int, x as int, y as int, z as int),
                            dst < nx * ny * nz,
                            table@.len() == 19,
                            forall|j: int| 0 <= j < k ==> (#[trigger] table@[j])@.len() == dst + 1,
                            forall|j: int| k <= j < 19 ==> (#[trigger] table@[j])@.len() == dst,
                            forall|j: int| 0 <= j < k ==> (#[trigger] table@[j])@[dst as int] == (stream_source(
                                nx as int,
                                ny as int,
                                nz as int,
                                x as int,
                                y as int,
                                z as int,
                                j,
                            ) as u32),
                            forall|j: int, x1: int, y1: int, z1: int|
                                0 <= j < 19 && 0 <= x1 < nx && 0 <= y1 < ny && 0 <= z1 < nz && cell_index(
                                    nx as int,
                                    ny as int,
                                    x1,
                                    y1,
                                    z1,
                                ) < dst ==> #[trigger] table@[j]@[cell_index(nx as int, ny as int, x1, y1, z1)]
                                    == (stream_source(nx as int, ny as int, nz as int, x1, y1, z1, j) as u32),
                        decreases Q - k,
                    {
                        let c = velocity(k);
                        let sx = step_back(x, c[0], nx);
                        let sy = step_back(y, c[1], ny);
                        let sz = step_back(z, c[2], nz);
                        proof {
                            lemma_cell_in_grid(nx as int, ny as int, nz as int, sx as int, sy as int, sz as int);
                        }
                        let src = sz * plane + sy * nx + sx;
                        let ghost before = table@;
                        let mut row: Vec<u32> = Vec::new();
                        std::mem::swap(&mut row, &mut table[k]);
                        row.push(src as u32);
                        table.set(k, row);
                        proof {
                            assert forall|j: int, x1: int, y1: int, z1: int|
                                0 <= j < 19 && 0 <= x1 < nx && 0 <= y1 < ny && 0 <= z1 < nz && cell_index(
                                    nx as int,
                                    ny as int,
                                    x1,
                                    y1,
                                    z1,
                                ) < dst implies #[trigger] table@[j]@[cell_index(nx as int, ny as int, x1, y1, z1)]
                                    == (stream_source(nx as int, ny as int, nz as int, x1, y1, z1, j) as u32) by {
                                if j != k {
                                    assert(table@[j] == before[j]);
                                } else {
                                    assert(table@[j]@[cell_index(nx as int, ny as int, x1, y1, z1)] == before[j]@[cell_index(
                                        nx as int,
                                        ny as int,
                                        x1,
                                        y1,
                                        z1,
                                    )]);
                                }
                            }
                            assert forall|j: int| 0 <= j < k implies (#[trigger] table@[j])@[dst as int] == (stream_source(
                                nx as int,
                                ny as int,
                                nz as int,
                                x as int,
                                y as int,
                                z as int,
                                j,
                            ) as u32) by {
                                assert(table@[j] == before[j]);
                            }
                        }
                        k = k + 1;
                    }
                    proof {
                        assert forall|j: int, x1: int, y1: int, z1: int|
                            0 <= j < 19 && 0 <= x1 < nx && 0 <= y1 < ny && 0 <= z1 < nz && cell_index(
                                nx as int,
                                ny as int,
                                x1,
                                y1,
                                z1,
                            ) < dst + 1 implies #[trigger] table@[j]@[cell_index(nx as int, ny as int, x1, y1, z1)]
                                == (stream_source(nx as int, ny as int, nz as int, x1, y1, z1, j) as u32) by {
                            if cell_index(nx as int, ny as int, x1, y1, z1) == dst {
                                crate::voxels::lemma_cell_index_injective(
                                    nx as int,
                                    ny as int,
                                    nz as int,
                                    x1,
                                    y1,
                                    z1,
                                    x as int,
                                    y as int,
                                    z as int,
                                );
                            }
                        }
                    }
                    x = x + 1;
                }
                proof {
                    assert(z * plane + y * nx + nx == z * plane + (y + 1) * nx) by (nonlinear_arith);
                }
                y = y + 1;
            }
            proof {
                assert(z * plane + ny * nx == (z + 1) * plane) by (nonlinear_arith)
                    requires plane == nx * ny;
            }
            z = z + 1;
        }
        let r = NeighborTable { table };
        assert forall|k: int| 0 <= k < 19 implies (#[trigger] r.table@[k])@.len() == nx * ny * nz by {
            assert(nz * plane == nx * ny * nz) by (nonlinear_arith)
                requires plane == nx * ny;
        }
        assert forall|k: int, x1: int, y1: int, z1: int|
            0 <= k < 19 && 0 <= x1 < nx && 0 <= y1 < ny && 0 <= z1 < nz implies #[trigger] r.table@[k]@[cell_index(
                nx as int,
                ny as int,
                x1,
                y1,
                z1,
            )] == (stream_source(nx as int, ny as int, nz as int, x1, y1, z1, k) as u32) by {
            lemma_cell_in_grid(nx as int, ny as int, nz as int, x1, y1, z1);
            assert(nz * plane == nx * ny * nz) by (nonlinear_arith)
                requires plane == nx * ny;
        }
        r
    }
}

/// A cell inside the grid has an index below the number of cells, and the
/// partial sums of that index are no larger.
proof fn lemma_cell_in_grid(nx: int, ny: int, nz: int, x: int, y: int, z: int)
    requires
        0 <= x < nx,
        0 <= y < ny,
        0 <= z < nz,
    ensures
        0 <= y * nx + x < nx * ny,
        0 <= z * (nx * ny),
        z * (nx * ny) + nx * ny <= nx * ny * nz,
        0 <= cell_index(nx, ny, x, y, z) < nx * ny * nz,
        y * nx <= y * nx + x,
{
    assert(0 <= y * nx + x < nx * ny) by (nonlinear_arith)
        requires 0 <= x < nx, 0 <= y < ny;
    assert(z * (nx * ny) + nx * ny <= nx * ny * nz) by (nonlinear_arith)
        requires 0 <= z < nz, nx > 0, ny > 0;
    assert(0 <= z * (nx * ny)) by (nonlinear_arith)
        requires 0 <= z, nx > 0, ny > 0;
}

} // verus!
