//! Solid/fluid voxel masks over a 3D grid, flattened with x varying
//! fastest, then y, then z.
use vstd::prelude::*;

verus! {

/// The flat position of cell (x, y, z) in a grid `nx` wide and `ny` deep.
pub open spec fn cell_index(nx: int, ny: int, x: int, y: int, z: int) -> int {
    z * (nx * ny) + y * nx + x
}

/// The number of `true` entries.
pub open spec fn count_true(s: Seq<bool>) -> nat
    decreases s.len(),
{
    if s.len() == 0 {
        0
    } else {
        count_true(s.drop_last()) + if s.last() {
            1nat
        } else {
            0nat
        }
    }
}

/// Setting one entry changes the count by the difference it makes.
pub proof fn lemma_count_true_update(s: Seq<bool>, i: int, b: bool)
    requires
        0 <= i < s.len(),
    ensures
        count_true(s.update(i, b)) == count_true(s) - (if s[i] { 1int } else { 0int }) + (if b { 1int } else { 0int }),
    decreases s.len(),
{
    if i == s.len() - 1 {
        assert(s.update(i, b).drop_last() =~= s.drop_last());
    } else {
        lemma_count_true_update(s.drop_last(), i, b);
        assert(s.update(i, b).drop_last() =~= s.drop_last().update(i, b));
    }
}

/// An all-`false` sequence counts nothing.
pub proof fn lemma_count_true_none(s: Seq<bool>)
    requires
        forall|i: int| 0 <= i < s.len() ==> !s[i],
    ensures
        count_true(s) == 0,
    decreases s.len(),
{
    if s.len() > 0 {
        lemma_count_true_none(s.drop_last());
    }
}

/// The count never exceeds the length.
pub proof fn lemma_count_true_bound(s: Seq<bool>)
    ensures
        count_true(s) <= s.len(),
    decreases s.len(),
{
    if s.len() > 0 {
        lemma_count_true_bound(s.drop_last());
    }
}

/// The number of `true` entries of a vector.
fn count_solid(cells: &Vec<bool>) -> (r: usize)
    ensures
        r == count_true(cells@),
{
    let mut n: usize = 0;
    let mut i: usize = 0;
    while i < cells.len()
        invariant
            i <= cells@.len(),
            n == count_true(cells@.take(i as int)),
            n <= i,
        decreases cells@.len() - i,
    {
        assert(cells@.take(i + 1).drop_last() =~= cells@.take(i as int));
        if cells[i] {
            n = n + 1;
        }
        i = i + 1;
    }
    assert(cells@.take(i as int) =~= cells@);
    n
}

/// A vector of `n` copies of `false`.
fn all_fluid(n: usize) -> (r: Vec<bool>)
    ensures
        r@.len() == n,
        forall|i: int| 0 <= i < n ==> !r@[i],
{
    let mut v: Vec<bool> = Vec::new();
    let mut i: usize = 0;
    while i < n
        invariant
            i <= n,
            v@.len() == i,
            forall|q: int| 0 <= q < i ==> !v@[q],
        decreases n - i,
    {
        v.push(false);
        i = i + 1;
    }
    v
}

/// Solid cells of the fluid domain: `true` is a solid obstacle.
#[derive(Debug, Clone, PartialEq, Eq)]
pub struct VoxelMask3 {
    pub nx: usize,
    pub ny: usize,
    pub nz: usize,
    pub cells: Vec<bool>,
}

impl VoxelMask3 {
    /// One cell per grid point.
    pub open spec fn well_formed(&self) -> bool {
        self.cells@.len() == self.nx * self.ny * self.nz
    }

    /// An all-fluid mask of the given size.
    pub fn new(nx: usize, ny: usize, nz: usize) -> (r: VoxelMask3)
        requires
            nx * ny <= usize::MAX,
            nx * ny * nz <= usize::MAX,
        ensures
            r.well_formed(),
            r.nx == nx && r.ny == ny && r.nz == nz,
            forall|i: int| 0 <= i < r.cells@.len() ==> !r.cells@[i],
    {
        VoxelMask3 { nx, ny, nz, cells: all_fluid(nx * ny * nz) }
    }

    /// A mask with the given cells; their number must match the size.
    pub fn from_cells(nx: usize, ny: usize, nz: usize, cells: Vec<bool>) -> (r: VoxelMask3)
        requires
            cells@.len() == nx * ny * nz,
        ensures
            r.well_formed(),
            r.nx == nx && r.ny == ny && r.nz == nz,
            r.cells@ == cells@,
    {
        VoxelMask3 { nx, ny, nz, cells }
    }

    fn index(&self, x: usize, y: usize, z: usize) -> (r: usize)
        requires
            self.well_formed(),
            0 <= cell_index(self.nx as int, self.ny as int, x as int, y as int, z as int) < self.cells@.len(),
        ensures
            r == cell_index(self.nx as int, self.ny as int, x as int, y as int, z as int),
    {
        let total = self.cells.len();
        proof {
            lemma_plane_fits(self.nx as int, self.ny as int, self.nz as int, x as int, y as int, z as int);
            assert(cell_index(self.nx as int, self.ny as int, x as int, y as int, z as int) < total);
        }
        let plane = self.nx * self.ny;
        z * plane + y * self.nx + x
    }

    /// Marks cell (x, y, z) solid or fluid.
    pub fn set(&mut self, x: usize, y: usize, z: usize, solid: bool)
        requires
            old(self).well_formed(),
            0 <= cell_index(old(self).nx as int, old(self).ny as int, x as int, y as int, z as int) < old(
                self,
            ).cells@.len(),
        ensures
            final(self).well_formed(),
            final(self).nx == old(self).nx && final(self).ny == old(self).ny && final(self).nz == old(self).nz,
            final(self).cells@ == old(self).cells@.update(
                cell_index(old(self).nx as int, old(self).ny as int, x as int, y as int, z as int),
                solid,
            ),
    {
        let idx = self.index(x, y, z);
        self.cells.set(idx, solid);
    }

    /// Whether cell (x, y, z) is solid.
    pub fn get(&self, x: usize, y: usize, z: usize) -> (r: bool)
        requires
            self.well_formed(),
            0 <= cell_index(self.nx as int, self.ny as int, x as int, y as int, z as int) < self.cells@.len(),
        ensures
            r == self.cells@[cell_index(self.nx as int, self.ny as int, x as int, y as int, z as int)],
    {
        self.cells[self.index(x, y, z)]
    }

    /// The number of solid cells.
    pub fn solid_count(&self) -> (r: usize)
        ensures
            r == count_true(self.cells@),
    {
        count_solid(&self.cells)
    }
}

/// When a cell index lies in a nonempty grid of `nx * ny * nz` cells, the
/// plane size `nx * ny` and each partial sum of the index fit in that range.
proof fn lemma_plane_fits(nx: int, ny: int, nz: int, x: int, y: int, z: int)
    requires
        nx >= 0,
        ny >= 0,
        nz >= 0,
        x >= 0,
        y >= 0,
        z >= 0,
        0 <= cell_index(nx, ny, x, y, z) < nx * ny * nz,
    ensures
        nx * ny <= nx * ny * nz,
        z * (nx * ny) <= cell_index(nx, ny, x, y, z),
        y * nx <= cell_index(nx, ny, x, y, z),
{
    assert(nz > 0) by {
        if nz == 0 {
            assert(nx * ny * nz == 0) by (nonlinear_arith)
                requires nz == 0;
        }
    }
    assert(nx * ny <= nx * ny * nz) by (nonlinear_arith)
        requires nz >= 1, nx * ny >= 0;
    assert(0 <= z * (nx * ny)) by (nonlinear_arith)
        requires z >= 0, nx * ny >= 0;
    assert(0 <= y * nx) by (nonlinear_arith)
        requires y >= 0, nx >= 0;
    assert(nx * ny >= 0) by (nonlinear_arith)
        requires nx >= 0, ny >= 0;
}

/// A voxel grid of hull and obstacle cells for a simulation domain:
/// `true` is solid, `false` is fluid.
#[derive(Debug, Clone, PartialEq, Eq)]
pub struct VoxelGrid {
    pub nx: usize,
    pub ny: usize,
    pub nz: usize,
    pub cells: Vec<bool>,
}

impl VoxelGrid {
    /// One cell per grid point.
    pub open spec fn well_formed(&self) -> bool {
        self.cells@.len() == self.nx * self.ny * self.nz
    }

    /// An all-fluid grid of the given size.
    pub fn new(nx: usize, ny: usize, nz: usize) -> (r: VoxelGrid)
        requires
            nx * ny <= usize::MAX,
            nx * ny * nz <= usize::MAX,
        ensures
            r.well_formed(),
            r.nx == nx && r.ny == ny && r.nz == nz,
            forall|i: int| 0 <= i < r.cells@.len() ==> !r.cells@[i],
    {
        VoxelGrid { nx, ny, nz, cells: all_fluid(nx * ny * nz) }
    }

    fn index(&self, x: usize, y: usize, z: usize) -> (r: usize)
        requires
            self.well_formed(),
            0 <= cell_index(self.nx as int, self.ny as int, x as int, y as int, z as int) < self.cells@.len(),
        ensures
            r == cell_index(self.nx as int, self.ny as int, x as int, y as int, z as int),
    {
        let total = self.cells.len();
        proof {
            lemma_plane_fits(self.nx as int, self.ny as int, self.nz as int, x as int, y as int, z as int);
            assert(cell_index(self.nx as int, self.ny as int, x as int, y as int, z as int) < total);
        }
        let plane = self.nx * self.ny;
        z * plane + y * self.nx + x
    }

    /// Marks cell (x, y, z) solid or fluid.
    pub fn set(&mut self, x: usize, y: usize, z: usize, solid: bool)
        requires
            old(self).well_formed(),
            0 <= cell_index(old(self).nx as int, old(self).ny as int, x as int, y as int, z as int) < old(
                self,
            ).cells@.len(),
        ensures
            final(self).well_formed(),
            final(self).nx == old(self).nx && final(self).ny == old(self).ny && final(self).nz == old(self).nz,
            final(self).cells@ == old(self).cells@.update(
                cell_index(old(self).nx as int, old(self).ny as int, x as int, y as int, z as int),
                solid,
            ),
    {
        let idx = self.index(x, y, z);
        self.cells.set(idx, solid);
    }

    /// Whether cell (x, y, z) is solid.
    pub fn get(&self, x: usize, y: usize, z: usize) -> (r: bool)
        requires
            self.well_formed(),
            0 <= cell_index(self.nx as int, self.ny as int, x as int, y as int, z as int) < self.cells@.len(),
        ensures
            r == self.cells@[cell_index(self.nx as int, self.ny as int, x as int, y as int, z as int)],
    {
        self.cells[self.index(x, y, z)]
    }

    /// The number of solid cells.
    pub fn solid_count(&self) -> (r: usize)
        ensures
            r == count_true(self.cells@),
    {
        count_solid(&self.cells)
    }
}

/// Reading a cell gives back what was last written to it, writing a cell
/// leaves every other cell alone, and the solid count moves by the change
/// made: the laws of `set`, `get` and `solid_count` on any well-formed mask.
pub proof fn lemma_mask_write_then_read(
    before: Seq<bool>,
    after: Seq<bool>,
    nx: int,
    ny: int,
    x: int,
    y: int,
    z: int,
    solid: bool,
)
    requires
        0 <= cell_index(nx, ny, x, y, z) < before.len(),
        after == before.update(cell_index(nx, ny, x, y, z), solid),
    ensures
        after[cell_index(nx, ny, x, y, z)] == solid,
        forall|i: int| 0 <= i < before.len() && i != cell_index(nx, ny, x, y, z) ==> after[i] == before[i],
        count_true(after) == count_true(before) - (if before[cell_index(nx, ny, x, y, z)] { 1int } else { 0int }) + (
        if solid { 1int } else { 0int }),
{
    lemma_count_true_update(before, cell_index(nx, ny, x, y, z), solid);
}

/// Distinct in-range coordinates name distinct cells, so writing one cell
/// never changes another.
pub proof fn lemma_cell_index_injective(nx: int, ny: int, nz: int, x1: int, y1: int, z1: int, x2: int, y2: int, z2: int)
    requires
        0 <= x1 < nx,
        0 <= y1 < ny,
        0 <= z1 < nz,
        0 <= x2 < nx,
        0 <= y2 < ny,
        0 <= z2 < nz,
        cell_index(nx, ny, x1, y1, z1) == cell_index(nx, ny, x2, y2, z2),
    ensures
        x1 == x2 && y1 == y2 && z1 == z2,
{
    assert(x1 == x2 && y1 == y2 && z1 == z2) by (nonlinear_arith)
        requires
            0 <= x1 < nx,
            0 <= y1 < ny,
            0 <= z1 < nz,
            0 <= x2 < nx,
            0 <= y2 < ny,
            0 <= z2 < nz,
            z1 * (nx * ny) + y1 * nx + x1 == z2 * (nx * ny) + y2 * nx + x2,
    ;
}

/// How a face of the simulation domain treats the flow.
#[derive(Debug, Clone, Copy, PartialEq, Eq, Structural)]
pub enum BoundaryType {
    /// Wraps around to the opposite face.
    Periodic,
    /// A no-slip bounce-back wall.
    BounceBack,
    /// A Zou-He velocity inlet or outlet.
    ZouHe,
}

/// The boundary treatment of the six faces of a simulation domain.
#[derive(Debug, Clone, Copy, PartialEq, Eq, Structural)]
pub struct BoundaryConditions {
    pub x_neg: BoundaryType,
    pub x_pos: BoundaryType,
    pub y_neg: BoundaryType,
    pub y_pos: BoundaryType,
    pub z_neg: BoundaryType,
    pub z_pos: BoundaryType,
}

impl Default for BoundaryConditions {
    /// A channel: walls on the y faces, periodic elsewhere.
    fn default() -> (r: BoundaryConditions)
        ensures
            r == (BoundaryConditions {
                x_neg: BoundaryType::Periodic,
                x_pos: BoundaryType::Periodic,
                y_neg: BoundaryType::BounceBack,
                y_pos: BoundaryType::BounceBack,
                z_neg: BoundaryType::Periodic,
                z_pos: BoundaryType::Periodic,
            }),
    {
        BoundaryConditions {
            x_neg: BoundaryType::Periodic,
            x_pos: BoundaryType::Periodic,
            y_neg: BoundaryType::BounceBack,
            y_pos: BoundaryType::BounceBack,
            z_neg: BoundaryType::Periodic,
            z_pos: BoundaryType::Periodic,
        }
    }
}

} // verus!
