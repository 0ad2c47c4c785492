//! Axes, extents, and the order cells are stored in.
//!
//! All six field components are plain `[x × y × z]` arrays of the same shape, `x`
//! innermost. Everything else about the grid (what an index *means*, which
//! neighbour a difference reads) is stated over the three facts proved here: an
//! index belongs to exactly one cell, every cell has one, and a step along an axis
//! is a fixed distance in the array.

use vstd::arithmetic::div_mod::{
    lemma_fundamental_div_mod, lemma_fundamental_div_mod_converse,
};
use vstd::prelude::*;

verus! {

/// One of the three coordinate axes.
#[derive(Clone, Copy, Debug, Eq, Hash, PartialEq, Structural)]
pub enum Axis {
    X,
    Y,
    Z,
}

impl Axis {
    /// All three axes, in cyclic order.
    pub const ALL: [Axis; 3] = [Axis::X, Axis::Y, Axis::Z];

    /// Position of this axis in an `[x, y, z]` array.
    pub open spec fn position(self) -> int {
        match self {
            Axis::X => 0,
            Axis::Y => 1,
            Axis::Z => 2,
        }
    }

    /// The axis after this one in the cycle `x → y → z → x`.
    pub open spec fn successor(self) -> Axis {
        match self {
            Axis::X => Axis::Y,
            Axis::Y => Axis::Z,
            Axis::Z => Axis::X,
        }
    }

    /// The axis before this one in the cycle.
    pub open spec fn predecessor(self) -> Axis {
        match self {
            Axis::X => Axis::Z,
            Axis::Y => Axis::X,
            Axis::Z => Axis::Y,
        }
    }

    /// Position of this axis in an `[x, y, z]` array.
    pub fn index(self) -> (r: usize)
        ensures
            r == self.position(),
            r < 3,
    {
        match self {
            Axis::X => 0,
            Axis::Y => 1,
            Axis::Z => 2,
        }
    }

    /// The next axis in the cyclic order `x → y → z → x`.
    pub fn next(self) -> (r: Axis)
        ensures
            r == self.successor(),
    {
        match self {
            Axis::X => Axis::Y,
            Axis::Y => Axis::Z,
            Axis::Z => Axis::X,
        }
    }

    /// The previous axis in the cyclic order.
    pub fn prev(self) -> (r: Axis)
        ensures
            r == self.predecessor(),
    {
        self.next().next()
    }
}

/// Going round the three axes comes back to the first, stepping back is
/// stepping forward twice, and no axis follows itself.
pub proof fn axes_cycle(axis: Axis)
    ensures
        axis.successor().successor().successor() == axis,
        axis.predecessor() == axis.successor().successor(),
        axis.successor().predecessor() == axis,
        axis.successor() != axis,
        axis.predecessor() != axis,
        axis.successor() != axis.predecessor(),
{
}

/// A cell, by its three coordinates.
pub struct Cell {
    pub x: int,
    pub y: int,
    pub z: int,
}

impl Cell {
    /// The coordinate along one axis.
    pub open spec fn along(self, axis: Axis) -> int {
        match axis {
            Axis::X => self.x,
            Axis::Y => self.y,
            Axis::Z => self.z,
        }
    }

    /// The cell `distance` further along one axis.
    pub open spec fn moved(self, axis: Axis, distance: int) -> Cell {
        match axis {
            Axis::X => Cell { x: self.x + distance, ..self },
            Axis::Y => Cell { y: self.y + distance, ..self },
            Axis::Z => Cell { z: self.z + distance, ..self },
        }
    }
}

/// The cell an `[x, y, z]` array names.
pub open spec fn cell_at(coord: [usize; 3]) -> Cell {
    Cell { x: coord@[0] as int, y: coord@[1] as int, z: coord@[2] as int }
}

/// Size of the grid in cells.
#[derive(Clone, Copy, Debug, Eq, Hash, PartialEq, Structural)]
pub struct Extent {
    pub x: u32,
    pub y: u32,
    pub z: u32,
}

impl Extent {
    /// Number of cells along one axis.
    pub open spec fn along(self, axis: Axis) -> int {
        match axis {
            Axis::X => self.x as int,
            Axis::Y => self.y as int,
            Axis::Z => self.z as int,
        }
    }

    /// Number of cells in all.
    pub open spec fn cells(self) -> int {
        self.x as int * self.y as int * self.z as int
    }

    /// Whether the cells can be counted and indexed on this machine.
    pub open spec fn countable(self) -> bool {
        &&& self.x as int * self.y as int <= usize::MAX
        &&& self.cells() <= usize::MAX
    }

    /// Whether a cell is one of this grid's.
    pub open spec fn has(self, cell: Cell) -> bool {
        &&& 0 <= cell.x < self.x
        &&& 0 <= cell.y < self.y
        &&& 0 <= cell.z < self.z
    }

    /// Where a cell is stored.
    pub open spec fn slot(self, cell: Cell) -> int {
        (cell.z * self.y + cell.y) * self.x + cell.x
    }

    /// Which cell is stored at an index.
    pub open spec fn cell(self, index: int) -> Cell {
        Cell {
            x: index % (self.x as int),
            y: (index / (self.x as int)) % (self.y as int),
            z: (index / (self.x as int)) / (self.y as int),
        }
    }

    /// Distance in elements between neighbours along one axis.
    pub open spec fn stride(self, axis: Axis) -> int {
        match axis {
            Axis::X => 1,
            Axis::Y => self.x as int,
            Axis::Z => self.x as int * self.y as int,
        }
    }

    pub fn new(x: u32, y: u32, z: u32) -> (r: Extent)
        ensures
            r.x == x,
            r.y == y,
            r.z == z,
    {
        Extent { x, y, z }
    }

    pub fn cube(side: u32) -> (r: Extent)
        ensures
            r.x == side,
            r.y == side,
            r.z == side,
    {
        Extent::new(side, side, side)
    }

    /// Extent as an `[x, y, z]` array.
    pub fn as_array(&self) -> (r: [usize; 3])
        ensures
            r@ == seq![self.x as usize, self.y as usize, self.z as usize],
            forall|axis: Axis| r@[#[trigger] axis.position()] == self.along(axis),
    {
        [self.x as usize, self.y as usize, self.z as usize]
    }

    /// The longest side, in cells.
    pub open spec fn longest_side(self) -> u32 {
        if self.x >= self.y && self.x >= self.z {
            self.x
        } else if self.y >= self.z {
            self.y
        } else {
            self.z
        }
    }

    /// The longest side, in cells.
    pub fn longest(&self) -> (r: u32)
        ensures
            r == self.longest_side(),
    {
        if self.x >= self.y && self.x >= self.z {
            self.x
        } else if self.y >= self.z {
            self.y
        } else {
            self.z
        }
    }

    /// Extent and cell count as the words a device is given: the count wraps
    /// where it does not fit a word.
    pub open spec fn words(self) -> Seq<u32> {
        seq![self.x, self.y, self.z, (self.cells() % 0x1_0000_0000) as u32]
    }

    /// Extent and cell count as the words a device is given.
    pub fn as_words(&self) -> (r: [u32; 4])
        requires
            self.countable(),
        ensures
            r@ == self.words(),
    {
        let low: u64 = self.total() as u64 % 0x1_0000_0000;
        [self.x, self.y, self.z, low as u32]
    }

    /// Whether the cells can be counted and indexed on this machine.
    pub fn is_countable(&self) -> (r: bool)
        ensures
            r == self.countable(),
    {
        match (self.x as usize).checked_mul(self.y as usize) {
            Some(plane) => plane.checked_mul(self.z as usize).is_some(),
            None => false,
        }
    }

    /// Number of cells, which is the length of every field array.
    pub fn total(&self) -> (r: usize)
        requires
            self.countable(),
        ensures
            r == self.cells(),
    {
        self.x as usize * self.y as usize * self.z as usize
    }

    /// Distance in elements between neighbours along each axis.
    ///
    /// The layout is x-major (adjacent `x` are adjacent in memory), which is
    /// what makes the innermost loop of a sweep unit-stride.
    pub fn strides(&self) -> (r: [usize; 3])
        requires
            self.x as int * self.y as int <= usize::MAX,
        ensures
            forall|axis: Axis| r@[#[trigger] axis.position()] == self.stride(axis),
            r@ == seq![1usize, self.x as usize, (self.x as int * self.y as int) as usize],
    {
        [1, self.x as usize, self.x as usize * self.y as usize]
    }

    /// Linear index of a cell.
    pub fn index(&self, coord: [usize; 3]) -> (r: usize)
        requires
            coord@[2] * self.y + coord@[1] <= usize::MAX,
            self.slot(cell_at(coord)) <= usize::MAX,
        ensures
            r == self.slot(cell_at(coord)),
    {
        assert(coord@[2] * self.y >= 0) by (nonlinear_arith);
        assert((coord@[2] * self.y + coord@[1]) * self.x >= 0) by (nonlinear_arith)
            requires
                coord@[2] * self.y >= 0,
        ;
        (coord[2] * self.y as usize + coord[1]) * self.x as usize + coord[0]
    }
}

/// A cell of the grid is stored inside the array, on its own row.
pub proof fn slot_in_range(extent: Extent, cell: Cell)
    requires
        extent.has(cell),
    ensures
        0 <= extent.slot(cell) < extent.cells(),
        extent.slot(cell) == cell.z * (extent.x * extent.y) + cell.y * extent.x + cell.x,
        0 <= cell.z * extent.y + cell.y <= extent.slot(cell),
{
    let (nx, ny, nz) = (extent.x as int, extent.y as int, extent.z as int);
    assert((cell.z * ny + cell.y) * nx == cell.z * (nx * ny) + cell.y * nx) by (nonlinear_arith);
    assert(cell.z * ny + cell.y < nz * ny) by (nonlinear_arith)
        requires
            0 <= cell.z < nz,
            0 <= cell.y < ny,
    ;
    assert(0 <= cell.z * ny + cell.y) by (nonlinear_arith)
        requires
            0 <= cell.z,
            0 <= cell.y,
            0 <= ny,
    ;
    let row = cell.z * ny + cell.y;
    assert(0 <= row * nx + cell.x < (nz * ny) * nx) by (nonlinear_arith)
        requires
            0 <= row < nz * ny,
            0 <= cell.x < nx,
    ;
    assert((nz * ny) * nx == nx * ny * nz) by (nonlinear_arith);
    assert(row <= row * nx) by (nonlinear_arith)
        requires
            0 <= row,
            1 <= nx,
    ;
}

/// The index of a cell leads back to the cell.
pub proof fn cell_of_slot(extent: Extent, cell: Cell)
    requires
        extent.has(cell),
    ensures
        extent.cell(extent.slot(cell)) == cell,
{
    let (nx, ny) = (extent.x as int, extent.y as int);
    let row = cell.z * ny + cell.y;
    lemma_fundamental_div_mod_converse(row * nx + cell.x, nx, row, cell.x);
    lemma_fundamental_div_mod_converse(row, ny, cell.z, cell.y);
}

/// Every index in the array belongs to a cell of the grid, and the cell leads
/// back to the index.
pub proof fn slot_of_cell(extent: Extent, index: int)
    requires
        0 <= index < extent.cells(),
    ensures
        extent.has(extent.cell(index)),
        extent.slot(extent.cell(index)) == index,
{
    let (nx, ny, nz) = (extent.x as int, extent.y as int, extent.z as int);
    assert(nx > 0 && ny > 0 && nz > 0) by (nonlinear_arith)
        requires
            0 < nx * ny * nz,
            0 <= nx,
            0 <= ny,
            0 <= nz,
    ;
    lemma_fundamental_div_mod(index, nx);
    let row = index / nx;
    lemma_fundamental_div_mod(row, ny);
    let z = row / ny;
    assert(row < ny * nz) by (nonlinear_arith)
        requires
            index == nx * row + index % nx,
            0 <= index % nx,
            index < nx * ny * nz,
            nx > 0,
    ;
    assert(0 <= row) by (nonlinear_arith)
        requires
            index == nx * row + index % nx,
            index % nx < nx,
            0 <= index,
            nx > 0,
    ;
    assert(z < nz) by (nonlinear_arith)
        requires
            row == ny * z + row % ny,
            0 <= row % ny,
            row < ny * nz,
            ny > 0,
    ;
    assert(0 <= z) by (nonlinear_arith)
        requires
            row == ny * z + row % ny,
            row % ny < ny,
            0 <= row,
            ny > 0,
    ;
    assert((z * ny + row % ny) * nx + index % nx == index) by (nonlinear_arith)
        requires
            index == nx * row + index % nx,
            row == ny * z + row % ny,
    ;
}

/// No two cells share an index.
pub proof fn slots_distinct(extent: Extent, a: Cell, b: Cell)
    requires
        extent.has(a),
        extent.has(b),
        extent.slot(a) == extent.slot(b),
    ensures
        a == b,
{
    cell_of_slot(extent, a);
    cell_of_slot(extent, b);
}

/// Moving along an axis moves by that axis's stride in the array.
pub proof fn slot_moves_by_stride(extent: Extent, cell: Cell, axis: Axis, distance: int)
    ensures
        extent.slot(cell.moved(axis, distance)) == extent.slot(cell) + distance * extent.stride(
            axis,
        ),
{
    let (nx, ny) = (extent.x as int, extent.y as int);
    let (y, z) = (cell.y, cell.z);
    assert((z * ny + (y + distance)) * nx == (z * ny + y) * nx + distance * nx)
        by (nonlinear_arith);
    assert(((z + distance) * ny + y) * nx == (z * ny + y) * nx + distance * (nx * ny))
        by (nonlinear_arith);
}

} // verus!
