//! Seam-safe cube-map addressing used by terrain, grass, mowing, and interaction.
//!
//! Every six-face grid stores its cells face-major, then row-major:
//! face `f`, row `y`, column `x` lives at `f * r * r + y * r + x`.

use vstd::prelude::*;
use vstd::std_specs::iter::IteratorSpec;

verus! {

/// One face of the cube that the sphere is projected onto.
#[derive(Clone, Copy, Debug, PartialEq, Eq, Hash, Structural)]
pub enum CubeFace {
    PositiveX,
    NegativeX,
    PositiveY,
    NegativeY,
    PositiveZ,
    NegativeZ,
}

/// Position of a face in the canonical face order.
pub open spec fn face_number(face: CubeFace) -> nat {
    match face {
        CubeFace::PositiveX => 0,
        CubeFace::NegativeX => 1,
        CubeFace::PositiveY => 2,
        CubeFace::NegativeY => 3,
        CubeFace::PositiveZ => 4,
        CubeFace::NegativeZ => 5,
    }
}

/// The face at position `n < 6` of the canonical face order.
pub open spec fn face_at(n: nat) -> CubeFace {
    if n == 0 {
        CubeFace::PositiveX
    } else if n == 1 {
        CubeFace::NegativeX
    } else if n == 2 {
        CubeFace::PositiveY
    } else if n == 3 {
        CubeFace::NegativeY
    } else if n == 4 {
        CubeFace::PositiveZ
    } else {
        CubeFace::NegativeZ
    }
}

impl CubeFace {
    /// Position of this face in the canonical order
    /// `+X, -X, +Y, -Y, +Z, -Z`.
    pub fn index(self) -> (index: usize)
        ensures
            index == face_number(self),
            index < 6,
    {
        match self {
            CubeFace::PositiveX => 0,
            CubeFace::NegativeX => 1,
            CubeFace::PositiveY => 2,
            CubeFace::NegativeY => 3,
            CubeFace::PositiveZ => 4,
            CubeFace::NegativeZ => 5,
        }
    }

    /// The face at position `index` of the canonical order.
    pub fn from_index(index: usize) -> (face: CubeFace)
        requires
            index < 6,
        ensures
            face == face_at(index as nat),
            face_number(face) == index,
    {
        if index == 0 {
            CubeFace::PositiveX
        } else if index == 1 {
            CubeFace::NegativeX
        } else if index == 2 {
            CubeFace::PositiveY
        } else if index == 3 {
            CubeFace::NegativeY
        } else if index == 4 {
            CubeFace::PositiveZ
        } else {
            CubeFace::NegativeZ
        }
    }

    /// All six faces in canonical order.
    pub fn all() -> (faces: [CubeFace; 6])
        ensures
            forall|i: int| 0 <= i < 6 ==> #[trigger] faces@[i] == face_at(i as nat),
    {
        [
            CubeFace::PositiveX,
            CubeFace::NegativeX,
            CubeFace::PositiveY,
            CubeFace::NegativeY,
            CubeFace::PositiveZ,
            CubeFace::NegativeZ,
        ]
    }
}

/// Every face has a distinct position, and every position names one face.
pub proof fn law_face_numbering_is_a_bijection(face: CubeFace, n: nat)
    ensures
        face_number(face) < 6,
        face_at(face_number(face)) == face,
        n < 6 ==> face_number(face_at(n)) == n,
{
}

/// One texel of one face.
#[derive(Clone, Copy, Debug, PartialEq, Eq, Hash, Structural)]
pub struct CubeCell {
    pub face: CubeFace,
    pub x: u32,
    pub y: u32,
}

/// Whether a six-face grid of this resolution can be addressed with `usize`.
pub open spec fn addressable(resolution: nat) -> bool {
    0 < resolution && 6 * resolution * resolution <= usize::MAX
}

/// Whether a cell lies on a grid of this resolution.
pub open spec fn cell_in_grid(cell: CubeCell, resolution: nat) -> bool {
    cell.x < resolution && cell.y < resolution
}

/// Flat storage index of a cell.
pub open spec fn cell_index(cell: CubeCell, resolution: nat) -> nat {
    face_number(cell.face) * resolution * resolution + (cell.y as nat) * resolution + (cell.x as nat)
}

/// The cell stored at a flat index.
pub open spec fn index_cell(index: nat, resolution: nat) -> CubeCell {
    let area = resolution * resolution;
    CubeCell {
        face: face_at(index / area),
        x: ((index % area) % resolution) as u32,
        y: ((index % area) / resolution) as u32,
    }
}

proof fn lemma_cell_index_bound(cell: CubeCell, resolution: nat)
    requires
        cell_in_grid(cell, resolution),
    ensures
        cell.y * resolution + cell.x < resolution * resolution,
        cell_index(cell, resolution) < 6 * resolution * resolution,
{
    let f = face_number(cell.face);
    let r = resolution;
    assert(cell.y * r + cell.x < r * r) by (nonlinear_arith)
        requires
            cell.x < r,
            cell.y < r,
    ;
    assert(f * r * r + r * r <= 6 * r * r) by (nonlinear_arith)
        requires
            f < 6,
    ;
}

/// Flat index and cell are inverse bijections between the cells of a grid
/// and the indices `0 .. 6 * r * r`.
pub proof fn law_cell_index_round_trips(cell: CubeCell, index: nat, resolution: nat)
    requires
        0 < resolution <= u32::MAX,
    ensures
        cell_in_grid(cell, resolution) ==> cell_index(cell, resolution) < 6 * resolution
            * resolution && index_cell(cell_index(cell, resolution), resolution) == cell,
        index < 6 * resolution * resolution ==> index / (resolution * resolution) < 6 && cell_in_grid(
            index_cell(index, resolution),
            resolution,
        ) && cell_index(index_cell(index, resolution), resolution) == index,
{
    let r = resolution;
    let area = r * r;
    assert(area > 0 && 6 * r * r == 6 * area) by (nonlinear_arith)
        requires
            r > 0,
            area == r * r,
    ;
    if cell_in_grid(cell, r) {
        lemma_cell_index_bound(cell, r);
        let f = face_number(cell.face);
        let within = cell.y * r + cell.x;
        let i = cell_index(cell, r);
        assert(i == f * area + within) by (nonlinear_arith)
            requires
                i == f * r * r + cell.y * r + cell.x,
                area == r * r,
                within == cell.y * r + cell.x,
        ;
        vstd::arithmetic::div_mod::lemma_fundamental_div_mod_converse(i as int, area as int, f as int, within as int);
        vstd::arithmetic::div_mod::lemma_fundamental_div_mod_converse(within as int, r as int, cell.y as int, cell.x as int);
        assert(within == cell.y * r + cell.x);
    }
    if index < 6 * r * r {
        let f = index / area;
        let within = index % area;
        vstd::arithmetic::div_mod::lemma_fundamental_div_mod(index as int, area as int);
        vstd::arithmetic::div_mod::lemma_mod_bound(index as int, area as int);
        assert(f < 6) by (nonlinear_arith)
            requires
                index == area * f + within,
                within >= 0,
                index < 6 * area,
                area > 0,
        ;
        let x = within % r;
        let y = within / r;
        vstd::arithmetic::div_mod::lemma_fundamental_div_mod(within as int, r as int);
        vstd::arithmetic::div_mod::lemma_mod_bound(within as int, r as int);
        assert(y < r) by (nonlinear_arith)
            requires
                within == r * y + x,
                x >= 0,
                within < area,
                area == r * r,
                r > 0,
        ;
        assert(index_cell(index, r).x == x && index_cell(index, r).y == y);
        assert(cell_index(index_cell(index, r), r) == f * r * r + y * r + x);
        assert(f * r * r + y * r + x == index) by (nonlinear_arith)
            requires
                index == area * f + within,
                within == r * y + x,
                area == r * r,
        ;
    }
}

/// Flat storage index of `cell` on a grid of `resolution`.
pub fn flat_index(cell: CubeCell, resolution: u32) -> (index: usize)
    requires
        addressable(resolution as nat),
        cell_in_grid(cell, resolution as nat),
    ensures
        index == cell_index(cell, resolution as nat),
        index < 6 * resolution * resolution,
{
    proof {
        lemma_cell_index_bound(cell, resolution as nat);
        let r = resolution as nat;
        let f = face_number(cell.face);
        assert(f * r * r <= cell_index(cell, r));
        assert(f * r <= f * r * r) by (nonlinear_arith)
            requires
                r > 0,
        ;
        assert(cell.y * r <= cell.y * r + cell.x);
    }
    let side = resolution as usize;
    cell.face.index() * side * side + cell.y as usize * side + cell.x as usize
}

/// The cell stored at flat index `index` of a grid of `resolution`.
pub fn cell_from_index(index: usize, resolution: u32) -> (cell: CubeCell)
    requires
        addressable(resolution as nat),
        index < 6 * resolution * resolution,
    ensures
        cell == index_cell(index as nat, resolution as nat),
        cell_in_grid(cell, resolution as nat),
        cell_index(cell, resolution as nat) == index,
{
    proof {
        law_cell_index_round_trips(CubeCell { face: CubeFace::PositiveX, x: 0, y: 0 }, index as nat, resolution as nat);
        let r = resolution as nat;
        assert(0 < r * r <= 6 * r * r) by (nonlinear_arith)
            requires
                r > 0,
        ;
        let within = (index as nat) % (r * r);
        vstd::arithmetic::div_mod::lemma_mod_bound(index as int, (r * r) as int);
        vstd::arithmetic::div_mod::lemma_div_is_ordered_by_denominator(within as int, 1, r as int);
    }
    let side = resolution as usize;
    let face_area = side * side;
    CubeCell {
        face: CubeFace::from_index(index / face_area),
        x: (index % face_area % side) as u32,
        y: (index % face_area / side) as u32,
    }
}

/// The cell reached by moving `(dx, dy)` texels within the cell's own face,
/// or `None` when the move leaves the face. Moves across a seam or corner
/// are resolved through the cube projection by the caller.
pub fn offset_within_face(cell: CubeCell, dx: i32, dy: i32, resolution: u32) -> (moved: Option<CubeCell>)
    ensures
        match moved {
            Some(m) => 0 <= cell.x + dx < resolution && 0 <= cell.y + dy < resolution && m
                == (CubeCell { face: cell.face, x: (cell.x + dx) as u32, y: (cell.y + dy) as u32 }),
            None => !(0 <= cell.x + dx < resolution && 0 <= cell.y + dy < resolution),
        },
{
    let x = cell.x as i64 + dx as i64;
    let y = cell.y as i64 + dy as i64;
    if 0 <= x && x < resolution as i64 && 0 <= y && y < resolution as i64 {
        Some(CubeCell { face: cell.face, x: x as u32, y: y as u32 })
    } else {
        None
    }
}

/// A value for every texel of all six faces.
#[derive(Clone, Debug)]
pub struct CubeGrid<T> {
    resolution: u32,
    cells: Vec<T>,
}

impl<T> View for CubeGrid<T> {
    type V = Seq<T>;

    closed spec fn view(&self) -> Seq<T> {
        self.cells@
    }
}

impl<T> CubeGrid<T> {
    /// Texels along each face edge.
    pub closed spec fn side(&self) -> nat {
        self.resolution as nat
    }

    /// Well-formed: a positive, addressable resolution with exactly one value
    /// per texel of the six faces.
    pub open spec fn wf(&self) -> bool {
        &&& addressable(self.side())
        &&& self@.len() == 6 * self.side() * self.side()
    }
}

/// Two grids of the same resolution and number of values.
pub open spec fn same_shape<T>(a: CubeGrid<T>, b: CubeGrid<T>) -> bool {
    a.side() == b.side() && a@.len() == b@.len()
}

/// Writes never change a grid's shape: the cell writers `get_mut` and `set`
/// keep [`same_shape`], the shape is kept along any chain of such writes,
/// and a well-formed grid stays well formed with `6 * r * r` values.
pub proof fn law_writes_keep_the_shape<T>(first: CubeGrid<T>, middle: CubeGrid<T>, last: CubeGrid<T>)
    requires
        same_shape(middle, first),
        same_shape(last, middle),
    ensures
        same_shape(last, first),
        same_shape(first, first),
        first.wf() ==> last.wf() && last@.len() == 6 * first.side() * first.side(),
{
}

impl<T: Clone> CubeGrid<T> {
    /// Creates a six-face grid initialized to `value`.
    pub fn new(resolution: u32, value: T) -> (grid: Self)
        requires
            addressable(resolution as nat),
        ensures
            grid.wf(),
            grid.side() == resolution,
            forall|i: int| 0 <= i < grid@.len() ==> cloned(value, #[trigger] grid@[i]),
    {
        let side = resolution as usize;
        proof {
            let r = resolution as nat;
            assert(6 * r <= 6 * r * r) by (nonlinear_arith)
                requires
                    r > 0,
            ;
        }
        CubeGrid { resolution, cells: vec![value; 6 * side * side] }
    }
}

impl<T> CubeGrid<T> {
    /// Texels along each face edge.
    pub fn resolution(&self) -> (resolution: u32)
        ensures
            resolution == self.side(),
    {
        self.resolution
    }

    /// Number of texels over all six faces.
    pub fn len(&self) -> (len: usize)
        ensures
            len == self@.len(),
    {
        self.cells.len()
    }

    /// Whether the grid has no texels (never true for a well-formed grid).
    pub fn is_empty(&self) -> (empty: bool)
        ensures
            empty == (self@.len() == 0),
    {
        self.cells.len() == 0
    }

    /// Flat storage index of a cell of this grid.
    pub fn flat_index(&self, cell: CubeCell) -> (index: usize)
        requires
            self.wf(),
            cell_in_grid(cell, self.side()),
        ensures
            index == cell_index(cell, self.side()),
            index < self@.len(),
    {
        flat_index(cell, self.resolution)
    }

    /// The cell stored at a flat index of this grid.
    pub fn cell_from_index(&self, index: usize) -> (cell: CubeCell)
        requires
            self.wf(),
            index < self@.len(),
        ensures
            cell == index_cell(index as nat, self.side()),
            cell_in_grid(cell, self.side()),
            cell_index(cell, self.side()) == index,
    {
        cell_from_index(index, self.resolution)
    }

    /// The value of a cell.
    pub fn get(&self, cell: CubeCell) -> (value: &T)
        requires
            self.wf(),
            cell_in_grid(cell, self.side()),
        ensures
            *value == self@[cell_index(cell, self.side()) as int],
    {
        let index = flat_index(cell, self.resolution);
        &self.cells[index]
    }

    /// Mutable access to the value of a cell; the other cells are untouched.
    pub fn get_mut(&mut self, cell: CubeCell) -> (value: &mut T)
        requires
            old(self).wf(),
            cell_in_grid(cell, old(self).side()),
        ensures
            *value == old(self)@[cell_index(cell, old(self).side()) as int],
            final(self).side() == old(self).side(),
            final(self)@ == old(self)@.update(cell_index(cell, old(self).side()) as int, *final(value)),
            same_shape(*final(self), *old(self)),
    {
        let index = flat_index(cell, self.resolution);
        &mut self.cells[index]
    }

    /// Every value in flat-index order.
    pub fn iter(&self) -> (values: core::slice::Iter<'_, T>)
        ensures
            values.remaining() == self@.map_values(|v: T| &v),
    {
        self.cells.as_slice().iter()
    }

    /// All values in flat-index order.
    pub fn as_slice(&self) -> (values: &[T])
        ensures
            values@ == self@,
    {
        self.cells.as_slice()
    }

    /// All values in flat-index order, for in-place updates.
    pub fn as_mut_slice(&mut self) -> (values: &mut [T])
        ensures
            values@ == old(self)@,
            final(self)@ == final(values)@,
            final(self).side() == old(self).side(),
    {
        self.cells.as_mut_slice()
    }

    /// Replaces the value at a flat index; the other cells are untouched.
    pub fn set(&mut self, index: usize, value: T)
        requires
            index < old(self)@.len(),
        ensures
            final(self)@ == old(self)@.update(index as int, value),
            final(self).side() == old(self).side(),
            same_shape(*final(self), *old(self)),
    {
        self.cells.set(index, value);
    }

    /// Every cell of the grid in flat-index order.
    pub fn cells(&self) -> (cells: Vec<CubeCell>)
        requires
            self.wf(),
        ensures
            cells@.len() == self@.len(),
            forall|i: int| 0 <= i < cells@.len() ==> #[trigger] cells@[i] == index_cell(i as nat, self.side()),
    {
        let len = self.cells.len();
        let mut cells: Vec<CubeCell> = Vec::with_capacity(len);
        let mut index: usize = 0;
        while index < len
            invariant
                self.wf(),
                len == self@.len(),
                index <= len,
                cells@.len() == index,
                forall|i: int| 0 <= i < index ==> #[trigger] cells@[i] == index_cell(i as nat, self.side()),
            decreases len - index,
        {
            cells.push(cell_from_index(index, self.resolution));
            index = index + 1;
        }
        cells
    }
}

} // verus!
