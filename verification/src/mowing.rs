//! CPU-authoritative six-face mowing state: packed cells, cutting, and the
//! dirty tiles that mirror changes to the GPU.

use vstd::prelude::*;
use crate::cube_map::{
    CubeCell, CubeFace, addressable, cell_from_index, cell_in_grid, cell_index, face_at,
    face_number, flat_index, index_cell, law_cell_index_round_trips,
};
use crate::regions::{are_regions_of, connected_regions, neighbor_table, region_views};

verus! {

/// Cut amount from which a cell counts as mowed.
pub const CUT_COVERAGE_THRESHOLD: u8 = 230;

/// Edge length, in cells, of a dirty upload tile.
pub const DEFAULT_DIRTY_TILE_SIZE: u32 = 16;

/// One mowing cell packed into 32 bits: cut amount, two octahedral comb
/// bytes, and the visual epoch of the last cut, from low byte to high.
#[derive(Clone, Copy, Debug, PartialEq, Eq, Structural)]
pub struct PackedMowingCell(pub u32);

impl Default for PackedMowingCell {
    fn default() -> (cell: Self)
        ensures
            cell.0 == 0,
    {
        PackedMowingCell(0)
    }
}

/// Byte `k` (0 = least significant) of a packed word.
pub open spec fn packed_byte(word: u32, k: u32) -> u8 {
    ((word >> (8 * k)) & 0xff) as u8
}

/// The word holding the four bytes `b0` (low) to `b3` (high).
pub open spec fn pack_bytes(b0: u8, b1: u8, b2: u8, b3: u8) -> u32 {
    (b0 as u32) | ((b1 as u32) << 8u32) | ((b2 as u32) << 16u32) | ((b3 as u32) << 24u32)
}

impl PackedMowingCell {
    /// Cut amount, from 0 (uncut) to 255.
    pub fn cut_amount(self) -> (cut: u8)
        ensures
            cut == packed_byte(self.0, 0),
    {
        proof {
            let w = self.0;
            assert(((w >> 0u32) & 0xff) as u8 == w as u8) by (bit_vector);
        }
        self.0 as u8
    }

    /// First octahedral comb-direction byte.
    pub fn comb_x(self) -> (comb: u8)
        ensures
            comb == packed_byte(self.0, 1),
    {
        proof {
            let w = self.0;
            assert(((w >> 8u32) & 0xff) as u8 == (w >> 8u32) as u8) by (bit_vector);
        }
        (self.0 >> 8) as u8
    }

    /// Second octahedral comb-direction byte.
    pub fn comb_y(self) -> (comb: u8)
        ensures
            comb == packed_byte(self.0, 2),
    {
        proof {
            let w = self.0;
            assert(((w >> 16u32) & 0xff) as u8 == (w >> 16u32) as u8) by (bit_vector);
        }
        (self.0 >> 16) as u8
    }

    /// Visual epoch of the most recent cut.
    pub fn recent_epoch(self) -> (epoch: u8)
        ensures
            epoch == packed_byte(self.0, 3),
    {
        proof {
            let w = self.0;
            assert(((w >> 24u32) & 0xff) as u8 == (w >> 24u32) as u8) by (bit_vector);
        }
        (self.0 >> 24) as u8
    }

    /// Packs a cut amount, comb bytes, and epoch into one cell.
    pub fn packed(cut: u8, comb: (u8, u8), recent_epoch: u8) -> (cell: Self)
        ensures
            cell.0 == pack_bytes(cut, comb.0, comb.1, recent_epoch),
    {
        PackedMowingCell(
            (cut as u32) | ((comb.0 as u32) << 8) | ((comb.1 as u32) << 16) | ((recent_epoch as u32)
                << 24),
        )
    }
}

/// Packing and unpacking are inverse: each byte reads back as written, and
/// a word is the packing of its own bytes.
pub proof fn law_packed_cell_round_trips(b0: u8, b1: u8, b2: u8, b3: u8, word: u32)
    ensures
        packed_byte(pack_bytes(b0, b1, b2, b3), 0) == b0,
        packed_byte(pack_bytes(b0, b1, b2, b3), 1) == b1,
        packed_byte(pack_bytes(b0, b1, b2, b3), 2) == b2,
        packed_byte(pack_bytes(b0, b1, b2, b3), 3) == b3,
        pack_bytes(
            packed_byte(word, 0),
            packed_byte(word, 1),
            packed_byte(word, 2),
            packed_byte(word, 3),
        ) == word,
{
    let w = pack_bytes(b0, b1, b2, b3);
    assert(((((b0 as u32) | ((b1 as u32) << 8u32) | ((b2 as u32) << 16u32) | ((b3 as u32) << 24u32)) >> 0u32) & 0xff) as u8 == b0) by (bit_vector);
    assert(((((b0 as u32) | ((b1 as u32) << 8u32) | ((b2 as u32) << 16u32) | ((b3 as u32) << 24u32)) >> 8u32) & 0xff) as u8 == b1) by (bit_vector);
    assert(((((b0 as u32) | ((b1 as u32) << 8u32) | ((b2 as u32) << 16u32) | ((b3 as u32) << 24u32)) >> 16u32) & 0xff) as u8 == b2) by (bit_vector);
    assert(((((b0 as u32) | ((b1 as u32) << 8u32) | ((b2 as u32) << 16u32) | ((b3 as u32) << 24u32)) >> 24u32) & 0xff) as u8 == b3) by (bit_vector);
    assert((((((word >> 0u32) & 0xff) as u8) as u32) | (((((word >> 8u32) & 0xff) as u8) as u32) << 8u32) | (((((word >> 16u32) & 0xff) as u8) as u32) << 16u32) | (((((word >> 24u32) & 0xff) as u8) as u32) << 24u32)) == word) by (bit_vector);
}

// ---------------------------------------------------------------------------
// Tile keys.
// ---------------------------------------------------------------------------

/// Sort key of a dirty tile: face in the top bits, then row, then column,
/// each coordinate in 14 bits.
pub open spec fn spec_tile_key(face: nat, x: u32, y: u32) -> u32 {
    ((face as u32) << 28u32) | ((y & 0x3fff) << 14u32) | (x & 0x3fff)
}

/// Sort key of the tile at `(x, y)` of a face.
pub fn tile_key(face: CubeFace, x: u32, y: u32) -> (key: u32)
    ensures
        key == spec_tile_key(face_number(face), x, y),
{
    ((face.index() as u32) << 28) | ((y & 0x3fff) << 14) | (x & 0x3fff)
}

/// Face, column, and row of a tile key.
pub fn decode_tile_key(key: u32) -> (tile: (CubeFace, u32, u32))
    requires
        key >> 28u32 < 6,
    ensures
        face_number(tile.0) == key >> 28u32,
        tile.1 == key & 0x3fff,
        tile.2 == (key >> 14u32) & 0x3fff,
{
    (CubeFace::from_index((key >> 28) as usize), key & 0x3fff, (key >> 14) & 0x3fff)
}

/// Tile keys decode to what they encode, and their numeric order is the
/// order of face, then row, then column: sorting keys sorts tiles.
pub proof fn law_tile_key_round_trips_and_orders(f1: nat, x1: u32, y1: u32, f2: nat, x2: u32, y2: u32)
    requires
        f1 < 6,
        f2 < 6,
        x1 < 0x4000,
        y1 < 0x4000,
        x2 < 0x4000,
        y2 < 0x4000,
    ensures
        spec_tile_key(f1, x1, y1) >> 28u32 == f1,
        spec_tile_key(f1, x1, y1) & 0x3fff == x1,
        (spec_tile_key(f1, x1, y1) >> 14u32) & 0x3fff == y1,
        spec_tile_key(f1, x1, y1) < spec_tile_key(f2, x2, y2) <==> (f1 < f2 || (f1 == f2 && (y1
            < y2 || (y1 == y2 && x1 < x2)))),
{
    lemma_tile_key_value(f1, x1, y1);
    lemma_tile_key_value(f2, x2, y2);
    let k = spec_tile_key(f1, x1, y1);
    let fu = f1 as u32;
    assert(k >> 28u32 == fu && k & 0x3fff == x1 && (k >> 14u32) & 0x3fff == y1) by (bit_vector)
        requires
            k == (fu << 28u32) | ((y1 & 0x3fff) << 14u32) | (x1 & 0x3fff),
            fu < 6,
            x1 < 0x4000,
            y1 < 0x4000,
    ;
}

proof fn lemma_tile_key_value(f: nat, x: u32, y: u32)
    requires
        f < 6,
        x < 0x4000,
        y < 0x4000,
    ensures
        spec_tile_key(f, x, y) == f * 0x1000_0000 + y * 0x4000 + x,
{
    let fu = f as u32;
    assert(((fu << 28u32) | ((y & 0x3fff) << 14u32) | (x & 0x3fff)) == fu * 0x1000_0000 + y
        * 0x4000 + x) by (bit_vector)
        requires
            fu < 6,
            x < 0x4000,
            y < 0x4000,
    ;
}


// ---------------------------------------------------------------------------
// The mowing grid.
// ---------------------------------------------------------------------------

/// Dirty tiles along each face edge.
pub open spec fn tiles_per_face(resolution: nat) -> nat {
    (resolution + 15) / 16
}

/// Resolutions whose cells can be stored and whose tiles fit the 14-bit
/// coordinates of a tile key.
pub open spec fn valid_mowing_resolution(resolution: nat) -> bool {
    &&& addressable(resolution)
    &&& resolution <= 0x4_0000
}

/// Dirty-tile slot of the tile containing `cell`.
pub open spec fn tile_slot(cell: CubeCell, resolution: nat) -> nat {
    cell_index(
        CubeCell { face: cell.face, x: cell.x / 16, y: cell.y / 16 },
        tiles_per_face(resolution),
    )
}

/// Whether the cut amount of a packed cell reaches the coverage threshold.
pub open spec fn is_cut(cell: PackedMowingCell) -> bool {
    packed_byte(cell.0, 0) >= CUT_COVERAGE_THRESHOLD
}

/// Cut amount after adding `increment` to `previous`, saturating at 255.
pub open spec fn saturated_cut(previous: u8, increment: u8) -> u8 {
    if previous + increment > 255 {
        255
    } else {
        (previous + increment) as u8
    }
}

/// A compact copy of one dirty tile's packed cells, row-major.
#[derive(Clone, Debug, PartialEq, Eq)]
pub struct DirtyTileUpdate {
    pub face: CubeFace,
    pub origin_x: u32,
    pub origin_y: u32,
    pub width: u32,
    pub height: u32,
    pub cells: Vec<u32>,
}

/// Dirty-tile slot described by an update.
pub open spec fn update_slot(update: DirtyTileUpdate, resolution: nat) -> nat {
    cell_index(
        CubeCell { face: update.face, x: update.origin_x / 16, y: update.origin_y / 16 },
        tiles_per_face(resolution),
    )
}

/// `update` is the upload of dirty-tile slot `slot` of a grid whose cells are
/// `cells`: the slot's tile origin, its size clipped at the face edge, and a
/// row-major copy of its packed cells.
pub open spec fn tile_matches(
    update: DirtyTileUpdate,
    cells: Seq<PackedMowingCell>,
    resolution: nat,
    slot: nat,
) -> bool {
    let tile = index_cell(slot, tiles_per_face(resolution));
    let w = update.width as nat;
    &&& update.face == tile.face
    &&& update.origin_x == tile.x * 16
    &&& update.origin_y == tile.y * 16
    &&& update.width == if resolution - update.origin_x < 16 {
        resolution - update.origin_x
    } else {
        16
    }
    &&& update.height == if resolution - update.origin_y < 16 {
        resolution - update.origin_y
    } else {
        16
    }
    &&& update.cells@.len() == update.width * update.height
    &&& forall|k: int|
        #![trigger update.cells@[k]]
        0 <= k < update.cells@.len() ==> update.cells@[k] == cells[cell_index(
            CubeCell {
                face: tile.face,
                x: (update.origin_x + k % (w as int)) as u32,
                y: (update.origin_y + k / (w as int)) as u32,
            },
            resolution,
        ) as int].0
}

/// Where one dirty upload tile lies on its face: its origin cell and its size,
/// clipped at the face edge.
#[derive(Clone, Copy, Debug, PartialEq, Eq, Structural)]
pub struct DirtyTile {
    pub face: CubeFace,
    pub origin_x: u32,
    pub origin_y: u32,
    pub width: u32,
    pub height: u32,
}

/// The placement of dirty-tile slot `slot` on a grid of this resolution.
pub open spec fn tile_placement(slot: nat, resolution: nat) -> DirtyTile {
    let tile = index_cell(slot, tiles_per_face(resolution));
    let origin_x = tile.x * 16;
    let origin_y = tile.y * 16;
    DirtyTile {
        face: tile.face,
        origin_x: origin_x as u32,
        origin_y: origin_y as u32,
        width: (if resolution - origin_x < 16 { resolution - origin_x } else { 16 }) as u32,
        height: (if resolution - origin_y < 16 { resolution - origin_y } else { 16 }) as u32,
    }
}

/// The packed cells of `tile`, row-major.
pub open spec fn staged_cells(
    tile: DirtyTile,
    cells: Seq<PackedMowingCell>,
    resolution: nat,
) -> Seq<PackedMowingCell> {
    let w = tile.width as int;
    Seq::new(
        (tile.width * tile.height) as nat,
        |k: int|
            cells[cell_index(
                CubeCell { face: tile.face, x: (tile.origin_x + k % w) as u32, y: (tile.origin_y + k / w) as u32 },
                resolution,
            ) as int],
    )
}

/// What one cut did to one cell.
#[derive(Clone, Copy, Debug, PartialEq, Eq, Structural)]
pub struct CellCut {
    /// Whether the cell is grass; rock cells are never changed.
    pub mowable: bool,
    /// The cell's cut amount after the cut.
    pub cut: u8,
    /// Whether this cut made the cell count as mowed for the first time.
    pub newly_covered: bool,
}

/// Rejected snapshot data.
#[derive(Clone, Copy, Debug, PartialEq, Eq, Structural)]
pub enum SnapshotError {
    /// The snapshot was taken from a field of another resolution.
    ResolutionMismatch,
    /// Fractional cut progress has the wrong length or values outside `[0, 1)`.
    InvalidCutResiduals,
}

/// The integer, authoritative part of the mowing field: the packed cells, which
/// cells are grass, and which upload tiles changed since they were last taken.
#[derive(Clone, Debug)]
pub struct MowingGrid {
    resolution: u32,
    cells: Vec<PackedMowingCell>,
    mowable: Vec<bool>,
    dirty_flags: Vec<bool>,
    any_dirty: bool,
}

impl MowingGrid {
    /// Cells along each face edge.
    pub closed spec fn side(&self) -> nat {
        self.resolution as nat
    }

    /// The packed cells in flat-index order.
    pub closed spec fn cells_view(&self) -> Seq<PackedMowingCell> {
        self.cells@
    }

    /// Which cells are grass, in flat-index order.
    pub closed spec fn mowable_view(&self) -> Seq<bool> {
        self.mowable@
    }

    /// Which dirty-tile slots hold changes not yet taken.
    pub closed spec fn dirty_view(&self) -> Seq<bool> {
        self.dirty_flags@
    }

    /// The summary flag never hides a dirty slot.
    pub closed spec fn dirty_summary_ok(&self) -> bool {
        !self.any_dirty ==> forall|t: int| 0 <= t < self.dirty_flags@.len() ==> !self.dirty_flags@[t]
    }

    /// Well-formed: matching lengths for a valid resolution.
    pub open spec fn wf(&self) -> bool {
        &&& valid_mowing_resolution(self.side())
        &&& self.cells_view().len() == 6 * self.side() * self.side()
        &&& self.mowable_view().len() == 6 * self.side() * self.side()
        &&& self.dirty_view().len() == 6 * tiles_per_face(self.side()) * tiles_per_face(self.side())
        &&& self.dirty_summary_ok()
    }

    /// A grid of uncut cells over the given grass mask, with nothing dirty.
    pub fn new(resolution: u32, mowable: Vec<bool>) -> (grid: Self)
        requires
            valid_mowing_resolution(resolution as nat),
            mowable@.len() == 6 * resolution * resolution,
        ensures
            grid.wf(),
            grid.side() == resolution,
            grid.mowable_view() == mowable@,
            forall|i: int| 0 <= i < grid.cells_view().len() ==> #[trigger] grid.cells_view()[i] == PackedMowingCell(0),
            forall|t: int| 0 <= t < grid.dirty_view().len() ==> !#[trigger] grid.dirty_view()[t],
    {
        proof {
            lemma_tiles_addressable(resolution as nat);
        }
        let side = resolution as usize;
        let tiles = (resolution as usize + 15) / 16;
        let len = 6 * side * side;
        let tile_count = 6 * tiles * tiles;
        MowingGrid {
            resolution,
            cells: vec![PackedMowingCell(0); len],
            mowable,
            dirty_flags: vec![false; tile_count],
            any_dirty: false,
        }
    }

    /// Cells along each face edge.
    pub fn resolution(&self) -> (resolution: u32)
        ensures
            resolution == self.side(),
    {
        self.resolution
    }

    /// The packed cell at `cell`.
    pub fn cell(&self, cell: CubeCell) -> (packed: PackedMowingCell)
        requires
            self.wf(),
            cell_in_grid(cell, self.side()),
        ensures
            packed == self.cells_view()[cell_index(cell, self.side()) as int],
    {
        self.cells[flat_index(cell, self.resolution)]
    }

    /// Whether `cell` is grass.
    pub fn is_mowable(&self, cell: CubeCell) -> (mowable: bool)
        requires
            self.wf(),
            cell_in_grid(cell, self.side()),
        ensures
            mowable == self.mowable_view()[cell_index(cell, self.side()) as int],
    {
        self.mowable[flat_index(cell, self.resolution)]
    }

    /// Whether the cell at a flat index is grass that counts as mowed.
    pub fn is_covered(&self, index: usize) -> (covered: bool)
        requires
            self.wf(),
            index < self.cells_view().len(),
        ensures
            covered == (self.mowable_view()[index as int] && is_cut(self.cells_view()[index as int])),
    {
        self.mowable[index] && self.cells[index].cut_amount() >= CUT_COVERAGE_THRESHOLD
    }

    /// All packed cells in flat-index order.
    pub fn packed_cells(&self) -> (cells: &[PackedMowingCell])
        ensures
            cells@ == self.cells_view(),
    {
        self.cells.as_slice()
    }

    /// Records that the tile containing `cell` must be uploaded again.
    pub fn mark_dirty(&mut self, cell: CubeCell)
        requires
            old(self).wf(),
            cell_in_grid(cell, old(self).side()),
        ensures
            final(self).wf(),
            final(self).side() == old(self).side(),
            final(self).cells_view() == old(self).cells_view(),
            final(self).mowable_view() == old(self).mowable_view(),
            final(self).dirty_view() == old(self).dirty_view().update(tile_slot(cell, old(self).side()) as int, true),
    {
        let ghost r = self.resolution as nat;
        proof {
            lemma_tiles_addressable(r);
            lemma_tile_of_cell(cell, r);
        }
        let tiles = (self.resolution + 15) / 16;
        let tile = CubeCell { face: cell.face, x: cell.x / 16, y: cell.y / 16 };
        let slot = flat_index(tile, tiles);
        self.dirty_flags.set(slot, true);
        self.any_dirty = true;
    }

    /// Applies `increment` of cut to one grass cell, stamping the comb
    /// direction and epoch. The cut amount saturates at 255 and never
    /// decreases; the tile is marked dirty only when the packed cell changes.
    /// Rock cells are left untouched.
    pub fn cut_cell(&mut self, cell: CubeCell, increment: u8, comb: (u8, u8), recent_epoch: u8) -> (outcome: CellCut)
        requires
            old(self).wf(),
            cell_in_grid(cell, old(self).side()),
        ensures
            ({
                let i = cell_index(cell, old(self).side()) as int;
                let previous = old(self).cells_view()[i];
                let cut = saturated_cut(packed_byte(previous.0, 0), increment);
                let updated = PackedMowingCell(pack_bytes(cut, comb.0, comb.1, recent_epoch));
                &&& final(self).wf()
                &&& final(self).side() == old(self).side()
                &&& final(self).mowable_view() == old(self).mowable_view()
                &&& outcome.mowable == old(self).mowable_view()[i]
                &&& if !outcome.mowable {
                    &&& final(self).cells_view() == old(self).cells_view()
                    &&& final(self).dirty_view() == old(self).dirty_view()
                    &&& outcome.cut == packed_byte(previous.0, 0)
                    &&& !outcome.newly_covered
                } else {
                    &&& outcome.cut == cut
                    &&& final(self).cells_view() == old(self).cells_view().update(i, updated)
                    &&& final(self).dirty_view() == if updated == previous {
                        old(self).dirty_view()
                    } else {
                        old(self).dirty_view().update(tile_slot(cell, old(self).side()) as int, true)
                    }
                    &&& outcome.newly_covered == (!is_cut(previous) && cut >= CUT_COVERAGE_THRESHOLD)
                }
            }),
    {
        let index = flat_index(cell, self.resolution);
        let previous = self.cells[index];
        if !self.mowable[index] {
            return CellCut { mowable: false, cut: previous.cut_amount(), newly_covered: false };
        }
        let was_covered = previous.cut_amount() >= CUT_COVERAGE_THRESHOLD;
        let cut = previous.cut_amount().saturating_add(increment);
        let updated = PackedMowingCell::packed(cut, comb, recent_epoch);
        if updated != previous {
            self.cells.set(index, updated);
            self.mark_dirty(cell);
        } else {
            assert(self.cells@.update(index as int, updated) == self.cells@);
        }
        CellCut { mowable: true, cut, newly_covered: !was_covered && cut >= CUT_COVERAGE_THRESHOLD }
    }
}


impl MowingGrid {
    /// The upload for dirty-tile slot `slot`, copied from the current cells.
    #[verifier::spinoff_prover]
    fn tile_update(&self, slot: usize) -> (update: DirtyTileUpdate)
        requires
            self.wf(),
            slot < 6 * tiles_per_face(self.side()) * tiles_per_face(self.side()),
        ensures
            tile_matches(update, self.cells_view(), self.side(), slot as nat),
            update_slot(update, self.side()) == slot,
    {
        let ghost r = self.resolution as nat;
        proof {
            lemma_tiles_addressable(r);
        }
        let tiles = (self.resolution + 15) / 16;
        let tile = cell_from_index(slot, tiles);
        let origin_x = tile.x * 16;
        let origin_y = tile.y * 16;
        let width = if self.resolution - origin_x < 16 {
            self.resolution - origin_x
        } else {
            16
        };
        let height = if self.resolution - origin_y < 16 {
            self.resolution - origin_y
        } else {
            16
        };
        let ghost w = width as int;
        let mut cells: Vec<u32> = Vec::new();
        let mut row: u32 = 0;
        while row < height
            invariant
                self.wf(),
                r == self.side(),
                0 < width <= 16,
                0 < height <= 16,
                w == width,
                origin_x + width <= r,
                origin_y + height <= r,
                tile.x < tiles_per_face(r),
                tile.y < tiles_per_face(r),
                row <= height,
                cells@.len() == row * width,
                forall|k: int|
                    #![trigger cells@[k]]
                    0 <= k < cells@.len() ==> cells@[k] == self.cells_view()[cell_index(
                        CubeCell {
                            face: tile.face,
                            x: (origin_x + k % w) as u32,
                            y: (origin_y + k / w) as u32,
                        },
                        r,
                    ) as int].0,
            decreases height - row,
        {
            let mut col: u32 = 0;
            while col < width
                invariant
                    self.wf(),
                    r == self.side(),
                    0 < width <= 16,
                    w == width,
                    origin_x + width <= r,
                    origin_y + height <= r,
                    row < height,
                    col <= width,
                    cells@.len() == row * width + col,
                    forall|k: int|
                        #![trigger cells@[k]]
                        0 <= k < cells@.len() ==> cells@[k] == self.cells_view()[cell_index(
                            CubeCell {
                                face: tile.face,
                                x: (origin_x + k % w) as u32,
                                y: (origin_y + k / w) as u32,
                            },
                            r,
                        ) as int].0,
                decreases width - col,
            {
                let here = CubeCell { face: tile.face, x: origin_x + col, y: origin_y + row };
                let value = self.cells[flat_index(here, self.resolution)].0;
                proof {
                    let k = row * width + col;
                    vstd::arithmetic::div_mod::lemma_fundamental_div_mod_converse(k as int, w, row as int, col as int);
                }
                cells.push(value);
                col = col + 1;
            }
            proof {
                assert((row + 1) * width == row * width + width) by (nonlinear_arith);
            }
            row = row + 1;
        }
        let update = DirtyTileUpdate { face: tile.face, origin_x, origin_y, width, height, cells };
        assert(update.origin_x / 16 == tile.x && update.origin_y / 16 == tile.y);
        update
    }

    /// Drains every dirty tile, in increasing slot order (face, then row,
    /// then column), as a copy of its current cells. Afterwards nothing is
    /// dirty, so a second call returns no tiles.
    pub fn take_dirty_tiles(&mut self) -> (updates: Vec<DirtyTileUpdate>)
        requires
            old(self).wf(),
        ensures
            final(self).wf(),
            final(self).side() == old(self).side(),
            final(self).cells_view() == old(self).cells_view(),
            final(self).mowable_view() == old(self).mowable_view(),
            final(self).dirty_view().len() == old(self).dirty_view().len(),
            forall|t: int| 0 <= t < final(self).dirty_view().len() ==> !#[trigger] final(self).dirty_view()[t],
            forall|i: int|
                #![trigger updates@[i]]
                0 <= i < updates@.len() ==> tile_matches(
                    updates@[i],
                    old(self).cells_view(),
                    old(self).side(),
                    update_slot(updates@[i], old(self).side()),
                ) && old(self).dirty_view()[update_slot(updates@[i], old(self).side()) as int],
            forall|i: int, j: int|
                0 <= i < j < updates@.len() ==> update_slot(#[trigger] updates@[i], old(self).side())
                    < update_slot(#[trigger] updates@[j], old(self).side()),
            forall|t: int|
                0 <= t < old(self).dirty_view().len() && #[trigger] old(self).dirty_view()[t] ==> exists|i: int|
                    0 <= i < updates@.len() && update_slot(#[trigger] updates@[i], old(self).side()) == t,
    {
        let mut updates: Vec<DirtyTileUpdate> = Vec::new();
        if !self.any_dirty {
            return updates;
        }
        let ghost r = self.resolution as nat;
        let ghost old_dirty = self.dirty_flags@;
        proof {
            lemma_tiles_addressable(r);
        }
        let tiles = (self.resolution as usize + 15) / 16;
        let slots = 6 * tiles * tiles;
        let mut slot: usize = 0;
        while slot < slots
            invariant
                self.wf(),
                r == self.side(),
                slots == self.dirty_view().len(),
                old_dirty.len() == slots,
                self.cells_view() == old(self).cells_view(),
                self.mowable_view() == old(self).mowable_view(),
                self.side() == old(self).side(),
                old_dirty == old(self).dirty_view(),
                self.any_dirty,
                slot <= slots,
                forall|t: int| 0 <= t < slot ==> !#[trigger] self.dirty_flags@[t],
                forall|t: int| slot <= t < slots ==> #[trigger] self.dirty_flags@[t] == old_dirty[t],
                forall|i: int|
                    #![trigger updates@[i]]
                    0 <= i < updates@.len() ==> tile_matches(
                        updates@[i],
                        self.cells_view(),
                        r,
                        update_slot(updates@[i], r),
                    ) && old_dirty[update_slot(updates@[i], r) as int] && update_slot(updates@[i], r) < slot,
                forall|i: int, j: int|
                    0 <= i < j < updates@.len() ==> update_slot(#[trigger] updates@[i], r) < update_slot(
                        #[trigger] updates@[j],
                        r,
                    ),
                forall|t: int|
                    0 <= t < slot && #[trigger] old_dirty[t] ==> exists|i: int|
                        0 <= i < updates@.len() && update_slot(#[trigger] updates@[i], r) == t,
            decreases slots - slot,
        {
            if self.dirty_flags[slot] {
                let update = self.tile_update(slot);
                let ghost before = updates@;
                updates.push(update);
                self.dirty_flags.set(slot, false);
                proof {
                    assert(updates@[before.len() as int] == update);
                    assert forall|t: int| 0 <= t < slot + 1 && #[trigger] old_dirty[t] implies exists|i: int|
                        0 <= i < updates@.len() && update_slot(#[trigger] updates@[i], r) == t by {
                        if t == slot {
                            assert(update_slot(updates@[before.len() as int], r) == t);
                        } else {
                            let i = choose|i: int| 0 <= i < before.len() && update_slot(#[trigger] before[i], r) == t;
                            assert(updates@[i] == before[i]);
                        }
                    }
                }
            } else {
                proof {
                    assert forall|t: int| 0 <= t < slot + 1 && #[trigger] old_dirty[t] implies exists|i: int|
                        0 <= i < updates@.len() && update_slot(#[trigger] updates@[i], r) == t by {
                        if t == slot {
                            assert(!old_dirty[t]);
                        }
                    }
                }
            }
            slot = slot + 1;
        }
        self.any_dirty = false;
        updates
    }
}

impl MowingGrid {
    /// The placement of dirty-tile slot `slot`.
    fn locate_tile(&self, slot: usize) -> (tile: DirtyTile)
        requires
            self.wf(),
            slot < 6 * tiles_per_face(self.side()) * tiles_per_face(self.side()),
        ensures
            tile == tile_placement(slot as nat, self.side()),
            0 < tile.width <= 16,
            0 < tile.height <= 16,
            tile.origin_x + tile.width <= self.side(),
            tile.origin_y + tile.height <= self.side(),
    {
        proof {
            lemma_tiles_addressable(self.resolution as nat);
        }
        let tiles = (self.resolution + 15) / 16;
        let cell = cell_from_index(slot, tiles);
        let origin_x = cell.x * 16;
        let origin_y = cell.y * 16;
        let width = if self.resolution - origin_x < 16 {
            self.resolution - origin_x
        } else {
            16
        };
        let height = if self.resolution - origin_y < 16 {
            self.resolution - origin_y
        } else {
            16
        };
        DirtyTile { face: cell.face, origin_x, origin_y, width, height }
    }

    /// Replaces the contents of `staging` with the packed cells of `tile`,
    /// row-major.
    fn stage_tile_cells(&self, tile: DirtyTile, staging: &mut Vec<PackedMowingCell>)
        requires
            self.wf(),
            0 < tile.width <= 16,
            0 < tile.height <= 16,
            tile.origin_x + tile.width <= self.side(),
            tile.origin_y + tile.height <= self.side(),
        ensures
            final(staging)@ == staged_cells(tile, self.cells_view(), self.side()),
    {
        let ghost r = self.side();
        let ghost w = tile.width as int;
        staging.clear();
        let mut row: u32 = 0;
        while row < tile.height
            invariant
                self.wf(),
                r == self.side(),
                w == tile.width,
                0 < tile.width <= 16,
                0 < tile.height <= 16,
                tile.origin_x + tile.width <= r,
                tile.origin_y + tile.height <= r,
                row <= tile.height,
                staging@.len() == row * tile.width,
                forall|k: int|
                    0 <= k < staging@.len() ==> #[trigger] staging@[k] == staged_cells(tile, self.cells_view(), r)[k],
            decreases tile.height - row,
        {
            let mut col: u32 = 0;
            while col < tile.width
                invariant
                    self.wf(),
                    r == self.side(),
                    w == tile.width,
                    0 < tile.width <= 16,
                    0 < tile.height <= 16,
                    tile.origin_x + tile.width <= r,
                    tile.origin_y + tile.height <= r,
                    row < tile.height,
                    col <= tile.width,
                    staging@.len() == row * tile.width + col,
                    forall|k: int|
                        0 <= k < staging@.len() ==> #[trigger] staging@[k] == staged_cells(tile, self.cells_view(), r)[k],
                decreases tile.width - col,
            {
                let here = CubeCell { face: tile.face, x: tile.origin_x + col, y: tile.origin_y + row };
                let value = self.cells[flat_index(here, self.resolution)];
                proof {
                    let k = row * tile.width + col;
                    vstd::arithmetic::div_mod::lemma_fundamental_div_mod_converse(k as int, w, row as int, col as int);
                    assert(k < tile.width * tile.height) by (nonlinear_arith)
                        requires
                            k == row * tile.width + col,
                            col < tile.width,
                            row < tile.height,
                    ;
                }
                staging.push(value);
                col = col + 1;
            }
            proof {
                assert((row + 1) * tile.width == row * tile.width + tile.width) by (nonlinear_arith);
            }
            row = row + 1;
        }
        assert(row * tile.width == tile.width * tile.height) by (nonlinear_arith)
            requires
                row == tile.height,
        ;
        assert(staging@ =~= staged_cells(tile, self.cells_view(), r));
    }

    /// Takes the first dirty tile at slot `cursor` or later: clears its dirty
    /// flag, replaces the contents of `staging` with a row-major copy of its
    /// cells, and returns its slot and placement. Returns `None`, changing
    /// nothing, when no slot from `cursor` on is dirty. Calling it again from
    /// the returned slot plus one drains the tiles in the order of
    /// `take_dirty_tiles`, reusing one staging buffer throughout.
    pub fn stage_dirty_tile(&mut self, cursor: usize, staging: &mut Vec<PackedMowingCell>) -> (staged: Option<
        (usize, DirtyTile),
    >)
        requires
            old(self).wf(),
        ensures
            final(self).wf(),
            final(self).side() == old(self).side(),
            final(self).cells_view() == old(self).cells_view(),
            final(self).mowable_view() == old(self).mowable_view(),
            match staged {
                None => {
                    &&& forall|t: int| cursor <= t < old(self).dirty_view().len() ==> !#[trigger] old(self).dirty_view()[t]
                    &&& final(self).dirty_view() == old(self).dirty_view()
                    &&& final(staging)@ == old(staging)@
                },
                Some((slot, tile)) => {
                    &&& cursor <= slot < old(self).dirty_view().len()
                    &&& old(self).dirty_view()[slot as int]
                    &&& forall|t: int| cursor <= t < slot ==> !#[trigger] old(self).dirty_view()[t]
                    &&& final(self).dirty_view() == old(self).dirty_view().update(slot as int, false)
                    &&& tile == tile_placement(slot as nat, old(self).side())
                    &&& final(staging)@ == staged_cells(tile, old(self).cells_view(), old(self).side())
                },
            },
    {
        proof {
            lemma_tiles_addressable(self.resolution as nat);
        }
        let slots = self.dirty_flags.len();
        if !self.any_dirty {
            return None;
        }
        let mut slot: usize = cursor;
        while slot < slots
            invariant
                *self == *old(self),
                staging@ == old(staging)@,
                self.wf(),
                slots == self.dirty_view().len(),
                cursor <= slot,
                forall|t: int| cursor <= t < slot ==> !#[trigger] self.dirty_view()[t],
            decreases slots - slot,
        {
            if self.dirty_flags[slot] {
                let tile = self.locate_tile(slot);
                self.stage_tile_cells(tile, staging);
                self.dirty_flags.set(slot, false);
                return Some((slot, tile));
            }
            slot = slot + 1;
        }
        if cursor == 0 {
            self.any_dirty = false;
        }
        None
    }
}

/// Grass that is not yet mowed, in flat-index order.
pub open spec fn uncut_grass(mowable: Seq<bool>, cells: Seq<PackedMowingCell>) -> Seq<bool> {
    Seq::new(mowable.len(), |i: int| mowable[i] && !is_cut(cells[i]))
}

impl MowingGrid {
    /// The connected regions of grass still to mow, over the grid's neighbour
    /// table; the locator assist steers toward the heaviest of them.
    pub fn uncut_regions(&self, neighbors: &[[usize; 4]]) -> (regions: Vec<Vec<usize>>)
        requires
            self.wf(),
            neighbor_table(neighbors@, self.cells_view().len()),
        ensures
            are_regions_of(
                region_views(regions@),
                uncut_grass(self.mowable_view(), self.cells_view()),
                neighbors@,
            ),
    {
        let mut remaining: Vec<bool> = Vec::new();
        let mut i: usize = 0;
        while i < self.cells.len()
            invariant
                self.wf(),
                i <= self.cells@.len(),
                remaining@ == uncut_grass(self.mowable_view(), self.cells_view()).take(i as int),
            decreases self.cells@.len() - i,
        {
            remaining.push(self.mowable[i] && self.cells[i].cut_amount() < CUT_COVERAGE_THRESHOLD);
            i = i + 1;
        }
        assert(remaining@ == uncut_grass(self.mowable_view(), self.cells_view()));
        connected_regions(remaining.as_slice(), neighbors)
    }
}

impl MowingGrid {
    /// Checks that a snapshot of `resolution` with `cell_count` cells was
    /// taken from a field of this exact shape.
    pub fn check_snapshot_shape(&self, resolution: u32, cell_count: usize) -> (result: Result<(), SnapshotError>)
        ensures
            result == if resolution == self.side() && cell_count == self.cells_view().len() {
                Ok::<(), SnapshotError>(())
            } else {
                Err::<(), SnapshotError>(SnapshotError::ResolutionMismatch)
            },
    {
        if resolution != self.resolution || cell_count != self.cells.len() {
            Err(SnapshotError::ResolutionMismatch)
        } else {
            Ok(())
        }
    }

    /// Replaces every packed cell with a snapshot's cells and marks every tile
    /// dirty, so the GPU mirror is rebuilt from the authoritative cells.
    pub fn restore_cells(&mut self, cells: &[PackedMowingCell])
        requires
            old(self).wf(),
            cells@.len() == old(self).cells_view().len(),
        ensures
            final(self).wf(),
            final(self).side() == old(self).side(),
            final(self).cells_view() == cells@,
            final(self).mowable_view() == old(self).mowable_view(),
            final(self).dirty_view().len() == old(self).dirty_view().len(),
            forall|t: int| 0 <= t < final(self).dirty_view().len() ==> #[trigger] final(self).dirty_view()[t],
    {
        let mut restored: Vec<PackedMowingCell> = Vec::with_capacity(cells.len());
        let mut i: usize = 0;
        while i < cells.len()
            invariant
                i <= cells@.len(),
                restored@ == cells@.take(i as int),
            decreases cells@.len() - i,
        {
            restored.push(cells[i]);
            i = i + 1;
        }
        assert(cells@.take(cells@.len() as int) == cells@);
        self.cells = restored;
        let slots = self.dirty_flags.len();
        let mut slot: usize = 0;
        while slot < slots
            invariant
                slots == self.dirty_flags@.len(),
                slots == old(self).dirty_flags@.len(),
                self.resolution == old(self).resolution,
                self.cells@ == cells@,
                self.mowable@ == old(self).mowable@,
                slot <= slots,
                forall|t: int| 0 <= t < slot ==> #[trigger] self.dirty_flags@[t],
            decreases slots - slot,
        {
            self.dirty_flags.set(slot, true);
            slot = slot + 1;
        }
        self.any_dirty = true;
    }
}

/// Cutting never lowers a cell's cut amount, and a cell that is already at
/// full cut stays there.
pub proof fn law_cut_never_decreases(previous: u8, increment: u8)
    ensures
        saturated_cut(previous, increment) >= previous,
        previous == 255 ==> saturated_cut(previous, increment) == 255,
{
}

/// Coverage is counted once: after a cut brings a cell to the coverage
/// threshold, no later cut of that cell reports it as newly covered.
pub proof fn law_coverage_counted_once(
    previous: u8,
    first: u8,
    second: u8,
    comb: (u8, u8),
    epoch: u8,
)
    requires
        saturated_cut(previous, first) >= CUT_COVERAGE_THRESHOLD,
    ensures
        is_cut(PackedMowingCell(pack_bytes(saturated_cut(previous, first), comb.0, comb.1, epoch))),
{
    law_packed_cell_round_trips(saturated_cut(previous, first), comb.0, comb.1, epoch, 0);
}

/// Restamping a fully cut cell with its own comb and epoch leaves the packed
/// cell unchanged, so it causes no new upload.
pub proof fn law_full_restamp_changes_nothing(word: u32, increment: u8)
    requires
        packed_byte(word, 0) == 255,
    ensures
        pack_bytes(saturated_cut(packed_byte(word, 0), increment), packed_byte(word, 1), packed_byte(word, 2), packed_byte(word, 3)) == word,
{
    law_packed_cell_round_trips(0, 0, 0, 0, word);
}

/// A tile staged for slot `slot` and the upload that `take_dirty_tiles`
/// returns for that slot agree: the same placement and, cell by cell, the same
/// packed words.
pub proof fn law_staged_tile_is_the_upload(
    update: DirtyTileUpdate,
    cells: Seq<PackedMowingCell>,
    resolution: nat,
    slot: nat,
)
    requires
        valid_mowing_resolution(resolution),
        slot < 6 * tiles_per_face(resolution) * tiles_per_face(resolution),
        tile_matches(update, cells, resolution, slot),
    ensures
        tile_placement(slot, resolution) == (DirtyTile {
            face: update.face,
            origin_x: update.origin_x,
            origin_y: update.origin_y,
            width: update.width,
            height: update.height,
        }),
        update.cells@ == staged_cells(tile_placement(slot, resolution), cells, resolution).map_values(
            |c: PackedMowingCell| c.0,
        ),
{
    let t = tiles_per_face(resolution);
    lemma_tiles_addressable(resolution);
    law_cell_index_round_trips(CubeCell { face: CubeFace::PositiveX, x: 0, y: 0 }, slot, t);
    let placed = tile_placement(slot, resolution);
    let tile = index_cell(slot, t);
    assert(tile.x * 16 < resolution + 16 && tile.y * 16 < resolution + 16);
    assert(placed.origin_x == update.origin_x && placed.origin_y == update.origin_y);
    assert(placed.width == update.width && placed.height == update.height);
    let staged = staged_cells(placed, cells, resolution).map_values(|c: PackedMowingCell| c.0);
    assert(update.cells@ =~= staged);
}

/// The locator's regions hold exactly the grass still to mow: a cell is a
/// member of some returned region if and only if it is grass and its cut
/// amount is still below [`CUT_COVERAGE_THRESHOLD`], that is, exactly when
/// it is grass that `is_covered` does not count. A partly cut cell stays in
/// its region.
pub proof fn law_uncut_regions_hold_grass_below_the_threshold(
    regions: Seq<Seq<usize>>,
    mowable: Seq<bool>,
    cells: Seq<PackedMowingCell>,
    neighbors: Seq<[usize; 4]>,
    i: int,
)
    requires
        mowable.len() == cells.len(),
        are_regions_of(regions, uncut_grass(mowable, cells), neighbors),
        0 <= i < cells.len(),
    ensures
        (exists|r: int, p: int| 0 <= r < regions.len() && 0 <= p < regions[r].len() && #[trigger] regions[r][p] == i)
            <==> (mowable[i] && packed_byte(cells[i].0, 0) < CUT_COVERAGE_THRESHOLD),
        (exists|r: int, p: int| 0 <= r < regions.len() && 0 <= p < regions[r].len() && #[trigger] regions[r][p] == i)
            <==> (mowable[i] && !(mowable[i] && is_cut(cells[i]))),
{
    let eligible = uncut_grass(mowable, cells);
    if exists|r: int, p: int| 0 <= r < regions.len() && 0 <= p < regions[r].len() && #[trigger] regions[r][p] == i {
        let (r, p) = choose|r: int, p: int| 0 <= r < regions.len() && 0 <= p < regions[r].len() && #[trigger] regions[r][p] == i;
        assert(eligible[regions[r][p] as int]);
    }
    if mowable[i] && packed_byte(cells[i].0, 0) < CUT_COVERAGE_THRESHOLD {
        assert(eligible[i]);
    }
}

proof fn lemma_tiles_addressable(r: nat)
    requires
        valid_mowing_resolution(r),
    ensures
        0 < tiles_per_face(r) <= r,
        tiles_per_face(r) <= 0x4000,
        addressable(tiles_per_face(r)),
        6 * tiles_per_face(r) * tiles_per_face(r) <= 6 * r * r,
{
    let t = tiles_per_face(r);
    assert(t * t <= r * r && 6 * t * t <= 6 * r * r) by (nonlinear_arith)
        requires
            0 < t <= r,
    ;
}

proof fn lemma_tile_of_cell(cell: CubeCell, r: nat)
    requires
        valid_mowing_resolution(r),
        cell_in_grid(cell, r),
    ensures
        cell_in_grid(CubeCell { face: cell.face, x: cell.x / 16, y: cell.y / 16 }, tiles_per_face(r)),
        tile_slot(cell, r) < 6 * tiles_per_face(r) * tiles_per_face(r),
{
    let tile = CubeCell { face: cell.face, x: cell.x / 16, y: cell.y / 16 };
    lemma_tiles_addressable(r);
    law_cell_index_round_trips(tile, 0, tiles_per_face(r));
}

} // verus!
