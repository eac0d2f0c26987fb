use lawn_core::cube_map::{cell_from_index, flat_index, CubeCell, CubeFace};
use lawn_core::mowing::{
    decode_tile_key, tile_key, MowingGrid, PackedMowingCell, SnapshotError,
    CUT_COVERAGE_THRESHOLD, DEFAULT_DIRTY_TILE_SIZE,
};

fn grid(resolution: u32) -> MowingGrid {
    let len = 6 * resolution as usize * resolution as usize;
    MowingGrid::new(resolution, vec![true; len])
}

#[test]
fn packed_cells_round_trip_each_byte() {
    let cell = PackedMowingCell::packed(231, (7, 200), 9);
    assert_eq!(cell.0, 0x09C8_07E7);
    assert_eq!(cell.cut_amount(), 231);
    assert_eq!(cell.comb_x(), 7);
    assert_eq!(cell.comb_y(), 200);
    assert_eq!(cell.recent_epoch(), 9);
    assert_eq!(PackedMowingCell::default().0, 0);
}

#[test]
fn tile_keys_decode_and_sort_by_face_row_column() {
    let key = tile_key(CubeFace::NegativeY, 5, 9);
    assert_eq!(decode_tile_key(key), (CubeFace::NegativeY, 5, 9));
    assert!(tile_key(CubeFace::PositiveX, 20, 1) < tile_key(CubeFace::PositiveX, 0, 2));
    assert!(tile_key(CubeFace::PositiveX, 5, 9) < tile_key(CubeFace::NegativeX, 0, 0));
}

#[test]
fn borrowed_dirty_tiles_reconstruct_exact_cells() {
    for resolution in [8_u32, 19, 64] {
        let mut field = grid(resolution);
        let len = 6 * resolution as usize * resolution as usize;
        let mut mirror = vec![PackedMowingCell(0); len];
        for pass in 1..=2_u32 {
            let cells: Vec<PackedMowingCell> = (0..len)
                .map(|index| PackedMowingCell((index as u32).wrapping_mul(0x9e37_79b9).wrapping_add(pass)))
                .collect();
            field.restore_cells(&cells);
            for index in (0..len).rev() {
                let cell = cell_from_index(index, resolution);
                field.mark_dirty(cell);
                field.mark_dirty(cell);
            }
            let tiles = field.take_dirty_tiles();
            let mut previous = None;
            for tile in &tiles {
                let address = (tile.face.index(), tile.origin_y, tile.origin_x);
                assert!(previous.is_none_or(|previous| previous < address));
                previous = Some(address);
                assert_eq!(tile.cells.len(), (tile.width * tile.height) as usize);
                for y in 0..tile.height {
                    for x in 0..tile.width {
                        let target = flat_index(
                            CubeCell {
                                face: tile.face,
                                x: tile.origin_x + x,
                                y: tile.origin_y + y,
                            },
                            resolution,
                        );
                        mirror[target] = PackedMowingCell(tile.cells[(y * tile.width + x) as usize]);
                    }
                }
            }
            assert_eq!(
                tiles.len() as u32,
                6 * resolution.div_ceil(DEFAULT_DIRTY_TILE_SIZE).pow(2)
            );
            assert_eq!(mirror.as_slice(), field.packed_cells());
            assert!(field.take_dirty_tiles().is_empty());
        }
    }
}

#[test]
fn unchanged_packed_cells_do_not_generate_redundant_uploads() {
    let mut field = grid(32);
    let cell = CubeCell {
        face: CubeFace::PositiveX,
        x: 17,
        y: 4,
    };
    let first = field.cut_cell(cell, 255, (128, 128), 1);
    assert!(first.mowable && first.newly_covered);
    assert_eq!(first.cut, 255);
    let tiles = field.take_dirty_tiles();
    assert_eq!(tiles.len(), 1);
    assert_eq!((tiles[0].origin_x, tiles[0].origin_y), (16, 0));
    assert_eq!((tiles[0].width, tiles[0].height), (16, 16));
    let again = field.cut_cell(cell, 255, (128, 128), 1);
    assert!(!again.newly_covered);
    assert!(field.take_dirty_tiles().is_empty());
}

#[test]
fn coverage_is_counted_once_and_cut_saturates() {
    let mut field = grid(8);
    let cell = CubeCell {
        face: CubeFace::NegativeZ,
        x: 7,
        y: 7,
    };
    let mut newly = 0;
    for _ in 0..40 {
        let outcome = field.cut_cell(cell, 10, (1, 2), 3);
        if outcome.newly_covered {
            newly += 1;
        }
    }
    assert_eq!(newly, 1);
    assert_eq!(field.cell(cell).cut_amount(), 255);
    assert!(field.is_covered(flat_index(cell, 8)));
    assert!(CUT_COVERAGE_THRESHOLD == 230);
}

#[test]
fn rock_cells_are_never_cut() {
    let resolution = 8_u32;
    let len = 6 * 64;
    let mut mowable = vec![true; len];
    let rock = CubeCell {
        face: CubeFace::PositiveY,
        x: 2,
        y: 2,
    };
    mowable[flat_index(rock, resolution)] = false;
    let mut field = MowingGrid::new(resolution, mowable);
    let outcome = field.cut_cell(rock, 255, (0, 0), 1);
    assert!(!outcome.mowable && !outcome.newly_covered);
    assert!(!field.is_mowable(rock));
    assert_eq!(field.cell(rock), PackedMowingCell(0));
    assert!(field.take_dirty_tiles().is_empty());
}

#[test]
fn snapshots_must_match_the_field_shape() {
    let field = grid(8);
    assert_eq!(field.check_snapshot_shape(8, 384), Ok(()));
    assert_eq!(
        field.check_snapshot_shape(16, 384),
        Err(SnapshotError::ResolutionMismatch)
    );
    assert_eq!(
        field.check_snapshot_shape(8, 10),
        Err(SnapshotError::ResolutionMismatch)
    );
}

#[test]
fn edge_tiles_are_clipped_to_the_face() {
    let mut field = grid(19);
    field.mark_dirty(CubeCell {
        face: CubeFace::PositiveZ,
        x: 18,
        y: 18,
    });
    let tiles = field.take_dirty_tiles();
    assert_eq!(tiles.len(), 1);
    assert_eq!(tiles[0].face, CubeFace::PositiveZ);
    assert_eq!((tiles[0].origin_x, tiles[0].origin_y), (16, 16));
    assert_eq!((tiles[0].width, tiles[0].height), (3, 3));
    assert_eq!(tiles[0].cells.len(), 9);
}

#[test]
fn staged_tiles_drain_like_taken_tiles_through_one_buffer() {
    for resolution in [8_u32, 19, 40] {
        let len = 6 * resolution as usize * resolution as usize;
        let cells: Vec<PackedMowingCell> = (0..len)
            .map(|index| PackedMowingCell((index as u32).wrapping_mul(0x9e37_79b9) ^ 0x55))
            .collect();
        let mut staged_field = grid(resolution);
        let mut taken_field = grid(resolution);
        staged_field.restore_cells(&cells);
        taken_field.restore_cells(&cells);
        let taken = taken_field.take_dirty_tiles();
        let mut staging: Vec<PackedMowingCell> = Vec::with_capacity(256);
        let buffer = staging.as_ptr();
        let mut cursor = 0;
        let mut count = 0;
        while let Some((slot, tile)) = staged_field.stage_dirty_tile(cursor, &mut staging) {
            let upload = &taken[count];
            assert_eq!(tile.face, upload.face);
            assert_eq!((tile.origin_x, tile.origin_y), (upload.origin_x, upload.origin_y));
            assert_eq!((tile.width, tile.height), (upload.width, upload.height));
            let words: Vec<u32> = staging.iter().map(|cell| cell.0).collect();
            assert_eq!(words, upload.cells);
            assert_eq!(staging.as_ptr(), buffer);
            cursor = slot + 1;
            count += 1;
        }
        assert_eq!(count, taken.len());
        assert!(staged_field.stage_dirty_tile(0, &mut staging).is_none());
        assert!(staged_field.take_dirty_tiles().is_empty());
    }
}

#[test]
fn staging_skips_clean_slots_and_leaves_the_buffer_alone_when_done() {
    let mut field = grid(19);
    let mut staging = vec![PackedMowingCell(7); 3];
    assert!(field.stage_dirty_tile(0, &mut staging).is_none());
    assert_eq!(staging, vec![PackedMowingCell(7); 3]);
    let corner = CubeCell {
        face: CubeFace::PositiveZ,
        x: 18,
        y: 18,
    };
    field.cut_cell(corner, 200, (1, 2), 3);
    let (slot, tile) = field.stage_dirty_tile(0, &mut staging).unwrap();
    assert_eq!(slot, 4 * 4 + 3);
    assert_eq!(tile.face, CubeFace::PositiveZ);
    assert_eq!((tile.origin_x, tile.origin_y), (16, 16));
    assert_eq!((tile.width, tile.height), (3, 3));
    assert_eq!(staging.len(), 9);
    assert_eq!(staging[8], PackedMowingCell::packed(200, (1, 2), 3));
    assert_eq!(staging[0], PackedMowingCell(0));
    assert!(field.stage_dirty_tile(slot + 1, &mut staging).is_none());
    assert!(field.stage_dirty_tile(0, &mut staging).is_none());
    assert!(field.take_dirty_tiles().is_empty());
}
