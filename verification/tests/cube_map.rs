use lawn_core::cube_map::{
    cell_from_index, flat_index, offset_within_face, CubeCell, CubeFace, CubeGrid,
};

#[test]
fn face_indices_follow_canonical_order() {
    let faces = CubeFace::all();
    for (index, face) in faces.iter().enumerate() {
        assert_eq!(face.index(), index);
        assert_eq!(CubeFace::from_index(index), *face);
    }
    assert_eq!(CubeFace::NegativeZ.index(), 5);
}

#[test]
fn flat_indices_round_trip_over_every_cell() {
    for resolution in [1_u32, 3, 8, 17] {
        let len = 6 * resolution as usize * resolution as usize;
        for index in 0..len {
            let cell = cell_from_index(index, resolution);
            assert!(cell.x < resolution && cell.y < resolution);
            assert_eq!(flat_index(cell, resolution), index);
        }
    }
    let cell = CubeCell {
        face: CubeFace::PositiveY,
        x: 3,
        y: 2,
    };
    assert_eq!(flat_index(cell, 8), 2 * 64 + 2 * 8 + 3);
}

#[test]
fn grid_reads_and_writes_single_cells() {
    let mut grid = CubeGrid::new(4, 0_u32);
    assert_eq!(grid.resolution(), 4);
    assert_eq!(grid.len(), 96);
    assert!(!grid.is_empty());
    let cell = CubeCell {
        face: CubeFace::NegativeY,
        x: 1,
        y: 3,
    };
    *grid.get_mut(cell) = 9;
    assert_eq!(*grid.get(cell), 9);
    let index = grid.flat_index(cell);
    assert_eq!(grid.as_slice()[index], 9);
    assert_eq!(grid.cell_from_index(index), cell);
    assert_eq!(grid.iter().filter(|value| **value == 9).count(), 1);
    grid.as_mut_slice()[0] = 5;
    assert_eq!(
        *grid.get(CubeCell {
            face: CubeFace::PositiveX,
            x: 0,
            y: 0
        }),
        5
    );
    let cells = grid.cells();
    assert_eq!(cells.len(), grid.len());
    for (index, cell) in cells.iter().enumerate() {
        assert_eq!(grid.flat_index(*cell), index);
    }
}

#[test]
fn in_face_offsets_stop_at_the_face_edge() {
    let cell = CubeCell {
        face: CubeFace::PositiveZ,
        x: 0,
        y: 15,
    };
    assert_eq!(
        offset_within_face(cell, 2, -3, 16),
        Some(CubeCell {
            face: CubeFace::PositiveZ,
            x: 2,
            y: 12
        })
    );
    assert_eq!(offset_within_face(cell, -1, 0, 16), None);
    assert_eq!(offset_within_face(cell, 0, 1, 16), None);
    assert_eq!(offset_within_face(cell, 15, 0, 16), Some(CubeCell {
        face: CubeFace::PositiveZ,
        x: 15,
        y: 15
    }));
}

#[test]
fn writes_by_index_keep_the_grid_shape() {
    let mut grid = CubeGrid::new(3, 1_u8);
    for index in 0..grid.len() {
        grid.set(index, (index % 7) as u8);
        *grid.get_mut(grid.cell_from_index(index)) += 1;
        assert_eq!(grid.len(), 54);
        assert_eq!(grid.resolution(), 3);
        assert_eq!(grid.as_slice().len(), 54);
        assert!(!grid.is_empty());
    }
    for index in 0..grid.len() {
        assert_eq!(grid.as_slice()[index], (index % 7) as u8 + 1);
    }
}
