use lawn_core::mowing::{MowingGrid, PackedMowingCell};
use lawn_core::regions::{
    breadth_first_order, connected_regions, distance_from_rock, first_safe_cell,
    grass_clearance_components, nearest_safe_cell,
};

/// A ring of `n` cells: each cell's neighbours are the cells on either side,
/// listed twice.
fn ring(n: usize) -> Vec<[usize; 4]> {
    (0..n)
        .map(|i| {
            let left = (i + n - 1) % n;
            let right = (i + 1) % n;
            [left, right, left, right]
        })
        .collect()
}

/// A `width` by `height` grid whose edge cells list themselves past the edge.
fn grid(width: usize, height: usize) -> Vec<[usize; 4]> {
    let mut table = Vec::new();
    for y in 0..height {
        for x in 0..width {
            let here = y * width + x;
            let left = if x > 0 { here - 1 } else { here };
            let right = if x + 1 < width { here + 1 } else { here };
            let down = if y > 0 { here - width } else { here };
            let up = if y + 1 < height { here + width } else { here };
            table.push([left, right, down, up]);
        }
    }
    table
}

#[test]
fn regions_split_where_ineligible_cells_cut_the_ring() {
    let eligible = [true, true, false, true, true, false, false, true];
    let regions = connected_regions(&eligible, &ring(8));
    assert_eq!(regions, vec![vec![0, 7, 1], vec![3, 4]]);
}

#[test]
fn regions_grow_breadth_first_from_their_smallest_cell() {
    let eligible = [true; 9];
    let regions = connected_regions(&eligible, &grid(3, 3));
    assert_eq!(regions, vec![vec![0, 1, 3, 2, 4, 6, 5, 7, 8]]);
}

#[test]
fn no_eligible_cell_gives_no_region() {
    let eligible = [false; 5];
    assert!(connected_regions(&eligible, &ring(5)).is_empty());
    assert!(connected_regions(&[], &[]).is_empty());
}

#[test]
fn isolated_cells_are_regions_of_their_own() {
    let eligible = [true, false, true, false, true, false];
    let regions = connected_regions(&eligible, &ring(6));
    assert_eq!(regions, vec![vec![0], vec![2], vec![4]]);
}

#[test]
fn distances_count_steps_from_the_nearest_rock() {
    let rock = [true, false, false, false, false, false, false, false];
    assert_eq!(
        distance_from_rock(&rock, &ring(8)),
        vec![0, 1, 2, 3, 4, 3, 2, 1]
    );
    let rock = [false, false, false, false, true, false, false, false, false];
    assert_eq!(
        distance_from_rock(&rock, &grid(3, 3)),
        vec![2, 1, 2, 1, 0, 1, 2, 1, 2]
    );
}

#[test]
fn without_rock_every_distance_saturates() {
    let rock = [false; 4];
    assert_eq!(distance_from_rock(&rock, &ring(4)), vec![u16::MAX; 4]);
}

#[test]
fn clearance_erosion_separates_passes() {
    // A row of nine cells with rock at both ends and in the middle.
    let rock = [true, false, false, false, true, false, false, false, true];
    let table = grid(9, 1);
    let clearance = distance_from_rock(&rock, &table);
    assert_eq!(clearance, vec![0, 1, 2, 1, 0, 1, 2, 1, 0]);
    let grass: Vec<bool> = rock.iter().map(|cell| !cell).collect();
    let wide = grass_clearance_components(&grass, &clearance, 1, &table);
    assert_eq!(wide, vec![vec![1, 2, 3], vec![5, 6, 7]]);
    let narrow = grass_clearance_components(&grass, &clearance, 2, &table);
    assert_eq!(narrow, vec![vec![2], vec![6]]);
    assert!(grass_clearance_components(&grass, &clearance, 3, &table).is_empty());
}

#[test]
fn uncut_regions_leave_out_mowed_and_bare_cells() {
    let resolution = 1;
    let mut mowable = vec![true; 6];
    mowable[5] = false;
    let mut grid = MowingGrid::new(resolution, mowable);
    let cell = lawn_core::cube_map::cell_from_index(2, resolution);
    let outcome = grid.cut_cell(cell, 255, (128, 128), 1);
    assert!(outcome.newly_covered);
    assert_eq!(grid.packed_cells()[2], PackedMowingCell::packed(255, (128, 128), 1));
    // A ring over the six faces.
    let regions = grid.uncut_regions(&ring(6));
    assert_eq!(regions, vec![vec![0, 1], vec![3, 4]]);
}

#[test]
fn breadth_first_order_visits_by_distance_then_slot() {
    assert_eq!(breadth_first_order(3, &ring(8)), vec![3, 2, 4, 1, 5, 0, 6, 7]);
    assert_eq!(breadth_first_order(4, &grid(3, 3)), vec![4, 3, 5, 1, 7, 0, 6, 2, 8]);
    let islands = [[0, 0, 0, 0], [1, 1, 1, 1]];
    assert_eq!(breadth_first_order(1, &islands), vec![1]);
}

#[test]
fn nearest_safe_cell_prefers_the_closest_then_the_first_found() {
    let mut safe = [false; 8];
    safe[6] = true;
    safe[0] = true;
    assert_eq!(nearest_safe_cell(3, &safe, &ring(8)), Some(0));
    safe[3] = true;
    assert_eq!(nearest_safe_cell(3, &safe, &ring(8)), Some(3));
    assert_eq!(nearest_safe_cell(3, &[false; 8], &ring(8)), None);
    let islands = [[0, 0, 0, 0], [1, 1, 1, 1]];
    assert_eq!(nearest_safe_cell(0, &[false, true], &islands), None);
}

#[test]
fn first_safe_cell_scans_in_order() {
    let safe = [false, true, true, false];
    assert_eq!(first_safe_cell(&[3, 2, 1], &safe), Some(2));
    assert_eq!(first_safe_cell(&[0, 3], &safe), None);
    assert_eq!(first_safe_cell(&[], &safe), None);
}

#[test]
fn on_mutual_tables_eligible_neighbours_share_a_region() {
    let table = grid(5, 4);
    let eligible: Vec<bool> = (0..20).map(|i| i % 7 != 3 && i != 12).collect();
    let regions = connected_regions(&eligible, &table);
    let mut region_of = vec![usize::MAX; 20];
    for (r, members) in regions.iter().enumerate() {
        for &cell in members {
            assert_eq!(region_of[cell], usize::MAX, "cell {cell} listed twice");
            region_of[cell] = r;
        }
    }
    for cell in 0..20 {
        assert_eq!(eligible[cell], region_of[cell] != usize::MAX);
        if eligible[cell] {
            for &neighbour in &table[cell] {
                if eligible[neighbour] {
                    assert_eq!(region_of[neighbour], region_of[cell]);
                }
            }
        }
    }
}
