use terrarust::blocks::{Block, BlockType, NaturalBackground};
use terrarust::chunks::Chunk;
use terrarust::map::{SimulationError, WorldMap};

const UNIT: usize = 1_000_000;

fn air() -> Block {
    Block::_new(BlockType::Air, NaturalBackground::Sky)
}

fn dirt() -> Block {
    Block::_new(BlockType::Dirt, NaturalBackground::Dirt)
}

fn world_of(block: Block, chunks: usize, first: isize) -> WorldMap {
    let mut loaded = Vec::new();
    for _ in 0..chunks {
        loaded.push(Chunk {
            blocks: vec![[block; 2048]; 32],
            left_config: (35_000_000, 0),
            right_config: (35_000_000, 0),
        });
    }
    WorldMap {
        chunks: loaded,
        first_chunk_number: first,
        first_block: 0,
        air: air(),
        light_update: Vec::new(),
        water_update: Vec::new(),
        light_to_render: Vec::new(),
        block_to_render: Vec::new(),
    }
}

/// A world of dirt with the given cells of air.
fn cave(cells: &[(isize, isize)]) -> WorldMap {
    let mut map = world_of(dirt(), 2, -1);
    for (x, y) in cells {
        map.put(*x, *y, air());
    }
    map
}

fn pour(map: &mut WorldMap, x: isize, y: isize, water: usize) {
    map.index_mut((x, y)).water = water;
}

fn total_water(map: &WorldMap) -> u128 {
    let mut total = 0u128;
    for chunk in map.chunks.iter() {
        for column in chunk.blocks.iter() {
            for block in column.iter() {
                total += block.water as u128;
            }
        }
    }
    total
}

#[test]
fn water_spreads_evenly_over_three_cells() {
    let mut map = cave(&[(-1, 10), (0, 10), (1, 10)]);
    pour(&mut map, 0, 10, UNIT);
    map.water_update.push((0, 10));
    for _ in 0..20 {
        assert_eq!(map.flow_water(), Ok(()));
    }
    assert_eq!(map.get(-1, 10).water, 333_333);
    assert_eq!(map.get(0, 10).water, 333_333);
    assert_eq!(map.get(1, 10).water, 333_333);
    assert_eq!(total_water(&map), 999_999);
    assert_eq!(map.water_update, vec![(0, 10), (-1, 10), (1, 10)]);
}

#[test]
fn the_first_pass_already_splits_three_ways() {
    let mut map = cave(&[(-1, 10), (0, 10), (1, 10)]);
    pour(&mut map, 0, 10, 3 * UNIT);
    pour(&mut map, 1, 10, 3 * UNIT + 1);
    map.flow_cell(0, 10);
    assert_eq!(map.get(-1, 10).water, 2_000_000);
    assert_eq!(map.get(0, 10).water, 2_000_000);
    assert_eq!(map.get(1, 10).water, 2_000_000);
    assert_eq!(map.water_update, vec![(-1, 10), (1, 10)]);
}

#[test]
fn water_levels_with_the_one_open_side() {
    let mut map = cave(&[(0, 10), (1, 10)]);
    pour(&mut map, 0, 10, UNIT);
    map.flow_cell(0, 10);
    assert_eq!(map.get(0, 10).water, 500_000);
    assert_eq!(map.get(1, 10).water, 500_000);
    assert_eq!(map.water_update, vec![(1, 10)]);

    let mut map = cave(&[(-1, 10), (0, 10)]);
    pour(&mut map, 0, 10, UNIT + 1);
    pour(&mut map, -1, 10, 2 * UNIT);
    map.flow_cell(0, 10);
    assert_eq!(map.get(0, 10).water, 1_500_000);
    assert_eq!(map.get(-1, 10).water, 1_500_000);
    assert_eq!(map.water_update, vec![(-1, 10)]);
}

#[test]
fn a_side_that_keeps_its_water_is_not_listed() {
    let mut map = cave(&[(-1, 10), (0, 10), (1, 10)]);
    pour(&mut map, -1, 10, UNIT);
    pour(&mut map, 0, 10, UNIT);
    pour(&mut map, 1, 10, UNIT);
    map.flow_cell(0, 10);
    assert!(map.water_update.is_empty());
    assert_eq!(total_water(&map), 3_000_000);
}

#[test]
fn walled_in_water_stays() {
    let mut map = cave(&[(0, 10)]);
    pour(&mut map, 0, 10, 5 * UNIT);
    map.water_update.push((0, 10));
    assert_eq!(map.flow_water(), Ok(()));
    assert_eq!(map.get(0, 10).water, 5 * UNIT);
    assert_eq!(map.water_update, vec![(0, 10)]);
}

#[test]
fn trees_keep_water_out() {
    let mut map = cave(&[(0, 10)]);
    map.put(1, 10, Block::_new(BlockType::Tree, NaturalBackground::Dirt));
    map.put(0, 11, Block::_new(BlockType::Tree, NaturalBackground::Dirt));
    pour(&mut map, 0, 10, 5 * UNIT);
    map.flow_cell(0, 10);
    assert_eq!(map.get(0, 10).water, 5 * UNIT);
    assert_eq!(map.get(1, 10).water, 0);
    assert_eq!(map.get(0, 11).water, 0);
}

#[test]
fn water_falls_a_unit_at_a_time() {
    let mut map = cave(&[(0, 10), (0, 11), (0, 12)]);
    pour(&mut map, 0, 10, 2_500_000);
    map.water_update.push((0, 10));
    assert_eq!(map.flow_water(), Ok(()));
    assert_eq!(map.get(0, 10).water, 1_500_000);
    assert_eq!(map.get(0, 11).water, 1_000_000);
    assert_eq!(map.water_update, vec![(0, 10), (0, 11)]);
    assert_eq!(map.flow_water(), Ok(()));
    assert_eq!(map.get(0, 10).water, 500_000);
    assert_eq!(map.get(0, 11).water, 1_000_000);
    assert_eq!(map.get(0, 12).water, 1_000_000);
    assert_eq!(map.water_update, vec![(0, 10), (0, 11), (0, 12)]);
    assert_eq!(total_water(&map), 2_500_000);
}

#[test]
fn water_that_falls_does_not_level_in_the_same_step() {
    let mut map = cave(&[(-1, 10), (0, 10), (1, 10), (0, 11)]);
    pour(&mut map, 0, 10, 3 * UNIT);
    map.flow_cell(0, 10);
    assert_eq!(map.get(0, 10).water, 2 * UNIT);
    assert_eq!(map.get(0, 11).water, UNIT);
    assert_eq!(map.get(-1, 10).water, 0);
    assert_eq!(map.get(1, 10).water, 0);
    assert_eq!(map.water_update, vec![(0, 11)]);
}

#[test]
fn less_than_a_unit_falls_whole() {
    let mut map = cave(&[(0, 10), (0, 11)]);
    pour(&mut map, 0, 10, 400_000);
    map.flow_cell(0, 10);
    assert_eq!(map.get(0, 10).water, 0);
    assert_eq!(map.get(0, 11).water, 400_000);
}

#[test]
fn the_cell_below_is_filled_only_up_to_its_ceiling() {
    // At rest the ceiling is sixteen units.
    let mut map = cave(&[(0, 10), (0, 11)]);
    pour(&mut map, 0, 10, 5 * UNIT);
    pour(&mut map, 0, 11, 15_500_000);
    map.flow_cell(0, 10);
    assert_eq!(map.get(0, 10).water, 4_500_000);
    assert_eq!(map.get(0, 11).water, 16_000_000);
    assert_eq!(map.water_update, vec![(0, 11)]);

    // A whole unit falls where it fits.
    let mut map = cave(&[(0, 10), (0, 11)]);
    pour(&mut map, 0, 10, 5 * UNIT);
    pour(&mut map, 0, 11, 15 * UNIT);
    map.flow_cell(0, 10);
    assert_eq!(map.get(0, 10).water, 4 * UNIT);
    assert_eq!(map.get(0, 11).water, 16 * UNIT);

    // One part of room takes one part.
    let mut map = cave(&[(0, 10), (0, 11)]);
    pour(&mut map, 0, 10, 5 * UNIT);
    pour(&mut map, 0, 11, 15_999_999);
    map.flow_cell(0, 10);
    assert_eq!(map.get(0, 10).water, 4_999_999);
    assert_eq!(map.get(0, 11).water, 16 * UNIT);
}

#[test]
fn a_cell_at_its_ceiling_takes_nothing() {
    for own in [100_001, UNIT, 5 * UNIT, 16 * UNIT] {
        let mut map = cave(&[(0, 10), (0, 11)]);
        pour(&mut map, 0, 10, own);
        pour(&mut map, 0, 11, 16 * UNIT);
        map.flow_cell(0, 10);
        assert_eq!(map.get(0, 10).water, own);
        assert_eq!(map.get(0, 11).water, 16 * UNIT);
        assert!(map.water_update.is_empty());
    }
}

#[test]
fn the_ceiling_rises_with_the_pressure_from_above() {
    for (own, below, moved) in [
        (16 * UNIT, 15_500_000, 500_000),
        (16 * UNIT, 16 * UNIT, 0),
        (16 * UNIT + 1, 16 * UNIT, UNIT),
        (17 * UNIT, 16_800_000, 200_000),
        (17 * UNIT, 17 * UNIT, 0),
        (17 * UNIT + 1, 17_500_000, 500_000),
        (18 * UNIT + 1, 18_500_000, 500_000),
        (19 * UNIT + 1, 19_500_000, 500_000),
        (20 * UNIT, 19_500_000, 500_000),
        (20 * UNIT, 20 * UNIT, 0),
        (20 * UNIT + 1, 20_500_000, 500_000),
        (40 * UNIT, 20_500_000, 500_000),
        (40 * UNIT, 21 * UNIT, 0),
    ] {
        let mut map = cave(&[(0, 10), (0, 11)]);
        pour(&mut map, 0, 10, own);
        pour(&mut map, 0, 11, below);
        map.flow_cell(0, 10);
        assert_eq!(map.get(0, 10).water, own - moved);
        assert_eq!(map.get(0, 11).water, below + moved);
    }
}

#[test]
fn a_cell_above_its_ceiling_gives_nothing_back() {
    let mut map = cave(&[(0, 10), (0, 11)]);
    pour(&mut map, 0, 10, 5 * UNIT);
    pour(&mut map, 0, 11, 30 * UNIT);
    map.flow_cell(0, 10);
    assert_eq!(map.get(0, 10).water, 5 * UNIT);
    assert_eq!(map.get(0, 11).water, 30 * UNIT);
    assert!(map.water_update.is_empty());
}

#[test]
fn water_that_cannot_fall_at_all_levels_out() {
    let mut map = cave(&[(0, 10), (1, 10), (0, 11)]);
    pour(&mut map, 0, 10, 5 * UNIT);
    pour(&mut map, 0, 11, 16 * UNIT);
    map.flow_cell(0, 10);
    assert_eq!(map.get(0, 11).water, 16 * UNIT);
    assert_eq!(map.get(0, 10).water, 2_500_000);
    assert_eq!(map.get(1, 10).water, 2_500_000);
    assert_eq!(map.water_update, vec![(1, 10)]);
}

#[test]
fn water_held_back_from_falling_levels_out() {
    let mut map = cave(&[(0, 10), (1, 10), (0, 11)]);
    pour(&mut map, 0, 10, 5 * UNIT);
    pour(&mut map, 0, 11, 15_500_000);
    map.flow_cell(0, 10);
    assert_eq!(map.get(0, 11).water, 16_000_000);
    assert_eq!(map.get(0, 10).water, 2_250_000);
    assert_eq!(map.get(1, 10).water, 2_250_000);
    assert_eq!(map.water_update, vec![(0, 11), (1, 10)]);
}

#[test]
fn a_dry_cell_is_emptied_and_taken_off_the_list() {
    let mut map = cave(&[(0, 10), (1, 10)]);
    pour(&mut map, 0, 10, 100_000);
    map.water_update = vec![(0, 10), (5, 5), (0, 10)];
    map.flow_cell(0, 10);
    assert_eq!(map.get(0, 10).water, 0);
    assert_eq!(map.get(1, 10).water, 0);
    assert_eq!(map.water_update, vec![(5, 5)]);
}

#[test]
fn just_above_the_threshold_a_cell_is_wet() {
    let mut map = cave(&[(0, 10), (1, 10)]);
    pour(&mut map, 0, 10, 100_001);
    map.water_update = vec![(0, 10)];
    map.flow_cell(0, 10);
    assert_eq!(map.get(0, 10).water, 50_000);
    assert_eq!(map.get(1, 10).water, 50_000);
    assert_eq!(map.water_update, vec![(0, 10), (1, 10)]);
}

#[test]
fn a_dried_cell_stays_off_the_list_until_water_reaches_it() {
    let mut map = cave(&[(0, 10), (1, 10), (2, 10)]);
    pour(&mut map, 2, 10, 60_000);
    map.water_update = vec![(2, 10)];
    assert_eq!(map.flow_water(), Ok(()));
    assert_eq!(map.get(2, 10).water, 0);
    assert!(map.water_update.is_empty());
    // Passes with nothing listed leave it alone.
    for _ in 0..5 {
        assert_eq!(map.flow_water(), Ok(()));
        assert!(map.water_update.is_empty());
    }
    // Water two cells away reaches the neighbour first, then the cell.
    pour(&mut map, 0, 10, 4 * UNIT);
    map.water_update.push((0, 10));
    assert_eq!(map.flow_water(), Ok(()));
    assert_eq!(map.water_update, vec![(0, 10), (1, 10)]);
    assert!(!map.water_update.contains(&(2, 10)));
    assert_eq!(map.flow_water(), Ok(()));
    assert!(map.water_update.contains(&(2, 10)));
    assert!(map.get(2, 10).water > 0);
}

#[test]
fn a_dry_cell_that_flows_again_changes_nothing() {
    let mut map = cave(&[(0, 10), (1, 10)]);
    pour(&mut map, 1, 10, 2 * UNIT);
    map.water_update = vec![(1, 10)];
    map.flow_cell(0, 10);
    assert_eq!(map.get(0, 10).water, 0);
    assert_eq!(map.get(1, 10).water, 2 * UNIT);
    assert_eq!(map.water_update, vec![(1, 10)]);
}

#[test]
fn entries_outside_the_window_are_taken_off() {
    let mut map = cave(&[(0, 10)]);
    map.water_update = vec![(1000, 5), (0, -1), (0, 2048), (isize::MAX, isize::MAX)];
    assert_eq!(map.flow_water(), Ok(()));
    assert!(map.water_update.is_empty());
    assert_eq!(total_water(&map), 0);
}

#[test]
fn water_drains_over_the_edge_of_the_window() {
    let mut map = cave(&[(-32, 10)]);
    pour(&mut map, -32, 10, 2 * UNIT);
    map.water_update.push((-32, 10));
    assert_eq!(map.flow_water(), Ok(()));
    // The cell left of the window counts as air and takes half.
    assert_eq!(map.get(-32, 10).water, UNIT);
    assert_eq!(map.get(-33, 10).water, 0);
    assert_eq!(map.water_update, vec![(-32, 10), (-33, 10)]);
    assert_eq!(total_water(&map), 1_000_000);
    // The cell outside is found dry and leaves the list.
    assert_eq!(map.flow_water(), Ok(()));
    assert_eq!(map.get(-32, 10).water, 500_000);
    assert_eq!(map.water_update, vec![(-32, 10)]);
}

#[test]
fn water_falls_out_of_the_bottom_row() {
    let mut map = cave(&[(0, 2047)]);
    pour(&mut map, 0, 2047, 2_500_000);
    map.water_update.push((0, 2047));
    assert_eq!(map.flow_water(), Ok(()));
    assert_eq!(map.get(0, 2047).water, 1_500_000);
    assert_eq!(map.water_update, vec![(0, 2047), (0, 2048)]);
    assert_eq!(map.flow_water(), Ok(()));
    assert_eq!(map.get(0, 2047).water, 500_000);
    assert_eq!(map.water_update, vec![(0, 2047)]);
}

#[test]
fn the_cells_of_a_pass_are_those_listed_when_it_begins() {
    let mut map = cave(&[(0, 10), (0, 11), (0, 12), (0, 13)]);
    pour(&mut map, 0, 10, UNIT);
    map.water_update.push((0, 10));
    // The water moves one cell per pass, though the cell below is listed
    // during the pass.
    assert_eq!(map.flow_water(), Ok(()));
    assert_eq!(map.get(0, 11).water, UNIT);
    assert_eq!(map.flow_water(), Ok(()));
    assert_eq!(map.get(0, 12).water, UNIT);
    assert_eq!(map.water_update, vec![(0, 11), (0, 12)]);
}

#[test]
fn too_long_a_list_is_not_worked_on() {
    let mut map = cave(&[(0, 10), (0, 11)]);
    pour(&mut map, 0, 10, UNIT);
    for i in 0..100_001isize {
        map.water_update.push((0, 10 + (i % 2)));
    }
    assert_eq!(map.flow_water(), Err(SimulationError::WaterDiverged));
    assert_eq!(map.get(0, 10).water, UNIT);
    assert_eq!(map.get(0, 11).water, 0);
    assert_eq!(map.water_update.len(), 100_001);
    map.water_update.truncate(100_000);
    map.water_update.clear();
    map.water_update.push((0, 10));
    assert_eq!(map.flow_water(), Ok(()));
    assert_eq!(map.get(0, 11).water, UNIT);
}

#[test]
fn the_wet_cells_of_a_chunk_are_listed_column_by_column() {
    let mut map = world_of(air(), 3, -1);
    pour(&mut map, 5, 7, 3);
    pour(&mut map, 5, 2, 1);
    pour(&mut map, 0, 2047, 9);
    pour(&mut map, 31, 0, 2);
    pour(&mut map, 32, 0, 2);
    pour(&mut map, -1, 0, 2);
    map.water_update.push((5, 7));
    map.init_water(1);
    assert_eq!(map.water_update, vec![(5, 7), (0, 2047), (5, 2), (5, 7), (31, 0)]);
    map.init_water(0);
    assert_eq!(
        map.water_update,
        vec![(5, 7), (0, 2047), (5, 2), (5, 7), (31, 0), (-1, 0)]
    );
}

#[test]
fn water_in_a_basin_is_never_made() {
    let mut cells = Vec::new();
    for x in -6isize..7 {
        for y in 20isize..26 {
            if y <= 22 || x.abs() < 4 {
                cells.push((x, y));
            }
        }
    }
    let mut map = cave(&cells);
    pour(&mut map, 0, 20, 19 * UNIT);
    pour(&mut map, -5, 22, 7_654_321);
    pour(&mut map, 3, 21, 12_345_678);
    pour(&mut map, 6, 20, 250_000);
    map.water_update = vec![(0, 20), (-5, 22), (3, 21), (6, 20)];
    let mut before = total_water(&map);
    assert_eq!(before, 39_249_999);
    for _ in 0..300 {
        let listed = map.water_update.len() as u128;
        assert_eq!(map.flow_water(), Ok(()));
        let after = total_water(&map);
        assert!(after <= before);
        // Each cell worked on loses what a dry cell may hold at most.
        assert!(before - after <= listed * 100_000);
        before = after;
    }
    // No water ever left the basin.
    for chunk in map.chunks.iter() {
        for column in chunk.blocks.iter() {
            for block in column.iter() {
                assert!(block.water == 0 || block.block_type == BlockType::Air);
            }
        }
    }
    assert!(before > 38_000_000);
}
