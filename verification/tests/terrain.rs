use terrarust::blocks::{Block, BlockType, NaturalBackground};
use terrarust::chunks::{fresh_block, fresh_column, Biome, Chunk};
use terrarust::coords::x_to_biome;
use terrarust::noise::hash_coordinate;

fn surface_of(column: &[Block; 2048]) -> usize {
    column
        .iter()
        .position(|block| block.block_type == BlockType::Grass)
        .expect("a column has a surface")
}

fn max_step(biome: Biome) -> i64 {
    biome.get_max_slope() + biome.get_frequency() / 3
}

#[test]
fn biomes_have_their_constants() {
    assert_eq!(Biome::Hills.get_frequency(), 200_000);
    assert_eq!(Biome::Grassland.get_frequency(), 60_000);
    assert_eq!(Biome::TemperateBroadleafForest.get_frequency(), 80_000);
    assert_eq!(Biome::Hills.get_max_slope(), 900_000);
    assert_eq!(Biome::Grassland.get_max_slope(), 500_000);
    assert_eq!(Biome::TemperateBroadleafForest.get_max_slope(), 700_000);
    assert_eq!(Biome::Hills.get_height(), (30_000_000, 40_000_000));
    assert_eq!(Biome::Grassland.get_height(), (30_000_000, 40_000_000));
    assert_eq!(Biome::TemperateBroadleafForest.get_height(), (30_000_000, 40_000_000));
    assert_eq!(Biome::Hills.get_tree_prob(), 50);
    assert_eq!(Biome::Grassland.get_tree_prob(), 32);
    assert_eq!(Biome::TemperateBroadleafForest.get_tree_prob(), 10);
}

#[test]
fn the_middle_hash_does_not_push() {
    let mut height = 35_000_000;
    let mut slope = 100_000;
    Biome::Hills.advance(&mut height, &mut slope, 2_147_483_647);
    assert_eq!(slope, 100_000);
    assert_eq!(height, 35_100_000);
}

#[test]
fn the_extreme_hashes_push_by_the_frequency() {
    let mut height = 35_000_000;
    let mut slope = 0;
    Biome::Hills.advance(&mut height, &mut slope, 0);
    assert_eq!((height, slope), (34_800_000, -200_000));

    let mut height = 35_000_000;
    let mut slope = 0;
    Biome::Hills.advance(&mut height, &mut slope, u32::MAX);
    assert_eq!((height, slope), (35_200_000, 200_000));

    let mut height = 35_000_000;
    let mut slope = 0;
    Biome::Grassland.advance(&mut height, &mut slope, u32::MAX);
    assert_eq!((height, slope), (35_060_000, 60_000));
}

#[test]
fn a_quarter_of_the_way_pushes_by_half_the_frequency() {
    // 3/4 of the largest hash stands for +1/2.
    let mut height = 35_000_000;
    let mut slope = 0;
    Biome::TemperateBroadleafForest.advance(&mut height, &mut slope, 3_221_225_471);
    assert_eq!((height, slope), (35_040_000, 40_000));
    // 1/4 of it stands for -1/2; the push is rounded down.
    let mut height = 35_000_000;
    let mut slope = 0;
    Biome::TemperateBroadleafForest.advance(&mut height, &mut slope, 1_073_741_823);
    assert_eq!((height, slope), (34_959_999, -40_001));
}

#[test]
fn the_slope_is_held_within_the_steepest() {
    let mut height = 35_000_000;
    let mut slope = 850_000;
    Biome::Hills.advance(&mut height, &mut slope, u32::MAX);
    assert_eq!((height, slope), (35_900_000, 900_000));

    let mut height = 35_000_000;
    let mut slope = -850_000;
    Biome::Hills.advance(&mut height, &mut slope, 0);
    assert_eq!((height, slope), (34_100_000, -900_000));

    let mut height = 35_000_000;
    let mut slope = i64::MAX;
    Biome::Grassland.advance(&mut height, &mut slope, 0);
    assert_eq!((height, slope), (35_500_000, 500_000));

    let mut height = 35_000_000;
    let mut slope = i64::MIN;
    Biome::Grassland.advance(&mut height, &mut slope, u32::MAX);
    assert_eq!((height, slope), (34_500_000, -500_000));
}

#[test]
fn terrain_outside_the_band_is_drawn_back() {
    // Above the band on the screen: the slope is raised by a third of the
    // frequency.
    let mut height = 20_000_000;
    let mut slope = 100_000;
    Biome::Hills.advance(&mut height, &mut slope, 2_147_483_647);
    assert_eq!((height, slope), (20_166_666, 166_666));
    // Below the band: lowered.
    let mut height = 45_000_000;
    let mut slope = 100_000;
    Biome::Grassland.advance(&mut height, &mut slope, 2_147_483_647);
    assert_eq!((height, slope), (45_080_000, 80_000));
    // At the edges of the band: left alone.
    let mut height = 30_000_000;
    let mut slope = 0;
    Biome::Hills.advance(&mut height, &mut slope, 2_147_483_647);
    assert_eq!((height, slope), (30_000_000, 0));
    let mut height = 40_000_000;
    let mut slope = 0;
    Biome::Hills.advance(&mut height, &mut slope, 2_147_483_647);
    assert_eq!((height, slope), (40_000_000, 0));
}

#[test]
fn the_correction_can_pass_the_steepest_slope() {
    let mut height = 20_000_000;
    let mut slope = 900_000;
    Biome::Hills.advance(&mut height, &mut slope, u32::MAX);
    assert_eq!((height, slope), (20_966_666, 966_666));
}

#[test]
fn a_height_at_the_end_of_the_range_stays() {
    let mut height = i64::MAX;
    let mut slope = 0;
    Biome::Hills.advance(&mut height, &mut slope, u32::MAX);
    assert_eq!(height, i64::MAX);
    let mut height = i64::MIN;
    let mut slope = 0;
    Biome::Hills.advance(&mut height, &mut slope, 0);
    assert_eq!(height, i64::MIN);
}

#[test]
fn a_tree_needs_its_hash_and_a_bare_left_neighbour() {
    assert!(Biome::Hills.grows_tree(50, 51));
    assert!(Biome::Hills.grows_tree(0, 1));
    assert!(!Biome::Hills.grows_tree(100, 150));
    assert!(!Biome::Hills.grows_tree(51, 52));
    assert!(Biome::Grassland.grows_tree(64, 50));
    assert!(!Biome::Grassland.grows_tree(50, 64));
    assert!(Biome::TemperateBroadleafForest.grows_tree(4_294_967_290, 4_294_967_295));
    assert!(!Biome::TemperateBroadleafForest.grows_tree(4_294_967_295, 4_294_967_290));
}

#[test]
fn a_fresh_column_is_air_grass_and_dirt() {
    let air = Block::_new(BlockType::Air, NaturalBackground::Sky);
    let grass = Block::_new(BlockType::Grass, NaturalBackground::Dirt);
    let dirt = Block::_new(BlockType::Dirt, NaturalBackground::Dirt);
    let tree = Block::_new(BlockType::Tree, NaturalBackground::Dirt);

    let column = fresh_column(20, false);
    for y in 0..20 {
        assert_eq!(column[y], air);
    }
    assert_eq!(column[20], grass);
    for y in 21..2048 {
        assert_eq!(column[y], dirt);
    }

    let column = fresh_column(20, true);
    for y in 0..19 {
        assert_eq!(column[y], air);
    }
    assert_eq!(column[19], tree);
    assert_eq!(column[20], grass);
    assert_eq!(column[21], dirt);
}

#[test]
fn a_surface_at_the_edges_of_the_world() {
    let grass = Block::_new(BlockType::Grass, NaturalBackground::Dirt);
    let dirt = Block::_new(BlockType::Dirt, NaturalBackground::Dirt);
    let air = Block::_new(BlockType::Air, NaturalBackground::Sky);
    // At the top row there is no room for a tree.
    let column = fresh_column(0, true);
    assert_eq!(column[0], grass);
    assert_eq!(column[1], dirt);
    // At the bottom row.
    let column = fresh_column(2047, false);
    assert_eq!(column[2046], air);
    assert_eq!(column[2047], grass);
    // Below the world: nothing but air.
    let column = fresh_column(5000, false);
    assert_eq!(column[0], air);
    assert_eq!(column[2047], air);
    assert_eq!(fresh_block(5000, false, 2047), air);
    assert_eq!(fresh_block(3, true, 2), Block::_new(BlockType::Tree, NaturalBackground::Dirt));
}

#[test]
fn a_generated_chunk_has_one_surface_per_column() {
    let mut height = 20_000_000;
    let mut slope = 200_000;
    let chunk = Chunk::generate(&mut height, &mut slope, true, 0);
    assert_eq!(chunk.blocks.len(), 32);
    for column in chunk.blocks.iter() {
        let grass: Vec<usize> = (0..2048)
            .filter(|y| column[*y].block_type == BlockType::Grass)
            .collect();
        assert_eq!(grass.len(), 1);
        let surface = grass[0];
        for y in 0..surface {
            let block = column[y];
            if y + 1 == surface && block.block_type == BlockType::Tree {
                assert_eq!(block.natural_background, NaturalBackground::Dirt);
            } else {
                assert_eq!(block.block_type, BlockType::Air);
                assert_eq!(block.natural_background, NaturalBackground::Sky);
            }
        }
        for y in surface + 1..2048 {
            assert_eq!(column[y].block_type, BlockType::Dirt);
            assert_eq!(column[y].natural_background, NaturalBackground::Dirt);
        }
        for y in 0..2048 {
            assert_eq!(column[y].light, 0);
            assert_eq!(column[y].water, 0);
        }
    }
}

#[test]
fn a_chunk_follows_the_walk_column_by_column() {
    let biome = x_to_biome(64);
    let mut height = 20_000_000;
    let mut slope = 200_000;
    let chunk = Chunk::generate(&mut height, &mut slope, true, 64);
    let mut h = 20_000_000;
    let mut s = 200_000;
    for i in 0..32usize {
        let x = 64 + i as isize;
        biome.advance(&mut h, &mut s, hash_coordinate(x));
        let surface = if h < 0 { 0 } else { (h / 1_000_000) as usize };
        assert_eq!(surface_of(&chunk.blocks[i]), surface);
        let tree = biome.grows_tree(hash_coordinate(x), hash_coordinate(x - 1));
        assert_eq!(
            surface > 0 && chunk.blocks[i][surface - 1].block_type == BlockType::Tree,
            tree && surface > 0
        );
    }
    assert_eq!((height, slope), (h, s));
    assert_eq!(chunk.left_config, (20_000_000, 200_000));
    assert_eq!(chunk.right_config, (h, s));
}

#[test]
fn a_chunk_generated_leftwards_is_stored_left_to_right() {
    let biome = x_to_biome(-1);
    let mut height = 33_000_000;
    let mut slope = -100_000;
    let chunk = Chunk::generate(&mut height, &mut slope, false, -1);
    let mut h = 33_000_000;
    let mut s = -100_000;
    for i in 0..32usize {
        let x = -1 - i as isize;
        biome.advance(&mut h, &mut s, hash_coordinate(x));
        let surface = (h / 1_000_000) as usize;
        // The column of x = -1 is the last of the chunk, that of -32 the first.
        assert_eq!(surface_of(&chunk.blocks[31 - i]), surface);
    }
    assert_eq!((height, slope), (h, s));
    assert_eq!(chunk.right_config, (33_000_000, -100_000));
    assert_eq!(chunk.left_config, (h, s));
}

#[test]
fn chained_chunks_meet_without_a_seam() {
    let mut height = 20_000_000;
    let mut slope = 200_000;
    let mut surfaces: Vec<usize> = Vec::new();
    let mut heights: Vec<i64> = vec![height];
    for chunk_number in -5isize..15 {
        let origin = chunk_number * 32;
        let biome = x_to_biome(origin);
        let before = height;
        let chunk = Chunk::generate(&mut height, &mut slope, true, origin);
        assert_eq!(chunk.left_config.0, before);
        assert_eq!(chunk.right_config, (height, slope));
        // The whole chunk lies within 32 longest steps of where it began.
        assert!((height - before).abs() <= 32 * max_step(biome));
        heights.push(height);
        for column in chunk.blocks.iter() {
            surfaces.push(surface_of(column));
        }
    }
    for pair in surfaces.windows(2) {
        let step = pair[0] as i64 - pair[1] as i64;
        assert!((-1..=1).contains(&step));
    }
}

#[test]
fn the_first_column_of_a_chunk_is_one_step_from_the_last_of_the_one_before() {
    let mut height = 20_000_000;
    let mut slope = 200_000;
    Chunk::generate(&mut height, &mut slope, true, 0);
    let end = height;
    let biome = x_to_biome(32);
    let mut h = height;
    let mut s = slope;
    biome.advance(&mut h, &mut s, hash_coordinate(32));
    assert!((h - end).abs() <= max_step(biome));
    let chunk = Chunk::generate(&mut height, &mut slope, true, 32);
    assert_eq!(surface_of(&chunk.blocks[0]), (h / 1_000_000) as usize);
}

#[test]
fn terrain_is_generated_at_the_ends_of_the_coordinates() {
    for (origin, left_to_right) in [
        (isize::MAX, true),
        (isize::MAX, false),
        (isize::MIN, true),
        (isize::MIN, false),
        (isize::MAX - 31, true),
        (isize::MIN + 31, false),
    ] {
        let mut height = 35_000_000;
        let mut slope = 0;
        let chunk = Chunk::generate(&mut height, &mut slope, left_to_right, origin);
        assert_eq!(chunk.blocks.len(), 32);
        let (begin, end) = if left_to_right {
            (chunk.left_config, chunk.right_config)
        } else {
            (chunk.right_config, chunk.left_config)
        };
        assert_eq!(begin, (35_000_000, 0));
        assert_eq!(end, (height, slope));
        for column in chunk.blocks.iter() {
            let surface = surface_of(column);
            assert!((2..68).contains(&surface));
        }
    }
}

#[test]
fn chained_chunks_hand_their_state_on() {
    for origin in [-64isize, 0, 4096, isize::MAX - 63, isize::MIN] {
        let mut height = 20_000_000;
        let mut slope = 200_000;
        let first = Chunk::generate(&mut height, &mut slope, true, origin);
        let second = Chunk::generate(&mut height, &mut slope, true, origin.wrapping_add(32));
        assert_eq!(first.left_config, (20_000_000, 200_000));
        assert_eq!(second.left_config, first.right_config);
        assert_eq!(second.right_config, (height, slope));
    }
}
