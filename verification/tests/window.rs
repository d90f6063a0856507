use terrarust::blocks::{Block, BlockType, NaturalBackground};
use terrarust::chunks::Chunk;
use terrarust::map::{SimulationError, WorldMap, CHUNK_LIMIT};

fn air() -> Block {
    Block::_new(BlockType::Air, NaturalBackground::Sky)
}

fn relaxed_light(map: &WorldMap, x: isize, y: isize) -> usize {
    let brightest = [(x - 1, y), (x + 1, y), (x, y - 1), (x, y + 1)]
        .iter()
        .map(|(nx, ny)| map.get(*nx, *ny).light)
        .max()
        .unwrap();
    brightest.saturating_sub(map.get(x, y).block_type.get_light_loss())
}

fn surface_of(map: &WorldMap, x: isize) -> isize {
    (0..2048)
        .find(|y| map.get(x, *y).block_type == BlockType::Grass)
        .expect("a column has a surface")
}

fn terrain(map: &WorldMap, x: isize) -> Vec<(BlockType, NaturalBackground)> {
    (0..2048)
        .map(|y| {
            let block = map.get(x, y);
            (block.block_type, block.natural_background)
        })
        .collect()
}

fn assert_chunks_connect(map: &WorldMap) {
    for pair in map.chunks.windows(2) {
        assert_eq!(pair[0].right_config, pair[1].left_config);
    }
    for chunk in map.chunks.iter() {
        assert_eq!(chunk.blocks.len(), 32);
    }
}

#[test]
fn a_new_world_has_ten_chunks_around_the_origin() {
    let map = WorldMap::new();
    assert_eq!(map.chunks.len(), 10);
    assert_eq!(map.first_chunk_number, -5);
    assert_eq!(map.first_block, 0);
    assert!(map.light_update.is_empty());
    assert!(map.water_update.is_empty());
    assert!(map.light_to_render.is_empty());
    assert!(map.block_to_render.is_empty());
    assert!(map.is_loaded(-160, 0));
    assert!(map.is_loaded(159, 2047));
    assert!(!map.is_loaded(-161, 0));
    assert!(!map.is_loaded(160, 0));
    assert_chunks_connect(&map);
    assert_eq!(map.chunks[0].left_config, (20_000_000, 200_000));
}

#[test]
fn a_world_whose_lights_rest_is_reported_so() {
    let mut map = WorldMap::try_new().expect("the lights come to rest");
    assert_eq!(map.chunks.len(), 10);
    assert_eq!(map.first_chunk_number, -5);
    assert!(map.light_update.is_empty());
    assert_eq!(map.get(0, 0).light, 100);
    let work = map.try_update_chunks(40).expect("the lights come to rest");
    assert_eq!(map.first_chunk_number, -3);
    assert_eq!(map.chunks.len(), 10);
    assert!(!work.falling_behind);
}

#[test]
fn a_new_world_is_the_chain_of_its_chunks() {
    let map = WorldMap::new();
    let mut height = 20_000_000;
    let mut slope = 200_000;
    for (i, loaded) in map.chunks.iter().enumerate() {
        let chunk = Chunk::generate(&mut height, &mut slope, true, (i as isize - 5) * 32);
        assert_eq!(chunk.left_config, loaded.left_config);
        assert_eq!(chunk.right_config, loaded.right_config);
        for column in 0..32 {
            for y in 0..2048 {
                let fresh = chunk.blocks[column][y];
                let lit = loaded.blocks[column][y];
                assert_eq!(fresh.block_type, lit.block_type);
                assert_eq!(fresh.natural_background, lit.natural_background);
                assert_eq!(lit.water, 0);
            }
        }
    }
}

#[test]
fn a_new_world_is_lit_from_the_top() {
    let map = WorldMap::new();
    for x in -160isize..160 {
        assert_eq!(map.get(x, 0).light, 100);
        let surface = surface_of(&map, x);
        assert!(surface > 10);
        // In the open air the light fades by one for each row.
        for y in 0..10 {
            assert_eq!(map.get(x, y).light, 100 - y as usize);
        }
    }
}

#[test]
fn the_light_of_a_new_world_is_at_rest() {
    let map = WorldMap::new();
    for x in -160isize..160 {
        for y in 0isize..2048 {
            let light = map.get(x, y).light;
            let source = y == 0 && light == 100;
            assert!(light <= 100);
            assert!(
                source || light == relaxed_light(&map, x, y),
                "the cell at {}, {} holds {}",
                x,
                y,
                light
            );
        }
    }
}

#[test]
fn the_window_follows_the_player_to_the_right() {
    let mut map = WorldMap::new();
    let kept: Vec<_> = (-128isize..160).map(|x| terrain(&map, x)).collect();
    let last = map.chunks[9].right_config;
    // The player stands in chunk 0: four chunks stay loaded to the left.
    let work = map.update_chunks(3);
    assert_eq!(map.first_chunk_number, -4);
    assert_eq!(map.chunks.len(), 10);
    assert!(!work.falling_behind);
    assert!(work.lights.len() <= 50);
    assert_chunks_connect(&map);
    assert_eq!(map.chunks[9].left_config, last);
    for (i, x) in (-128isize..160).enumerate() {
        assert_eq!(terrain(&map, x), kept[i]);
    }
    assert!(!map.is_loaded(-129, 0));
    assert!(map.is_loaded(191, 0));
    assert_eq!(map.get(-129, 0), air());
    // The new chunk is lit like the rest.
    for x in 160isize..192 {
        assert_eq!(map.get(x, 0).light, 100);
        assert_eq!(map.get(x, 5).light, 95);
    }
    assert!(map.light_update.is_empty());
}

#[test]
fn the_new_chunk_goes_on_from_its_neighbour() {
    let mut map = WorldMap::new();
    let (mut height, mut slope) = map.chunks[9].right_config;
    let expected = Chunk::generate(&mut height, &mut slope, true, 160);
    map.update_chunks(32);
    assert_eq!(map.first_chunk_number, -3);
    // Two slides: the chunk made by the first is now the last but one.
    let made = &map.chunks[8];
    assert_eq!(made.left_config, expected.left_config);
    assert_eq!(made.right_config, expected.right_config);
    for column in 0..32 {
        for y in 0..2048 {
            assert_eq!(made.blocks[column][y].block_type, expected.blocks[column][y].block_type);
        }
    }

    let (mut height, mut slope) = map.chunks[0].left_config;
    let expected = Chunk::generate(&mut height, &mut slope, false, -97);
    map.update_chunks(0);
    assert_eq!(map.first_chunk_number, -4);
    let made = &map.chunks[0];
    assert_eq!(made.left_config, expected.left_config);
    assert_eq!(made.right_config, expected.right_config);
    for column in 0..32 {
        for y in 0..2048 {
            assert_eq!(made.blocks[column][y].block_type, expected.blocks[column][y].block_type);
        }
    }
}

#[test]
fn the_window_follows_the_player_to_the_left() {
    let mut map = WorldMap::new();
    let kept: Vec<_> = (-160isize..-64).map(|x| terrain(&map, x)).collect();
    // The player stands in chunk -8: the window begins at chunk -12.
    map.update_chunks(-250);
    assert_eq!(map.first_chunk_number, -12);
    assert_eq!(map.chunks.len(), 10);
    assert_chunks_connect(&map);
    for (i, x) in (-160isize..-64).enumerate() {
        assert_eq!(terrain(&map, x), kept[i]);
    }
    assert!(map.is_loaded(-384, 0));
    assert!(!map.is_loaded(-385, 0));
    assert!(map.is_loaded(-65, 0));
    assert!(!map.is_loaded(-64, 0));
    for x in -384isize..-64 {
        assert_eq!(map.get(x, 0).light, 100);
        let surface = surface_of(&map, x);
        assert!(surface > 0);
    }
}

#[test]
fn a_player_in_place_moves_nothing() {
    let mut map = WorldMap::new();
    // A new world already has four chunks to the left of chunk -1.
    for x in [-32isize, -17, -1] {
        let work = map.update_chunks(x);
        assert_eq!(map.first_chunk_number, -5);
        assert!(work.lights.is_empty());
        assert!(!work.falling_behind);
    }
    assert_eq!(map.chunks.len(), 10);
}

#[test]
fn the_window_keeps_its_width_back_and_forth() {
    let mut map = WorldMap::new();
    for player_x in [100isize, 300, 301, 40, -90, -91, 0, 31, 32] {
        map.update_chunks(player_x);
        let chunk = player_x.div_euclid(32);
        assert_eq!(map.first_chunk_number, chunk - 4);
        assert_eq!(map.chunks.len(), 10);
        assert_chunks_connect(&map);
        for number in chunk - 6..chunk + 8 {
            let loaded = number >= chunk - 4 && number < chunk + 6;
            assert_eq!(map.is_loaded(number * 32, 0), loaded);
            assert_eq!(map.is_loaded(number * 32 + 31, 2047), loaded);
        }
    }
}

#[test]
fn pending_light_updates_survive_a_slide() {
    let mut map = WorldMap::new();
    map.light_update = vec![(1000, 5, false), (0, 3000, true)];
    map.update_chunks(40);
    assert_eq!(map.first_chunk_number, -3);
    assert_eq!(map.light_update, vec![(1000, 5, false), (0, 3000, true)]);
}

#[test]
fn water_beside_the_new_chunk_is_listed_again() {
    let mut map = WorldMap::new();
    map.index_mut((130, 3)).water = 5;
    map.index_mut((-150, 3)).water = 5;
    map.update_chunks(3);
    // Sliding right looks through the chunk that was the rightmost.
    assert_eq!(map.water_update, vec![(130, 3)]);
    map.water_update.clear();
    map.index_mut((-100, 4)).water = 5;
    map.update_chunks(-1);
    // Sliding left looks through the chunk that was the leftmost.
    assert_eq!(map.first_chunk_number, -5);
    assert_eq!(map.water_update, vec![(-100, 4)]);
}

#[test]
fn a_long_list_of_lights_to_draw_is_reported() {
    let mut map = WorldMap::new();
    for i in 0..3001isize {
        map.light_to_render.push((i, 0));
    }
    let work = map.update_chunks(-1);
    assert!(work.falling_behind);
    assert_eq!(work.waiting, 3001);
    assert_eq!(work.lights.len(), 50);
    assert_eq!(work.lights[0], (0, 0));
    assert_eq!(map.light_to_render.len(), 2951);
    map.light_to_render.truncate(2950);
    let work = map.update_chunks(-1);
    assert!(!work.falling_behind);
    assert_eq!(work.waiting, 2950);
    assert_eq!(work.lights.len(), 50);
    assert_eq!(map.light_to_render.len(), 2900);
}

#[test]
fn a_slide_whose_light_finds_no_rest_ends_the_sliding() {
    let mut map = WorldMap::new();
    // Far too bright a cell next to where the new chunk comes in.
    map.index_mut((159, 2)).light = 1_000_000;
    let result = map.try_update_chunks(3 + 5 * 32);
    assert_eq!(result.err(), Some(SimulationError::LightDiverged));
    // The first slide was made, the four after it were not.
    assert_eq!(map.first_chunk_number, -4);
    assert_eq!(map.chunks.len(), 10);
}

fn world_of(block: Block, chunks: usize, first: isize) -> WorldMap {
    let mut loaded = Vec::new();
    for _ in 0..chunks {
        loaded.push(Chunk {
            blocks: vec![[block; 2048]; 32],
            left_config: (35_000_000, 0),
            right_config: (35_000_000, 0),
        });
    }
    WorldMap {
        chunks: loaded,
        first_chunk_number: first,
        first_block: 0,
        air: air(),
        light_update: Vec::new(),
        water_update: Vec::new(),
        light_to_render: Vec::new(),
        block_to_render: Vec::new(),
    }
}

#[test]
fn the_window_stops_at_the_limits() {
    // Two chunks short of the right limit.
    let mut map = world_of(air(), 3, CHUNK_LIMIT - 5);
    map.update_chunks(isize::MAX);
    assert_eq!(map.first_chunk_number, CHUNK_LIMIT - 3);
    assert_eq!(map.chunks.len(), 3);
    assert!(map.is_loaded(CHUNK_LIMIT * 32 - 1, 0));
    assert!(!map.is_loaded(CHUNK_LIMIT * 32, 0));
    map.update_chunks(isize::MAX);
    assert_eq!(map.first_chunk_number, CHUNK_LIMIT - 3);
    // The window still follows back in.
    map.update_chunks((CHUNK_LIMIT - 1) * 32);
    assert_eq!(map.first_chunk_number, CHUNK_LIMIT - 5);

    // One chunk short of the left limit.
    let mut map = world_of(air(), 3, -CHUNK_LIMIT + 1);
    map.update_chunks(isize::MIN);
    assert_eq!(map.first_chunk_number, -CHUNK_LIMIT);
    assert_eq!(map.chunks.len(), 3);
    assert!(map.is_loaded(-CHUNK_LIMIT * 32, 0));
    assert!(!map.is_loaded(-CHUNK_LIMIT * 32 - 1, 0));
    map.update_chunks(-CHUNK_LIMIT * 32 - 1000);
    assert_eq!(map.first_chunk_number, -CHUNK_LIMIT);
}
