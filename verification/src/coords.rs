//! From a world coordinate to the chunk and column that hold it, to the
//! biome that it lies in, and to and from the screen.

use crate::chunks::{Biome, UNIT};
use crate::noise::{coordinate_hash, hash_coordinate};
use vstd::prelude::*;

verus! {

/// The chunk that holds the world column `x`. A chunk is 32 columns wide,
/// and chunk 0 begins at column 0: the chunk is `x` divided by 32, rounded
/// down.
pub open spec fn chunk_of(x: int) -> int {
    x / 32
}

/// The place of the world column `x` inside its chunk.
pub open spec fn column_of(x: int) -> int {
    x % 32
}

/// The chunk that holds the world column `x`.
pub fn x_to_chunk(x: isize) -> (chunk: isize)
    ensures
        chunk == chunk_of(x as int),
{
    x_to_chunk_and_column(x).0
}

/// The chunk that holds the world column `x`, and the column's place in it.
/// The division rounds down, so the place is never negative.
pub fn x_to_chunk_and_column(x: isize) -> (place: (isize, isize))
    ensures
        place.0 == chunk_of(x as int),
        place.1 == column_of(x as int),
        0 <= place.1 < 32,
        place.0 * 32 + place.1 == x,
{
    if x >= 0 {
        (x / 32, x % 32)
    } else {
        // -(x + 1) counts the columns between x and -1.
        let below: isize = -(x + 1);
        (-(below / 32) - 1, 31 - below % 32)
    }
}

/// Splitting a coordinate and putting it together again gives it back, and
/// the column always lies inside the chunk, for negative coordinates too.
pub proof fn lemma_coordinate_round_trip(x: int)
    ensures
        chunk_of(x) * 32 + column_of(x) == x,
        0 <= column_of(x) < 32,
{
}

/// The decomposition is the only one: a chunk and a column inside it name
/// one coordinate.
pub proof fn lemma_decomposition_unique(chunk: int, column: int)
    requires
        0 <= column < 32,
    ensures
        chunk_of(chunk * 32 + column) == chunk,
        column_of(chunk * 32 + column) == column,
{
}

/// A block is this many pixels wide and high on the screen.
pub const BLOCK_PIXELS: i64 = 16;

/// The world coordinate, along one axis, of the block that shows at the
/// place `screen` of the screen, for a player at `player` who is drawn at
/// the pixel `center`. Places on the screen are counted in parts of a pixel
/// and the player's position in parts of a block, of which [`UNIT`] make
/// one. Sixteen pixels make a block, and the coordinate is rounded down.
pub open spec fn world_of_pixel(screen: int, player: int, center: int) -> int {
    (BLOCK_PIXELS * player - (center * UNIT - screen)) / (BLOCK_PIXELS * UNIT)
}

/// The place on the screen, along one axis and in parts of a pixel, of the
/// near edge of the block at the world coordinate `world`.
pub open spec fn pixel_of_world(world: int, player: int, center: int) -> int {
    center * UNIT - (player - world * UNIT) * BLOCK_PIXELS
}

/// Whether a number fits the machine's integers for coordinates.
pub open spec fn fits_isize(v: int) -> bool {
    isize::MIN <= v <= isize::MAX
}

/// Whether a number fits the machine's integers for fixed-point places.
pub open spec fn fits_i64(v: int) -> bool {
    i64::MIN <= v <= i64::MAX
}

/// The block that shows at the place `x`, `y` of the screen, in parts of a
/// pixel, for a player at `player`, in parts of a block, who is drawn at the
/// pixel `screen_center`. The block must be one that the machine can count.
pub fn screen_to_map(x: i64, y: i64, player: (i64, i64), screen_center: (isize, isize)) -> (block: (
    isize,
    isize,
))
    requires
        fits_isize(world_of_pixel(x as int, player.0 as int, screen_center.0 as int)),
        fits_isize(world_of_pixel(y as int, player.1 as int, screen_center.1 as int)),
    ensures
        block.0 == world_of_pixel(x as int, player.0 as int, screen_center.0 as int),
        block.1 == world_of_pixel(y as int, player.1 as int, screen_center.1 as int),
{
    (
        axis_to_map(x, player.0, screen_center.0),
        axis_to_map(y, player.1, screen_center.1),
    )
}

/// One axis of [`screen_to_map`].
fn axis_to_map(screen: i64, player: i64, center: isize) -> (world: isize)
    requires
        fits_isize(world_of_pixel(screen as int, player as int, center as int)),
    ensures
        world == world_of_pixel(screen as int, player as int, center as int),
{
    let position: i128 = 16 * (player as i128) - ((center as i128) * 1_000_000 - (screen as i128));
    let world: i128 = if position >= 0 {
        position / 16_000_000
    } else {
        -((-(position + 1)) / 16_000_000) - 1
    };
    world as isize
}

/// Where on the screen the block at the world coordinates `x`, `y` shows:
/// the place of its top left corner, in parts of a pixel of which [`UNIT`]
/// make one. The place must be one that the machine can count.
pub fn map_to_screen(x: isize, y: isize, player: (i64, i64), screen_center: (isize, isize)) -> (screen: (
    i64,
    i64,
))
    requires
        fits_i64(pixel_of_world(x as int, player.0 as int, screen_center.0 as int)),
        fits_i64(pixel_of_world(y as int, player.1 as int, screen_center.1 as int)),
    ensures
        screen.0 == pixel_of_world(x as int, player.0 as int, screen_center.0 as int),
        screen.1 == pixel_of_world(y as int, player.1 as int, screen_center.1 as int),
{
    (
        axis_to_screen(x, player.0, screen_center.0),
        axis_to_screen(y, player.1, screen_center.1),
    )
}

/// One axis of [`map_to_screen`].
fn axis_to_screen(world: isize, player: i64, center: isize) -> (screen: i64)
    requires
        fits_i64(pixel_of_world(world as int, player as int, center as int)),
    ensures
        screen == pixel_of_world(world as int, player as int, center as int),
{
    let place: i128 = (center as i128) * 1_000_000 - ((player as i128) - (world as i128)
        * 1_000_000) * 16;
    place as i64
}

/// Every place that a block covers on the screen leads back to the block:
/// its near edge and the sixteen pixels from there.
pub proof fn lemma_pixels_of_block(world: int, player: int, center: int, screen: int)
    requires
        pixel_of_world(world, player, center) <= screen < pixel_of_world(world, player, center)
            + BLOCK_PIXELS * UNIT,
    ensures
        world_of_pixel(screen, player, center) == world,
{
    let position = 16 * player - (center * 1_000_000 - screen);
    assert(world * 16_000_000 <= position < (world + 1) * 16_000_000);
}

/// Screen round trip. The place where a block shows leads back to the
/// block, whatever the block, the player and the centre: where
/// [`map_to_screen`] can give the place, [`screen_to_map`] takes it, and
/// every place up to sixteen pixels further on, and gives the block.
pub proof fn lemma_screen_round_trip(
    x: isize,
    y: isize,
    player: (i64, i64),
    screen_center: (isize, isize),
    dx: int,
    dy: int,
)
    requires
        0 <= dx < BLOCK_PIXELS * UNIT,
        0 <= dy < BLOCK_PIXELS * UNIT,
    ensures
        world_of_pixel(
            pixel_of_world(x as int, player.0 as int, screen_center.0 as int) + dx,
            player.0 as int,
            screen_center.0 as int,
        ) == x,
        world_of_pixel(
            pixel_of_world(y as int, player.1 as int, screen_center.1 as int) + dy,
            player.1 as int,
            screen_center.1 as int,
        ) == y,
        fits_isize(
            world_of_pixel(
                pixel_of_world(x as int, player.0 as int, screen_center.0 as int) + dx,
                player.0 as int,
                screen_center.0 as int,
            ),
        ),
        fits_isize(
            world_of_pixel(
                pixel_of_world(y as int, player.1 as int, screen_center.1 as int) + dy,
                player.1 as int,
                screen_center.1 as int,
            ),
        ),
{
    lemma_pixels_of_block(
        x as int,
        player.0 as int,
        screen_center.0 as int,
        pixel_of_world(x as int, player.0 as int, screen_center.0 as int) + dx,
    );
    lemma_pixels_of_block(
        y as int,
        player.1 as int,
        screen_center.1 as int,
        pixel_of_world(y as int, player.1 as int, screen_center.1 as int) + dy,
    );
}

/// A place on the screen, a player and a centre of the screen that each lie
/// within 2^30 of the origin, in pixels and in blocks, lead to a block that
/// the machine can count.
pub proof fn lemma_screen_block_fits(screen: i64, player: i64, center: isize)
    requires
        -0x4000_0000 * UNIT <= screen <= 0x4000_0000 * UNIT,
        -0x4000_0000 <= center <= 0x4000_0000,
        -0x4000_0000 * UNIT <= player <= 0x4000_0000 * UNIT,
    ensures
        fits_isize(world_of_pixel(screen as int, player as int, center as int)),
{
    let position = 16 * player - (center * 1_000_000 - screen);
    assert(-19_327_352_832_000_000 <= position <= 19_327_352_832_000_000);
    assert(-1_207_959_552 <= position / 16_000_000 <= 1_207_959_552);
    assert(isize::MAX >= 0x7fff_ffff && isize::MIN <= -0x8000_0000);
}

/// A block, a player and a centre of the screen that each lie within 2^30
/// of the origin, in blocks and in pixels, give a place on the screen that
/// the machine can count.
pub proof fn lemma_screen_place_fits(world: isize, player: i64, center: isize)
    requires
        -0x4000_0000 <= world <= 0x4000_0000,
        -0x4000_0000 <= center <= 0x4000_0000,
        -0x4000_0000 * UNIT <= player <= 0x4000_0000 * UNIT,
    ensures
        fits_i64(pixel_of_world(world as int, player as int, center as int)),
{
}

/// The group of chunks, eight wide, that holds the world column `x`.
pub open spec fn chunk_group_of(x: int) -> int {
    chunk_of(x) / 8
}

/// The biome that a hash selects.
pub open spec fn hash_biome(hash: int) -> Biome {
    if hash % 3 == 0 {
        Biome::Hills
    } else if hash % 3 == 1 {
        Biome::Grassland
    } else {
        Biome::TemperateBroadleafForest
    }
}

/// The biome at the world column `x`: the one that the hash of its chunk
/// group selects.
pub open spec fn biome_at(x: int) -> Biome {
    hash_biome(coordinate_hash(chunk_group_of(x)))
}

/// The biome that a hash selects: its remainder by three picks one of the
/// three biomes.
pub fn biome_of_hash(hash: u32) -> (biome: Biome)
    ensures
        biome == hash_biome(hash as int),
{
    let pick: u32 = hash % 3;
    if pick == 0 {
        Biome::Hills
    } else if pick == 1 {
        Biome::Grassland
    } else {
        Biome::TemperateBroadleafForest
    }
}

/// The biome at the world column `x`. All columns of a chunk group share it.
pub fn x_to_biome(x: isize) -> (biome: Biome)
    ensures
        biome == biome_at(x as int),
{
    let chunk = x_to_chunk(x);
    let group = if chunk >= 0 {
        chunk / 8
    } else {
        -((-(chunk + 1)) / 8) - 1
    };
    biome_of_hash(hash_coordinate(group))
}

/// Two columns of one chunk group lie in one biome.
pub proof fn lemma_biome_per_group(x1: int, x2: int)
    requires
        chunk_group_of(x1) == chunk_group_of(x2),
    ensures
        biome_at(x1) == biome_at(x2),
{
}

} // verus!
