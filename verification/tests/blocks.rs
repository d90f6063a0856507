use terrarust::blocks::{Block, BlockType, NaturalBackground};
use terrarust::items::{Inventory, Item};
use terrarust::textures::get_texture_idx;

#[test]
fn a_new_block_is_dark_and_dry() {
    let block = Block::_new(BlockType::Grass, NaturalBackground::Dirt);
    assert_eq!(
        block,
        Block {
            block_type: BlockType::Grass,
            natural_background: NaturalBackground::Dirt,
            light: 0,
            water: 0,
        }
    );
}

#[test]
fn air_and_trees_let_through() {
    assert!(BlockType::Air.can_pass_through());
    assert!(BlockType::Tree.can_pass_through());
    assert!(!BlockType::Grass.can_pass_through());
    assert!(!BlockType::Dirt.can_pass_through());
    assert!(Block::_new(BlockType::Tree, NaturalBackground::Sky).can_pass_through());
    assert!(!Block::_new(BlockType::Dirt, NaturalBackground::Sky).can_pass_through());
}

#[test]
fn each_material_loses_its_own_light() {
    assert_eq!(BlockType::Grass.get_light_loss(), 6);
    assert_eq!(BlockType::Dirt.get_light_loss(), 10);
    assert_eq!(BlockType::Air.get_light_loss(), 1);
    assert_eq!(BlockType::Tree.get_light_loss(), 1);
}

#[test]
fn blocks_break_into_items() {
    assert_eq!(BlockType::Grass.as_item(), vec![Item::Dirt]);
    assert_eq!(BlockType::Dirt.as_item(), vec![Item::Dirt]);
    assert_eq!(BlockType::Air.as_item(), Vec::<Item>::new());
    assert_eq!(
        BlockType::Tree.as_item(),
        vec![Item::Log, Item::WoodStick, Item::Foliage]
    );
    assert_eq!(
        Block::_new(BlockType::Tree, NaturalBackground::Dirt).as_item(),
        vec![Item::Log, Item::WoodStick, Item::Foliage]
    );
}

#[test]
fn only_dirt_can_be_placed() {
    assert_eq!(Item::Dirt.as_block(), Some(BlockType::Dirt));
    assert_eq!(Item::Log.as_block(), None);
    assert_eq!(Item::WoodStick.as_block(), None);
    assert_eq!(Item::Foliage.as_block(), None);
}

#[test]
fn a_new_inventory_is_empty() {
    let inventory = Inventory::new(27);
    assert_eq!(inventory.len(), 27);
    for idx in 0..27 {
        assert_eq!(*inventory.index(idx), None);
    }
    assert_eq!(Inventory::new(0).len(), 0);
}

#[test]
fn items_stack_on_their_kind() {
    let mut inventory = Inventory::new(3);
    assert!(inventory.push(Item::Dirt));
    assert!(inventory.push(Item::Log));
    assert!(inventory.push(Item::Dirt));
    assert_eq!(*inventory.index(0), Some((Item::Dirt, 2)));
    assert_eq!(*inventory.index(1), Some((Item::Log, 1)));
    assert_eq!(*inventory.index(2), None);
}

#[test]
fn a_full_inventory_takes_only_what_stacks() {
    let mut inventory = Inventory::new(2);
    assert!(inventory.push(Item::Dirt));
    assert!(inventory.push(Item::Log));
    assert!(!inventory.push(Item::Foliage));
    assert!(inventory.push(Item::Log));
    assert_eq!(*inventory.index(0), Some((Item::Dirt, 1)));
    assert_eq!(*inventory.index(1), Some((Item::Log, 2)));
    assert!(!Inventory::new(0).push(Item::Dirt));
}

#[test]
fn an_emptied_slot_is_filled_first() {
    let mut inventory = Inventory::new(3);
    assert!(inventory.push(Item::Dirt));
    assert!(inventory.push(Item::Log));
    *inventory.index_mut(0) = None;
    assert!(inventory.push(Item::Foliage));
    assert_eq!(*inventory.index(0), Some((Item::Foliage, 1)));
    assert_eq!(*inventory.index(1), Some((Item::Log, 1)));
}

#[test]
fn a_slot_can_be_changed_in_place() {
    let mut inventory = Inventory::new(2);
    assert!(inventory.push(Item::Dirt));
    if let Some((_item, quantity)) = inventory.index_mut(0) {
        *quantity -= 1;
    }
    assert_eq!(*inventory.index(0), Some((Item::Dirt, 0)));
    assert!(inventory.push(Item::Dirt));
    assert_eq!(*inventory.index(0), Some((Item::Dirt, 1)));
}

#[test]
fn a_stack_at_the_limit_takes_no_more() {
    let mut inventory = Inventory::new(2);
    *inventory.index_mut(0) = Some((Item::Dirt, usize::MAX));
    assert!(!inventory.push(Item::Dirt));
    assert_eq!(*inventory.index(0), Some((Item::Dirt, usize::MAX)));
    assert_eq!(*inventory.index(1), None);
}

#[test]
fn each_open_side_has_its_bit() {
    assert_eq!(get_texture_idx((false, false, false, false)), 0);
    assert_eq!(get_texture_idx((true, false, false, false)), 8);
    assert_eq!(get_texture_idx((false, true, false, false)), 4);
    assert_eq!(get_texture_idx((false, false, true, false)), 2);
    assert_eq!(get_texture_idx((false, false, false, true)), 1);
    assert_eq!(get_texture_idx((true, false, true, false)), 10);
    assert_eq!(get_texture_idx((true, true, true, true)), 15);
}
