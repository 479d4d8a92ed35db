use blockworld::item::{Item, ItemStack};
use blockworld::player::{Acceleration, Player, Velocity};

fn empty_player() -> Player {
    Player {
        x: 0,
        y: 0,
        health: 7_812_500,
        hitbox_width: 1,
        hitbox_height: 2,
        velocity: Velocity { x: 0, y: 0 },
        acceleration: Acceleration { x: 0, y: 0 },
        do_jump: false,
        inventory: [None; 9],
        selected_slot: 0,
    }
}

fn total(p: &Player) -> u32 {
    p.inventory.iter().map(|s| s.map(|s| s.count as u32).unwrap_or(0)).sum()
}

#[test]
fn insert_into_empty_inventory_uses_first_slot() {
    let mut p = empty_player();
    assert_eq!(p.insert(ItemStack { item: Item::Stone, count: 3 }), Ok(()));
    assert_eq!(p.inventory[0], Some(ItemStack { item: Item::Stone, count: 3 }));
    assert!(p.inventory[1..].iter().all(|s| s.is_none()));
}

#[test]
fn insert_merges_before_it_takes_an_empty_slot() {
    let mut p = empty_player();
    p.inventory[1] = Some(ItemStack { item: Item::Stone, count: 3 });
    assert_eq!(p.insert(ItemStack { item: Item::Stone, count: 1 }), Ok(()));
    assert_eq!(p.inventory[0], None);
    assert_eq!(p.inventory[1], Some(ItemStack { item: Item::Stone, count: 4 }));
}

#[test]
fn insert_saturates_and_continues_into_next_stack() {
    let mut p = empty_player();
    p.inventory[0] = Some(ItemStack { item: Item::Wood, count: 250 });
    p.inventory[2] = Some(ItemStack { item: Item::Wood, count: 254 });
    p.inventory[3] = Some(ItemStack { item: Item::Stone, count: 1 });
    assert_eq!(p.insert(ItemStack { item: Item::Wood, count: 10 }), Ok(()));
    assert_eq!(p.inventory[0], Some(ItemStack { item: Item::Wood, count: 255 }));
    assert_eq!(p.inventory[2], Some(ItemStack { item: Item::Wood, count: 255 }));
    assert_eq!(p.inventory[1], Some(ItemStack { item: Item::Wood, count: 4 }));
    assert_eq!(p.inventory[3], Some(ItemStack { item: Item::Stone, count: 1 }));
}

#[test]
fn insert_returns_leftover_when_full() {
    let mut p = empty_player();
    for i in 0..9 {
        p.inventory[i] = Some(ItemStack { item: Item::Grass, count: 255 });
    }
    p.inventory[4] = Some(ItemStack { item: Item::Leaves, count: 250 });
    let before = total(&p);
    assert_eq!(p.insert(ItemStack { item: Item::Leaves, count: 9 }), Err(4));
    assert_eq!(p.inventory[4], Some(ItemStack { item: Item::Leaves, count: 255 }));
    assert_eq!(total(&p) + 4, before + 9);
}

#[test]
fn insert_conserves_items() {
    let mut p = empty_player();
    p.inventory[0] = Some(ItemStack { item: Item::Ore, count: 200 });
    p.inventory[5] = Some(ItemStack { item: Item::Ore, count: 100 });
    for count in [1u8, 50, 55, 56, 200, 255] {
        let mut q = p;
        let before = total(&q);
        let leftover = match q.insert(ItemStack { item: Item::Ore, count }) {
            Ok(()) => 0u32,
            Err(n) => n as u32,
        };
        assert_eq!(total(&q) + leftover, before + count as u32);
    }
}

#[test]
fn consume_current_empties_slot_at_zero() {
    let mut p = empty_player();
    p.inventory[2] = Some(ItemStack { item: Item::Stone, count: 2 });
    p.selected_slot = 2;
    p.consume_current();
    assert_eq!(p.inventory[2], Some(ItemStack { item: Item::Stone, count: 1 }));
    p.consume_current();
    assert_eq!(p.inventory[2], None);
    p.consume_current();
    assert_eq!(p.inventory[2], None);
}

#[test]
fn held_item_decides_power_and_damage() {
    let mut p = empty_player();
    assert_eq!(p.get_current_breaking_power(), 0);
    assert_eq!(p.get_current_damage(), 156_250);
    p.inventory[0] = Some(ItemStack::single(Item::WoodPickaxe));
    assert_eq!(p.get_current_breaking_power(), 1);
    assert_eq!(p.get_current_damage(), 546_875);
    p.inventory[0] = Some(ItemStack::single(Item::OreAxe));
    assert_eq!(p.get_current_breaking_power(), 2);
    assert_eq!(p.get_current_damage(), 312_500);
    p.inventory[0] = Some(ItemStack::single(Item::WoodSword));
    assert_eq!(p.get_current_breaking_power(), 0);
    assert_eq!(p.get_current_damage(), 781_250);
    assert_eq!(p.get_current_itemstack(), Some(ItemStack { item: Item::WoodSword, count: 1 }));
}

#[test]
fn item_ids_round_trip() {
    for id in 0u8..=12 {
        assert_eq!(Item::from_id(id).id(), id);
    }
    assert_eq!(Item::from_id(77), Item::Grass);
    assert_eq!(Item::from(6u8), Item::WoodPickaxe);
    assert_eq!(u8::from(Item::OreSword), 12);
}
