use adventura::items::{Effect, Item, ItemType};
use adventura::places::{Location, Place};
use adventura::player::Player;

fn hero() -> Player {
    Player::new(String::from("Ayla"))
}

fn unique(name: &str) -> Item {
    Item::new(name, "one of a kind", ItemType::Key)
}

#[test]
fn base_drops_are_the_five_shared_items() {
    let drops = Item::get_base_drops();
    assert_eq!(drops.len(), 5);
    assert!(drops[0].0 == Item::new("Apple", "Crunchy :3", ItemType::Healer { amount: 25 }));
    assert_eq!((drops[0].1, drops[0].2), (39, true));
    assert!(
        drops[1].0
            == Item::new(
                "Fairy Milk Bottle",
                "The source? You're asking too many questions...",
                ItemType::Healer { amount: 40 },
            )
    );
    assert_eq!((drops[1].1, drops[1].2), (10, true));
    assert!(
        drops[2].0
            == Item::new(
                "Magic Tea",
                "Increases max HP +15 and heals by the same amount",
                ItemType::Special { effect: Effect::IncreaseMaxHealthAndHeal { amount: 15 } },
            )
    );
    assert_eq!((drops[2].1, drops[2].2), (5, true));
    assert!(
        drops[3].0
            == Item::new(
                "XP Potion",
                "Increases XP gain +10%",
                ItemType::Special { effect: Effect::IncreaseXpMultiplier { tenths: 1 } },
            )
    );
    assert_eq!((drops[3].1, drops[3].2), (5, true));
    assert!(drops[4].0 == Item::new("Tranquility Stone", "Meditate instantly", ItemType::Key));
    assert_eq!((drops[4].1, drops[4].2), (1, false));
}

#[test]
fn base_drop_weights_add_up_to_sixty() {
    let total: u32 = Item::get_base_drops().iter().map(|d| d.1).sum();
    assert_eq!(total, 60);
}

#[test]
fn every_place_adds_forty_to_the_shared_drops() {
    for loc in [Location::Forest, Location::Mountains, Location::Cave] {
        let drops = Place::new(loc).get_drops();
        let base = Item::get_base_drops();
        for (i, row) in base.iter().enumerate() {
            assert!(drops[i].0 == row.0);
            assert_eq!((drops[i].1, drops[i].2), (row.1, row.2));
        }
        let total: u32 = drops.iter().map(|d| d.1).sum();
        assert_eq!(total, 100);
        assert!(drops[5..].iter().all(|d| !d.2));
    }
}

#[test]
fn forest_drops_sword_armor_and_the_mountains_key() {
    let drops = Place::new(Location::Forest).get_drops();
    assert_eq!(drops.len(), 8);
    assert!(
        drops[5].0
            == Item::new(
                "Wooden Sword",
                "Give your enemies splinters",
                ItemType::Weapon { damage: 35 },
            )
    );
    assert_eq!(drops[5].1, 25);
    assert!(
        drops[6].0
            == Item::new(
                "Wooden Armor",
                "May occasionally give you splinters",
                ItemType::Armor { reduction: 25 },
            )
    );
    assert_eq!(drops[6].1, 10);
    assert!(drops[7].0 == Item::new("Mountains Key", "Unlocks the mountains", ItemType::Key));
    assert_eq!(drops[7].1, 5);
}

#[test]
fn mountains_drop_iron_and_the_cave_key() {
    let drops = Place::new(Location::Mountains).get_drops();
    assert_eq!(drops.len(), 8);
    assert!(drops[5].0 == Item::new("Iron Sword", "Very pointy", ItemType::Weapon { damage: 50 }));
    assert_eq!(drops[5].1, 25);
    assert!(drops[6].0 == Item::new("Iron Armor", "Tough stuff", ItemType::Armor { reduction: 40 }));
    assert_eq!(drops[6].1, 10);
    assert!(drops[7].0 == Item::new("Cave Key", "Unlocks the cave", ItemType::Key));
    assert_eq!(drops[7].1, 5);
}

#[test]
fn cave_drops_the_blessed_set() {
    let drops = Place::new(Location::Cave).get_drops();
    assert_eq!(drops.len(), 7);
    assert!(drops[5].0 == Item::new("Blessed Sword", "Hallelujah", ItemType::Weapon { damage: 60 }));
    assert_eq!(drops[5].1, 25);
    assert!(
        drops[6].0
            == Item::new(
                "Blessed Armor",
                "Legends say an angel kissed this",
                ItemType::Armor { reduction: 55 },
            )
    );
    assert_eq!(drops[6].1, 15);
}

#[test]
fn roll_over_an_empty_table_gives_nothing() {
    let p = hero();
    assert!(Item::roll_drop(Vec::new(), &p).is_none());
}

#[test]
fn roll_over_weights_of_zero_gives_nothing() {
    let p = hero();
    let drops = vec![(unique("A"), 0, true), (unique("B"), 0, false)];
    assert!(Item::roll_drop(drops, &p).is_none());
}

#[test]
fn roll_over_one_row_gives_that_row() {
    let p = hero();
    for _ in 0..50 {
        let got = Item::roll_drop(vec![(unique("Relic"), 3, false)], &p);
        assert!(got == Some(unique("Relic")));
    }
}

#[test]
fn roll_never_gives_a_row_of_weight_zero() {
    let p = hero();
    for _ in 0..200 {
        let drops = vec![(unique("Never"), 0, true), (unique("Always"), 1, true)];
        assert!(Item::roll_drop(drops, &p) == Some(unique("Always")));
    }
}

#[test]
fn unique_item_already_owned_is_never_rolled_again() {
    let mut p = hero();
    p.add_to_inventory(Item::new("Tranquility Stone", "Meditate instantly", ItemType::Key), 1);
    for _ in 0..500 {
        let got = Item::roll_drop(Item::get_base_drops(), &p).unwrap();
        assert!(got.name != "Tranquility Stone");
    }
}

#[test]
fn unique_item_matches_by_name_only() {
    // an item of the same name but another description still blocks the row
    let mut p = hero();
    p.add_to_inventory(Item::new("Relic", "a copy", ItemType::Healer { amount: 1 }), 1);
    assert!(Item::roll_drop(vec![(unique("Relic"), 5, false)], &p).is_none());
    assert!(Item::roll_drop(vec![(unique("Relic"), 5, true)], &p) == Some(unique("Relic")));
}

#[test]
fn equipped_items_block_unique_rows_too() {
    let mut p = hero();
    let sword = Item::new("Wooden Sword", "Give your enemies splinters", ItemType::Weapon {
        damage: 35,
    });
    p.weapon = sword.clone();
    p.armor = Some(Item::new("Wooden Armor", "", ItemType::Armor { reduction: 25 }));
    for _ in 0..300 {
        let got = Item::roll_drop(Place::new(Location::Forest).get_drops(), &p).unwrap();
        assert!(got.name != "Wooden Sword");
        assert!(got.name != "Wooden Armor");
    }
}

#[test]
fn only_unique_rows_all_owned_leave_nothing_to_roll() {
    let mut p = hero();
    p.add_to_inventory(unique("A"), 1);
    p.add_to_inventory(unique("B"), 1);
    let drops = vec![(unique("A"), 10, false), (unique("B"), 20, false)];
    assert!(Item::roll_drop(drops, &p).is_none());
}

#[test]
fn fetch_drop_puts_the_item_into_the_inventory() {
    let mut p = hero();
    let got = p.fetch_drop(vec![(unique("Relic"), 1, false)]);
    assert!(got == Some(unique("Relic")));
    assert_eq!(p.inventory.len(), 1);
    assert!(p.inventory[0].0 == unique("Relic"));
    assert_eq!(p.inventory[0].1, 1);
    // the second roll finds the unique row blocked
    let again = p.fetch_drop(vec![(unique("Relic"), 1, false)]);
    assert!(again.is_none());
    assert_eq!(p.inventory.len(), 1);
    assert_eq!(p.inventory[0].1, 1);
}

#[test]
fn repeated_fetches_never_hold_a_second_unique_item() {
    let mut p = hero();
    for _ in 0..400 {
        assert!(p.has_room_for_drops(&Place::new(Location::Forest).get_drops()));
        let got = p.fetch_drop(Place::new(Location::Forest).get_drops());
        assert!(got.is_some());
    }
    for (item, qty) in p.inventory.iter() {
        let unique = matches!(
            item.name.as_str(),
            "Tranquility Stone" | "Wooden Sword" | "Wooden Armor" | "Mountains Key"
        );
        if unique {
            assert_eq!(*qty, 1);
        }
    }
    let total: u32 = p.inventory.iter().map(|r| r.1 as u32).sum();
    assert_eq!(total, 400);
}

#[test]
fn fetch_drop_stacks_duplicates() {
    let mut p = hero();
    for _ in 0..3 {
        let got = p.fetch_drop(vec![(unique("Coin"), 1, true)]);
        assert!(got == Some(unique("Coin")));
    }
    assert_eq!(p.inventory.len(), 1);
    assert_eq!(p.inventory[0].1, 3);
}

#[test]
fn drop_room_check_finds_a_full_row() {
    let mut p = hero();
    p.add_to_inventory(unique("Coin"), u16::MAX);
    assert!(!p.has_room_for_drops(&vec![(unique("Coin"), 1, true)]));
    assert!(p.has_room_for_drops(&vec![(unique("Gem"), 1, true)]));
    assert!(p.has_room_for_drops(&Vec::new()));
}

#[test]
fn eligible_drops_leave_out_unique_rows_already_owned() {
    let mut p = hero();
    let table = Place::new(Location::Forest).get_drops();
    let all = Item::eligible_drops(&table, &p);
    assert_eq!(all.len(), 8);
    for (row, entry) in table.iter().zip(all.iter()) {
        assert!(row.0 == entry.0);
        assert_eq!(row.1, entry.1);
    }
    p.add_to_inventory(Item::new("Apple", "Crunchy :3", ItemType::Healer { amount: 25 }), 1);
    p.add_to_inventory(Item::new("Mountains Key", "Unlocks the mountains", ItemType::Key), 1);
    p.armor = Some(Item::new("Wooden Armor", "patched", ItemType::Armor { reduction: 10 }));
    let left = Item::eligible_drops(&table, &p);
    let names: Vec<(&str, u32)> = left.iter().map(|e| (e.0.name.as_str(), e.1)).collect();
    assert_eq!(
        names,
        vec![
            ("Apple", 39),
            ("Fairy Milk Bottle", 10),
            ("Magic Tea", 5),
            ("XP Potion", 5),
            ("Tranquility Stone", 1),
            ("Wooden Sword", 25),
        ]
    );
    assert!(Item::eligible_drops(&Vec::new(), &p).is_empty());
}
