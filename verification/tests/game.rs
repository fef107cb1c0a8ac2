use adventura::errors::GameError;
use adventura::game::{
    chest_logic, confirm, explore, explore_with, get_option, is_offered, item_actions, manage_item, manageable,
    meditate, meditation_delay, replay, travel, valid_name, Event, ItemAction, Options, Travel,
    CHEST_ODDS, DROP_ODDS, MEDITATION_DELAY, MEDITATION_MAX, MEDITATION_MIN,
};
use adventura::items::{Effect, Item, ItemType};
use adventura::places::Location;
use adventura::player::Player;

fn hero() -> Player {
    Player::new(String::from("Ayla"))
}

fn key(name: &str) -> Item {
    Item::new(name, "", ItemType::Key)
}

#[test]
fn menu_entries_come_in_order() {
    assert_eq!(
        Options::get_registered(),
        vec![
            Options::Explore,
            Options::Travel,
            Options::Meditate,
            Options::ViewInventory,
            Options::ViewStats
        ]
    );
}

#[test]
fn menu_entries_have_their_labels() {
    let labels: Vec<&str> = Options::get_registered().iter().map(|o| o.label()).collect();
    assert_eq!(labels, vec!["Explore", "Travel", "Meditate", "View Inventory", "View Stats"]);
}

#[test]
fn menu_choice_is_read_from_its_number() {
    assert_eq!(get_option("1"), Some(Options::Explore));
    assert_eq!(get_option("2"), Some(Options::Travel));
    assert_eq!(get_option("3"), Some(Options::Meditate));
    assert_eq!(get_option("4"), Some(Options::ViewInventory));
    assert_eq!(get_option("5"), Some(Options::ViewStats));
    assert_eq!(get_option("+5"), Some(Options::ViewStats));
    for other in ["", "0", "6", "-1", "one", "1.0", " 1"] {
        assert_eq!(get_option(other), None, "{other:?}");
    }
}

#[test]
fn the_odds_and_the_meditation_are_as_the_game_has_them() {
    assert_eq!(CHEST_ODDS, 10);
    assert_eq!(DROP_ODDS, 10);
    assert_eq!((MEDITATION_MIN, MEDITATION_MAX), (20, 60));
    assert_eq!(MEDITATION_DELAY, 2500);
}

#[test]
fn confirmations_are_read_like_the_replay_answer() {
    for answer in ["y", "Y", "n", "N", "", "yes", "ok", "ÿ"] {
        assert_eq!(confirm(answer), replay(answer), "{answer:?}");
    }
    assert_eq!(confirm("Y"), Some(true));
    assert_eq!(confirm("n"), Some(false));
    assert_eq!(confirm("maybe"), None);
}

#[test]
fn yes_and_no_are_read_in_either_case() {
    assert_eq!(replay("y"), Some(true));
    assert_eq!(replay("Y"), Some(true));
    assert_eq!(replay("n"), Some(false));
    assert_eq!(replay("N"), Some(false));
    for other in ["", "yes", "no", "yy", " y", "j", "1"] {
        assert_eq!(replay(other), None, "{other:?}");
    }
}

#[test]
fn names_must_not_be_empty_or_prohibited() {
    assert!(valid_name("Ayla"));
    assert!(valid_name("goddess"));
    assert!(valid_name("go"));
    assert!(valid_name(" god"));
    assert!(valid_name("Ünal"));
    assert!(!valid_name(""));
    for name in ["god", "God", "GOD", "gOd", "devil", "DEVIL", "Devil", "gabriel", "GaBrIeL"] {
        assert!(!valid_name(name), "{name}");
    }
}

#[test]
fn travel_to_the_forest_needs_no_key() {
    let mut p = hero();
    p.cur_place = adventura::places::Place::new(Location::Cave);
    assert_eq!(travel(&mut p, "1"), Travel::Arrived(Location::Forest));
    assert_eq!(p.cur_place.location, Location::Forest);
    assert_eq!(p.cur_place.name, "Forest");
    assert_eq!(p.cur_place.desc, "Ooh mystical");
}

#[test]
fn travel_without_the_key_is_denied() {
    let mut p = hero();
    assert_eq!(travel(&mut p, "2"), Travel::Locked(Location::Mountains));
    assert_eq!(travel(&mut p, "3"), Travel::Locked(Location::Cave));
    assert_eq!(p.cur_place.location, Location::Forest);
    // the key of another place does not help
    p.add_to_inventory(key("Cave Key"), 1);
    assert_eq!(travel(&mut p, "2"), Travel::Locked(Location::Mountains));
    p.add_to_inventory(key("mountains key"), 1);
    assert_eq!(travel(&mut p, "2"), Travel::Locked(Location::Mountains));
    assert_eq!(p.cur_place.location, Location::Forest);
}

#[test]
fn travel_with_the_key_replaces_the_place() {
    let mut p = hero();
    p.add_to_inventory(key("Mountains Key"), 1);
    assert_eq!(travel(&mut p, "2"), Travel::Arrived(Location::Mountains));
    assert_eq!(p.cur_place.location, Location::Mountains);
    assert_eq!(p.cur_place.name, "Mountains");
    assert_eq!(p.cur_place.desc, "The goats bite...");
    // the key stays with the player
    assert_eq!(p.inventory.len(), 1);
    p.add_to_inventory(key("Cave Key"), 1);
    assert_eq!(travel(&mut p, "3"), Travel::Arrived(Location::Cave));
    assert_eq!(p.cur_place.name, "Cave");
    assert_eq!(p.cur_place.desc, "Spooky");
}

#[test]
fn travel_on_no_input_or_no_number_stays() {
    let mut p = hero();
    p.add_to_inventory(key("Mountains Key"), 1);
    assert_eq!(travel(&mut p, ""), Travel::Cancelled);
    for other in ["0", "4", "x", "2 ", "22"] {
        assert_eq!(travel(&mut p, other), Travel::Unknown, "{other:?}");
    }
    assert_eq!(p.cur_place.location, Location::Forest);
}

#[test]
fn exploring_meets_entities_of_the_place_or_finds_a_chest() {
    let p = hero();
    let names: Vec<String> =
        p.cur_place.get_entities().into_iter().map(|e| e.0.name).collect();
    let mut chests = 0;
    let mut bonuses = 0;
    let mut met = [0u32; 3];
    for _ in 0..5_000 {
        match explore(&p) {
            Event::Chest => chests += 1,
            Event::Encounter(entity, bonus) => {
                let i = names.iter().position(|n| *n == entity.name).expect("lives here");
                met[i] += 1;
                assert_eq!(entity.cur_health, entity.max_health);
                assert_eq!(entity, p.cur_place.get_entities().remove(i).0);
                bonuses += bonus as u32;
            }
        }
    }
    assert!(chests > 300 && chests < 700, "{chests}");
    assert!(bonuses > 250 && bonuses < 650, "{bonuses}");
    assert!(met[0] > met[2] && met[1] > met[2], "{met:?}");
    assert!(met[2] > 0);
}

#[test]
fn chest_holds_a_drop_of_the_place() {
    let mut p = hero();
    let names: Vec<String> = p.cur_place.get_drops().into_iter().map(|d| d.0.name).collect();
    let item = chest_logic(&mut p).expect("the forest always has something to drop");
    assert!(names.contains(&item.name));
    assert_eq!(p.inventory.len(), 1);
    assert!(p.inventory[0].0 == item);
}

#[test]
fn meditation_is_instant_with_a_tranquility_stone() {
    let mut p = hero();
    assert_eq!(meditation_delay(&p), 2500);
    p.add_to_inventory(Item::new("Tranquility Stone", "Meditate instantly", ItemType::Key), 1);
    assert_eq!(meditation_delay(&p), 0);
}

#[test]
fn meditation_heals_between_twenty_and_sixty() {
    for _ in 0..300 {
        let mut p = hero();
        p.cur_health = 10;
        let gained = meditate(&mut p);
        assert!((20..=60).contains(&gained));
        assert_eq!(p.cur_health, 10 + gained);
    }
}

#[test]
fn meditation_stops_at_maximum_health() {
    for _ in 0..100 {
        let mut p = hero();
        p.cur_health = 95;
        assert_eq!(meditate(&mut p), 5);
        assert!(p.is_full_hp());
        assert_eq!(meditate(&mut p), 0);
    }
}

#[test]
fn actions_depend_on_the_kind_of_item() {
    let equip = vec![ItemAction::Equip, ItemAction::Delete];
    let consume = vec![ItemAction::Use, ItemAction::Delete];
    assert_eq!(item_actions(ItemType::Weapon { damage: 1 }), equip);
    assert_eq!(item_actions(ItemType::Armor { reduction: 1 }), equip);
    assert_eq!(item_actions(ItemType::Healer { amount: 1 }), consume);
    assert_eq!(
        item_actions(ItemType::Special { effect: Effect::IncreaseXpMultiplier { tenths: 1 } }),
        consume
    );
    assert!(item_actions(ItemType::Key).is_empty());
}

#[test]
fn offered_actions_match_the_lists() {
    assert!(is_offered(ItemType::Weapon { damage: 1 }, ItemAction::Equip));
    assert!(is_offered(ItemType::Weapon { damage: 1 }, ItemAction::Delete));
    assert!(!is_offered(ItemType::Weapon { damage: 1 }, ItemAction::Use));
    assert!(is_offered(ItemType::Healer { amount: 1 }, ItemAction::Use));
    assert!(!is_offered(ItemType::Healer { amount: 1 }, ItemAction::Equip));
    for action in [ItemAction::Use, ItemAction::Equip, ItemAction::Delete] {
        assert!(!is_offered(ItemType::Key, action));
    }
}

#[test]
fn managing_uses_equips_and_deletes() {
    let mut p = hero();
    p.cur_health = 50;
    p.add_to_inventory(Item::new("Apple", "Crunchy :3", ItemType::Healer { amount: 25 }), 3);
    p.add_to_inventory(Item::new("Iron Sword", "Very pointy", ItemType::Weapon { damage: 50 }), 1);
    assert_eq!(manage_item(&mut p, 0, ItemAction::Use), Ok(()));
    assert_eq!(p.cur_health, 75);
    assert_eq!(p.inventory[0].1, 2);
    assert_eq!(manage_item(&mut p, 1, ItemAction::Equip), Ok(()));
    assert_eq!(p.weapon.name, "Iron Sword");
    assert_eq!(p.inventory[1].0.name, "Fists");
    // deleting removes every copy
    assert_eq!(manage_item(&mut p, 0, ItemAction::Delete), Ok(()));
    assert_eq!(p.inventory.len(), 1);
    assert_eq!(p.inventory[0].0.name, "Fists");
}

#[test]
fn managing_refuses_what_is_not_offered() {
    let mut p = hero();
    p.add_to_inventory(Item::new("Apple", "Crunchy :3", ItemType::Healer { amount: 25 }), 1);
    p.add_to_inventory(Item::new("Iron Sword", "Very pointy", ItemType::Weapon { damage: 50 }), 1);
    p.add_to_inventory(key("Cave Key"), 2);
    assert_eq!(manage_item(&mut p, 0, ItemAction::Equip), Err(GameError::NotOffered));
    assert_eq!(manage_item(&mut p, 1, ItemAction::Use), Err(GameError::NotOffered));
    for action in [ItemAction::Use, ItemAction::Equip, ItemAction::Delete] {
        assert_eq!(manage_item(&mut p, 2, action), Err(GameError::NotOffered));
        assert_eq!(manage_item(&mut p, 3, action), Err(GameError::MissingItem));
    }
    assert_eq!(p.inventory.len(), 3);
    assert_eq!(p.inventory[2].1, 2);
    assert_eq!(p.weapon.name, "Fists");
}

#[test]
fn manage_check_follows_the_action() {
    let tea = Item::new("Magic Tea", "", ItemType::Special {
        effect: Effect::IncreaseMaxHealthAndHeal { amount: 15 },
    });
    let mut p = hero();
    p.add_to_inventory(tea, 1);
    p.add_to_inventory(Item::new("Iron Sword", "Very pointy", ItemType::Weapon { damage: 50 }), 1);
    p.add_to_inventory(Item::new("Fists", "Punchy", ItemType::Weapon { damage: 25 }), u16::MAX);
    assert!(manageable(&p, 0, ItemAction::Use));
    assert!(!manageable(&p, 1, ItemAction::Equip));
    assert!(manageable(&p, 1, ItemAction::Delete));
    assert!(manageable(&p, 9, ItemAction::Use));
    p.max_health = u16::MAX;
    p.cur_health = 1;
    assert!(!manageable(&p, 0, ItemAction::Use));
}

#[test]
fn a_chest_found_is_the_whole_event() {
    let p = hero();
    for _ in 0..50 {
        assert!(matches!(explore_with(&p, true), Event::Chest));
    }
}

#[test]
fn without_a_chest_an_entity_of_the_place_is_met() {
    let mut p = hero();
    for loc in [Location::Forest, Location::Mountains, Location::Cave] {
        p.cur_place = adventura::places::Place::new(loc);
        let residents: Vec<_> = p.cur_place.get_entities().into_iter().map(|e| e.0).collect();
        let mut seen = [false; 3];
        for _ in 0..1_000 {
            match explore_with(&p, false) {
                Event::Encounter(entity, _) => {
                    let i = residents.iter().position(|r| *r == entity).expect("lives here");
                    seen[i] = true;
                    assert_eq!(entity.cur_health, entity.max_health);
                    assert!(entity.damage.0 <= entity.damage.1);
                }
                Event::Chest => panic!("no chest was found"),
            }
        }
        assert_eq!(seen, [true, true, true]);
    }
}
