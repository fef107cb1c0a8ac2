use adventura::errors::GameError;
use adventura::items::{Item, ItemType};
use adventura::player::Player;

fn hero() -> Player {
    Player::new(String::from("Ayla"))
}

#[test]
fn new_player_starts_in_the_forest_with_fists() {
    let p = hero();
    assert_eq!(p.name, "Ayla");
    assert_eq!(p.cur_place.name, "Forest");
    assert_eq!(p.cur_place.desc, "Ooh mystical");
    assert_eq!(p.max_health, 100);
    assert_eq!(p.cur_health, 100);
    assert!(p.armor.is_none());
    assert_eq!(p.xp, 0);
    assert_eq!(p.xp_multiplier, 10);
    assert_eq!(p.level, 1);
    assert!(p.inventory.is_empty());
    assert_eq!(p.weapon.name, "Fists");
    assert_eq!(p.weapon.desc, "Punchy");
    assert_eq!(p.weapon.item_type, ItemType::Weapon { damage: 25 });
    assert!(p.is_alive());
    assert!(p.is_full_hp());
}

#[test]
fn armor_of_a_quarter_turns_twenty_into_fifteen() {
    let mut p = hero();
    p.armor = Some(Item::new("Wooden Armor", "", ItemType::Armor { reduction: 25 }));
    assert_eq!(p.take_damage(20, false), Ok(15));
    assert_eq!(p.cur_health, 85);
}

#[test]
fn unarmored_hit_arrives_whole() {
    let mut p = hero();
    assert_eq!(p.take_damage(20, false), Ok(20));
    assert_eq!(p.cur_health, 80);
}

#[test]
fn penetrating_hit_ignores_armor() {
    let mut p = hero();
    p.armor = Some(Item::new("Iron Armor", "", ItemType::Armor { reduction: 40 }));
    assert_eq!(p.take_damage(20, true), Ok(20));
    assert_eq!(p.cur_health, 80);
}

#[test]
fn damage_never_drops_health_below_zero() {
    let mut p = hero();
    assert_eq!(p.take_damage(u16::MAX, false), Ok(u16::MAX));
    assert_eq!(p.cur_health, 0);
    assert!(!p.is_alive());
    assert_eq!(p.take_damage(5, false), Ok(5));
    assert_eq!(p.cur_health, 0);
}

#[test]
fn mitigation_rounds_halves_up() {
    // 10 * 0.45 = 4.5 rounds to 5; 3 * 0.75 = 2.25 rounds to 2.
    let mut p = hero();
    p.armor = Some(Item::new("Blessed Armor", "", ItemType::Armor { reduction: 55 }));
    assert_eq!(p.take_damage(10, false), Ok(5));
    p.armor = Some(Item::new("Wooden Armor", "", ItemType::Armor { reduction: 25 }));
    assert_eq!(p.take_damage(3, false), Ok(2));
    assert_eq!(p.cur_health, 93);
}

#[test]
fn full_armor_absorbs_everything() {
    let mut p = hero();
    p.armor = Some(Item::new("Wall", "", ItemType::Armor { reduction: 100 }));
    assert_eq!(p.take_damage(500, false), Ok(0));
    p.armor = Some(Item::new("More Wall", "", ItemType::Armor { reduction: 250 }));
    assert_eq!(p.take_damage(500, false), Ok(0));
    assert_eq!(p.cur_health, 100);
}

#[test]
fn mitigated_damage_never_exceeds_the_raw_hit() {
    for reduction in [0u16, 1, 25, 40, 55, 88, 99, 100] {
        for amount in [0u16, 1, 2, 3, 19, 20, 99, 1000, u16::MAX] {
            let mut p = hero();
            p.max_health = u16::MAX;
            p.cur_health = u16::MAX;
            p.armor = Some(Item::new("A", "", ItemType::Armor { reduction }));
            let dealt = p.take_damage(amount, false).unwrap();
            assert!(dealt <= amount);
            assert_eq!(p.cur_health, u16::MAX - dealt);
            let expected = (amount as u32 * (100 - reduction as u32) + 50) / 100;
            assert_eq!(dealt as u32, expected);
        }
    }
}

#[test]
fn malformed_armor_is_reported_and_the_hit_arrives_whole() {
    let mut p = hero();
    p.armor = Some(Item::new("Apple", "Crunchy :3", ItemType::Healer { amount: 25 }));
    assert_eq!(p.take_damage(20, false), Err(GameError::MalformedArmor));
    assert_eq!(p.cur_health, 80);
    // a penetrating hit never looks at the armor
    assert_eq!(p.take_damage(20, true), Ok(20));
    assert_eq!(p.cur_health, 60);
}

#[test]
fn heal_stops_at_maximum_health() {
    let mut p = hero();
    p.cur_health = 90;
    assert_eq!(p.heal(25), 10);
    assert_eq!(p.cur_health, 100);
    assert!(p.is_full_hp());
}

#[test]
fn heal_at_full_health_gives_nothing() {
    let mut p = hero();
    assert_eq!(p.heal(40), 0);
    assert_eq!(p.heal(0), 0);
    assert_eq!(p.cur_health, 100);
}

#[test]
fn heal_below_the_gap_gives_the_whole_amount() {
    let mut p = hero();
    p.cur_health = 10;
    assert_eq!(p.heal(25), 25);
    assert_eq!(p.cur_health, 35);
    assert!(!p.is_full_hp());
}

#[test]
fn heal_never_exceeds_maximum_for_any_amount() {
    for cur in [0u16, 1, 50, 99, 100] {
        for amount in [0u16, 1, 50, 100, u16::MAX] {
            let mut p = hero();
            p.cur_health = cur;
            let gained = p.heal(amount);
            assert!(p.cur_health <= p.max_health);
            assert_eq!(p.cur_health, cur + gained);
            assert_eq!(gained, amount.min(100 - cur));
        }
    }
}

#[test]
fn critical_health_starts_at_thirty() {
    let mut p = hero();
    assert!(!p.is_critical());
    p.cur_health = 31;
    assert!(!p.is_critical());
    p.cur_health = 30;
    assert!(p.is_critical());
    p.cur_health = 0;
    assert!(p.is_critical());
}
