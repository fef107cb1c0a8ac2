//! The player: health, equipment, experience and inventory.

use crate::entities::Entity;
use crate::errors::GameError;
use crate::items::{base_drop_table, can_drop, drops_view, offered, Drops, Item, ItemType, ItemView};
use crate::places::{Location, Place};
use crate::utilities::math::{calc_xp_gain, xp_gain};
use vstd::prelude::*;

verus! {

/// Rows of an inventory: an item and how many of it are held.
pub type Inventory = Vec<(Item, u16)>;

/// The player. `xp` counts tenths of an experience point and
/// `xp_multiplier` tenths of a factor, so a multiplier of 10 leaves a gain
/// as it is.
pub struct Player {
    pub name: String,
    pub cur_place: Place,
    pub max_health: u16,
    pub cur_health: u16,
    pub armor: Option<Item>,
    pub xp: u64,
    pub xp_multiplier: u32,
    pub level: u16,
    pub inventory: Inventory,
    pub weapon: Item,
}

/// The share of a hit that an armor of the given reduction lets through,
/// in hundredths.
pub open spec fn let_through(reduction: u16) -> int {
    if reduction >= 100 {
        0
    } else {
        100 - reduction
    }
}

/// Whether the armor slot holds an item that is no armor.
pub open spec fn malformed_armor(armor: Option<Item>) -> bool {
    armor matches Some(item) && !(item.item_type is Armor)
}

/// The damage that arrives of a raw hit of `amount`: with an armor on and a
/// hit that does not penetrate, the hit times the share the armor lets
/// through, rounded to the nearest whole with halves rounded up; else the
/// whole hit.
pub open spec fn mitigated(armor: Option<Item>, amount: u16, penetrating: bool) -> int {
    match armor {
        Some(Item { item_type: ItemType::Armor { reduction }, .. }) => if penetrating {
            amount as int
        } else {
            (amount * let_through(reduction) + 50) / 100
        },
        _ => amount as int,
    }
}

/// What arrives of a hit is never more than the hit, and is the whole hit
/// when no armor is on or the hit penetrates.
pub proof fn lemma_mitigated_bounds(armor: Option<Item>, amount: u16, penetrating: bool)
    ensures
        0 <= mitigated(armor, amount, penetrating) <= amount,
        armor is None || penetrating ==> mitigated(armor, amount, penetrating) == amount,
{
    if let Some(Item { item_type: ItemType::Armor { reduction }, .. }) = armor {
        assert(0 <= amount * let_through(reduction) <= amount * 100) by (nonlinear_arith)
            requires
                0 <= let_through(reduction) <= 100,
                amount >= 0,
        ;
    }
}

/// The health left of `health` after `damage` arrived: never below zero.
pub open spec fn health_after(health: u16, damage: int) -> int {
    if damage >= health {
        0
    } else {
        health - damage
    }
}

/// The health reached from `health` by healing `amount`: never above `max`.
pub open spec fn healed(health: u16, max: u16, amount: u16) -> int {
    if health + amount >= max {
        max as int
    } else {
        health + amount
    }
}

impl Player {
    /// Health does not exceed its maximum, the level is at least 1, every
    /// row of the inventory holds at least one item, and no item has two rows.
    pub open spec fn wf(&self) -> bool {
        &&& self.cur_health <= self.max_health
        &&& self.level >= 1
        &&& inventory_wf(self.inventory@)
    }

    /// A new player in the forest, at full health and level 1, with bare
    /// fists and an empty inventory.
    pub fn new(name: String) -> (r: Self)
        ensures
            r.wf(),
            r.name == name,
            r.cur_place.location == Location::Forest,
            r.cur_place.name@ == Location::Forest.spec_name(),
            r.cur_place.desc@ == Location::Forest.spec_desc(),
            r.max_health == 100,
            r.cur_health == 100,
            r.armor is None,
            r.xp == 0,
            r.xp_multiplier == 10,
            r.level == 1,
            r.inventory@.len() == 0,
            r.weapon@.name == "Fists"@,
            r.weapon@.desc == "Punchy"@,
            r.weapon@.item_type == (ItemType::Weapon { damage: 25 }),
    {
        let starter_weapon: Item = Item::new("Fists", "Punchy", ItemType::Weapon { damage: 25 });
        Player {
            name,
            cur_place: Place::new(Location::Forest),
            max_health: 100,
            cur_health: 100,
            armor: None,
            xp: 0,
            xp_multiplier: 10,
            level: 1,
            inventory: Vec::new(),
            weapon: starter_weapon,
        }
    }

    /// Takes a hit of `amount`. The armor, if one is on and the hit does not
    /// penetrate, reduces it; health never drops below zero. Gives the
    /// damage that arrived. A slot that holds no armor is reported, and the
    /// hit then arrives whole.
    pub fn take_damage(&mut self, amount: u16, penetrating: bool) -> (r: Result<u16, GameError>)
        ensures
            final(self).cur_health == health_after(
                old(self).cur_health,
                mitigated(old(self).armor, amount, penetrating),
            ),
            *final(self) == (Player { cur_health: final(self).cur_health, ..*old(self) }),
            !penetrating && malformed_armor(old(self).armor) ==> r == Err::<u16, GameError>(
                GameError::MalformedArmor,
            ),
            !(!penetrating && malformed_armor(old(self).armor)) ==> r == Ok::<u16, GameError>(
                mitigated(old(self).armor, amount, penetrating) as u16,
            ),
            0 <= mitigated(old(self).armor, amount, penetrating) <= amount,
            old(self).armor is None || penetrating ==> mitigated(
                old(self).armor,
                amount,
                penetrating,
            ) == amount,
            old(self).wf() ==> final(self).wf(),
    {
        let mut malformed = false;
        let proc_damage: u16 = match &self.armor {
            Some(arm) if !penetrating => {
                match arm.item_type {
                    ItemType::Armor { reduction } => {
                        let share: u32 = if reduction >= 100 {
                            0
                        } else {
                            100 - reduction as u32
                        };
                        assert(amount as u32 * share <= amount as u32 * 100) by (nonlinear_arith)
                            requires
                                share <= 100,
                        ;
                        ((amount as u32 * share + 50) / 100) as u16
                    },
                    _ => {
                        malformed = true;
                        amount
                    },
                }
            },
            _ => amount,
        };
        if proc_damage >= self.cur_health {
            self.cur_health = 0;
        } else {
            self.cur_health = self.cur_health - proc_damage;
        }
        if malformed {
            Err(GameError::MalformedArmor)
        } else {
            Ok(proc_damage)
        }
    }

    /// Heals by `amount`, but not beyond maximum health. Gives the health
    /// actually gained.
    pub fn heal(&mut self, amount: u16) -> (r: u16)
        requires
            old(self).cur_health <= old(self).max_health,
        ensures
            final(self).cur_health == healed(old(self).cur_health, old(self).max_health, amount),
            r == final(self).cur_health - old(self).cur_health,
            final(self).cur_health <= final(self).max_health,
            old(self).cur_health == old(self).max_health ==> r == 0,
            old(self).wf() ==> final(self).wf(),
            *final(self) == (Player { cur_health: final(self).cur_health, ..*old(self) }),
    {
        let room: u16 = self.max_health - self.cur_health;
        let proc: u16 = if amount <= room { amount } else { room };
        self.cur_health = self.cur_health + proc;
        proc
    }

    /// Hits the entity with the weapon in hand: its health drops by the
    /// weapon's damage, but not below zero. Gives the damage dealt. With
    /// something else than a weapon in hand nothing happens.
    pub fn attack(&self, entity: &mut Entity) -> (r: Result<u16, GameError>)
        ensures
            match self.weapon.item_type {
                ItemType::Weapon { damage } => {
                    &&& final(entity).cur_health == health_after(
                        old(entity).cur_health,
                        damage as int,
                    )
                    &&& r == Ok::<u16, GameError>(damage)
                    &&& *final(entity) == (Entity {
                        cur_health: final(entity).cur_health,
                        ..*old(entity)
                    })
                },
                _ => r == Err::<u16, GameError>(GameError::NoWeapon) && *final(entity) == *old(
                    entity,
                ),
            },
            old(entity).wf() ==> final(entity).wf(),
    {
        match self.weapon.item_type {
            ItemType::Weapon { damage } => {
                let taken: u16 = if damage <= entity.cur_health {
                    damage
                } else {
                    entity.cur_health
                };
                entity.cur_health = entity.cur_health - taken;
                Ok(damage)
            },
            _ => Err(GameError::NoWeapon),
        }
    }

    /// Takes `amount` out of the row at `location`; a row left with nothing
    /// leaves the inventory. A position outside the inventory changes nothing.
    pub fn remove_from_inventory(&mut self, location: usize, amount: u16)
        ensures
            final(self).inventory@ == removed(old(self).inventory@, location as int, amount),
            *final(self) == (Player { inventory: final(self).inventory, ..*old(self) }),
            old(self).wf() ==> final(self).wf(),
    {
        proof {
            if self.wf() {
                lemma_removed_wf(self.inventory@, location as int, amount);
            }
        }
        if location < self.inventory.len() {
            let qty: u16 = self.inventory[location].1;
            if qty > amount {
                self.inventory[location].1 = qty - amount;
            } else {
                self.inventory.remove(location);
            }
        }
    }

    /// Puts `quant` of `item` into the inventory: onto the row that holds
    /// the item, or, where none does, as a new last row.
    pub fn add_to_inventory(&mut self, item: Item, quant: u16)
        requires
            has_room(old(self).inventory@, item@, quant as int),
        ensures
            final(self).inventory@ == added(old(self).inventory@, item, quant),
            *final(self) == (Player { inventory: final(self).inventory, ..*old(self) }),
            old(self).wf() && quant >= 1 ==> final(self).wf(),
    {
        proof {
            if self.wf() && quant >= 1 {
                lemma_added_wf(self.inventory@, item, quant);
            }
        }
        let mut i: usize = 0;
        while i < self.inventory.len()
            invariant
                i <= self.inventory@.len(),
                *self == *old(self),
                has_room(self.inventory@, item@, quant as int),
                forall|j: int| 0 <= j < i ==> (#[trigger] self.inventory@[j]).0@ != item@,
            decreases self.inventory@.len() - i,
        {
            if self.inventory[i].0 == item {
                proof {
                    lemma_first_row_unique(self.inventory@, item@, i as int);
                }
                let qty: u16 = self.inventory[i].1;
                self.inventory[i].1 = qty + quant;
                return;
            }
            i += 1;
        }
        proof {
            if held(self.inventory@, item@) {
                let k = first_row(self.inventory@, item@);
                assert(is_first_row(self.inventory@, item@, k));
                assert(self.inventory@[k].0@ != item@);
            }
        }
        self.inventory.push((item, quant));
    }

    /// The inventory can take what comes off the player when the row at
    /// `location` is equipped: the weapon in hand for a weapon, the armor
    /// worn, if any, for an armor.
    pub open spec fn can_swap(&self, location: int) -> bool {
        0 <= location < self.inventory@.len() ==> match self.inventory@[location].0.item_type {
            ItemType::Weapon { .. } => has_room(self.inventory@, self.weapon@, 1),
            ItemType::Armor { .. } => self.armor matches Some(worn) ==> has_room(
                self.inventory@,
                worn@,
                1,
            ),
            _ => true,
        }
    }

    /// Equips the item in the row at `location`. A weapon goes into the
    /// hand and an armor onto the body; what was there before goes back
    /// into the inventory, and one of the equipped item leaves it. Any
    /// other kind of item, or a position outside the inventory, is refused
    /// and nothing changes.
    pub fn equip_from_inventory(&mut self, location: usize) -> (r: Result<(), GameError>)
        requires
            old(self).can_swap(location as int),
        ensures
            equipped(*old(self), *final(self), location as int, r),
            old(self).wf() ==> final(self).wf(),
    {
        if location >= self.inventory.len() {
            return Err(GameError::MissingItem);
        }
        let item: Item = self.inventory[location].0.clone();
        match item.item_type {
            ItemType::Weapon { .. } => {
                let equipped_weapon = self.weapon.clone();
                self.add_to_inventory(equipped_weapon, 1);
                self.weapon = item;
            },
            ItemType::Armor { .. } => {
                let equipped_armor = self.armor.take();
                if let Some(arm) = equipped_armor {
                    self.add_to_inventory(arm, 1);
                }
                self.armor = Some(item);
            },
            _ => {
                return Err(GameError::InvalidEquip);
            },
        }
        self.remove_from_inventory(location, 1);
        Ok(())
    }

    /// Whether the player has an item of this name, in the inventory or equipped.
    pub open spec fn owns(&self, name: Seq<char>) -> bool {
        ||| names(self.inventory@, name)
        ||| self.weapon.name@ == name
        ||| (self.armor matches Some(item) && item.name@ == name)
    }

    /// The names of all items the player has, in the inventory or equipped.
    pub open spec fn owned(&self) -> Set<Seq<char>> {
        Set::new(|name: Seq<char>| self.owns(name))
    }

    /// Whether the player has an item of this name, in the inventory or equipped.
    pub fn has_item(&self, name: &str) -> (r: bool)
        ensures
            r == self.owns(name@),
    {
        let wanted: String = name.to_owned();
        let mut i: usize = 0;
        while i < self.inventory.len()
            invariant
                i <= self.inventory@.len(),
                wanted@ == name@,
                forall|j: int| 0 <= j < i ==> (#[trigger] self.inventory@[j]).0.name@ != name@,
            decreases self.inventory@.len() - i,
        {
            if self.inventory[i].0.name == wanted {
                return true;
            }
            i += 1;
        }
        if self.weapon.name == wanted {
            return true;
        }
        match &self.armor {
            Some(item) => item.name == wanted,
            None => false,
        }
    }

    /// Rolls one drop from `pool` and puts it into the inventory. Gives the
    /// item that came, or `None` when no drop could be rolled, in which case
    /// nothing changes.
    pub fn fetch_drop(&mut self, pool: Drops) -> (r: Option<Item>)
        requires
            room_for_drops(old(self).inventory@, drops_view(pool@)),
        ensures
            r is Some <==> can_drop(drops_view(pool@), old(self).owned()),
            r matches Some(item) ==> {
                &&& offered(drops_view(pool@), old(self).owned(), item@)
                &&& final(self).inventory@ == added(old(self).inventory@, item, 1)
                &&& final(self).owned() == old(self).owned().insert(item.name@)
            },
            r is None ==> *final(self) == *old(self),
            *final(self) == (Player { inventory: final(self).inventory, ..*old(self) }),
            old(self).wf() ==> final(self).wf(),
    {
        let ghost table = drops_view(pool@);
        match Item::roll_drop(pool, self) {
            Some(chosen) => {
                proof {
                    let j = choose|j: int|
                        0 <= j < table.len() && crate::items::may_drop(
                            #[trigger] table[j],
                            self.owned(),
                        ) && table[j].0 == chosen@ && table[j].1 > 0;
                    assert(has_room(self.inventory@, table[j].0, 1));
                    lemma_added_owned(*self, chosen, 1);
                }
                let given = chosen.clone();
                self.add_to_inventory(chosen, 1);
                assert(self.owned() == old(self).owned().insert(given.name@));
                Some(given)
            },
            None => None,
        }
    }

    /// Adds the experience for defeating the entity: what the entity is
    /// worth times the multiplier. Gives what was added, in tenths of a point.
    pub fn update_xp(&mut self, for_defeating: &Entity) -> (r: u64)
        requires
            old(self).xp + xp_gain(for_defeating.max_health, for_defeating.damage) * old(
                self,
            ).xp_multiplier <= u64::MAX,
        ensures
            r == xp_gain(for_defeating.max_health, for_defeating.damage) * old(self).xp_multiplier,
            final(self).xp == old(self).xp + r,
            *final(self) == (Player { xp: final(self).xp, ..*old(self) }),
            old(self).wf() ==> final(self).wf(),
    {
        let base_gain = calc_xp_gain(for_defeating);
        assert(base_gain * self.xp_multiplier <= u64::MAX) by (nonlinear_arith)
            requires
                self.xp + base_gain * self.xp_multiplier <= u64::MAX,
                self.xp >= 0,
        ;
        let xp_gain: u64 = base_gain as u64 * self.xp_multiplier as u64;
        self.xp = self.xp + xp_gain;
        xp_gain
    }

    /// Raises the level by one. Every fifth level awards one drop rolled
    /// from the shared drops; the award, if one came, is returned.
    pub fn raise_level(&mut self) -> (r: Option<Item>)
        requires
            old(self).level < u16::MAX,
            (old(self).level + 1) % 5 == 0 ==> room_for_drops(
                old(self).inventory@,
                base_drop_table(),
            ),
        ensures
            final(self).level == old(self).level + 1,
            final(self).level % 5 != 0 ==> r is None,
            final(self).level % 5 == 0 ==> (r is Some <==> can_drop(
                base_drop_table(),
                old(self).owned(),
            )),
            r matches Some(item) ==> {
                &&& offered(base_drop_table(), old(self).owned(), item@)
                &&& final(self).inventory@ == added(old(self).inventory@, item, 1)
                &&& final(self).owned() == old(self).owned().insert(item.name@)
            },
            r is None ==> final(self).inventory@ == old(self).inventory@,
            *final(self) == (Player {
                level: final(self).level,
                inventory: final(self).inventory,
                ..*old(self)
            }),
            old(self).wf() ==> final(self).wf(),
    {
        self.level = self.level + 1;
        assert(self.owned() =~= old(self).owned());
        if self.level % 5 == 0 {
            let base_drops = Item::get_base_drops();
            self.fetch_drop(base_drops)
        } else {
            None
        }
    }

    /// Raises the level step by step until it is `target`, with the award
    /// of every fifth level. Gives one entry for each level reached, in
    /// order. A target that is not above the level changes nothing.
    ///
    /// Each award takes at most one count of a row, so rows that could
    /// count `n` more before can afterwards count `n` less the awards due.
    pub fn level_up(&mut self, target: u16) -> (r: Vec<LevelUp>)
        requires
            spare(old(self).inventory@, awards_due(old(self).level, target)),
        ensures
            final(self).level == if target > old(self).level {
                target
            } else {
                old(self).level
            },
            r@.len() == final(self).level - old(self).level,
            forall|k: int| 0 <= k < r@.len() ==> (#[trigger] r@[k]).level == old(self).level + 1 + k,
            forall|k: int|
                0 <= k < r@.len() ==> award_rule(old(self).owned(), r@.take(k), #[trigger] r@[k]),
            final(self).inventory@ == with_awards(old(self).inventory@, r@),
            final(self).owned() == owned_with(old(self).owned(), r@),
            forall|n: int|
                awards_due(old(self).level, target) <= n <= u16::MAX && #[trigger] spare(
                    old(self).inventory@,
                    n,
                ) ==> spare(final(self).inventory@, n - awards_due(old(self).level, target)),
            *final(self) == (Player {
                level: final(self).level,
                inventory: final(self).inventory,
                ..*old(self)
            }),
            old(self).wf() ==> final(self).wf(),
    {
        let mut events: Vec<LevelUp> = Vec::new();
        while self.level < target
            invariant
                old(self).level <= self.level,
                self.level <= target || self.level == old(self).level,
                spare(self.inventory@, awards_due(self.level, target)),
                events@.len() == self.level - old(self).level,
                forall|k: int|
                    0 <= k < events@.len() ==> (#[trigger] events@[k]).level == old(self).level + 1
                        + k,
                forall|k: int|
                    0 <= k < events@.len() ==> award_rule(
                        old(self).owned(),
                        events@.take(k),
                        #[trigger] events@[k],
                    ),
                self.inventory@ == with_awards(old(self).inventory@, events@),
                self.owned() == owned_with(old(self).owned(), events@),
                forall|n: int|
                    awards_due(old(self).level, target) <= n <= u16::MAX && #[trigger] spare(
                        old(self).inventory@,
                        n,
                    ) ==> spare(
                        self.inventory@,
                        n - awards_due(old(self).level, target) + awards_due(self.level, target),
                    ),
                *self == (Player { level: self.level, inventory: self.inventory, ..*old(self) }),
                old(self).wf() ==> self.wf(),
            decreases target - self.level,
        {
            let ghost before = *self;
            let ghost sofar = events@;
            proof {
                lemma_spare_room(self.inventory@, base_drop_table());
            }
            let award = self.raise_level();
            proof {
                lemma_spare_after(before.inventory@, award, awards_due(before.level, target));
                assert forall|n: int|
                    awards_due(old(self).level, target) <= n <= u16::MAX && #[trigger] spare(
                        old(self).inventory@,
                        n,
                    ) implies spare(
                    self.inventory@,
                    n - awards_due(old(self).level, target) + awards_due(self.level, target),
                ) by {
                    lemma_spare_after(
                        before.inventory@,
                        award,
                        n - awards_due(old(self).level, target) + awards_due(before.level, target),
                    );
                }
            }
            let event = LevelUp { level: self.level, award };
            events.push(event);
            proof {
                assert(events@.drop_last() == sofar);
                assert(events@.take(sofar.len() as int) == sofar);
                assert forall|k: int| 0 <= k < events@.len() implies award_rule(
                    old(self).owned(),
                    events@.take(k),
                    #[trigger] events@[k],
                ) by {
                    if k < sofar.len() {
                        assert(events@.take(k) == sofar.take(k));
                        assert(events@[k] == sofar[k]);
                    }
                }
            }
        }
        events
    }

    /// Whether `quant` more of `item` can be counted in the inventory.
    pub fn room_for(&self, item: &Item, quant: u16) -> (r: bool)
        ensures
            r == has_room(self.inventory@, item@, quant as int),
    {
        let mut i: usize = 0;
        while i < self.inventory.len()
            invariant
                i <= self.inventory@.len(),
                forall|j: int| 0 <= j < i ==> (#[trigger] self.inventory@[j]).0@ != item@,
            decreases self.inventory@.len() - i,
        {
            if self.inventory[i].0 == *item {
                proof {
                    lemma_first_row_unique(self.inventory@, item@, i as int);
                }
                return self.inventory[i].1 <= u16::MAX - quant;
            }
            i += 1;
        }
        proof {
            if held(self.inventory@, item@) {
                let k = first_row(self.inventory@, item@);
                assert(is_first_row(self.inventory@, item@, k));
                assert(self.inventory@[k].0@ != item@);
            }
        }
        true
    }

    /// Whether every row of the inventory can count `n` more.
    pub fn has_spare(&self, n: u16) -> (r: bool)
        ensures
            r == spare(self.inventory@, n as int),
    {
        let mut i: usize = 0;
        while i < self.inventory.len()
            invariant
                i <= self.inventory@.len(),
                forall|j: int| 0 <= j < i ==> (#[trigger] self.inventory@[j]).1 + n <= u16::MAX,
            decreases self.inventory@.len() - i,
        {
            if self.inventory[i].1 > u16::MAX - n {
                return false;
            }
            i += 1;
        }
        true
    }

    /// Whether the inventory can take one more of any item of the pool.
    pub fn has_room_for_drops(&self, pool: &Drops) -> (r: bool)
        ensures
            r == room_for_drops(self.inventory@, drops_view(pool@)),
    {
        let mut j: usize = 0;
        while j < pool.len()
            invariant
                j <= pool@.len(),
                forall|k: int|
                    0 <= k < j ==> has_room(
                        self.inventory@,
                        (#[trigger] drops_view(pool@)[k]).0,
                        1,
                    ),
            decreases pool@.len() - j,
        {
            if !self.room_for(&pool[j].0, 1) {
                assert(!has_room(self.inventory@, drops_view(pool@)[j as int].0, 1));
                return false;
            }
            j += 1;
        }
        true
    }

    /// Whether the item in the row at `location` can be equipped without a
    /// row of the inventory running over.
    pub fn can_equip(&self, location: usize) -> (r: bool)
        ensures
            r == self.can_swap(location as int),
    {
        if location >= self.inventory.len() {
            return true;
        }
        match self.inventory[location].0.item_type {
            ItemType::Weapon { .. } => self.room_for(&self.weapon, 1),
            ItemType::Armor { .. } => match &self.armor {
                Some(worn) => self.room_for(worn, 1),
                None => true,
            },
            _ => true,
        }
    }

    /// Whether the experience for defeating the entity can be counted.
    pub fn can_gain(&self, for_defeating: &Entity) -> (r: bool)
        ensures
            r == (self.xp + xp_gain(for_defeating.max_health, for_defeating.damage)
                * self.xp_multiplier <= u64::MAX),
    {
        let base_gain = calc_xp_gain(for_defeating);
        assert(base_gain * self.xp_multiplier <= u64::MAX) by (nonlinear_arith)
            requires
                base_gain <= u32::MAX,
                self.xp_multiplier <= u32::MAX,
        ;
        let xp_gain: u64 = base_gain as u64 * self.xp_multiplier as u64;
        self.xp <= u64::MAX - xp_gain
    }

    /// The experience in whole points, as far as 16 bits count.
    pub fn xp_points(&self) -> (r: u16)
        ensures
            r == if self.xp / 10 > u16::MAX {
                u16::MAX as int
            } else {
                self.xp as int / 10
            },
    {
        let points: u64 = self.xp / 10;
        if points > u16::MAX as u64 {
            u16::MAX
        } else {
            points as u16
        }
    }

    /// Whether health is so low that the player is warned: at 30 or below.
    pub fn is_critical(&self) -> (r: bool)
        ensures
            r == (self.cur_health <= 30),
    {
        self.cur_health <= 30
    }

    /// Fills the inventory for trying things out: 69 each of a blade, an
    /// armor, both keys and the stone.
    pub fn silly(&mut self)
        requires
            spare(old(self).inventory@, 69),
        ensures
            exists|stuff: Seq<Item>|
                item_views(stuff) == silly_stuff() && final(self).inventory@ == #[trigger] with_stuff(
                    old(self).inventory@,
                    stuff,
                    69,
                ),
            *final(self) == (Player { inventory: final(self).inventory, ..*old(self) }),
            old(self).wf() ==> final(self).wf(),
    {
        let stuff = vec![
            Item::new("Holy Blade", "Hallelujah", ItemType::Weapon { damage: 999 }),
            Item::new("Divine Armor", "Hallelujah 2", ItemType::Armor { reduction: 88 }),
            Item::new("Mountains Key", "..", ItemType::Key),
            Item::new("Cave Key", "...", ItemType::Key),
            Item::new("Tranquility Stone", "Meditate instantly", ItemType::Key),
        ];
        proof {
            assert(item_views(stuff@) =~= silly_stuff());
            lemma_silly_stuff_differs();
            assert forall|j: int| 0 <= j < stuff@.len() implies has_room(
                self.inventory@,
                (#[trigger] stuff@[j])@,
                69,
            ) by {
                let item = stuff@[j]@;
                if held(self.inventory@, item) {
                    let k = first_row(self.inventory@, item);
                    assert(is_first_row(self.inventory@, item, k));
                    assert(self.inventory@[k].1 + 69 <= u16::MAX);
                }
            }
        }
        let mut i: usize = 0;
        while i < stuff.len()
            invariant
                i <= stuff@.len(),
                forall|a: int, b: int|
                    0 <= a < b < stuff@.len() ==> (#[trigger] stuff@[a])@ != (#[trigger] stuff@[b])@,
                forall|j: int|
                    i <= j < stuff@.len() ==> has_room(
                        self.inventory@,
                        (#[trigger] stuff@[j])@,
                        69,
                    ),
                self.inventory@ == with_stuff(old(self).inventory@, stuff@.take(i as int), 69),
                *self == (Player { inventory: self.inventory, ..*old(self) }),
                old(self).wf() ==> self.wf(),
            decreases stuff@.len() - i,
        {
            let ghost before = self.inventory@;
            let itm = stuff[i].clone();
            self.add_to_inventory(itm, 69);
            proof {
                assert(stuff@.take(i + 1).drop_last() == stuff@.take(i as int));
                assert forall|j: int| i + 1 <= j < stuff@.len() implies has_room(
                    self.inventory@,
                    (#[trigger] stuff@[j])@,
                    69,
                ) by {
                    lemma_added_keeps_room(before, itm, 69, stuff@[j]@, 69);
                }
            }
            i += 1;
        }
        assert(stuff@.take(i as int) == stuff@);
    }

    /// Whether the player still has health left.
    pub fn is_alive(&self) -> (r: bool)
        ensures
            r == (self.cur_health != 0),
    {
        self.cur_health != 0
    }

    /// Whether the player is at maximum health.
    pub fn is_full_hp(&self) -> (r: bool)
        ensures
            r == (self.cur_health == self.max_health),
    {
        self.cur_health == self.max_health
    }
}

/// The player `after` is the player `before` after the item in the
/// inventory row at `location` was equipped, and `r` is what equipping
/// reports. A weapon goes into the hand, an armor onto the body; what was
/// there goes into the inventory, and one of the equipped item leaves it.
/// Another kind of item, or a position outside the inventory, is refused.
pub open spec fn equipped(before: Player, after: Player, location: int, r: Result<(), GameError>) -> bool {
    if !(0 <= location < before.inventory@.len()) {
        r == Err::<(), GameError>(GameError::MissingItem) && after == before
    } else {
        match before.inventory@[location].0.item_type {
            ItemType::Weapon { .. } => {
                &&& r is Ok
                &&& after.weapon == before.inventory@[location].0
                &&& after.inventory@ == removed(
                    added(before.inventory@, before.weapon, 1),
                    location,
                    1,
                )
                &&& after == (Player { weapon: after.weapon, inventory: after.inventory, ..before })
            },
            ItemType::Armor { .. } => {
                &&& r is Ok
                &&& after.armor == Some(before.inventory@[location].0)
                &&& after.inventory@ == removed(
                    match before.armor {
                        Some(worn) => added(before.inventory@, worn, 1),
                        None => before.inventory@,
                    },
                    location,
                    1,
                )
                &&& after == (Player { armor: after.armor, inventory: after.inventory, ..before })
            },
            _ => r == Err::<(), GameError>(GameError::InvalidEquip) && after == before,
        }
    }
}

/// One level reached, with the item it awarded, if any.
#[derive(Debug)]
pub struct LevelUp {
    pub level: u16,
    pub award: Option<Item>,
}

/// Every row of `inv` can count `n` more.
pub open spec fn spare(inv: Seq<(Item, u16)>, n: int) -> bool {
    forall|i: int| 0 <= i < inv.len() ==> (#[trigger] inv[i]).1 + n <= u16::MAX
}

/// The inventory can take one more of any item of the table.
pub open spec fn room_for_drops(inv: Seq<(Item, u16)>, table: Seq<(ItemView, u32, bool)>) -> bool {
    forall|j: int| 0 <= j < table.len() ==> has_room(inv, (#[trigger] table[j]).0, 1)
}

/// How many levels award a drop on the way from level `from` up to `to`:
/// the multiples of five above `from` and not above `to`.
pub open spec fn awards_due(from: u16, to: u16) -> int {
    if to > from {
        to / 5 - from / 5
    } else {
        0
    }
}

/// The inventory after the awards of the levels reached came in, in order.
pub open spec fn with_awards(inv: Seq<(Item, u16)>, events: Seq<LevelUp>) -> Seq<(Item, u16)>
    decreases events.len(),
{
    if events.len() == 0 {
        inv
    } else {
        let before = with_awards(inv, events.drop_last());
        match events.last().award {
            Some(item) => added(before, item, 1),
            None => before,
        }
    }
}

/// The names owned after the awards of the levels reached came in.
pub open spec fn owned_with(owned: Set<Seq<char>>, events: Seq<LevelUp>) -> Set<Seq<char>>
    decreases events.len(),
{
    if events.len() == 0 {
        owned
    } else {
        let before = owned_with(owned, events.drop_last());
        match events.last().award {
            Some(item) => before.insert(item.name@),
            None => before,
        }
    }
}

/// What holds of the award of one level, `earlier` being the levels
/// reached before it and `owned` the names owned before them: only a level
/// that is a multiple of five awards anything; it awards something exactly
/// when a drop can be rolled from the shared drops; and what it awards is
/// offered by them to a player who owns what was owned by then.
pub open spec fn award_rule(owned: Set<Seq<char>>, earlier: Seq<LevelUp>, event: LevelUp) -> bool {
    let by_then = owned_with(owned, earlier);
    &&& event.level % 5 != 0 ==> event.award is None
    &&& event.level % 5 == 0 ==> (event.award is Some <==> can_drop(base_drop_table(), by_then))
    &&& event.award matches Some(item) ==> offered(base_drop_table(), by_then, item@)
}

/// The names in an inventory after an item came in are those before and
/// the item's name.
pub proof fn lemma_added_names(inv: Seq<(Item, u16)>, item: Item, quant: u16, name: Seq<char>)
    ensures
        names(added(inv, item, quant), name) <==> names(inv, name) || name == item.name@,
{
    let out = added(inv, item, quant);
    if held(inv, item@) {
        let i = first_row(inv, item@);
        assert(is_first_row(inv, item@, i));
        if names(inv, name) {
            let k = choose|k: int| 0 <= k < inv.len() && (#[trigger] inv[k]).0.name@ == name;
            assert(out[k].0.name@ == name);
        }
        if name == item.name@ {
            assert(out[i].0.name@ == name);
            assert(inv[i].0.name@ == name);
        }
        if names(out, name) {
            let k = choose|k: int| 0 <= k < out.len() && (#[trigger] out[k]).0.name@ == name;
            assert(inv[k].0.name@ == name);
        }
    } else {
        if names(inv, name) {
            let k = choose|k: int| 0 <= k < inv.len() && (#[trigger] inv[k]).0.name@ == name;
            assert(out[k].0.name@ == name);
        }
        if name == item.name@ {
            assert(out[inv.len() as int].0.name@ == name);
        }
        if names(out, name) {
            let k = choose|k: int| 0 <= k < out.len() && (#[trigger] out[k]).0.name@ == name;
            if k < inv.len() {
                assert(inv[k].0.name@ == name);
            }
        }
    }
}

/// A player who gets an item owns what was owned before and the item's name.
pub proof fn lemma_added_owned(before: Player, item: Item, quant: u16)
    ensures
        forall|after: Player|
            after.inventory@ == added(before.inventory@, item, quant) && after.weapon
                == before.weapon && after.armor == before.armor ==> #[trigger] after.owned()
                == before.owned().insert(item.name@),
{
    assert forall|after: Player|
        after.inventory@ == added(before.inventory@, item, quant) && after.weapon == before.weapon
            && after.armor == before.armor implies #[trigger] after.owned()
        == before.owned().insert(item.name@) by {
        assert forall|name: Seq<char>|
            after.owned().contains(name) == before.owned().insert(item.name@).contains(name) by {
            lemma_added_names(before.inventory@, item, quant, name);
        }
        assert(after.owned() =~= before.owned().insert(item.name@));
    }
}

/// An inventory whose rows can all count one more can take any drop.
pub proof fn lemma_spare_room(inv: Seq<(Item, u16)>, table: Seq<(ItemView, u32, bool)>)
    ensures
        forall|n: int| n >= 1 && spare(inv, n) ==> room_for_drops(inv, table),
{
    assert forall|n: int| n >= 1 && spare(inv, n) implies room_for_drops(inv, table) by {
        assert forall|j: int| 0 <= j < table.len() implies has_room(
            inv,
            (#[trigger] table[j]).0,
            1,
        ) by {
            let item = table[j].0;
            if held(inv, item) {
                let i = first_row(inv, item);
                assert(is_first_row(inv, item, i));
                assert(inv[i].1 + n <= u16::MAX);
            }
        }
    }
}

/// After one award came in, every row can still count the rest.
pub proof fn lemma_spare_after(inv: Seq<(Item, u16)>, award: Option<Item>, n: int)
    requires
        spare(inv, n),
        award is Some ==> 1 <= n <= u16::MAX,
    ensures
        match award {
            Some(item) => spare(added(inv, item, 1), n - 1),
            None => spare(inv, n),
        },
{
    if let Some(item) = award {
        let out = added(inv, item, 1);
        if held(inv, item@) {
            let i = first_row(inv, item@);
            assert(is_first_row(inv, item@, i));
            assert forall|k: int| 0 <= k < out.len() implies (#[trigger] out[k]).1 + (n - 1)
                <= u16::MAX by {
                assert(inv[k].1 + n <= u16::MAX);
            }
        } else {
            assert forall|k: int| 0 <= k < out.len() implies (#[trigger] out[k]).1 + (n - 1)
                <= u16::MAX by {
                if k < inv.len() {
                    assert(inv[k].1 + n <= u16::MAX);
                }
            }
        }
    }
}

/// The items as plain values.
pub open spec fn item_views(items: Seq<Item>) -> Seq<ItemView> {
    Seq::new(items.len(), |i: int| items[i]@)
}

/// The inventory after `quant` of each of the items came in, in order.
pub open spec fn with_stuff(inv: Seq<(Item, u16)>, stuff: Seq<Item>, quant: u16) -> Seq<(Item, u16)>
    decreases stuff.len(),
{
    if stuff.len() == 0 {
        inv
    } else {
        added(with_stuff(inv, stuff.drop_last(), quant), stuff.last(), quant)
    }
}

/// What `silly` hands out.
pub open spec fn silly_stuff() -> Seq<ItemView> {
    seq![
        ItemView {
            name: "Holy Blade"@,
            desc: "Hallelujah"@,
            item_type: ItemType::Weapon { damage: 999 },
        },
        ItemView {
            name: "Divine Armor"@,
            desc: "Hallelujah 2"@,
            item_type: ItemType::Armor { reduction: 88 },
        },
        ItemView { name: "Mountains Key"@, desc: ".."@, item_type: ItemType::Key },
        ItemView { name: "Cave Key"@, desc: "..."@, item_type: ItemType::Key },
        ItemView { name: "Tranquility Stone"@, desc: "Meditate instantly"@, item_type: ItemType::Key },
    ]
}

/// No two of the items that `silly` hands out are the same.
pub proof fn lemma_silly_stuff_differs()
    ensures
        forall|a: int, b: int|
            0 <= a < b < silly_stuff().len() ==> (#[trigger] silly_stuff()[a]) != (
            #[trigger] silly_stuff()[b]),
{
    reveal_strlit("Holy Blade");
    reveal_strlit("Divine Armor");
    reveal_strlit("Mountains Key");
    reveal_strlit("Cave Key");
    reveal_strlit("Tranquility Stone");
    assert("Holy Blade"@.len() == 10);
    assert("Divine Armor"@.len() == 12);
    assert("Mountains Key"@.len() == 13);
    assert("Cave Key"@.len() == 8);
    assert("Tranquility Stone"@.len() == 17);
}

/// An item that comes in leaves the room for every other item as it was.
pub proof fn lemma_added_keeps_room(
    inv: Seq<(Item, u16)>,
    item: Item,
    quant: u16,
    other: ItemView,
    n: int,
)
    requires
        item@ != other,
        has_room(inv, other, n),
    ensures
        has_room(added(inv, item, quant), other, n),
{
    let out = added(inv, item, quant);
    if held(out, other) {
        let k = first_row(out, other);
        assert(is_first_row(out, other, k));
        if held(inv, item@) {
            let i = first_row(inv, item@);
            assert(is_first_row(inv, item@, i));
            assert(out[k].0 == inv[k].0);
            assert forall|j: int| 0 <= j < k implies (#[trigger] inv[j]).0@ != other by {
                assert(out[j].0@ != other);
            }
            assert(is_first_row(inv, other, k));
            lemma_first_row_unique(inv, other, k);
        } else {
            assert(k < inv.len());
            assert(out[k] == inv[k]);
            assert forall|j: int| 0 <= j < k implies (#[trigger] inv[j]).0@ != other by {
                assert(out[j].0@ != other);
            }
            assert(is_first_row(inv, other, k));
            lemma_first_row_unique(inv, other, k);
        }
    }
}

/// Every row holds at least one item, and no item has two rows.
pub open spec fn inventory_wf(inv: Seq<(Item, u16)>) -> bool {
    &&& forall|i: int| 0 <= i < inv.len() ==> (#[trigger] inv[i]).1 >= 1
    &&& forall|i: int, j: int|
        0 <= i < j < inv.len() ==> (#[trigger] inv[i]).0@ != (#[trigger] inv[j]).0@
}

/// Row `i` is the first row of `inv` that holds `item`.
pub open spec fn is_first_row(inv: Seq<(Item, u16)>, item: ItemView, i: int) -> bool {
    &&& 0 <= i < inv.len()
    &&& inv[i].0@ == item
    &&& forall|j: int| 0 <= j < i ==> (#[trigger] inv[j]).0@ != item
}

/// Some row of `inv` holds `item`.
pub open spec fn held(inv: Seq<(Item, u16)>, item: ItemView) -> bool {
    exists|i: int| is_first_row(inv, item, i)
}

/// The first row of `inv` that holds `item`, where one does.
pub open spec fn first_row(inv: Seq<(Item, u16)>, item: ItemView) -> int {
    choose|i: int| is_first_row(inv, item, i)
}

/// Adding `quant` of `item` stays within what a row can count.
pub open spec fn has_room(inv: Seq<(Item, u16)>, item: ItemView, quant: int) -> bool {
    held(inv, item) ==> inv[first_row(inv, item)].1 + quant <= u16::MAX
}

/// The inventory after `quant` of `item` came in: the row that holds the
/// item counts `quant` more, or, where none holds it, a new last row does.
pub open spec fn added(inv: Seq<(Item, u16)>, item: Item, quant: u16) -> Seq<(Item, u16)> {
    if held(inv, item@) {
        let i = first_row(inv, item@);
        inv.update(i, (inv[i].0, (inv[i].1 + quant) as u16))
    } else {
        inv.push((item, quant))
    }
}

/// The inventory after `amount` went out of the row at `location`: the row
/// counts that much less, and leaves the inventory when nothing is left.
/// A position outside the inventory changes nothing.
pub open spec fn removed(inv: Seq<(Item, u16)>, location: int, amount: u16) -> Seq<(Item, u16)> {
    if !(0 <= location < inv.len()) {
        inv
    } else if inv[location].1 > amount {
        inv.update(location, (inv[location].0, (inv[location].1 - amount) as u16))
    } else {
        inv.remove(location)
    }
}

/// Some row of `inv` holds an item of the given name.
pub open spec fn names(inv: Seq<(Item, u16)>, name: Seq<char>) -> bool {
    exists|i: int| 0 <= i < inv.len() && (#[trigger] inv[i]).0.name@ == name
}

/// At most one row is the first to hold an item.
pub proof fn lemma_first_row_unique(inv: Seq<(Item, u16)>, item: ItemView, i: int)
    requires
        is_first_row(inv, item, i),
    ensures
        held(inv, item),
        first_row(inv, item) == i,
{
    let k = first_row(inv, item);
    assert(is_first_row(inv, item, k));
    if k < i {
        assert(inv[k].0@ != item);
    }
    if i < k {
        assert(inv[i].0@ != item);
    }
}

/// Adding at least one of an item to a sound inventory leaves it sound.
pub proof fn lemma_added_wf(inv: Seq<(Item, u16)>, item: Item, quant: u16)
    requires
        inventory_wf(inv),
        quant >= 1,
        has_room(inv, item@, quant as int),
    ensures
        inventory_wf(added(inv, item, quant)),
{
    let out = added(inv, item, quant);
    if held(inv, item@) {
        let k = first_row(inv, item@);
        assert(is_first_row(inv, item@, k));
        assert forall|i: int, j: int| 0 <= i < j < out.len() implies (#[trigger] out[i]).0@ != (
        #[trigger] out[j]).0@ by {
            assert(out[i].0@ == inv[i].0@);
            assert(out[j].0@ == inv[j].0@);
        }
        assert forall|i: int| 0 <= i < out.len() implies (#[trigger] out[i]).1 >= 1 by {
            assert(inv[i].1 >= 1);
        }
    } else {
        assert forall|i: int, j: int| 0 <= i < j < out.len() implies (#[trigger] out[i]).0@ != (
        #[trigger] out[j]).0@ by {
            if j == inv.len() {
                if inv[i].0@ == item@ {
                    lemma_some_row_first(inv, item@, i);
                }
            } else {
                assert(out[i].0@ == inv[i].0@);
                assert(out[j].0@ == inv[j].0@);
            }
        }
        assert forall|i: int| 0 <= i < out.len() implies (#[trigger] out[i]).1 >= 1 by {
            if i < inv.len() {
                assert(inv[i].1 >= 1);
            }
        }
    }
}

/// Where some row holds an item, a first one does.
pub proof fn lemma_some_row_first(inv: Seq<(Item, u16)>, item: ItemView, i: int)
    requires
        0 <= i < inv.len(),
        inv[i].0@ == item,
    ensures
        held(inv, item),
        first_row(inv, item) <= i,
    decreases i,
{
    if forall|j: int| 0 <= j < i ==> (#[trigger] inv[j]).0@ != item {
        assert(is_first_row(inv, item, i));
        lemma_first_row_unique(inv, item, i);
    } else {
        let j = choose|j: int| 0 <= j < i && (#[trigger] inv[j]).0@ == item;
        lemma_some_row_first(inv, item, j);
    }
}

/// Taking from a sound inventory leaves it sound.
pub proof fn lemma_removed_wf(inv: Seq<(Item, u16)>, location: int, amount: u16)
    requires
        inventory_wf(inv),
    ensures
        inventory_wf(removed(inv, location, amount)),
{
    let out = removed(inv, location, amount);
    if 0 <= location < inv.len() {
        if inv[location].1 > amount {
            assert forall|i: int, j: int| 0 <= i < j < out.len() implies (#[trigger] out[i]).0@
                != (#[trigger] out[j]).0@ by {
                assert(out[i].0@ == inv[i].0@);
                assert(out[j].0@ == inv[j].0@);
            }
            assert forall|i: int| 0 <= i < out.len() implies (#[trigger] out[i]).1 >= 1 by {
                assert(inv[i].1 >= 1);
            }
        } else {
            assert forall|i: int, j: int| 0 <= i < j < out.len() implies (#[trigger] out[i]).0@
                != (#[trigger] out[j]).0@ by {
                let a = if i < location { i } else { i + 1 };
                let b = if j < location { j } else { j + 1 };
                assert(out[i] == inv[a]);
                assert(out[j] == inv[b]);
            }
            assert forall|i: int| 0 <= i < out.len() implies (#[trigger] out[i]).1 >= 1 by {
                let a = if i < location { i } else { i + 1 };
                assert(out[i] == inv[a]);
            }
        }
    }
}

} // verus!
