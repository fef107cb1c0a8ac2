//! Enemies and the combat round.

use crate::errors::GameError;
use crate::items::{can_drop, offered, Item, ItemType};
use crate::places::drop_table;
use crate::player::{
    added, award_rule, awards_due, health_after, lemma_spare_room, malformed_armor, mitigated,
    owned_with, spare, with_awards, LevelUp, Player,
};
use crate::utilities::math::rng_from_range;
use crate::utilities::same_text;
use vstd::prelude::*;

verus! {

/// An enemy met during exploration. It is alive while `cur_health` is above
/// zero, and `damage` is the inclusive range its hits are drawn from.
#[derive(Debug, PartialEq, Eq, PartialOrd, Ord, Hash)]
pub struct Entity {
    pub name: String,
    pub max_health: u16,
    pub cur_health: u16,
    pub damage: (u16, u16),
}

/// What an entity is, as plain values.
pub struct EntityView {
    pub name: Seq<char>,
    pub max_health: u16,
    pub cur_health: u16,
    pub damage: (u16, u16),
}

impl View for Entity {
    type V = EntityView;

    open spec fn view(&self) -> EntityView {
        EntityView {
            name: self.name@,
            max_health: self.max_health,
            cur_health: self.cur_health,
            damage: self.damage,
        }
    }
}

impl Entity {
    /// The entity's health does not exceed its maximum.
    pub open spec fn wf(&self) -> bool {
        self.cur_health <= self.max_health
    }

    /// A fresh entity at full health.
    pub fn new(name: &'static str, max_health: u16, damage: (u16, u16)) -> (r: Self)
        ensures
            r@ == (EntityView { name: name@, max_health, cur_health: max_health, damage }),
            r.wf(),
    {
        Self { name: name.to_owned(), max_health, cur_health: max_health, damage }
    }

    /// Rolls the damage of one hit.
    pub fn get_damage(&self) -> (r: u16)
        requires
            self.damage.0 <= self.damage.1,
        ensures
            self.damage.0 <= r <= self.damage.1,
    {
        rng_from_range(self.damage)
    }

    /// Strikes the player with a hit rolled from the entity's damage range.
    /// Gives what the hit reports: the damage that arrived, or that the
    /// armor slot held no armor.
    pub fn attack(&self, plr: &mut Player) -> (r: Result<u16, GameError>)
        requires
            self.damage.0 <= self.damage.1,
        ensures
            exists|roll: u16|
                self.damage.0 <= roll <= self.damage.1 && #[trigger] struck(
                    *old(plr),
                    *final(plr),
                    roll,
                    r,
                ),
            old(plr).wf() ==> final(plr).wf(),
    {
        let roll = self.get_damage();
        let r = plr.take_damage(roll, false);
        assert(struck(*old(plr), *plr, roll, r));
        r
    }

    /// Where the encounter with the player stands.
    pub fn status(&self, plr: &Player) -> (r: Status)
        ensures
            r == standing(self.cur_health, plr.cur_health),
    {
        if !plr.is_alive() {
            Status::Lost
        } else if !self.is_alive() {
            Status::Won
        } else {
            Status::Ongoing
        }
    }

    /// One turn in which the player attacks and the entity, if it is still
    /// alive then, strikes back with a raw hit of `roll`.
    pub fn exchange(&mut self, plr: &mut Player, roll: u16) -> (r: Round)
        ensures
            exchanged(*old(self), *old(plr), roll, *final(self), *final(plr), r),
            old(self).wf() ==> final(self).wf(),
            old(plr).wf() ==> final(plr).wf(),
    {
        let dealt = plr.attack(self);
        let taken = if self.is_alive() {
            Some(plr.take_damage(roll, false))
        } else {
            None
        };
        Round { status: self.status(plr), dealt: Some(dealt), taken }
    }

    /// One turn of an encounter. Fleeing ends the encounter at once; the
    /// inventory costs no turn; an attack hits the entity, which strikes
    /// back if it is still alive then. Once the encounter is decided
    /// nothing changes any more.
    pub fn encounter(&mut self, plr: &mut Player, command: Command) -> (r: Round)
        requires
            old(self).damage.0 <= old(self).damage.1,
        ensures
            standing(old(self).cur_health, old(plr).cur_health) != Status::Ongoing ==> {
                &&& r.status == standing(old(self).cur_health, old(plr).cur_health)
                &&& r.dealt is None && r.taken is None
                &&& *final(self) == *old(self) && *final(plr) == *old(plr)
            },
            standing(old(self).cur_health, old(plr).cur_health) == Status::Ongoing
                ==> match command {
                Command::Flee => {
                    &&& r.status == Status::Fled
                    &&& r.dealt is None && r.taken is None
                    &&& *final(self) == *old(self) && *final(plr) == *old(plr)
                },
                Command::Inventory => {
                    &&& r.status == Status::Ongoing
                    &&& r.dealt is None && r.taken is None
                    &&& *final(self) == *old(self) && *final(plr) == *old(plr)
                },
                Command::Attack => exists|roll: u16|
                    old(self).damage.0 <= roll <= old(self).damage.1 && #[trigger] exchanged(
                        *old(self),
                        *old(plr),
                        roll,
                        *final(self),
                        *final(plr),
                        r,
                    ),
            },
            old(self).wf() ==> final(self).wf(),
            old(plr).wf() ==> final(plr).wf(),
    {
        let before = self.status(plr);
        if before != Status::Ongoing {
            return Round { status: before, dealt: None, taken: None };
        }
        match command {
            Command::Flee => Round { status: Status::Fled, dealt: None, taken: None },
            Command::Inventory => Round { status: Status::Ongoing, dealt: None, taken: None },
            Command::Attack => {
                let dealt = plr.attack(self);
                let taken = if self.is_alive() {
                    let report = self.attack(plr);
                    Some(report)
                } else {
                    None
                };
                let r = Round { status: self.status(plr), dealt: Some(dealt), taken };
                proof {
                    if self.cur_health != 0 {
                        let roll = choose|roll: u16|
                            self.damage.0 <= roll <= self.damage.1 && #[trigger] struck(
                                *old(plr),
                                *plr,
                                roll,
                                taken->0,
                            );
                        assert(exchanged(*old(self), *old(plr), roll, *self, *plr, r));
                    } else {
                        assert(exchanged(*old(self), *old(plr), self.damage.0, *self, *plr, r));
                    }
                }
                r
            },
        }
    }

    /// Whether the entity still has health left.
    pub fn is_alive(&self) -> (r: bool)
        ensures
            r == (self.cur_health != 0),
    {
        self.cur_health != 0
    }
}

/// What the player does in a turn of an encounter.
#[derive(Clone, Copy, Debug, PartialEq, Eq, Structural)]
pub enum Command {
    Attack,
    Inventory,
    Flee,
}

impl Command {
    /// Reads the player's choice in an encounter: `1` attacks, `2` opens
    /// the inventory and `3` flees. Anything else is no choice.
    pub fn parse(input: &str) -> (r: Option<Command>)
        ensures
            r == if input@ == "1"@ {
                Some(Command::Attack)
            } else if input@ == "2"@ {
                Some(Command::Inventory)
            } else if input@ == "3"@ {
                Some(Command::Flee)
            } else {
                None
            },
    {
        if same_text(input, "1") {
            Some(Command::Attack)
        } else if same_text(input, "2") {
            Some(Command::Inventory)
        } else if same_text(input, "3") {
            Some(Command::Flee)
        } else {
            None
        }
    }
}

/// Where an encounter stands.
#[derive(Clone, Copy, Debug, PartialEq, Eq, Structural)]
pub enum Status {
    /// Both are alive: the player has the next turn.
    Ongoing,
    /// The player fled: the entity survives and nothing is won.
    Fled,
    /// The entity is defeated and the player alive: rewards are due.
    Won,
    /// The player is defeated.
    Lost,
}

/// What happened in one turn of an encounter: where the encounter stands
/// after it, the damage the player's attack dealt to the entity, and the
/// damage the entity's attack dealt to the player. An attack that did not
/// take place is `None`; one that went wrong holds the error.
#[derive(Debug, PartialEq, Eq)]
pub struct Round {
    pub status: Status,
    pub dealt: Option<Result<u16, GameError>>,
    pub taken: Option<Result<u16, GameError>>,
}

/// Where an encounter stands with these healths: lost once the player has
/// none left, won once the entity has none left, else ongoing.
pub open spec fn standing(entity_health: u16, player_health: u16) -> Status {
    if player_health == 0 {
        Status::Lost
    } else if entity_health == 0 {
        Status::Won
    } else {
        Status::Ongoing
    }
}

/// The player `after` is the player `before` struck by a raw hit of `roll`
/// that does not penetrate, and `report` is what the hit reports.
pub open spec fn struck(before: Player, after: Player, roll: u16, report: Result<u16, GameError>) -> bool {
    &&& after.cur_health == health_after(before.cur_health, mitigated(before.armor, roll, false))
    &&& after == (Player { cur_health: after.cur_health, ..before })
    &&& report == if malformed_armor(before.armor) {
        Err::<u16, GameError>(GameError::MalformedArmor)
    } else {
        Ok::<u16, GameError>(mitigated(before.armor, roll, false) as u16)
    }
}

/// The entity `after` is the entity `before` hit by the player's weapon,
/// and `report` is what the attack reports. Without a weapon in hand the
/// entity is untouched.
pub open spec fn hit(plr: Player, before: Entity, after: Entity, report: Result<u16, GameError>) -> bool {
    match plr.weapon.item_type {
        ItemType::Weapon { damage } => {
            &&& after.cur_health == health_after(before.cur_health, damage as int)
            &&& after == (Entity { cur_health: after.cur_health, ..before })
            &&& report == Ok::<u16, GameError>(damage)
        },
        _ => after == before && report == Err::<u16, GameError>(GameError::NoWeapon),
    }
}

/// One turn in which the player attacks and the entity, if it survives,
/// strikes back with a raw hit of `roll`.
pub open spec fn exchanged(
    entity_before: Entity,
    plr_before: Player,
    roll: u16,
    entity_after: Entity,
    plr_after: Player,
    round: Round,
) -> bool {
    &&& round.dealt matches Some(report) && hit(plr_before, entity_before, entity_after, report)
    &&& if entity_after.cur_health != 0 {
        round.taken matches Some(report) && struck(plr_before, plr_after, roll, report)
    } else {
        round.taken is None && plr_after == plr_before
    }
    &&& round.status == standing(entity_after.cur_health, plr_after.cur_health)
}

/// What a win brought besides experience: the levels reached, each with
/// its award, and the drop of the place, if the encounter had one to give.
#[derive(Debug)]
pub struct Rewards {
    pub levels: Vec<LevelUp>,
    pub bonus: Option<Item>,
}

/// The slots that the rewards of a win may need in each row of the
/// inventory: one for each level on the way that awards a drop, and one
/// more for the drop of the place.
pub open spec fn slots_due(from: u16, to: u16, bonus_drop: bool) -> int {
    awards_due(from, to) + if bonus_drop {
        1int
    } else {
        0int
    }
}

/// The slots that the rewards of a win may need in each row of the inventory.
pub fn slots_needed(from: u16, to: u16, bonus_drop: bool) -> (r: u16)
    ensures
        r == slots_due(from, to, bonus_drop),
{
    let awards: u16 = if to > from {
        to / 5 - from / 5
    } else {
        0
    };
    if bonus_drop {
        awards + 1
    } else {
        awards
    }
}

/// Hands out what a win brings once the experience is counted: the player
/// rises to `level`, the level that the experience now stands for, with
/// the award of every fifth level on the way; then, if the encounter
/// carries a drop, one drop of the player's place is rolled.
pub fn reward(plr: &mut Player, level: u16, bonus_drop: bool) -> (r: Rewards)
    requires
        spare(old(plr).inventory@, slots_due(old(plr).level, level, bonus_drop)),
    ensures
        final(plr).level == if level > old(plr).level {
            level
        } else {
            old(plr).level
        },
        r.levels@.len() == final(plr).level - old(plr).level,
        forall|k: int|
            0 <= k < r.levels@.len() ==> (#[trigger] r.levels@[k]).level == old(plr).level + 1 + k,
        forall|k: int|
            0 <= k < r.levels@.len() ==> award_rule(
                old(plr).owned(),
                r.levels@.take(k),
                #[trigger] r.levels@[k],
            ),
        !bonus_drop ==> r.bonus is None,
        bonus_drop ==> (r.bonus is Some <==> can_drop(
            drop_table(old(plr).cur_place.location),
            owned_with(old(plr).owned(), r.levels@),
        )),
        r.bonus matches Some(item) ==> offered(
            drop_table(old(plr).cur_place.location),
            owned_with(old(plr).owned(), r.levels@),
            item@,
        ),
        final(plr).inventory@ == match r.bonus {
            Some(item) => added(with_awards(old(plr).inventory@, r.levels@), item, 1),
            None => with_awards(old(plr).inventory@, r.levels@),
        },
        *final(plr) == (Player {
            level: final(plr).level,
            inventory: final(plr).inventory,
            ..*old(plr)
        }),
        old(plr).wf() ==> final(plr).wf(),
{
    let ghost due = awards_due(plr.level, level);
    let ghost slots = slots_due(plr.level, level, bonus_drop);
    assert(spare(plr.inventory@, due)) by {
        assert forall|i: int| 0 <= i < plr.inventory@.len() implies (#[trigger] plr.inventory@[i]).1
            + due <= u16::MAX by {
            assert(plr.inventory@[i].1 + slots <= u16::MAX);
        }
    }
    let levels = plr.level_up(level);
    let bonus = if bonus_drop {
        proof {
            assert(spare(plr.inventory@, slots - due));
            lemma_spare_room(plr.inventory@, drop_table(plr.cur_place.location));
        }
        let pool = plr.cur_place.get_drops();
        plr.fetch_drop(pool)
    } else {
        None
    };
    Rewards { levels, bonus }
}

} // verus!
