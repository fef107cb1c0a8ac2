//! The decisions of the game outside combat: the menu, travel, exploring,
//! meditation and what can be done with an item of the inventory.

use crate::entities::Entity;
use crate::errors::GameError;
use crate::items::{can_drop, offered, used, Item, ItemType};
use crate::places::{
    drop_table, entities_view, entity_table, entity_weights, lemma_entity_weights, Location, Place,
};
use crate::player::{added, equipped, healed, removed, room_for_drops, Player};
use crate::utilities::math::{bool_from_chance, pool_weights, rng_from_range, weigh_vec};
use crate::utilities::{eq_ignore_ascii_case, indexize, same_ignoring_case, selected};
use vstd::prelude::*;

verus! {

/// What the main menu offers.
#[derive(Clone, Copy, Debug, PartialEq, Eq, Structural)]
pub enum Options {
    Explore,
    Travel,
    Meditate,
    ViewInventory,
    ViewStats,
}

/// The entries of the main menu, in the order they are shown.
pub open spec fn registered_options() -> Seq<Options> {
    seq![
        Options::Explore,
        Options::Travel,
        Options::Meditate,
        Options::ViewInventory,
        Options::ViewStats,
    ]
}

impl Options {
    /// The text shown for the entry.
    pub open spec fn spec_label(&self) -> Seq<char> {
        match self {
            Options::Explore => "Explore"@,
            Options::Travel => "Travel"@,
            Options::Meditate => "Meditate"@,
            Options::ViewInventory => "View Inventory"@,
            Options::ViewStats => "View Stats"@,
        }
    }

    /// The entries of the main menu, in the order they are shown.
    pub fn get_registered() -> (r: Vec<Self>)
        ensures
            r@ == registered_options(),
    {
        vec![Self::Explore, Self::Travel, Self::Meditate, Self::ViewInventory, Self::ViewStats]
    }

    /// The text shown for the entry.
    pub fn label(&self) -> (r: &'static str)
        ensures
            r@ == self.spec_label(),
    {
        match self {
            Self::Explore => "Explore",
            Self::Travel => "Travel",
            Self::Meditate => "Meditate",
            Self::ViewInventory => "View Inventory",
            Self::ViewStats => "View Stats",
        }
    }
}

/// Reads a choice of the main menu: the entry whose number was typed, or
/// `None` where the input is no number of the menu.
pub fn get_option(input: &str) -> (r: Option<Options>)
    ensures
        r == match selected(input@, 5) {
            Some(i) => Some(registered_options()[i as int]),
            None => None,
        },
{
    let options = Options::get_registered();
    match indexize(input, options.len()) {
        Some(ind) => Some(options[ind]),
        None => None,
    }
}

/// What an answer to a yes-or-no question says: `y` is yes and `n` is no,
/// in either case of the letter; anything else is no answer.
pub open spec fn answer_of(answer: Seq<char>) -> Option<bool> {
    if same_ignoring_case(answer, "y"@) {
        Some(true)
    } else if same_ignoring_case(answer, "n"@) {
        Some(false)
    } else {
        None
    }
}

/// Reads the answer to a yes-or-no question.
pub fn confirm(answer: &str) -> (r: Option<bool>)
    ensures
        r == answer_of(answer@),
{
    if eq_ignore_ascii_case(answer, "y") {
        Some(true)
    } else if eq_ignore_ascii_case(answer, "n") {
        Some(false)
    } else {
        None
    }
}

/// Reads whether the player wants to play again, from the answer to that
/// question: yes, no, or no answer yet.
pub fn replay(answer: &str) -> (r: Option<bool>)
    ensures
        r == answer_of(answer@),
{
    confirm(answer)
}

/// Whether a name is one of those no player may take, whatever the case of
/// its letters.
pub open spec fn prohibited_name(name: Seq<char>) -> bool {
    ||| same_ignoring_case(name, "god"@)
    ||| same_ignoring_case(name, "devil"@)
    ||| same_ignoring_case(name, "gabriel"@)
}

/// Whether a player may take the name: it is not empty and not prohibited.
pub fn valid_name(name: &str) -> (r: bool)
    ensures
        r == (name@.len() > 0 && !prohibited_name(name@)),
{
    if name.unicode_len() == 0 {
        return false;
    }
    !(eq_ignore_ascii_case(name, "god") || eq_ignore_ascii_case(name, "devil")
        || eq_ignore_ascii_case(name, "gabriel"))
}

/// How an attempt to travel ended.
#[derive(Clone, Copy, Debug, PartialEq, Eq, Structural)]
pub enum Travel {
    /// Nothing was typed: the player stays.
    Cancelled,
    /// What was typed is no number of the list of locations.
    Unknown,
    /// The location needs a key that the player does not have.
    Locked(Location),
    /// The player is now at the location.
    Arrived(Location),
}

/// The locations of the world, in the order they are offered.
pub open spec fn registered_locations() -> Seq<Location> {
    seq![Location::Forest, Location::Mountains, Location::Cave]
}

/// Whether the player may enter the location: it needs no key, or the
/// player has the key named after it.
pub open spec fn may_enter(plr: Player, location: Location) -> bool {
    location == Location::Forest || plr.owns(location.spec_key_name())
}

/// How an attempt to travel on the given input ends.
pub open spec fn travel_outcome(plr: Player, input: Seq<char>) -> Travel {
    if input.len() == 0 {
        Travel::Cancelled
    } else {
        match selected(input, 3) {
            None => Travel::Unknown,
            Some(i) => {
                let location = registered_locations()[i as int];
                if may_enter(plr, location) {
                    Travel::Arrived(location)
                } else {
                    Travel::Locked(location)
                }
            },
        }
    }
}

/// Travels to the location whose number was typed. The player's place is
/// replaced when the location is open to the player, and only then.
pub fn travel(plr: &mut Player, input: &str) -> (r: Travel)
    ensures
        r == travel_outcome(*old(plr), input@),
        match r {
            Travel::Arrived(location) => {
                &&& final(plr).cur_place.location == location
                &&& final(plr).cur_place.name@ == location.spec_name()
                &&& final(plr).cur_place.desc@ == location.spec_desc()
                &&& *final(plr) == (Player { cur_place: final(plr).cur_place, ..*old(plr) })
            },
            _ => *final(plr) == *old(plr),
        },
        old(plr).wf() ==> final(plr).wf(),
{
    if input.unicode_len() == 0 {
        return Travel::Cancelled;
    }
    let locations = Place::get_registered();
    let ind = match indexize(input, locations.len()) {
        Some(ind) => ind,
        None => {
            return Travel::Unknown;
        },
    };
    let loc = locations[ind];
    if !loc.req_key() || plr.has_item(loc.key_name().as_str()) {
        plr.cur_place = Place::new(loc);
        Travel::Arrived(loc)
    } else {
        Travel::Locked(loc)
    }
}

/// One exploration in this many finds a chest.
pub const CHEST_ODDS: u32 = 10;

/// One encounter in this many awards a drop of the place to the winner.
pub const DROP_ODDS: u32 = 10;

/// The least that a meditation heals.
pub const MEDITATION_MIN: u16 = 20;

/// The most that a meditation heals.
pub const MEDITATION_MAX: u16 = 60;

/// The time a meditation takes without a Tranquility Stone, in milliseconds.
pub const MEDITATION_DELAY: u64 = 2500;

/// What exploring leads to.
#[derive(Debug)]
pub enum Event {
    /// A chest was found.
    Chest,
    /// An entity was met. The flag says whether defeating it awards a drop
    /// of the place on top of the experience.
    Encounter(Entity, bool),
}

/// The entity is, at full health, one of those that live at the location
/// and can be met there.
pub open spec fn lives_at(location: Location, entity: Entity) -> bool {
    exists|i: int|
        0 <= i < entity_table(location).len() && (#[trigger] entity_table(location)[i]).0
            == entity@ && entity_table(location)[i].1 > 0
}

/// Every entity that lives at a location is at full health and has a
/// damage range to roll its hits from.
pub proof fn lemma_residents_ready(location: Location, entity: Entity)
    requires
        lives_at(location, entity),
    ensures
        entity.cur_health == entity.max_health,
        entity.damage.0 <= entity.damage.1,
        entity.wf(),
{
    let i = choose|i: int|
        0 <= i < entity_table(location).len() && (#[trigger] entity_table(location)[i]).0
            == entity@ && entity_table(location)[i].1 > 0;
    let row = entity_table(location)[i].0;
    assert(row.cur_health == row.max_health && row.damage.0 <= row.damage.1);
}

/// Explores the player's place once it is drawn whether a chest is found.
/// A chest found is the whole event. Without one an entity of the place is
/// met, picked by weight, and one such encounter in `DROP_ODDS` awards a
/// drop; the entity is at full health and ready to fight.
pub fn explore_with(plr: &Player, chest_found: bool) -> (r: Event)
    ensures
        chest_found <==> r is Chest,
        r matches Event::Encounter(entity, _) ==> {
            &&& lives_at(plr.cur_place.location, entity)
            &&& entity.wf()
            &&& entity.damage.0 <= entity.damage.1
        },
{
    if chest_found {
        return Event::Chest;
    }
    let places_entities = plr.cur_place.get_entities();
    proof {
        lemma_entity_weights(plr.cur_place.location);
        assert(pool_weights(places_entities@) == entity_weights(
            entities_view(places_entities@),
        ));
    }
    match weigh_vec(places_entities) {
        Some(chosen_entity) => {
            proof {
                let i = choose|i: int|
                    0 <= i < places_entities@.len() && (#[trigger] places_entities@[i]).1 > 0
                        && chosen_entity == places_entities@[i].0;
                assert(entities_view(places_entities@)[i].0 == chosen_entity@);
                lemma_residents_ready(plr.cur_place.location, chosen_entity);
            }
            let dropped_item = bool_from_chance(1, DROP_ODDS);
            Event::Encounter(chosen_entity, dropped_item)
        },
        None => vstd::pervasive::unreached(),
    }
}

/// Explores the player's place. One time in `CHEST_ODDS` a chest is
/// found; else an entity of the place is met, picked by weight, and one
/// such encounter in `DROP_ODDS` awards a drop. An entity met is at full
/// health and ready to fight.
pub fn explore(plr: &Player) -> (r: Event)
    ensures
        r matches Event::Encounter(entity, _) ==> {
            &&& lives_at(plr.cur_place.location, entity)
            &&& entity.wf()
            &&& entity.damage.0 <= entity.damage.1
        },
{
    let chest_found = bool_from_chance(1, CHEST_ODDS);
    explore_with(plr, chest_found)
}

/// Opens a chest: one drop of the player's place is rolled and put into
/// the inventory. Gives the item, or `None` when no drop could be rolled.
pub fn chest_logic(plr: &mut Player) -> (r: Option<Item>)
    requires
        room_for_drops(old(plr).inventory@, drop_table(old(plr).cur_place.location)),
    ensures
        r is Some <==> can_drop(drop_table(old(plr).cur_place.location), old(plr).owned()),
        r matches Some(item) ==> {
            &&& offered(drop_table(old(plr).cur_place.location), old(plr).owned(), item@)
            &&& final(plr).inventory@ == added(old(plr).inventory@, item, 1)
        },
        r is None ==> *final(plr) == *old(plr),
        *final(plr) == (Player { inventory: final(plr).inventory, ..*old(plr) }),
        old(plr).wf() ==> final(plr).wf(),
{
    let reward_pool = plr.cur_place.get_drops();
    plr.fetch_drop(reward_pool)
}

/// How long a meditation takes, in milliseconds: no time with a
/// Tranquility Stone, two and a half seconds without.
pub fn meditation_delay(plr: &Player) -> (r: u64)
    ensures
        r == if plr.owns("Tranquility Stone"@) {
            0
        } else {
            MEDITATION_DELAY
        },
{
    if plr.has_item("Tranquility Stone") {
        0
    } else {
        MEDITATION_DELAY
    }
}

/// Meditates: heals by an amount rolled between 20 and 60, but not beyond
/// maximum health. Gives the health gained.
pub fn meditate(plr: &mut Player) -> (r: u16)
    requires
        old(plr).cur_health <= old(plr).max_health,
    ensures
        exists|roll: u16|
            MEDITATION_MIN <= roll <= MEDITATION_MAX && final(plr).cur_health == #[trigger] healed(
                old(plr).cur_health,
                old(plr).max_health,
                roll,
            ),
        r == final(plr).cur_health - old(plr).cur_health,
        *final(plr) == (Player { cur_health: final(plr).cur_health, ..*old(plr) }),
        old(plr).wf() ==> final(plr).wf(),
{
    let heal_amount = rng_from_range((MEDITATION_MIN, MEDITATION_MAX));
    plr.heal(heal_amount)
}

/// What can be done with an item of the inventory.
#[derive(Clone, Copy, Debug, PartialEq, Eq, Structural)]
pub enum ItemAction {
    Use,
    Equip,
    Delete,
}

/// What is offered for an item of the given kind, in the order shown:
/// weapons and armor can be equipped or deleted, healers and special items
/// used or deleted, and nothing can be done with a key.
pub open spec fn actions_for(item_type: ItemType) -> Seq<ItemAction> {
    match item_type {
        ItemType::Weapon { .. } | ItemType::Armor { .. } => seq![
            ItemAction::Equip,
            ItemAction::Delete,
        ],
        ItemType::Healer { .. } | ItemType::Special { .. } => seq![
            ItemAction::Use,
            ItemAction::Delete,
        ],
        ItemType::Key => seq![],
    }
}

/// What is offered for an item of the given kind, in the order shown.
pub fn item_actions(item_type: ItemType) -> (r: Vec<ItemAction>)
    ensures
        r@ == actions_for(item_type),
{
    match item_type {
        ItemType::Weapon { .. } | ItemType::Armor { .. } => vec![
            ItemAction::Equip,
            ItemAction::Delete,
        ],
        ItemType::Healer { .. } | ItemType::Special { .. } => vec![
            ItemAction::Use,
            ItemAction::Delete,
        ],
        ItemType::Key => Vec::new(),
    }
}

/// Whether the action is among those offered for an item of the given kind.
pub fn is_offered(item_type: ItemType, action: ItemAction) -> (r: bool)
    ensures
        r == actions_for(item_type).contains(action),
{
    let options = item_actions(item_type);
    let mut i: usize = 0;
    while i < options.len()
        invariant
            i <= options@.len(),
            options@ == actions_for(item_type),
            forall|k: int| 0 <= k < i ==> options@[k] != action,
        decreases options@.len() - i,
    {
        if options[i] == action {
            assert(options@[i as int] == action);
            return true;
        }
        i += 1;
    }
    false
}

/// The player's numbers leave room for the action on the row at `selected`.
pub open spec fn can_manage(plr: Player, selected: int, action: ItemAction) -> bool {
    0 <= selected < plr.inventory@.len() ==> match action {
        ItemAction::Use => plr.cur_health <= plr.max_health && plr.inventory@[selected].0.fits(
            &plr,
        ),
        ItemAction::Equip => plr.can_swap(selected),
        ItemAction::Delete => true,
    }
}

/// Whether the player's numbers leave room for the action on the row at `selected`.
pub fn manageable(plr: &Player, selected: usize, action: ItemAction) -> (r: bool)
    ensures
        r == can_manage(*plr, selected as int, action),
{
    if selected >= plr.inventory.len() {
        return true;
    }
    match action {
        ItemAction::Use => plr.cur_health <= plr.max_health && plr.inventory[selected].0.fits_player(
            plr,
        ),
        ItemAction::Equip => plr.can_equip(selected),
        ItemAction::Delete => true,
    }
}

/// The player `after` is the player `before` after the action was taken
/// on the inventory row at `selected`, and `r` is what the action reports.
/// A position outside the inventory and an action that is not offered for
/// the item are refused. Deleting removes the whole row.
pub open spec fn managed(
    before: Player,
    after: Player,
    selected: int,
    action: ItemAction,
    r: Result<(), GameError>,
) -> bool {
    if !(0 <= selected < before.inventory@.len()) {
        r == Err::<(), GameError>(GameError::MissingItem) && after == before
    } else {
        let row = before.inventory@[selected];
        if !actions_for(row.0.item_type).contains(action) {
            r == Err::<(), GameError>(GameError::NotOffered) && after == before
        } else {
            match action {
                ItemAction::Use => used(row.0.item_type, before, after, selected, r),
                ItemAction::Equip => equipped(before, after, selected, r),
                ItemAction::Delete => {
                    &&& r is Ok
                    &&& after.inventory@ == removed(before.inventory@, selected, row.1)
                    &&& after == (Player { inventory: after.inventory, ..before })
                },
            }
        }
    }
}

/// Takes an action on the inventory row at `selected`.
pub fn manage_item(plr: &mut Player, selected: usize, action: ItemAction) -> (r: Result<
    (),
    GameError,
>)
    requires
        can_manage(*old(plr), selected as int, action),
    ensures
        managed(*old(plr), *final(plr), selected as int, action, r),
        old(plr).wf() ==> final(plr).wf(),
{
    if selected >= plr.inventory.len() {
        return Err(GameError::MissingItem);
    }
    let itm = plr.inventory[selected].0.clone();
    let qty = plr.inventory[selected].1;
    if !is_offered(itm.item_type, action) {
        return Err(GameError::NotOffered);
    }
    match action {
        ItemAction::Use => itm.use_item(plr, selected),
        ItemAction::Equip => plr.equip_from_inventory(selected),
        ItemAction::Delete => {
            plr.remove_from_inventory(selected, qty);
            Ok(())
        },
    }
}

} // verus!
