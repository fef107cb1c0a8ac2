//! The places of the world, who lives there and what can be found there.

use crate::entities::{Entity, EntityView};
use crate::items::{base_drop_table, drop_row, drop_weights, drops_view, lemma_base_drop_total, Drops, Item, ItemType, ItemView};
use crate::utilities::math::{lemma_total_concat, lemma_total_push, total_weight};
use vstd::prelude::*;
use vstd::string::StringExecFns;

verus! {

/// The places a player can be in.
#[derive(Clone, Copy, Debug, PartialEq, Eq, Structural)]
pub enum Location {
    Forest,
    Mountains,
    Cave,
}

impl Location {
    /// The name of the location, as it is shown and as keys refer to it.
    pub open spec fn spec_name(&self) -> Seq<char> {
        match self {
            Location::Forest => "Forest"@,
            Location::Mountains => "Mountains"@,
            Location::Cave => "Cave"@,
        }
    }

    /// The description of the place at this location.
    pub open spec fn spec_desc(&self) -> Seq<char> {
        match self {
            Location::Forest => "Ooh mystical"@,
            Location::Mountains => "The goats bite..."@,
            Location::Cave => "Spooky"@,
        }
    }

    /// The name of the key that opens the location: the location's name
    /// followed by ` Key`.
    pub open spec fn spec_key_name(&self) -> Seq<char> {
        self.spec_name() + " Key"@
    }

    /// The name of the key that opens the location.
    pub fn key_name(&self) -> (r: String)
        ensures
            r@ == self.spec_key_name(),
    {
        let mut r = self.name().to_owned();
        r.append(" Key");
        r
    }

    /// Whether a key is needed to travel here. Only the forest is open.
    pub fn req_key(&self) -> (r: bool)
        ensures
            r == (*self != Location::Forest),
    {
        !matches!(self, Self::Forest)
    }

    /// The name of the location.
    pub fn name(&self) -> (r: &'static str)
        ensures
            r@ == self.spec_name(),
    {
        match self {
            Self::Forest => "Forest",
            Self::Mountains => "Mountains",
            Self::Cave => "Cave",
        }
    }
}

/// A place: a location with the name and description shown for it.
pub struct Place {
    pub name: String,
    pub location: Location,
    pub desc: String,
}

impl Place {
    /// The place at `location`, under the location's name.
    pub fn new(location: Location) -> (r: Self)
        ensures
            r.location == location,
            r.name@ == location.spec_name(),
            r.desc@ == location.spec_desc(),
    {
        match location {
            Location::Forest => Self::build(location, "Ooh mystical"),
            Location::Mountains => Self::build(location, "The goats bite..."),
            Location::Cave => Self::build(location, "Spooky"),
        }
    }

    fn build(location: Location, desc: &'static str) -> (r: Self)
        ensures
            r.location == location,
            r.name@ == location.spec_name(),
            r.desc@ == desc@,
    {
        Self { name: location.name().to_owned(), location, desc: desc.to_owned() }
    }

    /// Every location of the world, in the order they are offered.
    pub fn get_registered() -> (r: Vec<Location>)
        ensures
            r@ == seq![Location::Forest, Location::Mountains, Location::Cave],
    {
        vec![Location::Forest, Location::Mountains, Location::Cave]
    }

    /// Who can be met at this place, each with a relative weight: a common,
    /// an uncommon and a rare entity, all at full health.
    pub fn get_entities(&self) -> (r: Vec<(Entity, u32)>)
        ensures
            entities_view(r@) == entity_table(self.location),
    {
        let r = match self.location {
            Location::Forest => vec![
                (Entity::new("Goblin", 75, (5, 15)), 50),
                (Entity::new("Elf", 100, (10, 20)), 45),
                (Entity::new("Mud Wizard", 120, (20, 45)), 5),
            ],
            Location::Mountains => vec![
                (Entity::new("Goat", 95, (15, 25)), 50),
                (Entity::new("Snowman", 110, (20, 35)), 45),
                (Entity::new("Yeti", 175, (30, 55)), 5),
            ],
            Location::Cave => vec![
                (Entity::new("Spider", 110, (20, 30)), 50),
                (Entity::new("Dweller", 125, (25, 45)), 45),
                (Entity::new("Stalactite Golem", 200, (40, 65)), 5),
            ],
        };
        assert(entities_view(r@) =~= entity_table(self.location));
        r
    }

    /// What can be found at this place: the shared drops, then the place's own.
    pub fn get_drops(&self) -> (r: Drops)
        ensures
            drops_view(r@) == drop_table(self.location),
    {
        let mut list = Item::get_base_drops();
        let mut exclusives = match self.location {
            Location::Forest => vec![
                (
                    Item::new(
                        "Wooden Sword",
                        "Give your enemies splinters",
                        ItemType::Weapon { damage: 35 },
                    ),
                    25,
                    false,
                ),
                (
                    Item::new(
                        "Wooden Armor",
                        "May occasionally give you splinters",
                        ItemType::Armor { reduction: 25 },
                    ),
                    10,
                    false,
                ),
                (Item::new("Mountains Key", "Unlocks the mountains", ItemType::Key), 5, false),
            ],
            Location::Mountains => vec![
                (Item::new("Iron Sword", "Very pointy", ItemType::Weapon { damage: 50 }), 25, false),
                (Item::new("Iron Armor", "Tough stuff", ItemType::Armor { reduction: 40 }), 10, false),
                (Item::new("Cave Key", "Unlocks the cave", ItemType::Key), 5, false),
            ],
            Location::Cave => vec![
                (Item::new("Blessed Sword", "Hallelujah", ItemType::Weapon { damage: 60 }), 25, false),
                (
                    Item::new(
                        "Blessed Armor",
                        "Legends say an angel kissed this",
                        ItemType::Armor { reduction: 55 },
                    ),
                    15,
                    false,
                ),
            ],
        };
        assert(drops_view(exclusives@) =~= exclusive_drop_table(self.location));
        let ghost base = list@;
        let ghost own = exclusives@;
        list.append(&mut exclusives);
        assert(drops_view(base + own) =~= drops_view(base) + drops_view(own));
        list
    }
}

/// The entries of a list of weighted entities as plain values.
pub open spec fn entities_view(pool: Seq<(Entity, u32)>) -> Seq<(EntityView, u32)> {
    Seq::new(pool.len(), |i: int| (pool[i].0@, pool[i].1))
}

/// One entry of an entity table: a fresh entity and its weight.
pub open spec fn entity_row(name: Seq<char>, max_health: u16, damage: (u16, u16), weight: u32) -> (
    EntityView,
    u32,
) {
    (EntityView { name, max_health, cur_health: max_health, damage }, weight)
}

/// Who can be met at a location.
pub open spec fn entity_table(location: Location) -> Seq<(EntityView, u32)> {
    match location {
        Location::Forest => seq![
            entity_row("Goblin"@, 75, (5, 15), 50),
            entity_row("Elf"@, 100, (10, 20), 45),
            entity_row("Mud Wizard"@, 120, (20, 45), 5),
        ],
        Location::Mountains => seq![
            entity_row("Goat"@, 95, (15, 25), 50),
            entity_row("Snowman"@, 110, (20, 35), 45),
            entity_row("Yeti"@, 175, (30, 55), 5),
        ],
        Location::Cave => seq![
            entity_row("Spider"@, 110, (20, 30), 50),
            entity_row("Dweller"@, 125, (25, 45), 45),
            entity_row("Stalactite Golem"@, 200, (40, 65), 5),
        ],
    }
}

/// The weights of an entity table, in the order of its entries.
pub open spec fn entity_weights(table: Seq<(EntityView, u32)>) -> Seq<u32> {
    Seq::new(table.len(), |i: int| table[i].1)
}

/// The drops that only one location has.
pub open spec fn exclusive_drop_table(location: Location) -> Seq<(ItemView, u32, bool)> {
    match location {
        Location::Forest => seq![
            drop_row(
                "Wooden Sword"@,
                "Give your enemies splinters"@,
                ItemType::Weapon { damage: 35 },
                25,
                false,
            ),
            drop_row(
                "Wooden Armor"@,
                "May occasionally give you splinters"@,
                ItemType::Armor { reduction: 25 },
                10,
                false,
            ),
            drop_row("Mountains Key"@, "Unlocks the mountains"@, ItemType::Key, 5, false),
        ],
        Location::Mountains => seq![
            drop_row("Iron Sword"@, "Very pointy"@, ItemType::Weapon { damage: 50 }, 25, false),
            drop_row("Iron Armor"@, "Tough stuff"@, ItemType::Armor { reduction: 40 }, 10, false),
            drop_row("Cave Key"@, "Unlocks the cave"@, ItemType::Key, 5, false),
        ],
        Location::Cave => seq![
            drop_row("Blessed Sword"@, "Hallelujah"@, ItemType::Weapon { damage: 60 }, 25, false),
            drop_row(
                "Blessed Armor"@,
                "Legends say an angel kissed this"@,
                ItemType::Armor { reduction: 55 },
                15,
                false,
            ),
        ],
    }
}

/// Everything that can be found at a location: the shared drops, then its own.
pub open spec fn drop_table(location: Location) -> Seq<(ItemView, u32, bool)> {
    base_drop_table() + exclusive_drop_table(location)
}

/// The keys among the drops are the keys that open the mountains and the cave.
pub proof fn lemma_key_names()
    ensures
        Location::Mountains.spec_key_name() == "Mountains Key"@,
        Location::Cave.spec_key_name() == "Cave Key"@,
{
    reveal_strlit("Mountains");
    reveal_strlit("Cave");
    reveal_strlit(" Key");
    reveal_strlit("Mountains Key");
    reveal_strlit("Cave Key");
    assert("Mountains"@ + " Key"@ =~= "Mountains Key"@);
    assert("Cave"@ + " Key"@ =~= "Cave Key"@);
}

/// At every location the weights of the entities add up to 100: 50 for the
/// common one, 45 for the uncommon one and 5 for the rare one.
pub proof fn lemma_entity_weights(location: Location)
    ensures
        entity_weights(entity_table(location)) == seq![50u32, 45u32, 5u32],
        total_weight(entity_weights(entity_table(location))) == 100,
{
    let w = entity_weights(entity_table(location));
    assert(w == Seq::<u32>::empty().push(50).push(45).push(5));
    lemma_total_push(Seq::<u32>::empty(), 50);
    lemma_total_push(Seq::<u32>::empty().push(50), 45);
    lemma_total_push(Seq::<u32>::empty().push(50).push(45), 5);
}

/// At every location the weights of all drops add up to 100: 60 for the
/// shared drops and 40 for the location's own.
pub proof fn lemma_drop_weights(location: Location)
    ensures
        total_weight(drop_weights(exclusive_drop_table(location))) == 40,
        total_weight(drop_weights(drop_table(location))) == 100,
{
    let own = drop_weights(exclusive_drop_table(location));
    match location {
        Location::Cave => {
            assert(own == Seq::<u32>::empty().push(25).push(15));
            lemma_total_push(Seq::<u32>::empty(), 25);
            lemma_total_push(Seq::<u32>::empty().push(25), 15);
        },
        _ => {
            assert(own == Seq::<u32>::empty().push(25).push(10).push(5));
            lemma_total_push(Seq::<u32>::empty(), 25);
            lemma_total_push(Seq::<u32>::empty().push(25), 10);
            lemma_total_push(Seq::<u32>::empty().push(25).push(10), 5);
        },
    }
    lemma_base_drop_total();
    lemma_total_concat(drop_weights(base_drop_table()), own);
    assert(drop_weights(drop_table(location)) == drop_weights(base_drop_table()) + own);
}

} // verus!
