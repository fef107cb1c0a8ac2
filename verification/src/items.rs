//! Items, what they do when used, and the tables that award them.

use crate::errors::GameError;
use crate::player::{healed, removed, Player};
use crate::utilities::math::{lemma_total_push, pickable, pool_weights, total_weight, weigh_vec};
use vstd::prelude::*;
use vstd::std_specs::cmp::PartialEqSpecImpl;

verus! {

/// What a special item does to the player who uses it.
#[derive(Clone, Copy, Debug, PartialEq, Eq, Structural)]
pub enum Effect {
    /// Raises maximum health by `amount` and heals by the same amount.
    IncreaseMaxHealthAndHeal { amount: u16 },
    /// Raises the experience multiplier by `tenths` tenths.
    IncreaseXpMultiplier { tenths: u32 },
}

/// The kind of an item, with the numbers that belong to the kind.
#[derive(Clone, Copy, Debug, PartialEq, Eq, Structural)]
pub enum ItemType {
    Weapon { damage: u16 },
    Healer { amount: u16 },
    /// `reduction` is the share of a hit that the armor absorbs, in
    /// hundredths; anything above 100 absorbs the whole hit.
    Armor { reduction: u16 },
    Key,
    Special { effect: Effect },
}

impl ItemType {
    /// The name of the kind, as it is shown.
    pub open spec fn spec_label(&self) -> Seq<char> {
        match self {
            ItemType::Weapon { .. } => "Weapon"@,
            ItemType::Healer { .. } => "Healer"@,
            ItemType::Armor { .. } => "Armor"@,
            ItemType::Key => "Key"@,
            ItemType::Special { .. } => "Special"@,
        }
    }

    /// The name of the kind, as it is shown.
    pub fn label(&self) -> (r: &'static str)
        ensures
            r@ == self.spec_label(),
    {
        match self {
            ItemType::Weapon { .. } => "Weapon",
            ItemType::Healer { .. } => "Healer",
            ItemType::Armor { .. } => "Armor",
            ItemType::Key => "Key",
            ItemType::Special { .. } => "Special",
        }
    }
}

/// An item: a name, a description and a kind. Two items are the same item
/// when all three agree.
#[derive(Debug)]
pub struct Item {
    pub name: String,
    pub desc: String,
    pub item_type: ItemType,
}

/// What an item is, as plain values.
pub struct ItemView {
    pub name: Seq<char>,
    pub desc: Seq<char>,
    pub item_type: ItemType,
}

impl View for Item {
    type V = ItemView;

    open spec fn view(&self) -> ItemView {
        ItemView { name: self.name@, desc: self.desc@, item_type: self.item_type }
    }
}

impl Clone for Item {
    fn clone(&self) -> (r: Self)
        ensures
            r == *self,
    {
        Item { name: self.name.clone(), desc: self.desc.clone(), item_type: self.item_type }
    }
}

impl PartialEq for Item {
    fn eq(&self, other: &Self) -> (r: bool) {
        self.name == other.name && self.desc == other.desc && self.item_type == other.item_type
    }
}

impl PartialEqSpecImpl for Item {
    open spec fn obeys_eq_spec() -> bool {
        true
    }

    open spec fn eq_spec(&self, other: &Self) -> bool {
        self@ == other@
    }
}

/// Rows of a drop table: an item, its relative weight, and whether a player
/// who already has an item of that name may get another.
pub type Drops = Vec<(Item, u32, bool)>;

impl Item {
    /// Makes an item from its three parts.
    pub fn new(name: &str, desc: &str, item_type: ItemType) -> (r: Self)
        ensures
            r@ == (ItemView { name: name@, desc: desc@, item_type }),
    {
        Self { name: name.to_owned(), desc: desc.to_owned(), item_type }
    }

    /// The drops that every place shares. Their weights add up to 60, which
    /// leaves 40 for what a place adds of its own.
    pub fn get_base_drops() -> (r: Drops)
        ensures
            drops_view(r@) == base_drop_table(),
    {
        let r = vec![
            (Item::new("Apple", "Crunchy :3", ItemType::Healer { amount: 25 }), 39, true),
            (
                Item::new(
                    "Fairy Milk Bottle",
                    "The source? You're asking too many questions...",
                    ItemType::Healer { amount: 40 },
                ),
                10,
                true,
            ),
            (
                Item::new(
                    "Magic Tea",
                    "Increases max HP +15 and heals by the same amount",
                    ItemType::Special { effect: Effect::IncreaseMaxHealthAndHeal { amount: 15 } },
                ),
                5,
                true,
            ),
            (
                Item::new(
                    "XP Potion",
                    "Increases XP gain +10%",
                    ItemType::Special { effect: Effect::IncreaseXpMultiplier { tenths: 1 } },
                ),
                5,
                true,
            ),
            (Item::new("Tranquility Stone", "Meditate instantly", ItemType::Key), 1, false),
        ];
        assert(drops_view(r@) =~= base_drop_table());
        r
    }

    /// The rows of a drop table that may be awarded to the player, each
    /// with its weight and in the table's order: a row that forbids
    /// duplicates is left out when the player has an item of its name.
    pub fn eligible_drops(drops: &Drops, plr: &Player) -> (r: Vec<(Item, u32)>)
        ensures
            pool_view(r@) == eligible(drops_view(drops@), plr.owned()),
    {
        let ghost table = drops_view(drops@);
        let mut pool: Vec<(Item, u32)> = Vec::new();
        let mut i: usize = 0;
        while i < drops.len()
            invariant
                i <= drops@.len(),
                table == drops_view(drops@),
                pool_view(pool@) == eligible(table.take(i as int), plr.owned()),
            decreases drops@.len() - i,
        {
            let can_dupe: bool = drops[i].2;
            assert(table.take(i + 1).drop_last() == table.take(i as int));
            if can_dupe || !plr.has_item(drops[i].0.name.as_str()) {
                pool.push((drops[i].0.clone(), drops[i].1));
            }
            i += 1;
        }
        assert(table.take(i as int) == table);
        pool
    }

    /// Rolls one drop for the player: one of the rows that may be awarded
    /// to the player is picked by weight. Gives `None` exactly when no pick
    /// can be made from those rows.
    pub fn roll_drop(drops: Drops, plr: &Player) -> (r: Option<Item>)
        ensures
            r is Some <==> can_drop(drops_view(drops@), plr.owned()),
            r matches Some(item) ==> offered(drops_view(drops@), plr.owned(), item@),
    {
        let ghost table = drops_view(drops@);
        let pool = Self::eligible_drops(&drops, plr);
        assert(pool_weights(pool@) == entry_weights(pool_view(pool@)));
        let r = weigh_vec(pool);
        proof {
            if r is Some {
                let item = r->0;
                let k = choose|k: int|
                    0 <= k < pool@.len() && (#[trigger] pool@[k]).1 > 0 && item == pool@[k].0;
                lemma_eligible_rows(table, plr.owned());
                assert(pool_view(pool@)[k] == (item@, pool@[k].1));
                assert(stems_from(table, plr.owned(), eligible(table, plr.owned())[k]));
            }
        }
        r
    }

    /// The player's numbers leave room for what this item does when used.
    pub open spec fn fits(&self, plr: &Player) -> bool {
        match self.item_type {
            ItemType::Special { effect: Effect::IncreaseMaxHealthAndHeal { amount } } => plr.max_health
                + amount <= u16::MAX,
            ItemType::Special { effect: Effect::IncreaseXpMultiplier { tenths } } => plr.xp_multiplier
                + tenths <= u32::MAX,
            _ => true,
        }
    }

    /// Whether the player's numbers leave room for what this item does when used.
    pub fn fits_player(&self, plr: &Player) -> (r: bool)
        ensures
            r == self.fits(plr),
    {
        match self.item_type {
            ItemType::Special { effect: Effect::IncreaseMaxHealthAndHeal { amount } } => plr.max_health
                <= u16::MAX - amount,
            ItemType::Special { effect: Effect::IncreaseXpMultiplier { tenths } } => plr.xp_multiplier
                <= u32::MAX - tenths,
            _ => true,
        }
    }

    /// Uses the item on the player and takes one out of the inventory row
    /// at `loc`. A healer heals by its amount, a special item has its
    /// effect. Any other kind is refused: nothing changes and nothing
    /// leaves the inventory.
    pub fn use_item(&self, plr: &mut Player, loc: usize) -> (r: Result<(), GameError>)
        requires
            old(plr).cur_health <= old(plr).max_health,
            self.fits(old(plr)),
        ensures
            used(self.item_type, *old(plr), *final(plr), loc as int, r),
            old(plr).wf() ==> final(plr).wf(),
    {
        match self.item_type {
            ItemType::Healer { amount } => {
                plr.heal(amount);
            },
            ItemType::Special { effect } => match effect {
                Effect::IncreaseMaxHealthAndHeal { amount } => {
                    plr.max_health = plr.max_health + amount;
                    plr.heal(amount);
                },
                Effect::IncreaseXpMultiplier { tenths } => {
                    plr.xp_multiplier = plr.xp_multiplier + tenths;
                },
            },
            _ => {
                return Err(GameError::InvalidUse);
            },
        }
        plr.remove_from_inventory(loc, 1);
        Ok(())
    }
}

/// The player `after` is the player `before` after an item of this kind
/// was used and one was taken from the inventory row at `loc`, and `r` is
/// what the use reports.
pub open spec fn used(
    item_type: ItemType,
    before: Player,
    after: Player,
    loc: int,
    r: Result<(), GameError>,
) -> bool {
    match item_type {
        ItemType::Healer { amount } => {
            &&& r is Ok
            &&& after.cur_health == healed(before.cur_health, before.max_health, amount)
            &&& after.inventory@ == removed(before.inventory@, loc, 1)
            &&& after == (Player {
                cur_health: after.cur_health,
                inventory: after.inventory,
                ..before
            })
        },
        ItemType::Special { effect: Effect::IncreaseMaxHealthAndHeal { amount } } => {
            &&& r is Ok
            &&& after.max_health == before.max_health + amount
            &&& after.cur_health == before.cur_health + amount
            &&& after.inventory@ == removed(before.inventory@, loc, 1)
            &&& after == (Player {
                max_health: after.max_health,
                cur_health: after.cur_health,
                inventory: after.inventory,
                ..before
            })
        },
        ItemType::Special { effect: Effect::IncreaseXpMultiplier { tenths } } => {
            &&& r is Ok
            &&& after.xp_multiplier == before.xp_multiplier + tenths
            &&& after.inventory@ == removed(before.inventory@, loc, 1)
            &&& after == (Player {
                xp_multiplier: after.xp_multiplier,
                inventory: after.inventory,
                ..before
            })
        },
        _ => r == Err::<(), GameError>(GameError::InvalidUse) && after == before,
    }
}

/// The rows of a drop table as plain values.
pub open spec fn drops_view(drops: Seq<(Item, u32, bool)>) -> Seq<(ItemView, u32, bool)> {
    Seq::new(drops.len(), |i: int| (drops[i].0@, drops[i].1, drops[i].2))
}

/// One row of a drop table, as plain values.
pub open spec fn drop_row(
    name: Seq<char>,
    desc: Seq<char>,
    item_type: ItemType,
    weight: u32,
    dupes: bool,
) -> (ItemView, u32, bool) {
    (ItemView { name, desc, item_type }, weight, dupes)
}

/// The drops that every place shares.
pub open spec fn base_drop_table() -> Seq<(ItemView, u32, bool)> {
    seq![
        drop_row("Apple"@, "Crunchy :3"@, ItemType::Healer { amount: 25 }, 39, true),
        drop_row(
            "Fairy Milk Bottle"@,
            "The source? You're asking too many questions..."@,
            ItemType::Healer { amount: 40 },
            10,
            true,
        ),
        drop_row(
            "Magic Tea"@,
            "Increases max HP +15 and heals by the same amount"@,
            ItemType::Special { effect: Effect::IncreaseMaxHealthAndHeal { amount: 15 } },
            5,
            true,
        ),
        drop_row(
            "XP Potion"@,
            "Increases XP gain +10%"@,
            ItemType::Special { effect: Effect::IncreaseXpMultiplier { tenths: 1 } },
            5,
            true,
        ),
        drop_row("Tranquility Stone"@, "Meditate instantly"@, ItemType::Key, 1, false),
    ]
}

/// The weights of a drop table, in the order of its rows.
pub open spec fn drop_weights(table: Seq<(ItemView, u32, bool)>) -> Seq<u32> {
    Seq::new(table.len(), |i: int| table[i].1)
}

/// The entries of a weighted list of items as plain values.
pub open spec fn pool_view(pool: Seq<(Item, u32)>) -> Seq<(ItemView, u32)> {
    Seq::new(pool.len(), |i: int| (pool[i].0@, pool[i].1))
}

/// The weights of a weighted list of items, in its order.
pub open spec fn entry_weights(entries: Seq<(ItemView, u32)>) -> Seq<u32> {
    Seq::new(entries.len(), |i: int| entries[i].1)
}

/// A row may be awarded to the player: it allows duplicates, or the player
/// has no item of its name, `owned` being the names the player has.
pub open spec fn may_drop(row: (ItemView, u32, bool), owned: Set<Seq<char>>) -> bool {
    row.2 || !owned.contains(row.0.name)
}

/// The rows of a drop table that may be awarded to the player, each with
/// its weight, in the table's order.
pub open spec fn eligible(table: Seq<(ItemView, u32, bool)>, owned: Set<Seq<char>>) -> Seq<(ItemView, u32)>
    decreases table.len(),
{
    if table.len() == 0 {
        Seq::empty()
    } else {
        let rest = eligible(table.drop_last(), owned);
        let row = table.last();
        if may_drop(row, owned) {
            rest.push((row.0, row.1))
        } else {
            rest
        }
    }
}

/// A drop can be rolled for the player: among the rows that may be awarded
/// there is a weight above zero, and their weights do not overflow.
pub open spec fn can_drop(table: Seq<(ItemView, u32, bool)>, owned: Set<Seq<char>>) -> bool {
    pickable(entry_weights(eligible(table, owned)))
}

/// The item is in a row of the table that has a weight above zero and may
/// be awarded to the player.
pub open spec fn offered(table: Seq<(ItemView, u32, bool)>, owned: Set<Seq<char>>, item: ItemView) -> bool {
    exists|j: int|
        0 <= j < table.len() && may_drop(#[trigger] table[j], owned) && table[j].0 == item
            && table[j].1 > 0
}

/// The entry is a row of the table that may be awarded, with its weight.
pub open spec fn stems_from(
    table: Seq<(ItemView, u32, bool)>,
    owned: Set<Seq<char>>,
    entry: (ItemView, u32),
) -> bool {
    exists|j: int|
        0 <= j < table.len() && may_drop(#[trigger] table[j], owned) && entry == (
            table[j].0,
            table[j].1,
        )
}

/// Every eligible row stems from a row of the table that may be awarded.
pub proof fn lemma_eligible_rows(table: Seq<(ItemView, u32, bool)>, owned: Set<Seq<char>>)
    ensures
        forall|k: int|
            0 <= k < eligible(table, owned).len() ==> stems_from(
                table,
                owned,
                #[trigger] eligible(table, owned)[k],
            ),
    decreases table.len(),
{
    if table.len() > 0 {
        let shorter = table.drop_last();
        lemma_eligible_rows(shorter, owned);
        let out = eligible(table, owned);
        assert forall|k: int| 0 <= k < out.len() implies stems_from(table, owned, #[trigger] out[k]) by {
            if k < eligible(shorter, owned).len() {
                assert(out[k] == eligible(shorter, owned)[k]);
                assert(stems_from(shorter, owned, eligible(shorter, owned)[k]));
                let j = choose|j: int|
                    0 <= j < shorter.len() && may_drop(#[trigger] shorter[j], owned) && out[k] == (
                        shorter[j].0,
                        shorter[j].1,
                    );
                assert(table[j] == shorter[j]);
            } else {
                let j = table.len() - 1;
                assert(may_drop(table[j], owned));
                assert(out[k] == (table[j].0, table[j].1));
            }
        }
    }
}

/// A player who has an item is never awarded another of its name from a
/// table whose rows of that name all forbid duplicates: no such row is
/// among those a drop is rolled from.
pub proof fn lemma_unique_held_excluded(
    table: Seq<(ItemView, u32, bool)>,
    owned: Set<Seq<char>>,
    name: Seq<char>,
)
    requires
        owned.contains(name),
        forall|j: int| 0 <= j < table.len() && (#[trigger] table[j]).0.name == name ==> !table[j].2,
    ensures
        forall|k: int|
            0 <= k < eligible(table, owned).len() ==> (#[trigger] eligible(table, owned)[k]).0.name
                != name,
        forall|item: ItemView| offered(table, owned, item) ==> item.name != name,
{
    lemma_eligible_rows(table, owned);
    assert forall|k: int| 0 <= k < eligible(table, owned).len() implies (#[trigger] eligible(
        table,
        owned,
    )[k]).0.name != name by {
        let entry = eligible(table, owned)[k];
        assert(stems_from(table, owned, entry));
    }
}

/// The weights of the shared drops add up to 60.
pub proof fn lemma_base_drop_total()
    ensures
        total_weight(drop_weights(base_drop_table())) == 60,
{
    let w = drop_weights(base_drop_table());
    assert(w == Seq::<u32>::empty().push(39).push(10).push(5).push(5).push(1));
    lemma_total_push(Seq::<u32>::empty(), 39);
    lemma_total_push(Seq::<u32>::empty().push(39), 10);
    lemma_total_push(Seq::<u32>::empty().push(39).push(10), 5);
    lemma_total_push(Seq::<u32>::empty().push(39).push(10).push(5), 5);
    lemma_total_push(Seq::<u32>::empty().push(39).push(10).push(5).push(5), 1);
}

} // verus!
