//! What can go wrong in a game action. None of these ends the game: the
//! action that fails leaves the state as the contract of the action says.

use vstd::prelude::*;

verus! {

/// The ways a game action can fail.
#[derive(Clone, Copy, Debug, PartialEq, Eq, Structural)]
pub enum GameError {
    /// An item was used that is neither a healer nor a special item.
    InvalidUse,
    /// An item was equipped that is neither a weapon nor an armor.
    InvalidEquip,
    /// The player attacked while the weapon slot held something else than a weapon.
    NoWeapon,
    /// The armor slot held something else than an armor when a hit came in.
    MalformedArmor,
    /// The inventory has no row at the given position.
    MissingItem,
    /// The action is not among those offered for the item's kind.
    NotOffered,
}

} // verus!
