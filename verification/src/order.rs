use vstd::prelude::*;

use crate::province::Location;
use crate::unit::{Unit, UnitType};

verus! {

/// Any order of the game.
pub trait Order {
}

/// An order given to a unit.
pub trait UnitOrder {
}

/// An order that refers to a unit other than the one ordered.
pub trait ComplexOrder {
    fn get_source(&self) -> &Unit;
}

/// Orders that belong to a player rather than a unit: builds (the unit does
/// not exist yet) and, for the same reason, disbands.
pub enum PlayerOrder {
    Build(Location, UnitType),
    Disband(Location),
}

} // verus!
