use std::sync::Arc;
use vstd::prelude::*;

use crate::player::PlayerInfo;
use crate::province::{CoastReference, ProvinceReference};

verus! {

/// The two kinds of units.
#[derive(Debug, Clone, Copy, PartialEq, Eq, Hash, Structural)]
pub enum UnitType {
    ARMY,
    FLEET,
}

/// A unit on the board: its kind, its owner, where it stands (province and,
/// for a fleet on a multi-coast province, coast), and, when it has been
/// dislodged, where it may retreat to.
#[derive(Debug)]
pub struct Unit {
    pub unit_type: UnitType,
    pub owner: Arc<PlayerInfo>,
    pub current_province: ProvinceReference,
    pub coast: Option<CoastReference>,
    /// `None` while not dislodged; `Some` (possibly empty) once dislodged.
    pub retreat_options: Option<Vec<ProvinceReference>>,
}

} // verus!
