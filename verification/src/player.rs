use std::sync::Arc;
use vstd::prelude::*;

use crate::order::PlayerOrder;
use crate::province::ProvinceReference;

verus! {

/// A power of the game as the map configuration defines it.
#[derive(Debug)]
pub struct PlayerInfo {
    pub name: String,
    pub color: String,
    /// Supply centres needed for victory.
    pub vscc: i64,
    /// Supply centres held at the start.
    pub iscc: i64,
}

impl PlayerInfo {
    /// A shared player description with the given fields.
    pub fn new(name: String, color: String, vscc: i64, iscc: i64) -> (res: Arc<PlayerInfo>)
        ensures
            res.name@ == name@,
            res.color@ == color@,
            res.vscc == vscc,
            res.iscc == iscc,
    {
        Arc::new(PlayerInfo { name, color, vscc, iscc })
    }
}

/// A power within one game: its description, the supply centres it
/// holds and its build orders.
pub struct Player {
    pub info: Arc<PlayerInfo>,
    centers: Vec<ProvinceReference>,
    build_orders: Vec<PlayerOrder>,
}

impl Player {
    /// A player holding the given centres, with no build orders yet. The
    /// initial centre count is part of `info` and does not change the
    /// centres held.
    pub fn new(info: Arc<PlayerInfo>, iscc: i64, centers: Vec<ProvinceReference>) -> (res: Player)
        ensures
            res.info() == info,
            res.centers() == centers@,
            res.build_orders().len() == 0,
    {
        Player { info, centers, build_orders: Vec::new() }
    }

    /// The player's description.
    pub closed spec fn info(&self) -> Arc<PlayerInfo> {
        self.info
    }

    /// The supply centres held.
    pub closed spec fn centers(&self) -> Seq<ProvinceReference> {
        self.centers@
    }

    /// The build orders given.
    pub closed spec fn build_orders(&self) -> Seq<PlayerOrder> {
        self.build_orders@
    }
}

} // verus!
