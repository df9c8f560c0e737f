use vstd::prelude::*;

use crate::json::{get_json_str, get_str, json_bool, json_get, json_str, Json};
use crate::map_error::MapError;
use crate::support::str_eq;

verus! {

/// Which layers of the SVG drawing hold what, and how the drawing is
/// labelled (the part of the map's "svg config" read as text and flags).
pub struct LayerInfo {
    pub land_layer: String,
    pub island_layer: String,
    pub island_fill_layer: String,
    pub sea_layer: String,
    pub names_layer: String,
    pub centers_layer: String,
    pub units_layer: Option<String>,
    pub phantom_primary_armies_layer: String,
    pub phantom_retreat_armies_layer: String,
    pub phantom_primary_fleets_layer: String,
    pub phantom_retreat_fleets_layer: String,
    pub province_labels: bool,
    pub unit_labels: bool,
    pub center_labels: bool,
    pub unit_type_labeled: bool,
    pub neutral: String,
    pub neutral_sc: String,
}

/// A flag of the configuration: `false` unless present as a boolean.
pub open spec fn config_flag(layers: Json, key: Seq<char>) -> bool {
    match json_get(layers, key) {
        Some(v) => match json_bool(v) {
            Some(b) => b,
            None => false,
        },
        None => false,
    }
}

/// The first entry the layer configuration lacks (as text), in the order
/// they are read; "starting_units" only when present and not text.
pub open spec fn layer_config_error(layers: Json) -> Option<Seq<char>> {
    if get_str(layers, "land_layer"@) is None {
        Some("land_layer"@)
    } else if get_str(layers, "island_borders"@) is None {
        Some("island_borders"@)
    } else if get_str(layers, "island_fill_layer"@) is None {
        Some("island_fill_layer"@)
    } else if get_str(layers, "sea_borders"@) is None {
        Some("sea_borders"@)
    } else if get_str(layers, "province_names"@) is None {
        Some("province_names"@)
    } else if get_str(layers, "supply_center_icons"@) is None {
        Some("supply_center_icons"@)
    } else if json_get(layers, "starting_units"@) is Some && get_str(layers, "starting_units"@) is None {
        Some("starting_units"@)
    } else if get_str(layers, "army"@) is None {
        Some("army"@)
    } else if get_str(layers, "retreat_army"@) is None {
        Some("retreat_army"@)
    } else if get_str(layers, "fleet"@) is None {
        Some("fleet"@)
    } else if get_str(layers, "retreat_fleet"@) is None {
        Some("retreat_fleet"@)
    } else if get_str(layers, "neutral"@) is None {
        Some("neutral"@)
    } else if get_str(layers, "neutral_sc"@) is None {
        Some("neutral_sc"@)
    } else {
        None
    }
}

/// The text of a configuration entry known to be present.
pub open spec fn config_text(layers: Json, key: Seq<char>) -> Seq<char> {
    get_str(layers, key).unwrap()
}

fn config_flag_exec(layers: &Json, key: &str) -> (res: bool)
    ensures
        res == config_flag(*layers, key@),
{
    match layers.get(key) {
        Some(v) => match v.as_bool() {
            Some(b) => b,
            None => false,
        },
        None => false,
    }
}

fn required_text(layers: &Json, key: &str) -> (res: Result<String, MapError>)
    ensures
        match res {
            Ok(s) => get_str(*layers, key@) == Some(s@),
            Err(e) => get_str(*layers, key@) is None && e is Config && e->Config_0@ == key@,
        },
{
    match get_json_str(layers, key) {
        Some(s) => Ok(String::from_str(s)),
        None => Err(MapError::Config(String::from_str(key))),
    }
}

/// Whether a layer configuration is the one `layers` describes (see
/// `LayerInfo::new`).
pub open spec fn layer_info_from(li: LayerInfo, layers: Json) -> bool {
    &&& li.land_layer@ == config_text(layers, "land_layer"@)
    &&& li.island_layer@ == config_text(layers, "island_borders"@)
    &&& li.island_fill_layer@ == config_text(layers, "island_fill_layer"@)
    &&& li.sea_layer@ == config_text(layers, "sea_borders"@)
    &&& li.names_layer@ == config_text(layers, "province_names"@)
    &&& li.centers_layer@ == config_text(layers, "supply_center_icons"@)
    &&& match li.units_layer {
        Some(u) => get_str(layers, "starting_units"@) == Some(u@),
        None => json_get(layers, "starting_units"@) is None,
    }
    &&& li.phantom_primary_armies_layer@ == config_text(layers, "army"@)
    &&& li.phantom_retreat_armies_layer@ == config_text(layers, "retreat_army"@)
    &&& li.phantom_primary_fleets_layer@ == config_text(layers, "fleet"@)
    &&& li.phantom_retreat_fleets_layer@ == config_text(layers, "retreat_fleet"@)
    &&& li.neutral@ == config_text(layers, "neutral"@)
    &&& li.neutral_sc@ == config_text(layers, "neutral_sc"@)
    &&& li.province_labels == config_flag(layers, "province_labels"@)
    &&& li.center_labels == config_flag(layers, "center_labels"@)
    &&& li.unit_labels == config_flag(layers, "unit_labels"@)
    &&& li.unit_type_labeled == config_flag(layers, "unit_type_labeled"@)
}

impl LayerInfo {
    /// Reads the layer configuration. Fails with the first entry it lacks
    /// (see `layer_config_error`); the flags default to `false`.
    pub fn new(layers: &Json) -> (res: Result<LayerInfo, MapError>)
        ensures
            match res {
                Err(e) => layer_config_error(*layers) is Some && e is Config && e->Config_0@
                    == layer_config_error(*layers).unwrap(),
                Ok(li) => layer_config_error(*layers) is None && layer_info_from(li, *layers),
            },
    {
        let province_labels = config_flag_exec(layers, "province_labels");
        let center_labels = config_flag_exec(layers, "center_labels");
        let unit_labels = config_flag_exec(layers, "unit_labels");
        let unit_type_labeled = config_flag_exec(layers, "unit_type_labeled");
        let land_layer = required_text(layers, "land_layer")?;
        let island_layer = required_text(layers, "island_borders")?;
        let island_fill_layer = required_text(layers, "island_fill_layer")?;
        let sea_layer = required_text(layers, "sea_borders")?;
        let names_layer = required_text(layers, "province_names")?;
        let centers_layer = required_text(layers, "supply_center_icons")?;
        let units_layer = match layers.get("starting_units") {
            Some(v) => match v.as_str() {
                Some(s) => Some(String::from_str(s)),
                None => {
                    return Err(MapError::Config(String::from_str("starting_units")));
                },
            },
            None => None,
        };
        let phantom_primary_armies_layer = required_text(layers, "army")?;
        let phantom_retreat_armies_layer = required_text(layers, "retreat_army")?;
        let phantom_primary_fleets_layer = required_text(layers, "fleet")?;
        let phantom_retreat_fleets_layer = required_text(layers, "retreat_fleet")?;
        let neutral = required_text(layers, "neutral")?;
        let neutral_sc = required_text(layers, "neutral_sc")?;
        Ok(LayerInfo {
            land_layer,
            island_layer,
            island_fill_layer,
            sea_layer,
            names_layer,
            centers_layer,
            units_layer,
            phantom_primary_armies_layer,
            phantom_retreat_armies_layer,
            phantom_primary_fleets_layer,
            phantom_retreat_fleets_layer,
            province_labels,
            unit_labels,
            center_labels,
            unit_type_labeled,
            neutral,
            neutral_sc,
        })
    }
}


/// The layers of the SVG drawing the map parser knows.
#[derive(Debug, Clone, Copy, PartialEq, Eq, Structural)]
pub enum Layer {
    /// Any other group.
    Unknown,
    LandLayer,
    IslandLayer,
    IslandFillLayer,
    SeaLayer,
    NamesLayer,
    CentersLayer,
    UnitsLayer,
    PhantomPrimaryArmiesLayer,
    PhantomRetreatArmiesLayer,
    PhantomPrimaryFleetsLayer,
    PhantomRetreatFleetsLayer,
}

/// The layer a group id names: the first configured layer with that id, in
/// the order land, island, island fill, sea, names, centres, primary
/// armies, retreat armies, primary fleets, retreat fleets, units; `Unknown`
/// for any other id.
pub open spec fn spec_match_id(li: LayerInfo, id: Seq<char>) -> Layer {
    if id == li.land_layer@ {
        Layer::LandLayer
    } else if id == li.island_layer@ {
        Layer::IslandLayer
    } else if id == li.island_fill_layer@ {
        Layer::IslandFillLayer
    } else if id == li.sea_layer@ {
        Layer::SeaLayer
    } else if id == li.names_layer@ {
        Layer::NamesLayer
    } else if id == li.centers_layer@ {
        Layer::CentersLayer
    } else if id == li.phantom_primary_armies_layer@ {
        Layer::PhantomPrimaryArmiesLayer
    } else if id == li.phantom_retreat_armies_layer@ {
        Layer::PhantomRetreatArmiesLayer
    } else if id == li.phantom_primary_fleets_layer@ {
        Layer::PhantomPrimaryFleetsLayer
    } else if id == li.phantom_retreat_fleets_layer@ {
        Layer::PhantomRetreatFleetsLayer
    } else if li.units_layer is Some && id == li.units_layer.unwrap()@ {
        Layer::UnitsLayer
    } else {
        Layer::Unknown
    }
}

/// The group ids a layer configuration names, other than the optional
/// starting-units layer: land, island, island fill, sea, names, centres,
/// primary armies, retreat armies, primary fleets, retreat fleets.
pub open spec fn configured_ids(li: LayerInfo) -> Seq<Seq<char>> {
    seq![
        li.land_layer@,
        li.island_layer@,
        li.island_fill_layer@,
        li.sea_layer@,
        li.names_layer@,
        li.centers_layer@,
        li.phantom_primary_armies_layer@,
        li.phantom_retreat_armies_layer@,
        li.phantom_primary_fleets_layer@,
        li.phantom_retreat_fleets_layer@,
    ]
}

/// When the configured ids differ from each other (and the starting-units
/// id from all of them), each id is matched to the layer it is configured
/// for, and any other id to no layer.
pub proof fn lemma_match_id_finds_configured_layer(li: LayerInfo, other: Seq<char>)
    requires
        configured_ids(li).no_duplicates(),
        li.units_layer is Some ==> !configured_ids(li).contains(li.units_layer.unwrap()@),
        !configured_ids(li).contains(other),
        li.units_layer is Some ==> other != li.units_layer.unwrap()@,
    ensures
        spec_match_id(li, li.land_layer@) == Layer::LandLayer,
        spec_match_id(li, li.island_layer@) == Layer::IslandLayer,
        spec_match_id(li, li.island_fill_layer@) == Layer::IslandFillLayer,
        spec_match_id(li, li.sea_layer@) == Layer::SeaLayer,
        spec_match_id(li, li.names_layer@) == Layer::NamesLayer,
        spec_match_id(li, li.centers_layer@) == Layer::CentersLayer,
        spec_match_id(li, li.phantom_primary_armies_layer@) == Layer::PhantomPrimaryArmiesLayer,
        spec_match_id(li, li.phantom_retreat_armies_layer@) == Layer::PhantomRetreatArmiesLayer,
        spec_match_id(li, li.phantom_primary_fleets_layer@) == Layer::PhantomPrimaryFleetsLayer,
        spec_match_id(li, li.phantom_retreat_fleets_layer@) == Layer::PhantomRetreatFleetsLayer,
        li.units_layer is Some ==> spec_match_id(li, li.units_layer.unwrap()@) == Layer::UnitsLayer,
        spec_match_id(li, other) == Layer::Unknown,
{
    let ids = configured_ids(li);
    assert forall|i: int, j: int| 0 <= i < 10 && 0 <= j < 10 && i != j implies ids[i] != ids[j] by {
        assert(ids.no_duplicates());
    }
    assert(ids[0] == li.land_layer@);
    assert(ids[1] == li.island_layer@);
    assert(ids[2] == li.island_fill_layer@);
    assert(ids[3] == li.sea_layer@);
    assert(ids[4] == li.names_layer@);
    assert(ids[5] == li.centers_layer@);
    assert(ids[6] == li.phantom_primary_armies_layer@);
    assert(ids[7] == li.phantom_retreat_armies_layer@);
    assert(ids[8] == li.phantom_primary_fleets_layer@);
    assert(ids[9] == li.phantom_retreat_fleets_layer@);
    if li.units_layer is Some {
        let u = li.units_layer.unwrap()@;
        assert forall|i: int| 0 <= i < 10 implies ids[i] != u by {
            if ids[i] == u {
                assert(ids.contains(u));
            }
        }
    }
    assert forall|i: int| 0 <= i < 10 implies ids[i] != other by {
        if ids[i] == other {
            assert(ids.contains(other));
        }
    }
}

impl LayerInfo {
    /// The layer a group id names (see `spec_match_id`).
    pub fn match_id(&self, id: &str) -> (res: Layer)
        ensures
            res == spec_match_id(*self, id@),
    {
        if str_eq(id, self.land_layer.as_str()) {
            Layer::LandLayer
        } else if str_eq(id, self.island_layer.as_str()) {
            Layer::IslandLayer
        } else if str_eq(id, self.island_fill_layer.as_str()) {
            Layer::IslandFillLayer
        } else if str_eq(id, self.sea_layer.as_str()) {
            Layer::SeaLayer
        } else if str_eq(id, self.names_layer.as_str()) {
            Layer::NamesLayer
        } else if str_eq(id, self.centers_layer.as_str()) {
            Layer::CentersLayer
        } else if str_eq(id, self.phantom_primary_armies_layer.as_str()) {
            Layer::PhantomPrimaryArmiesLayer
        } else if str_eq(id, self.phantom_retreat_armies_layer.as_str()) {
            Layer::PhantomRetreatArmiesLayer
        } else if str_eq(id, self.phantom_primary_fleets_layer.as_str()) {
            Layer::PhantomPrimaryFleetsLayer
        } else if str_eq(id, self.phantom_retreat_fleets_layer.as_str()) {
            Layer::PhantomRetreatFleetsLayer
        } else {
            match &self.units_layer {
                Some(u) => if str_eq(id, u.as_str()) {
                    Layer::UnitsLayer
                } else {
                    Layer::Unknown
                },
                None => Layer::Unknown,
            }
        }
    }
}

} // verus!
