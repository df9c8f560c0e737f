use std::sync::Arc;
use vstd::prelude::*;

use crate::adjacency::{coasts_all, insert_all, insert_provinces, link_all, link_pairs, pair_views, set_all_coasts};
use crate::board::BoardInfo;
use crate::json::{get_json_str, get_str, json_get, json_i64, json_of_text, parse_json_text, Json};
use crate::overrides::{apply_overrides, json_cheats};
use crate::layers::{layer_config_error, layer_info_from, spec_match_id, Layer, LayerInfo};
use crate::map_error::{map_error_view, MapError, MapErrorView};
use crate::map_model::{
    bare_province, coast_models, coast_reference_key, depth_change, CoastModel, ReferenceKey, UnitModel, reference_keys, lemma_province_index, lemma_scan_close, lemma_province_index_at,
    lemma_province_index_update, lemma_scan_position, province_index, find_province, lemma_models_update, province_model, province_models, scan,
    MarkerModel, PlacementModel, ProvinceModel, ShapeModel,
};
use crate::path::{parse_path, spec_parse_path, steps_view, PathStep};
use crate::player::PlayerInfo;
use crate::province::{spec_reference_key, CoastReference, ProvinceInfo, ProvinceReference, ProvinceType};
use crate::support::{arc_clone, push_char, str_eq};
use crate::text::{ascii_lower_char, lower_char};
use crate::unit::{Unit, UnitType};
use crate::svg::{
    element_view, event_view, events_view, find_color, get_id, get_inkspace_label, get_player, player_result,
    get_attribute, required_attribute, spec_attribute, spec_required_attribute, ColorTable, ElementView, EventView, XmlElement,
    XmlEvent, INKSPACE_LABEL, SODIPODI_CX, SODIPODI_CY, SODIPODI_SIDES,
};
use crate::transform::{get_transform, transform_result, transform_view, TransformText, TransformView};

verus! {

/// The outline of a province as the drawing gives it, for the geometry
/// (computed outside this library): the province, the transforms of its
/// layer and of its own element, and the steps of its path.
#[derive(Debug)]
pub struct ProvinceShape {
    pub name: String,
    pub layer_transform: TransformText,
    pub transform: TransformText,
    pub path: Vec<PathStep>,
}

pub open spec fn shape_model(s: ProvinceShape) -> ShapeModel {
    ShapeModel {
        name: s.name@,
        layer_transform: transform_view(s.layer_transform),
        transform: transform_view(s.transform),
        path: steps_view(s.path@),
    }
}

pub open spec fn shape_models(v: Seq<ProvinceShape>) -> Seq<ShapeModel> {
    v.map_values(|s: ProvinceShape| shape_model(s))
}

/// The marker of a phantom unit: its centre (`sodipodi:cx`, `sodipodi:cy`)
/// as text, and its transform.
#[derive(Debug)]
pub struct UnitMarker {
    pub cx: String,
    pub cy: String,
    pub transform: TransformText,
}

pub open spec fn marker_model(m: UnitMarker) -> MarkerModel {
    MarkerModel { cx: m.cx@, cy: m.cy@, transform: transform_view(m.transform) }
}

/// Where the drawing puts the units of a province, or of one of its
/// coasts: the primary or the retreat slot, the transforms of the layer
/// and of the unit's group, and the marker (none: the origin).
#[derive(Debug)]
pub struct UnitPlacement {
    pub province: String,
    pub coast: Option<String>,
    pub retreat: bool,
    pub layer_transform: TransformText,
    pub group_transform: TransformText,
    pub marker: Option<UnitMarker>,
}

pub open spec fn placement_model(p: UnitPlacement) -> PlacementModel {
    PlacementModel {
        province: p.province@,
        coast: match p.coast {
            Some(c) => Some(c@),
            None => None,
        },
        retreat: p.retreat,
        layer_transform: transform_view(p.layer_transform),
        group_transform: transform_view(p.group_transform),
        marker: match p.marker {
            Some(m) => Some(marker_model(m)),
            None => None,
        },
    }
}

pub open spec fn placement_models(v: Seq<UnitPlacement>) -> Seq<PlacementModel> {
    v.map_values(|p: UnitPlacement| placement_model(p))
}

/// Reads a map: its configuration, then the events of its SVG drawing,
/// layer by layer, into province descriptions.
pub struct Parser {
    name: String,
    players: Vec<Arc<PlayerInfo>>,
    datafile: String,
    svg_file: String,
    color_to_player: ColorTable,
    name_to_province: Vec<ProvinceInfo>,
    layer_info: LayerInfo,
    overrides: Option<Json>,
    raw_provinces: Option<Vec<ProvinceInfo>>,
    shapes: Vec<ProvinceShape>,
    placements: Vec<UnitPlacement>,
    position: usize,
    depth: i64,
    layer: Layer,
    processed_layers: Vec<Layer>,
    province_layer_count: u64,
    finished_provinces: bool,
}

impl Parser {
    /// The provinces read so far, in the order they were added.
    pub closed spec fn provinces(&self) -> Seq<ProvinceModel> {
        province_models(self.name_to_province@)
    }

    /// The provinces read from the border layers and not yet processed;
    /// `None` once they are.
    pub closed spec fn raw(&self) -> Option<Seq<ProvinceModel>> {
        match self.raw_provinces {
            Some(v) => Some(province_models(v@)),
            None => None,
        }
    }

    /// The outlines read from the border layers.
    pub closed spec fn shapes(&self) -> Seq<ShapeModel> {
        shape_models(self.shapes@)
    }

    /// The unit positions read from the phantom layers.
    pub closed spec fn placements(&self) -> Seq<PlacementModel> {
        placement_models(self.placements@)
    }

    /// The colours of the map and the power each stands for.
    pub closed spec fn table(&self) -> Seq<(String, Option<Arc<PlayerInfo>>)> {
        self.color_to_player@
    }

    /// The layer configuration.
    pub closed spec fn layers(&self) -> LayerInfo {
        self.layer_info
    }

    /// Whether two parsers stand at the same place in the drawing.
    pub closed spec fn same_reader(&self, other: &Parser) -> bool {
        &&& self.position == other.position
        &&& self.depth == other.depth
        &&& self.layer == other.layer
        &&& self.processed_layers == other.processed_layers
        &&& self.province_layer_count == other.province_layer_count
        &&& self.finished_provinces == other.finished_provinces
    }

    /// The parts of the configuration that processing the provinces leaves
    /// as they are (it uses up the overrides).
    pub closed spec fn same_setup(&self, other: &Parser) -> bool {
        &&& self.name == other.name
        &&& self.players == other.players
        &&& self.datafile == other.datafile
        &&& self.svg_file == other.svg_file
        &&& self.color_to_player == other.color_to_player
        &&& self.layer_info == other.layer_info
    }

    /// The parts of the configuration that reading the drawing leaves as
    /// they are.
    pub closed spec fn same_config(&self, other: &Parser) -> bool {
        &&& self.name == other.name
        &&& self.players == other.players
        &&& self.datafile == other.datafile
        &&& self.svg_file == other.svg_file
        &&& self.color_to_player == other.color_to_player
        &&& self.layer_info == other.layer_info
        &&& self.overrides == other.overrides
    }
}

/// What an element of the island fill layer does: the province its label
/// names takes the power whose colour fills it as owner.
pub open spec fn fill_element(
    ps: Seq<ProvinceModel>,
    e: ElementView,
    t: Seq<(String, Option<Arc<PlayerInfo>>)>,
) -> Result<Seq<ProvinceModel>, MapErrorView> {
    match spec_required_attribute(e, INKSPACE_LABEL@) {
        Err(x) => Err(x),
        Ok(name) => match province_index(ps, name) {
            None => Err(MapErrorView::UnknownProvince(name)),
            Some(i) => match player_result(e, t) {
                Err(x) => Err(x),
                Ok(o) => Ok(ps.update(i, ProvinceModel { initial_owner: o, ..ps[i] })),
            },
        },
    }
}

/// The island fill layer: each element without content (at any depth)
/// sets an owner (see `fill_element`).
pub open spec fn fill_step(t: Seq<(String, Option<Arc<PlayerInfo>>)>) -> spec_fn(
    Seq<ProvinceModel>,
    EventView,
    int,
) -> Result<Seq<ProvinceModel>, MapErrorView> {
    |ps: Seq<ProvinceModel>, e: EventView, depth: int|
        if e.0 == 2 {
            fill_element(ps, e.1, t)
        } else {
            Ok(ps)
        }
}

/// What the start of a group at the top of the supply centre layer does:
/// the province its label names gets a supply centre, and its owner as
/// core; a province that has one already is an error.
pub open spec fn center_element(ps: Seq<ProvinceModel>, e: ElementView) -> Result<
    Seq<ProvinceModel>,
    MapErrorView,
> {
    match spec_required_attribute(e, INKSPACE_LABEL@) {
        Err(x) => Err(x),
        Ok(name) => match province_index(ps, name) {
            None => Err(MapErrorView::UnknownProvince(name)),
            Some(i) => if ps[i].has_supply_center {
                Err(MapErrorView::DuplicateCenter(name))
            } else {
                Ok(
                    ps.update(
                        i,
                        ProvinceModel { has_supply_center: true, initial_core: ps[i].initial_owner, ..ps[i] },
                    ),
                )
            },
        },
    }
}

pub open spec fn center_step() -> spec_fn(Seq<ProvinceModel>, EventView, int) -> Result<
    Seq<ProvinceModel>,
    MapErrorView,
> {
    |ps: Seq<ProvinceModel>, e: EventView, depth: int|
        if e.0 == 0 && depth == 0 {
            center_element(ps, e.1)
        } else {
            Ok(ps)
        }
}

impl Parser {
    fn fill_element_exec(&mut self, e: &XmlElement) -> (res: Result<(), MapError>)
        ensures
            final(self).same_config(old(self)),
            final(self).same_reader(old(self)),
            final(self).raw() == old(self).raw(),
            final(self).shapes() == old(self).shapes(),
            final(self).placements() == old(self).placements(),
            match fill_element(old(self).provinces(), element_view(*e), old(self).table()) {
                Ok(ps) => res is Ok && final(self).provinces() == ps,
                Err(x) => res is Err && map_error_view(res->Err_0) == x,
            },
    {
        let name = match get_inkspace_label(e) {
            Ok(n) => n,
            Err(x) => {
                return Err(x);
            },
        };
        let i = match find_province(&self.name_to_province, name.as_str()) {
            Some(i) => i,
            None => {
                return Err(MapError::UnknownProvince(name));
            },
        };
        let owner = match get_player(e, &self.color_to_player) {
            Ok(o) => o,
            Err(x) => {
                return Err(x);
            },
        };
        let ghost before = self.name_to_province@;
        let mut p = self.name_to_province.remove(i);
        p.initial_owner = owner;
        self.name_to_province.insert(i, p);
        proof {
            assert(self.name_to_province@ =~= before.update(i as int, p));
            lemma_models_update(before, i as int, p);
        }
        Ok(())
    }

    /// Reads the island fill layer from event `pos` on, up to the end of
    /// the layer; the position after it (see `fill_step`).
    pub fn parse_island_fill_layer(&mut self, events: &Vec<XmlEvent>, pos: usize) -> (res: Result<usize, MapError>)
        requires
            pos <= events@.len(),
        ensures
            final(self).same_config(old(self)),
            final(self).same_reader(old(self)),
            final(self).raw() == old(self).raw(),
            final(self).shapes() == old(self).shapes(),
            final(self).placements() == old(self).placements(),
            match scan(fill_step(old(self).table()), old(self).provinces(), events_view(events@), pos as int, 0) {
                Ok((ps, q)) => res == Ok::<usize, MapError>(q as usize) && final(self).provinces() == ps,
                Err(x) => res is Err && map_error_view(res->Err_0) == x,
            },
    {
        let ghost ev = events_view(events@);
        let ghost step = fill_step(self.table());
        let ghost goal = scan(step, self.provinces(), ev, pos as int, 0);
        let mut p = pos;
        let mut depth: usize = 0;
        while p < events.len()
            invariant
                ev == events_view(events@),
                step == fill_step(old(self).table()),
                goal == scan(step, old(self).provinces(), ev, pos as int, 0),
                pos <= p <= events@.len(),
                depth <= p - pos,
                self.same_config(old(self)),
                self.same_reader(old(self)),
                self.raw() == old(self).raw(),
                self.shapes() == old(self).shapes(),
                self.placements() == old(self).placements(),
                goal == scan(step, self.provinces(), ev, p as int, depth as int),
            decreases events@.len() - p,
        {
            let e = &events[p];
            assert(ev[p as int] == event_view(*e));
            match e {
                XmlEvent::Start(_) => {
                    depth = depth + 1;
                },
                XmlEvent::End => {
                    if depth == 0 {
                        proof {
                            lemma_scan_close(step, self.provinces(), ev, p as int);
                        }
                        return Ok(p + 1);
                    }
                    depth = depth - 1;
                },
                XmlEvent::Empty(el) => {
                    match self.fill_element_exec(el) {
                        Ok(()) => {},
                        Err(x) => {
                            return Err(x);
                        },
                    }
                },
                XmlEvent::Other => {},
            }
            p = p + 1;
        }
        Ok(p)
    }

    fn center_element_exec(&mut self, e: &XmlElement) -> (res: Result<(), MapError>)
        ensures
            final(self).same_config(old(self)),
            final(self).same_reader(old(self)),
            final(self).raw() == old(self).raw(),
            final(self).shapes() == old(self).shapes(),
            final(self).placements() == old(self).placements(),
            match center_element(old(self).provinces(), element_view(*e)) {
                Ok(ps) => res is Ok && final(self).provinces() == ps,
                Err(x) => res is Err && map_error_view(res->Err_0) == x,
            },
    {
        let name = match get_inkspace_label(e) {
            Ok(n) => n,
            Err(x) => {
                return Err(x);
            },
        };
        let i = match find_province(&self.name_to_province, name.as_str()) {
            Some(i) => i,
            None => {
                return Err(MapError::UnknownProvince(name));
            },
        };
        if self.name_to_province[i].has_supply_center {
            return Err(MapError::DuplicateCenter(name));
        }
        let ghost before = self.name_to_province@;
        let mut p = self.name_to_province.remove(i);
        p.has_supply_center = true;
        p.initial_core = match &p.initial_owner {
            Some(o) => Some(crate::support::arc_clone(o)),
            None => None,
        };
        self.name_to_province.insert(i, p);
        proof {
            assert(self.name_to_province@ =~= before.update(i as int, p));
            lemma_models_update(before, i as int, p);
        }
        Ok(())
    }

    /// Reads the supply centre layer from event `pos` on, up to the end of
    /// the layer; the position after it (see `center_step`).
    pub fn parse_supply_centers_assisted(&mut self, events: &Vec<XmlEvent>, pos: usize) -> (res: Result<usize, MapError>)
        requires
            pos <= events@.len(),
        ensures
            final(self).same_config(old(self)),
            final(self).same_reader(old(self)),
            final(self).raw() == old(self).raw(),
            final(self).shapes() == old(self).shapes(),
            final(self).placements() == old(self).placements(),
            match scan(center_step(), old(self).provinces(), events_view(events@), pos as int, 0) {
                Ok((ps, q)) => res == Ok::<usize, MapError>(q as usize) && final(self).provinces() == ps,
                Err(x) => res is Err && map_error_view(res->Err_0) == x,
            },
    {
        let ghost ev = events_view(events@);
        let ghost step = center_step();
        let ghost goal = scan(step, self.provinces(), ev, pos as int, 0);
        let mut p = pos;
        let mut depth: usize = 0;
        while p < events.len()
            invariant
                ev == events_view(events@),
                step == center_step(),
                goal == scan(step, old(self).provinces(), ev, pos as int, 0),
                pos <= p <= events@.len(),
                depth <= p - pos,
                self.same_config(old(self)),
                self.same_reader(old(self)),
                self.raw() == old(self).raw(),
                self.shapes() == old(self).shapes(),
                self.placements() == old(self).placements(),
                goal == scan(step, self.provinces(), ev, p as int, depth as int),
            decreases events@.len() - p,
        {
            let e = &events[p];
            assert(ev[p as int] == event_view(*e));
            match e {
                XmlEvent::Start(el) => {
                    if depth == 0 {
                        match self.center_element_exec(el) {
                            Ok(()) => {},
                            Err(x) => {
                                return Err(x);
                            },
                        }
                    }
                    depth = depth + 1;
                },
                XmlEvent::End => {
                    if depth == 0 {
                        proof {
                            lemma_scan_close(step, self.provinces(), ev, p as int);
                        }
                        return Ok(p + 1);
                    }
                    depth = depth - 1;
                },
                _ => {},
            }
            p = p + 1;
        }
        Ok(p)
    }
}


/// The letter of the coast a name ends with: `" (nc)"`, `" (sc)"`,
/// `" (ec)"` or `" (wc)"` give `n`, `s`, `e` or `w`.
pub open spec fn coast_letter(name: Seq<char>) -> Option<char> {
    let n = name.len() as int;
    if n >= 5 && name[n - 5] == ' ' && name[n - 4] == '(' && name[n - 2] == 'c' && name[n - 1] == ')'
        && (name[n - 3] == 'n' || name[n - 3] == 's' || name[n - 3] == 'e' || name[n - 3] == 'w') {
        Some(name[n - 3])
    } else {
        None
    }
}

/// The position of the last coast called `n`.
pub open spec fn last_coast_named(cs: Seq<CoastModel>, n: Seq<char>) -> Option<int>
    decreases cs.len(),
{
    if cs.len() == 0 {
        None
    } else if cs.last().name == n {
        Some(cs.len() - 1)
    } else {
        last_coast_named(cs.drop_last(), n)
    }
}

proof fn lemma_last_coast_named(cs: Seq<CoastModel>, n: Seq<char>)
    ensures
        last_coast_named(cs, n) matches Some(k) ==> 0 <= k < cs.len() && cs[k].name == n,
    decreases cs.len(),
{
    if cs.len() > 0 && cs.last().name != n {
        lemma_last_coast_named(cs.drop_last(), n);
    }
}

/// The province a unit label names, and the coast: a label that ends with
/// a coast suffix names the province without it, and the coast called
/// "<province> <letter>c" of that province (the last so called), if it
/// has one. A province that is not there is an error.
pub open spec fn spec_province_and_coast(ps: Seq<ProvinceModel>, name: Seq<char>) -> Result<
    (int, Option<ReferenceKey>),
    MapErrorView,
> {
    let letter = coast_letter(name);
    let base = if letter is Some {
        name.subrange(0, name.len() - 5)
    } else {
        name
    };
    match province_index(ps, base) {
        None => Err(MapErrorView::UnknownProvince(base)),
        Some(i) => Ok(
            (
                i,
                match (letter, ps[i].coasts) {
                    (Some(x), Some(cs)) => match last_coast_named(cs, base + seq![' ', x, 'c']) {
                        Some(k) => Some(Ok::<Seq<char>, usize>(cs[k].name)),
                        None => None,
                    },
                    _ => None,
                },
            ),
        ),
    }
}

pub open spec fn coast_option_key(c: Option<CoastReference>) -> Option<ReferenceKey> {
    match c {
        Some(r) => Some(coast_reference_key(r)),
        None => None,
    }
}

impl Parser {
    /// The province a unit label names, and the coast it names (see
    /// `spec_province_and_coast`).
    pub fn get_province_and_coast(&self, province_name: &str) -> (res: Result<(usize, Option<CoastReference>), MapError>)
        ensures
            match spec_province_and_coast(self.provinces(), province_name@) {
                Ok((i, c)) => res is Ok && res->Ok_0.0 == i && coast_option_key(res->Ok_0.1) == c,
                Err(x) => res is Err && map_error_view(res->Err_0) == x,
            },
            res is Ok ==> res->Ok_0.0 < self.provinces().len(),
    {
        let n = province_name.unicode_len();
        let mut letter: Option<char> = None;
        if n >= 5 && province_name.get_char(n - 5) == ' ' && province_name.get_char(n - 4) == '('
            && province_name.get_char(n - 2) == 'c' && province_name.get_char(n - 1) == ')' {
            let x = province_name.get_char(n - 3);
            if x == 'n' || x == 's' || x == 'e' || x == 'w' {
                letter = Some(x);
            }
        }
        let base: &str = match letter {
            Some(_) => province_name.substring_char(0, n - 5),
            None => province_name,
        };
        let i = match find_province(&self.name_to_province, base) {
            Some(i) => i,
            None => {
                return Err(MapError::UnknownProvince(base.to_owned()));
            },
        };
        let ghost ps = self.provinces();
        assert(ps[i as int] == province_model(self.name_to_province@[i as int]));
        let coast = match (letter, &self.name_to_province[i].coasts) {
            (Some(x), Some(cs)) => {
                let mut full = base.to_owned();
                push_char(&mut full, ' ');
                push_char(&mut full, x);
                push_char(&mut full, 'c');
                assert(full@ =~= base@ + seq![' ', x, 'c']);
                let ghost cms = coast_models(cs@);
                let mut found: Option<CoastReference> = None;
                let mut j: usize = 0;
                while j < cs.len()
                    invariant
                        cms == coast_models(cs@),
                        j <= cs@.len(),
                        coast_option_key(found) == match last_coast_named(cms.subrange(0, j as int), full@) {
                            Some(k) => Some(Ok::<Seq<char>, usize>(cms[k].name)),
                            None => None,
                        },
                    decreases cs@.len() - j,
                {
                    assert(cms.subrange(0, j + 1).drop_last() =~= cms.subrange(0, j as int));
                    proof {
                        lemma_last_coast_named(cms.subrange(0, j as int), full@);
                    }
                    if str_eq(cs[j].name.as_str(), full.as_str()) {
                        found = Some(cs[j].to_reference());
                    }
                    j = j + 1;
                }
                assert(cms.subrange(0, j as int) =~= cms);
                assert(ps[i as int].coasts == Some(cms));
                found
            },
            _ => None,
        };
        Ok((i, coast))
    }
}


/// The state of the starting units layer: the provinces, the kind of the
/// unit read last and the label of the current group.
pub type UnitScan = (Seq<ProvinceModel>, UnitType, Seq<char>);

/// The kind and the name a unit label gives: where unit kinds are labelled,
/// the label starts with F (fleet) or A (army), in either case, and the
/// rest names the province; otherwise the kind stays and the label is the
/// name.
pub open spec fn unit_label_type(name: Seq<char>, labeled: bool, ut: UnitType) -> Result<
    (UnitType, Seq<char>),
    MapErrorView,
> {
    if !labeled {
        Ok((ut, name))
    } else if name.len() == 0 {
        Err(MapErrorView::UnitLabel(name))
    } else if ascii_lower_char(name[0]) == 'f' {
        Ok((UnitType::FLEET, name.drop_first()))
    } else if ascii_lower_char(name[0]) == 'a' {
        Ok((UnitType::ARMY, name.drop_first()))
    } else {
        Err(MapErrorView::UnitLabel(name))
    }
}

/// The end of a unit's group: the province (and coast) its label names
/// gets a starting unit of the current kind, owned by the province's
/// owner; a unit in a province of several coasts stands on the named coast,
/// or else on its first coast.
pub open spec fn unit_end(st: UnitScan, labeled: bool) -> Result<UnitScan, MapErrorView> {
    let ps = st.0;
    match unit_label_type(st.2, labeled, st.1) {
        Err(x) => Err(x),
        Ok((ut, name)) => match spec_province_and_coast(ps, name) {
            Err(x) => Err(x),
            Ok((i, c)) => match ps[i].initial_owner {
                None => Err(MapErrorView::NoOwner(name)),
                Some(o) => {
                    let coast = match c {
                        Some(k) => Some(k),
                        None => match ps[i].coasts {
                            Some(cs) => if cs.len() > 0 {
                                Some(Ok::<Seq<char>, usize>(cs[0].name))
                            } else {
                                None
                            },
                            None => None,
                        },
                    };
                    let unit = UnitModel {
                        unit_type: ut,
                        owner: o,
                        province: Ok(ps[i].name),
                        coast,
                        retreat_options: None,
                    };
                    Ok((ps.update(i, ProvinceModel { initial_unit: Some(unit), ..ps[i] }), ut, name))
                },
            },
        },
    }
}

/// The kind of unit a marker path draws: a triangle (3 sides) is a fleet,
/// a hexagon (6) an army.
pub open spec fn unit_sides(e: ElementView) -> Result<UnitType, MapErrorView> {
    match spec_required_attribute(e, SODIPODI_SIDES@) {
        Err(x) => Err(x),
        Ok(s) => if s == "3"@ {
            Ok(UnitType::FLEET)
        } else if s == "6"@ {
            Ok(UnitType::ARMY)
        } else {
            Err(MapErrorView::UnitSides(s))
        },
    }
}

/// The starting units layer: each top group is a unit, labelled with its
/// province; a marker path in it gives its kind (see `unit_sides`), and
/// the end of the group places it (see `unit_end`).
pub open spec fn unit_step(labeled: bool) -> spec_fn(UnitScan, EventView, int) -> Result<UnitScan, MapErrorView> {
    |st: UnitScan, e: EventView, depth: int|
        if e.0 == 0 {
            if depth == 0 {
                match spec_required_attribute(e.1, INKSPACE_LABEL@) {
                    Ok(n) => Ok((st.0, st.1, n)),
                    Err(x) => Err(x),
                }
            } else {
                Ok(st)
            }
        } else if e.0 == 1 {
            if depth == 1 {
                unit_end(st, labeled)
            } else {
                Ok(st)
            }
        } else if e.0 == 2 && e.1.0 == "path"@ {
            match unit_sides(e.1) {
                Ok(t) => Ok((st.0, t, st.2)),
                Err(x) => Err(x),
            }
        } else {
            Ok(st)
        }
}

impl Parser {
    fn unit_end_exec(&mut self, unit_type: UnitType, name: String) -> (res: Result<(UnitType, String), MapError>)
        ensures
            final(self).same_config(old(self)),
            final(self).same_reader(old(self)),
            final(self).raw() == old(self).raw(),
            final(self).shapes() == old(self).shapes(),
            final(self).placements() == old(self).placements(),
            match unit_end((old(self).provinces(), unit_type, name@), old(self).layers().unit_type_labeled) {
                Ok(st) => res is Ok && final(self).provinces() == st.0 && res->Ok_0.0 == st.1
                    && res->Ok_0.1@ == st.2,
                Err(x) => res is Err && map_error_view(res->Err_0) == x,
            },
    {
        let (ut, label) = if self.layer_info.unit_type_labeled {
            let n = name.as_str().unicode_len();
            if n == 0 {
                return Err(MapError::UnitLabel(name));
            }
            let c = lower_char(name.as_str().get_char(0));
            let rest = name.as_str().substring_char(1, n).to_owned();
            assert(rest@ =~= name@.drop_first());
            if c == 'f' {
                (UnitType::FLEET, rest)
            } else if c == 'a' {
                (UnitType::ARMY, rest)
            } else {
                return Err(MapError::UnitLabel(name));
            }
        } else {
            (unit_type, name)
        };
        let (i, coast) = match self.get_province_and_coast(label.as_str()) {
            Ok(r) => r,
            Err(x) => {
                return Err(x);
            },
        };
        let ghost ps = self.provinces();
        assert(ps[i as int] == province_model(self.name_to_province@[i as int]));
        let owner = match &self.name_to_province[i].initial_owner {
            Some(o) => arc_clone(o),
            None => {
                return Err(MapError::NoOwner(label));
            },
        };
        let coast = match coast {
            Some(r) => Some(r),
            None => match &self.name_to_province[i].coasts {
                Some(cs) => if cs.len() > 0 {
                    Some(cs[0].to_reference())
                } else {
                    None
                },
                None => None,
            },
        };
        let ghost before = self.name_to_province@;
        let mut p = self.name_to_province.remove(i);
        let current_province = p.to_reference();
        p.initial_unit = Some(Unit { unit_type: ut, owner, current_province, coast, retreat_options: None });
        self.name_to_province.insert(i, p);
        proof {
            assert(self.name_to_province@ =~= before.update(i as int, p));
            lemma_models_update(before, i as int, p);
        }
        Ok((ut, label))
    }

    fn unit_sides_exec(e: &XmlElement) -> (res: Result<UnitType, MapError>)
        ensures
            match unit_sides(element_view(*e)) {
                Ok(t) => res == Ok::<UnitType, MapError>(t),
                Err(x) => res is Err && map_error_view(res->Err_0) == x,
            },
    {
        let sides = match required_attribute(e, SODIPODI_SIDES) {
            Ok(s) => s,
            Err(x) => {
                return Err(x);
            },
        };
        if str_eq(sides.as_str(), "3") {
            Ok(UnitType::FLEET)
        } else if str_eq(sides.as_str(), "6") {
            Ok(UnitType::ARMY)
        } else {
            Err(MapError::UnitSides(sides))
        }
    }

    /// Reads the starting units layer from event `pos` on, up to the end
    /// of the layer; the position after it (see `unit_step`; the kind
    /// starts as army and the label as empty).
    pub fn parse_units_assisted(&mut self, events: &Vec<XmlEvent>, pos: usize) -> (res: Result<usize, MapError>)
        requires
            pos <= events@.len(),
        ensures
            final(self).same_config(old(self)),
            final(self).same_reader(old(self)),
            final(self).raw() == old(self).raw(),
            final(self).shapes() == old(self).shapes(),
            final(self).placements() == old(self).placements(),
            match scan(
                unit_step(old(self).layers().unit_type_labeled),
                (old(self).provinces(), UnitType::ARMY, Seq::<char>::empty()),
                events_view(events@),
                pos as int,
                0,
            ) {
                Ok((st, q)) => res == Ok::<usize, MapError>(q as usize) && final(self).provinces() == st.0,
                Err(x) => res is Err && map_error_view(res->Err_0) == x,
            },
    {
        let ghost ev = events_view(events@);
        let ghost step = unit_step(self.layer_info.unit_type_labeled);
        let mut unit_type = UnitType::ARMY;
        let mut name = String::new();
        let ghost goal = scan(step, (self.provinces(), unit_type, name@), ev, pos as int, 0);
        let mut p = pos;
        let mut depth: usize = 0;
        while p < events.len()
            invariant
                ev == events_view(events@),
                step == unit_step(old(self).layers().unit_type_labeled),
                goal == scan(step, (old(self).provinces(), UnitType::ARMY, Seq::<char>::empty()), ev, pos as int, 0),
                pos <= p <= events@.len(),
                depth <= p - pos,
                self.same_config(old(self)),
                self.same_reader(old(self)),
                self.raw() == old(self).raw(),
                self.shapes() == old(self).shapes(),
                self.placements() == old(self).placements(),
                goal == scan(step, (self.provinces(), unit_type, name@), ev, p as int, depth as int),
            decreases events@.len() - p,
        {
            let e = &events[p];
            assert(ev[p as int] == event_view(*e));
            match e {
                XmlEvent::Start(el) => {
                    if depth == 0 {
                        name = match get_inkspace_label(el) {
                            Ok(n) => n,
                            Err(x) => {
                                return Err(x);
                            },
                        };
                    }
                    depth = depth + 1;
                },
                XmlEvent::End => {
                    if depth == 1 {
                        let (t, n) = match self.unit_end_exec(unit_type, name) {
                            Ok(r) => r,
                            Err(x) => {
                                return Err(x);
                            },
                        };
                        unit_type = t;
                        name = n;
                    }
                    if depth == 0 {
                        proof {
                            lemma_scan_close(step, (self.provinces(), unit_type, name@), ev, p as int);
                        }
                        return Ok(p + 1);
                    }
                    depth = depth - 1;
                },
                XmlEvent::Empty(el) => {
                    if str_eq(el.name.as_str(), "path") {
                        unit_type = match Self::unit_sides_exec(el) {
                            Ok(t) => t,
                            Err(x) => {
                                return Err(x);
                            },
                        };
                    }
                },
                XmlEvent::Other => {},
            }
            p = p + 1;
        }
        Ok(p)
    }
}


/// A copy of a transform.
fn copy_transform(t: &TransformText) -> (res: TransformText)
    ensures
        transform_view(res) == transform_view(*t),
{
    match t {
        TransformText::Empty => TransformText::Empty,
        TransformText::Translate { x_c, y_c } => TransformText::Translate { x_c: x_c.clone(), y_c: y_c.clone() },
        TransformText::Matrix { x_dx, y_dy, x_dy, y_dx, x_c, y_c } => TransformText::Matrix {
            x_dx: x_dx.clone(),
            y_dy: y_dy.clone(),
            x_dy: x_dy.clone(),
            y_dx: y_dx.clone(),
            x_c: x_c.clone(),
            y_c: y_c.clone(),
        },
    }
}

/// A province border: a `path` element whose `d` attribute is its outline.
/// It gives a province of the layer's kind, named by its label where
/// provinces are labelled (else with an empty name), with nothing else set,
/// and its outline.
pub open spec fn province_element(e: ElementView, t: ProvinceType, lt: TransformView, labels: bool) -> Result<
    (ProvinceModel, ShapeModel),
    MapErrorView,
> {
    if e.0 != "path"@ {
        Err(MapErrorView::NotPath)
    } else {
        match spec_required_attribute(e, "d"@) {
            Err(x) => Err(x),
            Ok(d) => match transform_result(e) {
                Err(x) => Err(x),
                Ok(tr) => match spec_parse_path(d) {
                    Err(pe) => Err(MapErrorView::Path(pe)),
                    Ok(steps) => {
                        let name_r: Result<Seq<char>, MapErrorView> = if labels {
                            spec_required_attribute(e, INKSPACE_LABEL@)
                        } else {
                            Ok(Seq::empty())
                        };
                        match name_r {
                            Err(x) => Err(x),
                            Ok(name) => Ok(
                                (
                                    bare_province(name, t),
                                    ShapeModel { name, layer_transform: lt, transform: tr, path: steps },
                                ),
                            ),
                        }
                    },
                },
            },
        }
    }
}

/// The state of a border layer: the provinces read and not yet processed
/// (`None` once processed), and the outlines.
pub type BorderScan = (Option<Seq<ProvinceModel>>, Seq<ShapeModel>);

/// A border layer of the given kind: each element without content is a
/// province (see `province_element`); land provinces take the power whose
/// colour fills them as owner. Provinces after processing are an error
/// (their layer comes twice).
pub open spec fn border_step(
    t: ProvinceType,
    lt: TransformView,
    labels: bool,
    table: Seq<(String, Option<Arc<PlayerInfo>>)>,
) -> spec_fn(BorderScan, EventView, int) -> Result<BorderScan, MapErrorView> {
    |st: BorderScan, e: EventView, depth: int|
        if e.0 == 2 {
            match province_element(e.1, t, lt, labels) {
                Err(x) => Err(x),
                Ok((p, sh)) => {
                    let owned: Result<ProvinceModel, MapErrorView> = if t == ProvinceType::LAND {
                        match player_result(e.1, table) {
                            Err(x) => Err(x),
                            Ok(o) => Ok(ProvinceModel { initial_owner: o, ..p }),
                        }
                    } else {
                        Ok(p)
                    };
                    match owned {
                        Err(x) => Err(x),
                        Ok(p2) => match st.0 {
                            None => Err(MapErrorView::LayerTwice),
                            Some(raw) => Ok((Some(raw.push(p2)), st.1.push(sh))),
                        },
                    }
                },
            }
        } else {
            Ok(st)
        }
}

/// What a border layer gives: its transform, then its provinces.
pub open spec fn border_layer(
    t: ProvinceType,
    layer: ElementView,
    labels: bool,
    table: Seq<(String, Option<Arc<PlayerInfo>>)>,
    st: BorderScan,
    ev: Seq<EventView>,
    pos: int,
) -> Result<(BorderScan, int), MapErrorView> {
    match transform_result(layer) {
        Err(x) => Err(x),
        Ok(lt) => scan(border_step(t, lt, labels, table), st, ev, pos, 0),
    }
}

impl Parser {
    pub closed spec fn border_state(&self) -> BorderScan {
        (self.raw(), self.shapes())
    }

    fn province_element_exec(&mut self, e: &XmlElement, t: ProvinceType, lt: &TransformText) -> (res: Result<
        (),
        MapError,
    >)
        ensures
            final(self).same_config(old(self)),
            final(self).same_reader(old(self)),
            final(self).provinces() == old(self).provinces(),
            final(self).placements() == old(self).placements(),
            match border_step(t, transform_view(*lt), old(self).layers().province_labels, old(self).table())(
                old(self).border_state(),
                (2, element_view(*e)),
                0,
            ) {
                Ok(st) => res is Ok && final(self).border_state() == st,
                Err(x) => res is Err && map_error_view(res->Err_0) == x,
            },
    {
        let ghost ev = element_view(*e);
        if !str_eq(e.name.as_str(), "path") {
            return Err(MapError::NotPath);
        }
        let d = match required_attribute(e, "d") {
            Ok(d) => d,
            Err(x) => {
                return Err(x);
            },
        };
        let tr = match get_transform(e) {
            Ok(tr) => tr,
            Err(x) => {
                return Err(x);
            },
        };
        let path = match parse_path(d.as_str()) {
            Ok(p) => p,
            Err(pe) => {
                return Err(MapError::Path(pe));
            },
        };
        let name = if self.layer_info.province_labels {
            match get_inkspace_label(e) {
                Ok(n) => n,
                Err(x) => {
                    return Err(x);
                },
            }
        } else {
            String::new()
        };
        let owner = if t == ProvinceType::LAND {
            match get_player(e, &self.color_to_player) {
                Ok(o) => o,
                Err(x) => {
                    return Err(x);
                },
            }
        } else {
            None
        };
        if self.raw_provinces.is_none() {
            return Err(MapError::LayerTwice);
        }
        let shape = ProvinceShape {
            name: name.clone(),
            layer_transform: copy_transform(lt),
            transform: tr,
            path,
        };
        let province = ProvinceInfo {
            name,
            province_type: t,
            adjacent: Vec::new(),
            has_supply_center: false,
            initial_owner: owner,
            initial_core: None,
            initial_unit: None,
            coasts: None,
        };
        let ghost shapes_before = self.shapes@;
        self.shapes.push(shape);
        let mut raw = self.raw_provinces.take().unwrap();
        let ghost raw_before = raw@;
        raw.push(province);
        self.raw_provinces = Some(raw);
        proof {
            assert(province_models(raw@) =~= province_models(raw_before).push(province_model(province)));
            assert(shape_models(self.shapes@) =~= shape_models(shapes_before).push(shape_model(shape)));
            assert(province_model(province).adjacent =~= Seq::<ReferenceKey>::empty());
        }
        Ok(())
    }

    /// Reads a border layer (land, island or sea) whose group is `layer`,
    /// from event `pos` on, up to the end of the layer; the position after
    /// it (see `border_layer`).
    pub fn parse_province_layer(
        &mut self,
        province_type: ProvinceType,
        events: &Vec<XmlEvent>,
        pos: usize,
        layer: &XmlElement,
    ) -> (res: Result<usize, MapError>)
        requires
            pos <= events@.len(),
        ensures
            final(self).same_config(old(self)),
            final(self).same_reader(old(self)),
            final(self).provinces() == old(self).provinces(),
            final(self).placements() == old(self).placements(),
            match border_layer(
                province_type,
                element_view(*layer),
                old(self).layers().province_labels,
                old(self).table(),
                old(self).border_state(),
                events_view(events@),
                pos as int,
            ) {
                Ok((st, q)) => res == Ok::<usize, MapError>(q as usize) && final(self).border_state() == st,
                Err(x) => res is Err && map_error_view(res->Err_0) == x,
            },
    {
        let lt = match get_transform(layer) {
            Ok(t) => t,
            Err(x) => {
                return Err(x);
            },
        };
        let ghost ev = events_view(events@);
        let ghost step = border_step(
            province_type,
            transform_view(lt),
            self.layer_info.province_labels,
            self.table(),
        );
        let ghost goal = scan(step, self.border_state(), ev, pos as int, 0);
        let mut p = pos;
        let mut depth: usize = 0;
        while p < events.len()
            invariant
                ev == events_view(events@),
                step == border_step(
                    province_type,
                    transform_view(lt),
                    old(self).layers().province_labels,
                    old(self).table(),
                ),
                goal == scan(step, old(self).border_state(), ev, pos as int, 0),
                transform_result(element_view(*layer)) == Ok::<TransformView, MapErrorView>(transform_view(lt)),
                pos <= p <= events@.len(),
                depth <= p - pos,
                self.same_config(old(self)),
                self.same_reader(old(self)),
                self.provinces() == old(self).provinces(),
                self.placements() == old(self).placements(),
                goal == scan(step, self.border_state(), ev, p as int, depth as int),
            decreases events@.len() - p,
        {
            let e = &events[p];
            assert(ev[p as int] == event_view(*e));
            match e {
                XmlEvent::Start(_) => {
                    depth = depth + 1;
                },
                XmlEvent::End => {
                    if depth == 0 {
                        proof {
                            lemma_scan_close(step, self.border_state(), ev, p as int);
                        }
                        return Ok(p + 1);
                    }
                    depth = depth - 1;
                },
                XmlEvent::Empty(el) => {
                    match self.province_element_exec(el, province_type, &lt) {
                        Ok(()) => {},
                        Err(x) => {
                            return Err(x);
                        },
                    }
                },
                XmlEvent::Other => {},
            }
            p = p + 1;
        }
        Ok(p)
    }
}


/// A phantom unit's marker: the centre (`sodipodi:cx`, `sodipodi:cy`) and
/// the transform of the path; a centre coordinate that is missing is an
/// error.
pub open spec fn marker_element(e: ElementView) -> Result<MarkerModel, MapErrorView> {
    match spec_attribute(e, SODIPODI_CX@) {
        Err(a) => Err(MapErrorView::Attribute(SODIPODI_CX@, a)),
        Ok(x) => match spec_attribute(e, SODIPODI_CY@) {
            Err(a) => Err(MapErrorView::Attribute(SODIPODI_CY@, a)),
            Ok(y) => if x is None {
                Err(MapErrorView::MissingAttribute(SODIPODI_CX@))
            } else if y is None {
                Err(MapErrorView::MissingAttribute(SODIPODI_CY@))
            } else {
                match transform_result(e) {
                    Err(err) => Err(err),
                    Ok(t) => Ok(MarkerModel { cx: x.unwrap(), cy: y.unwrap(), transform: t }),
                }
            },
        },
    }
}

/// Whether some province adjacent to a province is not land (looked up by
/// name, in order, up to the first that is not); an adjacency that names
/// no province is an error.
pub open spec fn coastal(ps: Seq<ProvinceModel>, adj: Seq<ReferenceKey>) -> Result<bool, MapErrorView>
    decreases adj.len(),
{
    if adj.len() == 0 {
        Ok(false)
    } else {
        match adj[0] {
            Err(_) => Err(MapErrorView::UnknownProvince(Seq::empty())),
            Ok(n) => match province_index(ps, n) {
                None => Err(MapErrorView::UnknownProvince(n)),
                Some(j) => if ps[j].province_type != ProvinceType::LAND {
                    Ok(true)
                } else {
                    coastal(ps, adj.drop_first())
                },
            },
        }
    }
}

pub open spec fn key_name(k: Option<ReferenceKey>) -> Option<Seq<char>> {
    match k {
        Some(Ok(n)) => Some(n),
        _ => None,
    }
}

/// The state of a phantom unit layer: the placements, and the transform,
/// label and marker of the current group.
pub type PhantomScan = (Seq<PlacementModel>, TransformView, Seq<char>, Option<MarkerModel>);

/// The end of a phantom unit's group: the placement of the province its
/// label names. For an army layer, in the layer's slot. For a fleet layer,
/// on the coast the label names; failing that, a non-sea province next to
/// something other than land puts it on its first coast (and one without
/// coasts is an error); and the slots are crossed: the primary fleet layer
/// gives the retreat slot and the other the primary one.
pub open spec fn phantom_end(ps: Seq<ProvinceModel>, fleet: bool, retreat: bool, lt: TransformView, st: PhantomScan) -> Result<
    PhantomScan,
    MapErrorView,
> {
    let name = st.2;
    if !fleet {
        match province_index(ps, name) {
            None => Err(MapErrorView::UnknownProvince(name)),
            Some(i) => Ok(
                (
                    st.0.push(
                        PlacementModel {
                            province: ps[i].name,
                            coast: None,
                            retreat,
                            layer_transform: lt,
                            group_transform: st.1,
                            marker: st.3,
                        },
                    ),
                    st.1,
                    st.2,
                    st.3,
                ),
            ),
        }
    } else {
        match spec_province_and_coast(ps, name) {
            Err(x) => Err(x),
            Ok((i, c)) => {
                let cr: Result<Option<ReferenceKey>, MapErrorView> = if c is None
                    && ps[i].province_type != ProvinceType::SEA {
                    match coastal(ps, ps[i].adjacent) {
                        Err(x) => Err(x),
                        Ok(false) => Ok(None),
                        Ok(true) => match ps[i].coasts {
                            Some(cs) => if cs.len() > 0 {
                                Ok(Some(Ok::<Seq<char>, usize>(cs[0].name)))
                            } else {
                                Err(MapErrorView::PhantomSkipped(name))
                            },
                            None => Err(MapErrorView::PhantomSkipped(name)),
                        },
                    }
                } else {
                    Ok(c)
                };
                match cr {
                    Err(x) => Err(x),
                    Ok(k) => Ok(
                        (
                            st.0.push(
                                PlacementModel {
                                    province: ps[i].name,
                                    coast: key_name(k),
                                    retreat: !retreat,
                                    layer_transform: lt,
                                    group_transform: st.1,
                                    marker: st.3,
                                },
                            ),
                            st.1,
                            st.2,
                            st.3,
                        ),
                    ),
                }
            },
        }
    }
}

/// A phantom unit layer (armies or fleets, primary or retreat): each top
/// group is a unit, with its transform and its label (a province); a
/// `path` in it is its marker (the last one counts, and it carries over
/// to later groups); the end of the group places it (see `phantom_end`).
/// An element without content outside any group is an error.
pub open spec fn phantom_step(ps: Seq<ProvinceModel>, fleet: bool, retreat: bool, lt: TransformView) -> spec_fn(
    PhantomScan,
    EventView,
    int,
) -> Result<PhantomScan, MapErrorView> {
    |st: PhantomScan, e: EventView, depth: int|
        if e.0 == 0 {
            if depth == 0 {
                match transform_result(e.1) {
                    Err(x) => Err(x),
                    Ok(g) => match spec_required_attribute(e.1, INKSPACE_LABEL@) {
                        Err(x) => Err(x),
                        Ok(n) => Ok((st.0, g, n, st.3)),
                    },
                }
            } else {
                Ok(st)
            }
        } else if e.0 == 1 {
            if depth == 1 {
                phantom_end(ps, fleet, retreat, lt, st)
            } else {
                Ok(st)
            }
        } else if e.0 == 2 {
            if depth == 0 {
                Err(MapErrorView::PhantomOutside)
            } else if e.1.0 == "path"@ {
                match marker_element(e.1) {
                    Err(x) => Err(x),
                    Ok(m) => Ok((st.0, st.1, st.2, Some(m))),
                }
            } else {
                Ok(st)
            }
        } else {
            Ok(st)
        }
}

/// What a phantom unit layer gives: its transform, then its placements
/// (starting with no transform, an empty label and no marker).
pub open spec fn phantom_layer(
    ps: Seq<ProvinceModel>,
    fleet: bool,
    retreat: bool,
    layer: ElementView,
    placements: Seq<PlacementModel>,
    ev: Seq<EventView>,
    pos: int,
) -> Result<(PhantomScan, int), MapErrorView> {
    match transform_result(layer) {
        Err(x) => Err(x),
        Ok(lt) => scan(
            phantom_step(ps, fleet, retreat, lt),
            (placements, (0, Seq::empty()), Seq::empty(), None),
            ev,
            pos,
            0,
        ),
    }
}

pub open spec fn marker_option_model(m: Option<UnitMarker>) -> Option<MarkerModel> {
    match m {
        Some(x) => Some(marker_model(x)),
        None => None,
    }
}

fn copy_marker(m: &Option<UnitMarker>) -> (res: Option<UnitMarker>)
    ensures
        marker_option_model(res) == marker_option_model(*m),
{
    match m {
        Some(x) => Some(UnitMarker { cx: x.cx.clone(), cy: x.cy.clone(), transform: copy_transform(&x.transform) }),
        None => None,
    }
}

fn marker_exec(e: &XmlElement) -> (res: Result<UnitMarker, MapError>)
    ensures
        match marker_element(element_view(*e)) {
            Ok(m) => res is Ok && marker_model(res->Ok_0) == m,
            Err(x) => res is Err && map_error_view(res->Err_0) == x,
        },
{
    let x = match get_attribute(e, SODIPODI_CX) {
        Ok(x) => x,
        Err(a) => {
            return Err(MapError::Attribute(String::from_str(SODIPODI_CX), a));
        },
    };
    let y = match get_attribute(e, SODIPODI_CY) {
        Ok(y) => y,
        Err(a) => {
            return Err(MapError::Attribute(String::from_str(SODIPODI_CY), a));
        },
    };
    let (cx, cy) = match (x, y) {
        (Some(cx), Some(cy)) => (cx, cy),
        (None, _) => {
            return Err(MapError::MissingAttribute(String::from_str(SODIPODI_CX)));
        },
        (_, None) => {
            return Err(MapError::MissingAttribute(String::from_str(SODIPODI_CY)));
        },
    };
    let transform = match get_transform(e) {
        Ok(t) => t,
        Err(err) => {
            return Err(err);
        },
    };
    Ok(UnitMarker { cx, cy, transform })
}

impl Parser {
    fn coastal_exec(&self, i: usize) -> (res: Result<bool, MapError>)
        requires
            i < self.provinces().len(),
        ensures
            match coastal(self.provinces(), self.provinces()[i as int].adjacent) {
                Ok(b) => res == Ok::<bool, MapError>(b),
                Err(x) => res is Err && map_error_view(res->Err_0) == x,
            },
    {
        let ghost ps = self.provinces();
        let adj = &self.name_to_province[i].adjacent;
        assert(ps[i as int] == province_model(self.name_to_province@[i as int]));
        let ghost keys = ps[i as int].adjacent;
        assert(keys.subrange(0, keys.len() as int) =~= keys);
        let mut k: usize = 0;
        while k < adj.len()
            invariant
                ps == self.provinces(),
                keys == ps[i as int].adjacent,
                keys == reference_keys(adj@),
                k <= adj@.len(),
                coastal(ps, keys) == coastal(ps, keys.subrange(k as int, keys.len() as int)),
            decreases adj@.len() - k,
        {
            let ghost rest = keys.subrange(k as int, keys.len() as int);
            assert(rest.drop_first() =~= keys.subrange(k + 1, keys.len() as int));
            assert(rest[0] == spec_reference_key(adj@[k as int]));
            match &adj[k] {
                ProvinceReference::Index(_) => {
                    return Err(MapError::UnknownProvince(String::new()));
                },
                ProvinceReference::Name(n) => {
                    let j = match find_province(&self.name_to_province, n.as_str()) {
                        Some(j) => j,
                        None => {
                            return Err(MapError::UnknownProvince(n.clone()));
                        },
                    };
                    assert(ps[j as int] == province_model(self.name_to_province@[j as int]));
                    if self.name_to_province[j].province_type != ProvinceType::LAND {
                        return Ok(true);
                    }
                },
            }
            k = k + 1;
        }
        assert(keys.subrange(k as int, keys.len() as int) =~= Seq::<ReferenceKey>::empty());
        Ok(false)
    }

    fn phantom_end_exec(
        &mut self,
        fleet: bool,
        retreat: bool,
        lt: &TransformText,
        group: &TransformText,
        name: &String,
        marker: &Option<UnitMarker>,
    ) -> (res: Result<(), MapError>)
        ensures
            final(self).same_config(old(self)),
            final(self).same_reader(old(self)),
            final(self).provinces() == old(self).provinces(),
            final(self).border_state() == old(self).border_state(),
            match phantom_end(
                old(self).provinces(),
                fleet,
                retreat,
                transform_view(*lt),
                (old(self).placements(), transform_view(*group), name@, marker_option_model(*marker)),
            ) {
                Ok(st) => res is Ok && final(self).placements() == st.0,
                Err(x) => res is Err && map_error_view(res->Err_0) == x,
            },
    {
        let ghost ps = self.provinces();
        let (i, coast, slot) = if !fleet {
            let i = match find_province(&self.name_to_province, name.as_str()) {
                Some(i) => i,
                None => {
                    return Err(MapError::UnknownProvince(name.clone()));
                },
            };
            (i, None, retreat)
        } else {
            let (i, c) = match self.get_province_and_coast(name.as_str()) {
                Ok(r) => r,
                Err(x) => {
                    return Err(x);
                },
            };
            assert(ps[i as int] == province_model(self.name_to_province@[i as int]));
            let coast: Option<String> = match c {
                Some(CoastReference::Name(n)) => Some(n),
                Some(CoastReference::Index(_)) => None,
                None => if self.name_to_province[i].province_type != ProvinceType::SEA {
                    let is_coastal = match self.coastal_exec(i) {
                        Ok(b) => b,
                        Err(x) => {
                            return Err(x);
                        },
                    };
                    if is_coastal {
                        match &self.name_to_province[i].coasts {
                            Some(cs) => if cs.len() > 0 {
                                Some(cs[0].name.clone())
                            } else {
                                return Err(MapError::PhantomSkipped(name.clone()));
                            },
                            None => {
                                return Err(MapError::PhantomSkipped(name.clone()));
                            },
                        }
                    } else {
                        None
                    }
                } else {
                    None
                },
            };
            (i, coast, !retreat)
        };
        assert(ps[i as int] == province_model(self.name_to_province@[i as int]));
        let placement = UnitPlacement {
            province: self.name_to_province[i].name.clone(),
            coast,
            retreat: slot,
            layer_transform: copy_transform(lt),
            group_transform: copy_transform(group),
            marker: copy_marker(marker),
        };
        let ghost before = self.placements@;
        self.placements.push(placement);
        assert(placement_models(self.placements@) =~= placement_models(before).push(placement_model(placement)));
        Ok(())
    }

    fn parse_phantom_layer(
        &mut self,
        events: &Vec<XmlEvent>,
        pos: usize,
        layer: &XmlElement,
        fleet: bool,
        retreat: bool,
    ) -> (res: Result<usize, MapError>)
        requires
            pos <= events@.len(),
        ensures
            final(self).same_config(old(self)),
            final(self).same_reader(old(self)),
            final(self).provinces() == old(self).provinces(),
            final(self).border_state() == old(self).border_state(),
            match phantom_layer(
                old(self).provinces(),
                fleet,
                retreat,
                element_view(*layer),
                old(self).placements(),
                events_view(events@),
                pos as int,
            ) {
                Ok((st, q)) => res == Ok::<usize, MapError>(q as usize) && final(self).placements() == st.0,
                Err(x) => res is Err && map_error_view(res->Err_0) == x,
            },
    {
        let lt = match get_transform(layer) {
            Ok(t) => t,
            Err(x) => {
                return Err(x);
            },
        };
        let ghost ev = events_view(events@);
        let ghost step = phantom_step(self.provinces(), fleet, retreat, transform_view(lt));
        let mut group = TransformText::Empty;
        let mut name = String::new();
        let mut marker: Option<UnitMarker> = None;
        let ghost goal = scan(
            step,
            (self.placements(), transform_view(group), name@, marker_option_model(marker)),
            ev,
            pos as int,
            0,
        );
        assert(transform_view(group) == (0int, Seq::<Seq<char>>::empty()));
        let mut p = pos;
        let mut depth: usize = 0;
        while p < events.len()
            invariant
                ev == events_view(events@),
                step == phantom_step(old(self).provinces(), fleet, retreat, transform_view(lt)),
                transform_result(element_view(*layer)) == Ok::<TransformView, MapErrorView>(transform_view(lt)),
                goal == scan(
                    step,
                    (old(self).placements(), (0int, Seq::<Seq<char>>::empty()), Seq::<char>::empty(), None::<MarkerModel>),
                    ev,
                    pos as int,
                    0,
                ),
                pos <= p <= events@.len(),
                depth <= p - pos,
                self.same_config(old(self)),
                self.same_reader(old(self)),
                self.provinces() == old(self).provinces(),
                self.border_state() == old(self).border_state(),
                goal == scan(
                    step,
                    (self.placements(), transform_view(group), name@, marker_option_model(marker)),
                    ev,
                    p as int,
                    depth as int,
                ),
            decreases events@.len() - p,
        {
            let e = &events[p];
            assert(ev[p as int] == event_view(*e));
            match e {
                XmlEvent::Start(el) => {
                    if depth == 0 {
                        group = match get_transform(el) {
                            Ok(t) => t,
                            Err(x) => {
                                return Err(x);
                            },
                        };
                        name = match get_inkspace_label(el) {
                            Ok(n) => n,
                            Err(x) => {
                                return Err(x);
                            },
                        };
                    }
                    depth = depth + 1;
                },
                XmlEvent::End => {
                    if depth == 1 {
                        match self.phantom_end_exec(fleet, retreat, &lt, &group, &name, &marker) {
                            Ok(()) => {},
                            Err(x) => {
                                return Err(x);
                            },
                        }
                    }
                    if depth == 0 {
                        proof {
                            lemma_scan_close(
                                step,
                                (self.placements(), transform_view(group), name@, marker_option_model(marker)),
                                ev,
                                p as int,
                            );
                        }
                        return Ok(p + 1);
                    }
                    depth = depth - 1;
                },
                XmlEvent::Empty(el) => {
                    if depth == 0 {
                        return Err(MapError::PhantomOutside);
                    }
                    if str_eq(el.name.as_str(), "path") {
                        marker = match marker_exec(el) {
                            Ok(m) => Some(m),
                            Err(x) => {
                                return Err(x);
                            },
                        };
                    }
                },
                XmlEvent::Other => {},
            }
            p = p + 1;
        }
        Ok(p)
    }

    /// Reads a phantom army layer (primary, or retreat) whose group is
    /// `layer`, from event `pos` on; the position after it (see
    /// `phantom_layer`).
    pub fn parse_phantom_army_layer(&mut self, events: &Vec<XmlEvent>, pos: usize, layer: &XmlElement, retreat: bool) -> (res: Result<
        usize,
        MapError,
    >)
        requires
            pos <= events@.len(),
        ensures
            final(self).same_config(old(self)),
            final(self).same_reader(old(self)),
            final(self).provinces() == old(self).provinces(),
            final(self).border_state() == old(self).border_state(),
            match phantom_layer(
                old(self).provinces(),
                false,
                retreat,
                element_view(*layer),
                old(self).placements(),
                events_view(events@),
                pos as int,
            ) {
                Ok((st, q)) => res == Ok::<usize, MapError>(q as usize) && final(self).placements() == st.0,
                Err(x) => res is Err && map_error_view(res->Err_0) == x,
            },
    {
        self.parse_phantom_layer(events, pos, layer, false, retreat)
    }

    /// Reads a phantom fleet layer (primary, or retreat) whose group is
    /// `layer`, from event `pos` on; the position after it (see
    /// `phantom_layer`).
    pub fn parse_phantom_fleet_layer(&mut self, events: &Vec<XmlEvent>, pos: usize, layer: &XmlElement, retreat: bool) -> (res: Result<
        usize,
        MapError,
    >)
        requires
            pos <= events@.len(),
        ensures
            final(self).same_config(old(self)),
            final(self).same_reader(old(self)),
            final(self).provinces() == old(self).provinces(),
            final(self).border_state() == old(self).border_state(),
            match phantom_layer(
                old(self).provinces(),
                true,
                retreat,
                element_view(*layer),
                old(self).placements(),
                events_view(events@),
                pos as int,
            ) {
                Ok((st, q)) => res == Ok::<usize, MapError>(q as usize) && final(self).placements() == st.0,
                Err(x) => res is Err && map_error_view(res->Err_0) == x,
            },
    {
        self.parse_phantom_layer(events, pos, layer, true, retreat)
    }
}


/// Where the reading of a drawing stands, with what it has read: the
/// provinces, the border layers' provinces and outlines, the placements;
/// the next event, the depth of nesting, the current top layer, the layers
/// done, how many border layers were met, and whether the provinces were
/// processed.
pub struct ParseModel {
    pub provinces: Seq<ProvinceModel>,
    pub raw: Option<Seq<ProvinceModel>>,
    pub shapes: Seq<ShapeModel>,
    pub placements: Seq<PlacementModel>,
    pub pos: int,
    pub depth: int,
    pub layer: Layer,
    pub processed: Seq<Layer>,
    pub count: int,
    pub finished: bool,
}

/// The kind of province of a border layer.
pub open spec fn border_type(layer: Layer) -> ProvinceType {
    if layer == Layer::LandLayer {
        ProvinceType::LAND
    } else if layer == Layer::IslandLayer {
        ProvinceType::ISLAND
    } else {
        ProvinceType::SEA
    }
}

/// What the start of a top layer group does: the layer its id names is
/// read by the reader for it, from the next event on; the names layer and
/// unknown groups are entered. The centre, unit and names layers need
/// labels.
pub open spec fn layer_effect(
    m: ParseModel,
    layer: Layer,
    el: ElementView,
    ev: Seq<EventView>,
    li: LayerInfo,
    table: Seq<(String, Option<Arc<PlayerInfo>>)>,
) -> Result<ParseModel, MapErrorView> {
    let start = m.pos + 1;
    let m = ParseModel { layer, ..m };
    match layer {
        Layer::LandLayer | Layer::IslandLayer | Layer::SeaLayer => match border_layer(
            border_type(layer),
            el,
            li.province_labels,
            table,
            (m.raw, m.shapes),
            ev,
            start,
        ) {
            Err(x) => Err(x),
            Ok((st, q)) => Ok(ParseModel { raw: st.0, shapes: st.1, pos: q, count: m.count + 1, ..m }),
        },
        Layer::NamesLayer => if li.province_labels {
            Ok(ParseModel { depth: m.depth + 1, pos: start, ..m })
        } else {
            Err(MapErrorView::UnlabeledLayer)
        },
        Layer::CentersLayer => if li.center_labels {
            match scan(center_step(), m.provinces, ev, start, 0) {
                Err(x) => Err(x),
                Ok((ps, q)) => Ok(ParseModel { provinces: ps, pos: q, ..m }),
            }
        } else {
            Err(MapErrorView::UnlabeledLayer)
        },
        Layer::UnitsLayer => if li.unit_labels {
            match scan(unit_step(li.unit_type_labeled), (m.provinces, UnitType::ARMY, Seq::empty()), ev, start, 0) {
                Err(x) => Err(x),
                Ok((st, q)) => Ok(ParseModel { provinces: st.0, pos: q, ..m }),
            }
        } else {
            Err(MapErrorView::UnlabeledLayer)
        },
        Layer::IslandFillLayer => match scan(fill_step(table), m.provinces, ev, start, 0) {
            Err(x) => Err(x),
            Ok((ps, q)) => Ok(ParseModel { provinces: ps, pos: q, ..m }),
        },
        Layer::PhantomPrimaryArmiesLayer | Layer::PhantomRetreatArmiesLayer | Layer::PhantomPrimaryFleetsLayer
        | Layer::PhantomRetreatFleetsLayer => {
            let fleet = layer == Layer::PhantomPrimaryFleetsLayer || layer == Layer::PhantomRetreatFleetsLayer;
            let retreat = layer == Layer::PhantomRetreatArmiesLayer || layer == Layer::PhantomRetreatFleetsLayer;
            match phantom_layer(m.provinces, fleet, retreat, el, m.placements, ev, start) {
                Err(x) => Err(x),
                Ok((st, q)) => Ok(ParseModel { placements: st.0, pos: q, ..m }),
            }
        },
        Layer::Unknown => Ok(ParseModel { depth: m.depth + 1, pos: start, ..m }),
    }
}

pub proof fn lemma_layer_effect_advances(
    m: ParseModel,
    layer: Layer,
    el: ElementView,
    ev: Seq<EventView>,
    li: LayerInfo,
    table: Seq<(String, Option<Arc<PlayerInfo>>)>,
)
    requires
        0 <= m.pos < ev.len(),
    ensures
        layer_effect(m, layer, el, ev, li, table) matches Ok(m2) ==> m.pos < m2.pos <= ev.len(),
{
    let start = m.pos + 1;
    match layer {
        Layer::LandLayer | Layer::IslandLayer | Layer::SeaLayer => {
            if let Ok(lt) = transform_result(el) {
                lemma_scan_position(
                    border_step(border_type(layer), lt, li.province_labels, table),
                    (m.raw, m.shapes),
                    ev,
                    start,
                    0,
                );
            }
        },
        Layer::CentersLayer => {
            lemma_scan_position(center_step(), m.provinces, ev, start, 0);
        },
        Layer::UnitsLayer => {
            lemma_scan_position(
                unit_step(li.unit_type_labeled),
                (m.provinces, UnitType::ARMY, Seq::<char>::empty()),
                ev,
                start,
                0,
            );
        },
        Layer::IslandFillLayer => {
            lemma_scan_position(fill_step(table), m.provinces, ev, start, 0);
        },
        Layer::PhantomPrimaryArmiesLayer | Layer::PhantomRetreatArmiesLayer | Layer::PhantomPrimaryFleetsLayer
        | Layer::PhantomRetreatFleetsLayer => {
            let fleet = layer == Layer::PhantomPrimaryFleetsLayer || layer == Layer::PhantomRetreatFleetsLayer;
            let retreat = layer == Layer::PhantomRetreatArmiesLayer || layer == Layer::PhantomRetreatFleetsLayer;
            if let Ok(lt) = transform_result(el) {
                lemma_scan_position(
                    phantom_step(m.provinces, fleet, retreat, lt),
                    (m.placements, (0int, Seq::<Seq<char>>::empty()), Seq::<char>::empty(), None::<MarkerModel>),
                    ev,
                    start,
                    0,
                );
            }
        },
        _ => {},
    }
}

/// Reads the drawing's events from where the model stands: up to the end
/// of the document (`false`), or until the provinces are to be processed
/// (`true`): the first end tag read at the top after the third border
/// layer. Start tags at the top level are layers (see `layer_effect`),
/// nested ones are entered; an end tag closes the current top layer, and a
/// layer closed twice is an error.
pub open spec fn run(
    m: ParseModel,
    ev: Seq<EventView>,
    li: LayerInfo,
    table: Seq<(String, Option<Arc<PlayerInfo>>)>,
) -> Result<(ParseModel, bool), MapErrorView>
    decreases ev.len() - m.pos,
{
    if m.pos < 0 || m.pos >= ev.len() {
        Ok((m, false))
    } else {
        let e = ev[m.pos];
        if e.0 == 0 {
            if m.depth == 1 {
                match spec_required_attribute(e.1, "id"@) {
                    Err(x) => Err(x),
                    Ok(id) => match layer_effect(m, spec_match_id(li, id), e.1, ev, li, table) {
                        Err(x) => Err(x),
                        Ok(m2) => {
                            proof {
                                lemma_layer_effect_advances(m, spec_match_id(li, id), e.1, ev, li, table);
                            }
                            run(m2, ev, li, table)
                        },
                    },
                }
            } else {
                run(ParseModel { depth: m.depth + 1, pos: m.pos + 1, ..m }, ev, li, table)
            }
        } else if e.0 == 1 {
            if m.processed.contains(m.layer) {
                Err(MapErrorView::LayerTwice)
            } else {
                let m2 = ParseModel {
                    depth: m.depth - 1,
                    processed: if m.layer != Layer::Unknown {
                        m.processed.push(m.layer)
                    } else {
                        m.processed
                    },
                    layer: Layer::Unknown,
                    pos: m.pos + 1,
                    ..m
                };
                if m2.count == 3 && !m2.finished {
                    Ok((ParseModel { finished: true, ..m2 }, true))
                } else {
                    run(m2, ev, li, table)
                }
            }
        } else {
            run(ParseModel { pos: m.pos + 1, ..m }, ev, li, table)
        }
    }
}

/// Where reading a drawing stopped.
#[derive(Debug, Clone, Copy, PartialEq, Eq, Structural)]
pub enum ParseStop {
    /// The border layers are read: the provinces are to be processed,
    /// with their adjacencies, before reading on.
    NeedAdjacencies,
    /// The end of the document.
    Finished,
}

fn layer_listed(v: &Vec<Layer>, l: Layer) -> (res: bool)
    ensures
        res == v@.contains(l),
{
    let mut i: usize = 0;
    while i < v.len()
        invariant
            i <= v@.len(),
            forall|j: int| 0 <= j < i ==> v@[j] != l,
        decreases v@.len() - i,
    {
        if v[i] == l {
            return true;
        }
        i = i + 1;
    }
    false
}

impl Parser {
    /// Where the reading of the drawing stands.
    pub closed spec fn model(&self) -> ParseModel {
        ParseModel {
            provinces: self.provinces(),
            raw: self.raw(),
            shapes: self.shapes(),
            placements: self.placements(),
            pos: self.position as int,
            depth: self.depth as int,
            layer: self.layer,
            processed: self.processed_layers@,
            count: self.province_layer_count as int,
            finished: self.finished_provinces,
        }
    }

    /// Reads the drawing's events from where the reading stands, until the
    /// provinces are to be processed or the document ends (see `run`).
    pub fn parse_events(&mut self, events: &Vec<XmlEvent>) -> (res: Result<ParseStop, MapError>)
        requires
            old(self).model().pos <= events@.len() < i64::MAX,
            -old(self).model().pos <= old(self).model().depth <= old(self).model().pos,
            0 <= old(self).model().count <= old(self).model().pos,
        ensures
            final(self).same_config(old(self)),
            match run(old(self).model(), events_view(events@), old(self).layers(), old(self).table()) {
                Ok((m, paused)) => res == Ok::<ParseStop, MapError>(
                    if paused {
                        ParseStop::NeedAdjacencies
                    } else {
                        ParseStop::Finished
                    },
                ) && final(self).model() == m,
                Err(x) => res is Err && map_error_view(res->Err_0) == x,
            },
            res is Ok ==> {
                &&& final(self).model().pos <= events@.len()
                &&& -final(self).model().pos <= final(self).model().depth <= final(self).model().pos
                &&& 0 <= final(self).model().count <= final(self).model().pos
            },
    {
        let ghost ev = events_view(events@);
        let ghost li = self.layer_info;
        let ghost table = self.table();
        let ghost goal = run(self.model(), ev, li, table);
        while self.position < events.len()
            invariant
                ev == events_view(events@),
                li == old(self).layers(),
                table == old(self).table(),
                goal == run(old(self).model(), ev, li, table),
                self.same_config(old(self)),
                self.position <= events@.len() < i64::MAX,
                -(self.position as int) <= self.depth <= self.position,
                self.province_layer_count <= self.position,
                goal == run(self.model(), ev, li, table),
            decreases events@.len() - self.position,
        {
            let p = self.position;
            let e = &events[p];
            assert(ev[p as int] == event_view(*e));
            match e {
                XmlEvent::Start(el) => {
                    if self.depth == 1 {
                        let id = match get_id(el) {
                            Ok(id) => id,
                            Err(x) => {
                                return Err(x);
                            },
                        };
                        let layer = self.layer_info.match_id(id.as_str());
                        let ghost m = self.model();
                        proof {
                            lemma_layer_effect_advances(m, layer, element_view(*el), ev, li, table);
                        }
                        let ghost eff = layer_effect(m, layer, element_view(*el), ev, li, table);
                        self.layer = layer;
                        let next = match layer {
                            Layer::LandLayer | Layer::IslandLayer | Layer::SeaLayer => {
                                let t = if layer == Layer::LandLayer {
                                    ProvinceType::LAND
                                } else if layer == Layer::IslandLayer {
                                    ProvinceType::ISLAND
                                } else {
                                    ProvinceType::SEA
                                };
                                self.province_layer_count = self.province_layer_count + 1;
                                self.parse_province_layer(t, events, p + 1, el)
                            },
                            Layer::NamesLayer => {
                                if self.layer_info.province_labels {
                                    self.depth = self.depth + 1;
                                    Ok(p + 1)
                                } else {
                                    Err(MapError::UnlabeledLayer)
                                }
                            },
                            Layer::CentersLayer => {
                                if self.layer_info.center_labels {
                                    self.parse_supply_centers_assisted(events, p + 1)
                                } else {
                                    Err(MapError::UnlabeledLayer)
                                }
                            },
                            Layer::UnitsLayer => {
                                if self.layer_info.unit_labels {
                                    self.parse_units_assisted(events, p + 1)
                                } else {
                                    Err(MapError::UnlabeledLayer)
                                }
                            },
                            Layer::IslandFillLayer => self.parse_island_fill_layer(events, p + 1),
                            Layer::PhantomPrimaryArmiesLayer => self.parse_phantom_army_layer(events, p + 1, el, false),
                            Layer::PhantomRetreatArmiesLayer => self.parse_phantom_army_layer(events, p + 1, el, true),
                            Layer::PhantomPrimaryFleetsLayer => self.parse_phantom_fleet_layer(events, p + 1, el, false),
                            Layer::PhantomRetreatFleetsLayer => self.parse_phantom_fleet_layer(events, p + 1, el, true),
                            Layer::Unknown => {
                                self.depth = self.depth + 1;
                                Ok(p + 1)
                            },
                        };
                        match next {
                            Ok(q) => {
                                self.position = q;
                                assert(eff == Ok::<ParseModel, MapErrorView>(self.model()));
                            },
                            Err(x) => {
                                return Err(x);
                            },
                        }
                    } else {
                        self.depth = self.depth + 1;
                        self.position = p + 1;
                    }
                },
                XmlEvent::End => {
                    if layer_listed(&self.processed_layers, self.layer) {
                        return Err(MapError::LayerTwice);
                    }
                    self.depth = self.depth - 1;
                    if self.layer != Layer::Unknown {
                        self.processed_layers.push(self.layer);
                    }
                    self.layer = Layer::Unknown;
                    self.position = p + 1;
                    if self.province_layer_count == 3 && !self.finished_provinces {
                        self.finished_provinces = true;
                        return Ok(ParseStop::NeedAdjacencies);
                    }
                },
                _ => {
                    self.position = p + 1;
                },
            }
        }
        Ok(ParseStop::Finished)
    }
}


/// The members of an object.
pub open spec fn json_members(v: Json) -> Option<Seq<(String, Json)>> {
    match v {
        Json::Object(m) => Some(m@),
        _ => None,
    }
}

/// `value[key]` as an integer, if present and one.
pub open spec fn get_i64(v: Json, key: Seq<char>) -> Option<i64> {
    match json_get(v, key) {
        Some(x) => json_i64(x),
        None => None,
    }
}

/// The first entry a power's description lacks, in the order read (colour,
/// victory centres, initial centres), over the powers in turn.
pub open spec fn player_error(members: Seq<(String, Json)>) -> Option<Seq<char>>
    decreases members.len(),
{
    if members.len() == 0 {
        None
    } else {
        let d = members[0].1;
        if get_str(d, "color"@) is None {
            Some("color"@)
        } else if get_i64(d, "vscc"@) is None {
            Some("vscc"@)
        } else if get_i64(d, "iscc"@) is None {
            Some("iscc"@)
        } else {
            player_error(members.drop_first())
        }
    }
}

/// The first entry a map configuration lacks (as text), in the order read:
/// its name, its SVG configuration (and what that lacks), its drawing's
/// file, its powers (an object), and what the powers lack.
pub open spec fn config_error(config: Json) -> Option<Seq<char>> {
    if get_str(config, "name"@) is None {
        Some("name"@)
    } else if json_get(config, "svg config"@) is None {
        Some("svg config"@)
    } else if layer_config_error(json_get(config, "svg config"@).unwrap()) is Some {
        layer_config_error(json_get(config, "svg config"@).unwrap())
    } else if get_str(config, "file"@) is None {
        Some("file"@)
    } else if json_get(config, "players"@) is None || json_members(json_get(config, "players"@).unwrap()) is None {
        Some("players"@)
    } else {
        player_error(json_members(json_get(config, "players"@).unwrap()).unwrap())
    }
}

/// A power as a member of the configuration's powers describes it.
pub open spec fn player_from(p: Arc<PlayerInfo>, m: (String, Json)) -> bool {
    &&& p.name@ == m.0@
    &&& get_str(m.1, "color"@) == Some(p.color@)
    &&& get_i64(m.1, "vscc"@) == Some(p.vscc)
    &&& get_i64(m.1, "iscc"@) == Some(p.iscc)
}

/// A colour table as plain values.
pub type TableView = Seq<(Seq<char>, Option<Arc<PlayerInfo>>)>;

pub open spec fn table_view(t: Seq<(String, Option<Arc<PlayerInfo>>)>) -> TableView {
    t.map_values(|e: (String, Option<Arc<PlayerInfo>>)| (e.0@, e.1))
}

/// The position of a colour in a colour table.
pub open spec fn view_color_position(t: TableView, c: Seq<char>) -> Option<int>
    decreases t.len(),
{
    if t.len() == 0 {
        None
    } else if t[0].0 == c {
        Some(0)
    } else {
        match view_color_position(t.drop_first(), c) {
            Some(i) => Some(i + 1),
            None => None,
        }
    }
}

/// Sets the power of a colour (`HashMap::insert`): the colour keeps its
/// place if present, and comes last otherwise.
pub open spec fn color_put(t: TableView, c: Seq<char>, p: Option<Arc<PlayerInfo>>) -> TableView {
    match view_color_position(t, c) {
        Some(k) => t.update(k, (c, p)),
        None => t.push((c, p)),
    }
}

/// The colours of the powers, each with its power, in turn.
pub open spec fn player_colors(players: Seq<Arc<PlayerInfo>>) -> TableView
    decreases players.len(),
{
    if players.len() == 0 {
        Seq::empty()
    } else {
        color_put(player_colors(players.drop_last()), players.last().color@, Some(players.last()))
    }
}

/// The colour table of a map: the powers' colours, then the two neutral
/// colours, which stand for no power.
pub open spec fn initial_table(players: Seq<Arc<PlayerInfo>>, li: LayerInfo) -> TableView {
    color_put(color_put(player_colors(players), li.neutral@, None), li.neutral_sc@, None)
}

proof fn lemma_view_color_position(t: Seq<(String, Option<Arc<PlayerInfo>>)>, c: Seq<char>)
    ensures
        view_color_position(table_view(t), c) == crate::svg::color_position(t, c),
    decreases t.len(),
{
    if t.len() > 0 {
        assert(table_view(t).drop_first() =~= table_view(t.drop_first()));
        lemma_view_color_position(t.drop_first(), c);
    }
}

/// Sets the power of a colour in a colour table (see `color_put`).
fn color_insert(t: &mut ColorTable, c: String, p: Option<Arc<PlayerInfo>>)
    ensures
        table_view(final(t)@) == color_put(table_view(old(t)@), c@, p),
{
    proof {
        lemma_view_color_position(t@, c@);
        crate::svg::lemma_color_position(t@, c@);
    }
    match find_color(t, c.as_str()) {
        Some(k) => {
            let ghost before = t@;
            t.remove(k);
            t.insert(k, (c, p));
            assert(table_view(t@) =~= table_view(before).update(k as int, (c@, p)));
        },
        None => {
            let ghost before = t@;
            t.push((c, p));
            assert(table_view(t@) =~= table_view(before).push((c@, p)));
        },
    }
}

/// The position of the member `key` of an object.
fn member_index(m: &Vec<(String, Json)>, key: &str) -> (res: Option<usize>)
    ensures
        match res {
            Some(i) => crate::json::member_position(m@, key@) == Some(i as int) && i < m@.len(),
            None => crate::json::member_position(m@, key@) is None,
        },
{
    proof {
        crate::json::lemma_member_position(m@, key@);
    }
    let mut i: usize = 0;
    while i < m.len()
        invariant
            i <= m@.len(),
            forall|j: int| 0 <= j < i ==> m@[j].0@ != key@,
            match crate::json::member_position(m@, key@) {
                Some(q) => 0 <= q < m@.len() && m@[q].0@ == key@ && forall|j: int|
                    0 <= j < q ==> m@[j].0@ != key@,
                None => forall|j: int| 0 <= j < m@.len() ==> m@[j].0@ != key@,
            },
        decreases m@.len() - i,
    {
        if str_eq(m[i].0.as_str(), key) {
            proof {
                let q = crate::json::member_position(m@, key@);
                if q is Some {
                    assert(!(q.unwrap() < i));
                    assert(!(q.unwrap() > i));
                }
            }
            return Some(i);
        }
        i = i + 1;
    }
    None
}

/// Takes the member `key` out of an object (`value.get(key).cloned()`).
fn take_member(config: Json, key: &str) -> (res: Option<Json>)
    ensures
        res == json_get(config, key@),
{
    match config {
        Json::Object(mut m) => match member_index(&m, key) {
            Some(i) => {
                let (_, v) = m.remove(i);
                Some(v)
            },
            None => None,
        },
        _ => None,
    }
}

/// What reading a map configuration gives (see `Parser::new`): the first
/// entry it lacks as an error, or a parser holding the configuration that
/// has read nothing of the drawing yet.
pub open spec fn parser_from_config(datafile: Seq<char>, config: Json, res: Result<Parser, MapError>) -> bool {
    match config_error(config) {
        Some(k) => res is Err && map_error_view(res->Err_0) == MapErrorView::Config(k),
        None => res is Ok && {
            let p = res->Ok_0;
            let members = json_members(json_get(config, "players"@).unwrap()).unwrap();
            &&& p.map_name() == get_str(config, "name"@).unwrap()
            &&& p.data_file() == datafile
            &&& p.drawing_file() == get_str(config, "file"@).unwrap()
            &&& layer_info_from(p.layers(), json_get(config, "svg config"@).unwrap())
            &&& p.powers().len() == members.len()
            &&& forall|i: int| 0 <= i < members.len() ==> player_from(#[trigger] p.powers()[i], members[i])
            &&& table_view(p.table()) == initial_table(p.powers(), p.layers())
            &&& p.pending_overrides() == json_get(config, "overrides"@)
            &&& p.model() == ParseModel {
                provinces: Seq::empty(),
                raw: Some(Seq::empty()),
                shapes: Seq::empty(),
                placements: Seq::empty(),
                pos: 0,
                depth: 0,
                layer: Layer::Unknown,
                processed: Seq::empty(),
                count: 0,
                finished: false,
            }
        },
    }
}

impl Parser {
    /// The map's name.
    pub closed spec fn map_name(&self) -> Seq<char> {
        self.name@
    }

    /// The powers.
    pub closed spec fn powers(&self) -> Seq<Arc<PlayerInfo>> {
        self.players@
    }

    /// The configuration file the map comes from.
    pub closed spec fn data_file(&self) -> Seq<char> {
        self.datafile@
    }

    /// The file of the map's drawing.
    pub closed spec fn drawing_file(&self) -> Seq<char> {
        self.svg_file@
    }

    /// The file of the map's SVG drawing, as its configuration names it.
    pub fn svg_file_name(&self) -> (res: &str)
        ensures
            res@ == self.drawing_file(),
    {
        self.svg_file.as_str()
    }

    /// The map's overrides, not yet applied.
    pub closed spec fn pending_overrides(&self) -> Option<Json> {
        self.overrides
    }

    /// Reads a map configuration from its text (see `new`); a text that is
    /// not JSON is `MapError::NotJson`.
    pub fn from_config_text(datafile: String, text: &str) -> (res: Result<Parser, MapError>)
        ensures
            match json_of_text(text@) {
                None => res is Err && map_error_view(res->Err_0) == MapErrorView::NotJson,
                Some(config) => parser_from_config(datafile@, config, res),
            },
    {
        match parse_json_text(text) {
            Some(config) => Parser::new(datafile, config),
            None => Err(MapError::NotJson),
        }
    }

    /// Reads a map configuration (`datafile` names it): its name, its
    /// layers, its drawing's file, its powers (each with its colour and
    /// supply centre counts, in the order of the configuration) and its
    /// overrides. Fails with `MapError::Config` and the first entry it
    /// lacks (see `config_error`). Nothing of the drawing is read yet.
    pub fn new(datafile: String, config: Json) -> (res: Result<Parser, MapError>)
        ensures
            parser_from_config(datafile@, config, res),
    {
        let name = match get_json_str(&config, "name") {
            Some(s) => s.to_owned(),
            None => {
                return Err(MapError::Config(String::from_str("name")));
            },
        };
        let layers = match config.get("svg config") {
            Some(l) => l,
            None => {
                return Err(MapError::Config(String::from_str("svg config")));
            },
        };
        let layer_info = match LayerInfo::new(layers) {
            Ok(li) => li,
            Err(x) => {
                return Err(x);
            },
        };
        let svg_file = match get_json_str(&config, "file") {
            Some(s) => s.to_owned(),
            None => {
                return Err(MapError::Config(String::from_str("file")));
            },
        };
        let members = match config.get("players") {
            Some(v) => match v.as_object() {
                Some(m) => m,
                None => {
                    return Err(MapError::Config(String::from_str("players")));
                },
            },
            None => {
                return Err(MapError::Config(String::from_str("players")));
            },
        };
        let mut players: Vec<Arc<PlayerInfo>> = Vec::new();
        let mut color_to_player: ColorTable = Vec::new();
        let mut i: usize = 0;
        assert(table_view(color_to_player@) =~= player_colors(players@));
        assert(members@.subrange(0, members@.len() as int) =~= members@);
        assert(config_error(config) == player_error(members@));
        while i < members.len()
            invariant
                config_error(config) == player_error(members@),
                i <= members@.len(),
                players@.len() == i,
                player_error(members@) == player_error(members@.subrange(i as int, members@.len() as int)),
                forall|j: int| 0 <= j < i ==> player_from(#[trigger] players@[j], members@[j]),
                table_view(color_to_player@) == player_colors(players@),
            decreases members@.len() - i,
        {
            let ghost rest = members@.subrange(i as int, members@.len() as int);
            assert(rest.drop_first() =~= members@.subrange(i + 1, members@.len() as int));
            let (pname, data) = &members[i];
            let color = match get_json_str(data, "color") {
                Some(c) => c,
                None => {
                    return Err(MapError::Config(String::from_str("color")));
                },
            };
            let vscc = match data.get("vscc") {
                Some(v) => match v.as_i64() {
                    Some(n) => n,
                    None => {
                        return Err(MapError::Config(String::from_str("vscc")));
                    },
                },
                None => {
                    return Err(MapError::Config(String::from_str("vscc")));
                },
            };
            let iscc = match data.get("iscc") {
                Some(v) => match v.as_i64() {
                    Some(n) => n,
                    None => {
                        return Err(MapError::Config(String::from_str("iscc")));
                    },
                },
                None => {
                    return Err(MapError::Config(String::from_str("iscc")));
                },
            };
            let player = PlayerInfo::new(pname.clone(), color.to_owned(), vscc, iscc);
            let ghost before = players@;
            players.push(arc_clone(&player));
            color_insert(&mut color_to_player, color.to_owned(), Some(player));
            proof {
                assert(players@.drop_last() =~= before);
                assert forall|j: int| 0 <= j < i + 1 implies player_from(#[trigger] players@[j], members@[j]) by {
                    if j < i {
                        assert(players@[j] == before[j]);
                    }
                }
            }
            i = i + 1;
        }
        assert(members@.subrange(i as int, members@.len() as int) =~= Seq::<(String, Json)>::empty());
        color_insert(&mut color_to_player, layer_info.neutral.clone(), None);
        color_insert(&mut color_to_player, layer_info.neutral_sc.clone(), None);
        let overrides = take_member(config, "overrides");
        let parser = Parser {
            name,
            players,
            datafile,
            svg_file,
            color_to_player,
            name_to_province: Vec::new(),
            layer_info,
            overrides,
            raw_provinces: Some(Vec::new()),
            shapes: Vec::new(),
            placements: Vec::new(),
            position: 0,
            depth: 0,
            layer: Layer::Unknown,
            processed_layers: Vec::new(),
            province_layer_count: 0,
            finished_provinces: false,
        };
        assert(parser.provinces() =~= Seq::<ProvinceModel>::empty());
        assert(parser.shapes() =~= Seq::<ShapeModel>::empty());
        assert(parser.placements() =~= Seq::<PlacementModel>::empty());
        assert(parser.raw() == Some(Seq::<ProvinceModel>::empty())) by {
            assert(province_models(parser.raw_provinces.unwrap()@) =~= Seq::<ProvinceModel>::empty());
        }
        Ok(parser)
    }
}


/// What processing the provinces does: the border layers' provinces are
/// added (each name once), the adjacencies linked, the overrides applied,
/// and the coasts set.
pub open spec fn process(
    ps: Seq<ProvinceModel>,
    raw: Seq<ProvinceModel>,
    pairs: Seq<(Seq<char>, Seq<char>)>,
    overrides: Option<Json>,
) -> Result<Seq<ProvinceModel>, MapErrorView> {
    match insert_all(ps, raw) {
        Err(x) => Err(x),
        Ok(a) => match link_all(a, pairs) {
            Err(x) => Err(x),
            Ok(b) => match apply_overrides(b, overrides) {
                Err(x) => Err(x),
                Ok(c) => coasts_all(c, 0),
            },
        },
    }
}

/// A map read from its drawing: its description, and, for what is
/// computed outside this library, the provinces' outlines and the units'
/// placements.
pub struct ParsedMap {
    pub info: BoardInfo,
    pub shapes: Vec<ProvinceShape>,
    pub placements: Vec<UnitPlacement>,
}

impl Parser {
    /// The outlines read from the border layers, in order.
    pub fn province_shapes(&self) -> (res: &Vec<ProvinceShape>)
        ensures
            shape_models(res@) == self.shapes(),
    {
        &self.shapes
    }

    /// Whether the border layers' provinces wait to be processed.
    pub fn awaiting_processing(&self) -> (res: bool)
        ensures
            res == (self.raw() is Some),
    {
        self.raw_provinces.is_some()
    }

    /// Processes the provinces read from the border layers, with the
    /// adjacencies given for them (pairs of names), and applies the map's
    /// overrides (see `process`).
    pub fn process_provinces(&mut self, adjacencies: &Vec<(String, String)>) -> (res: Result<(), MapError>)
        requires
            old(self).raw() is Some,
        ensures
            match process(
                old(self).provinces(),
                old(self).raw().unwrap(),
                pair_views(adjacencies@),
                old(self).pending_overrides(),
            ) {
                Ok(ps) => {
                    &&& res is Ok
                    &&& final(self).provinces() == ps
                    &&& final(self).raw() is None
                    &&& final(self).pending_overrides() is None
                    &&& final(self).same_setup(old(self))
                    &&& final(self).same_reader(old(self))
                    &&& final(self).shapes() == old(self).shapes()
                    &&& final(self).placements() == old(self).placements()
                },
                Err(x) => res is Err && map_error_view(res->Err_0) == x,
            },
    {
        let mut raw = self.raw_provinces.take().unwrap();
        match insert_provinces(&mut self.name_to_province, &mut raw) {
            Ok(()) => {},
            Err(x) => {
                return Err(x);
            },
        }
        match link_pairs(&mut self.name_to_province, adjacencies) {
            Ok(()) => {},
            Err(x) => {
                return Err(x);
            },
        }
        let overrides = self.overrides.take();
        match json_cheats(&mut self.name_to_province, overrides) {
            Ok(()) => {},
            Err(x) => {
                return Err(x);
            },
        }
        set_all_coasts(&mut self.name_to_province)
    }

    /// The map read: its name, powers, provinces (in the order read) and
    /// configuration file; with the outlines and placements.
    pub fn into_parsed_map(self) -> (res: ParsedMap)
        ensures
            res.info.name@ == self.map_name(),
            res.info.players@ == self.powers(),
            res.info.datafile@ == self.data_file(),
            res.info.name_to_info@.len() == self.provinces().len(),
            forall|i: int|
                0 <= i < self.provinces().len() ==> province_model(*#[trigger] res.info.name_to_info@[i])
                    == self.provinces()[i],
            shape_models(res.shapes@) == self.shapes(),
            placement_models(res.placements@) == self.placements(),
    {
        let Parser { name, players, datafile, name_to_province, shapes, placements, .. } = self;
        let ghost ps = province_models(name_to_province@);
        let mut provinces = name_to_province;
        let mut infos: Vec<Arc<ProvinceInfo>> = Vec::new();
        let ghost all = provinces@;
        while provinces.len() > 0
            invariant
                all == infos@.map_values(|a: Arc<ProvinceInfo>| *a) + provinces@,
            decreases provinces@.len(),
        {
            let ghost before_infos = infos@;
            let ghost before = provinces@;
            let p = provinces.remove(0);
            infos.push(Arc::new(p));
            assert(infos@.map_values(|a: Arc<ProvinceInfo>| *a) + provinces@ =~= before_infos.map_values(
                |a: Arc<ProvinceInfo>| *a,
            ) + before);
        }
        proof {
            assert(infos@.map_values(|a: Arc<ProvinceInfo>| *a) =~= all);
            assert forall|i: int| 0 <= i < infos@.len() implies province_model(*#[trigger] infos@[i]) == ps[i] by {
                assert(*infos@[i] == infos@.map_values(|a: Arc<ProvinceInfo>| *a)[i]);
            }
        }
        ParsedMap { info: BoardInfo { name, players, name_to_info: infos, datafile }, shapes, placements }
    }
}

} // verus!
