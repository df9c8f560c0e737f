use std::sync::Arc;
use vstd::prelude::*;

use crate::map_error::MapErrorView;
use crate::path::StepView;
use crate::player::PlayerInfo;
use crate::province::{spec_reference_key, Coast, CoastReference, ProvinceInfo, ProvinceReference, ProvinceType};
use crate::support::str_eq;
use crate::svg::EventView;
use crate::transform::TransformView;
use crate::unit::{Unit, UnitType};

verus! {

/// A reference as a plain value: `Ok(name)` or `Err(position)`.
pub type ReferenceKey = Result<Seq<char>, usize>;

pub open spec fn reference_keys(v: Seq<ProvinceReference>) -> Seq<ReferenceKey> {
    v.map_values(|r: ProvinceReference| spec_reference_key(r))
}

pub open spec fn coast_reference_key(r: CoastReference) -> ReferenceKey {
    match r {
        CoastReference::Name(n) => Ok(n@),
        CoastReference::Index(i) => Err(i),
    }
}

/// A coast as plain values.
pub struct CoastModel {
    pub name: Seq<char>,
    pub adjacent_seas: Seq<ReferenceKey>,
    pub province: ReferenceKey,
}

/// A unit as plain values.
pub struct UnitModel {
    pub unit_type: UnitType,
    pub owner: Arc<PlayerInfo>,
    pub province: ReferenceKey,
    pub coast: Option<ReferenceKey>,
    pub retreat_options: Option<Seq<ReferenceKey>>,
}

/// A province description as plain values.
pub struct ProvinceModel {
    pub name: Seq<char>,
    pub province_type: ProvinceType,
    pub adjacent: Seq<ReferenceKey>,
    pub has_supply_center: bool,
    pub initial_owner: Option<Arc<PlayerInfo>>,
    pub initial_core: Option<Arc<PlayerInfo>>,
    pub initial_unit: Option<UnitModel>,
    pub coasts: Option<Seq<CoastModel>>,
}

pub open spec fn coast_model(c: Coast) -> CoastModel {
    CoastModel {
        name: c.name@,
        adjacent_seas: reference_keys(c.adjacent_seas@),
        province: spec_reference_key(c.province),
    }
}

pub open spec fn coast_models(v: Seq<Coast>) -> Seq<CoastModel> {
    v.map_values(|c: Coast| coast_model(c))
}

pub open spec fn unit_model(u: Unit) -> UnitModel {
    UnitModel {
        unit_type: u.unit_type,
        owner: u.owner,
        province: spec_reference_key(u.current_province),
        coast: match u.coast {
            Some(c) => Some(coast_reference_key(c)),
            None => None,
        },
        retreat_options: match u.retreat_options {
            Some(v) => Some(reference_keys(v@)),
            None => None,
        },
    }
}

pub open spec fn unit_option_model(u: Option<Unit>) -> Option<UnitModel> {
    match u {
        Some(x) => Some(unit_model(x)),
        None => None,
    }
}

pub open spec fn province_model(p: ProvinceInfo) -> ProvinceModel {
    ProvinceModel {
        name: p.name@,
        province_type: p.province_type,
        adjacent: reference_keys(p.adjacent@),
        has_supply_center: p.has_supply_center,
        initial_owner: p.initial_owner,
        initial_core: p.initial_core,
        initial_unit: match p.initial_unit {
            Some(u) => Some(unit_model(u)),
            None => None,
        },
        coasts: match p.coasts {
            Some(v) => Some(coast_models(v@)),
            None => None,
        },
    }
}

pub open spec fn province_models(v: Seq<ProvinceInfo>) -> Seq<ProvinceModel> {
    v.map_values(|p: ProvinceInfo| province_model(p))
}

/// A province just read from its border: its name and kind, nothing else.
pub open spec fn bare_province(name: Seq<char>, t: ProvinceType) -> ProvinceModel {
    ProvinceModel {
        name,
        province_type: t,
        adjacent: Seq::empty(),
        has_supply_center: false,
        initial_owner: None,
        initial_core: None,
        initial_unit: None,
        coasts: None,
    }
}

/// The position of the first province called `name`.
pub open spec fn province_index(ps: Seq<ProvinceModel>, name: Seq<char>) -> Option<int>
    decreases ps.len(),
{
    if ps.len() == 0 {
        None
    } else if ps[0].name == name {
        Some(0)
    } else {
        match province_index(ps.drop_first(), name) {
            Some(i) => Some(i + 1),
            None => None,
        }
    }
}

pub proof fn lemma_province_index(ps: Seq<ProvinceModel>, name: Seq<char>)
    ensures
        match province_index(ps, name) {
            Some(i) => 0 <= i < ps.len() && ps[i].name == name && forall|j: int|
                0 <= j < i ==> ps[j].name != name,
            None => forall|j: int| 0 <= j < ps.len() ==> ps[j].name != name,
        },
    decreases ps.len(),
{
    if ps.len() > 0 && ps[0].name != name {
        lemma_province_index(ps.drop_first(), name);
        assert forall|j: int| 1 <= j < ps.len() implies ps[j] == ps.drop_first()[j - 1] by {}
    }
}

/// The first province called `name`, when it is at `k`.
pub proof fn lemma_province_index_at(ps: Seq<ProvinceModel>, name: Seq<char>, k: int)
    requires
        0 <= k < ps.len(),
        ps[k].name == name,
        forall|j: int| 0 <= j < k ==> ps[j].name != name,
    ensures
        province_index(ps, name) == Some(k),
{
    lemma_province_index(ps, name);
    let r = province_index(ps, name);
    if r is Some {
        assert(!(r.unwrap() < k));
        assert(!(k < r.unwrap()));
    }
}

/// Changing a province but not its name keeps every name's position.
pub proof fn lemma_province_index_update(ps: Seq<ProvinceModel>, i: int, p: ProvinceModel, name: Seq<char>)
    requires
        0 <= i < ps.len(),
        p.name == ps[i].name,
    ensures
        province_index(ps.update(i, p), name) == province_index(ps, name),
{
    let qs = ps.update(i, p);
    lemma_province_index(ps, name);
    lemma_province_index(qs, name);
    assert forall|j: int| 0 <= j < ps.len() implies qs[j].name == ps[j].name by {}
    let a = province_index(ps, name);
    let b = province_index(qs, name);
    if a is Some && b is Some {
        assert(!(a.unwrap() < b.unwrap()));
        assert(!(b.unwrap() < a.unwrap()));
    }
}

/// The outline of a province read from the drawing, for its geometry: the
/// province's name, the transforms of its layer and of its own element,
/// and the steps of its path.
pub struct ShapeModel {
    pub name: Seq<char>,
    pub layer_transform: TransformView,
    pub transform: TransformView,
    pub path: Seq<StepView>,
}

/// The marker of a phantom unit: its centre as text and its transform.
pub struct MarkerModel {
    pub cx: Seq<char>,
    pub cy: Seq<char>,
    pub transform: TransformView,
}

/// Where the drawing puts a unit of a province (or of one of its coasts):
/// in the primary or the retreat slot; the layer's and the group's
/// transforms, and the marker (none: the origin).
pub struct PlacementModel {
    pub province: Seq<char>,
    pub coast: Option<Seq<char>>,
    pub retreat: bool,
    pub layer_transform: TransformView,
    pub group_transform: TransformView,
    pub marker: Option<MarkerModel>,
}

/// How an event changes the depth of nesting: a start tag opens, an end
/// tag closes.
pub open spec fn depth_change(e: EventView) -> int {
    if e.0 == 0 {
        1
    } else if e.0 == 1 {
        -1
    } else {
        0
    }
}

/// Reads the events of a layer from `pos` on, at nesting `depth`, with
/// `step` (which sees the state, the event and the depth before it): up
/// to the event that closes the layer, that one included, or to the end of
/// the document. The final state and the position after it, or the first
/// error.
pub open spec fn scan<S>(
    step: spec_fn(S, EventView, int) -> Result<S, MapErrorView>,
    s: S,
    ev: Seq<EventView>,
    pos: int,
    depth: int,
) -> Result<(S, int), MapErrorView>
    decreases ev.len() - pos,
{
    if depth < 0 || pos < 0 || pos >= ev.len() {
        Ok((s, pos))
    } else {
        match step(s, ev[pos], depth) {
            Ok(s2) => scan(step, s2, ev, pos + 1, depth + depth_change(ev[pos])),
            Err(x) => Err(x),
        }
    }
}

/// A scan ends at or after where it starts, and not past the end.
pub proof fn lemma_scan_position<S>(
    step: spec_fn(S, EventView, int) -> Result<S, MapErrorView>,
    s: S,
    ev: Seq<EventView>,
    pos: int,
    depth: int,
)
    requires
        0 <= pos <= ev.len(),
    ensures
        scan(step, s, ev, pos, depth) matches Ok((_, q)) ==> pos <= q <= ev.len(),
    decreases ev.len() - pos,
{
    if depth >= 0 && pos < ev.len() {
        if let Ok(s2) = step(s, ev[pos], depth) {
            lemma_scan_position(step, s2, ev, pos + 1, depth + depth_change(ev[pos]));
        }
    }
}

/// A scan at depth zero ends with an end tag that leaves the state as it
/// is.
pub proof fn lemma_scan_close<S>(
    step: spec_fn(S, EventView, int) -> Result<S, MapErrorView>,
    s: S,
    ev: Seq<EventView>,
    pos: int,
)
    requires
        0 <= pos < ev.len(),
        ev[pos].0 == 1,
        step(s, ev[pos], 0) == Ok::<S, MapErrorView>(s),
    ensures
        scan(step, s, ev, pos, 0) == Ok::<(S, int), MapErrorView>((s, pos + 1)),
{
    assert(scan(step, s, ev, pos + 1, -1) == Ok::<(S, int), MapErrorView>((s, pos + 1)));
}

pub proof fn lemma_models_update(v: Seq<ProvinceInfo>, i: int, p: ProvinceInfo)
    requires
        0 <= i < v.len(),
    ensures
        province_models(v.update(i, p)) == province_models(v).update(i, province_model(p)),
{
    assert(province_models(v.update(i, p)) =~= province_models(v).update(i, province_model(p)));
}

/// The position of the first province called `name` among `v`.
pub fn find_province(v: &Vec<ProvinceInfo>, name: &str) -> (res: Option<usize>)
    ensures
        match res {
            Some(i) => province_index(province_models(v@), name@) == Some(i as int) && i < v@.len(),
            None => province_index(province_models(v@), name@) is None,
        },
{
    let ghost ps = province_models(v@);
    proof {
        lemma_province_index(ps, name@);
    }
    let mut i: usize = 0;
    while i < v.len()
        invariant
            ps == province_models(v@),
            i <= v@.len(),
            forall|j: int| 0 <= j < i ==> ps[j].name != name@,
        decreases v@.len() - i,
    {
        if str_eq(v[i].name.as_str(), name) {
            proof {
                lemma_province_index_at(ps, name@, i as int);
            }
            return Some(i);
        }
        i = i + 1;
    }
    None
}

} // verus!
