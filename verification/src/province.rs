use std::sync::Arc;
use vstd::prelude::*;

use crate::player::PlayerInfo;
use crate::support::str_eq;
use crate::unit::Unit;

verus! {

/// Where a unit can stand: a coast or a whole province.
pub enum Location {
    Coast(CoastReference),
    Province(ProvinceReference),
}

/// The name a location refers to, when it refers by name.
pub open spec fn location_name(l: Location) -> Option<Seq<char>> {
    match l {
        Location::Coast(CoastReference::Name(n)) => Some(n@),
        Location::Province(ProvinceReference::Name(n)) => Some(n@),
        _ => None,
    }
}

impl Location {
    /// The name of the location: the name its reference carries. A
    /// location given by position has no name here.
    pub fn get_name(&self) -> (res: &str)
        requires
            location_name(*self) is Some,
        ensures
            res@ == location_name(*self).unwrap(),
    {
        match self {
            Location::Coast(CoastReference::Name(n)) => n.as_str(),
            Location::Province(ProvinceReference::Name(n)) => n.as_str(),
            Location::Coast(CoastReference::Index(_)) => "",
            Location::Province(ProvinceReference::Index(_)) => "",
        }
    }
}

/// Refers to a coast of a province, by name or by position.
#[derive(Debug)]
pub enum CoastReference {
    Name(String),
    Index(usize),
}

/// Refers to a province, by name or by position.
#[derive(Debug)]
pub enum ProvinceReference {
    Name(String),
    Index(usize),
}

impl Clone for CoastReference {
    fn clone(&self) -> (res: Self)
        ensures
            res == *self,
    {
        match self {
            CoastReference::Name(n) => CoastReference::Name(n.clone()),
            CoastReference::Index(i) => CoastReference::Index(*i),
        }
    }
}

impl Clone for ProvinceReference {
    fn clone(&self) -> (res: Self)
        ensures
            res == *self,
    {
        match self {
            ProvinceReference::Name(n) => ProvinceReference::Name(n.clone()),
            ProvinceReference::Index(i) => ProvinceReference::Index(*i),
        }
    }
}

/// Whether two province references are the same (same variant, same name
/// or same position).
pub fn same_province_reference(a: &ProvinceReference, b: &ProvinceReference) -> (res: bool)
    ensures
        res == (spec_reference_key(*a) == spec_reference_key(*b)),
{
    match (a, b) {
        (ProvinceReference::Name(x), ProvinceReference::Name(y)) => str_eq(x.as_str(), y.as_str()),
        (ProvinceReference::Index(x), ProvinceReference::Index(y)) => *x == *y,
        _ => false,
    }
}

/// A province reference as a plain value: `Ok(name)` or `Err(position)`.
pub open spec fn spec_reference_key(r: ProvinceReference) -> Result<Seq<char>, usize> {
    match r {
        ProvinceReference::Name(n) => Ok(n@),
        ProvinceReference::Index(i) => Err(i),
    }
}

/// The kinds of province.
#[derive(Debug, Clone, Copy, PartialEq, Eq, Structural)]
pub enum ProvinceType {
    LAND,
    ISLAND,
    SEA,
}

pub open spec fn province_type_name(t: ProvinceType) -> Seq<char> {
    match t {
        ProvinceType::LAND => "LAND"@,
        ProvinceType::ISLAND => "ISLAND"@,
        ProvinceType::SEA => "SEA"@,
    }
}

impl ProvinceType {
    /// "LAND", "ISLAND" or "SEA".
    pub fn name(&self) -> (res: &str)
        ensures
            res@ == province_type_name(*self),
    {
        match self {
            ProvinceType::LAND => "LAND",
            ProvinceType::ISLAND => "ISLAND",
            ProvinceType::SEA => "SEA",
        }
    }
}

/// A coast of a province: its name, the sea provinces a fleet on it
/// borders, and its province.
#[derive(Debug)]
pub struct Coast {
    pub name: String,
    pub adjacent_seas: Vec<ProvinceReference>,
    pub province: ProvinceReference,
}

impl Coast {
    /// A reference to this coast by its name.
    pub fn to_reference(&self) -> (res: CoastReference)
        ensures
            res == CoastReference::Name(self.name),
    {
        CoastReference::Name(self.name.clone())
    }
}

/// The fixed description of a province as the map defines it.
#[derive(Debug)]
pub struct ProvinceInfo {
    pub name: String,
    pub province_type: ProvinceType,
    pub adjacent: Vec<ProvinceReference>,
    pub has_supply_center: bool,
    pub initial_owner: Option<Arc<PlayerInfo>>,
    pub initial_core: Option<Arc<PlayerInfo>>,
    pub initial_unit: Option<Unit>,
    pub coasts: Option<Vec<Coast>>,
}

/// The position of the first coast named `name` among `coasts`, if any.
pub open spec fn first_coast_named(coasts: Seq<Coast>, name: Seq<char>) -> Option<int>
    decreases coasts.len(),
{
    if coasts.len() == 0 {
        None
    } else if coasts[0].name@ == name {
        Some(0)
    } else {
        match first_coast_named(coasts.drop_first(), name) {
            Some(i) => Some(i + 1),
            None => None,
        }
    }
}

/// The first coast of a name is a coast of that name, and no earlier coast
/// has it; when there is none, no coast has the name.
pub proof fn lemma_first_coast_named_props(coasts: Seq<Coast>, name: Seq<char>)
    ensures
        match first_coast_named(coasts, name) {
            Some(i) => 0 <= i < coasts.len() && coasts[i].name@ == name && forall|j: int|
                0 <= j < i ==> coasts[j].name@ != name,
            None => forall|j: int| 0 <= j < coasts.len() ==> coasts[j].name@ != name,
        },
    decreases coasts.len(),
{
    if coasts.len() > 0 && coasts[0].name@ != name {
        lemma_first_coast_named_props(coasts.drop_first(), name);
        assert forall|j: int| 1 <= j < coasts.len() implies coasts[j] == coasts.drop_first()[j - 1] by {}
    }
}

/// The position that a coast reference designates among `coasts`, when it
/// designates one.
pub open spec fn coast_position(coasts: Option<Vec<Coast>>, r: CoastReference) -> Option<int> {
    match coasts {
        None => None,
        Some(v) => match r {
            CoastReference::Name(n) => first_coast_named(v@, n@),
            CoastReference::Index(i) => if i < v@.len() {
                Some(i as int)
            } else {
                None
            },
        },
    }
}

proof fn lemma_first_coast_named(coasts: Seq<Coast>, name: Seq<char>, k: int)
    requires
        0 <= k < coasts.len(),
        coasts[k].name@ == name,
        forall|j: int| 0 <= j < k ==> coasts[j].name@ != name,
    ensures
        first_coast_named(coasts, name) == Some(k),
{
    lemma_first_coast_named_props(coasts, name);
    let r = first_coast_named(coasts, name);
    if r is Some {
        let i = r.unwrap();
        assert(!(i < k));
        assert(!(k < i));
    }
}

/// A coast reference that designates a coast designates one of the coasts.
pub proof fn lemma_coast_position_in_range(info: Arc<ProvinceInfo>, r: CoastReference)
    ensures
        ({
            let coasts = info.coasts;
            coast_position(coasts, r) is Some ==> 0 <= coast_position(coasts, r).unwrap()
                < coasts.unwrap()@.len()
        }),
{
    lemma_coast_position_in_range_of(&info.coasts, r);
}

proof fn lemma_coast_position_in_range_of(coasts: &Option<Vec<Coast>>, r: CoastReference)
    ensures
        coast_position(*coasts, r) is Some ==> 0 <= coast_position(*coasts, r).unwrap()
            < coasts.unwrap()@.len(),
{
    if *coasts is Some {
        if r is Name {
            lemma_first_coast_named_props(coasts.unwrap()@, r->Name_0@);
        }
    }
}

/// Whether a province is a sea or an island (a fleet on a coast next to
/// it can reach it).
pub open spec fn is_sea_like(t: ProvinceType) -> bool {
    t == ProvinceType::SEA || t == ProvinceType::ISLAND
}

/// The adjacent provinces whose kind is sea-like, in order.
pub open spec fn sea_references(adjacent: Seq<ProvinceReference>, types: Seq<ProvinceType>) -> Seq<
    ProvinceReference,
>
    decreases adjacent.len(),
{
    if adjacent.len() == 0 || types.len() == 0 {
        Seq::empty()
    } else {
        let rest = sea_references(adjacent.drop_last(), types.drop_last());
        if is_sea_like(types.last()) {
            rest.push(adjacent.last())
        } else {
            rest
        }
    }
}

/// Whether `r` is one of `adjacent` whose kind (in `types`) is not land.
pub open spec fn adjacent_non_land(adjacent: Seq<ProvinceReference>, types: Seq<ProvinceType>, r: ProvinceReference) -> bool {
    exists|k: int| 0 <= k < adjacent.len() && adjacent[k] == r && types[k] != ProvinceType::LAND
}

/// The references a province keeps for its coast are those of its
/// adjacent seas and islands: every adjacent sea or island is among them,
/// and each of them is an adjacent province that is not land.
pub proof fn lemma_sea_references(adjacent: Seq<ProvinceReference>, types: Seq<ProvinceType>)
    requires
        adjacent.len() == types.len(),
    ensures
        forall|k: int|
            0 <= k < adjacent.len() && (types[k] == ProvinceType::SEA || types[k] == ProvinceType::ISLAND)
                ==> #[trigger] sea_references(adjacent, types).contains(adjacent[k]),
        forall|j: int|
            0 <= j < sea_references(adjacent, types).len() ==> adjacent_non_land(
                adjacent,
                types,
                #[trigger] sea_references(adjacent, types)[j],
            ),
    decreases adjacent.len(),
{
    if adjacent.len() > 0 {
        let a0 = adjacent.drop_last();
        let t0 = types.drop_last();
        lemma_sea_references(a0, t0);
        let rest = sea_references(a0, t0);
        let n = adjacent.len() - 1;
        let full = sea_references(adjacent, types);
        assert forall|k: int|
            0 <= k < adjacent.len() && (types[k] == ProvinceType::SEA || types[k] == ProvinceType::ISLAND)
                implies #[trigger] full.contains(adjacent[k]) by {
            if k < n {
                assert(a0[k] == adjacent[k] && t0[k] == types[k]);
                assert(rest.contains(a0[k]));
                let j = choose|j: int| 0 <= j < rest.len() && rest[j] == a0[k];
                assert(full[j] == rest[j]);
            } else {
                assert(types.last() == types[k]);
                assert(full[full.len() - 1] == adjacent.last());
            }
        }
        assert forall|j: int| 0 <= j < full.len() implies adjacent_non_land(adjacent, types, #[trigger] full[j]) by {
            if j < rest.len() {
                assert(full[j] == rest[j]);
                assert(adjacent_non_land(a0, t0, rest[j]));
                let k = choose|k: int| 0 <= k < a0.len() && a0[k] == rest[j] && t0[k] != ProvinceType::LAND;
                assert(adjacent[k] == a0[k] && types[k] == t0[k]);
                assert(0 <= k < adjacent.len() && adjacent[k] == sea_references(adjacent, types)[j]
                    && types[k] != ProvinceType::LAND);
            } else {
                assert(is_sea_like(types.last()));
                assert(full == rest.push(adjacent.last()));
                assert(adjacent[n] == adjacent.last() && types[n] == types.last());
                assert(0 <= n < adjacent.len() && adjacent[n] == sea_references(adjacent, types)[j]
                    && types[n] != ProvinceType::LAND);
            }
        }
    } else {
        assert(sea_references(adjacent, types).len() == 0);
    }
}

impl ProvinceInfo {
    /// A reference to this province by its name.
    pub fn to_reference(&self) -> (res: ProvinceReference)
        ensures
            res == ProvinceReference::Name(self.name),
    {
        ProvinceReference::Name(self.name.clone())
    }

    /// The coast a reference designates: by name, the first coast of that
    /// name; by position, the coast at that position. The reference must
    /// designate a coast of this province.
    pub fn resolve_reference(&self, coast: &CoastReference) -> (res: &Coast)
        requires
            coast_position(self.coasts, *coast) is Some,
        ensures
            *res == self.coasts.unwrap()@[coast_position(self.coasts, *coast).unwrap()],
    {
        let coasts = self.coasts.as_ref().unwrap();
        match coast {
            CoastReference::Name(name) => {
                let mut i: usize = 0;
                while i < coasts.len()
                    invariant
                        self.coasts == Some(*coasts),
                        *coast == CoastReference::Name(*name),
                        i <= coasts@.len(),
                        first_coast_named(coasts@, name@) is Some,
                        forall|j: int| 0 <= j < i ==> coasts@[j].name@ != name@,
                    decreases coasts@.len() - i,
                {
                    if str_eq(coasts[i].name.as_str(), name.as_str()) {
                        proof {
                            lemma_first_coast_named(coasts@, name@, i as int);
                            assert(*coast == CoastReference::Name(*name));
                            assert(coast_position(self.coasts, *coast) == first_coast_named(coasts@, name@));
                        }
                        return &coasts[i];
                    }
                    i = i + 1;
                }
                proof {
                    lemma_first_coast_named_props(coasts@, name@);
                }
                &coasts[0]
            },
            CoastReference::Index(i) => &coasts[*i],
        }
    }

    /// The coast a reference designates, to change it (see
    /// `resolve_reference`): everything else of the province stays as it is.
    /// The reference must designate a coast of this province.
    pub fn resolve_reference_mut(&mut self, coast: &CoastReference) -> (res: &mut Coast)
        requires
            coast_position(old(self).coasts, *coast) is Some,
        ensures
            *res == old(self).coasts.unwrap()@[coast_position(old(self).coasts, *coast).unwrap()],
            final(self).coasts is Some,
            final(self).coasts.unwrap()@ == old(self).coasts.unwrap()@.update(
                coast_position(old(self).coasts, *coast).unwrap(),
                *final(res),
            ),
            final(self).name == old(self).name,
            final(self).province_type == old(self).province_type,
            final(self).adjacent == old(self).adjacent,
            final(self).has_supply_center == old(self).has_supply_center,
            final(self).initial_owner == old(self).initial_owner,
            final(self).initial_core == old(self).initial_core,
            final(self).initial_unit == old(self).initial_unit,
    {
        let i = self.coast_index(coast).unwrap();
        proof {
            lemma_coast_position_in_range_of(&self.coasts, *coast);
        }
        let coasts = self.coasts.as_mut().unwrap();
        &mut coasts[i]
    }

    /// The position of the coast a reference designates.
    pub fn coast_index(&self, coast: &CoastReference) -> (res: Option<usize>)
        ensures
            match res {
                Some(i) => coast_position(self.coasts, *coast) == Some(i as int),
                None => coast_position(self.coasts, *coast) is None,
            },
    {
        let coasts = match &self.coasts {
            Some(v) => v,
            None => {
                return None;
            },
        };
        match coast {
            CoastReference::Name(name) => {
                let mut i: usize = 0;
                while i < coasts.len()
                    invariant
                        self.coasts == Some(*coasts),
                        *coast == CoastReference::Name(*name),
                        i <= coasts@.len(),
                        forall|j: int| 0 <= j < i ==> coasts@[j].name@ != name@,
                    decreases coasts@.len() - i,
                {
                    if str_eq(coasts[i].name.as_str(), name.as_str()) {
                        proof {
                            lemma_first_coast_named(coasts@, name@, i as int);
                        }
                        return Some(i);
                    }
                    i = i + 1;
                }
                proof {
                    lemma_first_coast_named_props(coasts@, name@);
                }
                None
            },
            CoastReference::Index(i) => {
                if *i < coasts.len() {
                    Some(*i)
                } else {
                    None
                }
            },
        }
    }

    /// Gives the province its coasts, unless they were already set (by the
    /// map's overrides). A sea has none. Otherwise, when some adjacent
    /// province is a sea or an island, the province gets one coast, named
    /// "<name> coast", bordering exactly those; else it gets none.
    /// `adjacent_types[i]` is the kind of the province `adjacent[i]`
    /// refers to.
    pub fn set_coasts(&mut self, adjacent_types: &Vec<ProvinceType>)
        requires
            adjacent_types@.len() == old(self).adjacent@.len(),
        ensures
            final(self).name == old(self).name,
            final(self).province_type == old(self).province_type,
            final(self).adjacent == old(self).adjacent,
            final(self).has_supply_center == old(self).has_supply_center,
            final(self).initial_owner == old(self).initial_owner,
            final(self).initial_core == old(self).initial_core,
            final(self).initial_unit == old(self).initial_unit,
            old(self).coasts is Some ==> final(self).coasts == old(self).coasts,
            old(self).coasts is None ==> final(self).coasts is Some,
            old(self).coasts is None ==> {
                let seas = sea_references(old(self).adjacent@, adjacent_types@);
                let cs = final(self).coasts.unwrap()@;
                if old(self).province_type == ProvinceType::SEA || seas.len() == 0 {
                    cs.len() == 0
                } else {
                    &&& cs.len() == 1
                    &&& cs[0].name@ == old(self).name@ + " coast"@
                    &&& cs[0].adjacent_seas@ == seas
                    &&& cs[0].province == ProvinceReference::Name(old(self).name)
                }
            },
            old(self).coasts is None && old(self).province_type != ProvinceType::SEA ==> forall|k: int|
                0 <= k < adjacent_types@.len() && (adjacent_types@[k] == ProvinceType::SEA || adjacent_types@[k]
                    == ProvinceType::ISLAND) ==> {
                    &&& final(self).coasts.unwrap()@.len() == 1
                    &&& #[trigger] final(self).coasts.unwrap()@[0].adjacent_seas@.contains(old(self).adjacent@[k])
                },
            forall|c: int, j: int|
                old(self).coasts is None && 0 <= c < final(self).coasts.unwrap()@.len() && 0 <= j
                    < final(self).coasts.unwrap()@[c].adjacent_seas@.len() ==> adjacent_non_land(
                    old(self).adjacent@,
                    adjacent_types@,
                    #[trigger] final(self).coasts.unwrap()@[c].adjacent_seas@[j],
                ),
    {
        proof {
            lemma_sea_references(old(self).adjacent@, adjacent_types@);
        }
        if self.coasts.is_some() {
            return ;
        }
        if self.province_type == ProvinceType::SEA {
            self.coasts = Some(Vec::new());
            return ;
        }
        let mut seas: Vec<ProvinceReference> = Vec::new();
        let mut i: usize = 0;
        while i < self.adjacent.len()
            invariant
                adjacent_types@.len() == self.adjacent@.len(),
                i <= self.adjacent@.len(),
                seas@ == sea_references(
                    self.adjacent@.subrange(0, i as int),
                    adjacent_types@.subrange(0, i as int),
                ),
            decreases self.adjacent@.len() - i,
        {
            proof {
                let a = self.adjacent@.subrange(0, i + 1);
                let t = adjacent_types@.subrange(0, i + 1);
                assert(a.drop_last() =~= self.adjacent@.subrange(0, i as int));
                assert(t.drop_last() =~= adjacent_types@.subrange(0, i as int));
            }
            let t = adjacent_types[i];
            if t == ProvinceType::SEA || t == ProvinceType::ISLAND {
                seas.push(self.adjacent[i].clone());
            }
            i = i + 1;
        }
        proof {
            assert(self.adjacent@.subrange(0, i as int) =~= self.adjacent@);
            assert(adjacent_types@.subrange(0, i as int) =~= adjacent_types@);
        }
        let ghost sv = seas@;
        assert(sv == sea_references(old(self).adjacent@, adjacent_types@));
        if seas.len() > 0 {
            let mut name = self.name.clone();
            name.append(" coast");
            let province = self.to_reference();
            let mut coasts = Vec::new();
            coasts.push(Coast { name, adjacent_seas: seas, province });
            self.coasts = Some(coasts);
            assert(self.coasts.unwrap()@[0].adjacent_seas@ == sv);
        } else {
            self.coasts = Some(Vec::new());
            assert forall|k: int|
                0 <= k < adjacent_types@.len() && (adjacent_types@[k] == ProvinceType::SEA || adjacent_types@[k]
                    == ProvinceType::ISLAND) implies false by {
                assert(sv.contains(old(self).adjacent@[k]));
            }
        }
    }
}

/// The state of a province within one game.
#[derive(Debug)]
pub struct Province {
    pub info: Arc<ProvinceInfo>,
    pub corer: Option<Arc<PlayerInfo>>,
    pub core: Option<Arc<PlayerInfo>>,
    pub half_core: Option<Arc<PlayerInfo>>,
    pub owner: Option<Arc<PlayerInfo>>,
    pub unit: Option<Unit>,
    pub dislodged_unit: Option<Unit>,
}

} // verus!
