use vstd::prelude::*;

use crate::adjacency::{insert_all, insert_provinces, link_all, link_pairs, pair_views, push_adjacent};
use crate::json::{json_get, json_str, Json};
use crate::map_error::{map_error_view, MapError, MapErrorView};
use crate::map_model::{
    bare_province, coast_model, coast_models, find_province, lemma_models_update, province_index, province_model,
    province_models, reference_keys, CoastModel, ProvinceModel, ReferenceKey,
};
use crate::parser::{get_i64, json_members};
use crate::province::{spec_reference_key, Coast, ProvinceInfo, ProvinceReference, ProvinceType};
use crate::support::str_eq;
use crate::text::{decimal, string_views, u64_to_text};

verus! {

/// The elements of an array.
pub open spec fn json_elements(v: Json) -> Option<Seq<Json>> {
    match v {
        Json::Array(a) => Some(a@),
        _ => None,
    }
}

/// A province the overrides name: the entry must be text (the error names
/// `key`, the entry being read), name a province, and not be (where `own`
/// is given) the province being changed.
pub open spec fn override_name(ps: Seq<ProvinceModel>, v: Json, key: Seq<char>, own: Option<Seq<char>>) -> Result<
    Seq<char>,
    MapErrorView,
> {
    match json_str(v) {
        None => Err(MapErrorView::Config(key)),
        Some(f) => match province_index(ps, f) {
            None => Err(MapErrorView::UnknownProvince(f)),
            Some(j) => if own == Some(f) {
                Err(MapErrorView::SelfAdjacency(f))
            } else {
                Ok(ps[j].name)
            },
        },
    }
}

/// The provinces a list of the overrides names, in order (see
/// `override_name`).
pub open spec fn override_names(ps: Seq<ProvinceModel>, arr: Seq<Json>, key: Seq<char>, own: Option<Seq<char>>) -> Result<
    Seq<Seq<char>>,
    MapErrorView,
>
    decreases arr.len(),
{
    if arr.len() == 0 {
        Ok(Seq::empty())
    } else {
        match override_name(ps, arr[0], key, own) {
            Err(x) => Err(x),
            Ok(n) => match override_names(ps, arr.drop_first(), key, own) {
                Err(x) => Err(x),
                Ok(r) => Ok(seq![n] + r),
            },
        }
    }
}

pub open spec fn own_view(own: Option<&str>) -> Option<Seq<char>> {
    match own {
        Some(s) => Some(s@),
        None => None,
    }
}

/// Reads the provinces a list of the overrides names (see
/// `override_names`).
fn override_names_exec(v: &Vec<ProvinceInfo>, arr: &Vec<Json>, key: &str, own: Option<&str>) -> (res: Result<
    Vec<String>,
    MapError,
>)
    ensures
        match override_names(province_models(v@), arr@, key@, own_view(own)) {
            Ok(ns) => res is Ok && string_views(res->Ok_0@) == ns,
            Err(x) => res is Err && map_error_view(res->Err_0) == x,
        },
{
    let ghost ps = province_models(v@);
    let ghost goal = override_names(ps, arr@, key@, own_view(own));
    let mut out: Vec<String> = Vec::new();
    assert(arr@.subrange(0, arr@.len() as int) =~= arr@);
    assert(string_views(out@) =~= Seq::<Seq<char>>::empty());
    let mut k: usize = 0;
    while k < arr.len()
        invariant
            ps == province_models(v@),
            k <= arr@.len(),
            goal == override_names(ps, arr@, key@, own_view(own)),
            goal == match override_names(ps, arr@.subrange(k as int, arr@.len() as int), key@, own_view(own)) {
                Ok(r) => Ok(string_views(out@) + r),
                Err(x) => Err(x),
            },
        decreases arr@.len() - k,
    {
        let ghost rest = arr@.subrange(k as int, arr@.len() as int);
        assert(rest.drop_first() =~= arr@.subrange(k + 1, arr@.len() as int));
        assert(rest[0] == arr@[k as int]);
        let f = match arr[k].as_str() {
            Some(f) => f,
            None => {
                return Err(MapError::Config(key.to_owned()));
            },
        };
        let j = match find_province(v, f) {
            Some(j) => j,
            None => {
                return Err(MapError::UnknownProvince(f.to_owned()));
            },
        };
        match own {
            Some(o) => {
                if str_eq(o, f) {
                    return Err(MapError::SelfAdjacency(f.to_owned()));
                }
            },
            None => {},
        }
        assert(ps[j as int] == province_model(v@[j as int]));
        let ghost before = string_views(out@);
        let n = v[j].name.clone();
        out.push(n);
        proof {
            assert(string_views(out@) =~= before.push(n@));
            if let Ok(r) = override_names(ps, rest.drop_first(), key@, own_view(own)) {
                assert(string_views(out@) + r =~= before + (seq![n@] + r));
            }
        }
        k = k + 1;
    }
    assert(arr@.subrange(k as int, arr@.len() as int) =~= Seq::<Json>::empty());
    assert(string_views(out@) + Seq::<Seq<char>>::empty() =~= string_views(out@));
    Ok(out)
}

/// The names of a high province's parts: the name followed by 1, 2, ...,
/// `num`.
pub open spec fn high_names(name: Seq<char>, num: int) -> Seq<Seq<char>>
    decreases num,
{
    if num <= 0 {
        Seq::empty()
    } else {
        high_names(name, num - 1).push(name + decimal(num as nat))
    }
}

/// The number of parts and the kind (SEA or LAND) of a high province.
pub open spec fn high_kind(data: Json) -> Result<(i64, ProvinceType), MapErrorView> {
    match get_i64(data, "num"@) {
        None => Err(MapErrorView::Config("num"@)),
        Some(num) => match json_get(data, "type"@) {
            None => Err(MapErrorView::Config("type"@)),
            Some(tv) => match json_str(tv) {
                None => Err(MapErrorView::Config("type"@)),
                Some(t) => if t == "SEA"@ {
                    Ok((num, ProvinceType::SEA))
                } else if t == "LAND"@ {
                    Ok((num, ProvinceType::LAND))
                } else {
                    Err(MapErrorView::HighProvinceType(t))
                },
            },
        },
    }
}

pub open spec fn bares(names: Seq<Seq<char>>, t: ProvinceType) -> Seq<ProvinceModel> {
    names.map_values(|n: Seq<char>| bare_province(n, t))
}

/// Adds the parts of the high provinces, each of its high province's kind
/// and with nothing else set, in turn; a part whose name is taken is an
/// error.
pub open spec fn high_declare(ps: Seq<ProvinceModel>, members: Seq<(String, Json)>) -> Result<Seq<ProvinceModel>, MapErrorView>
    decreases members.len(),
{
    if members.len() == 0 {
        Ok(ps)
    } else {
        match high_kind(members[0].1) {
            Err(x) => Err(x),
            Ok((num, t)) => match insert_all(ps, bares(high_names(members[0].0@, num as int), t)) {
                Err(x) => Err(x),
                Ok(q) => high_declare(q, members.drop_first()),
            },
        }
    }
}

/// The first name that is no province.
pub open spec fn first_missing(ps: Seq<ProvinceModel>, hs: Seq<Seq<char>>) -> Option<Seq<char>>
    decreases hs.len(),
{
    if hs.len() == 0 {
        None
    } else if province_index(ps, hs[0]) is None {
        Some(hs[0])
    } else {
        first_missing(ps, hs.drop_first())
    }
}

/// `h` paired with each of `xs`, in order.
pub open spec fn pair_with(h: Seq<char>, xs: Seq<Seq<char>>) -> Seq<(Seq<char>, Seq<char>)>
    decreases xs.len(),
{
    if xs.len() == 0 {
        Seq::empty()
    } else {
        pair_with(h, xs.drop_last()).push((h, xs.last()))
    }
}

/// Each of `hs` paired with each of `xs`, `hs` in the outer order.
pub open spec fn cross(hs: Seq<Seq<char>>, xs: Seq<Seq<char>>) -> Seq<(Seq<char>, Seq<char>)>
    decreases hs.len(),
{
    if hs.len() == 0 {
        Seq::empty()
    } else {
        cross(hs.drop_last(), xs) + pair_with(hs.last(), xs)
    }
}

/// `h` paired with each of `xs` other than itself, in order.
pub open spec fn others(h: Seq<char>, xs: Seq<Seq<char>>) -> Seq<(Seq<char>, Seq<char>)>
    decreases xs.len(),
{
    if xs.len() == 0 {
        Seq::empty()
    } else if xs.last() != h {
        others(h, xs.drop_last()).push((h, xs.last()))
    } else {
        others(h, xs.drop_last())
    }
}

/// Each of `hs` paired with each other one of `all`, `hs` in the outer
/// order.
pub open spec fn mutual_pairs(hs: Seq<Seq<char>>, all: Seq<Seq<char>>) -> Seq<(Seq<char>, Seq<char>)>
    decreases hs.len(),
{
    if hs.len() == 0 {
        Seq::empty()
    } else {
        mutual_pairs(hs.drop_last(), all) + others(hs.last(), all)
    }
}

/// Adds the second of each pair to the adjacencies of the first (a name
/// that is no province changes nothing), in turn.
pub open spec fn push_all(ps: Seq<ProvinceModel>, pairs: Seq<(Seq<char>, Seq<char>)>) -> Seq<ProvinceModel>
    decreases pairs.len(),
{
    if pairs.len() == 0 {
        ps
    } else {
        let q = match province_index(ps, pairs[0].0) {
            Some(i) => ps.update(i, ProvinceModel { adjacent: ps[i].adjacent.push(Ok(pairs[0].1)), ..ps[i] }),
            None => ps,
        };
        push_all(q, pairs.drop_first())
    }
}

/// Links a high province's parts: each part with each province it lists
/// as adjacent (see `link_all`), then each part with each other part.
pub open spec fn high_link_one(ps: Seq<ProvinceModel>, name: Seq<char>, data: Json) -> Result<Seq<ProvinceModel>, MapErrorView> {
    match get_i64(data, "num"@) {
        None => Err(MapErrorView::Config("num"@)),
        Some(num) => match json_get(data, "adjacencies"@) {
            None => Err(MapErrorView::Config("adjacencies"@)),
            Some(a) => match json_elements(a) {
                None => Err(MapErrorView::Config("adjacencies"@)),
                Some(arr) => match override_names(ps, arr, "adjacencies"@, None) {
                    Err(x) => Err(x),
                    Ok(adj) => {
                        let hs = high_names(name, num as int);
                        match first_missing(ps, hs) {
                            Some(h) => Err(MapErrorView::UnknownProvince(h)),
                            None => match link_all(ps, cross(hs, adj)) {
                                Err(x) => Err(x),
                                Ok(q) => Ok(push_all(q, mutual_pairs(hs, hs))),
                            },
                        }
                    },
                },
            },
        },
    }
}

/// Links the parts of the high provinces, in turn.
pub open spec fn high_link(ps: Seq<ProvinceModel>, members: Seq<(String, Json)>) -> Result<Seq<ProvinceModel>, MapErrorView>
    decreases members.len(),
{
    if members.len() == 0 {
        Ok(ps)
    } else {
        match high_link_one(ps, members[0].0@, members[0].1) {
            Err(x) => Err(x),
            Ok(q) => high_link(q, members.drop_first()),
        }
    }
}

pub open spec fn name_keys(ns: Seq<Seq<char>>) -> Seq<ReferenceKey> {
    ns.map_values(|n: Seq<char>| Ok::<Seq<char>, usize>(n))
}

/// Whether an adjacency stays when the named provinces are removed.
pub open spec fn kept(names: Seq<Seq<char>>) -> spec_fn(ReferenceKey) -> bool {
    |r: ReferenceKey| !(r is Ok && names.contains(r->Ok_0))
}

/// The coasts an override gives a province, in order: each is called
/// "<province> <coast>" and borders the provinces listed for it.
pub open spec fn override_coasts(ps: Seq<ProvinceModel>, cm: Seq<(String, Json)>, name: Seq<char>, pname: Seq<char>) -> Result<
    Seq<CoastModel>,
    MapErrorView,
>
    decreases cm.len(),
{
    if cm.len() == 0 {
        Ok(Seq::empty())
    } else {
        match json_elements(cm[0].1) {
            None => Err(MapErrorView::Config("coasts"@)),
            Some(arr) => match override_names(ps, arr, "coasts"@, Some(name)) {
                Err(x) => Err(x),
                Ok(seas) => match override_coasts(ps, cm.drop_first(), name, pname) {
                    Err(x) => Err(x),
                    Ok(r) => Ok(
                        seq![CoastModel { name: name + " "@ + cm[0].0@, adjacent_seas: name_keys(seas), province: Ok(pname) }]
                            + r,
                    ),
                },
            },
        }
    }
}

/// The override of a province: adjacencies to add, adjacencies to remove,
/// and coasts to set (replacing any), each where given as a list (an
/// object for the coasts).
pub open spec fn override_one(ps: Seq<ProvinceModel>, name: Seq<char>, data: Json) -> Result<Seq<ProvinceModel>, MapErrorView> {
    match province_index(ps, name) {
        None => Err(MapErrorView::UnknownProvince(name)),
        Some(i) => {
            let added: Result<Seq<ProvinceModel>, MapErrorView> = match json_get(data, "adjacencies"@) {
                Some(a) => match json_elements(a) {
                    Some(arr) => match override_names(ps, arr, "adjacencies"@, Some(name)) {
                        Err(x) => Err(x),
                        Ok(ns) => Ok(ps.update(i, ProvinceModel { adjacent: ps[i].adjacent + name_keys(ns), ..ps[i] })),
                    },
                    None => Ok(ps),
                },
                None => Ok(ps),
            };
            match added {
                Err(x) => Err(x),
                Ok(ps1) => {
                    let removed: Result<Seq<ProvinceModel>, MapErrorView> = match json_get(data, "remove_adjacencies"@) {
                        Some(a) => match json_elements(a) {
                            Some(arr) => match override_names(ps1, arr, "remove_adjacencies"@, Some(name)) {
                                Err(x) => Err(x),
                                Ok(ns) => Ok(
                                    ps1.update(i, ProvinceModel { adjacent: ps1[i].adjacent.filter(kept(ns)), ..ps1[i] }),
                                ),
                            },
                            None => Ok(ps1),
                        },
                        None => Ok(ps1),
                    };
                    match removed {
                        Err(x) => Err(x),
                        Ok(ps2) => match json_get(data, "coasts"@) {
                            Some(c) => match json_members(c) {
                                Some(cm) => match override_coasts(ps2, cm, name, ps2[i].name) {
                                    Err(x) => Err(x),
                                    Ok(cs) => Ok(ps2.update(i, ProvinceModel { coasts: Some(cs), ..ps2[i] })),
                                },
                                None => Ok(ps2),
                            },
                            None => Ok(ps2),
                        },
                    }
                },
            }
        },
    }
}

/// The province overrides, in turn.
pub open spec fn override_all(ps: Seq<ProvinceModel>, members: Seq<(String, Json)>) -> Result<Seq<ProvinceModel>, MapErrorView>
    decreases members.len(),
{
    if members.len() == 0 {
        Ok(ps)
    } else {
        match override_one(ps, members[0].0@, members[0].1) {
            Err(x) => Err(x),
            Ok(q) => override_all(q, members.drop_first()),
        }
    }
}

/// What a map's overrides do to its provinces: its high provinces (split
/// in parts) are added, then linked; then the province overrides apply.
pub open spec fn apply_overrides(ps: Seq<ProvinceModel>, overrides: Option<Json>) -> Result<Seq<ProvinceModel>, MapErrorView> {
    match overrides {
        None => Ok(ps),
        Some(o) => {
            let high: Result<Seq<ProvinceModel>, MapErrorView> = match json_get(o, "high provinces"@) {
                Some(h) => match json_members(h) {
                    Some(members) => match high_declare(ps, members) {
                        Err(x) => Err(x),
                        Ok(q) => high_link(q, members),
                    },
                    None => Ok(ps),
                },
                None => Ok(ps),
            };
            match high {
                Err(x) => Err(x),
                Ok(q) => match json_get(o, "provinces"@) {
                    Some(p) => match json_members(p) {
                        Some(members) => override_all(q, members),
                        None => Ok(q),
                    },
                    None => Ok(q),
                },
            }
        },
    }
}


fn high_kind_exec(data: &Json) -> (res: Result<(i64, ProvinceType), MapError>)
    ensures
        match high_kind(*data) {
            Ok(k) => res == Ok::<(i64, ProvinceType), MapError>(k),
            Err(x) => res is Err && map_error_view(res->Err_0) == x,
        },
{
    let num = match data.get("num") {
        Some(n) => match n.as_i64() {
            Some(n) => n,
            None => {
                return Err(MapError::Config(String::from_str("num")));
            },
        },
        None => {
            return Err(MapError::Config(String::from_str("num")));
        },
    };
    let t = match data.get("type") {
        Some(t) => match t.as_str() {
            Some(t) => t,
            None => {
                return Err(MapError::Config(String::from_str("type")));
            },
        },
        None => {
            return Err(MapError::Config(String::from_str("type")));
        },
    };
    if str_eq(t, "SEA") {
        Ok((num, ProvinceType::SEA))
    } else if str_eq(t, "LAND") {
        Ok((num, ProvinceType::LAND))
    } else {
        Err(MapError::HighProvinceType(t.to_owned()))
    }
}

fn high_names_exec(name: &str, num: i64) -> (res: Vec<String>)
    ensures
        string_views(res@) == high_names(name@, num as int),
{
    let mut out: Vec<String> = Vec::new();
    let mut i: i64 = 0;
    assert(string_views(out@) =~= high_names(name@, 0));
    while i < num
        invariant
            0 <= i,
            num > 0 ==> i <= num,
            num <= 0 ==> i == 0,
            string_views(out@) == high_names(name@, i as int),
        decreases num - i,
    {
        i = i + 1;
        let mut h = name.to_owned();
        let d = u64_to_text(i as u64);
        h.append(d.as_str());
        let ghost before = string_views(out@);
        out.push(h);
        assert(string_views(out@) =~= before.push(h@));
    }
    proof {
        if num <= 0 {
            assert(i == 0);
            assert(high_names(name@, num as int) =~= Seq::<Seq<char>>::empty());
            assert(high_names(name@, 0) =~= Seq::<Seq<char>>::empty());
        } else {
            assert(i == num);
        }
    }
    out
}

fn bare_provinces_exec(names: &Vec<String>, t: ProvinceType) -> (res: Vec<ProvinceInfo>)
    ensures
        province_models(res@) == bares(string_views(names@), t),
{
    let mut out: Vec<ProvinceInfo> = Vec::new();
    let mut k: usize = 0;
    while k < names.len()
        invariant
            k <= names@.len(),
            province_models(out@) == bares(string_views(names@).subrange(0, k as int), t),
        decreases names@.len() - k,
    {
        let p = ProvinceInfo {
            name: names[k].clone(),
            province_type: t,
            adjacent: Vec::new(),
            has_supply_center: false,
            initial_owner: None,
            initial_core: None,
            initial_unit: None,
            coasts: None,
        };
        let ghost before = out@;
        out.push(p);
        proof {
            assert(reference_keys(p.adjacent@) =~= Seq::<ReferenceKey>::empty());
            assert(province_models(out@) =~= province_models(before).push(province_model(p)));
            assert(bares(string_views(names@).subrange(0, k + 1), t) =~= bares(
                string_views(names@).subrange(0, k as int),
                t,
            ).push(bare_province(names@[k as int]@, t)));
        }
        k = k + 1;
    }
    assert(string_views(names@).subrange(0, k as int) =~= string_views(names@));
    out
}

fn high_declare_exec(v: &mut Vec<ProvinceInfo>, members: &Vec<(String, Json)>) -> (res: Result<(), MapError>)
    ensures
        match high_declare(province_models(old(v)@), members@) {
            Ok(ps) => res is Ok && province_models(final(v)@) == ps,
            Err(x) => res is Err && map_error_view(res->Err_0) == x,
        },
{
    let ghost goal = high_declare(province_models(v@), members@);
    assert(members@.subrange(0, members@.len() as int) =~= members@);
    let mut k: usize = 0;
    while k < members.len()
        invariant
            k <= members@.len(),
            goal == high_declare(province_models(old(v)@), members@),
            goal == high_declare(province_models(v@), members@.subrange(k as int, members@.len() as int)),
        decreases members@.len() - k,
    {
        let ghost rest = members@.subrange(k as int, members@.len() as int);
        assert(rest.drop_first() =~= members@.subrange(k + 1, members@.len() as int));
        assert(rest[0] == members@[k as int]);
        let (name, data) = &members[k];
        let (num, t) = match high_kind_exec(data) {
            Ok(r) => r,
            Err(x) => {
                return Err(x);
            },
        };
        let names = high_names_exec(name.as_str(), num);
        let mut parts = bare_provinces_exec(&names, t);
        match insert_provinces(v, &mut parts) {
            Ok(()) => {},
            Err(x) => {
                return Err(x);
            },
        }
        k = k + 1;
    }
    assert(members@.subrange(k as int, members@.len() as int) =~= Seq::<(String, Json)>::empty());
    Ok(())
}

fn first_missing_exec(v: &Vec<ProvinceInfo>, hs: &Vec<String>) -> (res: Option<String>)
    ensures
        match first_missing(province_models(v@), string_views(hs@)) {
            Some(h) => res is Some && res->Some_0@ == h,
            None => res is None,
        },
{
    let ghost hv = string_views(hs@);
    assert(hv.subrange(0, hv.len() as int) =~= hv);
    let mut k: usize = 0;
    while k < hs.len()
        invariant
            hv == string_views(hs@),
            k <= hs@.len(),
            first_missing(province_models(v@), hv) == first_missing(
                province_models(v@),
                hv.subrange(k as int, hv.len() as int),
            ),
        decreases hs@.len() - k,
    {
        let ghost rest = hv.subrange(k as int, hv.len() as int);
        assert(rest.drop_first() =~= hv.subrange(k + 1, hv.len() as int));
        if find_province(v, hs[k].as_str()).is_none() {
            return Some(hs[k].clone());
        }
        k = k + 1;
    }
    assert(hv.subrange(k as int, hv.len() as int) =~= Seq::<Seq<char>>::empty());
    None
}

fn cross_exec(hs: &Vec<String>, xs: &Vec<String>) -> (res: Vec<(String, String)>)
    ensures
        pair_views(res@) == cross(string_views(hs@), string_views(xs@)),
{
    let ghost hv = string_views(hs@);
    let ghost xv = string_views(xs@);
    let mut out: Vec<(String, String)> = Vec::new();
    let mut a: usize = 0;
    assert(pair_views(out@) =~= cross(hv.subrange(0, 0), xv));
    while a < hs.len()
        invariant
            hv == string_views(hs@),
            xv == string_views(xs@),
            a <= hs@.len(),
            pair_views(out@) == cross(hv.subrange(0, a as int), xv),
        decreases hs@.len() - a,
    {
        let ghost base = pair_views(out@);
        let mut b: usize = 0;
        assert(base =~= base + pair_with(hv[a as int], xv.subrange(0, 0)));
        while b < xs.len()
            invariant
                hv == string_views(hs@),
                xv == string_views(xs@),
                a < hs@.len(),
                b <= xs@.len(),
                pair_views(out@) == base + pair_with(hv[a as int], xv.subrange(0, b as int)),
            decreases xs@.len() - b,
        {
            let ghost before = pair_views(out@);
            out.push((hs[a].clone(), xs[b].clone()));
            proof {
                assert(xv.subrange(0, b + 1).drop_last() =~= xv.subrange(0, b as int));
                assert(pair_views(out@) =~= before.push((hv[a as int], xv[b as int])));
                assert(base + pair_with(hv[a as int], xv.subrange(0, b + 1)) =~= (base + pair_with(
                    hv[a as int],
                    xv.subrange(0, b as int),
                )).push((hv[a as int], xv[b as int])));
            }
            b = b + 1;
        }
        proof {
            assert(xv.subrange(0, b as int) =~= xv);
            assert(hv.subrange(0, a + 1).drop_last() =~= hv.subrange(0, a as int));
        }
        a = a + 1;
    }
    assert(hv.subrange(0, a as int) =~= hv);
    out
}

fn mutual_exec(hs: &Vec<String>) -> (res: Vec<(String, String)>)
    ensures
        pair_views(res@) == mutual_pairs(string_views(hs@), string_views(hs@)),
{
    let ghost hv = string_views(hs@);
    let mut out: Vec<(String, String)> = Vec::new();
    let mut a: usize = 0;
    assert(pair_views(out@) =~= mutual_pairs(hv.subrange(0, 0), hv));
    while a < hs.len()
        invariant
            hv == string_views(hs@),
            a <= hs@.len(),
            pair_views(out@) == mutual_pairs(hv.subrange(0, a as int), hv),
        decreases hs@.len() - a,
    {
        let ghost base = pair_views(out@);
        let mut b: usize = 0;
        assert(base =~= base + others(hv[a as int], hv.subrange(0, 0)));
        while b < hs.len()
            invariant
                hv == string_views(hs@),
                a < hs@.len(),
                b <= hs@.len(),
                pair_views(out@) == base + others(hv[a as int], hv.subrange(0, b as int)),
            decreases hs@.len() - b,
        {
            let ghost before = pair_views(out@);
            proof {
                assert(hv.subrange(0, b + 1).drop_last() =~= hv.subrange(0, b as int));
            }
            if !str_eq(hs[b].as_str(), hs[a].as_str()) {
                out.push((hs[a].clone(), hs[b].clone()));
                proof {
                    assert(pair_views(out@) =~= before.push((hv[a as int], hv[b as int])));
                    assert(base + others(hv[a as int], hv.subrange(0, b + 1)) =~= (base + others(
                        hv[a as int],
                        hv.subrange(0, b as int),
                    )).push((hv[a as int], hv[b as int])));
                }
            }
            b = b + 1;
        }
        proof {
            assert(hv.subrange(0, b as int) =~= hv);
            assert(hv.subrange(0, a + 1).drop_last() =~= hv.subrange(0, a as int));
        }
        a = a + 1;
    }
    assert(hv.subrange(0, a as int) =~= hv);
    out
}

fn push_pairs(v: &mut Vec<ProvinceInfo>, pairs: &Vec<(String, String)>)
    ensures
        province_models(final(v)@) == push_all(province_models(old(v)@), pair_views(pairs@)),
{
    let ghost pv = pair_views(pairs@);
    let ghost goal = push_all(province_models(v@), pv);
    assert(pv.subrange(0, pv.len() as int) =~= pv);
    let mut k: usize = 0;
    while k < pairs.len()
        invariant
            pv == pair_views(pairs@),
            goal == push_all(province_models(old(v)@), pv),
            k <= pairs@.len(),
            goal == push_all(province_models(v@), pv.subrange(k as int, pv.len() as int)),
        decreases pairs@.len() - k,
    {
        let ghost rest = pv.subrange(k as int, pv.len() as int);
        assert(rest.drop_first() =~= pv.subrange(k + 1, pv.len() as int));
        assert(rest[0] == (pairs@[k as int].0@, pairs@[k as int].1@));
        match find_province(v, pairs[k].0.as_str()) {
            Some(i) => {
                push_adjacent(v, i, pairs[k].1.clone());
            },
            None => {},
        }
        k = k + 1;
    }
    assert(pv.subrange(k as int, pv.len() as int) =~= Seq::<(Seq<char>, Seq<char>)>::empty());
}

fn high_link_one_exec(v: &mut Vec<ProvinceInfo>, name: &String, data: &Json) -> (res: Result<(), MapError>)
    ensures
        match high_link_one(province_models(old(v)@), name@, *data) {
            Ok(ps) => res is Ok && province_models(final(v)@) == ps,
            Err(x) => res is Err && map_error_view(res->Err_0) == x,
        },
{
    let num = match data.get("num") {
        Some(n) => match n.as_i64() {
            Some(n) => n,
            None => {
                return Err(MapError::Config(String::from_str("num")));
            },
        },
        None => {
            return Err(MapError::Config(String::from_str("num")));
        },
    };
    let arr = match data.get("adjacencies") {
        Some(a) => match a.as_array() {
            Some(arr) => arr,
            None => {
                return Err(MapError::Config(String::from_str("adjacencies")));
            },
        },
        None => {
            return Err(MapError::Config(String::from_str("adjacencies")));
        },
    };
    let adj = match override_names_exec(v, arr, "adjacencies", None) {
        Ok(a) => a,
        Err(x) => {
            return Err(x);
        },
    };
    let hs = high_names_exec(name.as_str(), num);
    match first_missing_exec(v, &hs) {
        Some(h) => {
            return Err(MapError::UnknownProvince(h));
        },
        None => {},
    }
    let pairs = cross_exec(&hs, &adj);
    match link_pairs(v, &pairs) {
        Ok(()) => {},
        Err(x) => {
            return Err(x);
        },
    }
    let mp = mutual_exec(&hs);
    push_pairs(v, &mp);
    Ok(())
}

fn high_link_exec(v: &mut Vec<ProvinceInfo>, members: &Vec<(String, Json)>) -> (res: Result<(), MapError>)
    ensures
        match high_link(province_models(old(v)@), members@) {
            Ok(ps) => res is Ok && province_models(final(v)@) == ps,
            Err(x) => res is Err && map_error_view(res->Err_0) == x,
        },
{
    let ghost goal = high_link(province_models(v@), members@);
    assert(members@.subrange(0, members@.len() as int) =~= members@);
    let mut k: usize = 0;
    while k < members.len()
        invariant
            k <= members@.len(),
            goal == high_link(province_models(old(v)@), members@),
            goal == high_link(province_models(v@), members@.subrange(k as int, members@.len() as int)),
        decreases members@.len() - k,
    {
        let ghost rest = members@.subrange(k as int, members@.len() as int);
        assert(rest.drop_first() =~= members@.subrange(k + 1, members@.len() as int));
        assert(rest[0] == members@[k as int]);
        match high_link_one_exec(v, &members[k].0, &members[k].1) {
            Ok(()) => {},
            Err(x) => {
                return Err(x);
            },
        }
        k = k + 1;
    }
    assert(members@.subrange(k as int, members@.len() as int) =~= Seq::<(String, Json)>::empty());
    Ok(())
}


fn override_coasts_exec(
    v: &Vec<ProvinceInfo>,
    cm: &Vec<(String, Json)>,
    name: &String,
    pname: &String,
) -> (res: Result<Vec<Coast>, MapError>)
    ensures
        match override_coasts(province_models(v@), cm@, name@, pname@) {
            Ok(cs) => res is Ok && coast_models(res->Ok_0@) == cs,
            Err(x) => res is Err && map_error_view(res->Err_0) == x,
        },
{
    let ghost ps = province_models(v@);
    let ghost goal = override_coasts(ps, cm@, name@, pname@);
    let mut out: Vec<Coast> = Vec::new();
    assert(cm@.subrange(0, cm@.len() as int) =~= cm@);
    assert(coast_models(out@) =~= Seq::<CoastModel>::empty());
    let mut k: usize = 0;
    while k < cm.len()
        invariant
            ps == province_models(v@),
            k <= cm@.len(),
            goal == override_coasts(ps, cm@, name@, pname@),
            goal == match override_coasts(ps, cm@.subrange(k as int, cm@.len() as int), name@, pname@) {
                Ok(r) => Ok(coast_models(out@) + r),
                Err(x) => Err(x),
            },
        decreases cm@.len() - k,
    {
        let ghost rest = cm@.subrange(k as int, cm@.len() as int);
        assert(rest.drop_first() =~= cm@.subrange(k + 1, cm@.len() as int));
        assert(rest[0] == cm@[k as int]);
        let (cname, cadj) = &cm[k];
        let arr = match cadj.as_array() {
            Some(a) => a,
            None => {
                return Err(MapError::Config(String::from_str("coasts")));
            },
        };
        let seas = match override_names_exec(v, arr, "coasts", Some(name.as_str())) {
            Ok(s) => s,
            Err(x) => {
                return Err(x);
            },
        };
        let mut refs: Vec<ProvinceReference> = Vec::new();
        let mut j: usize = 0;
        while j < seas.len()
            invariant
                j <= seas@.len(),
                reference_keys(refs@) == name_keys(string_views(seas@).subrange(0, j as int)),
            decreases seas@.len() - j,
        {
            let ghost before = refs@;
            refs.push(ProvinceReference::Name(seas[j].clone()));
            assert(reference_keys(refs@) =~= reference_keys(before).push(Ok::<Seq<char>, usize>(seas@[j as int]@)));
            assert(name_keys(string_views(seas@).subrange(0, j + 1)) =~= name_keys(
                string_views(seas@).subrange(0, j as int),
            ).push(Ok::<Seq<char>, usize>(seas@[j as int]@)));
            j = j + 1;
        }
        assert(string_views(seas@).subrange(0, j as int) =~= string_views(seas@));
        let mut cn = name.clone();
        cn.append(" ");
        cn.append(cname.as_str());
        let coast = Coast { name: cn, adjacent_seas: refs, province: ProvinceReference::Name(pname.clone()) };
        let ghost before = coast_models(out@);
        out.push(coast);
        proof {
            let c = CoastModel {
                name: name@ + " "@ + cname@,
                adjacent_seas: name_keys(string_views(seas@)),
                province: Ok(pname@),
            };
            assert(coast_model(coast) == c);
            assert(coast_models(out@) =~= before.push(c));
            if let Ok(r) = override_coasts(ps, rest.drop_first(), name@, pname@) {
                assert(coast_models(out@) + r =~= before + (seq![c] + r));
            }
        }
        k = k + 1;
    }
    assert(cm@.subrange(k as int, cm@.len() as int) =~= Seq::<(String, Json)>::empty());
    assert(coast_models(out@) + Seq::<CoastModel>::empty() =~= coast_models(out@));
    Ok(out)
}

/// Whether a name is one of `names`.
fn listed(names: &Vec<String>, n: &str) -> (res: bool)
    ensures
        res == string_views(names@).contains(n@),
{
    let mut k: usize = 0;
    while k < names.len()
        invariant
            k <= names@.len(),
            forall|j: int| 0 <= j < k ==> names@[j]@ != n@,
        decreases names@.len() - k,
    {
        if str_eq(names[k].as_str(), n) {
            assert(string_views(names@)[k as int] == n@);
            return true;
        }
        k = k + 1;
    }
    proof {
        if string_views(names@).contains(n@) {
            let j = choose|j: int| 0 <= j < string_views(names@).len() && string_views(names@)[j] == n@;
            assert(names@[j]@ == n@);
        }
    }
    false
}

/// The adjacencies of province `i` without those naming one of `names`.
fn remove_adjacent(v: &mut Vec<ProvinceInfo>, i: usize, names: &Vec<String>)
    requires
        i < old(v)@.len(),
    ensures
        final(v)@.len() == old(v)@.len(),
        province_models(final(v)@) == province_models(old(v)@).update(
            i as int,
            ProvinceModel {
                adjacent: province_models(old(v)@)[i as int].adjacent.filter(kept(string_views(names@))),
                ..province_models(old(v)@)[i as int]
            },
        ),
{
    let ghost before = v@;
    let mut p = v.remove(i);
    let ghost keys = reference_keys(p.adjacent@);
    let ghost pred = kept(string_views(names@));
    let mut out: Vec<ProvinceReference> = Vec::new();
    let mut k: usize = 0;
    assert(keys.subrange(0, 0).filter(pred) =~= Seq::<ReferenceKey>::empty()) by {
        reveal(Seq::filter);
    }
    assert(reference_keys(out@) =~= Seq::<ReferenceKey>::empty());
    while k < p.adjacent.len()
        invariant
            keys == reference_keys(p.adjacent@),
            pred == kept(string_views(names@)),
            k <= p.adjacent@.len(),
            reference_keys(out@) == keys.subrange(0, k as int).filter(pred),
        decreases p.adjacent@.len() - k,
    {
        assert(keys.subrange(0, k + 1).drop_last() =~= keys.subrange(0, k as int));
        assert(keys[k as int] == spec_reference_key(p.adjacent@[k as int]));
        let keep = match &p.adjacent[k] {
            ProvinceReference::Name(n) => !listed(names, n.as_str()),
            ProvinceReference::Index(_) => true,
        };
        assert(pred(keys[k as int]) == keep);
        assert(keys.subrange(0, k + 1) =~= keys.subrange(0, k as int).push(keys[k as int]));
        proof {
            keys.subrange(0, k as int).lemma_filter_push(keys[k as int], pred);
        }
        let ghost b = reference_keys(out@);
        if keep {
            let r = p.adjacent[k].clone();
            out.push(r);
            assert(reference_keys(out@) =~= b.push(keys[k as int]));
        }
        assert(reference_keys(out@) == keys.subrange(0, k + 1).filter(pred));
        k = k + 1;
    }
    assert(keys.subrange(0, k as int) =~= keys);
    p.adjacent = out;
    v.insert(i, p);
    assert(v@ =~= before.update(i as int, p));
    proof {
        lemma_models_update(before, i as int, p);
    }
}

fn override_one_exec(v: &mut Vec<ProvinceInfo>, name: &String, data: &Json) -> (res: Result<(), MapError>)
    ensures
        match override_one(province_models(old(v)@), name@, *data) {
            Ok(ps) => res is Ok && province_models(final(v)@) == ps,
            Err(x) => res is Err && map_error_view(res->Err_0) == x,
        },
{
    let i = match find_province(v, name.as_str()) {
        Some(i) => i,
        None => {
            return Err(MapError::UnknownProvince(name.clone()));
        },
    };
    let ghost ps0 = province_models(v@);
    match data.get("adjacencies") {
        Some(a) => match a.as_array() {
            Some(arr) => {
                let ns = match override_names_exec(v, arr, "adjacencies", Some(name.as_str())) {
                    Ok(ns) => ns,
                    Err(x) => {
                        return Err(x);
                    },
                };
                let mut k: usize = 0;
                while k < ns.len()
                    invariant
                        i < v@.len(),
                        i < ps0.len(),
                        k <= ns@.len(),
                        province_models(v@) == ps0.update(
                            i as int,
                            ProvinceModel {
                                adjacent: ps0[i as int].adjacent + name_keys(string_views(ns@).subrange(0, k as int)),
                                ..ps0[i as int]
                            },
                        ),
                    decreases ns@.len() - k,
                {
                    let ghost before = province_models(v@);
                    push_adjacent(v, i, ns[k].clone());
                    assert(ps0[i as int].adjacent + name_keys(string_views(ns@).subrange(0, k + 1)) =~= (
                    ps0[i as int].adjacent + name_keys(string_views(ns@).subrange(0, k as int))).push(
                        Ok::<Seq<char>, usize>(ns@[k as int]@),
                    ));
                    assert(province_models(v@) =~= ps0.update(
                        i as int,
                        ProvinceModel {
                            adjacent: ps0[i as int].adjacent + name_keys(string_views(ns@).subrange(0, k + 1)),
                            ..ps0[i as int]
                        },
                    ));
                    k = k + 1;
                }
                assert(string_views(ns@).subrange(0, k as int) =~= string_views(ns@));
            },
            None => {
                assert(province_models(v@) =~= ps0);
            },
        },
        None => {
            assert(province_models(v@) =~= ps0);
        },
    }
    let ghost ps1 = province_models(v@);
    match data.get("remove_adjacencies") {
        Some(a) => match a.as_array() {
            Some(arr) => {
                let ns = match override_names_exec(v, arr, "remove_adjacencies", Some(name.as_str())) {
                    Ok(ns) => ns,
                    Err(x) => {
                        return Err(x);
                    },
                };
                remove_adjacent(v, i, &ns);
            },
            None => {},
        },
        None => {},
    }
    let ghost ps2 = province_models(v@);
    match data.get("coasts") {
        Some(c) => match c.as_object() {
            Some(cm) => {
                assert(ps2[i as int] == province_model(v@[i as int]));
                let pname = v[i].name.clone();
                let cs = match override_coasts_exec(v, cm, name, &pname) {
                    Ok(cs) => cs,
                    Err(x) => {
                        return Err(x);
                    },
                };
                let ghost before = v@;
                let mut p = v.remove(i);
                p.coasts = Some(cs);
                v.insert(i, p);
                assert(v@ =~= before.update(i as int, p));
                proof {
                    lemma_models_update(before, i as int, p);
                }
            },
            None => {},
        },
        None => {},
    }
    Ok(())
}

fn override_all_exec(v: &mut Vec<ProvinceInfo>, members: &Vec<(String, Json)>) -> (res: Result<(), MapError>)
    ensures
        match override_all(province_models(old(v)@), members@) {
            Ok(ps) => res is Ok && province_models(final(v)@) == ps,
            Err(x) => res is Err && map_error_view(res->Err_0) == x,
        },
{
    let ghost goal = override_all(province_models(v@), members@);
    assert(members@.subrange(0, members@.len() as int) =~= members@);
    let mut k: usize = 0;
    while k < members.len()
        invariant
            k <= members@.len(),
            goal == override_all(province_models(old(v)@), members@),
            goal == override_all(province_models(v@), members@.subrange(k as int, members@.len() as int)),
        decreases members@.len() - k,
    {
        let ghost rest = members@.subrange(k as int, members@.len() as int);
        assert(rest.drop_first() =~= members@.subrange(k + 1, members@.len() as int));
        assert(rest[0] == members@[k as int]);
        match override_one_exec(v, &members[k].0, &members[k].1) {
            Ok(()) => {},
            Err(x) => {
                return Err(x);
            },
        }
        k = k + 1;
    }
    assert(members@.subrange(k as int, members@.len() as int) =~= Seq::<(String, Json)>::empty());
    Ok(())
}

/// Applies a map's overrides to its provinces (see `apply_overrides`).
pub fn json_cheats(v: &mut Vec<ProvinceInfo>, overrides: Option<Json>) -> (res: Result<(), MapError>)
    ensures
        match apply_overrides(province_models(old(v)@), overrides) {
            Ok(ps) => res is Ok && province_models(final(v)@) == ps,
            Err(x) => res is Err && map_error_view(res->Err_0) == x,
        },
{
    let o = match &overrides {
        None => {
            return Ok(());
        },
        Some(o) => o,
    };
    match o.get("high provinces") {
        Some(h) => match h.as_object() {
            Some(members) => {
                match high_declare_exec(v, members) {
                    Ok(()) => {},
                    Err(x) => {
                        return Err(x);
                    },
                }
                match high_link_exec(v, members) {
                    Ok(()) => {},
                    Err(x) => {
                        return Err(x);
                    },
                }
            },
            None => {},
        },
        None => {},
    }
    match o.get("provinces") {
        Some(p) => match p.as_object() {
            Some(members) => override_all_exec(v, members),
            None => Ok(()),
        },
        None => Ok(()),
    }
}

} // verus!
