use vstd::prelude::*;

use crate::map_error::{map_error_view, MapError, MapErrorView};
use crate::map_model::{
    coast_models, find_province, lemma_models_update, province_index, province_model,
    province_models, reference_keys, CoastModel, ProvinceModel, ReferenceKey,
};
use crate::province::{is_sea_like, sea_references, spec_reference_key, ProvinceInfo, ProvinceReference, ProvinceType};

verus! {

/// Adds provinces in turn; a name that is already there is an error.
pub open spec fn insert_all(ps: Seq<ProvinceModel>, raw: Seq<ProvinceModel>) -> Result<Seq<ProvinceModel>, MapErrorView>
    decreases raw.len(),
{
    if raw.len() == 0 {
        Ok(ps)
    } else if province_index(ps, raw[0].name) is Some {
        Err(MapErrorView::RepeatedProvince(raw[0].name))
    } else {
        insert_all(ps.push(raw[0]), raw.drop_first())
    }
}

/// Moves provinces, in turn, to the end of a list (see `insert_all`).
pub fn insert_provinces(v: &mut Vec<ProvinceInfo>, raw: &mut Vec<ProvinceInfo>) -> (res: Result<(), MapError>)
    ensures
        match insert_all(province_models(old(v)@), province_models(old(raw)@)) {
            Ok(ps) => res is Ok && province_models(final(v)@) == ps,
            Err(x) => res is Err && map_error_view(res->Err_0) == x,
        },
{
    let ghost goal = insert_all(province_models(v@), province_models(raw@));
    while raw.len() > 0
        invariant
            goal == insert_all(province_models(old(v)@), province_models(old(raw)@)),
            goal == insert_all(province_models(v@), province_models(raw@)),
        decreases raw@.len(),
    {
        let ghost before_raw = raw@;
        let ghost before_v = v@;
        let p = raw.remove(0);
        assert(province_models(raw@) =~= province_models(before_raw).drop_first());
        assert(province_models(before_raw)[0] == province_model(p));
        match find_province(v, p.name.as_str()) {
            Some(_) => {
                return Err(MapError::RepeatedProvince(p.name));
            },
            None => {},
        }
        v.push(p);
        assert(province_models(v@) =~= province_models(before_v).push(province_model(p)));
    }
    Ok(())
}

/// Makes two provinces adjacent, each to the other (in this order: the
/// second joins the first's adjacencies, then the first the second's). A
/// province is not adjacent to itself, and both must be there.
pub open spec fn link(ps: Seq<ProvinceModel>, a: Seq<char>, b: Seq<char>) -> Result<Seq<ProvinceModel>, MapErrorView> {
    if a == b {
        Err(MapErrorView::SelfAdjacency(a))
    } else {
        match province_index(ps, a) {
            None => Err(MapErrorView::UnknownProvince(a)),
            Some(i) => match province_index(ps, b) {
                None => Err(MapErrorView::UnknownProvince(b)),
                Some(j) => {
                    let ps1 = ps.update(i, ProvinceModel { adjacent: ps[i].adjacent.push(Ok(ps[j].name)), ..ps[i] });
                    Ok(ps1.update(j, ProvinceModel { adjacent: ps1[j].adjacent.push(Ok(ps1[i].name)), ..ps1[j] }))
                },
            },
        }
    }
}

/// Links the pairs in turn (see `link`).
pub open spec fn link_all(ps: Seq<ProvinceModel>, pairs: Seq<(Seq<char>, Seq<char>)>) -> Result<Seq<ProvinceModel>, MapErrorView>
    decreases pairs.len(),
{
    if pairs.len() == 0 {
        Ok(ps)
    } else {
        match link(ps, pairs[0].0, pairs[0].1) {
            Err(x) => Err(x),
            Ok(q) => link_all(q, pairs.drop_first()),
        }
    }
}

pub open spec fn pair_views(v: Seq<(String, String)>) -> Seq<(Seq<char>, Seq<char>)> {
    v.map_values(|p: (String, String)| (p.0@, p.1@))
}

/// Adds a province, by name, to the adjacencies of province `i`.
pub fn push_adjacent(v: &mut Vec<ProvinceInfo>, i: usize, name: String)
    requires
        i < old(v)@.len(),
    ensures
        final(v)@.len() == old(v)@.len(),
        province_models(final(v)@) == province_models(old(v)@).update(
            i as int,
            ProvinceModel {
                adjacent: province_models(old(v)@)[i as int].adjacent.push(Ok(name@)),
                ..province_models(old(v)@)[i as int]
            },
        ),
{
    let ghost before = v@;
    let mut p = v.remove(i);
    let ghost adj_before = p.adjacent@;
    p.adjacent.push(ProvinceReference::Name(name));
    v.insert(i, p);
    assert(v@ =~= before.update(i as int, p));
    proof { lemma_models_update(before, i as int, p); }
    assert(reference_keys(p.adjacent@) =~= reference_keys(adj_before).push(Ok::<Seq<char>, usize>(name@)));
}

/// Makes two provinces adjacent (see `link`).
pub fn link_provinces(v: &mut Vec<ProvinceInfo>, a: &str, b: &str) -> (res: Result<(), MapError>)
    ensures
        match link(province_models(old(v)@), a@, b@) {
            Ok(ps) => res is Ok && province_models(final(v)@) == ps,
            Err(x) => res is Err && map_error_view(res->Err_0) == x,
        },
{
    if crate::support::str_eq(a, b) {
        return Err(MapError::SelfAdjacency(a.to_owned()));
    }
    let i = match find_province(v, a) {
        Some(i) => i,
        None => {
            return Err(MapError::UnknownProvince(a.to_owned()));
        },
    };
    let j = match find_province(v, b) {
        Some(j) => j,
        None => {
            return Err(MapError::UnknownProvince(b.to_owned()));
        },
    };
    let ghost ps = province_models(v@);
    assert(ps[j as int].name == v@[j as int].name@);
    assert(ps[i as int].name == v@[i as int].name@);
    let bn = v[j].name.clone();
    let an = v[i].name.clone();
    push_adjacent(v, i, bn);
    push_adjacent(v, j, an);
    Ok(())
}

/// Links the pairs in turn (see `link_all`).
pub fn link_pairs(v: &mut Vec<ProvinceInfo>, pairs: &Vec<(String, String)>) -> (res: Result<(), MapError>)
    ensures
        match link_all(province_models(old(v)@), pair_views(pairs@)) {
            Ok(ps) => res is Ok && province_models(final(v)@) == ps,
            Err(x) => res is Err && map_error_view(res->Err_0) == x,
        },
{
    let ghost pv = pair_views(pairs@);
    let ghost goal = link_all(province_models(v@), pv);
    assert(pv.subrange(0, pv.len() as int) =~= pv);
    let mut k: usize = 0;
    while k < pairs.len()
        invariant
            pv == pair_views(pairs@),
            goal == link_all(province_models(old(v)@), pv),
            k <= pairs@.len(),
            goal == link_all(province_models(v@), pv.subrange(k as int, pv.len() as int)),
        decreases pairs@.len() - k,
    {
        let ghost rest = pv.subrange(k as int, pv.len() as int);
        assert(rest.drop_first() =~= pv.subrange(k + 1, pv.len() as int));
        assert(rest[0] == (pairs@[k as int].0@, pairs@[k as int].1@));
        match link_provinces(v, pairs[k].0.as_str(), pairs[k].1.as_str()) {
            Ok(()) => {},
            Err(x) => {
                return Err(x);
            },
        }
        k = k + 1;
    }
    assert(pv.subrange(k as int, pv.len() as int) =~= Seq::<(Seq<char>, Seq<char>)>::empty());
    Ok(())
}

/// The kinds of the provinces a province (the `k`th) is adjacent to, each
/// looked up by name; a reference that names no province is an error, and
/// so is one to the province itself.
pub open spec fn adjacent_kinds(ps: Seq<ProvinceModel>, k: int, adj: Seq<ReferenceKey>) -> Result<Seq<ProvinceType>, MapErrorView>
    decreases adj.len(),
{
    if adj.len() == 0 {
        Ok(Seq::empty())
    } else {
        match adj[0] {
            Err(_) => Err(MapErrorView::UnknownProvince(Seq::empty())),
            Ok(n) => match province_index(ps, n) {
                None => Err(MapErrorView::UnknownProvince(n)),
                Some(j) => if j == k {
                    Err(MapErrorView::SelfAdjacency(n))
                } else {
                    match adjacent_kinds(ps, k, adj.drop_first()) {
                        Err(x) => Err(x),
                        Ok(r) => Ok(seq![ps[j].province_type] + r),
                    }
                },
            },
        }
    }
}

proof fn lemma_adjacent_kinds_len(ps: Seq<ProvinceModel>, k: int, adj: Seq<ReferenceKey>)
    ensures
        adjacent_kinds(ps, k, adj) matches Ok(ts) ==> ts.len() == adj.len(),
    decreases adj.len(),
{
    if adj.len() > 0 {
        lemma_adjacent_kinds_len(ps, k, adj.drop_first());
    }
}

/// The adjacencies whose province is a sea or an island, in order.
pub open spec fn sea_keys(adj: Seq<ReferenceKey>, types: Seq<ProvinceType>) -> Seq<ReferenceKey>
    decreases adj.len(),
{
    if adj.len() == 0 || types.len() == 0 {
        Seq::empty()
    } else {
        let rest = sea_keys(adj.drop_last(), types.drop_last());
        if is_sea_like(types.last()) {
            rest.push(adj.last())
        } else {
            rest
        }
    }
}

proof fn lemma_sea_keys(adj: Seq<ProvinceReference>, types: Seq<ProvinceType>)
    ensures
        reference_keys(sea_references(adj, types)) == sea_keys(reference_keys(adj), types),
    decreases adj.len(),
{
    if adj.len() > 0 && types.len() > 0 {
        lemma_sea_keys(adj.drop_last(), types.drop_last());
        assert(reference_keys(adj).drop_last() =~= reference_keys(adj.drop_last()));
        let rest = sea_references(adj.drop_last(), types.drop_last());
        assert(reference_keys(rest.push(adj.last())) =~= reference_keys(rest).push(spec_reference_key(adj.last())));
    } else {
        assert(reference_keys(sea_references(adj, types)) =~= Seq::<ReferenceKey>::empty());
    }
}

/// The `k`th province with its coasts set: unchanged if it has coasts
/// already; none for a sea; otherwise one coast, "<name> coast",
/// bordering the seas and islands it is adjacent to, or none if there are
/// none.
pub open spec fn with_coasts(ps: Seq<ProvinceModel>, k: int) -> Result<ProvinceModel, MapErrorView> {
    let p = ps[k];
    if p.coasts is Some {
        Ok(p)
    } else if p.province_type == ProvinceType::SEA {
        Ok(ProvinceModel { coasts: Some(Seq::empty()), ..p })
    } else {
        match adjacent_kinds(ps, k, p.adjacent) {
            Err(x) => Err(x),
            Ok(ts) => {
                let seas = sea_keys(p.adjacent, ts);
                if seas.len() == 0 {
                    Ok(ProvinceModel { coasts: Some(Seq::empty()), ..p })
                } else {
                    Ok(
                        ProvinceModel {
                            coasts: Some(
                                seq![CoastModel { name: p.name + " coast"@, adjacent_seas: seas, province: Ok(p.name) }],
                            ),
                            ..p
                        },
                    )
                }
            },
        }
    }
}

/// Sets the coasts of the provinces from the `k`th on, in turn.
pub open spec fn coasts_all(ps: Seq<ProvinceModel>, k: int) -> Result<Seq<ProvinceModel>, MapErrorView>
    decreases ps.len() - k,
{
    if k < 0 || k >= ps.len() {
        Ok(ps)
    } else {
        match with_coasts(ps, k) {
            Err(x) => Err(x),
            Ok(p) => coasts_all(ps.update(k, p), k + 1),
        }
    }
}

/// The kinds of the provinces province `k` is adjacent to (see
/// `adjacent_kinds`).
fn kinds_of(v: &Vec<ProvinceInfo>, k: usize) -> (res: Result<Vec<ProvinceType>, MapError>)
    requires
        k < v@.len(),
    ensures
        match adjacent_kinds(province_models(v@), k as int, province_models(v@)[k as int].adjacent) {
            Ok(ts) => res is Ok && res->Ok_0@ == ts,
            Err(x) => res is Err && map_error_view(res->Err_0) == x,
        },
{
    let ghost ps = province_models(v@);
    assert(ps[k as int] == province_model(v@[k as int]));
    let adj = &v[k].adjacent;
    let ghost keys = ps[k as int].adjacent;
    let ghost goal = adjacent_kinds(ps, k as int, keys);
    assert(keys.subrange(0, keys.len() as int) =~= keys);
    let mut out: Vec<ProvinceType> = Vec::new();
    let mut t: usize = 0;
    while t < adj.len()
        invariant
            ps == province_models(v@),
            keys == reference_keys(adj@),
            keys == ps[k as int].adjacent,
            k < v@.len(),
            t <= adj@.len(),
            goal == adjacent_kinds(ps, k as int, keys),
            goal == match adjacent_kinds(ps, k as int, keys.subrange(t as int, keys.len() as int)) {
                Ok(r) => Ok(out@ + r),
                Err(x) => Err(x),
            },
        decreases adj@.len() - t,
    {
        let ghost rest = keys.subrange(t as int, keys.len() as int);
        assert(rest.drop_first() =~= keys.subrange(t + 1, keys.len() as int));
        assert(rest[0] == spec_reference_key(adj@[t as int]));
        match &adj[t] {
            ProvinceReference::Index(_) => {
                return Err(MapError::UnknownProvince(String::new()));
            },
            ProvinceReference::Name(n) => {
                let j = match find_province(v, n.as_str()) {
                    Some(j) => j,
                    None => {
                        return Err(MapError::UnknownProvince(n.clone()));
                    },
                };
                if j == k {
                    return Err(MapError::SelfAdjacency(n.clone()));
                }
                assert(ps[j as int] == province_model(v@[j as int]));
                let ghost before = out@;
                out.push(v[j].province_type);
                proof {
                    let r = adjacent_kinds(ps, k as int, rest.drop_first());
                    if let Ok(rr) = r {
                        assert(out@ + rr =~= before + (seq![ps[j as int].province_type] + rr));
                    }
                }
            },
        }
        t = t + 1;
    }
    assert(keys.subrange(t as int, keys.len() as int) =~= Seq::<ReferenceKey>::empty());
    assert(out@ + Seq::<ProvinceType>::empty() =~= out@);
    Ok(out)
}

/// Sets the coasts of all the provinces (see `coasts_all`).
pub fn set_all_coasts(v: &mut Vec<ProvinceInfo>) -> (res: Result<(), MapError>)
    ensures
        match coasts_all(province_models(old(v)@), 0) {
            Ok(ps) => res is Ok && province_models(final(v)@) == ps,
            Err(x) => res is Err && map_error_view(res->Err_0) == x,
        },
{
    let ghost goal = coasts_all(province_models(v@), 0);
    let mut k: usize = 0;
    while k < v.len()
        invariant
            k <= v@.len(),
            goal == coasts_all(province_models(old(v)@), 0),
            goal == coasts_all(province_models(v@), k as int),
        decreases v@.len() - k,
    {
        let ghost ps = province_models(v@);
        let kinds = match kinds_of(v, k) {
            Ok(t) => t,
            Err(x) => {
                assert(ps[k as int] == province_model(v@[k as int]));
                if v[k].coasts.is_some() || v[k].province_type == ProvinceType::SEA {
                    Vec::new()
                } else {
                    return Err(x);
                }
            },
        };
        assert(ps[k as int] == province_model(v@[k as int]));
        proof {
            lemma_adjacent_kinds_len(ps, k as int, ps[k as int].adjacent);
        }
        let ghost before = v@;
        let mut p = v.remove(k);
        if p.coasts.is_none() && p.province_type != ProvinceType::SEA {
            p.set_coasts(&kinds);
            proof {
                lemma_sea_keys(before[k as int].adjacent@, kinds@);
                let seas = sea_references(before[k as int].adjacent@, kinds@);
                let cs = p.coasts.unwrap()@;
                if seas.len() > 0 {
                    assert(coast_models(cs) =~= seq![
                        CoastModel {
                            name: before[k as int].name@ + " coast"@,
                            adjacent_seas: reference_keys(seas),
                            province: Ok(before[k as int].name@),
                        },
                    ]);
                } else {
                    assert(coast_models(cs) =~= Seq::<CoastModel>::empty());
                }
            }
        } else if p.coasts.is_none() {
            p.coasts = Some(Vec::new());
            assert(coast_models(p.coasts.unwrap()@) =~= Seq::<CoastModel>::empty());
        }
        v.insert(k, p);
        assert(v@ =~= before.update(k as int, p));
        proof { lemma_models_update(before, k as int, p); }
        assert(with_coasts(ps, k as int) == Ok::<ProvinceModel, MapErrorView>(province_model(p)));
        k = k + 1;
    }
    Ok(())
}

} // verus!
