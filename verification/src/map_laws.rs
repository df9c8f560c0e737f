use vstd::prelude::*;

use crate::adjacency::{adjacent_kinds, coasts_all, insert_all, link, link_all, sea_keys, with_coasts};
use crate::json::{json_get, json_str, Json};
use crate::overrides::{
    bares, cross, first_missing, high_declare, high_kind, high_link, high_link_one, high_names, json_elements,
    mutual_pairs, others, override_name, override_names, push_all, apply_overrides, kept, name_keys,
    override_all, override_coasts, override_one,
};
use crate::province::ProvinceType;
use crate::parser::{
    border_step, border_type, center_step, coast_letter, fill_step, get_i64, json_members, layer_effect,
    lemma_layer_effect_advances, process, run, spec_province_and_coast, unit_end, unit_label_type, unit_step,
    BorderScan, ParseModel, UnitScan,
};
use crate::layers::{spec_match_id, Layer, LayerInfo};
use crate::map_error::MapErrorView;
use crate::map_model::{depth_change, scan};
use crate::player::PlayerInfo;
use crate::svg::{player_result, spec_required_attribute, ElementView, EventView, INKSPACE_LABEL};
use crate::transform::{transform_result, TransformView};
use crate::unit::UnitType;
use std::sync::Arc;
use crate::map_model::{lemma_province_index, province_index, CoastModel, ProvinceModel, ReferenceKey};

verus! {

/// The names of the provinces, in order.
pub open spec fn names_of(ps: Seq<ProvinceModel>) -> Seq<Seq<char>> {
    ps.map_values(|p: ProvinceModel| p.name)
}

/// No two provinces share a name.
pub open spec fn names_distinct(ps: Seq<ProvinceModel>) -> bool {
    forall|i: int, j: int| 0 <= i < j < ps.len() ==> (#[trigger] ps[i]).name != (#[trigger] ps[j]).name
}

/// A reference names one of the provinces.
pub open spec fn resolves(ps: Seq<ProvinceModel>, r: ReferenceKey) -> bool {
    match r {
        Ok(n) => province_index(ps, n) is Some,
        Err(_) => false,
    }
}

/// Every reference of a province (its adjacencies, and the seas of its
/// coasts) names one of the provinces.
pub open spec fn own_refs_resolve(ps: Seq<ProvinceModel>, p: ProvinceModel) -> bool {
    &&& forall|k: int| 0 <= k < p.adjacent.len() ==> resolves(ps, #[trigger] p.adjacent[k])
    &&& p.coasts is Some ==> forall|c: int, k: int|
        0 <= c < p.coasts.unwrap().len() && 0 <= k < p.coasts.unwrap()[c].adjacent_seas.len() ==> resolves(
            ps,
            #[trigger] p.coasts.unwrap()[c].adjacent_seas[k],
        )
}

/// Every reference of every province names one of the provinces.
pub open spec fn refs_resolve(ps: Seq<ProvinceModel>) -> bool {
    forall|i: int| 0 <= i < ps.len() ==> own_refs_resolve(ps, #[trigger] ps[i])
}

/// A province with no references yet.
pub open spec fn ref_free(p: ProvinceModel) -> bool {
    p.adjacent.len() == 0 && p.coasts is None
}

proof fn lemma_index_same_names(ps: Seq<ProvinceModel>, qs: Seq<ProvinceModel>, n: Seq<char>)
    requires
        names_of(ps) == names_of(qs),
    ensures
        province_index(ps, n) == province_index(qs, n),
    decreases ps.len(),
{
    assert(ps.len() == names_of(ps).len());
    assert(qs.len() == names_of(qs).len());
    if ps.len() > 0 {
        assert(ps[0].name == names_of(ps)[0]);
        assert(qs[0].name == names_of(qs)[0]);
        assert(names_of(ps.drop_first()) =~= names_of(ps).drop_first());
        assert(names_of(qs.drop_first()) =~= names_of(qs).drop_first());
        lemma_index_same_names(ps.drop_first(), qs.drop_first(), n);
    }
}

proof fn lemma_index_prefix(ps: Seq<ProvinceModel>, more: Seq<ProvinceModel>, n: Seq<char>)
    requires
        province_index(ps, n) is Some,
    ensures
        province_index(ps + more, n) == province_index(ps, n),
    decreases ps.len(),
{
    if ps.len() > 0 && ps[0].name != n {
        assert((ps + more).drop_first() =~= ps.drop_first() + more);
        lemma_index_prefix(ps.drop_first(), more, n);
    }
}

proof fn lemma_index_member(ps: Seq<ProvinceModel>, j: int)
    requires
        0 <= j < ps.len(),
    ensures
        province_index(ps, ps[j].name) is Some,
{
    lemma_province_index(ps, ps[j].name);
}

/// References that name provinces still do once the names are the same.
proof fn lemma_resolves_same_names(ps: Seq<ProvinceModel>, qs: Seq<ProvinceModel>, r: ReferenceKey)
    requires
        names_of(ps) == names_of(qs),
    ensures
        resolves(ps, r) == resolves(qs, r),
{
    if let Ok(n) = r {
        lemma_index_same_names(ps, qs, n);
    }
}

/// Changing a province but not its name, into one whose references name
/// provinces, keeps every reference naming a province.
proof fn lemma_refs_update(ps: Seq<ProvinceModel>, i: int, p: ProvinceModel)
    requires
        refs_resolve(ps),
        0 <= i < ps.len(),
        p.name == ps[i].name,
        own_refs_resolve(ps, p),
    ensures
        refs_resolve(ps.update(i, p)),
        names_of(ps.update(i, p)) == names_of(ps),
{
    let qs = ps.update(i, p);
    assert(names_of(qs) =~= names_of(ps));
    assert forall|j: int| 0 <= j < qs.len() implies own_refs_resolve(qs, #[trigger] qs[j]) by {
        let x = qs[j];
        assert(own_refs_resolve(ps, x));
        assert forall|k: int| 0 <= k < x.adjacent.len() implies resolves(qs, #[trigger] x.adjacent[k]) by {
            lemma_resolves_same_names(ps, qs, x.adjacent[k]);
        }
        if x.coasts is Some {
            assert forall|c: int, k: int|
                0 <= c < x.coasts.unwrap().len() && 0 <= k < x.coasts.unwrap()[c].adjacent_seas.len() implies resolves(
                qs,
                #[trigger] x.coasts.unwrap()[c].adjacent_seas[k],
            ) by {
                lemma_resolves_same_names(ps, qs, x.coasts.unwrap()[c].adjacent_seas[k]);
            }
        }
    }
}

/// Adding provinces one by one keeps the names apart, and gives the
/// provinces followed by the new ones; new provinces without references
/// keep every reference naming a province.
pub proof fn lemma_insert_all(ps: Seq<ProvinceModel>, raw: Seq<ProvinceModel>)
    ensures
        insert_all(ps, raw) matches Ok(q) ==> {
            &&& q == ps + raw
            &&& names_distinct(ps) ==> names_distinct(q)
            &&& (refs_resolve(ps) && forall|k: int| 0 <= k < raw.len() ==> ref_free(#[trigger] raw[k]))
                ==> refs_resolve(q)
        },
    decreases raw.len(),
{
    if raw.len() > 0 && province_index(ps, raw[0].name) is None {
        let ps1 = ps.push(raw[0]);
        lemma_insert_all(ps1, raw.drop_first());
        if let Ok(q) = insert_all(ps, raw) {
            assert(ps1 + raw.drop_first() =~= ps + raw);
            lemma_province_index(ps, raw[0].name);
            if names_distinct(ps) {
                assert forall|i: int, j: int| 0 <= i < j < ps1.len() implies (#[trigger] ps1[i]).name
                    != (#[trigger] ps1[j]).name by {
                    if j == ps.len() {
                        assert(ps1[i] == ps[i]);
                    } else {
                        assert(ps1[i] == ps[i] && ps1[j] == ps[j]);
                    }
                }
            }
            if refs_resolve(ps) && forall|k: int| 0 <= k < raw.len() ==> ref_free(#[trigger] raw[k]) {
                assert forall|k: int| 0 <= k < raw.drop_first().len() implies ref_free(
                    #[trigger] raw.drop_first()[k],
                ) by {
                    assert(raw.drop_first()[k] == raw[k + 1]);
                }
                assert(ref_free(raw[0]));
                assert forall|j: int| 0 <= j < ps1.len() implies own_refs_resolve(ps1, #[trigger] ps1[j]) by {
                    if j < ps.len() {
                        let x = ps[j];
                        assert(ps1[j] == x);
                        assert(own_refs_resolve(ps, x));
                        assert forall|k: int| 0 <= k < x.adjacent.len() implies resolves(
                            ps1,
                            #[trigger] x.adjacent[k],
                        ) by {
                            if let Ok(n) = x.adjacent[k] {
                                lemma_index_prefix(ps, seq![raw[0]], n);
                                assert(ps + seq![raw[0]] =~= ps1);
                            }
                        }
                        if x.coasts is Some {
                            assert forall|c: int, k: int|
                                0 <= c < x.coasts.unwrap().len() && 0 <= k
                                    < x.coasts.unwrap()[c].adjacent_seas.len() implies resolves(
                                ps1,
                                #[trigger] x.coasts.unwrap()[c].adjacent_seas[k],
                            ) by {
                                if let Ok(n) = x.coasts.unwrap()[c].adjacent_seas[k] {
                                    lemma_index_prefix(ps, seq![raw[0]], n);
                                    assert(ps + seq![raw[0]] =~= ps1);
                                }
                            }
                        }
                    } else {
                        assert(ps1[j] == raw[0]);
                    }
                }
            }
        }
    } else if raw.len() == 0 {
        assert(ps + raw =~= ps);
    }
}

/// Linking two provinces keeps the names, and every reference naming a
/// province; and makes each adjacent to the other.
pub proof fn lemma_link(ps: Seq<ProvinceModel>, a: Seq<char>, b: Seq<char>)
    ensures
        link(ps, a, b) matches Ok(q) ==> {
            &&& names_of(q) == names_of(ps)
            &&& refs_resolve(ps) ==> refs_resolve(q)
            &&& q[province_index(ps, a).unwrap()].adjacent.last() == Ok::<Seq<char>, usize>(b)
            &&& q[province_index(ps, b).unwrap()].adjacent.last() == Ok::<Seq<char>, usize>(a)
        },
{
    if let Ok(q) = link(ps, a, b) {
        let i = province_index(ps, a).unwrap();
        let j = province_index(ps, b).unwrap();
        lemma_province_index(ps, a);
        lemma_province_index(ps, b);
        let pi = ProvinceModel { adjacent: ps[i].adjacent.push(Ok(ps[j].name)), ..ps[i] };
        let ps1 = ps.update(i, pi);
        let pj = ProvinceModel { adjacent: ps1[j].adjacent.push(Ok(ps1[i].name)), ..ps1[j] };
        assert(q == ps1.update(j, pj));
        assert(names_of(ps1) =~= names_of(ps));
        assert(names_of(q) =~= names_of(ps1));
        if refs_resolve(ps) {
            lemma_index_member(ps, j);
            assert(own_refs_resolve(ps, ps[i]));
            assert forall|k: int| 0 <= k < pi.adjacent.len() implies resolves(ps, #[trigger] pi.adjacent[k]) by {
                if k < ps[i].adjacent.len() {
                    assert(pi.adjacent[k] == ps[i].adjacent[k]);
                }
            }
            lemma_refs_update(ps, i, pi);
            lemma_index_member(ps1, i);
            assert(own_refs_resolve(ps1, ps1[j]));
            assert forall|k: int| 0 <= k < pj.adjacent.len() implies resolves(ps1, #[trigger] pj.adjacent[k]) by {
                if k < ps1[j].adjacent.len() {
                    assert(pj.adjacent[k] == ps1[j].adjacent[k]);
                }
            }
            lemma_refs_update(ps1, j, pj);
        }
    }
}

/// Linking pairs in turn keeps the names, and every reference naming a
/// province.
pub proof fn lemma_link_all(ps: Seq<ProvinceModel>, pairs: Seq<(Seq<char>, Seq<char>)>)
    ensures
        link_all(ps, pairs) matches Ok(q) ==> {
            &&& names_of(q) == names_of(ps)
            &&& refs_resolve(ps) ==> refs_resolve(q)
        },
    decreases pairs.len(),
{
    if pairs.len() > 0 {
        lemma_link(ps, pairs[0].0, pairs[0].1);
        if let Ok(q1) = link(ps, pairs[0].0, pairs[0].1) {
            lemma_link_all(q1, pairs.drop_first());
        }
    }
}


/// The provinces an override list names are provinces.
proof fn lemma_override_names(ps: Seq<ProvinceModel>, arr: Seq<Json>, key: Seq<char>, own: Option<Seq<char>>)
    ensures
        override_names(ps, arr, key, own) matches Ok(ns) ==> forall|k: int|
            0 <= k < ns.len() ==> province_index(ps, #[trigger] ns[k]) is Some,
    decreases arr.len(),
{
    if arr.len() > 0 {
        lemma_override_names(ps, arr.drop_first(), key, own);
        if let Ok(n) = override_name(ps, arr[0], key, own) {
            let f = json_str(arr[0]).unwrap();
            let j = province_index(ps, f).unwrap();
            lemma_province_index(ps, f);
            lemma_index_member(ps, j);
            if let Ok(ns) = override_names(ps, arr, key, own) {
                let r = override_names(ps, arr.drop_first(), key, own)->Ok_0;
                assert(ns == seq![n] + r);
                assert forall|k: int| 0 <= k < ns.len() implies province_index(ps, #[trigger] ns[k]) is Some by {
                    if k > 0 {
                        assert(ns[k] == r[k - 1]);
                    }
                }
            }
        }
    }
}

/// Adding to the adjacencies of the provinces named first in pairs whose
/// second names a province keeps the names, and every reference naming a
/// province.
proof fn lemma_push_all(ps: Seq<ProvinceModel>, pairs: Seq<(Seq<char>, Seq<char>)>)
    requires
        forall|k: int| 0 <= k < pairs.len() ==> province_index(ps, (#[trigger] pairs[k]).1) is Some,
    ensures
        names_of(push_all(ps, pairs)) == names_of(ps),
        refs_resolve(ps) ==> refs_resolve(push_all(ps, pairs)),
    decreases pairs.len(),
{
    if pairs.len() > 0 {
        let q = match province_index(ps, pairs[0].0) {
            Some(i) => ps.update(i, ProvinceModel { adjacent: ps[i].adjacent.push(Ok(pairs[0].1)), ..ps[i] }),
            None => ps,
        };
        assert(province_index(ps, pairs[0].1) is Some);
        if let Some(i) = province_index(ps, pairs[0].0) {
            lemma_province_index(ps, pairs[0].0);
            let p = ProvinceModel { adjacent: ps[i].adjacent.push(Ok(pairs[0].1)), ..ps[i] };
            assert(names_of(q) =~= names_of(ps));
            if refs_resolve(ps) {
                assert(own_refs_resolve(ps, ps[i]));
                assert forall|k: int| 0 <= k < p.adjacent.len() implies resolves(ps, #[trigger] p.adjacent[k]) by {
                    if k < ps[i].adjacent.len() {
                        assert(p.adjacent[k] == ps[i].adjacent[k]);
                    }
                }
                lemma_refs_update(ps, i, p);
            }
        }
        assert forall|k: int| 0 <= k < pairs.drop_first().len() implies province_index(
            q,
            (#[trigger] pairs.drop_first()[k]).1,
        ) is Some by {
            assert(pairs.drop_first()[k] == pairs[k + 1]);
            lemma_index_same_names(ps, q, pairs[k + 1].1);
        }
        lemma_push_all(q, pairs.drop_first());
    }
}

proof fn lemma_first_missing(ps: Seq<ProvinceModel>, hs: Seq<Seq<char>>)
    ensures
        first_missing(ps, hs) is None ==> forall|k: int| 0 <= k < hs.len() ==> province_index(ps, #[trigger] hs[k]) is Some,
    decreases hs.len(),
{
    if hs.len() > 0 {
        lemma_first_missing(ps, hs.drop_first());
        if first_missing(ps, hs) is None {
            assert forall|k: int| 0 <= k < hs.len() implies province_index(ps, #[trigger] hs[k]) is Some by {
                if k > 0 {
                    assert(hs[k] == hs.drop_first()[k - 1]);
                }
            }
        }
    }
}

proof fn lemma_others_from(h: Seq<char>, xs: Seq<Seq<char>>)
    ensures
        forall|k: int| 0 <= k < others(h, xs).len() ==> xs.contains((#[trigger] others(h, xs)[k]).1),
    decreases xs.len(),
{
    if xs.len() > 0 {
        lemma_others_from(h, xs.drop_last());
        let r = others(h, xs.drop_last());
        assert forall|k: int| 0 <= k < others(h, xs).len() implies xs.contains((#[trigger] others(h, xs)[k]).1) by {
            if k < r.len() {
                assert(others(h, xs)[k] == r[k]);
                assert(xs.drop_last().contains(r[k].1));
                let m = choose|m: int| 0 <= m < xs.drop_last().len() && xs.drop_last()[m] == r[k].1;
                assert(xs[m] == r[k].1);
            } else {
                assert(xs[xs.len() - 1] == xs.last());
            }
        }
    }
}

proof fn lemma_mutual_from(hs: Seq<Seq<char>>, all: Seq<Seq<char>>)
    ensures
        forall|k: int| 0 <= k < mutual_pairs(hs, all).len() ==> all.contains((#[trigger] mutual_pairs(hs, all)[k]).1),
    decreases hs.len(),
{
    if hs.len() > 0 {
        lemma_mutual_from(hs.drop_last(), all);
        lemma_others_from(hs.last(), all);
        let a = mutual_pairs(hs.drop_last(), all);
        let b = others(hs.last(), all);
        assert forall|k: int| 0 <= k < mutual_pairs(hs, all).len() implies all.contains(
            (#[trigger] mutual_pairs(hs, all)[k]).1,
        ) by {
            if k < a.len() {
                assert(mutual_pairs(hs, all)[k] == a[k]);
            } else {
                assert(mutual_pairs(hs, all)[k] == b[k - a.len()]);
            }
        }
    }
}

/// Adding the parts of high provinces keeps the names apart and every
/// reference naming a province.
proof fn lemma_high_declare(ps: Seq<ProvinceModel>, members: Seq<(String, Json)>)
    ensures
        high_declare(ps, members) matches Ok(q) ==> {
            &&& names_distinct(ps) ==> names_distinct(q)
            &&& refs_resolve(ps) ==> refs_resolve(q)
        },
    decreases members.len(),
{
    if members.len() > 0 {
        if let Ok((num, t)) = high_kind(members[0].1) {
            let raw = bares(high_names(members[0].0@, num as int), t);
            lemma_insert_all(ps, raw);
            assert forall|k: int| 0 <= k < raw.len() implies ref_free(#[trigger] raw[k]) by {}
            if let Ok(q1) = insert_all(ps, raw) {
                lemma_high_declare(q1, members.drop_first());
            }
        }
    }
}

/// Linking the parts of a high province keeps the names and every
/// reference naming a province.
proof fn lemma_high_link_one(ps: Seq<ProvinceModel>, name: Seq<char>, data: Json)
    ensures
        high_link_one(ps, name, data) matches Ok(q) ==> {
            &&& names_of(q) == names_of(ps)
            &&& refs_resolve(ps) ==> refs_resolve(q)
        },
{
    if let Ok(q) = high_link_one(ps, name, data) {
        let num = get_i64(data, "num"@).unwrap();
        let arr = json_elements(json_get(data, "adjacencies"@).unwrap()).unwrap();
        let adj = override_names(ps, arr, "adjacencies"@, None)->Ok_0;
        let hs = high_names(name, num as int);
        lemma_first_missing(ps, hs);
        let q1 = link_all(ps, cross(hs, adj))->Ok_0;
        lemma_link_all(ps, cross(hs, adj));
        let pairs = mutual_pairs(hs, hs);
        lemma_mutual_from(hs, hs);
        assert forall|k: int| 0 <= k < pairs.len() implies province_index(q1, (#[trigger] pairs[k]).1) is Some by {
            let m = choose|m: int| 0 <= m < hs.len() && hs[m] == pairs[k].1;
            assert(province_index(ps, hs[m]) is Some);
            lemma_index_same_names(ps, q1, pairs[k].1);
        }
        lemma_push_all(q1, pairs);
    }
}

proof fn lemma_high_link(ps: Seq<ProvinceModel>, members: Seq<(String, Json)>)
    ensures
        high_link(ps, members) matches Ok(q) ==> {
            &&& names_of(q) == names_of(ps)
            &&& refs_resolve(ps) ==> refs_resolve(q)
        },
    decreases members.len(),
{
    if members.len() > 0 {
        lemma_high_link_one(ps, members[0].0@, members[0].1);
        if let Ok(q1) = high_link_one(ps, members[0].0@, members[0].1) {
            lemma_high_link(q1, members.drop_first());
        }
    }
}


proof fn lemma_filter_resolves(ps: Seq<ProvinceModel>, adj: Seq<ReferenceKey>, pred: spec_fn(ReferenceKey) -> bool)
    requires
        forall|k: int| 0 <= k < adj.len() ==> resolves(ps, #[trigger] adj[k]),
    ensures
        forall|k: int| 0 <= k < adj.filter(pred).len() ==> resolves(ps, #[trigger] adj.filter(pred)[k]),
    decreases adj.len(),
{
    reveal(Seq::filter);
    if adj.len() > 0 {
        assert forall|k: int| 0 <= k < adj.drop_last().len() implies resolves(ps, #[trigger] adj.drop_last()[k]) by {
            assert(adj.drop_last()[k] == adj[k]);
        }
        lemma_filter_resolves(ps, adj.drop_last(), pred);
        let sub = adj.drop_last().filter(pred);
        assert forall|k: int| 0 <= k < adj.filter(pred).len() implies resolves(ps, #[trigger] adj.filter(pred)[k]) by {
            if k < sub.len() {
                assert(adj.filter(pred)[k] == sub[k]);
            } else {
                assert(adj.filter(pred)[k] == adj.last());
                assert(adj.last() == adj[adj.len() - 1]);
            }
        }
    }
}

proof fn lemma_name_keys_resolve(ps: Seq<ProvinceModel>, ns: Seq<Seq<char>>)
    requires
        forall|k: int| 0 <= k < ns.len() ==> province_index(ps, #[trigger] ns[k]) is Some,
    ensures
        forall|k: int| 0 <= k < name_keys(ns).len() ==> resolves(ps, #[trigger] name_keys(ns)[k]),
{
    assert forall|k: int| 0 <= k < name_keys(ns).len() implies resolves(ps, #[trigger] name_keys(ns)[k]) by {
        assert(name_keys(ns)[k] == Ok::<Seq<char>, usize>(ns[k]));
    }
}

proof fn lemma_override_coasts(ps: Seq<ProvinceModel>, cm: Seq<(String, Json)>, name: Seq<char>, pname: Seq<char>)
    ensures
        override_coasts(ps, cm, name, pname) matches Ok(cs) ==> forall|c: int, k: int|
            0 <= c < cs.len() && 0 <= k < cs[c].adjacent_seas.len() ==> resolves(ps, #[trigger] cs[c].adjacent_seas[k]),
    decreases cm.len(),
{
    if cm.len() > 0 {
        lemma_override_coasts(ps, cm.drop_first(), name, pname);
        if let Ok(cs) = override_coasts(ps, cm, name, pname) {
            let arr = json_elements(cm[0].1).unwrap();
            let seas = override_names(ps, arr, "coasts"@, Some(name))->Ok_0;
            lemma_override_names(ps, arr, "coasts"@, Some(name));
            lemma_name_keys_resolve(ps, seas);
            let r = override_coasts(ps, cm.drop_first(), name, pname)->Ok_0;
            let first = CoastModel { name: name + " "@ + cm[0].0@, adjacent_seas: name_keys(seas), province: Ok(pname) };
            assert(cs == seq![first] + r);
            assert forall|c: int, k: int| 0 <= c < cs.len() && 0 <= k < cs[c].adjacent_seas.len() implies resolves(
                ps,
                #[trigger] cs[c].adjacent_seas[k],
            ) by {
                if c > 0 {
                    assert(cs[c] == r[c - 1]);
                } else {
                    assert(cs[c] == first);
                }
            }
        }
    }
}

/// A province override keeps the names and every reference naming a
/// province.
proof fn lemma_override_one(ps: Seq<ProvinceModel>, name: Seq<char>, data: Json)
    ensures
        override_one(ps, name, data) matches Ok(q) ==> {
            &&& names_of(q) == names_of(ps)
            &&& refs_resolve(ps) ==> refs_resolve(q)
        },
{
    if let Ok(q) = override_one(ps, name, data) {
        let i = province_index(ps, name).unwrap();
        lemma_province_index(ps, name);
        // adjacencies added
        let ps1: Seq<ProvinceModel> = match json_get(data, "adjacencies"@) {
            Some(a) => match json_elements(a) {
                Some(arr) => {
                    let ns = override_names(ps, arr, "adjacencies"@, Some(name))->Ok_0;
                    ps.update(i, ProvinceModel { adjacent: ps[i].adjacent + name_keys(ns), ..ps[i] })
                },
                None => ps,
            },
            None => ps,
        };
        assert(names_of(ps1) =~= names_of(ps));
        if refs_resolve(ps) {
            if let Some(a) = json_get(data, "adjacencies"@) {
                if let Some(arr) = json_elements(a) {
                    let ns = override_names(ps, arr, "adjacencies"@, Some(name))->Ok_0;
                    lemma_override_names(ps, arr, "adjacencies"@, Some(name));
                    lemma_name_keys_resolve(ps, ns);
                    let p = ProvinceModel { adjacent: ps[i].adjacent + name_keys(ns), ..ps[i] };
                    assert(own_refs_resolve(ps, ps[i]));
                    assert forall|k: int| 0 <= k < p.adjacent.len() implies resolves(ps, #[trigger] p.adjacent[k]) by {
                        if k < ps[i].adjacent.len() {
                            assert(p.adjacent[k] == ps[i].adjacent[k]);
                        } else {
                            assert(p.adjacent[k] == name_keys(ns)[k - ps[i].adjacent.len()]);
                        }
                    }
                    lemma_refs_update(ps, i, p);
                }
            }
        }
        // adjacencies removed
        let ps2: Seq<ProvinceModel> = match json_get(data, "remove_adjacencies"@) {
            Some(a) => match json_elements(a) {
                Some(arr) => {
                    let ns = override_names(ps1, arr, "remove_adjacencies"@, Some(name))->Ok_0;
                    ps1.update(i, ProvinceModel { adjacent: ps1[i].adjacent.filter(kept(ns)), ..ps1[i] })
                },
                None => ps1,
            },
            None => ps1,
        };
        assert(names_of(ps2) =~= names_of(ps1));
        if refs_resolve(ps1) {
            if let Some(a) = json_get(data, "remove_adjacencies"@) {
                if let Some(arr) = json_elements(a) {
                    let ns = override_names(ps1, arr, "remove_adjacencies"@, Some(name))->Ok_0;
                    let p = ProvinceModel { adjacent: ps1[i].adjacent.filter(kept(ns)), ..ps1[i] };
                    assert(own_refs_resolve(ps1, ps1[i]));
                    lemma_filter_resolves(ps1, ps1[i].adjacent, kept(ns));
                    lemma_refs_update(ps1, i, p);
                }
            }
        }
        // coasts
        if let Some(c) = json_get(data, "coasts"@) {
            if let Some(cm) = json_members(c) {
                let cs = override_coasts(ps2, cm, name, ps2[i].name)->Ok_0;
                let p = ProvinceModel { coasts: Some(cs), ..ps2[i] };
                assert(q == ps2.update(i, p));
                assert(names_of(q) =~= names_of(ps2));
                if refs_resolve(ps2) {
                    lemma_override_coasts(ps2, cm, name, ps2[i].name);
                    assert(own_refs_resolve(ps2, ps2[i]));
                    lemma_refs_update(ps2, i, p);
                }
            }
        }
    }
}

proof fn lemma_override_all(ps: Seq<ProvinceModel>, members: Seq<(String, Json)>)
    ensures
        override_all(ps, members) matches Ok(q) ==> {
            &&& names_of(q) == names_of(ps)
            &&& refs_resolve(ps) ==> refs_resolve(q)
        },
    decreases members.len(),
{
    if members.len() > 0 {
        lemma_override_one(ps, members[0].0@, members[0].1);
        if let Ok(q1) = override_one(ps, members[0].0@, members[0].1) {
            lemma_override_all(q1, members.drop_first());
        }
    }
}

proof fn lemma_same_names_distinct(ps: Seq<ProvinceModel>, qs: Seq<ProvinceModel>)
    requires
        names_of(ps) == names_of(qs),
        names_distinct(ps),
    ensures
        names_distinct(qs),
{
    assert(ps.len() == names_of(ps).len() && qs.len() == names_of(qs).len());
    assert forall|i: int, j: int| 0 <= i < j < qs.len() implies (#[trigger] qs[i]).name != (#[trigger] qs[j]).name by {
        assert(qs[i].name == names_of(qs)[i] && ps[i].name == names_of(ps)[i]);
        assert(qs[j].name == names_of(qs)[j] && ps[j].name == names_of(ps)[j]);
    }
}

/// Applying a map's overrides keeps the provinces' names apart, and every
/// reference naming a province.
pub proof fn lemma_apply_overrides(ps: Seq<ProvinceModel>, overrides: Option<Json>)
    ensures
        apply_overrides(ps, overrides) matches Ok(q) ==> {
            &&& names_distinct(ps) ==> names_distinct(q)
            &&& refs_resolve(ps) ==> refs_resolve(q)
        },
{
    if let Some(o) = overrides {
        if let Ok(q) = apply_overrides(ps, overrides) {
            let high: Seq<ProvinceModel> = match json_get(o, "high provinces"@) {
                Some(h) => match json_members(h) {
                    Some(members) => {
                        let q1 = high_declare(ps, members)->Ok_0;
                        lemma_high_declare(ps, members);
                        lemma_high_link(q1, members);
                        if names_distinct(q1) {
                            lemma_same_names_distinct(q1, high_link(q1, members)->Ok_0);
                        }
                        high_link(q1, members)->Ok_0
                    },
                    None => ps,
                },
                None => ps,
            };
            if let Some(p) = json_get(o, "provinces"@) {
                if let Some(members) = json_members(p) {
                    lemma_override_all(high, members);
                    if names_distinct(high) {
                        lemma_same_names_distinct(high, q);
                    }
                }
            }
        }
    }
}

proof fn lemma_sea_keys_resolve(ps: Seq<ProvinceModel>, adj: Seq<ReferenceKey>, ts: Seq<ProvinceType>)
    requires
        forall|k: int| 0 <= k < adj.len() ==> resolves(ps, #[trigger] adj[k]),
    ensures
        forall|k: int| 0 <= k < sea_keys(adj, ts).len() ==> resolves(ps, #[trigger] sea_keys(adj, ts)[k]),
    decreases adj.len(),
{
    if adj.len() > 0 && ts.len() > 0 {
        assert forall|k: int| 0 <= k < adj.drop_last().len() implies resolves(ps, #[trigger] adj.drop_last()[k]) by {
            assert(adj.drop_last()[k] == adj[k]);
        }
        lemma_sea_keys_resolve(ps, adj.drop_last(), ts.drop_last());
        let r = sea_keys(adj.drop_last(), ts.drop_last());
        assert forall|k: int| 0 <= k < sea_keys(adj, ts).len() implies resolves(ps, #[trigger] sea_keys(adj, ts)[k]) by {
            if k < r.len() {
                assert(sea_keys(adj, ts)[k] == r[k]);
            } else {
                assert(adj.last() == adj[adj.len() - 1]);
            }
        }
    }
}

/// Setting the coasts keeps the names, and every reference naming a
/// province.
pub proof fn lemma_coasts_all(ps: Seq<ProvinceModel>, k: int)
    ensures
        coasts_all(ps, k) matches Ok(q) ==> {
            &&& names_of(q) == names_of(ps)
            &&& refs_resolve(ps) ==> refs_resolve(q)
        },
    decreases ps.len() - k,
{
    if 0 <= k < ps.len() {
        if let Ok(p) = with_coasts(ps, k) {
            let q1 = ps.update(k, p);
            assert(p.name == ps[k].name);
            assert(names_of(q1) =~= names_of(ps));
            if refs_resolve(ps) {
                assert(own_refs_resolve(ps, ps[k]));
                assert(p.adjacent == ps[k].adjacent);
                if ps[k].coasts is None && ps[k].province_type != ProvinceType::SEA {
                    let ts = adjacent_kinds(ps, k, ps[k].adjacent)->Ok_0;
                    lemma_sea_keys_resolve(ps, ps[k].adjacent, ts);
                }
                lemma_refs_update(ps, k, p);
            }
            lemma_coasts_all(q1, k + 1);
        }
    }
}


/// Processing the provinces read from a map's border layers (which have
/// no references yet) keeps every province name once, and leaves every
/// adjacency and every sea of a coast naming one of the provinces.
pub proof fn lemma_processed_map_consistent(
    ps: Seq<ProvinceModel>,
    raw: Seq<ProvinceModel>,
    pairs: Seq<(Seq<char>, Seq<char>)>,
    overrides: Option<Json>,
)
    requires
        names_distinct(ps),
        refs_resolve(ps),
        forall|k: int| 0 <= k < raw.len() ==> ref_free(#[trigger] raw[k]),
    ensures
        process(ps, raw, pairs, overrides) matches Ok(q) ==> names_distinct(q) && refs_resolve(q),
{
    if let Ok(q) = process(ps, raw, pairs, overrides) {
        lemma_insert_all(ps, raw);
        let a = insert_all(ps, raw)->Ok_0;
        lemma_link_all(a, pairs);
        let b = link_all(a, pairs)->Ok_0;
        lemma_same_names_distinct(a, b);
        lemma_apply_overrides(b, overrides);
        let c = apply_overrides(b, overrides)->Ok_0;
        lemma_coasts_all(c, 0);
        lemma_same_names_distinct(c, q);
    }
}


/// A map's provinces are consistent: each name once, every reference
/// naming one of them.
pub open spec fn consistent(ps: Seq<ProvinceModel>) -> bool {
    names_distinct(ps) && refs_resolve(ps)
}

/// The border layers' provinces have no references yet.
pub open spec fn raw_ref_free(raw: Option<Seq<ProvinceModel>>) -> bool {
    raw matches Some(r) ==> forall|k: int| 0 <= k < r.len() ==> ref_free(#[trigger] r[k])
}

/// A scan keeps whatever every step keeps.
proof fn lemma_scan_keeps<S>(
    step: spec_fn(S, EventView, int) -> Result<S, MapErrorView>,
    inv: spec_fn(S) -> bool,
    s: S,
    ev: Seq<EventView>,
    pos: int,
    depth: int,
)
    requires
        inv(s),
        forall|x: S, e: EventView, d: int| #![trigger step(x, e, d)] inv(x) && step(x, e, d) is Ok ==> inv(step(x, e, d)->Ok_0),
    ensures
        scan(step, s, ev, pos, depth) matches Ok((s2, _)) ==> inv(s2),
    decreases ev.len() - pos,
{
    if !(depth < 0 || pos < 0 || pos >= ev.len()) {
        if let Ok(s2) = step(s, ev[pos], depth) {
            assert(inv(s2));
            lemma_scan_keeps(step, inv, s2, ev, pos + 1, depth + depth_change(ev[pos]));
        }
    }
}

/// Changing what a province holds but not its name, adjacencies or coasts
/// keeps the provinces consistent.
proof fn lemma_update_keeps(ps: Seq<ProvinceModel>, i: int, p: ProvinceModel)
    requires
        consistent(ps),
        0 <= i < ps.len(),
        p.name == ps[i].name,
        p.adjacent == ps[i].adjacent,
        p.coasts == ps[i].coasts,
    ensures
        consistent(ps.update(i, p)),
{
    assert(own_refs_resolve(ps, ps[i]));
    lemma_refs_update(ps, i, p);
    lemma_same_names_distinct(ps, ps.update(i, p));
}

proof fn lemma_fill_step_keeps(t: Seq<(String, Option<Arc<PlayerInfo>>)>)
    ensures
        forall|x: Seq<ProvinceModel>, e: EventView, d: int|
            #![trigger fill_step(t)(x, e, d)] consistent(x) && fill_step(t)(x, e, d) is Ok ==> consistent(fill_step(t)(x, e, d)->Ok_0),
{
    assert forall|x: Seq<ProvinceModel>, e: EventView, d: int|
        #![trigger fill_step(t)(x, e, d)] consistent(x) && fill_step(t)(x, e, d) is Ok implies consistent(fill_step(t)(x, e, d)->Ok_0) by {
        if e.0 == 2 {
            let name = spec_required_attribute(e.1, INKSPACE_LABEL@)->Ok_0;
            let i = province_index(x, name).unwrap();
            lemma_province_index(x, name);
            let o = player_result(e.1, t)->Ok_0;
            lemma_update_keeps(x, i, ProvinceModel { initial_owner: o, ..x[i] });
        }
    }
}

proof fn lemma_center_step_keeps()
    ensures
        forall|x: Seq<ProvinceModel>, e: EventView, d: int|
            #![trigger center_step()(x, e, d)] consistent(x) && center_step()(x, e, d) is Ok ==> consistent(center_step()(x, e, d)->Ok_0),
{
    assert forall|x: Seq<ProvinceModel>, e: EventView, d: int|
        #![trigger center_step()(x, e, d)] consistent(x) && center_step()(x, e, d) is Ok implies consistent(center_step()(x, e, d)->Ok_0) by {
        if e.0 == 0 && d == 0 {
            let name = spec_required_attribute(e.1, INKSPACE_LABEL@)->Ok_0;
            let i = province_index(x, name).unwrap();
            lemma_province_index(x, name);
            lemma_update_keeps(
                x,
                i,
                ProvinceModel { has_supply_center: true, initial_core: x[i].initial_owner, ..x[i] },
            );
        }
    }
}

pub open spec fn unit_scan_consistent(st: UnitScan) -> bool {
    consistent(st.0)
}

proof fn lemma_unit_step_keeps(labeled: bool)
    ensures
        forall|x: UnitScan, e: EventView, d: int|
            #![trigger unit_step(labeled)(x, e, d)] unit_scan_consistent(x) && unit_step(labeled)(x, e, d) is Ok ==> unit_scan_consistent(
                unit_step(labeled)(x, e, d)->Ok_0,
            ),
{
    assert forall|x: UnitScan, e: EventView, d: int|
        #![trigger unit_step(labeled)(x, e, d)] unit_scan_consistent(x) && unit_step(labeled)(x, e, d) is Ok implies unit_scan_consistent(
        unit_step(labeled)(x, e, d)->Ok_0,
    ) by {
        if e.0 == 1 && d == 1 {
            let (ut, name) = unit_label_type(x.2, labeled, x.1)->Ok_0;
            let (i, c) = spec_province_and_coast(x.0, name)->Ok_0;
            let letter = coast_letter(name);
            let base = if letter is Some {
                name.subrange(0, name.len() - 5)
            } else {
                name
            };
            lemma_province_index(x.0, base);
            let st = unit_end(x, labeled)->Ok_0;
            let ps = x.0;
            assert(st.0 == ps.update(i, ProvinceModel { initial_unit: st.0[i].initial_unit, ..ps[i] }));
            lemma_update_keeps(ps, i, ProvinceModel { initial_unit: st.0[i].initial_unit, ..ps[i] });
        }
    }
}

pub open spec fn border_scan_ok(st: BorderScan) -> bool {
    raw_ref_free(st.0)
}

proof fn lemma_border_step_keeps(
    t: ProvinceType,
    lt: TransformView,
    labels: bool,
    table: Seq<(String, Option<Arc<PlayerInfo>>)>,
)
    ensures
        forall|x: BorderScan, e: EventView, d: int|
            #![trigger border_step(t, lt, labels, table)(x, e, d)] border_scan_ok(x) && border_step(t, lt, labels, table)(x, e, d) is Ok ==> border_scan_ok(
                border_step(t, lt, labels, table)(x, e, d)->Ok_0,
            ),
{
    assert forall|x: BorderScan, e: EventView, d: int|
        #![trigger border_step(t, lt, labels, table)(x, e, d)] border_scan_ok(x) && border_step(t, lt, labels, table)(x, e, d) is Ok implies border_scan_ok(
        border_step(t, lt, labels, table)(x, e, d)->Ok_0,
    ) by {
        if e.0 == 2 {
            let st = border_step(t, lt, labels, table)(x, e, d)->Ok_0;
            let raw = x.0.unwrap();
            let r2 = st.0.unwrap();
            assert(r2.len() == raw.len() + 1);
            assert forall|k: int| 0 <= k < r2.len() implies ref_free(#[trigger] r2[k]) by {
                if k < raw.len() {
                    assert(r2[k] == raw[k]);
                }
            }
        }
    }
}

/// Reading the drawing keeps a map's provinces consistent, and the border
/// layers' provinces without references.
pub proof fn lemma_run_consistent(
    m: ParseModel,
    ev: Seq<EventView>,
    li: LayerInfo,
    table: Seq<(String, Option<Arc<PlayerInfo>>)>,
)
    requires
        consistent(m.provinces),
        raw_ref_free(m.raw),
    ensures
        run(m, ev, li, table) matches Ok((m2, _)) ==> consistent(m2.provinces) && raw_ref_free(m2.raw),
    decreases ev.len() - m.pos,
{
    if m.pos < 0 || m.pos >= ev.len() {
    } else {
        let e = ev[m.pos];
        if e.0 == 0 {
            if m.depth == 1 {
                if let Ok(id) = spec_required_attribute(e.1, "id"@) {
                    let layer = spec_match_id(li, id);
                    if let Ok(m2) = layer_effect(m, layer, e.1, ev, li, table) {
                        lemma_layer_effect_advances(m, layer, e.1, ev, li, table);
                        lemma_layer_effect_keeps(m, layer, e.1, ev, li, table);
                        lemma_run_consistent(m2, ev, li, table);
                    }
                }
            } else {
                lemma_run_consistent(ParseModel { depth: m.depth + 1, pos: m.pos + 1, ..m }, ev, li, table);
            }
        } else if e.0 == 1 {
            if !m.processed.contains(m.layer) {
                let m2 = ParseModel {
                    depth: m.depth - 1,
                    processed: if m.layer != Layer::Unknown {
                        m.processed.push(m.layer)
                    } else {
                        m.processed
                    },
                    layer: Layer::Unknown,
                    pos: m.pos + 1,
                    ..m
                };
                if !(m2.count == 3 && !m2.finished) {
                    lemma_run_consistent(m2, ev, li, table);
                }
            }
        } else {
            lemma_run_consistent(ParseModel { pos: m.pos + 1, ..m }, ev, li, table);
        }
    }
}

proof fn lemma_layer_effect_keeps(
    m: ParseModel,
    layer: Layer,
    el: ElementView,
    ev: Seq<EventView>,
    li: LayerInfo,
    table: Seq<(String, Option<Arc<PlayerInfo>>)>,
)
    requires
        consistent(m.provinces),
        raw_ref_free(m.raw),
    ensures
        layer_effect(m, layer, el, ev, li, table) matches Ok(m2) ==> consistent(m2.provinces) && raw_ref_free(m2.raw),
{
    let start = m.pos + 1;
    match layer {
        Layer::LandLayer | Layer::IslandLayer | Layer::SeaLayer => {
            if let Ok(lt) = transform_result(el) {
                let step = border_step(border_type(layer), lt, li.province_labels, table);
                lemma_border_step_keeps(border_type(layer), lt, li.province_labels, table);
                let inv = |st: BorderScan| border_scan_ok(st);
                assert forall|x: BorderScan, e: EventView, d: int| #![trigger step(x, e, d)] inv(x) && step(x, e, d) is Ok implies inv(
                    step(x, e, d)->Ok_0,
                ) by {
                    assert(border_scan_ok(x));
                }
                lemma_scan_keeps(step, inv, (m.raw, m.shapes), ev, start, 0);
            }
        },
        Layer::CentersLayer => {
            lemma_center_step_keeps();
            let inv = |x: Seq<ProvinceModel>| consistent(x);
            assert forall|x: Seq<ProvinceModel>, e: EventView, d: int| #![trigger center_step()(x, e, d)] inv(x) && center_step()(x, e, d) is Ok implies inv(
                center_step()(x, e, d)->Ok_0,
            ) by {
                assert(consistent(x));
            }
            lemma_scan_keeps(center_step(), inv, m.provinces, ev, start, 0);
        },
        Layer::UnitsLayer => {
            lemma_unit_step_keeps(li.unit_type_labeled);
            let inv = |x: UnitScan| unit_scan_consistent(x);
            let step = unit_step(li.unit_type_labeled);
            assert forall|x: UnitScan, e: EventView, d: int| #![trigger step(x, e, d)] inv(x) && step(x, e, d) is Ok implies inv(
                step(x, e, d)->Ok_0,
            ) by {
                assert(unit_scan_consistent(x));
            }
            lemma_scan_keeps(step, inv, (m.provinces, UnitType::ARMY, Seq::<char>::empty()), ev, start, 0);
        },
        Layer::IslandFillLayer => {
            lemma_fill_step_keeps(table);
            let inv = |x: Seq<ProvinceModel>| consistent(x);
            let step = fill_step(table);
            assert forall|x: Seq<ProvinceModel>, e: EventView, d: int| #![trigger step(x, e, d)] inv(x) && step(x, e, d) is Ok implies inv(
                step(x, e, d)->Ok_0,
            ) by {
                assert(consistent(x));
            }
            lemma_scan_keeps(step, inv, m.provinces, ev, start, 0);
        },
        _ => {},
    }
}

} // verus!
