use std::sync::Arc;
use vstd::prelude::*;

use crate::phase::Phase;
use crate::player::{Player, PlayerInfo};
use crate::province::{
    coast_position, Coast, CoastReference, Province, ProvinceInfo, ProvinceReference,
};
use crate::support::{arc_clone, str_eq};
use crate::text::{ascii_lower, to_ascii_lowercase};
use crate::map_model::{reference_keys, unit_option_model};
use crate::province::spec_reference_key;
use crate::unit::Unit;

verus! {

/// The fixed description of a map: its name, its powers, its provinces
/// (each under its own name) and the configuration file it came from.
pub struct BoardInfo {
    pub name: String,
    pub players: Vec<Arc<PlayerInfo>>,
    pub name_to_info: Vec<Arc<ProvinceInfo>>,
    pub datafile: String,
}

/// The name a province reference carries, if it refers by name.
pub open spec fn reference_name(r: ProvinceReference) -> Option<Seq<char>> {
    match r {
        ProvinceReference::Name(n) => Some(n@),
        ProvinceReference::Index(_) => None,
    }
}

/// Whether a province reference names, ignoring ASCII case, one of `infos`.
pub open spec fn resolves_in(infos: Seq<Arc<ProvinceInfo>>, r: ProvinceReference) -> bool {
    match r {
        ProvinceReference::Name(n) => exists|j: int|
            0 <= j < infos.len() && ascii_lower(infos[j].name@) == ascii_lower(n@),
        ProvinceReference::Index(_) => false,
    }
}

/// A map description a board can be set up from: no two provinces share a
/// name (ignoring ASCII case), and every adjacency and every sea a coast
/// borders names one of the provinces.
pub open spec fn board_info_valid(infos: Seq<Arc<ProvinceInfo>>) -> bool {
    &&& forall|i: int, j: int|
        0 <= i < j < infos.len() ==> ascii_lower(#[trigger] infos[i].name@) != ascii_lower(
            #[trigger] infos[j].name@,
        )
    &&& forall|i: int, k: int|
        0 <= i < infos.len() && 0 <= k < infos[i].adjacent@.len() ==> resolves_in(
            infos,
            #[trigger] infos[i].adjacent@[k],
        )
    &&& forall|i: int, c: int, k: int|
        0 <= i < infos.len() && infos[i].coasts is Some && 0 <= c < infos[i].coasts.unwrap()@.len()
            && 0 <= k < infos[i].coasts.unwrap()@[c].adjacent_seas@.len() ==> resolves_in(
            infos,
            #[trigger] infos[i].coasts.unwrap()@[c].adjacent_seas@[k],
        )
}

/// A coast as the board finds it by name: its lower-case name, the name of
/// its province and its own name.
pub struct CoastEntry {
    pub key: String,
    pub province: String,
    pub coast: String,
}

/// The state of one game on one map.
pub struct Board {
    info: Arc<BoardInfo>,
    players: Vec<Player>,
    /// Provinces with their names in ASCII lower case.
    name_to_province: Vec<(String, Province)>,
    /// Coasts in the order they were added; for a name given twice, the
    /// last one counts.
    name_to_coast: Vec<CoastEntry>,
    phase: Phase,
    year: i64,
    pub board_id: Option<u64>,
    pub fish: i64,
    orders_enabled: bool,
}

/// The position of the province called `key` (in lower case) in `ps`.
pub open spec fn province_position(ps: Seq<(String, Province)>, key: Seq<char>) -> Option<int> {
    if exists|i: int| 0 <= i < ps.len() && ps[i].0@ == key {
        Some(choose|i: int| 0 <= i < ps.len() && ps[i].0@ == key)
    } else {
        None
    }
}

/// The position of the slot named `key` in `s`.
pub open spec fn slot_position(s: Seq<(Seq<char>, int)>, key: Seq<char>) -> Option<int> {
    if exists|i: int| 0 <= i < s.len() && s[i].0 == key {
        Some(choose|i: int| 0 <= i < s.len() && s[i].0 == key)
    } else {
        None
    }
}

/// The provinces a new board has, in order, each as its lower-case name
/// and the position of the description it is set up from. Descriptions
/// are taken in turn; one whose lower-case name is taken already replaces
/// the province of that name, so the last description of a name counts.
pub open spec fn board_slots(infos: Seq<Arc<ProvinceInfo>>) -> Seq<(Seq<char>, int)>
    decreases infos.len(),
{
    if infos.len() == 0 {
        Seq::empty()
    } else {
        let s = board_slots(infos.drop_last());
        let key = ascii_lower(infos.last().name@);
        match slot_position(s, key) {
            Some(p) => s.update(p, (key, infos.len() - 1)),
            None => s.push((key, infos.len() - 1)),
        }
    }
}

proof fn lemma_slot_position_unique(s: Seq<(Seq<char>, int)>, key: Seq<char>, i: int)
    requires
        forall|a: int, b: int| 0 <= a < b < s.len() ==> (#[trigger] s[a]).0 != (#[trigger] s[b]).0,
        0 <= i < s.len(),
        s[i].0 == key,
    ensures
        slot_position(s, key) == Some(i),
{
    let q = slot_position(s, key).unwrap();
    if q < i {
        assert(s[q].0 != s[i].0);
    } else if q > i {
        assert(s[i].0 != s[q].0);
    }
}

/// The provinces of a new board have different names; each is named after
/// its description, in lower case; and every description's name is taken.
pub proof fn lemma_board_slots(infos: Seq<Arc<ProvinceInfo>>)
    ensures
        forall|a: int, b: int|
            0 <= a < b < board_slots(infos).len() ==> (#[trigger] board_slots(infos)[a]).0 != (
            #[trigger] board_slots(infos)[b]).0,
        forall|j: int|
            0 <= j < board_slots(infos).len() ==> 0 <= (#[trigger] board_slots(infos)[j]).1 < infos.len()
                && board_slots(infos)[j].0 == ascii_lower(infos[board_slots(infos)[j].1].name@),
        forall|k: int|
            0 <= k < infos.len() ==> #[trigger] slot_position(board_slots(infos), ascii_lower(infos[k].name@))
                is Some,
    decreases infos.len(),
{
    if infos.len() > 0 {
        let prev = infos.drop_last();
        let s0 = board_slots(prev);
        let s = board_slots(infos);
        let n = infos.len() - 1;
        let key = ascii_lower(infos.last().name@);
        lemma_board_slots(prev);
        assert(s.len() >= s0.len());
        assert forall|q: int| 0 <= q < s0.len() implies (#[trigger] s[q]).0 == s0[q].0 by {
            match slot_position(s0, key) {
                Some(p) => {
                    if q == p {
                        assert(s0[p].0 == key);
                    }
                },
                None => {},
            }
        }
        assert forall|a: int, b: int| 0 <= a < b < s.len() implies (#[trigger] s[a]).0 != (#[trigger] s[b]).0 by {
            if b < s0.len() {
                assert(s0[a].0 != s0[b].0);
            } else {
                assert(slot_position(s0, key) is None);
                assert(s[b].0 == key);
                assert(s0[a].0 != key);
            }
        }
        assert forall|j: int| 0 <= j < s.len() implies 0 <= (#[trigger] s[j]).1 < infos.len()
            && s[j].0 == ascii_lower(infos[s[j].1].name@) by {
            if s[j].1 == n {
                assert(infos[n] == infos.last());
            } else {
                assert(j < s0.len());
                assert(s[j] == s0[j]);
                assert(infos[s0[j].1] == prev[s0[j].1]);
            }
        }
        assert forall|k: int| 0 <= k < infos.len() implies #[trigger] slot_position(s, ascii_lower(infos[k].name@))
            is Some by {
            let kk = ascii_lower(infos[k].name@);
            if k == n {
                match slot_position(s0, key) {
                    Some(p) => {
                        assert(s[p].0 == key);
                    },
                    None => {
                        assert(s[s0.len() as int].0 == key);
                    },
                }
            } else {
                assert(prev[k] == infos[k]);
                assert(slot_position(s0, kk) is Some);
                let q = slot_position(s0, kk).unwrap();
                assert(s[q].0 == kk);
            }
        }
    }
}

/// When no two descriptions share a lower-case name, the board has one
/// province for each description, in the same order.
pub proof fn lemma_board_slots_distinct(infos: Seq<Arc<ProvinceInfo>>)
    requires
        forall|i: int, j: int|
            0 <= i < j < infos.len() ==> ascii_lower(#[trigger] infos[i].name@) != ascii_lower(
                #[trigger] infos[j].name@,
            ),
    ensures
        board_slots(infos).len() == infos.len(),
        forall|j: int|
            0 <= j < infos.len() ==> #[trigger] board_slots(infos)[j] == (ascii_lower(infos[j].name@), j),
    decreases infos.len(),
{
    if infos.len() > 0 {
        let prev = infos.drop_last();
        let n = infos.len() - 1;
        assert forall|i: int, j: int| 0 <= i < j < prev.len() implies ascii_lower(#[trigger] prev[i].name@)
            != ascii_lower(#[trigger] prev[j].name@) by {
            assert(prev[i] == infos[i] && prev[j] == infos[j]);
        }
        lemma_board_slots_distinct(prev);
        let s0 = board_slots(prev);
        let key = ascii_lower(infos.last().name@);
        if slot_position(s0, key) is Some {
            let p = slot_position(s0, key).unwrap();
            assert(s0[p] == (ascii_lower(prev[p].name@), p));
            assert(prev[p] == infos[p]);
            assert(infos.last() == infos[n]);
            assert(false);
        }
        assert forall|j: int| 0 <= j < infos.len() implies #[trigger] board_slots(infos)[j] == (
            ascii_lower(infos[j].name@),
            j,
        ) by {
            if j < n {
                assert(prev[j] == infos[j]);
                assert(board_slots(infos)[j] == s0[j]);
            }
        }
    }
}

/// The position of the province called `key` in `v`, when no two have the
/// same name.
fn key_position(v: &Vec<(String, Province)>, key: &str) -> (res: Option<usize>)
    requires
        forall|a: int, b: int| 0 <= a < b < v@.len() ==> (#[trigger] v@[a]).0@ != (#[trigger] v@[b]).0@,
    ensures
        match res {
            Some(i) => province_position(v@, key@) == Some(i as int),
            None => province_position(v@, key@) is None,
        },
{
    let mut i: usize = 0;
    while i < v.len()
        invariant
            forall|a: int, b: int| 0 <= a < b < v@.len() ==> (#[trigger] v@[a]).0@ != (#[trigger] v@[b]).0@,
            i <= v@.len(),
            forall|j: int| 0 <= j < i ==> v@[j].0@ != key@,
        decreases v@.len() - i,
    {
        if str_eq(v[i].0.as_str(), key) {
            proof {
                lemma_province_position_unique(v@, key@, i as int);
            }
            return Some(i);
        }
        i = i + 1;
    }
    None
}

/// The position of the last coast entry with the lower-case name `key`.
pub open spec fn last_coast_position(cs: Seq<CoastEntry>, key: Seq<char>) -> Option<int>
    decreases cs.len(),
{
    if cs.len() == 0 {
        None
    } else if cs.last().key@ == key {
        Some(cs.len() - 1)
    } else {
        last_coast_position(cs.drop_last(), key)
    }
}

proof fn lemma_last_coast_position(cs: Seq<CoastEntry>, key: Seq<char>)
    ensures
        match last_coast_position(cs, key) {
            Some(i) => 0 <= i < cs.len() && cs[i].key@ == key,
            None => forall|i: int| 0 <= i < cs.len() ==> cs[i].key@ != key,
        },
    decreases cs.len(),
{
    if cs.len() > 0 && cs.last().key@ != key {
        lemma_last_coast_position(cs.drop_last(), key);
        assert forall|i: int| 0 <= i < cs.len() - 1 implies cs[i] == cs.drop_last()[i] by {}
    }
}

/// Whether a province is the one a new game starts with for a province
/// description: its initial owner and core, its starting unit, nothing
/// else.
pub open spec fn is_initial_province(p: Province, info: Arc<ProvinceInfo>) -> bool {
    &&& p.info == info
    &&& p.corer is None
    &&& p.core == info.initial_core
    &&& p.half_core is None
    &&& p.owner == info.initial_owner
    &&& unit_option_model(p.unit) == unit_option_model(info.initial_unit)
    &&& p.dislodged_unit is None
}

/// The coast entries a board starts with: those of each province in turn,
/// each coast in its province's order.
pub open spec fn coast_entries_of(infos: Seq<Arc<ProvinceInfo>>) -> Seq<(Seq<char>, Seq<char>, Seq<char>)>
    decreases infos.len(),
{
    if infos.len() == 0 {
        Seq::empty()
    } else {
        coast_entries_of(infos.drop_last()) + own_coast_entries(infos.last())
    }
}

/// The coast entries of one province.
pub open spec fn own_coast_entries(p: Arc<ProvinceInfo>) -> Seq<(Seq<char>, Seq<char>, Seq<char>)> {
    match p.coasts {
        None => Seq::empty(),
        Some(v) => v@.map_values(|c: Coast| (ascii_lower(c.name@), p.name@, c.name@)),
    }
}

/// What a name designates on a board, as positions: the province, and the
/// coast within that province's description, if the name is a coast's.
pub open spec fn lookup_positions(
    ps: Seq<(String, Province)>,
    cs: Seq<CoastEntry>,
    name: Seq<char>,
) -> (Option<int>, Option<int>) {
    let key = ascii_lower(name);
    match last_coast_position(cs, key) {
        Some(e) => {
            let p = province_position(ps, ascii_lower(cs[e].province@));
            match p {
                Some(i) => (
                    Some(i),
                    coast_position(ps[i].1.info.coasts, CoastReference::Name(cs[e].coast)),
                ),
                None => (None, None),
            }
        },
        None => (province_position(ps, key), None),
    }
}

/// A coast entry as plain values.
pub open spec fn entry_view(e: CoastEntry) -> (Seq<char>, Seq<char>, Seq<char>) {
    (e.key@, e.province@, e.coast@)
}

/// Every coast entry of a map comes from a coast of one of its provinces.
proof fn lemma_coast_entries_origin(infos: Seq<Arc<ProvinceInfo>>, e: int)
    requires
        0 <= e < coast_entries_of(infos).len(),
    ensures
        exists|i: int, c: int|
            0 <= i < infos.len() && infos[i].coasts is Some && 0 <= c < infos[i].coasts.unwrap()@.len()
                && coast_entries_of(infos)[e] == (
                ascii_lower(infos[i].coasts.unwrap()@[c].name@),
                infos[i].name@,
                infos[i].coasts.unwrap()@[c].name@,
            ),
    decreases infos.len(),
{
    let last = infos.last();
    let prev = coast_entries_of(infos.drop_last());
    if e < prev.len() {
        lemma_coast_entries_origin(infos.drop_last(), e);
        let (i, c) = choose|i: int, c: int|
            0 <= i < infos.drop_last().len() && infos.drop_last()[i].coasts is Some && 0 <= c
                < infos.drop_last()[i].coasts.unwrap()@.len() && prev[e] == (
                ascii_lower(infos.drop_last()[i].coasts.unwrap()@[c].name@),
                infos.drop_last()[i].name@,
                infos.drop_last()[i].coasts.unwrap()@[c].name@,
            );
        assert(infos[i] == infos.drop_last()[i]);
        assert(coast_entries_of(infos)[e] == prev[e]);
    } else {
        let c = e - prev.len();
        let i = infos.len() - 1;
        assert(infos[i] == last);
        let own = own_coast_entries(last);
        assert(coast_entries_of(infos) == prev + own);
        assert(coast_entries_of(infos)[e] == own[c]);
        assert(last.coasts is Some);
        assert(own[c] == (
            ascii_lower(last.coasts.unwrap()@[c].name@),
            last.name@,
            last.coasts.unwrap()@[c].name@,
        ));
    }
}

impl Board {
    /// Sets up a game on a map: every province starts with its initial
    /// owner, core and unit, every power holds no centres yet, the
    /// phase is the given one, the year 0, no fish have been caught and
    /// orders are open. Provinces are found by their lower-case names;
    /// a description whose lower-case name another one before it has
    /// replaces that province (see `board_slots`). Coasts are found by
    /// their lower-case names, the last coast of a name counting. When the
    /// description is valid (`board_info_valid`), every province comes from
    /// its own description, in order, and the board is consistent.
    pub fn new(info: Arc<BoardInfo>, phase: Phase) -> (res: Board)
        ensures
            res.wf(),
            res.info() == info,
            res.provinces().len() == board_slots(info.name_to_info@).len(),
            forall|i: int|
                0 <= i < res.provinces().len() ==> is_initial_province(
                    (#[trigger] res.provinces()[i]).1,
                    info.name_to_info@[board_slots(info.name_to_info@)[i].1],
                ) && res.provinces()[i].0@ == board_slots(info.name_to_info@)[i].0,
            res.coasts().map_values(|e: CoastEntry| entry_view(e)) == coast_entries_of(info.name_to_info@),
            res.players().len() == info.players@.len(),
            forall|i: int|
                0 <= i < res.players().len() ==> (#[trigger] res.players()[i]).info() == info.players@[i]
                    && res.players()[i].centers().len() == 0,
            res.phase() == phase,
            res.year() == 0,
            res.guild() is None,
            res.fish_count() == 0,
            res.orders_enabled(),
            board_info_valid(info.name_to_info@) ==> board_consistent(res),
    {
        let ghost infos = info.name_to_info@;
        let mut provinces: Vec<(String, Province)> = Vec::new();
        let mut coasts: Vec<CoastEntry> = Vec::new();
        let n = info.name_to_info.len();
        let mut i: usize = 0;
        while i < n
            invariant
                n == infos.len(),
                infos == info.name_to_info@,
                i <= n,
                provinces@.len() == board_slots(infos.subrange(0, i as int)).len(),
                forall|j: int|
                    0 <= j < provinces@.len() ==> is_initial_province(
                        (#[trigger] provinces@[j]).1,
                        infos[board_slots(infos.subrange(0, i as int))[j].1],
                    ) && provinces@[j].0@ == board_slots(infos.subrange(0, i as int))[j].0,
                coasts@.map_values(|e: CoastEntry| entry_view(e)) == coast_entries_of(
                    infos.subrange(0, i as int),
                ),
            decreases n - i,
        {
            let pinfo = &info.name_to_info[i];
            let key = to_ascii_lowercase(pinfo.name.as_str());
            let province = Province {
                info: arc_clone(pinfo),
                corer: None,
                core: clone_player_option(&pinfo.initial_core),
                half_core: None,
                owner: clone_player_option(&pinfo.initial_owner),
                unit: clone_unit_option(&pinfo.initial_unit),
                dislodged_unit: None,
            };
            let ghost sub = infos.subrange(0, i as int);
            let ghost s0 = board_slots(sub);
            let ghost sub2 = infos.subrange(0, i + 1);
            proof {
                lemma_board_slots(sub);
                assert forall|j: int| 0 <= j < s0.len() implies 0 <= (#[trigger] s0[j]).1 < i
                    && infos[s0[j].1] == sub[s0[j].1] by {}
                assert forall|a: int, b: int| 0 <= a < b < provinces@.len() implies (
                #[trigger] provinces@[a]).0@ != (#[trigger] provinces@[b]).0@ by {
                    assert(s0[a].0 != s0[b].0);
                }
                assert(sub2.drop_last() =~= sub);
                assert(sub2.last() == infos[i as int]);
            }
            let ghost before_p = provinces@;
            match key_position(&provinces, key.as_str()) {
                Some(j) => {
                    proof {
                        assert(s0[j as int].0 == key@);
                        lemma_slot_position_unique(s0, key@, j as int);
                    }
                    provinces.set(j, (key, province));
                    proof {
                        assert(board_slots(sub2) == s0.update(j as int, (key@, i as int)));
                        assert forall|q: int| 0 <= q < provinces@.len() implies is_initial_province(
                            (#[trigger] provinces@[q]).1,
                            infos[board_slots(sub2)[q].1],
                        ) && provinces@[q].0@ == board_slots(sub2)[q].0 by {
                            if q != j {
                                assert(provinces@[q] == before_p[q]);
                            }
                        }
                    }
                },
                None => {
                    proof {
                        if slot_position(s0, key@) is Some {
                            let q = slot_position(s0, key@).unwrap();
                            assert(before_p[q].0@ == key@);
                        }
                    }
                    provinces.push((key, province));
                    proof {
                        assert(board_slots(sub2) == s0.push((key@, i as int)));
                        assert forall|q: int| 0 <= q < provinces@.len() implies is_initial_province(
                            (#[trigger] provinces@[q]).1,
                            infos[board_slots(sub2)[q].1],
                        ) && provinces@[q].0@ == board_slots(sub2)[q].0 by {
                            if q < before_p.len() {
                                assert(provinces@[q] == before_p[q]);
                            }
                        }
                    }
                },
            }
            let ghost before = coasts@.map_values(|e: CoastEntry| entry_view(e));
            let ghost own = own_coast_entries(infos[i as int]);
            match &pinfo.coasts {
                None => {},
                Some(cv) => {
                    let mut c: usize = 0;
                    while c < cv.len()
                        invariant
                            pinfo.coasts == Some(*cv),
                            c <= cv@.len(),
                            own == cv@.map_values(
                                |c: Coast| (ascii_lower(c.name@), pinfo.name@, c.name@),
                            ),
                            coasts@.map_values(|e: CoastEntry| entry_view(e)) == before + own.subrange(
                                0,
                                c as int,
                            ),
                        decreases cv@.len() - c,
                    {
                        let coast = &cv[c];
                        let entry = CoastEntry {
                            key: to_ascii_lowercase(coast.name.as_str()),
                            province: pinfo.name.clone(),
                            coast: coast.name.clone(),
                        };
                        let ghost prev = coasts@;
                        coasts.push(entry);
                        proof {
                            assert(coasts@.map_values(|e: CoastEntry| entry_view(e)) =~= prev.map_values(
                                |e: CoastEntry| entry_view(e),
                            ).push(entry_view(entry)));
                            assert(own.subrange(0, c + 1) =~= own.subrange(0, c as int).push(own[c as int]));
                        }
                        c = c + 1;
                    }
                    proof {
                        assert(own.subrange(0, c as int) =~= own);
                    }
                },
            }
            proof {
                if own.len() == 0 {
                    assert(coasts@.map_values(|e: CoastEntry| entry_view(e)) =~= before + own);
                }
                let t = infos.subrange(0, i + 1);
                assert(t.drop_last() =~= infos.subrange(0, i as int));
                assert(t.last() == infos[i as int]);
            }
            i = i + 1;
        }
        proof {
            assert(infos.subrange(0, n as int) =~= infos);
        }
        let mut players: Vec<Player> = Vec::new();
        let mut k: usize = 0;
        while k < info.players.len()
            invariant
                k <= info.players@.len(),
                players@.len() == k,
                forall|j: int|
                    0 <= j < k ==> (#[trigger] players@[j]).info() == info.players@[j]
                        && players@[j].centers().len() == 0,
            decreases info.players@.len() - k,
        {
            let pi = &info.players[k];
            let iscc = pi.iscc;
            players.push(Player::new(arc_clone(pi), iscc, Vec::new()));
            k = k + 1;
        }
        let board = Board {
            info,
            players,
            name_to_province: provinces,
            name_to_coast: coasts,
            phase,
            year: 0,
            board_id: None,
            fish: 0,
            orders_enabled: true,
        };
        proof {
            lemma_new_board_wf(&board);
            if board_info_valid(board.info.name_to_info@) {
                lemma_new_board_consistent(&board);
            }
        }
        board
    }
}

/// A copy of a unit, if any.
fn clone_unit_option(u: &Option<Unit>) -> (res: Option<Unit>)
    ensures
        unit_option_model(res) == unit_option_model(*u),
{
    match u {
        Some(x) => {
            let retreat_options = match &x.retreat_options {
                Some(v) => {
                    let mut out: Vec<ProvinceReference> = Vec::new();
                    let mut k: usize = 0;
                    while k < v.len()
                        invariant
                            k <= v@.len(),
                            reference_keys(out@) == reference_keys(v@).subrange(0, k as int),
                        decreases v@.len() - k,
                    {
                        let ghost before = out@;
                        out.push(v[k].clone());
                        assert(reference_keys(out@) =~= reference_keys(before).push(spec_reference_key(v@[k as int])));
                        assert(reference_keys(v@).subrange(0, k + 1) =~= reference_keys(v@).subrange(0, k as int).push(
                            spec_reference_key(v@[k as int]),
                        ));
                        k = k + 1;
                    }
                    assert(reference_keys(v@).subrange(0, k as int) =~= reference_keys(v@));
                    Some(out)
                },
                None => None,
            };
            let coast = match &x.coast {
                Some(c) => Some(c.clone()),
                None => None,
            };
            Some(
                Unit {
                    unit_type: x.unit_type,
                    owner: arc_clone(&x.owner),
                    current_province: x.current_province.clone(),
                    coast,
                    retreat_options,
                },
            )
        },
        None => None,
    }
}

/// Another pointer to the same player description, if any.
fn clone_player_option(p: &Option<Arc<PlayerInfo>>) -> (res: Option<Arc<PlayerInfo>>)
    ensures
        res == *p,
{
    match p {
        Some(a) => Some(arc_clone(a)),
        None => None,
    }
}

proof fn lemma_new_board_wf(b: &Board)
    requires
        b.name_to_province@.len() == board_slots(b.info.name_to_info@).len(),
        forall|j: int|
            0 <= j < b.name_to_province@.len() ==> is_initial_province(
                (#[trigger] b.name_to_province@[j]).1,
                b.info.name_to_info@[board_slots(b.info.name_to_info@)[j].1],
            ) && b.name_to_province@[j].0@ == board_slots(b.info.name_to_info@)[j].0,
        b.name_to_coast@.map_values(|e: CoastEntry| entry_view(e)) == coast_entries_of(
            b.info.name_to_info@,
        ),
    ensures
        b.wf(),
{
    let infos = b.info.name_to_info@;
    let ps = b.name_to_province@;
    let cs = b.name_to_coast@;
    let sl = board_slots(infos);
    lemma_board_slots(infos);
    assert forall|i: int, j: int| 0 <= i < j < ps.len() implies (#[trigger] ps[i]).0@ != (
    #[trigger] ps[j]).0@ by {
        assert(sl[i].0 != sl[j].0);
    }
    assert forall|i: int| 0 <= i < ps.len() implies (#[trigger] ps[i]).0@ == ascii_lower(
        ps[i].1.info.name@,
    ) by {
        assert(sl[i].0 == ascii_lower(infos[sl[i].1].name@));
    }
    assert forall|e: int| 0 <= e < cs.len() implies province_position(
        ps,
        ascii_lower((#[trigger] cs[e]).province@),
    ) is Some by {
        let ents = cs.map_values(|e: CoastEntry| entry_view(e));
        assert(ents[e] == entry_view(cs[e]));
        lemma_coast_entries_origin(infos, e);
        let (i, c) = choose|i: int, c: int|
            0 <= i < infos.len() && infos[i].coasts is Some && 0 <= c < infos[i].coasts.unwrap()@.len()
                && coast_entries_of(infos)[e] == (
                ascii_lower(infos[i].coasts.unwrap()@[c].name@),
                infos[i].name@,
                infos[i].coasts.unwrap()@[c].name@,
            );
        assert(cs[e].province@ == infos[i].name@);
        assert(slot_position(sl, ascii_lower(infos[i].name@)) is Some);
        let q = slot_position(sl, ascii_lower(infos[i].name@)).unwrap();
        assert(ps[q].0@ == ascii_lower(infos[i].name@));
    }
}

/// A board set up from a valid description is consistent.
proof fn lemma_new_board_consistent(b: &Board)
    requires
        board_info_valid(b.info.name_to_info@),
        b.wf(),
        b.name_to_province@.len() == board_slots(b.info.name_to_info@).len(),
        forall|j: int|
            0 <= j < b.name_to_province@.len() ==> is_initial_province(
                (#[trigger] b.name_to_province@[j]).1,
                b.info.name_to_info@[board_slots(b.info.name_to_info@)[j].1],
            ) && b.name_to_province@[j].0@ == board_slots(b.info.name_to_info@)[j].0,
        b.name_to_coast@.map_values(|e: CoastEntry| entry_view(e)) == coast_entries_of(
            b.info.name_to_info@,
        ),
    ensures
        board_consistent(*b),
{
    let infos = b.info.name_to_info@;
    let ps = b.name_to_province@;
    let cs = b.name_to_coast@;
    lemma_board_slots_distinct(infos);
    assert forall|j: int| 0 <= j < ps.len() implies is_initial_province((#[trigger] ps[j]).1, infos[j])
        && ps[j].0@ == ascii_lower(infos[j].name@) by {
        assert(board_slots(infos)[j] == (ascii_lower(infos[j].name@), j));
    }
    assert forall|e: int| 0 <= e < cs.len() implies {
        let p = province_position(ps, ascii_lower((#[trigger] cs[e]).province@));
        &&& p is Some
        &&& coast_position(ps[p.unwrap()].1.info.coasts, CoastReference::Name(cs[e].coast)) is Some
    } by {
        let ents = cs.map_values(|e: CoastEntry| entry_view(e));
        assert(ents[e] == entry_view(cs[e]));
        lemma_coast_entries_origin(infos, e);
        let (i, c) = choose|i: int, c: int|
            0 <= i < infos.len() && infos[i].coasts is Some && 0 <= c < infos[i].coasts.unwrap()@.len()
                && coast_entries_of(infos)[e] == (
                ascii_lower(infos[i].coasts.unwrap()@[c].name@),
                infos[i].name@,
                infos[i].coasts.unwrap()@[c].name@,
            );
        assert(ps[i].0@ == ascii_lower(cs[e].province@));
        let p = province_position(ps, ascii_lower(cs[e].province@));
        assert(p is Some);
        let q = p.unwrap();
        assert(q == i) by {
            if q != i {
                if q < i {
                    assert(ps[q].0@ != ps[i].0@);
                } else {
                    assert(ps[i].0@ != ps[q].0@);
                }
            }
        }
        let v = infos[i].coasts.unwrap()@;
        assert(v[c].name@ == cs[e].coast@);
        crate::province::lemma_first_coast_named_props(v, cs[e].coast@);
        assert(crate::province::first_coast_named(v, cs[e].coast@) is Some);
    }
    assert forall|i: int, k: int| 0 <= i < ps.len() && 0 <= k < ps[i].1.info.adjacent@.len() implies {
        let r = #[trigger] ps[i].1.info.adjacent@[k];
        &&& r is Name
        &&& province_position(ps, ascii_lower(reference_name(r).unwrap())) is Some
    } by {
        let r = ps[i].1.info.adjacent@[k];
        assert(r == infos[i].adjacent@[k]);
        assert(resolves_in(infos, r));
        let j = choose|j: int|
            0 <= j < infos.len() && ascii_lower(infos[j].name@) == ascii_lower(reference_name(r).unwrap());
        assert(ps[j].0@ == ascii_lower(reference_name(r).unwrap()));
    }
    assert forall|i: int, c: int, k: int|
        0 <= i < ps.len() && ps[i].1.info.coasts is Some && 0 <= c < ps[i].1.info.coasts.unwrap()@.len()
            && 0 <= k < ps[i].1.info.coasts.unwrap()@[c].adjacent_seas@.len() implies {
        let r = #[trigger] ps[i].1.info.coasts.unwrap()@[c].adjacent_seas@[k];
        &&& r is Name
        &&& province_position(ps, ascii_lower(reference_name(r).unwrap())) is Some
    } by {
        let r = ps[i].1.info.coasts.unwrap()@[c].adjacent_seas@[k];
        assert(r == infos[i].coasts.unwrap()@[c].adjacent_seas@[k]);
        assert(resolves_in(infos, r));
        let j = choose|j: int|
            0 <= j < infos.len() && ascii_lower(infos[j].name@) == ascii_lower(reference_name(r).unwrap());
        assert(ps[j].0@ == ascii_lower(reference_name(r).unwrap()));
    }
}

impl Board {
    /// The map description.
    pub closed spec fn info(&self) -> Arc<BoardInfo> {
        self.info
    }

    /// The provinces, each with its lower-case name.
    pub closed spec fn provinces(&self) -> Seq<(String, Province)> {
        self.name_to_province@
    }

    /// The coasts by name, in the order they were added.
    pub closed spec fn coasts(&self) -> Seq<CoastEntry> {
        self.name_to_coast@
    }

    /// The server the game runs on, once known.
    pub closed spec fn guild(&self) -> Option<u64> {
        self.board_id
    }

    /// The fish caught so far.
    pub closed spec fn fish_count(&self) -> i64 {
        self.fish
    }

    pub closed spec fn phase(&self) -> Phase {
        self.phase
    }

    pub closed spec fn year(&self) -> i64 {
        self.year
    }

    pub closed spec fn orders_enabled(&self) -> bool {
        self.orders_enabled
    }

    pub closed spec fn players(&self) -> Seq<Player> {
        self.players@
    }

    /// Province keys are the lower-case names of their provinces and differ
    /// from each other; every coast entry leads to a province.
    pub closed spec fn wf(&self) -> bool {
        let ps = self.name_to_province@;
        let cs = self.name_to_coast@;
        &&& forall|i: int|
            0 <= i < ps.len() ==> (#[trigger] ps[i]).0@ == ascii_lower(ps[i].1.info.name@)
        &&& forall|i: int, j: int|
            0 <= i < j < ps.len() ==> (#[trigger] ps[i]).0@ != (#[trigger] ps[j]).0@
        &&& forall|e: int|
            0 <= e < cs.len() ==> province_position(ps, ascii_lower((#[trigger] cs[e]).province@)) is Some
    }
}

/// Whether every reference of `refs` names, ignoring ASCII case, one of the
/// provinces `ps`.
pub open spec fn refs_resolve(ps: Seq<(String, Province)>, refs: Seq<ProvinceReference>) -> bool {
    forall|k: int|
        0 <= k < refs.len() ==> (#[trigger] refs[k]) is Name && province_position(
            ps,
            ascii_lower(reference_name(refs[k]).unwrap()),
        ) is Some
}

/// Every coast entry of a board leads to a province holding that coast,
/// and every adjacency and every sea a coast borders names a province of
/// the board.
pub open spec fn board_consistent(b: Board) -> bool {
    let ps = b.provinces();
    let cs = b.coasts();
    &&& forall|e: int|
        0 <= e < cs.len() ==> {
            let p = province_position(ps, ascii_lower((#[trigger] cs[e]).province@));
            &&& p is Some
            &&& coast_position(ps[p.unwrap()].1.info.coasts, CoastReference::Name(cs[e].coast)) is Some
        }
    &&& forall|i: int, k: int|
        0 <= i < ps.len() && 0 <= k < ps[i].1.info.adjacent@.len() ==> {
            let r = #[trigger] ps[i].1.info.adjacent@[k];
            &&& r is Name
            &&& province_position(ps, ascii_lower(reference_name(r).unwrap())) is Some
        }
    &&& forall|i: int, c: int, k: int|
        0 <= i < ps.len() && ps[i].1.info.coasts is Some && 0 <= c < ps[i].1.info.coasts.unwrap()@.len()
            && 0 <= k < ps[i].1.info.coasts.unwrap()@[c].adjacent_seas@.len() ==> {
            let r = #[trigger] ps[i].1.info.coasts.unwrap()@[c].adjacent_seas@[k];
            &&& r is Name
            &&& province_position(ps, ascii_lower(reference_name(r).unwrap())) is Some
        }
}

/// Whether looking `name` up on a board finds what it names: a coast name
/// leads to a province that holds that coast.
pub open spec fn lookup_defined(b: Board, name: Seq<char>) -> bool {
    let ps = b.provinces();
    let cs = b.coasts();
    match last_coast_position(cs, ascii_lower(name)) {
        Some(e) => match province_position(ps, ascii_lower(cs[e].province@)) {
            Some(i) => coast_position(ps[i].1.info.coasts, CoastReference::Name(cs[e].coast)) is Some,
            None => false,
        },
        None => true,
    }
}

/// Whether a board can describe what `name` names: the lookup finds it, and
/// the seas of the coast, or the adjacencies of the province, it finds all
/// name provinces of the board.
pub open spec fn describable(b: Board, name: Seq<char>) -> bool {
    let ps = b.provinces();
    let (p, c) = lookup_positions(ps, b.coasts(), name);
    &&& lookup_defined(b, name)
    &&& if c is Some {
        refs_resolve(ps, ps[p.unwrap()].1.info.coasts.unwrap()@[c.unwrap()].adjacent_seas@)
    } else if p is Some {
        refs_resolve(ps, ps[p.unwrap()].1.info.adjacent@)
    } else {
        true
    }
}

/// On a consistent board every name can be described.
pub proof fn lemma_consistent_describable(b: Board, name: Seq<char>)
    requires
        b.wf(),
        board_consistent(b),
    ensures
        describable(b, name),
{
    let ps = b.provinces();
    let cs = b.coasts();
    let key = ascii_lower(name);
    lemma_last_coast_position(cs, key);
    match last_coast_position(cs, key) {
        Some(e) => {
            let p = province_position(ps, ascii_lower(cs[e].province@)).unwrap();
            crate::province::lemma_coast_position_in_range(ps[p].1.info, CoastReference::Name(cs[e].coast));
            assert(refs_resolve(
                ps,
                ps[p].1.info.coasts.unwrap()@[coast_position(
                    ps[p].1.info.coasts,
                    CoastReference::Name(cs[e].coast),
                ).unwrap()].adjacent_seas@,
            ));
        },
        None => {
            match province_position(ps, key) {
                Some(p) => {
                    assert(0 <= p < ps.len());
                    let adj = ps[p].1.info.adjacent@;
                    assert forall|k: int| 0 <= k < adj.len() implies (#[trigger] adj[k]) is Name
                        && province_position(ps, ascii_lower(reference_name(adj[k]).unwrap())) is Some by {
                        assert(adj[k] == ps[p].1.info.adjacent@[k]);
                    }
                },
                None => {},
            }
        },
    }
}

proof fn lemma_province_position_unique(ps: Seq<(String, Province)>, key: Seq<char>, i: int)
    requires
        forall|a: int, b: int| 0 <= a < b < ps.len() ==> (#[trigger] ps[a]).0@ != (#[trigger] ps[b]).0@,
        0 <= i < ps.len(),
        ps[i].0@ == key,
    ensures
        province_position(ps, key) == Some(i),
{
    let q = province_position(ps, key).unwrap();
    if q < i {
        assert(ps[q].0@ != ps[i].0@);
    } else if q > i {
        assert(ps[i].0@ != ps[q].0@);
    }
}

impl Board {
    /// The position of the province whose lower-case name is `key`.
    fn find_province(&self, key: &str) -> (res: Option<usize>)
        requires
            self.wf(),
        ensures
            match res {
                Some(i) => province_position(self.provinces(), key@) == Some(i as int),
                None => province_position(self.provinces(), key@) is None,
            },
    {
        let mut i: usize = 0;
        while i < self.name_to_province.len()
            invariant
                self.wf(),
                i <= self.name_to_province@.len(),
                forall|j: int| 0 <= j < i ==> self.name_to_province@[j].0@ != key@,
            decreases self.name_to_province@.len() - i,
        {
            if str_eq(self.name_to_province[i].0.as_str(), key) {
                proof {
                    lemma_province_position_unique(self.name_to_province@, key@, i as int);
                }
                return Some(i);
            }
            i = i + 1;
        }
        None
    }

    /// The position of the last coast entry whose lower-case name is `key`.
    fn find_coast(&self, key: &str) -> (res: Option<usize>)
        ensures
            match res {
                Some(e) => last_coast_position(self.coasts(), key@) == Some(e as int),
                None => last_coast_position(self.coasts(), key@) is None,
            },
    {
        let mut k: usize = self.name_to_coast.len();
        proof {
            assert(self.name_to_coast@.subrange(0, k as int) =~= self.name_to_coast@);
        }
        while k > 0
            invariant
                k <= self.name_to_coast@.len(),
                last_coast_position(self.name_to_coast@, key@) == last_coast_position(
                    self.name_to_coast@.subrange(0, k as int),
                    key@,
                ),
            decreases k,
        {
            let ghost pre = self.name_to_coast@.subrange(0, k as int);
            if str_eq(self.name_to_coast[k - 1].key.as_str(), key) {
                return Some(k - 1);
            }
            proof {
                assert(pre.drop_last() =~= self.name_to_coast@.subrange(0, k - 1));
            }
            k = k - 1;
        }
        None
    }

    /// The province a reference names, ignoring ASCII case. The reference
    /// must name a province of this board.
    pub fn resolve_province_ref(&self, reference: &ProvinceReference) -> (res: &Province)
        requires
            self.wf(),
            reference is Name,
            province_position(self.provinces(), ascii_lower(reference_name(*reference).unwrap())) is Some,
        ensures
            *res == self.provinces()[province_position(
                self.provinces(),
                ascii_lower(reference_name(*reference).unwrap()),
            ).unwrap()].1,
    {
        match reference {
            ProvinceReference::Name(name) => {
                let key = to_ascii_lowercase(name.as_str());
                let i = self.find_province(key.as_str()).unwrap();
                &self.name_to_province[i].1
            },
            ProvinceReference::Index(_) => {
                let i = self.find_province("").unwrap();
                &self.name_to_province[i].1
            },
        }
    }

    /// What a name designates, ignoring ASCII case: when it is the name of
    /// a coast (the coast added last, if several share it), that coast and
    /// its province; else the province of that name, if any.
    /// The name must lead to what it names (see `lookup_defined`).
    pub fn get_province_and_coast(&self, name: String) -> (res: (Option<&Province>, Option<&Coast>))
        requires
            self.wf(),
            lookup_defined(*self, name@),
        ensures
            ({
                let (p, c) = lookup_positions(self.provinces(), self.coasts(), name@);
                &&& res.0 is Some == p is Some
                &&& res.1 is Some == c is Some
                &&& p is Some ==> *res.0.unwrap() == self.provinces()[p.unwrap()].1
                &&& c is Some ==> *res.1.unwrap() == self.provinces()[p.unwrap()].1.info.coasts.unwrap()@[c.unwrap()]
            }),
    {
        let key = to_ascii_lowercase(name.as_str());
        match self.find_coast(key.as_str()) {
            Some(e) => {
                proof {
                    lemma_last_coast_position(self.name_to_coast@, key@);
                }
                let entry = &self.name_to_coast[e];
                let pkey = to_ascii_lowercase(entry.province.as_str());
                proof {
                    assert(self.name_to_coast@[e as int] == *entry);
                }
                let i = self.find_province(pkey.as_str()).unwrap();
                let province = &self.name_to_province[i].1;
                let cref = CoastReference::Name(entry.coast.clone());
                let coast = province.info.resolve_reference(&cref);
                (Some(province), Some(coast))
            },
            None => {
                match self.find_province(key.as_str()) {
                    Some(i) => (Some(&self.name_to_province[i].1), None),
                    None => (None, None),
                }
            },
        }
    }
}

/// Looking a name up does not depend on its ASCII case: two names that
/// agree once lower-cased designate the same province and coast.
pub proof fn lemma_lookup_ignores_case(
    ps: Seq<(String, Province)>,
    cs: Seq<CoastEntry>,
    a: Seq<char>,
    b: Seq<char>,
)
    requires
        ascii_lower(a) == ascii_lower(b),
    ensures
        lookup_positions(ps, cs, a) == lookup_positions(ps, cs, b),
{
}

/// On a board just set up from a map, a province's own name finds that
/// province (unless a coast has the same name, which takes precedence).
pub proof fn lemma_new_board_finds_provinces(board: Board, i: int)
    requires
        board.wf(),
        0 <= i < board.provinces().len(),
        last_coast_position(board.coasts(), board.provinces()[i].0@) is None,
    ensures
        lookup_positions(board.provinces(), board.coasts(), board.provinces()[i].1.info.name@) == (
            Some(i),
            None::<int>,
        ),
{
    let ps = board.provinces();
    assert(ps[i].0@ == ascii_lower(ps[i].1.info.name@));
    assert forall|a: int, b: int| 0 <= a < b < ps.len() implies (#[trigger] ps[a]).0@ != (
    #[trigger] ps[b]).0@ by {
        assert(board.wf());
    }
    lemma_province_position_unique(ps, ps[i].0@, i);
}


impl Board {
    /// Records the server the game runs on.
    pub fn set_board_id(&mut self, id: Option<u64>)
        ensures
            final(self).guild() == id,
            final(self).fish_count() == old(self).fish_count(),
            final(self).info() == old(self).info(),
            final(self).provinces() == old(self).provinces(),
            final(self).coasts() == old(self).coasts(),
            final(self).players() == old(self).players(),
            final(self).phase() == old(self).phase(),
            final(self).year() == old(self).year(),
            final(self).orders_enabled() == old(self).orders_enabled(),
            old(self).wf() ==> final(self).wf(),
    {
        self.board_id = id;
    }

    /// Adds `amount` (possibly negative) to the fish caught and returns the
    /// new total.
    pub fn add_fish(&mut self, amount: i64) -> (res: i64)
        requires
            i64::MIN <= old(self).fish_count() + amount <= i64::MAX,
        ensures
            res == old(self).fish_count() + amount,
            final(self).fish_count() == res,
            final(self).guild() == old(self).guild(),
            final(self).info() == old(self).info(),
            final(self).provinces() == old(self).provinces(),
            final(self).coasts() == old(self).coasts(),
            final(self).players() == old(self).players(),
            final(self).phase() == old(self).phase(),
            final(self).year() == old(self).year(),
            final(self).orders_enabled() == old(self).orders_enabled(),
            old(self).wf() ==> final(self).wf(),
    {
        self.fish = self.fish + amount;
        self.fish
    }
}


impl Board {
    /// Whether looking `name` up finds what it names (see `lookup_defined`).
    pub fn can_look_up(&self, name: &str) -> (res: bool)
        requires
            self.wf(),
        ensures
            res == lookup_defined(*self, name@),
    {
        let key = to_ascii_lowercase(name);
        match self.find_coast(key.as_str()) {
            Some(e) => {
                proof {
                    lemma_last_coast_position(self.name_to_coast@, key@);
                }
                let entry = &self.name_to_coast[e];
                let pkey = to_ascii_lowercase(entry.province.as_str());
                match self.find_province(pkey.as_str()) {
                    Some(i) => {
                        let cref = CoastReference::Name(entry.coast.clone());
                        self.name_to_province[i].1.info.coast_index(&cref).is_some()
                    },
                    None => false,
                }
            },
            None => true,
        }
    }

    /// Whether every reference of `refs` names a province of this board.
    pub fn refs_found(&self, refs: &Vec<ProvinceReference>) -> (res: bool)
        requires
            self.wf(),
        ensures
            res == refs_resolve(self.provinces(), refs@),
    {
        let mut k: usize = 0;
        while k < refs.len()
            invariant
                self.wf(),
                k <= refs@.len(),
                forall|j: int|
                    0 <= j < k ==> (#[trigger] refs@[j]) is Name && province_position(
                        self.provinces(),
                        ascii_lower(reference_name(refs@[j]).unwrap()),
                    ) is Some,
            decreases refs@.len() - k,
        {
            match &refs[k] {
                ProvinceReference::Name(n) => {
                    let key = to_ascii_lowercase(n.as_str());
                    if self.find_province(key.as_str()).is_none() {
                        return false;
                    }
                },
                ProvinceReference::Index(_) => {
                    return false;
                },
            }
            k = k + 1;
        }
        true
    }

    /// Whether this board can describe what `name` names (see `describable`).
    pub fn can_describe(&self, name: &str) -> (res: bool)
        requires
            self.wf(),
        ensures
            res == describable(*self, name@),
    {
        if !self.can_look_up(name) {
            return false;
        }
        let ghost lp = lookup_positions(self.provinces(), self.coasts(), name@);
        let (p, c) = self.get_province_and_coast(String::from_str(name));
        match c {
            Some(coast) => self.refs_found(&coast.adjacent_seas),
            None => match p {
                Some(province) => self.refs_found(&province.info.adjacent),
                None => true,
            },
        }
    }
}


/// Whether a reference names, ignoring ASCII case, one of the provinces
/// whose lower-case names are `keys`.
fn resolves_by_keys(keys: &Vec<String>, infos: Ghost<Seq<Arc<ProvinceInfo>>>, r: &ProvinceReference) -> (res: bool)
    requires
        keys@.len() == infos@.len(),
        forall|j: int| 0 <= j < keys@.len() ==> (#[trigger] keys@[j])@ == ascii_lower(infos@[j].name@),
    ensures
        res == resolves_in(infos@, *r),
{
    match r {
        ProvinceReference::Index(_) => false,
        ProvinceReference::Name(n) => {
            let key = to_ascii_lowercase(n.as_str());
            let mut j: usize = 0;
            while j < keys.len()
                invariant
                    keys@.len() == infos@.len(),
                    forall|q: int| 0 <= q < keys@.len() ==> (#[trigger] keys@[q])@ == ascii_lower(infos@[q].name@),
                    key@ == ascii_lower(n@),
                    *r == ProvinceReference::Name(*n),
                    j <= keys@.len(),
                    forall|q: int| 0 <= q < j ==> ascii_lower(infos@[q].name@) != ascii_lower(n@),
                decreases keys@.len() - j,
            {
                assert(keys@[j as int]@ == ascii_lower(infos@[j as int].name@));
                if str_eq(keys[j].as_str(), key.as_str()) {
                    assert(0 <= j < infos@.len() && ascii_lower(infos@[j as int].name@) == ascii_lower(n@));
                    return true;
                }
                j = j + 1;
            }
            false
        },
    }
}

/// Whether a map description is one a board can be set up from (see
/// `board_info_valid`).
pub fn board_info_is_valid(infos: &Vec<Arc<ProvinceInfo>>) -> (res: bool)
    ensures
        res == board_info_valid(infos@),
{
    let n = infos.len();
    let mut keys: Vec<String> = Vec::new();
    let mut i: usize = 0;
    while i < n
        invariant
            n == infos@.len(),
            i <= n,
            keys@.len() == i,
            forall|j: int| 0 <= j < i ==> (#[trigger] keys@[j])@ == ascii_lower(infos@[j].name@),
        decreases n - i,
    {
        keys.push(to_ascii_lowercase(infos[i].name.as_str()));
        i = i + 1;
    }
    let mut a: usize = 0;
    while a < n
        invariant
            n == infos@.len(),
            keys@.len() == n,
            forall|j: int| 0 <= j < n ==> (#[trigger] keys@[j])@ == ascii_lower(infos@[j].name@),
            a <= n,
            forall|x: int, y: int|
                0 <= x < a && x < y < n ==> ascii_lower(#[trigger] infos@[x].name@) != ascii_lower(
                    #[trigger] infos@[y].name@,
                ),
        decreases n - a,
    {
        let mut b: usize = a + 1;
        while b < n
            invariant
                n == infos@.len(),
                keys@.len() == n,
                forall|j: int| 0 <= j < n ==> (#[trigger] keys@[j])@ == ascii_lower(infos@[j].name@),
                a < n,
                a + 1 <= b <= n,
                forall|y: int| a < y < b ==> ascii_lower(infos@[a as int].name@) != ascii_lower(
                    #[trigger] infos@[y].name@,
                ),
            decreases n - b,
        {
            assert(keys@[a as int]@ == ascii_lower(infos@[a as int].name@));
            assert(keys@[b as int]@ == ascii_lower(infos@[b as int].name@));
            if str_eq(keys[a].as_str(), keys[b].as_str()) {
                return false;
            }
            b = b + 1;
        }
        a = a + 1;
    }
    let mut p: usize = 0;
    while p < n
        invariant
            n == infos@.len(),
            keys@.len() == n,
            forall|j: int| 0 <= j < n ==> (#[trigger] keys@[j])@ == ascii_lower(infos@[j].name@),
            p <= n,
            forall|x: int, k: int|
                0 <= x < p && 0 <= k < infos@[x].adjacent@.len() ==> resolves_in(
                    infos@,
                    #[trigger] infos@[x].adjacent@[k],
                ),
            forall|x: int, c: int, k: int|
                0 <= x < p && infos@[x].coasts is Some && 0 <= c < infos@[x].coasts.unwrap()@.len() && 0 <= k
                    < infos@[x].coasts.unwrap()@[c].adjacent_seas@.len() ==> resolves_in(
                    infos@,
                    #[trigger] infos@[x].coasts.unwrap()@[c].adjacent_seas@[k],
                ),
        decreases n - p,
    {
        let info = &infos[p];
        let mut k: usize = 0;
        while k < info.adjacent.len()
            invariant
                n == infos@.len(),
                keys@.len() == n,
                forall|j: int| 0 <= j < n ==> (#[trigger] keys@[j])@ == ascii_lower(infos@[j].name@),
                p < n,
                *info == *infos@[p as int],
                k <= info.adjacent@.len(),
                forall|q: int| 0 <= q < k ==> resolves_in(infos@, #[trigger] info.adjacent@[q]),
            decreases info.adjacent@.len() - k,
        {
            if !resolves_by_keys(&keys, Ghost(infos@), &info.adjacent[k]) {
                return false;
            }
            k = k + 1;
        }
        match &info.coasts {
            None => {},
            Some(cv) => {
                let mut c: usize = 0;
                while c < cv.len()
                    invariant
                        n == infos@.len(),
                        keys@.len() == n,
                        forall|j: int| 0 <= j < n ==> (#[trigger] keys@[j])@ == ascii_lower(infos@[j].name@),
                        p < n,
                        info.coasts == Some(*cv),
                        *info == *infos@[p as int],
                        c <= cv@.len(),
                        forall|d: int, q: int|
                            0 <= d < c && 0 <= q < cv@[d].adjacent_seas@.len() ==> resolves_in(
                                infos@,
                                #[trigger] cv@[d].adjacent_seas@[q],
                            ),
                    decreases cv@.len() - c,
                {
                    let coast = &cv[c];
                    let mut k: usize = 0;
                    while k < coast.adjacent_seas.len()
                        invariant
                            n == infos@.len(),
                            keys@.len() == n,
                            forall|j: int| 0 <= j < n ==> (#[trigger] keys@[j])@ == ascii_lower(infos@[j].name@),
                            p < n,
                            info.coasts == Some(*cv),
                            *info == *infos@[p as int],
                            c < cv@.len(),
                            *coast == cv@[c as int],
                            k <= coast.adjacent_seas@.len(),
                            forall|q: int| 0 <= q < k ==> resolves_in(infos@, #[trigger] coast.adjacent_seas@[q]),
                        decreases coast.adjacent_seas@.len() - k,
                    {
                        if !resolves_by_keys(&keys, Ghost(infos@), &coast.adjacent_seas[k]) {
                            assert(!resolves_in(
                                infos@,
                                infos@[p as int].coasts.unwrap()@[c as int].adjacent_seas@[k as int],
                            ));
                            return false;
                        }
                        k = k + 1;
                    }
                    c = c + 1;
                }
            },
        }
        p = p + 1;
    }
    true
}

} // verus!
