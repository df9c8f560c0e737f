use std::collections::HashMap;
use vstd::std_specs::iter::IteratorSpec;
use std::sync::Arc;
use vstd::prelude::*;

use crate::board::{
    describable, last_coast_position, lookup_positions, province_position, reference_name, Board, BoardInfo,
};
use crate::phase::Phase;
use crate::player::PlayerInfo;
use crate::province::{province_type_name, CoastReference, Province, ProvinceReference};
use crate::unit::Unit;
use crate::support::{arc_clone, str_eq};
use crate::text::{
    ascii_lower, bool_text, decimal, join, join_strings, sort_seq, sort_strings, string_views,
    u64_to_text,
};

verus! {

/// Holds the games of all servers, by server, and the map descriptions
/// read so far.
pub struct Manager {
    boards: HashMap<u64, Board>,
    board_infos: Vec<Arc<BoardInfo>>,
}

/// The position of the map description read from `datafile`, if any.
pub open spec fn info_position(infos: Seq<Arc<BoardInfo>>, datafile: Seq<char>) -> Option<int> {
    if exists|i: int| 0 <= i < infos.len() && infos[i].datafile@ == datafile {
        Some(choose|i: int| 0 <= i < infos.len() && infos[i].datafile@ == datafile)
    } else {
        None
    }
}

/// The games after one is created on `server_id` from `info`: the same
/// games, and the new one on that server.
pub open spec fn game_created(before: Map<u64, Board>, after: Map<u64, Board>, server_id: u64, info: Arc<BoardInfo>) -> bool {
    &&& after == before.insert(server_id, after[server_id])
    &&& after[server_id].info() == info
}

/// The games after the fish of `server_id`'s game change by `amount`: the
/// same servers and the same other games, that one with `amount` more fish.
pub open spec fn fish_changed(before: Map<u64, Board>, after: Map<u64, Board>, server_id: u64, amount: int) -> bool {
    &&& before.contains_key(server_id)
    &&& after.dom() == before.dom()
    &&& after[server_id].fish_count() == before[server_id].fish_count() + amount
    &&& forall|s: u64| s != server_id && before.contains_key(s) ==> #[trigger] after[s] == before[s]
}

/// A game created on a server that had none is found there afterwards,
/// made from the map it was created from; the other servers keep their
/// games, and servers without one still have none. (So creating a second
/// game there only answers that one exists.)
pub proof fn lemma_created_game_found(
    before: Map<u64, Board>,
    after: Map<u64, Board>,
    server_id: u64,
    info: Arc<BoardInfo>,
)
    requires
        !before.contains_key(server_id),
        game_created(before, after, server_id, info),
    ensures
        after.contains_key(server_id),
        after[server_id].info() == info,
        forall|s: u64| s != server_id ==> (#[trigger] after.contains_key(s) == before.contains_key(s)),
        forall|s: u64| s != server_id && before.contains_key(s) ==> #[trigger] after[s] == before[s],
{
}

/// Fish changes on a server's game add up: after changes by `a` and then
/// by `b`, the game holds `a + b` more fish than before, and no other game
/// has changed.
pub proof fn lemma_fish_adds_up(
    g0: Map<u64, Board>,
    g1: Map<u64, Board>,
    g2: Map<u64, Board>,
    server_id: u64,
    a: int,
    b: int,
)
    requires
        fish_changed(g0, g1, server_id, a),
        fish_changed(g1, g2, server_id, b),
    ensures
        g2.dom() == g0.dom(),
        g2[server_id].fish_count() == g0[server_id].fish_count() + a + b,
        forall|s: u64| s != server_id && g0.contains_key(s) ==> #[trigger] g2[s] == g0[s],
{
    assert forall|s: u64| s != server_id && g0.contains_key(s) implies #[trigger] g2[s] == g0[s] by {
        assert(g1[s] == g0[s]);
        assert(g1.contains_key(s));
    }
}

/// The reply to a request for a game on a server that has one.
pub open spec fn game_exists_text() -> Seq<char> {
    "A game already exists in this server."@
}

/// The reply once a game has been created.
pub open spec fn game_created_text() -> Seq<char> {
    "idk game created"@
}

/// The name of a player, or "None".
pub open spec fn player_name_or_none(p: Option<Arc<PlayerInfo>>) -> Seq<char> {
    match p {
        Some(p) => p.name@,
        None => "None"@,
    }
}

/// The names of the provinces a list of references names on a board.
pub open spec fn referenced_names(ps: Seq<(String, Province)>, refs: Seq<ProvinceReference>) -> Seq<
    Seq<char>,
> {
    refs.map_values(
        |r: ProvinceReference|
            ps[province_position(ps, ascii_lower(reference_name(r).unwrap())).unwrap()].1.info.name@,
    )
}

/// The description `province_info` gives of a name on a board.
pub open spec fn province_info_text(board: Board, name: Seq<char>) -> Seq<char> {
    let ps = board.provinces();
    let (p, c) = lookup_positions(ps, board.coasts(), name);
    if c is Some {
        let province = ps[p.unwrap()].1;
        let coast = province.info.coasts.unwrap()@[c.unwrap()];
        "Province: "@ + province.info.name@ + "\nType: COAST\nAdjacent Provinces:\n- "@ + join(
            sort_seq(referenced_names(ps, coast.adjacent_seas@)),
            "\n- "@,
        ) + "\n"@
    } else if p is Some {
        let province = ps[p.unwrap()].1;
        let coasts: nat = match province.info.coasts {
            Some(v) => v@.len(),
            None => 0,
        };
        let unit: Seq<char> = match province.unit {
            Some(u) => u.owner.name@,
            None => "None"@,
        };
        "Province: "@ + province.info.name@ + "\nType: "@ + province_type_name(
            province.info.province_type,
        ) + "\nCoasts: "@ + decimal(coasts) + "\nOwner: "@ + player_name_or_none(province.owner)
            + "\nUnit: "@ + unit + "\nCenter: "@ + bool_text(province.info.has_supply_center)
            + "\nCore: "@ + player_name_or_none(province.core) + "\nHalf-Core: "@
            + player_name_or_none(province.half_core) + "\nAdjacent Provinces:\n- "@ + join(
            sort_seq(referenced_names(ps, province.info.adjacent@)),
            "\n- "@,
        ) + "\n"@
    } else {
        "Could not find province "@ + name
    }
}

/// A text with the line `Unit: <unit>` between `head` and the line
/// `Center: ...` that starts `tail`.
pub open spec fn with_unit_line(head: Seq<char>, unit: Seq<char>, tail: Seq<char>) -> Seq<char> {
    head + "\nUnit: "@ + unit + "\nCenter: "@ + tail
}

/// The name of the owner of a unit, or "None" without a unit.
pub open spec fn owner_of_unit(u: Option<Unit>) -> Seq<char> {
    match u {
        Some(u) => u.owner.name@,
        None => "None"@,
    }
}

/// The Unit line of a province's description names the owner of the unit
/// standing in the province, whoever owns the province, and says "None"
/// exactly when no unit stands there.
pub proof fn lemma_unit_line(board: Board, name: Seq<char>)
    requires
        lookup_positions(board.provinces(), board.coasts(), name).0 is Some,
        lookup_positions(board.provinces(), board.coasts(), name).1 is None,
    ensures
        ({
            let province = board.provinces()[lookup_positions(board.provinces(), board.coasts(), name).0.unwrap()].1;
            exists|head: Seq<char>, tail: Seq<char>|
                province_info_text(board, name) == #[trigger] with_unit_line(head, owner_of_unit(province.unit), tail)
        }),
{
    let ps = board.provinces();
    let p = lookup_positions(ps, board.coasts(), name).0.unwrap();
    let province = ps[p].1;
    let coasts: nat = match province.info.coasts {
        Some(v) => v@.len(),
        None => 0,
    };
    let unit = owner_of_unit(province.unit);
    let head = "Province: "@ + province.info.name@ + "\nType: "@ + province_type_name(province.info.province_type)
        + "\nCoasts: "@ + decimal(coasts) + "\nOwner: "@ + player_name_or_none(province.owner);
    let a = head + "\nUnit: "@ + unit + "\nCenter: "@;
    let p1 = bool_text(province.info.has_supply_center);
    let p2 = "\nCore: "@;
    let p3 = player_name_or_none(province.core);
    let p4 = "\nHalf-Core: "@;
    let p5 = player_name_or_none(province.half_core);
    let p6 = "\nAdjacent Provinces:\n- "@;
    let p7 = join(sort_seq(referenced_names(ps, province.info.adjacent@)), "\n- "@);
    let p8 = "\n"@;
    assert(province_info_text(board, name) == a + p1 + p2 + p3 + p4 + p5 + p6 + p7 + p8);
    let t2 = p1 + p2;
    let t3 = t2 + p3;
    let t4 = t3 + p4;
    let t5 = t4 + p5;
    let t6 = t5 + p6;
    let t7 = t6 + p7;
    let t8 = t7 + p8;
    assert(a + p1 + p2 =~= a + t2);
    assert(a + t2 + p3 =~= a + t3);
    assert(a + t3 + p4 =~= a + t4);
    assert(a + t4 + p5 =~= a + t5);
    assert(a + t5 + p6 =~= a + t6);
    assert(a + t6 + p7 =~= a + t7);
    assert(a + t7 + p8 =~= a + t8);
    assert(province_info_text(board, name) == with_unit_line(head, unit, t8));
}

impl Manager {
    /// The games, by server.
    pub closed spec fn games(&self) -> Map<u64, Board> {
        self.boards@
    }

    /// The map descriptions read so far.
    pub closed spec fn infos(&self) -> Seq<Arc<BoardInfo>> {
        self.board_infos@
    }

    /// Every game is well formed and every map description is stored once.
    pub closed spec fn wf(&self) -> bool {
        &&& forall|s: u64| #[trigger] self.boards@.contains_key(s) ==> self.boards@[s].wf()
        &&& forall|i: int, j: int|
            0 <= i < j < self.board_infos@.len() ==> (#[trigger] self.board_infos@[i]).datafile@ != (
            #[trigger] self.board_infos@[j]).datafile@
    }

    /// A manager with no games and no map descriptions.
    pub fn new() -> (res: Manager)
        ensures
            res.wf(),
            res.games() == Map::<u64, Board>::empty(),
            res.infos().len() == 0,
    {
        Manager { boards: HashMap::new(), board_infos: Vec::new() }
    }

    /// The servers that have a game, each once, in no particular order.
    pub fn list_servers(&self) -> (res: Vec<u64>)
        ensures
            res@.to_set() == self.games().dom(),
            res@.no_duplicates(),
    {
        broadcast use vstd::std_specs::hash::group_hash_axioms;
        let mut res: Vec<u64> = Vec::new();
        let ghost ks = vstd::std_specs::hash::spec_keys_iter(&self.boards).remaining();
        for k in it: self.boards.keys()
            invariant
                it.seq() == ks,
                res@ == ks.take(it.index()).unref(),
        {
            proof {
                assert(ks.take(it.index() + 1) =~= ks.take(it.index()).push(ks[it.index()]));
            }
            res.push(*k);
            proof {
                assert(res@ =~= ks.take(it.index() + 1).unref());
            }
        }
        proof {
            assert(ks.take(ks.len() as int) =~= ks);
        }
        res
    }

    /// Whether the server has a game.
    pub fn has_game(&self, server_id: u64) -> (res: bool)
        ensures
            res == self.games().contains_key(server_id),
    {
        broadcast use vstd::std_specs::hash::group_hash_axioms;
        self.boards.contains_key(&server_id)
    }

    /// The map description read from `gametype`, if it was read before.
    pub fn get_board_info(&self, gametype: &str) -> (res: Option<Arc<BoardInfo>>)
        requires
            self.wf(),
        ensures
            match res {
                Some(info) => info_position(self.infos(), gametype@) is Some && info
                    == self.infos()[info_position(self.infos(), gametype@).unwrap()],
                None => info_position(self.infos(), gametype@) is None,
            },
    {
        match self.find_info(gametype) {
            Some(i) => Some(arc_clone(&self.board_infos[i])),
            None => None,
        }
    }

    fn find_info(&self, datafile: &str) -> (res: Option<usize>)
        requires
            self.wf(),
        ensures
            match res {
                Some(i) => info_position(self.infos(), datafile@) == Some(i as int),
                None => info_position(self.infos(), datafile@) is None,
            },
    {
        let mut i: usize = 0;
        while i < self.board_infos.len()
            invariant
                self.wf(),
                i <= self.board_infos@.len(),
                forall|j: int| 0 <= j < i ==> self.board_infos@[j].datafile@ != datafile@,
            decreases self.board_infos@.len() - i,
        {
            if str_eq(self.board_infos[i].datafile.as_str(), datafile) {
                proof {
                    let q = info_position(self.board_infos@, datafile@).unwrap();
                    if q < i {
                        assert(self.board_infos@[q].datafile@ != self.board_infos@[i as int].datafile@);
                    } else if q > i {
                        assert(self.board_infos@[i as int].datafile@ != self.board_infos@[q].datafile@);
                    }
                }
                return Some(i);
            }
            i = i + 1;
        }
        None
    }

    /// Keeps a map description under the name of the file it was read from,
    /// replacing one kept under the same name.
    pub fn store_board_info(&mut self, info: Arc<BoardInfo>)
        requires
            old(self).wf(),
        ensures
            final(self).wf(),
            final(self).games() == old(self).games(),
            info_position(final(self).infos(), info.datafile@) is Some,
            final(self).infos()[info_position(final(self).infos(), info.datafile@).unwrap()] == info,
            forall|d: Seq<char>|
                d != info.datafile@ ==> #[trigger] info_position(final(self).infos(), d)
                    == info_position(old(self).infos(), d),
    {
        match self.find_info(info.datafile.as_str()) {
            Some(i) => {
                let ghost before = self.board_infos@;
                self.board_infos.set(i, info);
                proof {
                    assert forall|a: int, b: int|
                        0 <= a < b < self.board_infos@.len() implies (#[trigger] self.board_infos@[a]).datafile@
                        != (#[trigger] self.board_infos@[b]).datafile@ by {
                        assert(before[a].datafile@ != before[b].datafile@);
                    }
                    lemma_info_position_same(before, self.board_infos@, i as int);
                }
            },
            None => {
                let ghost before = self.board_infos@;
                self.board_infos.push(info);
                proof {
                    let n = before.len() as int;
                    assert(self.board_infos@[n] == info);
                    assert forall|a: int, b: int|
                        0 <= a < b < self.board_infos@.len() implies (#[trigger] self.board_infos@[a]).datafile@
                        != (#[trigger] self.board_infos@[b]).datafile@ by {
                        if b < n {
                            assert(before[a].datafile@ != before[b].datafile@);
                        } else {
                            assert(before[a].datafile@ != info.datafile@);
                        }
                    }
                    let q = info_position(self.board_infos@, info.datafile@).unwrap();
                    assert(q == n) by {
                        if q < n {
                            assert(before[q] == self.board_infos@[q]);
                        }
                    }
                    assert forall|d: Seq<char>| d != info.datafile@ implies #[trigger] info_position(
                        self.board_infos@,
                        d,
                    ) == info_position(before, d) by {
                        if exists|k: int| 0 <= k < before.len() && before[k].datafile@ == d {
                            let k = choose|k: int| 0 <= k < before.len() && before[k].datafile@ == d;
                            assert(self.board_infos@[k] == before[k]);
                            let q1 = info_position(self.board_infos@, d).unwrap();
                            let q2 = info_position(before, d).unwrap();
                            assert(q1 < n);
                            assert(self.board_infos@[q1] == before[q1]);
                            if q1 < q2 {
                                assert(before[q1].datafile@ != before[q2].datafile@);
                            } else if q2 < q1 {
                                assert(before[q2].datafile@ != before[q1].datafile@);
                            }
                        } else {
                            assert forall|k: int| 0 <= k < self.board_infos@.len() implies self.board_infos@[k].datafile@ != d by {
                                if k < n {
                                    assert(self.board_infos@[k] == before[k]);
                                }
                            }
                        }
                    }
                }
            },
        }
    }
}

proof fn lemma_info_position_same(a: Seq<Arc<BoardInfo>>, b: Seq<Arc<BoardInfo>>, i: int)
    requires
        a.len() == b.len(),
        0 <= i < a.len(),
        a[i].datafile@ == b[i].datafile@,
        forall|k: int| 0 <= k < a.len() && k != i ==> a[k] == b[k],
        forall|x: int, y: int| 0 <= x < y < a.len() ==> (#[trigger] a[x]).datafile@ != (#[trigger] a[y]).datafile@,
    ensures
        info_position(b, b[i].datafile@) == Some(i),
        forall|d: Seq<char>| #[trigger] info_position(b, d) == info_position(a, d),
{
    assert forall|d: Seq<char>| #[trigger] info_position(b, d) == info_position(a, d) by {
        assert forall|k: int| 0 <= k < a.len() implies a[k].datafile@ == b[k].datafile@ by {}
        if exists|k: int| 0 <= k < a.len() && a[k].datafile@ == d {
            let q1 = info_position(a, d).unwrap();
            let q2 = info_position(b, d).unwrap();
            if q1 < q2 {
                assert(a[q1].datafile@ != a[q2].datafile@);
            } else if q2 < q1 {
                assert(a[q2].datafile@ != a[q1].datafile@);
            }
        }
    }
    let q = info_position(b, b[i].datafile@).unwrap();
    if q < i {
        assert(a[q].datafile@ != a[i].datafile@);
    } else if q > i {
        assert(a[i].datafile@ != a[q].datafile@);
    }
}


impl Manager {
    /// Creates a game on a server from a map description, unless the
    /// server already has a game: then nothing changes and the reply says
    /// so. The new game starts in Spring Moves, year 0, with no fish, and
    /// records the server it runs on.
    pub fn create_game(&mut self, server_id: &u64, info: Arc<BoardInfo>) -> (res: String)
        requires
            old(self).wf(),
        ensures
            final(self).wf(),
            final(self).infos() == old(self).infos(),
            old(self).games().contains_key(*server_id) ==> {
                &&& res@ == game_exists_text()
                &&& final(self).games() == old(self).games()
            },
            !old(self).games().contains_key(*server_id) ==> {
                let g = final(self).games()[*server_id];
                &&& res@ == game_created_text()
                &&& game_created(old(self).games(), final(self).games(), *server_id, info)
                &&& g.guild() == Some(*server_id)
                &&& g.phase() == Phase::SpringMoves
                &&& g.year() == 0
                &&& g.fish_count() == 0
                &&& g.orders_enabled()
            },
    {
        broadcast use vstd::std_specs::hash::group_hash_axioms;
        if self.has_game(*server_id) {
            return String::from_str("A game already exists in this server.");
        }
        let mut board = Board::new(info, Phase::initial());
        board.set_board_id(Some(*server_id));
        let ghost before = self.boards@;
        let ghost b = board;
        self.boards.insert(*server_id, board);
        proof {
            assert(self.boards@ == before.insert(*server_id, b));
            assert forall|s: u64| #[trigger] self.boards@.contains_key(s) implies self.boards@[s].wf() by {
                if s != *server_id {
                    assert(before.contains_key(s));
                }
            }
        }
        String::from_str("idk game created")
    }

    /// Adds `amount` (possibly negative) to the fish caught in a server's
    /// game and returns the new total; nothing else changes. The server must
    /// have a game.
    pub fn change_fish(&mut self, server_id: u64, amount: i64) -> (res: i64)
        requires
            old(self).wf(),
            old(self).games().contains_key(server_id),
            i64::MIN <= old(self).games()[server_id].fish_count() + amount <= i64::MAX,
        ensures
            final(self).wf(),
            final(self).infos() == old(self).infos(),
            fish_changed(old(self).games(), final(self).games(), server_id, amount as int),
            res == old(self).games()[server_id].fish_count() + amount,
            ({
                let g = final(self).games()[server_id];
                let g0 = old(self).games()[server_id];
                &&& g.fish_count() == res
                &&& g.info() == g0.info()
                &&& g.provinces() == g0.provinces()
                &&& g.coasts() == g0.coasts()
                &&& g.players() == g0.players()
                &&& g.phase() == g0.phase()
                &&& g.year() == g0.year()
                &&& g.guild() == g0.guild()
                &&& g.orders_enabled() == g0.orders_enabled()
            }),
    {
        broadcast use vstd::std_specs::hash::group_hash_axioms;
        let ghost before = self.boards@;
        let mut board = self.boards.remove(&server_id).unwrap();
        assert(board == before[server_id]);
        assert(board.wf());
        let total = board.add_fish(amount);
        let ghost b = board;
        self.boards.insert(server_id, board);
        proof {
            assert(self.boards@ == before.remove(server_id).insert(server_id, b));
            assert(self.boards@.dom() =~= before.dom());
            assert forall|s: u64| #[trigger] self.boards@.contains_key(s) implies self.boards@[s].wf() by {
                if s != server_id {
                    assert(before.contains_key(s));
                }
            }
        }
        total
    }
}


/// The names of the provinces `refs` names on `board`.
fn referenced_names_exec(board: &Board, refs: &Vec<ProvinceReference>) -> (res: Vec<String>)
    requires
        board.wf(),
        forall|k: int|
            0 <= k < refs@.len() ==> (#[trigger] refs@[k]) is Name && province_position(
                board.provinces(),
                ascii_lower(reference_name(refs@[k]).unwrap()),
            ) is Some,
    ensures
        string_views(res@) == referenced_names(board.provinces(), refs@),
{
    let mut res: Vec<String> = Vec::new();
    let mut k: usize = 0;
    while k < refs.len()
        invariant
            board.wf(),
            k <= refs@.len(),
            forall|k: int|
                0 <= k < refs@.len() ==> (#[trigger] refs@[k]) is Name && province_position(
                    board.provinces(),
                    ascii_lower(reference_name(refs@[k]).unwrap()),
                ) is Some,
            string_views(res@) == referenced_names(board.provinces(), refs@.subrange(0, k as int)),
        decreases refs@.len() - k,
    {
        let r = &refs[k];
        assert(refs@[k as int] is Name);
        let province = board.resolve_province_ref(r);
        let ghost before = res@;
        res.push(province.info.name.clone());
        proof {
            assert(refs@.subrange(0, k + 1) =~= refs@.subrange(0, k as int).push(refs@[k as int]));
            assert(string_views(res@) =~= string_views(before).push(province.info.name@));
        }
        k = k + 1;
    }
    proof {
        assert(refs@.subrange(0, k as int) =~= refs@);
    }
    res
}

fn append_player_name_or_none(s: &mut String, p: &Option<Arc<PlayerInfo>>)
    ensures
        final(s)@ == old(s)@ + player_name_or_none(*p),
{
    match p {
        Some(p) => s.append(p.name.as_str()),
        None => s.append("None"),
    }
}

impl Manager {
    /// Whether the board of a server's game can describe what `name` names
    /// (see `describable`). The server must have a game.
    pub fn can_describe_province(&self, server_id: u64, name: &str) -> (res: bool)
        requires
            self.wf(),
            self.games().contains_key(server_id),
        ensures
            res == describable(self.games()[server_id], name@),
    {
        broadcast use vstd::std_specs::hash::group_hash_axioms;
        let board = self.boards.get(&server_id).unwrap();
        board.can_describe(name)
    }

    /// A description of a province or coast of a server's game, found by
    /// name ignoring ASCII case. For a coast: its province and the seas it
    /// borders; for a province: its kind, number of coasts, owner, unit,
    /// centre, core, half-core and adjacent provinces; adjacent names are
    /// listed in string order. An unknown name gets "Could not find
    /// province <name>". The server must have a game, whose board can
    /// describe the name (see `describable`; `can_describe_province` tells).
    pub fn province_info(&self, server_id: u64, name: String) -> (res: String)
        requires
            self.wf(),
            self.games().contains_key(server_id),
            describable(self.games()[server_id], name@),
        ensures
            res@ == province_info_text(self.games()[server_id], name@),
    {
        broadcast use vstd::std_specs::hash::group_hash_axioms;
        let board = self.boards.get(&server_id).unwrap();
        assert(board.wf());
        let ghost ps = board.provinces();
        let ghost lp = lookup_positions(ps, board.coasts(), name@);
        let (province, coast) = board.get_province_and_coast(name.clone());
        match coast {
            Some(coast) => {
                let province = province.unwrap();
                proof {
                    let p = lp.0.unwrap();
                    let c = lp.1.unwrap();
                    assert(0 <= p < ps.len());
                    assert(ps[p].1.info.coasts is Some);
                    crate::province::lemma_coast_position_in_range(
                        ps[p].1.info,
                        CoastReference::Name(board.coasts()[last_coast_position(board.coasts(), ascii_lower(name@)).unwrap()].coast),
                    );
                    assert(0 <= c < ps[p].1.info.coasts.unwrap()@.len());
                    assert(*coast == ps[p].1.info.coasts.unwrap()@[c]);
                }
                let names = referenced_names_exec(board, &coast.adjacent_seas);
                let sorted = sort_strings(names);
                let joined = join_strings(&sorted, "\n- ");
                let mut out = String::from_str("Province: ");
                out.append(province.info.name.as_str());
                out.append("\nType: COAST\nAdjacent Provinces:\n- ");
                out.append(joined.as_str());
                out.append("\n");
                proof {
                    assert(out@ =~= province_info_text(*board, name@));
                }
                out
            },
            None => {
                match province {
                    Some(province) => {
                        proof {
                            let p = lp.0.unwrap();
                            assert(*province == ps[p].1);
                        }
                        let names = referenced_names_exec(board, &province.info.adjacent);
                        let sorted = sort_strings(names);
                        let joined = join_strings(&sorted, "\n- ");
                        let ncoasts: usize = match &province.info.coasts {
                            Some(v) => v.len(),
                            None => 0,
                        };
                        let mut out = String::from_str("Province: ");
                        out.append(province.info.name.as_str());
                        out.append("\nType: ");
                        out.append(province.info.province_type.name());
                        out.append("\nCoasts: ");
                        out.append(u64_to_text(ncoasts as u64).as_str());
                        out.append("\nOwner: ");
                        append_player_name_or_none(&mut out, &province.owner);
                        out.append("\nUnit: ");
                        match &province.unit {
                            Some(u) => out.append(u.owner.name.as_str()),
                            None => out.append("None"),
                        }
                        out.append("\nCenter: ");
                        if province.info.has_supply_center {
                            out.append("true");
                        } else {
                            out.append("false");
                        }
                        out.append("\nCore: ");
                        append_player_name_or_none(&mut out, &province.core);
                        out.append("\nHalf-Core: ");
                        append_player_name_or_none(&mut out, &province.half_core);
                        out.append("\nAdjacent Provinces:\n- ");
                        out.append(joined.as_str());
                        out.append("\n");
                        proof {
                            assert(out@ =~= province_info_text(*board, name@));
                        }
                        out
                    },
                    None => {
                        let mut out = String::from_str("Could not find province ");
                        out.append(name.as_str());
                        proof {
                            assert(out@ =~= province_info_text(*board, name@));
                        }
                        out
                    },
                }
            },
        }
    }
}

} // verus!
