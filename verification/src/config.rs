use vstd::prelude::*;

use crate::support::str_eq;

verus! {

/// Discord roles which are allowed full access to bot commands.
pub const GM_ROLES: [&'static str; 4] = ["admin", "gm", "heavenly angel", "emergency gm"];

/// Discord categories in which GM channels must be (so that a fake GM
/// channel with the right name does not count).
pub const GM_CATEGORIES: [&'static str; 1] = ["gm channels"];

/// Discord channels in which GMs may use non-public commands.
pub const GM_CHANNELS: [&'static str; 1] = ["admin-chat"];

/// Discord categories in which player channels must be.
pub const PLAYER_CATEGORIES: [&'static str; 1] = ["orders"];

/// True when `s` is one of the strings of `group`.
pub open spec fn spec_is_member(s: Seq<char>, group: Seq<&str>) -> bool {
    exists|i: int| 0 <= i < group.len() && group[i]@ == s
}

/// Whether `string` occurs in `group`.
pub fn is_member(string: &str, group: &[&str]) -> (res: bool)
    ensures
        res == spec_is_member(string@, group@),
{
    let mut i: usize = 0;
    while i < group.len()
        invariant
            i <= group@.len(),
            forall|j: int| 0 <= j < i ==> group@[j]@ != string@,
        decreases group@.len() - i,
    {
        if str_eq(group[i], string) {
            assert(group@[i as int]@ == string@);
            return true;
        }
        i = i + 1;
    }
    false
}

pub open spec fn spec_is_gm_role(role: Seq<char>) -> bool {
    role == "admin"@ || role == "gm"@ || role == "heavenly angel"@ || role == "emergency gm"@
}

/// Whether a role grants GM rights: "admin", "gm", "heavenly angel" or
/// "emergency gm" (compared exactly, case included).
pub fn is_gm_role(role: &str) -> (res: bool)
    ensures
        res == spec_is_gm_role(role@),
{
    let roles = GM_ROLES;
    let res = is_member(role, &roles);
    proof {
        if res {
            let i = choose|i: int| 0 <= i < roles@.len() && roles@[i]@ == role@;
            assert(0 <= i < 4);
        } else {
            assert(roles@[0] == "admin");
            assert(roles@[1] == "gm");
            assert(roles@[2] == "heavenly angel");
            assert(roles@[3] == "emergency gm");
        }
    }
    res
}


/// Whether a category is a GM category ("gm channels").
pub fn is_gm_category(category: &str) -> (res: bool)
    ensures
        res == (category@ == "gm channels"@),
{
    let group = GM_CATEGORIES;
    let res = is_member(category, &group);
    proof {
        assert(group@[0] == "gm channels");
        if res {
            let i = choose|i: int| 0 <= i < group@.len() && group@[i]@ == category@;
            assert(i == 0);
        }
    }
    res
}

/// Whether a channel is a GM channel ("admin-chat").
pub fn is_gm_channel_name(channel: &str) -> (res: bool)
    ensures
        res == (channel@ == "admin-chat"@),
{
    let group = GM_CHANNELS;
    let res = is_member(channel, &group);
    proof {
        assert(group@[0] == "admin-chat");
        if res {
            let i = choose|i: int| 0 <= i < group@.len() && group@[i]@ == channel@;
            assert(i == 0);
        }
    }
    res
}

/// Whether a category holds player order channels ("orders").
pub fn _is_player_category(category: &str) -> (res: bool)
    ensures
        res == (category@ == "orders"@),
{
    let group = PLAYER_CATEGORIES;
    let res = is_member(category, &group);
    proof {
        assert(group@[0] == "orders");
        if res {
            let i = choose|i: int| 0 <= i < group@.len() && group@[i]@ == category@;
            assert(i == 0);
        }
    }
    res
}

/// The user who is always a bumble.
pub open spec fn permanent_bumble() -> Seq<char> {
    "_bumble"@
}

/// The names that hold a temporary bumbleship (until they fish too much, or
/// until the registry is dropped). Names are kept once each.
pub struct BumbleRegistry {
    names: Vec<String>,
}

impl View for BumbleRegistry {
    type V = Set<Seq<char>>;

    closed spec fn view(&self) -> Set<Seq<char>> {
        Set::new(|n: Seq<char>| exists|i: int| 0 <= i < self.names@.len() && self.names@[i]@ == n)
    }
}

impl BumbleRegistry {
    /// No name is stored twice.
    pub closed spec fn wf(&self) -> bool {
        forall|i: int, j: int|
            0 <= i < j < self.names@.len() ==> self.names@[i]@ != self.names@[j]@
    }

    /// An empty registry.
    pub fn new() -> (res: BumbleRegistry)
        ensures
            res.wf(),
            res@ == Set::<Seq<char>>::empty(),
    {
        let res = BumbleRegistry { names: Vec::new() };
        assert(res@ =~= Set::<Seq<char>>::empty());
        res
    }

    fn position(&self, name: &str) -> (res: Option<usize>)
        ensures
            match res {
                Some(i) => i < self.names@.len() && self.names@[i as int]@ == name@,
                None => forall|j: int| 0 <= j < self.names@.len() ==> self.names@[j]@ != name@,
            },
    {
        let mut i: usize = 0;
        while i < self.names.len()
            invariant
                i <= self.names@.len(),
                forall|j: int| 0 <= j < i ==> self.names@[j]@ != name@,
            decreases self.names@.len() - i,
        {
            if str_eq(self.names[i].as_str(), name) {
                return Some(i);
            }
            i = i + 1;
        }
        None
    }

    /// Whether `name` holds a temporary bumbleship.
    pub fn contains(&self, name: &str) -> (res: bool)
        ensures
            res == self@.contains(name@),
    {
        match self.position(name) {
            Some(i) => {
                assert(self@.contains(name@)) by {
                    assert(self.names@[i as int]@ == name@);
                }
                true
            },
            None => false,
        }
    }
}

/// Whether `name` is a bumble given the temporary bumbleships `registry`.
pub open spec fn spec_is_bumble(registry: Set<Seq<char>>, name: Seq<char>) -> bool {
    name == permanent_bumble() || registry.contains(name)
}

/// Whether `name` is a bumble: "_bumble" always is; anyone else while they
/// hold a temporary bumbleship.
pub fn is_bumble(registry: &BumbleRegistry, name: &str) -> (res: bool)
    ensures
        res == spec_is_bumble(registry@, name@),
{
    str_eq(name, "_bumble") || registry.contains(name)
}

/// Grants `name` a temporary bumbleship.
pub fn add_temporary_bumble(registry: &mut BumbleRegistry, name: &str)
    requires
        old(registry).wf(),
    ensures
        final(registry).wf(),
        final(registry)@ == old(registry)@.insert(name@),
{
    match registry.position(name) {
        Some(i) => {
            assert(registry@ =~= old(registry)@.insert(name@)) by {
                assert(registry.names@[i as int]@ == name@);
            }
        },
        None => {
            let ghost before = registry.names@;
            registry.names.push(String::from_str(name));
            assert(registry.names@[before.len() as int]@ == name@);
            assert forall|n: Seq<char>| registry@.contains(n) == old(registry)@.insert(name@).contains(n) by {
                if old(registry)@.contains(n) {
                    let k = choose|k: int| 0 <= k < before.len() && before[k]@ == n;
                    assert(registry.names@[k]@ == n);
                }
                if registry@.contains(n) && n != name@ {
                    let k = choose|k: int| 0 <= k < registry.names@.len() && registry.names@[k]@ == n;
                    assert(before[k]@ == n);
                }
            }
            assert(registry@ =~= old(registry)@.insert(name@));
        },
    }
}

/// Takes a temporary bumbleship away from `name` ("_bumble" stays a bumble
/// regardless).
pub fn remove_temporary_bumble(registry: &mut BumbleRegistry, name: &str)
    requires
        old(registry).wf(),
    ensures
        final(registry).wf(),
        final(registry)@ == old(registry)@.remove(name@),
{
    match registry.position(name) {
        None => {
            assert(registry@ =~= old(registry)@.remove(name@));
        },
        Some(i) => {
            let ghost before = registry.names@;
            registry.names.remove(i);
            assert forall|n: Seq<char>| registry@.contains(n) == old(registry)@.remove(name@).contains(n) by {
                if old(registry)@.contains(n) && n != name@ {
                    let k = choose|k: int| 0 <= k < before.len() && before[k]@ == n;
                    if k < i {
                        assert(registry.names@[k]@ == n);
                    } else {
                        assert(k != i);
                        assert(registry.names@[k - 1]@ == n);
                    }
                }
                if registry@.contains(n) {
                    let k = choose|k: int| 0 <= k < registry.names@.len() && registry.names@[k]@ == n;
                    if k < i {
                        assert(before[k]@ == n);
                        assert(n != name@);
                    } else {
                        assert(before[k + 1]@ == n);
                        assert(n != name@);
                    }
                }
            }
            assert(registry@ =~= old(registry)@.remove(name@));
        },
    }
}

/// After `add_temporary_bumble(name)`, `name` is a bumble; after
/// `remove_temporary_bumble(name)`, it is one only when it is "_bumble";
/// neither changes whether any other name is a bumble.
pub proof fn lemma_bumbleship(before: Set<Seq<char>>, name: Seq<char>, other: Seq<char>)
    requires
        other != name,
    ensures
        before.insert(name).contains(name),
        !before.remove(name).contains(name),
        before.insert(name).contains(other) == before.contains(other),
        before.remove(name).contains(other) == before.contains(other),
{
}

/// The temporary bumbleships after grants (`true`, as by
/// `add_temporary_bumble`) and removals (`false`, as by
/// `remove_temporary_bumble`) of names, in turn, starting from `start`.
pub open spec fn bumbles_after(start: Set<Seq<char>>, calls: Seq<(bool, Seq<char>)>) -> Set<Seq<char>>
    decreases calls.len(),
{
    if calls.len() == 0 {
        start
    } else {
        let prev = bumbles_after(start, calls.drop_last());
        if calls.last().0 {
            prev.insert(calls.last().1)
        } else {
            prev.remove(calls.last().1)
        }
    }
}

/// Whether the last of `calls` that names `name` was a grant; `None` when
/// none names it.
pub open spec fn last_call_for(calls: Seq<(bool, Seq<char>)>, name: Seq<char>) -> Option<bool>
    decreases calls.len(),
{
    if calls.len() == 0 {
        None
    } else if calls.last().1 == name {
        Some(calls.last().0)
    } else {
        last_call_for(calls.drop_last(), name)
    }
}

/// After any grants and removals since start-up (an empty registry), a name
/// is a bumble exactly when it is "_bumble" or the last of those calls that
/// names it was a grant: calls for other names do not matter. From any
/// starting registry, a name none of the calls names keeps its standing.
pub proof fn lemma_bumbles_after_calls(start: Set<Seq<char>>, calls: Seq<(bool, Seq<char>)>, name: Seq<char>)
    ensures
        bumbles_after(start, calls).contains(name) == match last_call_for(calls, name) {
            Some(granted) => granted,
            None => start.contains(name),
        },
        spec_is_bumble(bumbles_after(Set::empty(), calls), name) == (name == permanent_bumble()
            || last_call_for(calls, name) == Some(true)),
    decreases calls.len(),
{
    if calls.len() > 0 {
        lemma_bumbles_after_calls(start, calls.drop_last(), name);
        lemma_bumbles_after_calls(Set::empty(), calls.drop_last(), name);
    }
}

} // verus!
