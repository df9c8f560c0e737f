use vstd::prelude::*;

use crate::config::{is_gm_category, is_gm_channel_name, is_gm_role, spec_is_gm_role};
use crate::support::{push_char, str_eq};

verus! {

/// Whether a member with these role names is a GM: one of the roles is a
/// GM role.
pub fn has_gm_role(roles: &Vec<String>) -> (res: bool)
    ensures
        res == exists|i: int| 0 <= i < roles@.len() && spec_is_gm_role(#[trigger] roles@[i]@),
{
    let mut i: usize = 0;
    while i < roles.len()
        invariant
            i <= roles@.len(),
            forall|j: int| 0 <= j < i ==> !spec_is_gm_role(#[trigger] roles@[j]@),
        decreases roles@.len() - i,
    {
        if is_gm_role(roles[i].as_str()) {
            return true;
        }
        i = i + 1;
    }
    false
}

/// Whether a channel is a GM channel: a GM channel name in a GM category
/// (a channel outside any category is not one).
pub fn is_gm_channel(channel: &str, category: Option<&str>) -> (res: bool)
    ensures
        res == (category is Some && channel@ == "admin-chat"@ && category.unwrap()@ == "gm channels"@),
{
    match category {
        Some(c) => is_gm_channel_name(channel) && is_gm_category(c),
        None => false,
    }
}

/// The game a `create_game` command asks for: the given one, or Imperial
/// Diplomacy by default.
pub fn game_type(command: Option<String>) -> (res: String)
    ensures
        match command {
            Some(g) => res@ == g@,
            None => res@ == "impdip1.1.json"@,
        },
{
    match command {
        Some(g) => g,
        None => String::from_str("impdip1.1.json"),
    }
}

/// What the help command is asked about: when help is invoked through
/// another command, that command (with the rest of the request after it).
pub fn help_topic(invoked: &str, command: Option<String>) -> (res: Option<String>)
    ensures
        invoked@ == "help"@ ==> res == command,
        invoked@ != "help"@ ==> res is Some && match command {
            Some(c) => res->Some_0@ == invoked@ + " "@ + c@,
            None => res->Some_0@ == invoked@,
        },
{
    if str_eq(invoked, "help") {
        return command;
    }
    match command {
        Some(c) => {
            let mut t = invoked.to_owned();
            push_char(&mut t, ' ');
            t.append(c.as_str());
            proof {
                reveal_strlit(" ");
            }
            assert(t@ =~= invoked@ + " "@ + c@);
            Some(t)
        },
        None => Some(invoked.to_owned()),
    }
}

/// The reaction that marks a command as seen: a fish for the fishing
/// commands, a thumbs up otherwise.
pub fn command_reaction(name: &str) -> (res: char)
    ensures
        res == (if name@ == "fish"@ || name@ == "phish"@ {
            '\u{1F41F}'
        } else {
            '\u{1F44D}'
        }),
{
    if str_eq(name, "fish") || str_eq(name, "phish") {
        '\u{1F41F}'
    } else {
        '\u{1F44D}'
    }
}

} // verus!
