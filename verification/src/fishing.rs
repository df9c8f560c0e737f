use rand::seq::{IndexedRandom, SliceRandom};
use vstd::prelude::*;

use crate::config::{add_temporary_bumble, is_bumble, permanent_bumble, spec_is_bumble, remove_temporary_bumble, BumbleRegistry};
use crate::manager::Manager;
use crate::support::push_char;
use crate::text::{i64_to_text, signed_decimal};

verus! {

/// `rand::random_range(lo..hi)`: a number drawn from `lo..hi`.
#[verifier::external_body]
fn random_range(lo: u32, hi: u32) -> (res: u32)
    requires
        lo < hi,
    ensures
        lo <= res < hi,
{
    rand::random_range(lo..hi)
}

/// The sum of the weights of `options`.
pub open spec fn weight_total(options: Seq<(&str, u32)>) -> int
    decreases options.len(),
{
    if options.len() == 0 {
        0
    } else {
        weight_total(options.drop_last()) + options.last().1
    }
}

/// `IndexedRandom::choose_weighted`: one of the options, drawn with
/// probability proportional to its weight. The weights are summed as `u32`
/// (`WeightedIndex::new`), so their total must fit in one.
#[verifier::external_body]
fn choose_weighted<'a>(options: &'a [(&'a str, u32)]) -> (res: &'a str)
    requires
        options@.len() > 0,
        forall|i: int| 0 <= i < options@.len() ==> options@[i].1 > 0,
        weight_total(options@) <= u32::MAX,
    ensures
        options@.map_values(|o: (&str, u32)| o.0).contains(res),
{
    options.choose_weighted(&mut rand::rng(), |item| item.1).unwrap().0
}

/// `SliceRandom::shuffle`: the same letters in a random order.
#[verifier::external_body]
fn shuffle_letters(letters: &mut Vec<char>)
    ensures
        final(letters)@.to_multiset() == old(letters)@.to_multiset(),
        final(letters)@.len() == old(letters)@.len(),
{
    letters.shuffle(&mut rand::rng());
}

/// The rare catches.
pub const RARE_FISH: [&'static str; 14] = [
    ":dolphin:",
    ":shark:",
    ":duck:",
    ":goose:",
    ":dodo:",
    ":flamingo:",
    ":penguin:",
    ":unicorn:",
    ":swan:",
    ":whale:",
    ":seal:",
    ":sheep:",
    ":sloth:",
    ":hippopotamus:",
];

/// The ordinary catches, and how often each is caught relative to the others.
pub const FISH_OPTIONS: [(&'static str, u32); 5] = [
    (":fish:", 8),
    (":tropical_fish:", 4),
    (":blowfish:", 2),
    (":jellyfish:", 1),
    (":shrimp:", 2),
];

/// How a fishing trip went.
#[derive(Debug, Clone, Copy, PartialEq, Eq, Structural)]
pub enum FishKind {
    Rare,
    Caught,
    Lost,
}

/// The outcome of a fishing trip: its kind, the number of fish it reports,
/// the change to the server's fish, and whether the fisher loses a temporary
/// bumbleship.
#[derive(Debug, Clone, Copy, PartialEq, Eq, Structural)]
pub struct FishCatch {
    pub kind: FishKind,
    pub count: i64,
    pub change: i64,
    pub debumblify: bool,
}

/// The roll after a bumble's luck: a lucky bumble turns a 1 into a 0 and
/// takes 5 off rolls above 15.
pub open spec fn lucky_roll(roll: int, bumble: bool, lucky: bool) -> int {
    if bumble && lucky {
        if roll == 1 {
            0
        } else if roll > 15 {
            roll - 5
        } else {
            roll
        }
    } else {
        roll
    }
}

/// The outcome of a fishing trip, given the draws: `roll` from 0..20,
/// whether a bumble's luck holds (1 chance in 10), whether a losing bumble
/// slips (1 chance in 20), how many fish a slip loses (10..20) and a
/// losing bumble's loss factor (3..10). A roll of 0 catches a rare fish
/// (+10); rolls 1 to 15 catch (roll + 1) / 2 fish; higher rolls lose
/// (21 - roll) / 2 fish, times the loss factor for a bumble, or the slip
/// amount when a bumble slips, who then loses the bumbleship.
pub open spec fn spec_fish_catch(
    roll: int,
    bumble: bool,
    lucky: bool,
    slip: bool,
    slip_amount: int,
    loss_factor: int,
) -> FishCatch {
    let n = lucky_roll(roll, bumble, lucky);
    if n == 0 {
        FishCatch { kind: FishKind::Rare, count: 0, change: 10, debumblify: false }
    } else if 1 <= n < 16 {
        let m = (n + 1) / 2;
        FishCatch { kind: FishKind::Caught, count: m as i64, change: m as i64, debumblify: false }
    } else {
        let base = (21 - n) / 2;
        let m = if bumble {
            if slip {
                slip_amount
            } else {
                base * loss_factor
            }
        } else {
            base
        };
        FishCatch {
            kind: FishKind::Lost,
            count: m as i64,
            change: (-m) as i64,
            debumblify: bumble && slip,
        }
    }
}

/// A roll from 1 to 15 that luck leaves as it is catches fish: half the
/// roll, rounded up (so rolls 2k - 1 and 2k both catch k fish), and the
/// server gains exactly the fish caught; nobody loses a bumbleship.
pub proof fn lemma_ordinary_catch(
    roll: int,
    bumble: bool,
    lucky: bool,
    slip: bool,
    slip_amount: int,
    loss_factor: int,
)
    requires
        1 <= roll <= 15,
        !(bumble && lucky && roll == 1),
    ensures
        ({
            let c = spec_fish_catch(roll, bumble, lucky, slip, slip_amount, loss_factor);
            &&& c.kind == FishKind::Caught
            &&& c.count == c.change
            &&& roll <= 2 * c.count <= roll + 1
            &&& !c.debumblify
        }),
        roll % 2 == 1 && roll < 15 ==> spec_fish_catch(roll, bumble, lucky, slip, slip_amount, loss_factor)
            == spec_fish_catch(roll + 1, bumble, lucky, slip, slip_amount, loss_factor),
{
}

/// Decides a fishing trip from its draws (see `spec_fish_catch`).
pub fn fish_catch(
    roll: u32,
    bumble: bool,
    lucky: bool,
    slip: bool,
    slip_amount: u32,
    loss_factor: u32,
) -> (res: FishCatch)
    requires
        roll < 20,
        10 <= slip_amount < 20,
        3 <= loss_factor < 10,
    ensures
        res == spec_fish_catch(
            roll as int,
            bumble,
            lucky,
            slip,
            slip_amount as int,
            loss_factor as int,
        ),
        -19 <= res.change <= 10,
        0 <= res.count <= 19,
{
    let mut n: i64 = roll as i64;
    if bumble && lucky {
        if n == 1 {
            n = 0;
        } else if n > 15 {
            n = n - 5;
        }
    }
    if n == 0 {
        FishCatch { kind: FishKind::Rare, count: 0, change: 10, debumblify: false }
    } else if 1 <= n && n < 16 {
        let m = (n + 1) / 2;
        FishCatch { kind: FishKind::Caught, count: m, change: m, debumblify: false }
    } else {
        let base = (21 - n) / 2;
        let mut debumblify = false;
        let m = if bumble {
            if slip {
                debumblify = true;
                slip_amount as i64
            } else {
                let lf = loss_factor as i64;
                assert(0 <= base <= 2);
                assert(0 <= base * lf <= 18) by (nonlinear_arith)
                    requires
                        0 <= base <= 2,
                        3 <= lf < 10,
                ;
                base * lf
            }
        } else {
            base
        };
        FishCatch { kind: FishKind::Lost, count: m, change: -m, debumblify }
    }
}

/// The text of a fishing trip: what was caught (with the rare fish, or the
/// ordinary fish, drawn) or lost, then the new total; a fisher who slipped
/// is also told the bumbleship is gone.
pub open spec fn fish_text(c: FishCatch, rare: Seq<char>, caught: Seq<char>, total: int) -> Seq<char> {
    let head = match c.kind {
        FishKind::Rare => "**Caught a rare fish!** "@ + rare,
        FishKind::Caught => "Caught "@ + signed_decimal(c.count as int) + " fish! "@ + caught,
        FishKind::Lost => "Accidentally let "@ + signed_decimal(c.count as int)
            + " captured fish sneak away :("@,
    };
    let body = head + "\nIn total, "@ + signed_decimal(total) + " fish have been caught!"@;
    if c.debumblify {
        "Your luck has run out! "@ + body
            + "\nBumble is sad, you must once again prove your worth by Bumbling!"@
    } else {
        body
    }
}

/// The message for a fishing trip. `rare` is the rare fish drawn (used for
/// a rare catch), `caught` the ordinary fish drawn, one after the other
/// (used for a catch), `total` the server's fish afterwards.
pub fn fish_message(c: &FishCatch, rare: &str, caught: &str, total: i64) -> (res: String)
    ensures
        res@ == fish_text(*c, rare@, caught@, total as int),
{
    let mut msg = String::new();
    match c.kind {
        FishKind::Rare => {
            msg.append("**Caught a rare fish!** ");
            msg.append(rare);
        },
        FishKind::Caught => {
            msg.append("Caught ");
            msg.append(i64_to_text(c.count).as_str());
            msg.append(" fish! ");
            msg.append(caught);
        },
        FishKind::Lost => {
            msg.append("Accidentally let ");
            msg.append(i64_to_text(c.count).as_str());
            msg.append(" captured fish sneak away :(");
        },
    }
    msg.append("\nIn total, ");
    msg.append(i64_to_text(total).as_str());
    msg.append(" fish have been caught!");
    if c.debumblify {
        let mut out = String::from_str("Your luck has run out! ");
        out.append(msg.as_str());
        out.append("\nBumble is sad, you must once again prove your worth by Bumbling!");
        assert(out@ =~= fish_text(*c, rare@, caught@, total as int));
        out
    } else {
        assert(msg@ =~= fish_text(*c, rare@, caught@, total as int));
        msg
    }
}

/// The fish of a server's game, when it has one.
pub open spec fn server_fish(m: Manager, server_id: u64) -> int {
    m.games()[server_id].fish_count() as int
}

/// The rare fish at position `i` of `RARE_FISH`.
pub open spec fn rare_fish_name(i: int) -> Seq<char> {
    RARE_FISH@[i]@
}

/// The ordinary fish at the positions `picks` of `FISH_OPTIONS`, one after
/// the other.
pub open spec fn caught_fish(picks: Seq<int>) -> Seq<char>
    decreases picks.len(),
{
    if picks.len() == 0 {
        Seq::empty()
    } else {
        caught_fish(picks.drop_last()) + FISH_OPTIONS@[picks.last()].0@
    }
}

/// Goes fishing in a server's game for `author`: draws a roll and, for a
/// bumble, its luck, decides the catch (see `spec_fish_catch`), changes the
/// server's fish by it, takes the bumbleship away after a slip, and returns
/// the message, naming one of `RARE_FISH` for a rare catch and, for a
/// catch, as many of `FISH_OPTIONS` as were caught. The server must have a
/// game whose fish total leaves room for any catch.
pub fn fish(manager: &mut Manager, registry: &mut BumbleRegistry, server_id: u64, author: &str) -> (res: String)
    requires
        old(manager).wf(),
        old(registry).wf(),
        old(manager).games().contains_key(server_id),
        i64::MIN + 19 <= server_fish(*old(manager), server_id) <= i64::MAX - 10,
    ensures
        final(manager).wf(),
        final(registry).wf(),
        exists|roll: int, lucky: bool, slip: bool, slip_amount: int, loss_factor: int, rare_index: int, picks: Seq<int>|
            #![trigger fish_text(spec_fish_catch(roll, spec_is_bumble(old(registry)@, author@), lucky, slip, slip_amount, loss_factor), rare_fish_name(rare_index), caught_fish(picks), server_fish(*final(manager), server_id))]
            {
                let c = spec_fish_catch(roll, spec_is_bumble(old(registry)@, author@), lucky, slip, slip_amount, loss_factor);
                &&& 0 <= roll < 20
                &&& 10 <= slip_amount < 20
                &&& 3 <= loss_factor < 10
                &&& 0 <= rare_index < 14
                &&& picks.len() == (if c.kind == FishKind::Caught { c.count as int } else { 0 })
                &&& forall|j: int| 0 <= j < picks.len() ==> 0 <= #[trigger] picks[j] < 5
                &&& server_fish(*final(manager), server_id) == server_fish(*old(manager), server_id)
                    + c.change
                &&& (c.debumblify ==> final(registry)@ == old(registry)@.remove(author@))
                &&& (!c.debumblify ==> final(registry)@ == old(registry)@)
                &&& res@ == fish_text(c, rare_fish_name(rare_index), caught_fish(picks), server_fish(*final(manager), server_id))
            },
{
    let roll = random_range(0, 20);
    let bumble = is_bumble(registry, author);
    let lucky = bumble && random_range(0, 10) == 0;
    let slip = random_range(0, 20) == 0;
    let slip_amount = random_range(10, 20);
    let loss_factor = random_range(3, 10);
    let c = fish_catch(roll, bumble, lucky, slip, slip_amount, loss_factor);
    let rare_fish = RARE_FISH;
    let rare_index = random_range(0, 14);
    let rare = rare_fish[rare_index as usize];
    let mut caught = String::new();
    let ghost mut picks: Seq<int> = Seq::empty();
    if c.kind == FishKind::Caught {
        let options = FISH_OPTIONS;
        proof {
            assert(options@[0].1 == 8 && options@[1].1 == 4 && options@[2].1 == 2 && options@[3].1 == 1
                && options@[4].1 == 2);
            reveal_with_fuel(weight_total, 6);
            assert(options@.drop_last().drop_last().drop_last().drop_last().drop_last().len() == 0);
            assert(weight_total(options@) == 17);
        }
        let mut k: i64 = 0;
        while k < c.count
            invariant
                0 <= k <= c.count,
                options@ == FISH_OPTIONS@,
                weight_total(options@) == 17,
                picks.len() == k,
                forall|j: int| 0 <= j < picks.len() ==> 0 <= #[trigger] picks[j] < 5,
                caught@ == caught_fish(picks),
            decreases c.count - k,
        {
            assert(options@[0].1 == 8 && options@[1].1 == 4 && options@[2].1 == 2 && options@[3].1 == 1
                && options@[4].1 == 2);
            let fish = choose_weighted(&options);
            let ghost names = options@.map_values(|o: (&str, u32)| o.0);
            let ghost j = choose|j: int| 0 <= j < names.len() && names[j] == fish;
            let ghost before = caught@;
            caught.append(fish);
            proof {
                assert(names[j] == options@[j].0);
                let np = picks.push(j);
                assert(np.drop_last() =~= picks);
                assert(caught@ =~= caught_fish(np));
                picks = np;
            }
            k = k + 1;
        }
    }
    let total = manager.change_fish(server_id, c.change);
    if c.debumblify {
        remove_temporary_bumble(registry, author);
    }
    let msg = fish_message(&c, rare, caught.as_str(), total);
    proof {
        let bumble_v = spec_is_bumble(old(registry)@, author@);
        assert(bumble == bumble_v);
        assert(spec_fish_catch(roll as int, bumble_v, lucky, slip, slip_amount as int, loss_factor as int) == c);
        assert(rare@ == rare_fish_name(rare_index as int));
        assert(msg@ == fish_text(
            spec_fish_catch(roll as int, bumble_v, lucky, slip, slip_amount as int, loss_factor as int),
            rare_fish_name(rare_index as int),
            caught_fish(picks),
            server_fish(*manager, server_id),
        ));
    }
    msg
}


/// The letters of "bumble".
pub open spec fn bumble_letters() -> Seq<char> {
    seq!['b', 'u', 'm', 'b', 'l', 'e']
}

/// The reply to `.bumble` for a shuffled word: a bumble whose luck holds
/// gets "bumble" whatever the shuffle; "bumble" makes the author the chosen
/// bumble (the second component says so), "elbmub" gets the reversed
/// message, any other word is echoed.
pub open spec fn bumble_outcome(shuffled: Seq<char>, bumble: bool, lucky: bool) -> (Seq<char>, bool) {
    let word = if bumble && lucky {
        "bumble"@
    } else {
        shuffled
    };
    if word == "bumble"@ {
        ("You are the chosen bumble"@, true)
    } else if word == "elbmub"@ {
        ("elbmub nesohc eht era uoY"@, false)
    } else {
        (word, false)
    }
}

/// Decides the reply to `.bumble` (see `bumble_outcome`).
pub fn bumble_word(shuffled: &str, bumble: bool, lucky: bool) -> (res: (String, bool))
    ensures
        (res.0@, res.1) == bumble_outcome(shuffled@, bumble, lucky),
{
    let word: &str = if bumble && lucky {
        "bumble"
    } else {
        shuffled
    };
    if crate::support::str_eq(word, "bumble") {
        (String::from_str("You are the chosen bumble"), true)
    } else if crate::support::str_eq(word, "elbmub") {
        (String::from_str("elbmub nesohc eht era uoY"), false)
    } else {
        (String::from_str(word), false)
    }
}

/// `.bumble`: shuffles the letters of "bumble" (a bumble's luck, 1 chance
/// in 10, makes it "bumble"), makes the author the chosen bumble when the
/// word comes out as "bumble", costs the server one fish, and returns the
/// reply. The server must have a game with a fish to spare.
pub fn bumble(manager: &mut Manager, registry: &mut BumbleRegistry, server_id: u64, author: &str) -> (res: String)
    requires
        old(manager).wf(),
        old(registry).wf(),
        old(manager).games().contains_key(server_id),
        i64::MIN + 1 <= server_fish(*old(manager), server_id),
    ensures
        final(manager).wf(),
        final(registry).wf(),
        server_fish(*final(manager), server_id) == server_fish(*old(manager), server_id) - 1,
        exists|shuffled: Seq<char>, lucky: bool|
            #![trigger bumble_outcome(shuffled, spec_is_bumble(old(registry)@, author@), lucky)]
            {
                let o = bumble_outcome(shuffled, spec_is_bumble(old(registry)@, author@), lucky);
                &&& shuffled.to_multiset() == bumble_letters().to_multiset()
                &&& res@ == o.0
                &&& (o.1 ==> final(registry)@ == old(registry)@.insert(author@))
                &&& (!o.1 ==> final(registry)@ == old(registry)@)
            },
{
    let mut letters: Vec<char> = Vec::new();
    letters.push('b');
    letters.push('u');
    letters.push('m');
    letters.push('b');
    letters.push('l');
    letters.push('e');
    assert(letters@ =~= bumble_letters());
    shuffle_letters(&mut letters);
    let mut word = String::new();
    let mut i: usize = 0;
    while i < letters.len()
        invariant
            i <= letters@.len(),
            word@ == letters@.subrange(0, i as int),
        decreases letters@.len() - i,
    {
        push_char(&mut word, letters[i]);
        assert(letters@.subrange(0, i + 1) =~= letters@.subrange(0, i as int).push(letters@[i as int]));
        i = i + 1;
    }
    assert(letters@.subrange(0, i as int) =~= letters@);
    let is_b = is_bumble(registry, author);
    let lucky = is_b && random_range(0, 10) == 0;
    let (msg, chosen) = bumble_word(word.as_str(), is_b, lucky);
    if chosen {
        add_temporary_bumble(registry, author);
    }
    manager.change_fish(server_id, -1);
    proof {
        let o = bumble_outcome(word@, spec_is_bumble(old(registry)@, author@), lucky);
        assert(o.0 == msg@);
    }
    msg
}

/// The reply to `.phish`.
pub open spec fn phish_text(bumble: bool) -> Seq<char> {
    if bumble {
        "Please provide your firstborn pet and your soul for a chance at winning your next game!"@
    } else {
        "No! Phishing is bad!"@
    }
}

/// `.phish`: a bumble is offered a deal, anyone else is told off.
pub fn phish(registry: &BumbleRegistry, author: &str) -> (res: String)
    ensures
        res@ == phish_text(spec_is_bumble(registry@, author@)),
{
    if is_bumble(registry, author) {
        String::from_str(
            "Please provide your firstborn pet and your soul for a chance at winning your next game!",
        )
    } else {
        String::from_str("No! Phishing is bad!")
    }
}

/// The overheard remarks `.cheat` picks from, about the author `nick`.
pub open spec fn cheat_source(nick: Seq<char>, i: int) -> Seq<char> {
    if i == 0 {
        "It looks like "@ + nick + " is getting coalitioned this turn :cry:"@
    } else if i == 1 {
        nick + " is talking about stabbing todo again"@
    } else if i == 2 {
        "looks like he's throwing to "@ + nick + "... shame"@
    } else if i == 3 {
        "yeah"@
    } else if i == 4 {
        "People in this game are not voiding enough"@
    } else if i == 5 {
        "I can't believe "@ + nick + " is moving to todo"@
    } else if i == 6 {
        nick + " has a bunch of invalid orders"@
    } else if i == 7 {
        "No one noticed that "@ + nick + " overbuilt?"@
    } else if i == 8 {
        "todo is in a perfect position to stab "@ + nick
    } else {
        ".bumble"@
    }
}

/// The reply to `.cheat`: for a bumble, remark `index` (of 10) quoted;
/// else a refusal.
pub open spec fn cheat_text(bumble: bool, nick: Seq<char>, index: int) -> Seq<char> {
    if bumble {
        "Here's a helpful message I stole from the spectator chat: \n\""@ + cheat_source(nick, index)
            + "\""@
    } else {
        "Cheating is disabled for this user."@
    }
}

/// Builds the reply to `.cheat` for the remark `index` (see `cheat_text`).
pub fn cheat_message(bumble: bool, nick: &str, index: u32) -> (res: String)
    requires
        index < 10,
    ensures
        res@ == cheat_text(bumble, nick@, index as int),
{
    if !bumble {
        return String::from_str("Cheating is disabled for this user.");
    }
    let mut s = String::new();
    if index == 0 {
        s.append("It looks like ");
        s.append(nick);
        s.append(" is getting coalitioned this turn :cry:");
    } else if index == 1 {
        s.append(nick);
        s.append(" is talking about stabbing todo again");
    } else if index == 2 {
        s.append("looks like he's throwing to ");
        s.append(nick);
        s.append("... shame");
    } else if index == 3 {
        s.append("yeah");
    } else if index == 4 {
        s.append("People in this game are not voiding enough");
    } else if index == 5 {
        s.append("I can't believe ");
        s.append(nick);
        s.append(" is moving to todo");
    } else if index == 6 {
        s.append(nick);
        s.append(" has a bunch of invalid orders");
    } else if index == 7 {
        s.append("No one noticed that ");
        s.append(nick);
        s.append(" overbuilt?");
    } else if index == 8 {
        s.append("todo is in a perfect position to stab ");
        s.append(nick);
    } else {
        s.append(".bumble");
    }
    assert(s@ =~= cheat_source(nick@, index as int));
    let mut out = String::from_str("Here's a helpful message I stole from the spectator chat: \n\"");
    out.append(s.as_str());
    out.append("\"");
    assert(out@ =~= cheat_text(bumble, nick@, index as int));
    out
}

/// `.cheat`: a bumble gets one of the remarks, drawn at random, about
/// `nick` (the author's name on the server); anyone else a refusal.
pub fn cheat(registry: &BumbleRegistry, author: &str, nick: &str) -> (res: String)
    ensures
        exists|index: int| #![trigger cheat_text(spec_is_bumble(registry@, author@), nick@, index)]
            0 <= index < 10 && res@ == cheat_text(spec_is_bumble(registry@, author@), nick@, index),
{
    let bumble = is_bumble(registry, author);
    let index = random_range(0, 10);
    let res = cheat_message(bumble, nick, index);
    assert(res@ == cheat_text(spec_is_bumble(registry@, author@), nick@, index as int));
    res
}

/// The advice `.advice` may give anyone.
pub const ADVICES: [&'static str; 9] = [
    "Bumble was surprised you asked him for advice and wasn't ready to give you any, maybe if you were a true follower...",
    "Icecream demands that you void more and will not be giving any advice until sated.",
    "Salt suggests that stabbing all of your neighbors is a good play in this particular situation.",
    "Ezio points you to an ancient proverb: see dot take dot.",
    "CaptainMeme advises balance of power play at this instance.",
    "Ash Lael deems you a sufficiently apt liar, go use those skills!",
    "Kwiksand suggests winning.",
    "Ambrosius advises taking the opportunity you've been considering, for more will ensue.",
    "The GMs suggest you input your orders so they don't need to hound you for them at the deadline.",
];

/// The reply to `.advice`: a bumble is sent fishing; anyone else gets the
/// advice `index` when the roll (of 5) is 0, else is found unworthy.
pub open spec fn advice_text(bumble: bool, roll: int, index: int) -> Seq<char> {
    if bumble {
        "Bumble suggests that you go fishing, although typically blasphemous, today is your lucky day!"@
    } else if roll == 0 {
        ADVICES@[index]@
    } else {
        "You are not worthy of advice."@
    }
}

/// Builds the reply to `.advice` (see `advice_text`).
pub fn advice_message(bumble: bool, roll: u32, index: u32) -> (res: String)
    requires
        index < 9,
    ensures
        res@ == advice_text(bumble, roll as int, index as int),
{
    if bumble {
        String::from_str(
            "Bumble suggests that you go fishing, although typically blasphemous, today is your lucky day!",
        )
    } else if roll == 0 {
        let advices = ADVICES;
        String::from_str(advices[index as usize])
    } else {
        String::from_str("You are not worthy of advice.")
    }
}

/// `.advice`: draws the roll (1 chance in 5 of advice) and which advice.
pub fn advice(registry: &BumbleRegistry, author: &str) -> (res: String)
    ensures
        exists|roll: int, index: int|
            #![trigger advice_text(spec_is_bumble(registry@, author@), roll, index)]
            0 <= roll < 5 && 0 <= index < 9 && res@ == advice_text(spec_is_bumble(registry@, author@), roll, index),
{
    let bumble = is_bumble(registry, author);
    let roll = random_range(0, 5);
    let index = random_range(0, 9);
    let res = advice_message(bumble, roll, index);
    assert(res@ == advice_text(spec_is_bumble(registry@, author@), roll as int, index as int));
    res
}

/// What the author of a chatty `.ping` is said to do.
pub const PING_TEXT_CHOICES: [&'static str; 3] = [
    "proudly states",
    "fervently believes in the power of",
    "is being mind controlled by",
];

/// The reply to `.ping`: "Beep Boop", or, when chatty, "<name> <choice
/// `index`> <text>" (text "nothing" when none was given).
pub open spec fn ping_text(chatty: bool, name: Seq<char>, index: int, text: Option<Seq<char>>) -> Seq<char> {
    if chatty {
        let content = match text {
            Some(t) => t,
            None => "nothing"@,
        };
        name + " "@ + PING_TEXT_CHOICES@[index]@ + " "@ + content
    } else {
        "Beep Boop"@
    }
}

/// Builds the reply to `.ping` (see `ping_text`).
pub fn ping_message(chatty: bool, name: &str, index: u32, text: Option<String>) -> (res: String)
    requires
        index < 3,
    ensures
        res@ == ping_text(chatty, name@, index as int, match text {
            Some(t) => Some(t@),
            None => None,
        }),
{
    if !chatty {
        return String::from_str("Beep Boop");
    }
    let choices = PING_TEXT_CHOICES;
    let mut s = String::from_str(name);
    s.append(" ");
    s.append(choices[index as usize]);
    s.append(" ");
    match &text {
        Some(t) => s.append(t.as_str()),
        None => s.append("nothing"),
    }
    s
}

} // verus!
