use diplomacygm::board::BoardInfo;
use diplomacygm::config::{add_temporary_bumble, is_bumble, BumbleRegistry};
use diplomacygm::fishing::{
    advice, advice_message, bumble, bumble_word, cheat, cheat_message, fish, fish_catch, fish_message, phish,
    ping_message, FishCatch, FishKind, ADVICES, FISH_OPTIONS, PING_TEXT_CHOICES, RARE_FISH,
};
use diplomacygm::manager::Manager;
use std::sync::Arc;

fn manager_with_game(server: u64) -> Manager {
    let mut m = Manager::new();
    let info = BoardInfo {
        name: String::from("Empty"),
        players: Vec::new(),
        name_to_info: Vec::new(),
        datafile: String::from("empty.json"),
    };
    m.create_game(&server, Arc::new(info));
    m
}

fn total_in(msg: &str) -> i64 {
    let start = msg.find("In total, ").unwrap() + "In total, ".len();
    let rest = &msg[start..];
    let end = rest.find(' ').unwrap();
    rest[..end].parse().unwrap()
}

#[test]
fn catches_by_roll() {
    let c = fish_catch(0, false, false, false, 10, 3);
    assert!(c == FishCatch { kind: FishKind::Rare, count: 0, change: 10, debumblify: false });
    let c = fish_catch(1, false, false, false, 10, 3);
    assert!(c == FishCatch { kind: FishKind::Caught, count: 1, change: 1, debumblify: false });
    let c = fish_catch(15, false, false, false, 10, 3);
    assert!(c == FishCatch { kind: FishKind::Caught, count: 8, change: 8, debumblify: false });
    let c = fish_catch(16, false, false, false, 10, 3);
    assert!(c == FishCatch { kind: FishKind::Lost, count: 2, change: -2, debumblify: false });
    let c = fish_catch(19, false, false, false, 10, 3);
    assert!(c == FishCatch { kind: FishKind::Lost, count: 1, change: -1, debumblify: false });
}

#[test]
fn a_bumbles_luck() {
    let c = fish_catch(1, true, true, false, 10, 3);
    assert!(c.kind == FishKind::Rare);
    let c = fish_catch(18, true, true, false, 10, 3);
    assert!(c == FishCatch { kind: FishKind::Caught, count: 7, change: 7, debumblify: false });
    let c = fish_catch(16, true, false, false, 10, 4);
    assert!(c == FishCatch { kind: FishKind::Lost, count: 8, change: -8, debumblify: false });
    let c = fish_catch(16, true, false, true, 13, 4);
    assert!(c == FishCatch { kind: FishKind::Lost, count: 13, change: -13, debumblify: true });
}

#[test]
fn fishing_messages() {
    let c = FishCatch { kind: FishKind::Caught, count: 3, change: 3, debumblify: false };
    assert_eq!(fish_message(&c, "x", "🐟🐠", 12), "Caught 3 fish! 🐟🐠\nIn total, 12 fish have been caught!");
    let c = FishCatch { kind: FishKind::Rare, count: 0, change: 10, debumblify: false };
    assert_eq!(fish_message(&c, "🦈", "y", 10), "**Caught a rare fish!** 🦈\nIn total, 10 fish have been caught!");
    let c = FishCatch { kind: FishKind::Lost, count: 2, change: -2, debumblify: true };
    assert_eq!(
        fish_message(&c, "x", "y", -2),
        "Your luck has run out! Accidentally let 2 captured fish sneak away :(\nIn total, -2 fish have been caught!\nBumble is sad, you must once again prove your worth by Bumbling!"
    );
}

#[test]
fn going_fishing_changes_the_total() {
    let mut m = manager_with_game(5);
    let mut registry = BumbleRegistry::new();
    let msg = fish(&mut m, &mut registry, 5, "alice");
    let total = total_in(&msg);
    assert!((-2..=10).contains(&total));
    assert_eq!(m.change_fish(5, 0), total);
    assert!(msg.starts_with("Caught ") || msg.starts_with("**Caught a rare fish!** ") || msg.starts_with("Accidentally let "));
    if msg.starts_with("**Caught a rare fish!** ") {
        assert!(RARE_FISH.iter().any(|f| msg.contains(f)));
    }
}

#[test]
fn many_fishing_trips() {
    let mut m = manager_with_game(6);
    let mut registry = BumbleRegistry::new();
    add_temporary_bumble(&mut registry, "bob");
    for _ in 0..50 {
        let msg = fish(&mut m, &mut registry, 6, "bob");
        assert_eq!(total_in(&msg), m.change_fish(6, 0));
        if msg.starts_with("Your luck has run out!") {
            assert!(!is_bumble(&registry, "bob"));
        }
    }
}

#[test]
fn bumbling() {
    assert_eq!(bumble_word("bumble", false, false), (String::from("You are the chosen bumble"), true));
    assert_eq!(bumble_word("lebmub", true, true), (String::from("You are the chosen bumble"), true));
    assert_eq!(bumble_word("elbmub", false, false), (String::from("elbmub nesohc eht era uoY"), false));
    assert_eq!(bumble_word("mubble", true, false), (String::from("mubble"), false));
}

#[test]
fn bumbling_costs_a_fish() {
    let mut m = manager_with_game(2);
    let mut registry = BumbleRegistry::new();
    let msg = bumble(&mut m, &mut registry, 2, "carol");
    assert_eq!(m.change_fish(2, 0), -1);
    if msg == "You are the chosen bumble" {
        assert!(is_bumble(&registry, "carol"));
    } else if msg != "elbmub nesohc eht era uoY" {
        let mut letters: Vec<char> = msg.chars().collect();
        letters.sort();
        let mut expected: Vec<char> = "bumble".chars().collect();
        expected.sort();
        assert_eq!(letters, expected);
    }
}

#[test]
fn phishing() {
    let registry = BumbleRegistry::new();
    assert_eq!(phish(&registry, "dave"), "No! Phishing is bad!");
    assert_eq!(
        phish(&registry, "_bumble"),
        "Please provide your firstborn pet and your soul for a chance at winning your next game!"
    );
}

#[test]
fn cheating() {
    assert_eq!(cheat_message(false, "Eve", 3), "Cheating is disabled for this user.");
    assert_eq!(
        cheat_message(true, "Eve", 0),
        "Here's a helpful message I stole from the spectator chat: \n\"It looks like Eve is getting coalitioned this turn :cry:\""
    );
    assert_eq!(cheat_message(true, "Eve", 9), "Here's a helpful message I stole from the spectator chat: \n\".bumble\"");
    let registry = BumbleRegistry::new();
    assert_eq!(cheat(&registry, "eve", "Eve"), "Cheating is disabled for this user.");
    let msg = cheat(&registry, "_bumble", "Bumble");
    assert!(msg.starts_with("Here's a helpful message I stole from the spectator chat: \n\""));
}

#[test]
fn advising() {
    assert_eq!(
        advice_message(true, 3, 2),
        "Bumble suggests that you go fishing, although typically blasphemous, today is your lucky day!"
    );
    assert_eq!(advice_message(false, 0, 6), "Kwiksand suggests winning.");
    assert_eq!(advice_message(false, 1, 6), "You are not worthy of advice.");
    let registry = BumbleRegistry::new();
    let msg = advice(&registry, "frank");
    assert!(msg == "You are not worthy of advice." || ADVICES.contains(&msg.as_str()));
}

#[test]
fn pinging() {
    assert_eq!(ping_message(false, "Gus", 0, None), "Beep Boop");
    assert_eq!(ping_message(true, "Gus", 0, None), "Gus proudly states nothing");
    assert_eq!(
        ping_message(true, "Gus", 2, Some(String::from("cheese"))),
        format!("Gus {} cheese", PING_TEXT_CHOICES[2])
    );
}

#[test]
fn caught_fish_are_ordinary_fish() {
    let mut m = manager_with_game(8);
    let mut registry = BumbleRegistry::new();
    for _ in 0..40 {
        let msg = fish(&mut m, &mut registry, 8, "dora");
        if msg.starts_with("Caught ") {
            let first = msg.lines().next().unwrap();
            let rest = &first[first.find("fish! ").unwrap() + "fish! ".len()..];
            let count: usize = first["Caught ".len()..].split(' ').next().unwrap().parse().unwrap();
            let mut left = rest;
            let mut seen = 0;
            while !left.is_empty() {
                let name = FISH_OPTIONS.iter().map(|o| o.0).find(|f| left.starts_with(f)).unwrap();
                left = &left[name.len()..];
                seen += 1;
            }
            assert_eq!(seen, count);
        }
    }
}
