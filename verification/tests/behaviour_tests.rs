use pot::config::{Perms, Reply, Stat};
use pot::helpers::{check_perms, idiot_reply, prompt_util, user_level, Prompt};
use pot::replies::{draw_odds, pick_reply, reply_for, reply_handler};
use pot::status::StatusCycle;

fn strings(v: &[&str]) -> Vec<String> {
    v.iter().map(|s| s.to_string()).collect()
}

fn perms() -> Perms {
    Perms { owners: strings(&["1", "2"]), mods: strings(&["1", "5"]), replies: strings(&["no", "nope"]) }
}

#[test]
fn user_levels() {
    let p = perms();
    assert_eq!(user_level(&p, 1), 2);
    assert_eq!(user_level(&p, 2), 2);
    assert_eq!(user_level(&p, 5), 1);
    assert_eq!(user_level(&p, 3), 0);
}

#[test]
fn check_perms_levels() {
    let p = perms();
    assert!(check_perms(&p, 2, 2));
    assert!(check_perms(&p, 2, 1));
    assert!(check_perms(&p, 1, 2));
    assert!(!check_perms(&p, 5, 2));
    assert!(check_perms(&p, 3, 0));
    assert!(!check_perms(&p, 3, 1));
}

#[test]
fn idiot_reply_comes_from_the_list() {
    let p = perms();
    for _ in 0..20 {
        let r = idiot_reply(&p);
        assert!(r == "no" || r == "nope");
    }
}

#[test]
fn prompt_answers() {
    assert!(matches!(prompt_util(Some("y")), Prompt::Confirmed));
    assert!(matches!(prompt_util(Some("Y")), Prompt::Confirmed));
    assert!(matches!(prompt_util(Some("yes")), Prompt::Canceled));
    assert!(matches!(prompt_util(Some("")), Prompt::Canceled));
    assert!(matches!(prompt_util(None), Prompt::NoAnswer));
    assert_eq!(Prompt::Confirmed.reply_text(), Some("As You Wish..."));
    assert_eq!(Prompt::Canceled.reply_text(), Some("Canceled!"));
    assert_eq!(Prompt::NoAnswer.reply_text(), None);
}

#[test]
fn pick_reply_prefers_a_shared_word() {
    let cands = strings(&["nothing here", "the cat sat", "dogs"]);
    assert_eq!(pick_reply("a cat", &cands, 3, &vec![]), Some(1));
    // blacklisted words do not count
    assert_eq!(pick_reply("x cat", &cands, 3, &strings(&["cat"])), Some(2));
    // a word counts when it occurs anywhere in the reply
    assert_eq!(pick_reply("ho  dog", &cands, 3, &vec![]), Some(2));
}

#[test]
fn pick_reply_sends_the_last_try() {
    let cands = strings(&["x", "y", "z"]);
    assert_eq!(pick_reply("nothing", &cands, 2, &vec![]), Some(1));
    assert_eq!(pick_reply("nothing", &cands, 5, &vec![]), None);
    assert_eq!(pick_reply("nothing", &cands, 0, &vec![]), None);
    assert_eq!(pick_reply("", &vec![], 1, &vec![]), None);
}

fn reply(enable: bool, chance: u8, iterations: u8, url_blacklist: bool, list: &[&str]) -> Reply {
    Reply {
        enable,
        chance,
        iterations,
        url_blacklist,
        match_blacklist: vec![],
        list: strings(list),
        trigger: strings(&["pot", "bot"]),
    }
}

#[test]
fn reply_handler_disabled() {
    assert_eq!(reply_handler(&reply(false, 1, 1, true, &["a"]), "pot"), None);
}

#[test]
fn reply_handler_ignores_links_when_blacklisted() {
    let r = reply(true, 1, 1, true, &["a"]);
    assert_eq!(reply_handler(&r, "  HTTP://example.com pot"), None);
    let r = reply(true, 1, 1, false, &["a"]);
    assert_eq!(reply_handler(&r, "  HTTP://example.com pot"), Some("a".to_string()));
}

#[test]
fn reply_handler_uses_configured_triggers() {
    let r = reply(true, 255, 1, false, &["a"]);
    // "BOT" is a configured trigger once lower-cased
    assert_eq!(reply_handler(&r, "hey BOT"), Some("a".to_string()));
    let mut r2 = reply(true, 255, 1, false, &["a"]);
    r2.trigger = strings(&["zebra"]);
    assert_eq!(pot::replies::reply_for(&r2, "a pot here", false, &strings(&["a"])), None);
    assert_eq!(pot::replies::reply_for(&r2, "a zebra here", false, &strings(&["a"])), Some("a".to_string()));
}

#[test]
fn reply_handler_always_answers_pot() {
    let r = reply(true, 255, 2, true, &["one", "two", "three"]);
    for _ in 0..20 {
        let got = reply_handler(&r, "I like POT").unwrap();
        assert!(r.list.contains(&got));
    }
}

#[test]
fn reply_handler_matches_words() {
    let r = reply(true, 1, 3, true, &["banana split", "apple pie", "cherry"]);
    for _ in 0..20 {
        // "apple" occurs only in one reply, so it is the one sent whenever it comes
        // up before the last try; otherwise the third candidate is sent.
        let got = reply_handler(&r, "APPLE").unwrap();
        assert!(r.list.contains(&got));
    }
}

#[test]
fn status_cycle_in_order() {
    let stat = Stat { enable: true, status_delay: 30, randomize: false, status_list: strings(&["a", "b", "c"]) };
    let mut c = StatusCycle::new(&stat).unwrap();
    let shown: Vec<(String, u16)> = (0..4).map(|_| c.next().unwrap()).collect();
    assert_eq!(
        shown,
        vec![("a".to_string(), 30), ("b".to_string(), 30), ("c".to_string(), 30), ("a".to_string(), 30)]
    );
}

#[test]
fn status_cycle_random_rounds_show_each_status_once() {
    let stat = Stat { enable: true, status_delay: 1, randomize: true, status_list: strings(&["a", "b", "c"]) };
    let mut c = StatusCycle::new(&stat).unwrap();
    for _ in 0..5 {
        let mut round: Vec<String> = (0..3).map(|_| c.next().unwrap().0).collect();
        round.sort();
        assert_eq!(round, strings(&["a", "b", "c"]));
    }
}

#[test]
fn status_cycle_disabled_or_empty() {
    let off = Stat { enable: false, status_delay: 1, randomize: false, status_list: strings(&["a"]) };
    assert!(StatusCycle::new(&off).is_none());
    let empty = Stat { enable: true, status_delay: 1, randomize: true, status_list: vec![] };
    let mut c = StatusCycle::new(&empty).unwrap();
    assert!(c.next().is_none());
}

#[test]
fn reply_for_follows_the_draw() {
    let r = reply(true, 10, 1, true, &["first", "second"]);
    let order = strings(&["second", "first"]);
    assert_eq!(reply_for(&r, "hello there", false, &order), None);
    assert_eq!(reply_for(&r, "hello there", true, &order), Some("second".to_string()));
    assert_eq!(reply_for(&r, "some pot here", false, &order), Some("second".to_string()));
    let off = reply(false, 10, 1, true, &["first"]);
    assert_eq!(reply_for(&off, "pot", true, &strings(&["first"])), None);
    let links = reply(true, 10, 1, true, &["first"]);
    assert_eq!(reply_for(&links, "  http://x pot", true, &strings(&["first"])), None);
}

#[test]
fn draw_is_one_in_chance() {
    assert_eq!(draw_odds(&reply(true, 7, 1, true, &[])), (1, 7));
}
