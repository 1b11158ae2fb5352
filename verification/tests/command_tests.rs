use pot::commands::{
    command_handler, command_ls, command_rm, command_roll, command_shutdown, command_test,
    command_allowed, command_warn, finish_warn, record_warn, required_level, rm_reply,
    route_message, CommandKind, Route, RollOutcome, WarnDone, WarnTarget,
};
use pot::helpers::Prompt;
use pot::warns::Warns;

fn warn(user: u64, reason: &str, moderator: u64, time: u64) -> Warns {
    Warns { user, reason: reason.to_string(), moderator, time }
}

#[test]
fn command_handler_reads_word_and_argument() {
    let c = command_handler("!rm <@5>").unwrap();
    assert!(c.kind == CommandKind::Rm);
    assert_eq!(c.arg, "<@5>");
    let c = command_handler("!warn <@1> being rude").unwrap();
    assert!(c.kind == CommandKind::Warn);
    assert_eq!(c.arg, "<@1> being rude");
    let c = command_handler("!r 1d6+2").unwrap();
    assert!(c.kind == CommandKind::Roll);
    let c = command_handler("!ls ").unwrap();
    assert!(c.kind == CommandKind::Ls);
    assert_eq!(c.arg, "");
    for (text, kind) in [
        ("!reload x", CommandKind::Reload),
        ("!shutdown now", CommandKind::Shutdown),
        ("!delay 5", CommandKind::Delay),
        ("!test 1", CommandKind::Test),
    ] {
        assert!(command_handler(text).unwrap().kind == kind);
    }
}

#[test]
fn command_word_alone_runs_the_command() {
    let c = command_handler("!ls").unwrap();
    assert!(c.kind == CommandKind::Ls);
    assert_eq!(c.arg, "");
    assert!(command_handler("!test").unwrap().kind == CommandKind::Test);
    assert!(command_handler("!shutdown").unwrap().kind == CommandKind::Shutdown);
    assert!(command_handler("hello").is_none());
    assert!(command_handler("hello world").is_none());
    assert!(command_handler("!lsx a").is_none());
    assert!(command_handler("").is_none());
}

#[test]
fn route_message_ignores_bots_and_gates_commands() {
    let perms = pot::config::Perms {
        owners: vec!["2".to_string()],
        mods: vec!["1".to_string()],
        replies: vec!["no".to_string()],
    };
    assert!(matches!(route_message(true, 2, &perms, "!ls x"), Route::Ignore));
    assert!(matches!(route_message(false, 1, &perms, "!ls x"), Route::Run(c) if c.kind == CommandKind::Ls));
    assert!(matches!(route_message(false, 3, &perms, "!ls"), Route::Refuse));
    assert!(matches!(route_message(false, 1, &perms, "!shutdown"), Route::Refuse));
    assert!(matches!(route_message(false, 2, &perms, "!shutdown"), Route::Run(_)));
    assert!(matches!(route_message(false, 3, &perms, "!r 1d6"), Route::Run(_)));
    assert!(matches!(route_message(false, 3, &perms, "hi pot"), Route::Reply));
}

#[test]
fn command_test_answers_test() {
    assert_eq!(command_test(), "Test");
}

#[test]
fn command_ls_empty_and_full() {
    assert_eq!(command_ls(&vec![]), "No Results!");
    let ws = vec![warn(1, "spam", 2, 0), warn(3, "rude", 4, 86400 + 3600 + 60)];
    assert_eq!(
        command_ls(&ws),
        "User: <@1> \nReason: spam \nModerator: <@2> \nTime: 1970-01-01 00:00\n\n\
         User: <@3> \nReason: rude \nModerator: <@4> \nTime: 1970-01-02 01:01\n\n"
    );
}

#[test]
fn command_ls_last_representable_times() {
    let ws = vec![warn(1, "x", 2, pot::deps::MAX_TIMESTAMP as u64)];
    assert!(command_ls(&ws).ends_with("262142-12-31 23:59\n\n"));
    // a time past i64::MAX is taken as a signed timestamp before 1970
    let ws = vec![warn(1, "x", 2, u64::MAX)];
    assert!(command_ls(&ws).ends_with("1969-12-31 23:59\n\n"));
    let ws = vec![warn(1, "x", 2, pot::deps::MIN_TIMESTAMP as u64)];
    assert!(command_ls(&ws).contains("-01-01 00:00"));
}

#[test]
fn command_rm_removes_every_warning_of_the_user() {
    let mut ws = vec![warn(1, "a", 9, 0), warn(2, "b", 9, 0), warn(1, "c", 9, 0)];
    assert_eq!(command_rm(&mut ws, " <@1> "), Some(1));
    assert_eq!(ws.len(), 1);
    assert_eq!(ws[0].user, 2);
    assert_eq!(command_rm(&mut ws, "<@1>"), Some(1));
    assert_eq!(ws.len(), 1);
}

#[test]
fn command_rm_bad_argument_changes_nothing() {
    let mut ws = vec![warn(1, "a", 9, 0)];
    assert_eq!(command_rm(&mut ws, "someone"), None);
    assert_eq!(ws.len(), 1);
}

#[test]
fn rm_after_warn_leaves_no_trace() {
    let mut ws = vec![warn(7, "a", 9, 0), warn(8, "b", 9, 0)];
    record_warn(&mut ws, 7, "again".to_string(), 9, 5);
    assert_eq!(command_rm(&mut ws, "<@7>"), Some(7));
    assert_eq!(ws.len(), 1);
    assert_eq!(ws[0].user, 8);
}

#[test]
fn rm_reply_text() {
    assert_eq!(rm_reply(42), "Removed <@42> from Warns!");
}

#[test]
fn command_warn_reads_user_and_reason() {
    match command_warn("  <@42> being rude  ") {
        WarnTarget::Target { user, reason } => {
            assert_eq!(user, 42);
            assert_eq!(reason, "being rude");
        }
        WarnTarget::Invalid => panic!("expected a target"),
    }
    match command_warn("bob spam") {
        WarnTarget::Target { user, reason } => {
            assert_eq!(user, 0);
            assert_eq!(reason, "spam");
        }
        WarnTarget::Invalid => panic!("expected a target"),
    }
    assert!(matches!(command_warn("justone"), WarnTarget::Invalid));
    assert!(matches!(command_warn("  "), WarnTarget::Invalid));
}

#[test]
fn record_warn_appends() {
    let mut ws = vec![warn(1, "a", 9, 0)];
    record_warn(&mut ws, 2, "b".to_string(), 3, 4);
    assert_eq!(ws.len(), 2);
    assert_eq!(ws[1].user, 2);
    assert_eq!(ws[1].reason, "b");
    assert_eq!(ws[1].moderator, 3);
    assert_eq!(ws[1].time, 4);
    let text = command_ls(&ws);
    assert!(text.ends_with("User: <@2> \nReason: b \nModerator: <@3> \nTime: 1970-01-01 00:00\n\n"));
}

#[test]
fn command_roll_outcomes() {
    assert!(matches!(command_roll("1d6"), RollOutcome::Rolled(_)));
    assert!(matches!(command_roll("2d6 + 3 - 1d4"), RollOutcome::Rolled(_)));
    assert!(matches!(command_roll("hello"), RollOutcome::Unreadable));
    assert!(matches!(command_roll("4 + 1d4"), RollOutcome::Unreadable));
}

#[test]
fn command_roll_leaves_scaling_rolls_unchecked() {
    for line in ["1d6 / 0", "4 / 0", "2d6/2", "1d1 * 65535 * 65535", "3d6 x 2", "1d6!", "1d6 \u{f7} 3", "1d6+x+2", "2d6 4x2"] {
        assert!(matches!(command_roll(line), RollOutcome::Unchecked), "{}", line);
    }
    let long = format!("1d6{}", " + 1".repeat(100));
    assert!(matches!(command_roll(&long), RollOutcome::Unchecked));
    let short = format!("1d6{}", " + 1".repeat(70));
    assert!(matches!(command_roll(&short), RollOutcome::Rolled(_)));
}

#[test]
fn command_roll_checks_words_and_comments() {
    // signs inside words, or after a comment, are rolled by the library
    assert!(matches!(command_roll("1d20 axe"), RollOutcome::Rolled(_)));
    assert!(matches!(command_roll("1d20 # crit x2! a/0"), RollOutcome::Rolled(_)));
    assert!(matches!(command_roll("box"), RollOutcome::Unreadable));
    assert!(matches!(command_roll("hello!"), RollOutcome::Unreadable));
    let long_comment = format!("1d6 #{}", "x".repeat(500));
    assert!(matches!(command_roll(&long_comment), RollOutcome::Rolled(_)));
}

#[test]
fn command_roll_text_names_the_dice() {
    match command_roll("3d1") {
        RollOutcome::Rolled(text) => assert!(text.contains("3d1")),
        _ => panic!("expected a roll"),
    }
}

#[test]
fn command_shutdown_only_on_confirmation() {
    assert!(command_shutdown(&Prompt::Confirmed));
    assert!(!command_shutdown(&Prompt::Canceled));
    assert!(!command_shutdown(&Prompt::NoAnswer));
}

#[test]
fn levels_needed_by_commands() {
    assert_eq!(required_level(&CommandKind::Ls), 1);
    assert_eq!(required_level(&CommandKind::Rm), 1);
    assert_eq!(required_level(&CommandKind::Warn), 1);
    assert_eq!(required_level(&CommandKind::Shutdown), 2);
    assert_eq!(required_level(&CommandKind::Reload), 2);
    assert_eq!(required_level(&CommandKind::Roll), 0);
    assert_eq!(required_level(&CommandKind::Test), 0);
    assert_eq!(required_level(&CommandKind::Delay), 0);
}

#[test]
fn who_may_run_what() {
    let perms = pot::config::Perms {
        owners: vec!["2".to_string()],
        mods: vec!["1".to_string()],
        replies: vec!["no".to_string()],
    };
    assert!(command_allowed(&perms, 1, &CommandKind::Warn));
    assert!(!command_allowed(&perms, 1, &CommandKind::Shutdown));
    assert!(command_allowed(&perms, 2, &CommandKind::Shutdown));
    assert!(!command_allowed(&perms, 3, &CommandKind::Ls));
    assert!(!command_allowed(&perms, 3, &CommandKind::Rm));
    assert!(command_allowed(&perms, 3, &CommandKind::Roll));
}

#[test]
fn finish_warn_records_only_known_users() {
    let mut ws = vec![warn(1, "a", 9, 0)];
    assert!(matches!(finish_warn(&mut ws, 5, "b".to_string(), 9, 1, false), WarnDone::UnknownUser));
    assert_eq!(ws.len(), 1);
    assert!(matches!(finish_warn(&mut ws, 5, "b".to_string(), 9, 1, true), WarnDone::Warned));
    assert_eq!(ws.len(), 2);
    assert_eq!(ws[1].user, 5);
}
