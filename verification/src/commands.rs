use vstd::prelude::*;
use crate::config::Perms;
use crate::deps::dice_accepted;
use crate::helpers::level_of;
use crate::text::{decimal, in_list, is_space, is_space_char, is_digit, chars_of, decimal_string, mention, mention_id, parse_marked_id, parse_mention, parse_unsigned, range_is, split_once_space, find_space, string_of_range, strip_marks, trim, trimmed};
use crate::warns::{Warns, remove_user, without_user, list_text, times_in_range, warn_blocks};

verus! {

/// The commands that the bot answers to.
#[derive(PartialEq, Eq, Structural)]
pub enum CommandKind {
    Ls,
    Rm,
    Reload,
    Roll,
    Shutdown,
    Warn,
    Delay,
    Test,
}

/// The command that a word names, if any.
pub open spec fn kind_of(name: Seq<char>) -> Option<CommandKind> {
    if name == "!ls"@ {
        Some(CommandKind::Ls)
    } else if name == "!rm"@ {
        Some(CommandKind::Rm)
    } else if name == "!reload"@ {
        Some(CommandKind::Reload)
    } else if name == "!r"@ {
        Some(CommandKind::Roll)
    } else if name == "!shutdown"@ {
        Some(CommandKind::Shutdown)
    } else if name == "!warn"@ {
        Some(CommandKind::Warn)
    } else if name == "!delay"@ {
        Some(CommandKind::Delay)
    } else if name == "!test"@ {
        Some(CommandKind::Test)
    } else {
        None
    }
}

/// A message's command word and argument: the text before and after its
/// first space; a message without a space is a command word alone, with an
/// empty argument.
pub open spec fn command_parts(content: Seq<char>) -> (Seq<char>, Seq<char>) {
    match split_once_space(content) {
        Some(p) => p,
        None => (content, Seq::empty()),
    }
}

/// The permission level a command needs: moderators (1) may list, remove
/// and give warnings, owners (2) may shut the bot down and reload its
/// configuration, everyone may roll dice, test and set the delay.
pub open spec fn level_needed(kind: CommandKind) -> u8 {
    match kind {
        CommandKind::Ls | CommandKind::Rm | CommandKind::Warn => 1,
        CommandKind::Shutdown | CommandKind::Reload => 2,
        CommandKind::Roll | CommandKind::Test | CommandKind::Delay => 0,
    }
}

/// The permission level that `kind` needs.
pub fn required_level(kind: &CommandKind) -> (l: u8)
    ensures
        l == level_needed(*kind),
{
    match kind {
        CommandKind::Ls | CommandKind::Rm | CommandKind::Warn => 1,
        CommandKind::Shutdown | CommandKind::Reload => 2,
        CommandKind::Roll | CommandKind::Test | CommandKind::Delay => 0,
    }
}

/// Whether user `id` may run `kind`; a user who may not is answered with an
/// idiot reply and nothing else happens.
pub fn command_allowed(perms: &Perms, id: u64, kind: &CommandKind) -> (ok: bool)
    ensures
        ok == (level_of(*perms, id as nat) >= level_needed(*kind)),
{
    crate::helpers::check_perms(perms, id, required_level(kind))
}

/// A command found in a message, with its argument.
pub struct Command {
    pub kind: CommandKind,
    pub arg: String,
}

fn kind_in(v: &Vec<char>, lo: usize, hi: usize) -> (r: Option<CommandKind>)
    requires
        lo <= hi <= v.len(),
    ensures
        r == kind_of(v@.subrange(lo as int, hi as int)),
{
    if range_is(v, lo, hi, "!ls") {
        Some(CommandKind::Ls)
    } else if range_is(v, lo, hi, "!rm") {
        Some(CommandKind::Rm)
    } else if range_is(v, lo, hi, "!reload") {
        Some(CommandKind::Reload)
    } else if range_is(v, lo, hi, "!r") {
        Some(CommandKind::Roll)
    } else if range_is(v, lo, hi, "!shutdown") {
        Some(CommandKind::Shutdown)
    } else if range_is(v, lo, hi, "!warn") {
        Some(CommandKind::Warn)
    } else if range_is(v, lo, hi, "!delay") {
        Some(CommandKind::Delay)
    } else if range_is(v, lo, hi, "!test") {
        Some(CommandKind::Test)
    } else {
        None
    }
}

/// The command that a message asks for, if it asks for one.
pub fn command_handler(content: &str) -> (r: Option<Command>)
    ensures
        match kind_of(command_parts(content@).0) {
            None => r is None,
            Some(k) => r matches Some(c) && c.kind == k && c.arg@ == command_parts(content@).1,
        },
{
    let cs = chars_of(content);
    match find_space(&cs) {
        None => {
            assert(cs@.subrange(0, cs@.len() as int) == cs@);
            match kind_in(&cs, 0, cs.len()) {
                None => None,
                Some(k) => Some(Command { kind: k, arg: String::new() }),
            }
        },
        Some(i) => {
            assert(cs@.subrange(0, i as int) == cs@.take(i as int));
            match kind_in(&cs, 0, i) {
                None => None,
                Some(k) => {
                    let arg = string_of_range(&cs, i + 1, cs.len());
                    assert(cs@.subrange(i + 1, cs@.len() as int) == cs@.skip(i + 1));
                    Some(Command { kind: k, arg })
                },
            }
        },
    }
}

/// What to do with an incoming message.
pub enum Route {
    /// It comes from a bot: do nothing.
    Ignore,
    /// A command that the author may not run: answer with an idiot reply and
    /// run nothing.
    Refuse,
    /// Run this command.
    Run(Command),
    /// Not a command: hand it to the reply handler.
    Reply,
}

/// Messages from bots are ignored; a command is run when its author has the
/// level it needs, and refused otherwise; everything else goes to the reply
/// handler.
pub fn route_message(from_bot: bool, author: u64, perms: &Perms, content: &str) -> (r: Route)
    ensures
        from_bot ==> r is Ignore,
        !from_bot ==> match kind_of(command_parts(content@).0) {
            None => r is Reply,
            Some(k) => if level_of(*perms, author as nat) >= level_needed(k) {
                r matches Route::Run(c) && c.kind == k && c.arg@ == command_parts(content@).1
            } else {
                r is Refuse
            },
        },
{
    if from_bot {
        return Route::Ignore;
    }
    match command_handler(content) {
        None => Route::Reply,
        Some(c) => if command_allowed(perms, author, &c.kind) {
            Route::Run(c)
        } else {
            Route::Refuse
        },
    }
}

/// The answer to `!test`.
pub fn command_test() -> (r: &'static str)
    ensures
        r@ == "Test"@,
{
    "Test"
}

/// The answer to `!ls`: the list of warnings.
pub fn command_ls(warns: &Vec<Warns>) -> (r: String)
    requires
        times_in_range(warns@),
    ensures
        warns.len() == 0 ==> r@ == "No Results!"@,
        warns.len() > 0 ==> r@ == warn_blocks(warns@),
{
    list_text(warns)
}

/// `!rm <user>`: removes every warning of the user that the argument names
/// (a mention or a bare id) and gives that user back; when the argument names
/// no user, nothing changes and `None` comes back.
pub fn command_rm(warns: &mut Vec<Warns>, arg: &str) -> (r: Option<u64>)
    ensures
        match mention_id(arg@) {
            Some(n) => r == Some(n as u64) && final(warns)@ == without_user(old(warns)@, n as u64),
            None => r is None && final(warns)@ == old(warns)@,
        },
{
    match parse_mention(arg) {
        None => None,
        Some(user) => {
            remove_user(warns, user);
            Some(user)
        },
    }
}

/// The confirmation after `!rm` removed the warnings of `user`.
pub fn rm_reply(user: u64) -> (r: String)
    ensures
        r@ == "Removed "@ + mention(user as nat) + " from Warns!"@,
{
    let mut out = String::from_str("Removed <@");
    out.append(decimal_string(user).as_str());
    out.append("> from Warns!");
    proof {
        reveal_strlit("Removed <@");
        reveal_strlit("Removed ");
        reveal_strlit("> from Warns!");
        reveal_strlit(" from Warns!");
    }
    assert(out@ =~= "Removed "@ + mention(user as nat) + " from Warns!"@);
    out
}

/// The longest roll, in characters before any comment, that the library
/// hands to ndm.
pub const MAX_ROLL_LEN: usize = 300;

/// ndm's division signs.
pub open spec fn is_division_sign(c: char) -> bool {
    c == '/' || c == '\u{f7}' || c == '\u{2215}' || c == '\u{2797}'
}

/// ndm's multiplication signs.
pub open spec fn is_times_sign(c: char) -> bool {
    c == '*' || c == '\u{d7}' || c == '\u{2a09}' || c == 'x' || c == 'X'
}

/// The signs around which ndm always puts spaces: plus, minus and division.
pub open spec fn is_spaced_sign(c: char) -> bool {
    c == '+' || c == '-' || c == '\u{2212}' || is_division_sign(c)
}

/// The neighbour `s[j]` of a multiplication sign may let ndm split the sign
/// off as a word of its own: it is the start or end of the text, white space,
/// a digit (any non-ASCII character counts, as ndm's `\d` is Unicode), or a
/// sign that ndm spaces out.
pub open spec fn opens(s: Seq<char>, j: int) -> bool {
    j < 0 || j >= s.len() || is_space(s[j]) || is_digit(s[j]) || s[j] as u32 >= 128
        || is_spaced_sign(s[j])
}

/// A word of the roll starts at `i`.
pub open spec fn word_start(s: Seq<char>, i: int) -> bool {
    i == 0 || is_space(s[i - 1]) || is_spaced_sign(s[i - 1])
}

/// A comment (a word starting with `#`) starts at `i`; ndm evaluates nothing
/// from there on.
pub open spec fn comment_at(s: Seq<char>, i: int) -> bool {
    0 <= i < s.len() && s[i] == '#' && word_start(s, i)
}

/// `s[..e]` is the part of the roll that ndm evaluates: up to its first
/// comment, or all of it.
pub open spec fn roll_body(s: Seq<char>, e: int) -> bool {
    &&& 0 <= e <= s.len()
    &&& e == s.len() || comment_at(s, e)
    &&& forall|k: int| 0 <= k < e ==> !#[trigger] comment_at(s, k)
}

/// At `i` ndm may divide, multiply or explode dice: a division sign, a
/// multiplication sign that may stand as a word of its own, or a `!` right
/// after a number or an `f` (exploding dice).
pub open spec fn scaling_at(s: Seq<char>, i: int) -> bool {
    ||| is_division_sign(s[i])
    ||| is_times_sign(s[i]) && opens(s, i - 1) && opens(s, i + 1)
    ||| s[i] == '!' && i > 0 && (is_digit(s[i - 1]) || s[i - 1] == 'f' || s[i - 1] == 'F'
        || s[i - 1] as u32 >= 128)
}

/// A roll whose running total stays inside `i32` whatever the dice show, and
/// that never divides: before its first comment it is at most
/// `MAX_ROLL_LEN` characters long and nowhere may divide, multiply or explode
/// dice. ndm's total is then a sum of at most one term per character, each
/// term at most 100 dice of at most 65535.
pub open spec fn roll_checked(s: Seq<char>) -> bool {
    exists|e: int|
        #[trigger] roll_body(s, e) && e <= MAX_ROLL_LEN && forall|i: int|
            0 <= i < e ==> !#[trigger] scaling_at(s, i)
}

fn is_spaced_sign_char(c: char) -> (b: bool)
    ensures
        b == is_spaced_sign(c),
{
    c == '+' || c == '-' || c == '\u{2212}' || c == '/' || c == '\u{f7}' || c == '\u{2215}' || c
        == '\u{2797}'
}

fn opens_at(v: &Vec<char>, j: usize, before: bool) -> (b: bool)
    requires
        j < v.len(),
    ensures
        b == opens(v@, if before { j - 1 } else { j + 1 }),
{
    if before {
        if j == 0 {
            return true;
        }
        let c = v[j - 1];
        is_space_char(c) || ('0' <= c && c <= '9') || c as u32 >= 128 || is_spaced_sign_char(c)
    } else {
        if j + 1 >= v.len() {
            return true;
        }
        let c = v[j + 1];
        is_space_char(c) || ('0' <= c && c <= '9') || c as u32 >= 128 || is_spaced_sign_char(c)
    }
}

fn is_roll_checked(v: &Vec<char>) -> (b: bool)
    ensures
        b == roll_checked(v@),
{
    let n = v.len();
    let mut e: usize = 0;
    while e < n && !(v[e] == '#' && (e == 0 || is_space_char(v[e - 1]) || is_spaced_sign_char(
        v[e - 1],
    )))
        invariant
            e <= n == v.len(),
            forall|k: int| 0 <= k < e ==> !#[trigger] comment_at(v@, k),
        decreases n - e,
    {
        e = e + 1;
    }
    assert(roll_body(v@, e as int));
    assert forall|e2: int| #[trigger] roll_body(v@, e2) implies e2 == e by {
        if e2 < e {
            assert(comment_at(v@, e2));
        } else if e2 > e {
            assert(comment_at(v@, e as int));
        }
    }
    if e > MAX_ROLL_LEN {
        return false;
    }
    for i in 0..e
        invariant
            e <= n == v.len(),
            e <= MAX_ROLL_LEN,
            roll_body(v@, e as int),
            forall|e2: int| #[trigger] roll_body(v@, e2) ==> e2 == e,
            forall|k: int| 0 <= k < i ==> !#[trigger] scaling_at(v@, k),
    {
        let c = v[i];
        let div = c == '/' || c == '\u{f7}' || c == '\u{2215}' || c == '\u{2797}';
        let times = (c == '*' || c == '\u{d7}' || c == '\u{2a09}' || c == 'x' || c == 'X')
            && opens_at(v, i, true) && opens_at(v, i, false);
        let explode = c == '!' && i > 0 && (('0' <= v[i - 1] && v[i - 1] <= '9') || v[i - 1] == 'f'
            || v[i - 1] == 'F' || v[i - 1] as u32 >= 128);
        if div || times || explode {
            assert(scaling_at(v@, i as int));
            return false;
        }
    }
    true
}

/// What `!r <roll>` gives.
pub enum RollOutcome {
    /// The roll, as ndm shows it.
    Rolled(String),
    /// ndm does not read the argument as a roll.
    Unreadable,
    /// The roll may multiply, divide or explode dice, or is very long: ndm
    /// may panic on it (a division by zero, or its `i32` total leaving
    /// range), so the library does not roll it.
    Unchecked,
}

/// `!r <roll>`: rolls the dice that the argument describes, when the roll is
/// one that ndm is sure to survive.
pub fn command_roll(arg: &str) -> (r: RollOutcome)
    ensures
        !roll_checked(arg@) ==> r is Unchecked,
        roll_checked(arg@) ==> (r is Rolled <==> dice_accepted(arg@)),
        roll_checked(arg@) ==> (r is Unreadable <==> !dice_accepted(arg@)),
        r matches RollOutcome::Rolled(text) ==> text@.len() > 0,
{
    let cs = chars_of(arg);
    if !is_roll_checked(&cs) {
        return RollOutcome::Unchecked;
    }
    match crate::deps::roll_dice(arg) {
        Some(text) => RollOutcome::Rolled(text),
        None => RollOutcome::Unreadable,
    }
}

/// `!shutdown` exits once the owner confirms the prompt.
pub fn command_shutdown(answer: &crate::helpers::Prompt) -> (exit: bool)
    ensures
        exit == (*answer is Confirmed),
{
    match answer {
        crate::helpers::Prompt::Confirmed => true,
        _ => false,
    }
}

/// `!warn <user> <reason>`, before the user is looked up.
pub enum WarnTarget {
    /// The trimmed argument has no space: there is no reason.
    Invalid,
    /// The user (0 when the first word names none) and the reason.
    Target { user: u64, reason: String },
}

/// Reads the argument of `!warn`: the trimmed argument is split at its first
/// space into the user (a mention or a bare id; 0 if it names none) and the
/// reason.
pub fn command_warn(arg: &str) -> (r: WarnTarget)
    ensures
        match split_once_space(trim(arg@)) {
            None => r is Invalid,
            Some((u, reason)) => r matches WarnTarget::Target { user, reason: rs } && rs@ == reason
                && user as nat == match parse_unsigned(strip_marks(u), u64::MAX as nat) {
                Some(n) => n,
                None => 0,
            },
        },
{
    let cs = chars_of(arg);
    let t = trimmed(&cs);
    match find_space(&t) {
        None => WarnTarget::Invalid,
        Some(i) => {
            assert(t@.subrange(0, i as int) == t@.take(i as int));
            assert(t@.subrange(i + 1, t@.len() as int) == t@.skip(i + 1));
            let user = match parse_marked_id(&t, 0, i) {
                Some(n) => n,
                None => 0,
            };
            let reason = string_of_range(&t, i + 1, t.len());
            WarnTarget::Target { user, reason }
        },
    }
}

/// How `!warn` ends.
pub enum WarnDone {
    /// The warning was recorded: answer "Warned!".
    Warned,
    /// The user does not exist: nothing is recorded, answer with an idiot
    /// reply.
    UnknownUser,
}

/// Ends `!warn` once the user was looked up: the warning is recorded only
/// when the user exists.
pub fn finish_warn(
    warns: &mut Vec<Warns>,
    user: u64,
    reason: String,
    moderator: u64,
    time: u64,
    user_exists: bool,
) -> (r: WarnDone)
    ensures
        user_exists ==> r is Warned && final(warns)@ == old(warns)@.push(
            Warns { user, reason, moderator, time },
        ),
        !user_exists ==> r is UnknownUser && final(warns)@ == old(warns)@,
{
    if user_exists {
        record_warn(warns, user, reason, moderator, time);
        WarnDone::Warned
    } else {
        WarnDone::UnknownUser
    }
}

/// Records a warning after the user was found.
pub fn record_warn(warns: &mut Vec<Warns>, user: u64, reason: String, moderator: u64, time: u64)
    ensures
        final(warns)@ == old(warns)@.push(Warns { user, reason, moderator, time }),
{
    warns.push(Warns { user, reason, moderator, time });
}

} // verus!

verus! {

/// A message made of a command word without spaces, one space and an
/// argument is read as that word and that argument; so `!rm <@id>` runs `!rm`
/// with `<@id>`, and `!warn <@id> spam` runs `!warn` with `<@id> spam`.
pub proof fn lemma_command_parts(name: Seq<char>, arg: Seq<char>)
    requires
        forall|k: int| 0 <= k < name.len() ==> name[k] != ' ',
    ensures
        command_parts(name + seq![' '] + arg) == (name, arg),
{
    let s = name + seq![' '] + arg;
    let i = name.len() as int;
    assert(s[i] == ' ');
    assert forall|k: int| 0 <= k < i implies s[k] != ' ' by {
        assert(s[k] == name[k]);
    }
    assert(crate::text::is_first_space(s, i));
    let j = choose|j: int| crate::text::is_first_space(s, j);
    crate::text::lemma_first_space_unique(s, i, j);
    assert(s.take(i) == name);
    assert(s.skip(i + 1) == arg);
}

/// A message that is a command word alone, without spaces, is that word with
/// an empty argument: `!test` runs `!test`.
pub proof fn lemma_bare_command(name: Seq<char>)
    requires
        forall|k: int| 0 <= k < name.len() ==> name[k] != ' ',
    ensures
        command_parts(name) == (name, Seq::<char>::empty()),
{
    assert(!exists|i: int| crate::text::is_first_space(name, i));
}

/// Every roll has a part that ndm evaluates: up to its first comment, found
/// from `from` on when there is none before.
proof fn lemma_roll_body_exists(s: Seq<char>, from: int) -> (e: int)
    requires
        0 <= from <= s.len(),
        forall|k: int| 0 <= k < from ==> !#[trigger] comment_at(s, k),
    ensures
        roll_body(s, e),
        from <= e,
    decreases s.len() - from,
{
    if from == s.len() || comment_at(s, from) {
        from
    } else {
        lemma_roll_body_exists(s, from + 1)
    }
}

/// A roll of at most `MAX_ROLL_LEN` characters with no division sign, no
/// multiplication sign (`*`, `\u{d7}`, `\u{2a09}`, `x`, `X`) and no `!` is
/// checked, so `!r` rolls it whenever ndm reads it: `d20`, `3d6 + 2`,
/// `4d6k3 # stats`.
pub proof fn lemma_plain_rolls_are_checked(s: Seq<char>)
    requires
        s.len() <= MAX_ROLL_LEN,
        forall|k: int|
            0 <= k < s.len() ==> {
                let c = #[trigger] s[k];
                &&& c != '/' && c != '\u{f7}' && c != '\u{2215}' && c != '\u{2797}'
                &&& c != '*' && c != '\u{d7}' && c != '\u{2a09}' && c != 'x' && c != 'X'
                &&& c != '!'
            },
    ensures
        roll_checked(s),
{
    let e = lemma_roll_body_exists(s, 0);
    assert forall|i: int| 0 <= i < e implies !#[trigger] scaling_at(s, i) by {
        assert(0 <= i < s.len());
    }
}

/// A roll without comments that is longer than `MAX_ROLL_LEN`, or that
/// divides (any of ndm's division signs), explodes dice (`!` after a number)
/// or multiplies (`*`, `x`, `X`, `\u{d7}` or `\u{2a09}` between numbers or
/// spaces) is never checked: `!r` does not hand it to ndm.
pub proof fn lemma_risky_rolls_are_not_checked(s: Seq<char>, i: int)
    requires
        forall|k: int| 0 <= k < s.len() ==> #[trigger] s[k] != '#',
        0 <= i < s.len(),
    ensures
        s.len() > MAX_ROLL_LEN ==> !roll_checked(s),
        s[i] == '/' || s[i] == '\u{f7}' || s[i] == '\u{2215}' || s[i] == '\u{2797}'
            ==> !roll_checked(s),
        s[i] == '!' && i > 0 && '0' <= s[i - 1] <= '9' ==> !roll_checked(s),
        ({
            &&& s[i] == '*' || s[i] == 'x' || s[i] == 'X' || s[i] == '\u{d7}' || s[i] == '\u{2a09}'
            &&& i == 0 || s[i - 1] == ' ' || '0' <= s[i - 1] <= '9'
            &&& i + 1 == s.len() || s[i + 1] == ' ' || '0' <= s[i + 1] <= '9'
        }) ==> !roll_checked(s),
{
    assert forall|e: int| #[trigger] roll_body(s, e) implies e == s.len() by {
        if e < s.len() {
            assert(comment_at(s, e));
        }
    }
    if roll_checked(s) {
        let e = choose|e: int|
            #[trigger] roll_body(s, e) && e <= MAX_ROLL_LEN && forall|k: int|
                0 <= k < e ==> !#[trigger] scaling_at(s, k);
        assert(e == s.len());
        assert(!scaling_at(s, i));
    }
}

/// Who may run what: `!shutdown` and `!reload` only owners; `!ls`, `!rm` and
/// `!warn` owners and moderators; `!r`, `!test` and `!delay` everyone. Each
/// command word names its own command.
pub proof fn lemma_who_may_run_what(perms: Perms, id: nat)
    ensures
        kind_of("!shutdown"@) == Some(CommandKind::Shutdown),
        kind_of("!reload"@) == Some(CommandKind::Reload),
        kind_of("!ls"@) == Some(CommandKind::Ls),
        kind_of("!rm"@) == Some(CommandKind::Rm),
        kind_of("!warn"@) == Some(CommandKind::Warn),
        kind_of("!r"@) == Some(CommandKind::Roll),
        kind_of("!test"@) == Some(CommandKind::Test),
        kind_of("!delay"@) == Some(CommandKind::Delay),
        level_of(perms, id) >= level_needed(CommandKind::Shutdown) <==> in_list(
            perms.owners@,
            decimal(id),
        ),
        level_of(perms, id) >= level_needed(CommandKind::Reload) <==> in_list(
            perms.owners@,
            decimal(id),
        ),
        level_of(perms, id) >= level_needed(CommandKind::Ls) <==> in_list(perms.owners@, decimal(id))
            || in_list(perms.mods@, decimal(id)),
        level_of(perms, id) >= level_needed(CommandKind::Rm) <==> in_list(perms.owners@, decimal(id))
            || in_list(perms.mods@, decimal(id)),
        level_of(perms, id) >= level_needed(CommandKind::Warn) <==> in_list(
            perms.owners@,
            decimal(id),
        ) || in_list(perms.mods@, decimal(id)),
        level_of(perms, id) >= level_needed(CommandKind::Roll),
        level_of(perms, id) >= level_needed(CommandKind::Test),
        level_of(perms, id) >= level_needed(CommandKind::Delay),
{
    reveal_strlit("!ls");
    reveal_strlit("!rm");
    reveal_strlit("!reload");
    reveal_strlit("!r");
    reveal_strlit("!shutdown");
    reveal_strlit("!warn");
    reveal_strlit("!delay");
    reveal_strlit("!test");
    assert("!ls"@.len() == 3 && "!rm"@.len() == 3 && "!reload"@.len() == 7 && "!r"@.len() == 2);
    assert("!shutdown"@.len() == 9 && "!warn"@.len() == 5 && "!delay"@.len() == 6);
    assert("!test"@.len() == 5);
    assert("!rm"@ != "!ls"@) by {
        assert("!rm"@[1] != "!ls"@[1]);
    }
    assert("!test"@ != "!warn"@) by {
        assert("!test"@[1] != "!warn"@[1]);
    }
}

} // verus!
