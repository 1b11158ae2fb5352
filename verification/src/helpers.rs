use vstd::prelude::*;
use crate::config::Perms;
use crate::text::{decimal, decimal_string, in_list, list_contains, chars_of};

verus! {

/// The permission level of user `id`: 2 for an owner, 1 for a moderator
/// who is not an owner, 0 for everyone else. Users are listed by their id in
/// decimal.
pub open spec fn level_of(perms: Perms, id: nat) -> u8 {
    if in_list(perms.owners@, decimal(id)) {
        2
    } else if in_list(perms.mods@, decimal(id)) {
        1
    } else {
        0
    }
}

/// The permission level of user `id` under `perms`.
pub fn user_level(perms: &Perms, id: u64) -> (l: u8)
    ensures
        l == level_of(*perms, id as nat),
{
    let user = decimal_string(id);
    if list_contains(&perms.owners, &user) {
        2
    } else if list_contains(&perms.mods, &user) {
        1
    } else {
        0
    }
}

/// Whether user `id` may run a command that needs `level`.
pub fn check_perms(perms: &Perms, id: u64, level: u8) -> (ok: bool)
    ensures
        ok == (level_of(*perms, id as nat) >= level),
{
    user_level(perms, id) >= level
}

/// A reply, picked at random, for a user who is refused or who gave an
/// argument that makes no sense. The configuration must hold at least one.
pub fn idiot_reply(perms: &Perms) -> (r: String)
    requires
        perms.replies.len() > 0,
    ensures
        perms.replies@.contains(r),
{
    match crate::deps::choose_string(&perms.replies) {
        Some(s) => s,
        None => String::new(),
    }
}

/// The answer to the "Are you Sure? (Y/n)" prompt.
pub enum Prompt {
    /// The user answered `y` or `Y`.
    Confirmed,
    /// The user answered something else.
    Canceled,
    /// No answer came.
    NoAnswer,
}

/// An answer confirms when it is `y` in either case
/// (`eq_ignore_ascii_case("y")`).
pub open spec fn confirms(answer: Seq<char>) -> bool {
    answer == seq!['y'] || answer == seq!['Y']
}

/// What the answer to the prompt, if one came, amounts to.
pub fn prompt_util(answer: Option<&str>) -> (p: Prompt)
    ensures
        match answer {
            None => p is NoAnswer,
            Some(a) => if confirms(a@) {
                p is Confirmed
            } else {
                p is Canceled
            },
        },
        answer matches Some(a) ==> (p is Confirmed <==> (a@.len() == 1 && (a@[0] == 'y' || a@[0]
            == 'Y'))),
{
    match answer {
        None => Prompt::NoAnswer,
        Some(a) => {
            let cs = chars_of(a);
            if cs.len() == 1 && (cs[0] == 'y' || cs[0] == 'Y') {
                assert(cs@ =~= seq![cs@[0]]);
                Prompt::Confirmed
            } else {
                Prompt::Canceled
            }
        },
    }
}

impl Prompt {
    /// What the bot says back to the answer, if anything.
    pub fn reply_text(&self) -> (r: Option<&'static str>)
        ensures
            match self {
                Prompt::Confirmed => r == Some("As You Wish..."),
                Prompt::Canceled => r == Some("Canceled!"),
                Prompt::NoAnswer => r is None,
            },
    {
        match self {
            Prompt::Confirmed => Some("As You Wish..."),
            Prompt::Canceled => Some("Canceled!"),
            Prompt::NoAnswer => None,
        }
    }
}

/// Any listed owner has level 2, also when listed as a moderator too; a
/// moderator who is not an owner has level 1, everyone else level 0.
pub proof fn lemma_level_precedence(perms: Perms, id: nat)
    ensures
        in_list(perms.owners@, decimal(id)) ==> level_of(perms, id) == 2,
        !in_list(perms.owners@, decimal(id)) && in_list(perms.mods@, decimal(id)) ==> level_of(
            perms,
            id,
        ) == 1,
        !in_list(perms.owners@, decimal(id)) && !in_list(perms.mods@, decimal(id)) ==> level_of(
            perms,
            id,
        ) == 0,
{
}

/// Only the one-character answers `y` and `Y` confirm the prompt; every other
/// answer (`n`, `yes`, an empty one) cancels it.
pub proof fn lemma_confirms_only_y(answer: Seq<char>)
    ensures
        confirms(answer) <==> (answer.len() == 1 && (answer[0] == 'y' || answer[0] == 'Y')),
{
    if answer.len() == 1 {
        assert(answer =~= seq![answer[0]]);
    }
}

/// A user who passes a permission check at some level passes it at every
/// lower level; everyone passes at level 0.
pub proof fn lemma_check_perms_monotone(perms: Perms, id: nat, low: u8, high: u8)
    requires
        low <= high,
    ensures
        level_of(perms, id) >= high ==> level_of(perms, id) >= low,
        level_of(perms, id) >= 0u8,
{
}

} // verus!
