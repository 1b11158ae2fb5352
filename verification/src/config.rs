use vstd::prelude::*;
use crate::text::{parse_unsigned, parse_u64, parse_u8};

verus! {

/// The bot's configuration, as its config file states it.
pub struct Conf {
    pub token_file: String,
    pub prefix: char,
    pub permissions: Perms,
    pub status: Stat,
    pub replies: Reply,
}

/// Who may run which command, and the replies for those who may not.
#[derive(Clone)]
pub struct Perms {
    pub owners: Vec<String>,
    pub mods: Vec<String>,
    pub replies: Vec<String>,
}

/// The rotating "playing" status.
#[derive(Clone)]
pub struct Stat {
    pub enable: bool,
    pub status_delay: u16,
    pub randomize: bool,
    pub status_list: Vec<String>,
}

/// The automatic replies to ordinary messages.
pub struct Reply {
    pub enable: bool,
    pub chance: u8,
    pub iterations: u8,
    pub url_blacklist: bool,
    pub match_blacklist: Vec<String>,
    pub list: Vec<String>,
    pub trigger: Vec<String>,
}

/// `s` as a `u64`; `s` must be a valid `u64` (an optional `+`, then decimal digits).
pub fn to_u64(s: &str) -> (n: u64)
    requires
        parse_unsigned(s@, u64::MAX as nat) is Some,
    ensures
        parse_unsigned(s@, u64::MAX as nat) == Some(n as nat),
{
    match parse_u64(s) {
        Some(n) => n,
        None => 0,
    }
}

/// `s` as a `u8`; `s` must be a valid `u8` (an optional `+`, then decimal digits).
pub fn to_u8(s: &str) -> (n: u8)
    requires
        parse_unsigned(s@, u8::MAX as nat) is Some,
    ensures
        parse_unsigned(s@, u8::MAX as nat) == Some(n as nat),
{
    match parse_u8(s) {
        Some(n) => n,
        None => 0,
    }
}

} // verus!
