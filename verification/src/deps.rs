use chrono::TimeZone;
use rand::distributions::{Bernoulli, Distribution};
use rand::seq::SliceRandom;
use rand::thread_rng;
use vstd::prelude::*;
use crate::commands::roll_checked;

verus! {

/// `String::push` from std: appends one character at the end of the string.
#[verifier::external_body]
pub(crate) fn push_char(s: &mut String, c: char)
    ensures
        final(s)@ == old(s)@.push(c),
{
    s.push(c);
}

/// `SliceRandom::choose` from rand, with the thread's generator: one element of
/// `v` picked at random, `None` when `v` is empty. Which element comes back is
/// left open, being chance.
#[verifier::external_body]
pub(crate) fn choose_string(v: &Vec<String>) -> (r: Option<String>)
    ensures
        r is Some <==> v.len() > 0,
        r matches Some(s) ==> v@.contains(s),
{
    v.choose(&mut thread_rng()).cloned()
}

/// The largest timestamp (seconds since the Unix epoch) that chrono 0.4 can
/// turn into a date: the last second of the year 262142.
pub const MAX_TIMESTAMP: i64 = 8210266876799i64;

/// The smallest timestamp that chrono 0.4 can turn into a date: the first
/// second of January 1, 262144 BCE (year -262143).
pub const MIN_TIMESTAMP: i64 = -8334601228800i64;

/// What chrono's `format("%Y-%m-%d %H:%M")` writes for the UTC time `secs`
/// seconds after the Unix epoch.
pub uninterp spec fn timestamp_text(secs: i64) -> Seq<char>;

/// `Utc.timestamp_opt(secs, 0)` from chrono, formatted with
/// `"%Y-%m-%d %H:%M"`. chrono gives no date outside
/// `MIN_TIMESTAMP..=MAX_TIMESTAMP`, where the `unwrap` would panic, so
/// `requires` leaves those out. The text is named, not stated: the calendar
/// arithmetic is chrono's.
#[verifier::external_body]
pub(crate) fn format_timestamp(secs: i64) -> (r: String)
    requires
        MIN_TIMESTAMP <= secs <= MAX_TIMESTAMP,
    ensures
        r@ == timestamp_text(secs),
{
    chrono::Utc.timestamp_opt(secs, 0).unwrap().format("%Y-%m-%d %H:%M").to_string()
}

/// Whether ndm 0.12 reads `line` as a roll (`RollSet::from_str` gives `Ok`).
/// Whether it does depends on the text alone; the dice rolled do not change it.
pub uninterp spec fn dice_accepted(line: Seq<char>) -> bool;

/// `line.parse::<ndm::RollSet>()` from ndm, shown with its `Display`. The
/// dice are rolled while parsing, so the text that comes back rests on chance;
/// whether it comes back is named, and an accepted roll always shows at least
/// its first die (`RollSet` joins its words, and an accepted one holds a roll).
/// ndm panics when it divides its `i32` total by a zero bonus, and when that
/// total overflows (products, explosions, saturated divisions). `requires`
/// keeps to `roll_checked` lines: before the first comment (after which ndm
/// evaluates nothing) no division sign, no multiplication sign that ndm can
/// split off as a word of its own, no `!` that explodes dice, and at most 300
/// characters, so the total is a sum of at most 300 terms, each at most 100
/// dice of at most 65535 (ndm refuses more dice, and sides or minimums beyond
/// `u16`).
#[verifier::external_body]
pub(crate) fn roll_dice(line: &str) -> (r: Option<String>)
    requires
        roll_checked(line@),
    ensures
        r is Some <==> dice_accepted(line@),
        r matches Some(text) ==> text@.len() > 0,
{
    match line.parse::<ndm::RollSet>() {
        Ok(roll) => Some(roll.to_string()),
        Err(_) => None,
    }
}

/// What std's `str::to_lowercase` gives for `s` (Unicode lower case, which
/// depends on nothing but the text).
pub uninterp spec fn lowercase(s: Seq<char>) -> Seq<char>;

/// `str::to_lowercase` from std. The result is named, not stated: the Unicode
/// case tables are std's.
#[verifier::external_body]
pub(crate) fn to_lowercase(s: &str) -> (r: String)
    ensures
        r@ == lowercase(s@),
{
    s.to_lowercase()
}

/// `SliceRandom::shuffle` from rand, with the thread's generator: the same
/// strings in an order left to chance.
#[verifier::external_body]
pub(crate) fn shuffle_strings(v: &mut Vec<String>)
    ensures
        final(v)@.to_multiset() == old(v)@.to_multiset(),
{
    v.shuffle(&mut thread_rng());
}

/// `Bernoulli::from_ratio(numerator, denominator)` from rand, sampled once
/// with the thread's generator: `true` with probability
/// `numerator / denominator`. rand refuses a zero denominator and a numerator
/// above the denominator (the `unwrap` would panic), so `requires` leaves them
/// out; rand's documentation and source give `true` always when the two are
/// equal and `false` always when the numerator is 0. Otherwise the answer is
/// chance and left unsaid.
#[verifier::external_body]
pub(crate) fn bernoulli_ratio(numerator: u32, denominator: u32) -> (hit: bool)
    requires
        0 < denominator,
        numerator <= denominator,
    ensures
        numerator == denominator ==> hit,
        numerator == 0 ==> !hit,
{
    Bernoulli::from_ratio(numerator, denominator).unwrap().sample(&mut thread_rng())
}

} // verus!
