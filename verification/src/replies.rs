use vstd::prelude::*;
use crate::config::Reply;
use crate::deps::{bernoulli_ratio, lowercase, shuffle_strings, to_lowercase};
use crate::text::{
    chars_of, contains_range, contains_str, in_list, is_space, is_space_char, starts_with,
    starts_with_chars, trim_start, lead_index, copy_strings,
};

verus! {

/// `s[i..j]` is one of the words of `s` (`split_whitespace`): a maximal run
/// of characters that are not white space.
pub open spec fn is_word(s: Seq<char>, i: int, j: int) -> bool {
    &&& 0 <= i < j <= s.len()
    &&& forall|k: int| i <= k < j ==> !is_space(#[trigger] s[k])
    &&& i == 0 || is_space(s[i - 1])
    &&& j == s.len() || is_space(s[j])
}

/// The word `msg[i..j]` is not blacklisted and occurs in `reply`.
pub open spec fn word_hits(
    msg: Seq<char>,
    reply: Seq<char>,
    blacklist: Seq<String>,
    i: int,
    j: int,
) -> bool {
    is_word(msg, i, j) && !in_list(blacklist, msg.subrange(i, j)) && contains_str(
        reply,
        msg.subrange(i, j),
    )
}

/// Some word of `msg` that is not blacklisted occurs in `reply`.
pub open spec fn shares_word(msg: Seq<char>, reply: Seq<char>, blacklist: Seq<String>) -> bool {
    exists|i: int, j: int| #[trigger] word_hits(msg, reply, blacklist, i, j)
}

/// Whether some string of `bl` reads `v[lo..hi]`.
fn blacklisted(bl: &Vec<String>, v: &Vec<char>, lo: usize, hi: usize) -> (b: bool)
    requires
        lo <= hi <= v.len(),
    ensures
        b == in_list(bl@, v@.subrange(lo as int, hi as int)),
{
    let ghost w = v@.subrange(lo as int, hi as int);
    for k in 0..bl.len()
        invariant
            lo <= hi <= v.len(),
            w == v@.subrange(lo as int, hi as int),
            forall|t: int| 0 <= t < k ==> (#[trigger] bl@[t])@ != w,
    {
        if crate::text::range_is(v, lo, hi, bl[k].as_str()) {
            assert(bl@[k as int]@ == w);
            return true;
        }
    }
    false
}

/// `shares_word` on characters.
fn shares_word_chars(m: &Vec<char>, reply: &Vec<char>, bl: &Vec<String>) -> (b: bool)
    ensures
        b == shares_word(m@, reply@, bl@),
{
    let n = m.len();
    let mut p: usize = 0;
    while p < n
        invariant
            p <= n == m.len(),
            p == 0 || p == n || is_space(m@[p - 1]) || is_space(m@[p as int]),
            forall|a: int, b: int|
                is_word(m@, a, b) && b <= p ==> !#[trigger] word_hits(m@, reply@, bl@, a, b),
        decreases n - p,
    {
        let mut q: usize = p;
        while q < n && is_space_char(m[q])
            invariant
                p <= q <= n == m.len(),
                forall|k: int| p <= k < q ==> is_space(#[trigger] m@[k]),
            decreases n - q,
        {
            q = q + 1;
        }
        assert forall|a: int, b: int|
            is_word(m@, a, b) && b <= q implies !#[trigger] word_hits(m@, reply@, bl@, a, b) by {
            if b > p {
                assert(is_space(m@[b - 1]));
            }
        }
        if q == n {
            p = q;
        } else {
            assert(q == 0 || is_space(m@[q - 1]));
            let mut r: usize = q;
            while r < n && !is_space_char(m[r])
                invariant
                    q <= r <= n == m.len(),
                    forall|k: int| q <= k < r ==> !is_space(#[trigger] m@[k]),
                decreases n - r,
            {
                r = r + 1;
            }
            assert(is_word(m@, q as int, r as int));
            let hit = !blacklisted(bl, m, q, r) && contains_range(reply, m, q, r);
            if hit {
                assert(word_hits(m@, reply@, bl@, q as int, r as int));
                return true;
            }
            assert forall|a: int, b: int|
                is_word(m@, a, b) && b <= r implies !#[trigger] word_hits(m@, reply@, bl@, a, b) by {
                if b > q {
                    if b < r {
                        assert(!is_space(m@[b]));
                    } else {
                        if a < q {
                            assert(!is_space(m@[q - 1]));
                        } else if a > q {
                            assert(!is_space(m@[a - 1]));
                        }
                    }
                }
            }
            p = r;
        }
    }
    assert forall|a: int, b: int| !#[trigger] word_hits(m@, reply@, bl@, a, b) by {
        if is_word(m@, a, b) {
        }
    }
    false
}

/// Candidate `i` is sent: it is the last one tried (`iterations - 1`), or it
/// shares a word with the message.
pub open spec fn fits(
    msg: Seq<char>,
    candidates: Seq<String>,
    iterations: u8,
    blacklist: Seq<String>,
    i: int,
) -> bool {
    i == iterations - 1 || shares_word(msg, candidates[i]@, blacklist)
}

/// `i` is the candidate that is sent: the first of the first `iterations`
/// candidates that fits; `None` when none of them does.
pub open spec fn picked(
    msg: Seq<char>,
    candidates: Seq<String>,
    iterations: u8,
    blacklist: Seq<String>,
    r: Option<usize>,
) -> bool {
    match r {
        Some(i) => i < candidates.len() && i < iterations && fits(
            msg,
            candidates,
            iterations,
            blacklist,
            i as int,
        ) && forall|j: int|
            0 <= j < i ==> !#[trigger] fits(msg, candidates, iterations, blacklist, j),
        None => forall|j: int|
            0 <= j < candidates.len() && j < iterations ==> !#[trigger] fits(
                msg,
                candidates,
                iterations,
                blacklist,
                j,
            ),
    }
}

/// Which of the (already shuffled) candidates answers `message`: the first
/// one, among the first `iterations`, that shares a word (not blacklisted)
/// with the message, or else the one at `iterations - 1`.
pub fn pick_reply(
    message: &str,
    candidates: &Vec<String>,
    iterations: u8,
    blacklist: &Vec<String>,
) -> (r: Option<usize>)
    ensures
        picked(message@, candidates@, iterations, blacklist@, r),
{
    let m = chars_of(message);
    for i in 0..candidates.len()
        invariant
            m@ == message@,
            forall|j: int|
                0 <= j < i && j < iterations ==> !#[trigger] fits(
                    message@,
                    candidates@,
                    iterations,
                    blacklist@,
                    j,
                ),
    {
        if i >= iterations as usize {
            return None;
        }
        let reply = chars_of(candidates[i].as_str());
        if i == iterations as usize - 1 || shares_word_chars(&m, &reply, blacklist) {
            return Some(i);
        }
    }
    None
}

/// A message is a link when, after its leading white space, it starts with
/// `http`.
pub open spec fn is_link(msg: Seq<char>) -> bool {
    starts_with(trim_start(msg), "http"@)
}

/// `msg` contains one of the configured trigger words.
pub open spec fn has_trigger(msg: Seq<char>, triggers: Seq<String>) -> bool {
    exists|k: int| 0 <= k < triggers.len() && contains_str(msg, (#[trigger] triggers[k])@)
}

/// A message is let through to the reply logic: replies are enabled, the
/// message is not a link while the configuration ignores links
/// (`url_blacklist`), and it contains a trigger word or the chance draw
/// (`drawn`) came out.
pub open spec fn reply_allowed(repl: Reply, msg: Seq<char>, drawn: bool) -> bool {
    &&& repl.enable
    &&& !(repl.url_blacklist && is_link(msg))
    &&& has_trigger(msg, repl.trigger@) || drawn
}

/// Whether `m` contains one of `triggers`.
fn contains_trigger(m: &Vec<char>, triggers: &Vec<String>) -> (b: bool)
    ensures
        b == has_trigger(m@, triggers@),
{
    for k in 0..triggers.len()
        invariant
            forall|t: int| 0 <= t < k ==> !contains_str(m@, (#[trigger] triggers@[t])@),
    {
        let t = chars_of(triggers[k].as_str());
        assert(t@.subrange(0, t@.len() as int) == t@);
        if contains_range(m, &t, 0, t.len()) {
            assert(contains_str(m@, triggers@[k as int]@));
            return true;
        }
    }
    false
}

/// The answer `r` to the lower-cased message `msg`, given the chance draw
/// `drawn` and the replies in the order `shuffled`: nothing unless the message
/// is let through; else the candidate that `pick_reply` chooses, if any.
pub open spec fn reply_decision(
    repl: Reply,
    msg: Seq<char>,
    drawn: bool,
    shuffled: Seq<String>,
    r: Option<String>,
) -> bool {
    if !reply_allowed(repl, msg, drawn) {
        r is None
    } else {
        exists|i: Option<usize>|
            #[trigger] picked(msg, shuffled, repl.iterations, repl.match_blacklist@, i) && r
                == match i {
                Some(k) => Some(shuffled[k as int]),
                None => None::<String>,
            }
    }
}

/// The answer `r` to the message `content` as it arrived (it is taken in
/// lower case), given the draw and the order of the replies.
pub open spec fn reply_outcome(
    repl: Reply,
    content: Seq<char>,
    drawn: bool,
    shuffled: Seq<String>,
    r: Option<String>,
) -> bool {
    reply_decision(repl, lowercase(content), drawn, shuffled, r)
}

/// The answer to the lower-cased message `lowered`, for a given outcome of
/// the chance draw and a given order of the candidate replies.
pub fn reply_for(repl: &Reply, lowered: &str, drawn: bool, shuffled: &Vec<String>) -> (r: Option<
    String,
>)
    ensures
        reply_decision(*repl, lowered@, drawn, shuffled@, r),
{
    if !repl.enable {
        return None;
    }
    let mc = chars_of(lowered);
    if repl.url_blacklist {
        let lo = lead_index(&mc);
        let http = chars_of("http");
        if starts_with_chars(&mc, lo, &http) {
            return None;
        }
    }
    let triggered = contains_trigger(&mc, &repl.trigger);
    if !triggered && !drawn {
        return None;
    }
    let pick = pick_reply(lowered, shuffled, repl.iterations, &repl.match_blacklist);
    let r = match pick {
        Some(i) => Some(shuffled[i].clone()),
        None => None,
    };
    assert(picked(lowered@, shuffled@, repl.iterations, repl.match_blacklist@, pick));
    r
}

/// The odds of the chance draw, as a ratio: one in `chance`.
pub open spec fn chance_odds(repl: Reply) -> (u32, u32) {
    (1, repl.chance as u32)
}

/// The numerator and denominator of the chance draw.
pub fn draw_odds(repl: &Reply) -> (r: (u32, u32))
    ensures
        r == chance_odds(*repl),
{
    (1, repl.chance as u32)
}

/// The bot's answer, if any, to an ordinary message. The message is taken in
/// lower case; the chance draw comes out with probability `chance_odds`
/// (one in `chance`), and the candidates are the configured replies in a
/// random order. `chance` must be at least 1.
pub fn reply_handler(repl: &Reply, content: &str) -> (r: Option<String>)
    requires
        repl.chance >= 1,
    ensures
        exists|drawn: bool, shuffled: Seq<String>|
            shuffled.to_multiset() == repl.list@.to_multiset() && (repl.chance == 1 ==> drawn)
                && #[trigger] reply_outcome(*repl, content@, drawn, shuffled, r),
        r matches Some(s) ==> repl.list@.contains(s),
        !repl.enable ==> r is None,
        repl.url_blacklist && is_link(lowercase(content@)) ==> r is None,
        repl.enable && !(repl.url_blacklist && is_link(lowercase(content@))) && (has_trigger(
            lowercase(content@),
            repl.trigger@,
        ) || repl.chance == 1) && 1 <= repl.iterations <= repl.list.len() ==> r is Some,
{
    proof {
        repl.list@.to_multiset_ensures();
    }
    let lowered = to_lowercase(content);
    let (num, den) = draw_odds(repl);
    let drawn = bernoulli_ratio(num, den);
    let mut shuffled = copy_strings(&repl.list);
    shuffle_strings(&mut shuffled);
    proof {
        shuffled@.to_multiset_ensures();
    }
    let r = reply_for(repl, lowered.as_str(), drawn, &shuffled);
    proof {
        assert(reply_outcome(*repl, content@, drawn, shuffled@, r));
        if reply_allowed(*repl, lowercase(content@), drawn) {
            let i = choose|i: Option<usize>|
                #[trigger] picked(lowercase(content@), shuffled@, repl.iterations, repl.match_blacklist@, i)
                    && r == match i {
                    Some(k) => Some(shuffled@[k as int]),
                    None => None::<String>,
                };
            if let Some(k) = i {
                let x = shuffled@[k as int];
                assert(shuffled@.contains(x));
                assert(shuffled@.to_multiset().count(x) > 0);
                assert(repl.list@.to_multiset().count(x) > 0);
                assert(repl.list@.contains(x));
            }
            if 1 <= repl.iterations <= repl.list.len() && i is None {
                assert(!fits(lowercase(content@), shuffled@, repl.iterations, repl.match_blacklist@, repl.iterations - 1));
            }
        }
    }
    r
}

} // verus!

verus! {

/// A candidate other than the last try is sent only when some white-space
/// separated word of the message, not in the blacklist, occurs inside that
/// candidate; a candidate among the tries that holds such a word is never
/// passed over for a later one; only the first `iterations` candidates are
/// tried, and when there are that many one of them is always sent.
pub proof fn lemma_pick_reply_follows_message_words(
    msg: Seq<char>,
    candidates: Seq<String>,
    iterations: u8,
    blacklist: Seq<String>,
    r: Option<usize>,
)
    requires
        picked(msg, candidates, iterations, blacklist, r),
    ensures
        r matches Some(k) ==> (k == iterations - 1 || exists|i: int, j: int|
            {
                &&& 0 <= i < j <= msg.len()
                &&& forall|t: int| i <= t < j ==> !is_space(#[trigger] msg[t])
                &&& i == 0 || is_space(msg[i - 1])
                &&& j == msg.len() || is_space(msg[j])
                &&& !in_list(blacklist, msg.subrange(i, j))
                &&& #[trigger] contains_str(candidates[k as int]@, msg.subrange(i, j))
            }),
        forall|k: int, i: int, j: int|
            {
                &&& 0 <= k < candidates.len()
                &&& k < iterations
                &&& 0 <= i < j <= msg.len()
                &&& forall|t: int| i <= t < j ==> !is_space(#[trigger] msg[t])
                &&& i == 0 || is_space(msg[i - 1])
                &&& j == msg.len() || is_space(msg[j])
                &&& !in_list(blacklist, msg.subrange(i, j))
                &&& #[trigger] contains_str(candidates[k]@, msg.subrange(i, j))
            } ==> (r matches Some(m) && m <= k),
        r matches Some(k) ==> k < candidates.len() && k < iterations,
        1 <= iterations <= candidates.len() ==> r is Some,
{
    if 1 <= iterations <= candidates.len() {
        assert(fits(msg, candidates, iterations, blacklist, iterations - 1));
    }
    if let Some(k) = r {
        if k != iterations - 1 {
            assert(shares_word(msg, candidates[k as int]@, blacklist));
            let (i, j) = choose|i: int, j: int|
                #[trigger] word_hits(msg, candidates[k as int]@, blacklist, i, j);
            assert(word_hits(msg, candidates[k as int]@, blacklist, i, j));
            assert(contains_str(candidates[k as int]@, msg.subrange(i, j)));
        }
    }
    assert forall|k: int, i: int, j: int|
        {
            &&& 0 <= k < candidates.len()
            &&& k < iterations
            &&& 0 <= i < j <= msg.len()
            &&& forall|t: int| i <= t < j ==> !is_space(#[trigger] msg[t])
            &&& i == 0 || is_space(msg[i - 1])
            &&& j == msg.len() || is_space(msg[j])
            &&& !in_list(blacklist, msg.subrange(i, j))
            &&& #[trigger] contains_str(candidates[k]@, msg.subrange(i, j))
        } implies (r matches Some(m) && m <= k) by {
        assert(word_hits(msg, candidates[k]@, blacklist, i, j));
        assert(fits(msg, candidates, iterations, blacklist, k));
    }
}

/// Whether the bot answers a (lower-cased) message, where `msg[..p]` is its
/// leading white space: never when replies are off, never when the message
/// holds no trigger word and the draw did not come out, and never when links
/// are ignored and the message, after its leading white space, starts with
/// `http`; only such a message counts as a link, so one that holds a link
/// further on is answered. Otherwise it is answered whenever the number of
/// tries is within the list.
pub proof fn lemma_only_leading_http_is_a_link(
    repl: Reply,
    msg: Seq<char>,
    drawn: bool,
    shuffled: Seq<String>,
    r: Option<String>,
    p: int,
)
    requires
        reply_decision(repl, msg, drawn, shuffled, r),
        0 <= p <= msg.len(),
        forall|k: int| 0 <= k < p ==> is_space(#[trigger] msg[k]),
        p == msg.len() || !is_space(msg[p]),
    ensures
        !repl.enable ==> r is None,
        !drawn && !(exists|k: int|
            0 <= k < repl.trigger.len() && contains_str(msg, (#[trigger] repl.trigger@[k])@))
            ==> r is None,
        repl.url_blacklist && p + 4 <= msg.len() && msg.subrange(p, p + 4) == seq![
            'h',
            't',
            't',
            'p',
        ] ==> r is None,
        ({
            &&& repl.enable
            &&& drawn || exists|k: int|
                0 <= k < repl.trigger.len() && contains_str(msg, (#[trigger] repl.trigger@[k])@)
            &&& !repl.url_blacklist || !(p + 4 <= msg.len() && msg.subrange(p, p + 4) == seq![
                'h',
                't',
                't',
                'p',
            ])
            &&& 1 <= repl.iterations <= shuffled.len()
        }) ==> r is Some,
{
    crate::text::lemma_lead_len(msg, p);
    reveal_strlit("http");
    let h = seq!['h', 't', 't', 'p'];
    assert("http"@ == h);
    if p + 4 <= msg.len() {
        assert(msg.skip(p).subrange(0, 4) =~= msg.subrange(p, p + 4));
    }
    assert(is_link(msg) <==> (p + 4 <= msg.len() && msg.subrange(p, p + 4) == h));
    if reply_allowed(repl, msg, drawn) && 1 <= repl.iterations <= shuffled.len() {
        let i = choose|i: Option<usize>|
            #[trigger] picked(msg, shuffled, repl.iterations, repl.match_blacklist@, i) && r
                == match i {
                Some(k) => Some(shuffled[k as int]),
                None => None::<String>,
            };
        assert(fits(msg, shuffled, repl.iterations, repl.match_blacklist@, repl.iterations - 1));
    }
}

} // verus!
