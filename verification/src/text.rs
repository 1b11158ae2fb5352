use vstd::prelude::*;

verus! {

/// The characters of `s`, in order.
pub fn chars_of(s: &str) -> (v: Vec<char>)
    ensures
        v@ == s@,
{
    let mut v: Vec<char> = Vec::new();
    for c in it: s.chars()
        invariant
            v@ == it.seq().take(it.index() as int),
            it.seq() == s@,
    {
        v.push(c);
    }
    v
}

/// The characters with the Unicode `White_Space` property, which is what
/// `char::is_whitespace` (and so `str::trim` and `str::split_whitespace`) tests.
pub open spec fn is_space(c: char) -> bool {
    ||| '\u{9}' <= c <= '\u{d}'
    ||| c == ' '
    ||| c == '\u{85}'
    ||| c == '\u{a0}'
    ||| c == '\u{1680}'
    ||| '\u{2000}' <= c <= '\u{200a}'
    ||| c == '\u{2028}'
    ||| c == '\u{2029}'
    ||| c == '\u{202f}'
    ||| c == '\u{205f}'
    ||| c == '\u{3000}'
}

/// `c.is_whitespace()`.
pub(crate) fn is_space_char(c: char) -> (b: bool)
    ensures
        b == is_space(c),
{
    ('\u{9}' <= c && c <= '\u{d}') || c == ' ' || c == '\u{85}' || c == '\u{a0}' || c == '\u{1680}'
        || ('\u{2000}' <= c && c <= '\u{200a}') || c == '\u{2028}' || c == '\u{2029}'
        || c == '\u{202f}' || c == '\u{205f}' || c == '\u{3000}'
}

/// Number of white-space characters at the start of `s`.
pub open spec fn lead_len(s: Seq<char>) -> nat
    decreases s.len(),
{
    if s.len() > 0 && is_space(s[0]) {
        1 + lead_len(s.drop_first())
    } else {
        0
    }
}

/// Number of white-space characters at the end of `s`.
pub open spec fn trail_len(s: Seq<char>) -> nat
    decreases s.len(),
{
    if s.len() > 0 && is_space(s.last()) {
        1 + trail_len(s.drop_last())
    } else {
        0
    }
}

/// `s` without its leading white space (`str::trim_start`).
pub open spec fn trim_start(s: Seq<char>) -> Seq<char> {
    s.skip(lead_len(s) as int)
}

/// `s` without its trailing white space (`str::trim_end`).
pub open spec fn trim_end(s: Seq<char>) -> Seq<char> {
    s.take(s.len() - trail_len(s))
}

/// `s` without leading and trailing white space (`str::trim`).
pub open spec fn trim(s: Seq<char>) -> Seq<char> {
    trim_start(trim_end(s))
}

pub(crate) proof fn lemma_lead_len(s: Seq<char>, i: int)
    requires
        0 <= i <= s.len(),
        forall|k: int| 0 <= k < i ==> is_space(#[trigger] s[k]),
        i == s.len() || !is_space(s[i]),
    ensures
        lead_len(s) == i,
    decreases i,
{
    if i > 0 {
        assert forall|k: int| 0 <= k < i - 1 implies is_space(#[trigger] s.drop_first()[k]) by {
            assert(s.drop_first()[k] == s[k + 1]);
        }
        lemma_lead_len(s.drop_first(), i - 1);
    }
}

proof fn lemma_trail_len(s: Seq<char>, j: int)
    requires
        0 <= j <= s.len(),
        forall|k: int| j <= k < s.len() ==> is_space(#[trigger] s[k]),
        j == 0 || !is_space(s[j - 1]),
    ensures
        trail_len(s) == s.len() - j,
    decreases s.len() - j,
{
    if j < s.len() {
        lemma_trail_len(s.drop_last(), j);
    }
}

/// `lead_len(s@)`: where `trim_start(s@)` begins.
pub(crate) fn lead_index(s: &Vec<char>) -> (i: usize)
    ensures
        i == lead_len(s@),
        i <= s.len(),
        trim_start(s@) == s@.skip(i as int),
{
    let mut i: usize = 0;
    while i < s.len() && is_space_char(s[i])
        invariant
            i <= s.len(),
            forall|k: int| 0 <= k < i ==> is_space(#[trigger] s@[k]),
        decreases s.len() - i,
    {
        i = i + 1;
    }
    proof {
        lemma_lead_len(s@, i as int);
    }
    i
}

/// Copies of the strings of `v`, in order.
pub(crate) fn copy_strings(v: &Vec<String>) -> (r: Vec<String>)
    ensures
        r@ == v@,
{
    let mut r: Vec<String> = Vec::new();
    for i in 0..v.len()
        invariant
            r@ == v@.take(i as int),
    {
        r.push(v[i].clone());
        assert(v@.take(i + 1) == v@.take(i as int).push(v@[i as int]));
    }
    assert(v@.take(v.len() as int) == v@);
    r
}

/// Bounds `[start, end)` of `trim(s)` inside `s`.
pub(crate) fn trim_bounds(s: &Vec<char>) -> (r: (usize, usize))
    ensures
        r.0 <= r.1 <= s.len(),
        trim(s@) == s@.subrange(r.0 as int, r.1 as int),
{
    let n = s.len();
    let mut j: usize = n;
    while j > 0 && is_space_char(s[j - 1])
        invariant
            j <= n == s.len(),
            forall|k: int| j <= k < n ==> is_space(#[trigger] s@[k]),
        decreases j,
    {
        j = j - 1;
    }
    proof {
        lemma_trail_len(s@, j as int);
    }
    let ghost e = s@.take(j as int);
    assert(trim_end(s@) == e);
    let mut i: usize = 0;
    while i < j && is_space_char(s[i])
        invariant
            i <= j <= n == s.len(),
            e == s@.take(j as int),
            forall|k: int| 0 <= k < i ==> is_space(#[trigger] s@[k]),
        decreases j - i,
    {
        i = i + 1;
    }
    proof {
        assert forall|k: int| 0 <= k < i implies is_space(#[trigger] e[k]) by {
            assert(e[k] == s@[k]);
        }
        lemma_lead_len(e, i as int);
    }
    assert(trim(s@) =~= s@.subrange(i as int, j as int));
    (i, j)
}

} // verus!

verus! {

/// The ASCII digit for `d < 10`.
pub open spec fn digit_char(d: nat) -> char {
    (d + 48) as char
}

/// The decimal representation of `n`, without sign or leading zeros
/// (what `u64::to_string` gives).
pub open spec fn decimal(n: nat) -> Seq<char>
    decreases n,
{
    if n < 10 {
        seq![digit_char(n)]
    } else {
        decimal(n / 10).push(digit_char(n % 10))
    }
}

pub(crate) fn push_decimal(out: &mut String, n: u64)
    ensures
        final(out)@ == old(out)@ + decimal(n as nat),
    decreases n,
{
    if n >= 10 {
        push_decimal(out, n / 10);
    }
    let d: u8 = (n % 10) as u8;
    let c: char = (48u8 + d) as char;
    crate::deps::push_char(out, c);
    proof {
        assert(c == digit_char((n % 10) as nat));
    }
}

/// `n.to_string()`.
pub fn decimal_string(n: u64) -> (s: String)
    ensures
        s@ == decimal(n as nat),
{
    let mut s = String::new();
    push_decimal(&mut s, n);
    s
}

/// An ASCII decimal digit.
pub open spec fn is_digit(c: char) -> bool {
    '0' <= c <= '9'
}

/// The value of the ASCII digit `c`.
pub open spec fn digit_value(c: char) -> nat {
    (c as int - 48) as nat
}

/// The number that a sequence of decimal digits denotes.
pub open spec fn digits_value(s: Seq<char>) -> nat
    decreases s.len(),
{
    if s.len() == 0 {
        0
    } else {
        digits_value(s.drop_last()) * 10 + digit_value(s.last())
    }
}

pub open spec fn all_digits(s: Seq<char>) -> bool {
    forall|i: int| 0 <= i < s.len() ==> is_digit(#[trigger] s[i])
}

/// The digits part of `s`: `s` without one leading `+`, if it has one.
pub open spec fn unsigned_digits(s: Seq<char>) -> Seq<char> {
    if s.len() > 0 && s[0] == '+' {
        s.drop_first()
    } else {
        s
    }
}

/// What `str::parse` of an unsigned integer type whose largest value is `max`
/// gives: an optional `+`, then at least one decimal digit and nothing else,
/// with a value that fits the type.
pub open spec fn parse_unsigned(s: Seq<char>, max: nat) -> Option<nat> {
    let d = unsigned_digits(s);
    if d.len() > 0 && all_digits(d) && digits_value(d) <= max {
        Some(digits_value(d))
    } else {
        None
    }
}

proof fn lemma_digits_value_prefix(s: Seq<char>, k: int)
    requires
        0 <= k <= s.len(),
    ensures
        digits_value(s.take(k)) <= digits_value(s),
    decreases s.len(),
{
    if k < s.len() {
        assert(s.drop_last().take(k) == s.take(k));
        lemma_digits_value_prefix(s.drop_last(), k);
    } else {
        assert(s.take(k) == s);
    }
}

/// `parse_unsigned` of the characters in `s`, for a `max` that fits in `u64`.
pub(crate) fn parse_unsigned_chars(s: &Vec<char>, max: u64) -> (r: Option<u64>)
    ensures
        r is None <==> parse_unsigned(s@, max as nat) is None,
        r matches Some(v) ==> parse_unsigned(s@, max as nat) == Some(v as nat),
{
    let n = s.len();
    let start: usize = if n > 0 && s[0] == '+' { 1 } else { 0 };
    let ghost d = unsigned_digits(s@);
    assert(d == s@.skip(start as int));
    if start == n {
        assert(d.len() == 0);
        return None;
    }
    let mut i: usize = start;
    while i < n
        invariant
            start <= i <= n == s.len(),
            d == s@.skip(start as int),
            d == unsigned_digits(s@),
            forall|k: int| 0 <= k < i - start ==> is_digit(#[trigger] d[k]),
        decreases n - i,
    {
        if !('0' <= s[i] && s[i] <= '9') {
            assert(!is_digit(d[i - start]));
            return None;
        }
        i = i + 1;
    }
    assert(all_digits(d));
    let mut val: u128 = 0;
    let mut i: usize = start;
    assert(d.take(0) == Seq::<char>::empty());
    while i < n
        invariant
            start <= i <= n == s.len(),
            d == s@.skip(start as int),
            d == unsigned_digits(s@),
            all_digits(d),
            val as nat == digits_value(d.take(i - start)),
            val <= max,
        decreases n - i,
    {
        let c = s[i];
        assert(c == d[i - start]);
        assert(is_digit(d[i - start]));
        let dv: u128 = (c as u32 - 48) as u128;
        let ghost t = d.take(i - start + 1);
        assert(t.drop_last() == d.take(i - start));
        assert(t.last() == c);
        assert(dv as nat == digit_value(c));
        assert(digits_value(t) == digits_value(d.take(i - start)) * 10 + digit_value(c));
        val = val * 10 + dv;
        assert(val as nat == digits_value(t));
        if val > max as u128 {
            proof {
                lemma_digits_value_prefix(d, i - start + 1);
            }
            return None;
        }
        i = i + 1;
    }
    assert(d.take(n - start) == d);
    Some(val as u64)
}

/// `s.parse::<u64>().ok()`.
pub fn parse_u64(s: &str) -> (r: Option<u64>)
    ensures
        match parse_unsigned(s@, u64::MAX as nat) {
            Some(n) => r == Some(n as u64),
            None => r is None,
        },
{
    parse_unsigned_chars(&chars_of(s), u64::MAX)
}

/// `s.parse::<u8>().ok()`.
pub fn parse_u8(s: &str) -> (r: Option<u8>)
    ensures
        match parse_unsigned(s@, u8::MAX as nat) {
            Some(n) => r == Some(n as u8),
            None => r is None,
        },
{
    match parse_unsigned_chars(&chars_of(s), u8::MAX as u64) {
        Some(v) => Some(v as u8),
        None => None,
    }
}

} // verus!

verus! {

/// The characters that `replace(&['<', '>', '@'][..], "")` removes.
pub open spec fn is_mention_mark(c: char) -> bool {
    c == '<' || c == '>' || c == '@'
}

/// `s` with every `<`, `>` and `@` removed.
pub open spec fn strip_marks(s: Seq<char>) -> Seq<char>
    decreases s.len(),
{
    if s.len() == 0 {
        Seq::empty()
    } else if is_mention_mark(s.last()) {
        strip_marks(s.drop_last())
    } else {
        strip_marks(s.drop_last()).push(s.last())
    }
}

/// `strip_marks` of `s[lo..hi]`.
pub(crate) fn strip_marks_range(s: &Vec<char>, lo: usize, hi: usize) -> (r: Vec<char>)
    requires
        lo <= hi <= s.len(),
    ensures
        r@ == strip_marks(s@.subrange(lo as int, hi as int)),
{
    let mut r: Vec<char> = Vec::new();
    let mut i: usize = lo;
    assert(s@.subrange(lo as int, lo as int) == Seq::<char>::empty());
    while i < hi
        invariant
            lo <= i <= hi <= s.len(),
            r@ == strip_marks(s@.subrange(lo as int, i as int)),
        decreases hi - i,
    {
        let c = s[i];
        assert(s@.subrange(lo as int, i + 1).drop_last() == s@.subrange(lo as int, i as int));
        if !(c == '<' || c == '>' || c == '@') {
            r.push(c);
        }
        i = i + 1;
    }
    r
}

/// The user id that a mention or a bare id in `s` names: `s` trimmed, with
/// `<`, `>` and `@` removed, parsed as a `u64`.
pub open spec fn mention_id(s: Seq<char>) -> Option<nat> {
    parse_unsigned(strip_marks(trim(s)), u64::MAX as nat)
}

/// `arg.trim().replace(&['<', '>', '@'][..], "").parse::<u64>().ok()`.
pub fn parse_mention(arg: &str) -> (r: Option<u64>)
    ensures
        match mention_id(arg@) {
            Some(n) => r == Some(n as u64),
            None => r is None,
        },
{
    let cs = chars_of(arg);
    let (lo, hi) = trim_bounds(&cs);
    let stripped = strip_marks_range(&cs, lo, hi);
    parse_unsigned_chars(&stripped, u64::MAX)
}

/// The mention of user `id` as the bot writes it: `<@id>`.
pub open spec fn mention(id: nat) -> Seq<char> {
    seq!['<', '@'] + decimal(id) + seq!['>']
}

/// `needle` occurs in `hay` at position `k`.
pub open spec fn occurs_at(hay: Seq<char>, needle: Seq<char>, k: int) -> bool {
    0 <= k && k + needle.len() <= hay.len() && hay.subrange(k, k + needle.len()) == needle
}

/// `hay.contains(needle)` for a string needle.
pub open spec fn contains_str(hay: Seq<char>, needle: Seq<char>) -> bool {
    exists|k: int| occurs_at(hay, needle, k)
}

/// `hay.starts_with(prefix)`.
pub open spec fn starts_with(hay: Seq<char>, prefix: Seq<char>) -> bool {
    prefix.len() <= hay.len() && hay.take(prefix.len() as int) == prefix
}

/// Whether `n[lo..hi]` occurs in `hay` at `k`.
pub(crate) fn occurs_at_range(hay: &Vec<char>, n: &Vec<char>, lo: usize, hi: usize, k: usize) -> (b: bool)
    requires
        lo <= hi <= n.len(),
        k + (hi - lo) <= hay.len(),
    ensures
        b == occurs_at(hay@, n@.subrange(lo as int, hi as int), k as int),
{
    let len = hi - lo;
    let mut i: usize = 0;
    while i < len
        invariant
            lo <= hi <= n.len(),
            len == hi - lo,
            k + len <= hay.len(),
            i <= len,
            forall|t: int| 0 <= t < i ==> hay@[k + t] == #[trigger] n@[lo + t],
        decreases len - i,
    {
        if hay[k + i] != n[lo + i] {
            assert(hay@.subrange(k as int, k + len)[i as int] != n@.subrange(lo as int, hi as int)[i as int]);
            return false;
        }
        i = i + 1;
    }
    assert forall|t: int| 0 <= t < len implies hay@.subrange(k as int, k + len)[t]
        == n@.subrange(lo as int, hi as int)[t] by {
        assert(hay@[k + t] == n@[lo + t]);
    }
    assert(hay@.subrange(k as int, k + len) =~= n@.subrange(lo as int, hi as int));
    true
}

/// Whether `n[lo..hi]` occurs anywhere in `hay`.
pub(crate) fn contains_range(hay: &Vec<char>, n: &Vec<char>, lo: usize, hi: usize) -> (b: bool)
    requires
        lo <= hi <= n.len(),
    ensures
        b == contains_str(hay@, n@.subrange(lo as int, hi as int)),
{
    let ghost needle = n@.subrange(lo as int, hi as int);
    let len = hi - lo;
    if len > hay.len() {
        assert forall|k: int| !occurs_at(hay@, needle, k) by {}
        return false;
    }
    let last = hay.len() - len;
    let mut k: usize = 0;
    loop
        invariant
            lo <= hi <= n.len(),
            len == hi - lo,
            needle == n@.subrange(lo as int, hi as int),
            last + len == hay.len(),
            k <= last,
            forall|t: int| 0 <= t < k ==> !occurs_at(hay@, needle, t),
        ensures
            forall|t: int| 0 <= t <= last ==> !occurs_at(hay@, needle, t),
        decreases last - k,
    {
        if occurs_at_range(hay, n, lo, hi, k) {
            return true;
        }
        if k == last {
            break;
        }
        k = k + 1;
    }
    assert forall|t: int| !occurs_at(hay@, needle, t) by {
        if 0 <= t <= last {
        }
    }
    false
}

/// `hay.contains(needle)`.
pub fn contains(hay: &str, needle: &str) -> (b: bool)
    ensures
        b == contains_str(hay@, needle@),
{
    let h = chars_of(hay);
    let n = chars_of(needle);
    assert(n@.subrange(0, n@.len() as int) == n@);
    contains_range(&h, &n, 0, n.len())
}

/// `hay.starts_with(prefix)` on characters.
pub(crate) fn starts_with_chars(hay: &Vec<char>, lo: usize, prefix: &Vec<char>) -> (b: bool)
    requires
        lo <= hay.len(),
    ensures
        b == starts_with(hay@.skip(lo as int), prefix@),
{
    let ghost h = hay@.skip(lo as int);
    if prefix.len() > hay.len() - lo {
        return false;
    }
    let mut i: usize = 0;
    while i < prefix.len()
        invariant
            h == hay@.skip(lo as int),
            lo + prefix.len() <= hay.len(),
            i <= prefix.len(),
            forall|t: int| 0 <= t < i ==> h[t] == #[trigger] prefix@[t],
        decreases prefix.len() - i,
    {
        if hay[lo + i] != prefix[i] {
            assert(h.take(prefix.len() as int)[i as int] != prefix@[i as int]);
            return false;
        }
        i = i + 1;
    }
    assert(h.take(prefix.len() as int) =~= prefix@);
    true
}

} // verus!

verus! {

/// Some string of `list` equals `w`.
pub open spec fn in_list(list: Seq<String>, w: Seq<char>) -> bool {
    exists|k: int| 0 <= k < list.len() && (#[trigger] list[k])@ == w
}

/// `list.contains(s)`.
pub fn list_contains(list: &Vec<String>, s: &String) -> (b: bool)
    ensures
        b == in_list(list@, s@),
{
    for i in 0..list.len()
        invariant
            forall|k: int| 0 <= k < i ==> (#[trigger] list@[k])@ != s@,
    {
        if list[i] == *s {
            assert(list@[i as int]@ == s@);
            return true;
        }
    }
    false
}

/// `s.take(i)` and `s.skip(i + 1)` where `i` is the first space (`' '`) of `s`.
pub open spec fn is_first_space(s: Seq<char>, i: int) -> bool {
    0 <= i < s.len() && s[i] == ' ' && forall|k: int| 0 <= k < i ==> s[k] != ' '
}

/// `s.split_once(' ')`: the text before and after the first space, if there is one.
pub open spec fn split_once_space(s: Seq<char>) -> Option<(Seq<char>, Seq<char>)> {
    if exists|i: int| is_first_space(s, i) {
        let i = choose|i: int| is_first_space(s, i);
        Some((s.take(i), s.skip(i + 1)))
    } else {
        None
    }
}

pub(crate) proof fn lemma_first_space_unique(s: Seq<char>, i: int, j: int)
    requires
        is_first_space(s, i),
        is_first_space(s, j),
    ensures
        i == j,
{
}

/// Index of the first space in `v`, and `split_once_space` of `v@` in terms of it.
pub(crate) fn find_space(v: &Vec<char>) -> (r: Option<usize>)
    ensures
        match r {
            Some(i) => is_first_space(v@, i as int) && split_once_space(v@) == Some(
                (v@.take(i as int), v@.skip(i + 1)),
            ),
            None => split_once_space(v@) is None,
        },
{
    for i in 0..v.len()
        invariant
            forall|k: int| 0 <= k < i ==> v@[k] != ' ',
    {
        if v[i] == ' ' {
            proof {
                assert(is_first_space(v@, i as int));
                let j = choose|j: int| is_first_space(v@, j);
                lemma_first_space_unique(v@, i as int, j);
            }
            return Some(i);
        }
    }
    None
}

/// `v[lo..hi]` as a `String`.
pub(crate) fn string_of_range(v: &Vec<char>, lo: usize, hi: usize) -> (s: String)
    requires
        lo <= hi <= v.len(),
    ensures
        s@ == v@.subrange(lo as int, hi as int),
{
    let mut s = String::new();
    let mut i: usize = lo;
    while i < hi
        invariant
            lo <= i <= hi <= v.len(),
            s@ == v@.subrange(lo as int, i as int),
        decreases hi - i,
    {
        crate::deps::push_char(&mut s, v[i]);
        assert(v@.subrange(lo as int, i + 1) == v@.subrange(lo as int, i as int).push(v@[i as int]));
        i = i + 1;
    }
    s
}

} // verus!

verus! {

/// Whether `v[lo..hi]` reads `lit`.
pub(crate) fn range_is(v: &Vec<char>, lo: usize, hi: usize, lit: &str) -> (b: bool)
    requires
        lo <= hi <= v.len(),
    ensures
        b == (v@.subrange(lo as int, hi as int) == lit@),
{
    let l = chars_of(lit);
    if l.len() != hi - lo {
        return false;
    }
    for i in 0..l.len()
        invariant
            l@ == lit@,
            l.len() == hi - lo,
            lo <= hi <= v.len(),
            forall|t: int| 0 <= t < i ==> v@[lo + t] == #[trigger] l@[t],
    {
        if v[lo + i] != l[i] {
            assert(v@.subrange(lo as int, hi as int)[i as int] != l@[i as int]);
            return false;
        }
    }
    assert forall|t: int| 0 <= t < l.len() implies v@.subrange(lo as int, hi as int)[t] == l@[t] by {
        assert(v@[lo + t] == l@[t]);
    }
    assert(v@.subrange(lo as int, hi as int) =~= l@);
    true
}

/// A copy of `v[lo..hi]`.
pub(crate) fn sub_vec(v: &Vec<char>, lo: usize, hi: usize) -> (r: Vec<char>)
    requires
        lo <= hi <= v.len(),
    ensures
        r@ == v@.subrange(lo as int, hi as int),
{
    let mut r: Vec<char> = Vec::new();
    let mut i: usize = lo;
    while i < hi
        invariant
            lo <= i <= hi <= v.len(),
            r@ == v@.subrange(lo as int, i as int),
        decreases hi - i,
    {
        r.push(v[i]);
        assert(v@.subrange(lo as int, i + 1) == v@.subrange(lo as int, i as int).push(v@[i as int]));
        i = i + 1;
    }
    r
}

/// `trim(s)` as a `Vec`.
pub(crate) fn trimmed(s: &Vec<char>) -> (r: Vec<char>)
    ensures
        r@ == trim(s@),
{
    let (lo, hi) = trim_bounds(s);
    sub_vec(s, lo, hi)
}

/// `parse_unsigned(strip_marks(v[lo..hi]), u64::MAX)`.
pub(crate) fn parse_marked_id(v: &Vec<char>, lo: usize, hi: usize) -> (r: Option<u64>)
    requires
        lo <= hi <= v.len(),
    ensures
        match parse_unsigned(strip_marks(v@.subrange(lo as int, hi as int)), u64::MAX as nat) {
            Some(n) => r == Some(n as u64),
            None => r is None,
        },
{
    let stripped = strip_marks_range(v, lo, hi);
    parse_unsigned_chars(&stripped, u64::MAX)
}

} // verus!

verus! {

proof fn lemma_decimal(n: nat)
    ensures
        decimal(n).len() > 0,
        all_digits(decimal(n)),
        digits_value(decimal(n)) == n,
    decreases n,
{
    assert(digit_value(digit_char(n % 10)) == n % 10);
    if n >= 10 {
        lemma_decimal(n / 10);
        assert(decimal(n).drop_last() == decimal(n / 10));
        assert(decimal(n).last() == digit_char(n % 10));
        assert(n == (n / 10) * 10 + n % 10);
        assert(digits_value(decimal(n)) == digits_value(decimal(n / 10)) * 10 + n % 10);
        assert forall|i: int| 0 <= i < decimal(n).len() implies is_digit(#[trigger] decimal(n)[i]) by {
            if i < decimal(n / 10).len() {
                assert(decimal(n)[i] == decimal(n / 10)[i]);
            }
        }
    } else {
        let d = decimal(n);
        assert(d.drop_last() == Seq::<char>::empty());
        assert(digits_value(Seq::<char>::empty()) == 0);
        assert(d.last() == digit_char(n));
        assert(digits_value(d) == n);
    }
}

/// Parsing the decimal text of a number gives the number back, whenever it
/// fits the type (`n.to_string().parse() == Ok(n)`).
pub proof fn lemma_decimal_round_trip(n: nat, max: nat)
    requires
        n <= max,
    ensures
        parse_unsigned(decimal(n), max) == Some(n),
{
    lemma_decimal(n);
    assert(is_digit(decimal(n)[0]));
    assert(unsigned_digits(decimal(n)) == decimal(n));
}

proof fn lemma_strip_marks_add(a: Seq<char>, b: Seq<char>)
    ensures
        strip_marks(a + b) == strip_marks(a) + strip_marks(b),
    decreases b.len(),
{
    if b.len() == 0 {
        assert(a + b == a);
    } else {
        lemma_strip_marks_add(a, b.drop_last());
        assert((a + b).drop_last() == a + b.drop_last());
        assert((a + b).last() == b.last());
    }
}

proof fn lemma_strip_marks_digits(s: Seq<char>)
    requires
        all_digits(s),
    ensures
        strip_marks(s) == s,
    decreases s.len(),
{
    if s.len() > 0 {
        assert(all_digits(s.drop_last()));
        lemma_strip_marks_digits(s.drop_last());
        assert(is_digit(s[s.len() - 1]));
        assert(s.drop_last().push(s.last()) == s);
    }
}

/// A mention written by the bot, `<@id>`, names user `id` again when it is
/// read back as the argument of a command.
pub proof fn lemma_mention_round_trip(id: u64)
    ensures
        mention_id(mention(id as nat)) == Some(id as nat),
{
    let d = decimal(id as nat);
    let m = mention(id as nat);
    lemma_decimal(id as nat);
    assert(m[0] == '<');
    assert(m.last() == '>');
    assert(lead_len(m) == 0);
    assert(trail_len(m) == 0);
    assert(m.take(m.len() as int) == m);
    assert(m.skip(0) == m);
    assert(trim(m) == m);
    lemma_strip_marks_add(seq!['<', '@'], d);
    lemma_strip_marks_add(seq!['<', '@'] + d, seq!['>']);
    lemma_strip_marks_digits(d);
    assert(seq!['<', '@'].drop_last() == seq!['<']);
    assert(seq!['<'].drop_last() == Seq::<char>::empty());
    assert(strip_marks(Seq::<char>::empty()) == Seq::<char>::empty());
    assert(strip_marks(seq!['<']) == Seq::<char>::empty());
    assert(strip_marks(seq!['<', '@']) == Seq::<char>::empty());
    assert(seq!['>'].drop_last() == Seq::<char>::empty());
    assert(strip_marks(seq!['>']) == Seq::<char>::empty());
    assert(strip_marks(m) == d);
    lemma_decimal_round_trip(id as nat, u64::MAX as nat);
}

} // verus!
