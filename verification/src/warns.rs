use vstd::prelude::*;
use crate::deps::{MAX_TIMESTAMP, MIN_TIMESTAMP, timestamp_text, format_timestamp};
use crate::text::{decimal, decimal_string, mention};

verus! {

/// One warning that a moderator gave a user.
pub struct Warns {
    pub user: u64,
    pub reason: String,
    pub moderator: u64,
    pub time: u64,
}

/// The warnings of `ws` that are not for `user`, in their order.
pub open spec fn without_user(ws: Seq<Warns>, user: u64) -> Seq<Warns>
    decreases ws.len(),
{
    if ws.len() == 0 {
        Seq::empty()
    } else if ws.last().user == user {
        without_user(ws.drop_last(), user)
    } else {
        without_user(ws.drop_last(), user).push(ws.last())
    }
}

/// The lines that list one warning.
pub open spec fn warn_block(w: Warns) -> Seq<char> {
    "User: "@ + mention(w.user as nat) + " \nReason: "@ + w.reason@ + " \nModerator: "@ + mention(
        w.moderator as nat,
    ) + " \nTime: "@ + timestamp_text(w.time as i64) + "\n\n"@
}

/// The blocks of all warnings in `ws`, one after the other.
pub open spec fn warn_blocks(ws: Seq<Warns>) -> Seq<char>
    decreases ws.len(),
{
    if ws.len() == 0 {
        Seq::empty()
    } else {
        warn_blocks(ws.drop_last()) + warn_block(ws.last())
    }
}

/// Every warning's time, taken as a signed timestamp (`time as i64`), can be
/// shown as a date.
pub open spec fn times_in_range(ws: Seq<Warns>) -> bool {
    forall|i: int|
        0 <= i < ws.len() ==> MIN_TIMESTAMP <= (#[trigger] ws[i]).time as i64 <= MAX_TIMESTAMP
}

/// Removes every warning of `user`, keeping the others in order.
pub fn remove_user(warns: &mut Vec<Warns>, user: u64)
    ensures
        final(warns)@ == without_user(old(warns)@, user),
{
    let ghost orig = warns@;
    assert(orig.len() == warns.len());
    let mut i: usize = 0;
    let mut k: usize = 0;
    assert(orig.take(0) == Seq::<Warns>::empty());
    assert(orig.skip(0) == orig);
    while i < warns.len()
        invariant
            k <= orig.len() <= usize::MAX,
            warns@.len() == i + (orig.len() - k),
            without_user(orig.take(k as int), user).len() == i,
            warns@ == without_user(orig.take(k as int), user) + orig.skip(k as int),
        decreases warns.len() - i,
    {
        assert(orig.take(k + 1).drop_last() == orig.take(k as int));
        assert(warns@[i as int] == orig[k as int]);
        assert(orig.skip(k as int) == seq![orig[k as int]] + orig.skip(k + 1));
        if warns[i].user == user {
            let _ = warns.remove(i);
            assert(warns@ =~= without_user(orig.take(k + 1), user) + orig.skip(k + 1));
        } else {
            assert(warns@ =~= without_user(orig.take(k + 1), user) + orig.skip(k + 1));
            i = i + 1;
        }
        k = k + 1;
    }
    assert(orig.take(k as int) == orig);
    assert(warns@ =~= without_user(orig, user));
}

/// Appends `<@id>` to `out`.
fn push_mention(out: &mut String, id: u64)
    ensures
        final(out)@ == old(out)@ + mention(id as nat),
{
    out.append("<@");
    out.append(decimal_string(id).as_str());
    out.append(">");
    proof {
        reveal_strlit("<@");
        reveal_strlit(">");
    }
    assert(final(out)@ =~= old(out)@ + mention(id as nat));
}

/// The text that lists `warns`, one block per warning; `No Results!` when
/// there is none.
pub(crate) fn list_text(warns: &Vec<Warns>) -> (r: String)
    requires
        times_in_range(warns@),
    ensures
        warns.len() == 0 ==> r@ == "No Results!"@,
        warns.len() > 0 ==> r@ == warn_blocks(warns@),
{
    if warns.len() == 0 {
        return String::from_str("No Results!");
    }
    let mut out = String::new();
    assert(warns@.take(0) == Seq::<Warns>::empty());
    for i in 0..warns.len()
        invariant
            times_in_range(warns@),
            out@ == warn_blocks(warns@.take(i as int)),
    {
        let w = &warns[i];
        assert(warns@.take(i + 1).drop_last() == warns@.take(i as int));
        assert(MIN_TIMESTAMP <= warns@[i as int].time as i64 <= MAX_TIMESTAMP);
        let ghost before = out@;
        out.append("User: ");
        push_mention(&mut out, w.user);
        out.append(" \nReason: ");
        out.append(w.reason.as_str());
        out.append(" \nModerator: ");
        push_mention(&mut out, w.moderator);
        out.append(" \nTime: ");
        out.append(format_timestamp(w.time as i64).as_str());
        out.append("\n\n");
        assert(out@ =~= before + warn_block(*w));
    }
    assert(warns@.take(warns.len() as int) == warns@);
    out
}

} // verus!

verus! {

/// A warning just recorded for a user goes away with `!rm` of that user,
/// together with the user's older ones: the list is as if the user had never
/// been warned.
pub proof fn lemma_rm_after_warn(ws: Seq<Warns>, w: Warns)
    ensures
        without_user(ws.push(w), w.user) == without_user(ws, w.user),
{
    assert(ws.push(w).drop_last() == ws);
}

/// After `!rm` of a user no warning of that user is left, every warning of
/// another user is still there, and a second `!rm` of the same user changes
/// nothing.
pub proof fn lemma_rm_clears_user(ws: Seq<Warns>, user: u64)
    ensures
        forall|i: int|
            0 <= i < without_user(ws, user).len() ==> (#[trigger] without_user(ws, user)[i]).user
                != user,
        forall|i: int|
            0 <= i < ws.len() && (#[trigger] ws[i]).user != user ==> without_user(
                ws,
                user,
            ).contains(ws[i]),
        without_user(without_user(ws, user), user) == without_user(ws, user),
    decreases ws.len(),
{
    if ws.len() > 0 {
        let rest = ws.drop_last();
        lemma_rm_clears_user(rest, user);
        assert forall|i: int| 0 <= i < ws.len() && (#[trigger] ws[i]).user != user implies without_user(
            ws,
            user,
        ).contains(ws[i]) by {
            if i < ws.len() - 1 {
                assert(rest[i] == ws[i]);
                let j = choose|j: int|
                    0 <= j < without_user(rest, user).len() && without_user(rest, user)[j] == ws[i];
                if ws.last().user != user {
                    assert(without_user(ws, user)[j] == ws[i]);
                }
            } else {
                assert(without_user(ws, user).last() == ws[i]);
            }
        }
        if ws.last().user != user {
            let r = without_user(ws, user);
            assert(r.drop_last() == without_user(rest, user));
        }
    }
}

/// A warning recorded last is listed last by `!ls`.
pub proof fn lemma_new_warn_listed_last(ws: Seq<Warns>, w: Warns)
    ensures
        warn_blocks(ws.push(w)) == warn_blocks(ws) + warn_block(w),
{
    assert(ws.push(w).drop_last() == ws);
}

} // verus!

verus! {

/// The blocks of the first `i` warnings are where the list starts, and the
/// block of warning `i` comes right after them.
proof fn lemma_blocks_prefix(ws: Seq<Warns>, i: int)
    requires
        0 <= i < ws.len(),
    ensures
        warn_blocks(ws.take(i + 1)) == warn_blocks(ws.take(i)) + warn_block(ws[i]),
        warn_blocks(ws.take(i + 1)).len() <= warn_blocks(ws).len(),
        warn_blocks(ws) =~= warn_blocks(ws.take(i + 1)) + warn_blocks(ws).skip(
            warn_blocks(ws.take(i + 1)).len() as int,
        ),
    decreases ws.len(),
{
    assert(ws.take(i + 1).drop_last() == ws.take(i));
    if i + 1 < ws.len() {
        let rest = ws.drop_last();
        lemma_blocks_prefix(rest, i);
        assert(rest.take(i + 1) == ws.take(i + 1));
        assert(rest.take(i) == ws.take(i));
        assert(warn_blocks(ws) == warn_blocks(rest) + warn_block(ws.last()));
    } else {
        assert(ws.take(i + 1) == ws);
    }
}

/// `!ls` lists the warnings in their order, one block each, from the start
/// of the text to its end with nothing in between: `User: ` and the user's
/// mention, then the whole reason as it was given between `" \nReason: "` and
/// `" \nModerator: "`, the moderator's mention, and the time line.
#[verifier::spinoff_prover]
pub proof fn lemma_listed_reason_is_verbatim(ws: Seq<Warns>, i: int)
    requires
        0 <= i < ws.len(),
    ensures
        ({
            let start = warn_blocks(ws.take(i)).len() as int;
            let head = "User: "@ + ("<@"@ + decimal(ws[i].user as nat) + ">"@);
            let mid = " \nReason: "@ + ws[i].reason@ + " \nModerator: "@ + ("<@"@ + decimal(
                ws[i].moderator as nat,
            ) + ">"@);
            let tail = " \nTime: "@ + timestamp_text(ws[i].time as i64) + "\n\n"@;
            let at = start + head.len();
            let end = at + mid.len() + tail.len();
            &&& end <= warn_blocks(ws).len()
            &&& warn_blocks(ws).subrange(start, at) == head
            &&& warn_blocks(ws).subrange(at, at + mid.len()) == mid
            &&& warn_blocks(ws).subrange(at + mid.len(), end) == tail
            &&& end == warn_blocks(ws.take(i + 1)).len()
            &&& i == 0 ==> start == 0
            &&& i == ws.len() - 1 ==> end == warn_blocks(ws).len()
        }),
{
    let listed = ws[i];
    let head = "User: "@ + ("<@"@ + decimal(listed.user as nat) + ">"@);
    let mid = " \nReason: "@ + listed.reason@ + " \nModerator: "@ + ("<@"@ + decimal(
        listed.moderator as nat,
    ) + ">"@);
    let tail = " \nTime: "@ + timestamp_text(listed.time as i64) + "\n\n"@;
    let all = warn_blocks(ws);
    let before = warn_blocks(ws.take(i));
    lemma_blocks_prefix(ws, i);
    lemma_block_parts(listed);
    let rest = all.skip(warn_blocks(ws.take(i + 1)).len() as int);
    assert(all =~= before + (head + mid + tail) + rest);
    lemma_piece(all, before, head, mid + tail + rest);
    lemma_piece(all, before + head, mid, tail + rest);
    lemma_piece(all, before + head + mid, tail, rest);
    if i == 0 {
        assert(ws.take(0) == Seq::<Warns>::empty());
    }
    if i == ws.len() - 1 {
        assert(ws.take(i + 1) == ws);
    }
}

/// The block of a warning, cut where the reason's line starts and where the
/// time's line starts.
#[verifier::spinoff_prover]
proof fn lemma_block_parts(warning: Warns)
    ensures
        ({
            let head = "User: "@ + ("<@"@ + decimal(warning.user as nat) + ">"@);
            let mid = " \nReason: "@ + warning.reason@ + " \nModerator: "@ + ("<@"@ + decimal(
                warning.moderator as nat,
            ) + ">"@);
            let tail = " \nTime: "@ + timestamp_text(warning.time as i64) + "\n\n"@;
            warn_block(warning) == head + mid + tail
        }),
{
    reveal_strlit("<@");
    reveal_strlit(">");
    let head = "User: "@ + ("<@"@ + decimal(warning.user as nat) + ">"@);
    let mid = " \nReason: "@ + warning.reason@ + " \nModerator: "@ + ("<@"@ + decimal(
        warning.moderator as nat,
    ) + ">"@);
    let tail = " \nTime: "@ + timestamp_text(warning.time as i64) + "\n\n"@;
    assert(mention(warning.user as nat) =~= "<@"@ + decimal(warning.user as nat) + ">"@);
    assert(mention(warning.moderator as nat) =~= "<@"@ + decimal(warning.moderator as nat) + ">"@);
    assert(warn_block(warning) =~= head + mid + tail);
}

/// A piece of a text made of three pieces is found where the first one ends.
proof fn lemma_piece(all: Seq<char>, a: Seq<char>, piece: Seq<char>, b: Seq<char>)
    requires
        all =~= a + piece + b,
    ensures
        a.len() + piece.len() <= all.len(),
        all.subrange(a.len() as int, (a.len() + piece.len()) as int) == piece,
{
    assert(all.subrange(a.len() as int, (a.len() + piece.len()) as int) =~= piece);
}

} // verus!
