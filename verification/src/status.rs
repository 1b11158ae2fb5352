use vstd::prelude::*;
use crate::config::Stat;
use crate::text::copy_strings;

verus! {

/// The rotation of the bot's "playing" status: the statuses are shown one
/// after the other, each for `delay` seconds, round after round; when
/// `randomize` is set, each round starts with a new random order.
pub struct StatusCycle {
    list: Vec<String>,
    randomize: bool,
    delay: u16,
    pos: usize,
    configured: Ghost<Seq<String>>,
}

impl StatusCycle {
    /// The statuses in the order of the current round.
    pub closed spec fn order(self) -> Seq<String> {
        self.list@
    }

    /// Where in `order()` the next status is.
    pub closed spec fn position(self) -> nat {
        self.pos as nat
    }

    /// The statuses as the configuration lists them.
    pub closed spec fn configured(self) -> Seq<String> {
        self.configured@
    }

    /// How long each status is shown, in seconds.
    pub closed spec fn delay(self) -> u16 {
        self.delay
    }

    /// Whether each round is shown in a new random order.
    pub closed spec fn randomize(self) -> bool {
        self.randomize
    }

    /// The order is a permutation of the configured statuses, and the position
    /// is inside it (or 0 when there is no status).
    pub closed spec fn wf(self) -> bool {
        &&& self.list@.to_multiset() == self.configured@.to_multiset()
        &&& self.pos < self.list.len() || (self.pos == 0 && self.list.len() == 0)
    }

    /// The rotation that the configuration asks for; `None` when the status
    /// feature is off.
    pub fn new(stat: &Stat) -> (r: Option<StatusCycle>)
        ensures
            r is None <==> !stat.enable,
            r matches Some(c) ==> {
                &&& c.wf()
                &&& c.order() == stat.status_list@
                &&& c.configured() == stat.status_list@
                &&& c.position() == 0
                &&& c.delay() == stat.status_delay
                &&& c.randomize() == stat.randomize
            },
    {
        if !stat.enable {
            return None;
        }
        Some(
            StatusCycle {
                list: copy_strings(&stat.status_list),
                randomize: stat.randomize,
                delay: stat.status_delay,
                pos: 0,
                configured: Ghost(stat.status_list@),
            },
        )
    }

    /// One call of `next` takes `old` to `new` and gives `r`: the position
    /// moves on by one, round after round; a round in random order starts
    /// with a permutation of the statuses, any other call keeps the order; the
    /// status given is the one at the old position in the new order, and it
    /// is always a configured one.
    pub open spec fn step(old: StatusCycle, new: StatusCycle, r: Option<(String, u16)>) -> bool {
        &&& new.wf()
        &&& new.configured() == old.configured()
        &&& new.delay() == old.delay()
        &&& new.randomize() == old.randomize()
        &&& old.order().len() == 0 ==> r is None && new.order() == old.order() && new.position()
            == old.position()
        &&& old.order().len() > 0 ==> (r matches Some((s, d)) && {
            &&& d == old.delay()
            &&& if old.randomize() && old.position() == 0 {
                new.order().to_multiset() == old.order().to_multiset()
            } else {
                new.order() == old.order()
            }
            &&& new.order().len() == old.order().len()
            &&& s == new.order()[old.position() as int]
            &&& new.position() == (old.position() + 1) % old.order().len()
        })
        &&& r matches Some((s, _)) ==> old.configured().contains(s)
    }

    /// The next status to show, and for how many seconds; `None` when there
    /// is no status at all. A round in random order is shuffled when it
    /// starts.
    pub fn next(&mut self) -> (r: Option<(String, u16)>)
        requires
            old(self).wf(),
        ensures
            Self::step(*old(self), *final(self), r),
    {
        proof {
            self.list@.to_multiset_ensures();
        }
        if self.list.len() == 0 {
            return None;
        }
        if self.randomize && self.pos == 0 {
            crate::deps::shuffle_strings(&mut self.list);
            proof {
                self.list@.to_multiset_ensures();
            }
        }
        let s = self.list[self.pos].clone();
        proof {
            let x = self.list@[self.pos as int];
            assert(self.list@.contains(x));
            assert(self.list@.to_multiset().count(x) > 0);
            self.configured@.to_multiset_ensures();
        }
        proof {
            let n = self.list.len() as nat;
            if self.pos + 1 == n {
                vstd::arithmetic::div_mod::lemma_mod_self_0(n as int);
            } else {
                vstd::arithmetic::div_mod::lemma_small_mod((self.pos + 1) as nat, n);
            }
        }
        self.pos = if self.pos + 1 == self.list.len() { 0 } else { self.pos + 1 };
        Some((s, self.delay))
    }
}

proof fn lemma_round_prefix(states: Seq<StatusCycle>, outs: Seq<(String, u16)>, k: int)
    requires
        states.len() == outs.len() + 1,
        outs.len() == states[0].order().len(),
        outs.len() > 0,
        states[0].wf(),
        states[0].position() == 0,
        forall|j: int|
            0 <= j < outs.len() ==> StatusCycle::step(#[trigger] states[j], states[j + 1], Some(outs[j])),
        1 <= k <= outs.len(),
    ensures
        states[k].order() == states[1].order(),
        states[k].order().len() == outs.len(),
        states[k].position() == if k == outs.len() { 0 } else { k },
        states[k].wf(),
        states[k].configured() == states[0].configured(),
        states[k].randomize() == states[0].randomize(),
        forall|j: int| 0 <= j < k ==> (#[trigger] outs[j]).0 == states[1].order()[j],
    decreases k,
{
    let n = outs.len() as int;
    if k == 1 {
        assert(StatusCycle::step(states[0], states[1], Some(outs[0])));
        if n == 1 {
            vstd::arithmetic::div_mod::lemma_mod_self_0(n);
        } else {
            vstd::arithmetic::div_mod::lemma_small_mod(1, n as nat);
        }
    } else {
        lemma_round_prefix(states, outs, k - 1);
        assert(StatusCycle::step(states[k - 1], states[k], Some(outs[k - 1])));
        if k == n {
            vstd::arithmetic::div_mod::lemma_mod_self_0(n);
        } else {
            vstd::arithmetic::div_mod::lemma_small_mod(k as nat, n as nat);
        }
    }
}

/// The statuses that a run of `next` calls showed, in order.
pub open spec fn shown(outs: Seq<(String, u16)>) -> Seq<String> {
    outs.map_values(|o: (String, u16)| o.0)
}

proof fn lemma_one_round(states: Seq<StatusCycle>, outs: Seq<(String, u16)>)
    requires
        is_run(states, outs),
        outs.len() == states[0].order().len(),
        outs.len() > 0,
        states[0].wf(),
        states[0].position() == 0,
    ensures
        shown(outs) == states[1].order(),
        states[1].order().to_multiset() == states[0].configured().to_multiset(),
        !states[0].randomize() ==> states[1].order() == states[0].order(),
        states[outs.len() as int].position() == 0,
        states[outs.len() as int].wf(),
        states[outs.len() as int].configured() == states[0].configured(),
        states[outs.len() as int].order().len() == outs.len(),
        states[outs.len() as int].randomize() == states[0].randomize(),
{
    reveal(is_run);
    lemma_round_prefix(states, outs, outs.len() as int);
    assert(StatusCycle::step(states[0], states[1], Some(outs[0])));
    assert(shown(outs) =~= states[1].order());
}

/// Round `r` (of `n` calls each) shows, in order, the statuses of that
/// round's order, which is a permutation of the configured list, and the
/// configured order itself when `randomize` is off.
pub open spec fn round_shows_all(
    states: Seq<StatusCycle>,
    outs: Seq<(String, u16)>,
    n: int,
    r: int,
) -> bool {
    &&& shown(outs).subrange(r * n, r * n + n) == states[r * n + 1].order()
    &&& states[r * n + 1].order().to_multiset() == states[0].configured().to_multiset()
    &&& !states[0].randomize() ==> states[r * n + 1].order() == states[0].order()
}

/// `states` and `outs` are a run of `next` calls.
#[verifier::opaque]
pub open spec fn is_run(states: Seq<StatusCycle>, outs: Seq<(String, u16)>) -> bool {
    &&& states.len() == outs.len() + 1
    &&& forall|j: int|
        0 <= j < outs.len() ==> StatusCycle::step(#[trigger] states[j], states[j + 1], Some(outs[j]))
}

proof fn lemma_run_slice(states: Seq<StatusCycle>, outs: Seq<(String, u16)>, a: int, b: int)
    requires
        is_run(states, outs),
        0 <= a <= b <= outs.len(),
    ensures
        is_run(states.subrange(a, b + 1), outs.subrange(a, b)),
{
    reveal(is_run);
    let s2 = states.subrange(a, b + 1);
    let o2 = outs.subrange(a, b);
    assert forall|j: int| 0 <= j < o2.len() implies StatusCycle::step(
        #[trigger] s2[j],
        s2[j + 1],
        Some(o2[j]),
    ) by {
        assert(StatusCycle::step(states[a + j], states[a + j + 1], Some(outs[a + j])));
    }
}

proof fn lemma_fixed_order(states: Seq<StatusCycle>, outs: Seq<(String, u16)>, k: int)
    requires
        is_run(states, outs),
        !states[0].randomize(),
        0 <= k <= outs.len(),
    ensures
        states[k].order() == states[0].order(),
        !states[k].randomize(),
    decreases k,
{
    reveal(is_run);
    if k > 0 {
        lemma_fixed_order(states, outs, k - 1);
        assert(StatusCycle::step(states[k - 1], states[k], Some(outs[k - 1])));
    }
}

proof fn lemma_earlier_round(
    states: Seq<StatusCycle>,
    outs: Seq<(String, u16)>,
    n: int,
    m: int,
    r: int,
)
    requires
        0 <= m <= outs.len(),
        states.len() == outs.len() + 1,
        n > 0,
        0 <= r,
        r * n + n <= m,
        round_shows_all(states.take(m + 1), outs.take(m), n, r),
    ensures
        round_shows_all(states, outs, n, r),
{
    assert(r * n >= 0) by (nonlinear_arith)
        requires
            r >= 0,
            n > 0,
    ;
    assert(shown(outs.take(m)).subrange(r * n, r * n + n) =~= shown(outs).subrange(r * n, r * n + n));
    assert(states.take(m + 1)[r * n + 1] == states[r * n + 1]);
    assert(states.take(m + 1)[0] == states[0]);
}

/// The rotating status shows every configured status exactly once in every
/// round: over `rounds` rounds of as many `next` calls as there are
/// statuses, started at the beginning of the list, each round shows a
/// permutation of the configured statuses (the configured order itself when
/// `randomize` is off), and the rotation is back at the beginning after each.
pub proof fn lemma_every_round_shows_each_once(
    states: Seq<StatusCycle>,
    outs: Seq<(String, u16)>,
    n: int,
    rounds: int,
)
    requires
        n == states[0].order().len(),
        n > 0,
        rounds >= 0,
        outs.len() == rounds * n,
        states.len() == outs.len() + 1,
        is_run(states, outs),
        states[0].wf(),
        states[0].position() == 0,
    ensures
        forall|r: int| 0 <= r < rounds ==> #[trigger] round_shows_all(states, outs, n, r),
        states[outs.len() as int].position() == 0,
        states[outs.len() as int].wf(),
        states[outs.len() as int].configured() == states[0].configured(),
        states[outs.len() as int].order().len() == n,
        states[outs.len() as int].randomize() == states[0].randomize(),
    decreases rounds,
{
    if rounds > 0 {
        let m = (rounds - 1) * n;
        assert(m + n == rounds * n && m >= 0) by (nonlinear_arith)
            requires
                m == (rounds - 1) * n,
                rounds >= 1,
                n > 0,
        ;
        let s1 = states.take(m + 1);
        let o1 = outs.take(m);
        assert(s1[0] == states[0]);
        lemma_run_slice(states, outs, 0, m);
        assert(s1 == states.subrange(0, m + 1));
        assert(o1 == outs.subrange(0, m));
        lemma_every_round_shows_each_once(s1, o1, n, rounds - 1);
        let s2 = states.subrange(m, m + n + 1);
        let o2 = outs.subrange(m, m + n);
        lemma_run_slice(states, outs, m, m + n);
        assert(s2[0] == states[m]);
        assert(s1[m] == states[m]);
        lemma_one_round(s2, o2);
        assert(shown(o2) =~= shown(outs).subrange(m, m + n));
        assert(s2[1] == states[m + 1]);
        assert(s2[n] == states[outs.len() as int]);
        if !states[0].randomize() {
            lemma_fixed_order(states, outs, m + 1);
        }
        assert(round_shows_all(states, outs, n, rounds - 1));
        assert forall|r: int| 0 <= r < rounds implies #[trigger] round_shows_all(states, outs, n, r) by {
            if r < rounds - 1 {
                assert(r * n + n <= m) by (nonlinear_arith)
                    requires
                        m == (rounds - 1) * n,
                        r < rounds - 1,
                        n > 0,
                ;
                assert(round_shows_all(s1, o1, n, r));
                lemma_earlier_round(states, outs, n, m, r);
            }
        }
    }
}

} // verus!
