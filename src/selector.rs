//! Choosing the queue of a topic that a message is sent to.

use vstd::prelude::*;

verus! {

/// The counter after one more selection; it starts over after the largest.
pub open spec fn next_count(c: u64) -> u64 {
    if c == u64::MAX {
        0
    } else {
        (c + 1) as u64
    }
}

/// The queue indices that `n` selections over `queue_count` queues give,
/// starting from counter `c`.
pub open spec fn rotation(c: int, queue_count: int, n: nat) -> Seq<int> {
    Seq::new(n, |i: int| (c + i) % queue_count)
}

/// How many times `x` occurs in `s`.
pub open spec fn occurrences(s: Seq<int>, x: int) -> nat
    decreases s.len(),
{
    if s.len() == 0 {
        0
    } else {
        occurrences(s.drop_last(), x) + if s.last() == x {
            1nat
        } else {
            0nat
        }
    }
}

/// Round-robin selection: one counter per topic, zero before first use.
#[derive(Debug, Clone)]
pub struct RoundRobinQueueSelector {
    counters: Vec<(String, u64)>,
}

impl RoundRobinQueueSelector {
    /// Each topic is listed once.
    pub closed spec fn wf(&self) -> bool {
        forall|i: int, j: int|
            0 <= i < j < self.counters@.len() ==> self.counters@[i].0@ != self.counters@[j].0@
    }

    /// The counters of the topics that were selected for.
    pub closed spec fn view(&self) -> Map<Seq<char>, u64> {
        Map::new(
            |t: Seq<char>| exists|i: int| 0 <= i < self.counters@.len() && self.counters@[i].0@ == t,
            |t: Seq<char>|
                self.counters@[choose|i: int|
                    0 <= i < self.counters@.len() && self.counters@[i].0@ == t].1,
        )
    }

    /// The counter of `topic`.
    pub open spec fn count_of(&self, topic: Seq<char>) -> u64 {
        if self@.contains_key(topic) {
            self@[topic]
        } else {
            0
        }
    }

    proof fn lemma_view_at(&self, i: int)
        requires
            self.wf(),
            0 <= i < self.counters@.len(),
        ensures
            self@.contains_key(self.counters@[i].0@),
            self@[self.counters@[i].0@] == self.counters@[i].1,
    {
        let t = self.counters@[i].0@;
        assert(0 <= i < self.counters@.len() && self.counters@[i].0@ == t);
        let j = choose|j: int| 0 <= j < self.counters@.len() && self.counters@[j].0@ == t;
        assert(i == j);
    }

    pub fn new() -> (r: Self)
        ensures
            r.wf(),
            r@ == Map::<Seq<char>, u64>::empty(),
    {
        let r = RoundRobinQueueSelector { counters: Vec::new() };
        assert(r@ =~= Map::<Seq<char>, u64>::empty());
        r
    }

    /// The queue of `topic` to send to next, out of `queue_count`; moves the
    /// topic's counter on and leaves every other topic's alone.
    pub fn select(&mut self, topic: &str, queue_count: usize) -> (r: usize)
        requires
            old(self).wf(),
            queue_count > 0,
        ensures
            final(self).wf(),
            r == old(self).count_of(topic@) % (queue_count as u64),
            final(self)@ == old(self)@.insert(topic@, next_count(old(self).count_of(topic@))),
    {
        let t = String::from_str(topic);
        let n = self.counters.len();
        let mut i: usize = 0;
        while i < n
            invariant
                n == self.counters@.len(),
                i <= n,
                forall|k: int| 0 <= k < i ==> self.counters@[k].0@ != topic@,
                *self == *old(self),
                queue_count > 0,
                self.wf(),
                t@ == topic@,
            decreases n - i,
        {
            if self.counters[i].0 == t {
                let c = self.counters[i].1;
                let next = if c == u64::MAX {
                    0
                } else {
                    c + 1
                };
                let ghost before = *self;
                self.counters.set(i, (t, next));
                proof {
                    before.lemma_view_at(i as int);
                    assert(before.count_of(topic@) == c);
                    assert forall|j: int, k: int|
                        0 <= j < k < self.counters@.len() implies self.counters@[j].0@
                        != self.counters@[k].0@ by {
                        assert(before.counters@[j].0@ != before.counters@[k].0@);
                    }
                    assert forall|key: Seq<char>| #[trigger]
                        self@.contains_key(key) == before@.insert(topic@, next).contains_key(
                            key,
                        ) by {
                        if before@.contains_key(key) {
                            let j = choose|j: int|
                                0 <= j < before.counters@.len() && before.counters@[j].0@ == key;
                            assert(self.counters@[j].0@ == key);
                        }
                        if self@.contains_key(key) {
                            let j = choose|j: int|
                                0 <= j < self.counters@.len() && self.counters@[j].0@ == key;
                            assert(before.counters@[j].0@ == key);
                        }
                    }
                    assert forall|key: Seq<char>| #[trigger] self@.contains_key(key) implies self@[key]
                        == before@.insert(topic@, next)[key] by {
                        let j = choose|j: int|
                            0 <= j < self.counters@.len() && self.counters@[j].0@ == key;
                        self.lemma_view_at(j);
                        if j != i {
                            before.lemma_view_at(j);
                        }
                    }
                    assert(self@ =~= before@.insert(topic@, next));
                }
                return (c % (queue_count as u64)) as usize;
            }
            i = i + 1;
        }
        let ghost before = *self;
        self.counters.push((t, 1));
        proof {
            assert(!before@.contains_key(topic@));
            assert forall|j: int, k: int|
                0 <= j < k < self.counters@.len() implies self.counters@[j].0@
                != self.counters@[k].0@ by {
                if k < n {
                    assert(before.counters@[j].0@ != before.counters@[k].0@);
                } else {
                    assert(before.counters@[j].0@ != topic@);
                }
            }
            assert forall|key: Seq<char>| #[trigger]
                self@.contains_key(key) == before@.insert(topic@, 1).contains_key(key) by {
                if before@.contains_key(key) {
                    let j = choose|j: int|
                        0 <= j < before.counters@.len() && before.counters@[j].0@ == key;
                    assert(self.counters@[j].0@ == key);
                }
                if key == topic@ {
                    assert(self.counters@[n as int].0@ == key);
                }
                if self@.contains_key(key) && key != topic@ {
                    let j = choose|j: int|
                        0 <= j < self.counters@.len() && self.counters@[j].0@ == key;
                    assert(before.counters@[j].0@ == key);
                }
            }
            assert forall|key: Seq<char>| #[trigger] self@.contains_key(key) implies self@[key]
                == before@.insert(topic@, 1)[key] by {
                let j = choose|j: int| 0 <= j < self.counters@.len() && self.counters@[j].0@ == key;
                self.lemma_view_at(j);
                if j != n {
                    before.lemma_view_at(j);
                }
            }
            assert(self@ =~= before@.insert(topic@, 1));
            assert(old(self).count_of(topic@) == 0);
            assert(0u64 % (queue_count as u64) == 0) by (nonlinear_arith)
                requires
                    queue_count > 0,
            ;
        }
        0
    }
}

/// A selection for topic `a`, which leaves the selector as `select`
/// says, never changes the counter of another topic `b`.
pub proof fn lemma_select_isolation(
    before: RoundRobinQueueSelector,
    after: RoundRobinQueueSelector,
    a: Seq<char>,
    b: Seq<char>,
)
    requires
        after@ == before@.insert(a, next_count(before.count_of(a))),
        a != b,
    ensures
        after.count_of(b) == before.count_of(b),
        after@.remove(a) == before@.remove(a),
{
    assert(after@.remove(a) =~= before@.remove(a));
}

/// A rotation is the index of the current counter followed by the rotation
/// from the next counter: each selection continues where the last stopped.
pub proof fn lemma_rotation_continues(c: int, q: int, n: nat)
    ensures
        rotation(c, q, n + 1) == seq![c % q] + rotation(c + 1, q, n),
{
    assert(rotation(c, q, n + 1) =~= seq![c % q] + rotation(c + 1, q, n));
}

/// The indices that `n` selections in a row for one topic over `q` queues
/// return when its counter starts at `c`, as `select` gives them.
pub open spec fn picks(c: u64, q: int, n: nat) -> Seq<int>
    decreases n,
{
    if n == 0 {
        Seq::empty()
    } else {
        seq![c as int % q] + picks(next_count(c), q, (n - 1) as nat)
    }
}

/// While the counter does not pass its largest value, successive selections
/// are the rotation from the starting counter.
pub proof fn lemma_picks_rotate(c: u64, q: int, n: nat)
    requires
        c + n <= u64::MAX,
    ensures
        picks(c, q, n) == rotation(c as int, q, n),
    decreases n,
{
    if n == 0 {
        assert(rotation(c as int, q, 0) =~= Seq::<int>::empty());
    } else {
        let m = (n - 1) as nat;
        lemma_picks_rotate((c + 1) as u64, q, m);
        lemma_rotation_continues(c as int, q, m);
    }
}

/// Each selection returns the index after the one before it, wrapping
/// round at `q`, while the counter does not pass its largest value.
pub proof fn lemma_picks_successive(c: u64, q: int, n: nat, j: int)
    requires
        q > 0,
        c + n <= u64::MAX,
        0 <= j,
        j + 1 < n,
    ensures
        picks(c, q, n)[j + 1] == (picks(c, q, n)[j] + 1) % q,
{
    lemma_picks_rotate(c, q, n);
    vstd::arithmetic::div_mod::lemma_add_mod_noop_right(1, c + j, q);
}

/// Over `q` queues, `k * q` selections in a row for one topic give each
/// index exactly `k` times, while the counter does not pass its largest
/// value.
pub proof fn lemma_select_fair(c: u64, q: nat, k: nat, x: int)
    requires
        q > 0,
        0 <= x < q,
        c + k * q <= u64::MAX,
    ensures
        occurrences(picks(c, q as int, k * q), x) == k,
{
    lemma_picks_rotate(c, q as int, k * q);
    lemma_rotation_fair(c as nat, q, k, x);
}

proof fn lemma_occurrences_append(s: Seq<int>, t: Seq<int>, x: int)
    ensures
        occurrences(s + t, x) == occurrences(s, x) + occurrences(t, x),
    decreases t.len(),
{
    if t.len() > 0 {
        lemma_occurrences_append(s, t.drop_last(), x);
        assert((s + t).drop_last() =~= s + t.drop_last());
    }
}

proof fn lemma_identity_occurrences(n: nat, q: nat, x: int)
    requires
        n <= q,
        0 <= x < q,
    ensures
        occurrences(rotation(0, q as int, n), x) == if x < n {
            1nat
        } else {
            0nat
        },
    decreases n,
{
    if n > 0 {
        lemma_identity_occurrences((n - 1) as nat, q, x);
        assert(rotation(0, q as int, n).drop_last() =~= rotation(0, q as int, (n - 1) as nat));
        vstd::arithmetic::div_mod::lemma_small_mod((n - 1) as nat, q);
    }
}

proof fn lemma_block_occurrences(c: nat, q: nat, x: int)
    requires
        q > 0,
        0 <= x < q,
    ensures
        occurrences(rotation(c as int, q as int, q), x) == 1,
    decreases c,
{
    if c == 0 {
        lemma_identity_occurrences(q, q, x);
    } else {
        let p = (c - 1) as nat;
        lemma_block_occurrences(p, q, x);
        let mid = rotation(c as int, q as int, (q - 1) as nat);
        let first = seq![p as int % q as int];
        let last = seq![(c + q - 1) as int % q as int];
        assert(rotation(p as int, q as int, q) =~= first + mid);
        assert(rotation(c as int, q as int, q) =~= mid + last);
        lemma_occurrences_append(first, mid, x);
        lemma_occurrences_append(mid, last, x);
        vstd::arithmetic::div_mod::lemma_mod_multiples_vanish(1, p as int, q as int);
        assert(first.drop_last() =~= Seq::<int>::empty());
        assert(last.drop_last() =~= Seq::<int>::empty());
    }
}

/// Over `q` queues, `k * q` selections in a row for one topic, starting from
/// any counter, give each index exactly `k` times.
pub proof fn lemma_rotation_fair(c: nat, q: nat, k: nat, x: int)
    requires
        q > 0,
        0 <= x < q,
    ensures
        occurrences(rotation(c as int, q as int, k * q), x) == k,
    decreases k,
{
    if k == 0 {
        assert(rotation(c as int, q as int, 0) =~= Seq::<int>::empty());
    } else {
        let j = (k - 1) as nat;
        lemma_rotation_fair(c, q, j, x);
        assert(k * q == j * q + q) by (nonlinear_arith)
            requires
                j == k - 1,
        ;
        let head = rotation(c as int, q as int, j * q);
        let tail = rotation((c + j * q) as int, q as int, q);
        assert(rotation(c as int, q as int, k * q) =~= head + tail);
        lemma_occurrences_append(head, tail, x);
        lemma_block_occurrences(c + j * q, q, x);
    }
}

} // verus!
