//! The order in which pages are prepared: outward from the current one.

use crate::arith::{distance, least};
use vstd::math::abs;
use vstd::prelude::*;

verus! {

/// Step `k` of a walk outward from `around`: `around` itself, one above, one
/// below, two above, two below, and so on.
pub open spec fn step(around: usize, k: nat) -> int {
    if k % 2 == 1 {
        around + (k + 1) / 2
    } else {
        around - k / 2
    }
}

/// The steps before step `k` that stay within `inclusive_min..exclusive_max`.
pub open spec fn outward_steps(
    around: usize,
    inclusive_min: usize,
    exclusive_max: usize,
    k: nat,
) -> Seq<usize>
    decreases k,
{
    if k == 0 {
        Seq::empty()
    } else {
        let before = outward_steps(around, inclusive_min, exclusive_max, (k - 1) as nat);
        let last = step(around, (k - 1) as nat);
        if inclusive_min <= last < exclusive_max {
            before.push(last as usize)
        } else {
            before
        }
    }
}

/// The numbers `inclusive_min..exclusive_max` in the order of a walk outward
/// from `around`.
pub open spec fn outward(around: usize, inclusive_min: usize, exclusive_max: usize) -> Seq<usize> {
    outward_steps(
        around,
        inclusive_min,
        exclusive_max,
        (2 * (exclusive_max - inclusive_min)) as nat,
    )
}

/// `around` can be the start of a walk over `inclusive_min..exclusive_max`.
pub open spec fn walkable(around: usize, inclusive_min: usize, exclusive_max: usize) -> bool {
    &&& inclusive_min <= exclusive_max
    &&& inclusive_min < exclusive_max ==> inclusive_min <= around < exclusive_max
}

proof fn lemma_steps_len(around: usize, lo: usize, hi: usize, k: nat)
    requires
        lo <= around < hi,
    ensures
        outward_steps(around, lo, hi, k).len() == if k == 0 {
            0
        } else {
            1 + least(k as int / 2, hi - 1 - around) + least((k - 1) / 2, around - lo)
        },
    decreases k,
{
    if k > 0 {
        lemma_steps_len(around, lo, hi, (k - 1) as nat);
    }
}

/// Earlier steps come first.
proof fn lemma_steps_prefix(around: usize, lo: usize, hi: usize, a: nat, b: nat)
    requires
        a <= b,
    ensures
        outward_steps(around, lo, hi, a).len() <= outward_steps(around, lo, hi, b).len(),
        outward_steps(around, lo, hi, a) == outward_steps(around, lo, hi, b).take(
            outward_steps(around, lo, hi, a).len() as int,
        ),
    decreases b,
{
    let s = outward_steps(around, lo, hi, a);
    if a == b {
        assert(s.take(s.len() as int) =~= s);
    } else {
        lemma_steps_prefix(around, lo, hi, a, (b - 1) as nat);
        let before = outward_steps(around, lo, hi, (b - 1) as nat);
        let now = outward_steps(around, lo, hi, b);
        assert(now.take(s.len() as int) =~= before.take(s.len() as int));
    }
}

proof fn lemma_steps_contain(around: usize, lo: usize, hi: usize, k: nat, c: usize)
    ensures
        outward_steps(around, lo, hi, k).contains(c) <==> lo <= c < hi && exists|j: nat|
            j < k && #[trigger] step(around, j) == c,
        forall|i: int, j: int|
            0 <= i < j < outward_steps(around, lo, hi, k).len() ==> outward_steps(
                around,
                lo,
                hi,
                k,
            )[i] != outward_steps(around, lo, hi, k)[j],
    decreases k,
{
    if k > 0 {
        let before = outward_steps(around, lo, hi, (k - 1) as nat);
        let now = outward_steps(around, lo, hi, k);
        let last = step(around, (k - 1) as nat);
        lemma_steps_contain(around, lo, hi, (k - 1) as nat, c);
        if lo <= last < hi {
            lemma_steps_contain(around, lo, hi, (k - 1) as nat, last as usize);
            crate::seqs::lemma_push_contains(before, last as usize, c);
            assert(!before.contains(last as usize));
            assert forall|i: int, j: int| 0 <= i < j < now.len() implies now[i] != now[j] by {
                if j == before.len() {
                    assert(before[i] == now[i]);
                }
            }
        }
        if exists|j: nat| j < k && #[trigger] step(around, j) == c {
            let j = choose|j: nat| j < k && #[trigger] step(around, j) == c;
            if j < k - 1 {
            } else {
                assert(last == c);
            }
        }
    }
}

enum PlusOrMinus {
    Plus,
    Minus,
}

/// Goes outward from `around`, alternating above and below, clipped at the
/// bounds: the current page first, then one to either side, then two, and so
/// on.
pub struct InterleavedAroundWithMax {
    around: usize,
    inclusive_min: usize,
    exclusive_max: usize,
    remaining: usize,
    next_change: usize,
    next_op: PlusOrMinus,
    yielded_current: bool,
}

impl InterleavedAroundWithMax {
    /// The number of steps taken so far.
    spec fn steps(&self) -> nat {
        if !self.yielded_current {
            0
        } else {
            match self.next_op {
                PlusOrMinus::Plus => (2 * self.next_change - 1) as nat,
                PlusOrMinus::Minus => (2 * self.next_change) as nat,
            }
        }
    }

    pub closed spec fn wf(&self) -> bool {
        &&& walkable(self.around, self.inclusive_min, self.exclusive_max)
        &&& self.next_change >= 1
        &&& !self.yielded_current ==> self.next_change == 1 && self.next_op is Plus
        &&& self.remaining == self.exclusive_max - self.inclusive_min - outward_steps(
            self.around,
            self.inclusive_min,
            self.exclusive_max,
            self.steps(),
        ).len()
    }

    /// What is still to come.
    pub closed spec fn rest(&self) -> Seq<usize> {
        outward(self.around, self.inclusive_min, self.exclusive_max).skip(
            self.exclusive_max - self.inclusive_min - self.remaining,
        )
    }

    /// A walk over the numbers `inclusive_min..exclusive_max`, outward from
    /// `around`, which is one of them.
    #[must_use]
    pub fn new(around: usize, inclusive_min: usize, exclusive_max: usize) -> (walk: Self)
        requires
            walkable(around, inclusive_min, exclusive_max),
        ensures
            walk.wf(),
            walk.rest() == outward(around, inclusive_min, exclusive_max),
    {
        let walk = Self {
            around,
            inclusive_min,
            exclusive_max,
            remaining: exclusive_max - inclusive_min,
            next_change: 1,
            next_op: PlusOrMinus::Plus,
            yielded_current: false,
        };
        assert(walk.rest() =~= outward(around, inclusive_min, exclusive_max));
        walk
    }

    /// The next number of the walk.
    #[verifier::spinoff_prover]
    pub fn next(&mut self) -> (item: Option<usize>)
        requires
            old(self).wf(),
        ensures
            final(self).wf(),
            old(self).rest().len() == 0 ==> item is None && *final(self) == *old(self),
            old(self).rest().len() > 0 ==> item == Some(old(self).rest()[0]) && final(self).rest()
                == old(self).rest().skip(1),
    {
        let ghost around = self.around;
        let ghost lo = self.inclusive_min;
        let ghost hi = self.exclusive_max;
        let ghost all = outward(around, lo, hi);
        let ghost end = (2 * (hi - lo)) as nat;
        let ghost done = hi - lo - self.remaining;
        proof {
            if lo < hi {
                lemma_steps_len(around, lo, hi, end);
            }
            assert(all.len() == hi - lo);
        }
        if self.remaining == 0 {
            return None;
        }
        if !self.yielded_current {
            self.yielded_current = true;
            self.remaining -= 1;
            proof {
                reveal_with_fuel(outward_steps, 2);
                assert(step(around, 0) == around);
                lemma_steps_prefix(around, lo, hi, 1, end);
                assert(outward_steps(around, lo, hi, 1)[0] == around);
                assert(all[0] == around);
                assert(self.rest() =~= old(self).rest().skip(1));
            }
            return Some(self.around);
        }
        while self.remaining > 0
            invariant
                self.wf(),
                self.yielded_current,
                self.remaining > 0,
                self.remaining == old(self).remaining,
                self.around == around,
                self.inclusive_min == lo,
                self.exclusive_max == hi,
                lo < hi,
                all == outward(around, lo, hi),
                end == 2 * (hi - lo),
                done == hi - lo - self.remaining,
                all.len() == hi - lo,
                old(self).rest() == all.skip(done),
                old(self).wf(),
            decreases 2 * (hi - lo) - self.steps(),
        {
            let ghost k = self.steps();
            proof {
                lemma_steps_len(around, lo, hi, k);
                assert(k < end);
            }
            let candidate: Option<usize> = match self.next_op {
                PlusOrMinus::Plus => self.around.checked_add(self.next_change),
                PlusOrMinus::Minus => self.around.checked_sub(self.next_change),
            };
            match self.next_op {
                PlusOrMinus::Plus => {
                    self.next_op = PlusOrMinus::Minus;
                },
                PlusOrMinus::Minus => {
                    self.next_change += 1;
                    self.next_op = PlusOrMinus::Plus;
                },
            }
            proof {
                assert(self.steps() == k + 1);
                lemma_steps_len(around, lo, hi, k + 1);
                lemma_steps_prefix(around, lo, hi, k + 1, end);
            }
            if let Some(next_val) = candidate {
                if next_val >= self.inclusive_min && next_val < self.exclusive_max {
                    proof {
                        assert(step(around, k) == next_val);
                        let s = outward_steps(around, lo, hi, k + 1);
                        assert(s.len() == done + 1);
                        assert(s[done] == next_val);
                        assert(all[done] == s[done]);
                    }
                    self.remaining -= 1;
                    proof {
                        assert(self.rest() =~= old(self).rest().skip(1));
                    }
                    return Some(next_val);
                }
            }
        }
        None
    }

    /// All that is still to come, in order.
    pub fn collect(self) -> (items: Vec<usize>)
        requires
            self.wf(),
        ensures
            items@ == self.rest(),
    {
        let ghost all = self.rest();
        let mut walk = self;
        let mut items: Vec<usize> = Vec::new();
        loop
            invariant
                walk.wf(),
                items@ + walk.rest() == all,
            ensures
                items@ == all,
            decreases walk.rest().len(),
        {
            let ghost rest = walk.rest();
            match walk.next() {
                None => {
                    assert(items@ =~= all);
                    break ;
                },
                Some(item) => {
                    let ghost before = items@;
                    items.push(item);
                    assert(items@ + walk.rest() =~= before + rest);
                },
            }
        }
        items
    }
}

/// A walk visits every number within its bounds, each of them once, and no
/// other.
pub proof fn law_walk_visits_each_once(around: usize, inclusive_min: usize, exclusive_max: usize)
    requires
        walkable(around, inclusive_min, exclusive_max),
    ensures
        outward(around, inclusive_min, exclusive_max).len() == exclusive_max - inclusive_min,
        outward(around, inclusive_min, exclusive_max).no_duplicates(),
        forall|c: usize| #[trigger]
            outward(around, inclusive_min, exclusive_max).contains(c) <==> inclusive_min <= c
                < exclusive_max,
{
    let end = (2 * (exclusive_max - inclusive_min)) as nat;
    if inclusive_min < exclusive_max {
        lemma_steps_len(around, inclusive_min, exclusive_max, end);
    }
    lemma_steps_contain(around, inclusive_min, exclusive_max, end, around);
    assert forall|c: usize| #[trigger]
        outward(around, inclusive_min, exclusive_max).contains(c) <==> inclusive_min <= c
            < exclusive_max by {
        lemma_steps_contain(around, inclusive_min, exclusive_max, end, c);
        if inclusive_min <= c < exclusive_max {
            let k = if c > around {
                (2 * (c - around) - 1) as nat
            } else {
                (2 * (around - c)) as nat
            };
            assert(step(around, k) == c);
        }
    }
}

proof fn lemma_steps_go_outward(around: usize, lo: usize, hi: usize, k: nat)
    ensures
        forall|i: int|
            0 <= i < outward_steps(around, lo, hi, k).len() ==> 2 * distance(
                around,
                #[trigger] outward_steps(around, lo, hi, k)[i],
            ) <= k,
        forall|i: int, j: int|
            0 <= i < j < outward_steps(around, lo, hi, k).len() ==> distance(
                around,
                #[trigger] outward_steps(around, lo, hi, k)[i],
            ) <= distance(around, #[trigger] outward_steps(around, lo, hi, k)[j]),
    decreases k,
{
    if k > 0 {
        lemma_steps_go_outward(around, lo, hi, (k - 1) as nat);
        let before = outward_steps(around, lo, hi, (k - 1) as nat);
        let now = outward_steps(around, lo, hi, k);
        assert forall|i: int, j: int| 0 <= i < j < now.len() implies distance(
            around,
            #[trigger] now[i],
        ) <= distance(around, #[trigger] now[j]) by {
            assert(now[i] == before[i]);
            if j < before.len() {
                assert(now[j] == before[j]);
            }
        }
    }
}

proof fn lemma_above_before_below(around: usize, lo: usize, hi: usize, k: nat)
    ensures
        forall|i: int, j: int|
            0 <= i < outward_steps(around, lo, hi, k).len() && 0 <= j < outward_steps(
                around,
                lo,
                hi,
                k,
            ).len() && (#[trigger] outward_steps(around, lo, hi, k)[i]) - around == around - (
            #[trigger] outward_steps(around, lo, hi, k)[j]) && outward_steps(around, lo, hi, k)[i]
                > around ==> i < j,
    decreases k,
{
    if k > 0 {
        lemma_above_before_below(around, lo, hi, (k - 1) as nat);
        lemma_steps_go_outward(around, lo, hi, (k - 1) as nat);
        let before = outward_steps(around, lo, hi, (k - 1) as nat);
        let now = outward_steps(around, lo, hi, k);
        assert forall|i: int, j: int|
            0 <= i < now.len() && 0 <= j < now.len() && (#[trigger] now[i]) - around == around - (
            #[trigger] now[j]) && now[i] > around implies i < j by {
            if i < before.len() && j < before.len() {
                assert(now[i] == before[i] && now[j] == before[j]);
            } else if i == before.len() && j < before.len() {
                // The last step went up by as much as an earlier one went down,
                // which lies farther out than a step of that number can.
                assert(now[j] == before[j]);
                assert(2 * distance(around, before[j]) <= k - 1);
                assert(now[i] == step(around, (k - 1) as nat));
            }
        }
    }
}

/// A walk starts at `around`, never comes back nearer to it, and of two equally
/// near numbers visits the one above first.
pub proof fn law_walk_goes_outward(around: usize, inclusive_min: usize, exclusive_max: usize)
    requires
        walkable(around, inclusive_min, exclusive_max),
    ensures
        inclusive_min < exclusive_max ==> outward(around, inclusive_min, exclusive_max)[0]
            == around,
        forall|i: int, j: int|
            0 <= i < j < outward(around, inclusive_min, exclusive_max).len() ==> distance(
                around,
                #[trigger] outward(around, inclusive_min, exclusive_max)[i],
            ) <= distance(around, #[trigger] outward(around, inclusive_min, exclusive_max)[j]),
        forall|i: int, j: int|
            0 <= i < outward(around, inclusive_min, exclusive_max).len() && 0 <= j < outward(
                around,
                inclusive_min,
                exclusive_max,
            ).len() && (#[trigger] outward(around, inclusive_min, exclusive_max)[i]) - around
                == around - (#[trigger] outward(around, inclusive_min, exclusive_max)[j])
                && outward(around, inclusive_min, exclusive_max)[i] > around ==> i < j,
{
    let end = (2 * (exclusive_max - inclusive_min)) as nat;
    lemma_steps_go_outward(around, inclusive_min, exclusive_max, end);
    lemma_above_before_below(around, inclusive_min, exclusive_max, end);
    if inclusive_min < exclusive_max {
        reveal_with_fuel(outward_steps, 2);
        lemma_steps_prefix(around, inclusive_min, exclusive_max, 1, end);
        assert(step(around, 0) == around);
        assert(outward_steps(around, inclusive_min, exclusive_max, 1)[0] == around);
    }
}

/// A walk that has begun at `around` comes to no number before a nearer one.
pub proof fn law_walk_by_nearness(
    around: usize,
    inclusive_min: usize,
    exclusive_max: usize,
    i: int,
    j: int,
)
    requires
        inclusive_min <= around < exclusive_max,
        0 <= i < j < exclusive_max - inclusive_min,
    ensures
        ({
            let walk = outward(around, inclusive_min, exclusive_max);
            &&& walk[0] == around
            &&& walk[i] != walk[j]
            &&& inclusive_min <= walk[i] < exclusive_max && inclusive_min <= walk[j] < exclusive_max
            &&& abs(walk[i] - around) <= abs(walk[j] - around)
            &&& abs(walk[i] - around) == abs(walk[j] - around) ==> walk[i] > walk[j]
        }),
{
    let walk = outward(around, inclusive_min, exclusive_max);
    law_walk_visits_each_once(around, inclusive_min, exclusive_max);
    law_walk_goes_outward(around, inclusive_min, exclusive_max);
    assert(walk.contains(walk[i]) && walk.contains(walk[j]));
    assert(distance(around, walk[i]) <= distance(around, walk[j]));
    if walk[i] < walk[j] && abs(walk[i] - around) == abs(walk[j] - around) {
        assert(walk[j] - around == around - walk[i]);
        assert(false);
    }
}

/// A walk can begin at any number within its bounds, and anywhere if there are
/// none.
pub proof fn law_where_a_walk_begins(around: usize, inclusive_min: usize, exclusive_max: usize)
    ensures
        walkable(around, inclusive_min, exclusive_max) <==> inclusive_min <= around < exclusive_max
            || inclusive_min == exclusive_max,
{
}

} // verus!
